//! Highlighting one line of a source text: the characters of the line with
//! the marks that open and close the highlighted spans between them.

use vstd::prelude::*;
use crate::source::LineColumn;
use crate::source::Span;
use crate::source::pos_lt;

verus! {

/// One piece of a rendered line.
pub enum Piece {
    /// A character of the text.
    Char(char),
    /// The start of a highlight.
    Open,
    /// The end of a highlight.
    Close,
}

/// A character as it stands in HTML: `&`, `<` and `>` are escaped, every
/// other character stands for itself.
pub open spec fn escaped(c: char) -> Seq<char> {
    if c == '&' {
        "&amp;"@
    } else if c == '<' {
        "&lt;"@
    } else if c == '>' {
        "&gt;"@
    } else {
        seq![c]
    }
}

/// The piece that holds the character `c`.
pub open spec fn char_piece(c: char) -> Piece {
    Piece::Char(c)
}

/// The HTML of one piece.
pub open spec fn piece_html(p: Piece) -> Seq<char> {
    match p {
        Piece::Char(c) => escaped(c),
        Piece::Open => "<mark>"@,
        Piece::Close => "</mark>"@,
    }
}

/// The HTML of a run of pieces.
pub open spec fn pieces_html(ps: Seq<Piece>) -> Seq<char>
    decreases ps.len(),
{
    if ps.len() == 0 {
        Seq::empty()
    } else {
        pieces_html(ps.drop_last()) + piece_html(ps.last())
    }
}

/// The characters of a run of pieces, without the marks.
pub open spec fn pieces_text(ps: Seq<Piece>) -> Seq<char>
    decreases ps.len(),
{
    if ps.len() == 0 {
        Seq::empty()
    } else {
        pieces_text(ps.drop_last()) + (match ps.last() {
            Piece::Char(c) => seq![c],
            _ => Seq::empty(),
        })
    }
}

/// Appends a character to `html`, escaped.
pub fn html_escape(html: &mut String, ch: char)
    ensures
        final(html)@ == old(html)@ + escaped(ch),
{
    if ch == '&' {
        html.append("&amp;");
    } else if ch == '<' {
        html.append("&lt;");
    } else if ch == '>' {
        html.append("&gt;");
    } else {
        html.push(ch);
        assert(html@ =~= old(html)@ + seq![ch]);
    }
}

/// Where the highlight changes next: at the end of the pending span while a
/// highlight is open, at its start otherwise. `None` where no span is
/// pending.
pub open spec fn target(spans: Seq<Span>, mark: bool, next: int) -> Option<LineColumn> {
    if 0 <= next < spans.len() {
        Some(
            if mark {
                spans[next].end
            } else {
                spans[next].start
            },
        )
    } else {
        None
    }
}

/// Whether the position `pos` has reached the target.
pub open spec fn reached(pos: LineColumn, t: Option<LineColumn>) -> bool {
    match t {
        Some(p) => !pos_lt(pos, p),
        None => false,
    }
}

/// The piece that changes the highlight.
pub open spec fn toggle_piece(mark: bool) -> Piece {
    if mark {
        Piece::Close
    } else {
        Piece::Open
    }
}

/// The pending span after the highlight has changed: closing a highlight
/// moves on to the next span.
pub open spec fn toggle_next(mark: bool, next: int) -> int {
    if mark {
        next + 1
    } else {
        next
    }
}

/// The pieces of a stretch of a line, and the state of the highlight behind
/// it.
pub struct Walk {
    pub pieces: Seq<Piece>,
    /// Whether a highlight is open.
    pub mark: bool,
    /// The place of the pending span among the spans.
    pub next: int,
}

/// The position of column `j` in line `line`.
pub open spec fn position(line: usize, j: int) -> LineColumn {
    LineColumn { line, column: j as usize }
}

/// The characters of the line from column `j` on. At each character the
/// highlight changes as long as the position has reached the target; then
/// the character follows.
pub open spec fn walk(chars: Seq<char>, j: int, line: usize, spans: Seq<Span>, mark: bool, next: int) -> Walk
    decreases chars.len() - j, 2 * (spans.len() - next) + (if mark {
        0int
    } else {
        1int
    }),
{
    if j < 0 || j >= chars.len() {
        Walk { pieces: Seq::empty(), mark, next }
    } else if reached(position(line, j), target(spans, mark, next)) {
        let rest = walk(chars, j, line, spans, !mark, toggle_next(mark, next));
        Walk { pieces: seq![toggle_piece(mark)] + rest.pieces, mark: rest.mark, next: rest.next }
    } else {
        let rest = walk(chars, j + 1, line, spans, mark, next);
        let piece = char_piece(chars[j]);
        Walk { pieces: seq![piece] + rest.pieces, mark: rest.mark, next: rest.next }
    }
}

/// The pieces of one line, which starts with the highlight in the state
/// `mark`, `next`. A highlight that is open at the start of the line is
/// opened anew, and one that is open at its end is closed there. Behind the
/// last character of a line the highlight changes once more where the
/// position has reached the target.
pub open spec fn line_walk(chars: Seq<char>, line: usize, spans: Seq<Span>, mark: bool, next: int) -> Walk {
    let opening = if mark {
        seq![Piece::Open]
    } else {
        Seq::empty()
    };
    let body = walk(chars, 0, line, spans, mark, next);
    let at_end = chars.len() > 0 && reached(
        position(line, chars.len() as int),
        target(spans, body.mark, body.next),
    );
    let ending = if at_end {
        seq![toggle_piece(body.mark)]
    } else {
        Seq::empty()
    };
    let last_mark = if at_end {
        !body.mark
    } else {
        body.mark
    };
    let last_next = if at_end {
        toggle_next(body.mark, body.next)
    } else {
        body.next
    };
    let closing = if last_mark {
        seq![Piece::Close]
    } else {
        Seq::empty()
    };
    Walk { pieces: opening + body.pieces + ending + closing, mark: last_mark, next: last_next }
}

/// The HTML of a run with one more piece is the HTML of the run and the HTML
/// of the piece.
pub proof fn lemma_pieces_html_push(ps: Seq<Piece>, p: Piece)
    ensures
        pieces_html(ps.push(p)) == pieces_html(ps) + piece_html(p),
{
    assert(ps.push(p).drop_last() =~= ps);
}

/// The characters of two runs are those of the first and those of the
/// second.
pub proof fn lemma_pieces_text_concat(a: Seq<Piece>, b: Seq<Piece>)
    ensures
        pieces_text(a + b) == pieces_text(a) + pieces_text(b),
    decreases b.len(),
{
    if b.len() == 0 {
        assert(a + b =~= a);
    } else {
        lemma_pieces_text_concat(a, b.drop_last());
        assert((a + b).drop_last() =~= a + b.drop_last());
        assert((a + b).last() == b.last());
    }
}

/// Whether the position `pos` has reached the target.
fn has_reached(pos: LineColumn, spans: &Vec<Span>, mark: bool, next: usize) -> (r: bool)
    ensures
        r == reached(pos, target(spans@, mark, next as int)),
{
    if next < spans.len() {
        let t = if mark {
            spans[next].end
        } else {
            spans[next].start
        };
        !pos.before(&t)
    } else {
        false
    }
}

/// The state of a highlight: whether one is open, and the place of the
/// pending span.
#[derive(Clone, Copy, Debug, PartialEq, Eq, Structural)]
pub struct Cursor {
    pub mark: bool,
    pub next: usize,
}

/// Appends one line to `html`, highlighted, and returns the state of the
/// highlight behind it.
pub fn push_line(html: &mut String, chars: &[char], line: usize, spans: &Vec<Span>, start: Cursor) -> (end:
    Cursor)
    requires
        start.next <= spans.len(),
    ensures
        final(html)@ == old(html)@ + pieces_html(
            line_walk(chars@, line, spans@, start.mark, start.next as int).pieces,
        ),
        end.mark == line_walk(chars@, line, spans@, start.mark, start.next as int).mark,
        end.next == line_walk(chars@, line, spans@, start.mark, start.next as int).next,
        end.next <= spans.len(),
{
    let ghost body = walk(chars@, 0, line, spans@, start.mark, start.next as int);
    let ghost mut done: Seq<Piece> = Seq::empty();
    let mut mark = start.mark;
    let mut next = start.next;
    if mark {
        html.append("<mark>");
        proof {
            done = done.push(Piece::Open);
            lemma_pieces_html_push(Seq::empty(), Piece::Open);
        }
    }
    let ghost opening = done;
    let ghost mut walked: Seq<Piece> = Seq::empty();
    let mut j: usize = 0;
    proof {
        assert(opening + walked =~= opening);
    }
    while j < chars.len()
        invariant
            j <= chars.len(),
            next <= spans.len(),
            html@ == old(html)@ + pieces_html(opening + walked),
            body == walk(chars@, 0, line, spans@, start.mark, start.next as int),
            body.pieces == walked + walk(chars@, j as int, line, spans@, mark, next as int).pieces,
            body.mark == walk(chars@, j as int, line, spans@, mark, next as int).mark,
            body.next == walk(chars@, j as int, line, spans@, mark, next as int).next,
        decreases chars.len() - j, 2 * (spans.len() - next) + (if mark {
            0int
        } else {
            1int
        }),
    {
        let pos = LineColumn { line, column: j };
        let ghost rest = walk(chars@, j as int, line, spans@, mark, next as int);
        if has_reached(pos, spans, mark, next) {
            let ghost piece = toggle_piece(mark);
            if mark {
                html.append("</mark>");
                next = next + 1;
            } else {
                html.append("<mark>");
            }
            mark = !mark;
            proof {
                lemma_pieces_html_push(opening + walked, piece);
                assert((opening + walked).push(piece) =~= opening + walked.push(piece));
                let after = walk(chars@, j as int, line, spans@, mark, next as int);
                assert(rest.pieces =~= seq![piece] + after.pieces);
                assert(walked.push(piece) + after.pieces =~= walked + rest.pieces);
                walked = walked.push(piece);
            }
        } else {
            html_escape(html, chars[j]);
            proof {
                let piece = char_piece(chars@[j as int]);
                lemma_pieces_html_push(opening + walked, piece);
                assert((opening + walked).push(piece) =~= opening + walked.push(piece));
                let after = walk(chars@, j + 1, line, spans@, mark, next as int);
                assert(rest.pieces =~= seq![piece] + after.pieces);
                assert(walked.push(piece) + after.pieces =~= walked + rest.pieces);
                walked = walked.push(piece);
            }
            j += 1;
        }
    }
    proof {
        assert(walked =~= body.pieces);
    }
    let ghost mut tail: Seq<Piece> = Seq::empty();
    if chars.len() > 0 && has_reached(LineColumn { line, column: chars.len() }, spans, mark, next) {
        let ghost piece = toggle_piece(mark);
        if mark {
            html.append("</mark>");
            next = next + 1;
        } else {
            html.append("<mark>");
        }
        mark = !mark;
        proof {
            lemma_pieces_html_push(opening + walked, piece);
            tail = tail.push(piece);
            assert((opening + walked).push(piece) =~= opening + walked + tail);
        }
    } else {
        proof {
            assert(opening + walked =~= opening + walked + tail);
        }
    }
    if mark {
        html.append("</mark>");
        proof {
            lemma_pieces_html_push(opening + walked + tail, Piece::Close);
            assert((opening + walked + tail).push(Piece::Close) =~= opening + walked + tail + seq![
                Piece::Close,
            ]);
        }
    } else {
        proof {
            assert(opening + walked + tail =~= opening + walked + tail + Seq::<Piece>::empty());
        }
    }
    Cursor { mark, next }
}

/// A rendered line holds the characters of the line, all of them and in
/// their order: the pieces of a line without the marks are the line.
pub proof fn law_line_keeps_text(chars: Seq<char>, line: usize, spans: Seq<Span>, mark: bool, next: int)
    ensures
        pieces_text(line_walk(chars, line, spans, mark, next).pieces) == chars,
{
    lemma_walk_keeps_text(chars, 0, line, spans, mark, next);
    let opening = if mark {
        seq![Piece::Open]
    } else {
        Seq::empty()
    };
    let body = walk(chars, 0, line, spans, mark, next);
    let at_end = chars.len() > 0 && reached(
        position(line, chars.len() as int),
        target(spans, body.mark, body.next),
    );
    let ending = if at_end {
        seq![toggle_piece(body.mark)]
    } else {
        Seq::empty()
    };
    let last_mark = if at_end {
        !body.mark
    } else {
        body.mark
    };
    let closing = if last_mark {
        seq![Piece::Close]
    } else {
        Seq::empty()
    };
    lemma_pieces_text_concat(opening + body.pieces + ending, closing);
    lemma_pieces_text_concat(opening + body.pieces, ending);
    lemma_pieces_text_concat(opening, body.pieces);
    lemma_pieces_text_marks(opening);
    lemma_pieces_text_marks(ending);
    lemma_pieces_text_marks(closing);
    assert(chars.skip(0) =~= chars);
    assert(pieces_text(line_walk(chars, line, spans, mark, next).pieces) =~= chars);
}

/// A run of at most one mark holds no character.
pub proof fn lemma_pieces_text_marks(ps: Seq<Piece>)
    requires
        ps.len() <= 1,
        ps.len() == 1 ==> !(ps[0] is Char),
    ensures
        pieces_text(ps) == Seq::<char>::empty(),
{
    if ps.len() == 1 {
        assert(ps.drop_last().len() == 0);
        assert(pieces_text(ps.drop_last()) =~= Seq::<char>::empty());
        assert(pieces_text(ps) =~= Seq::<char>::empty());
    }
}

/// The pieces of the line from column `j` on hold the characters of the line
/// from that column on.
pub proof fn lemma_walk_keeps_text(
    chars: Seq<char>,
    j: int,
    line: usize,
    spans: Seq<Span>,
    mark: bool,
    next: int,
)
    requires
        0 <= j <= chars.len(),
    ensures
        pieces_text(walk(chars, j, line, spans, mark, next).pieces) == chars.skip(j),
    decreases chars.len() - j, 2 * (spans.len() - next) + (if mark {
        0int
    } else {
        1int
    }),
{
    if j >= chars.len() {
        assert(chars.skip(j) =~= Seq::<char>::empty());
    } else if reached(position(line, j), target(spans, mark, next)) {
        let rest = walk(chars, j, line, spans, !mark, toggle_next(mark, next));
        lemma_walk_keeps_text(chars, j, line, spans, !mark, toggle_next(mark, next));
        lemma_pieces_text_concat(seq![toggle_piece(mark)], rest.pieces);
        lemma_pieces_text_marks(seq![toggle_piece(mark)]);
        assert(Seq::<char>::empty() + chars.skip(j) =~= chars.skip(j));
    } else {
        let rest = walk(chars, j + 1, line, spans, mark, next);
        lemma_walk_keeps_text(chars, j + 1, line, spans, mark, next);
        let c = chars[j];
        let piece = char_piece(c);
        let one = seq![piece];
        lemma_pieces_text_concat(one, rest.pieces);
        assert(one.drop_last() =~= Seq::<Piece>::empty());
        assert(pieces_text(one.drop_last()) =~= Seq::<char>::empty());
        assert(one.last() == piece);
        assert(pieces_text(one) =~= seq![c]);
        assert(seq![c] + chars.skip(j + 1) =~= chars.skip(j));
    }
}


/// The pieces that hold the characters of a text, without any mark.
pub open spec fn text_pieces(text: Seq<char>) -> Seq<Piece> {
    text.map_values(|c: char| char_piece(c))
}

/// A stretch of a line in which the position does not reach the target is
/// rendered as its characters, and leaves the highlight as it is.
pub proof fn lemma_walk_run(
    chars: Seq<char>,
    j: int,
    k: int,
    line: usize,
    spans: Seq<Span>,
    mark: bool,
    next: int,
)
    requires
        0 <= j <= k <= chars.len(),
        forall|i: int| j <= i < k ==> !reached(#[trigger] position(line, i), target(spans, mark, next)),
    ensures
        walk(chars, j, line, spans, mark, next).pieces == text_pieces(chars.subrange(j, k)) + walk(
            chars,
            k,
            line,
            spans,
            mark,
            next,
        ).pieces,
        walk(chars, j, line, spans, mark, next).mark == walk(chars, k, line, spans, mark, next).mark,
        walk(chars, j, line, spans, mark, next).next == walk(chars, k, line, spans, mark, next).next,
    decreases k - j,
{
    if j == k {
        assert(text_pieces(chars.subrange(j, k)) + walk(chars, k, line, spans, mark, next).pieces
            =~= walk(chars, k, line, spans, mark, next).pieces);
    } else {
        assert(!reached(position(line, j), target(spans, mark, next)));
        lemma_walk_run(chars, j + 1, k, line, spans, mark, next);
        let piece = char_piece(chars[j]);
        assert(text_pieces(chars.subrange(j, k)) =~= seq![piece] + text_pieces(
            chars.subrange(j + 1, k),
        ));
        assert(walk(chars, j, line, spans, mark, next).pieces =~= text_pieces(chars.subrange(j, k))
            + walk(chars, k, line, spans, mark, next).pieces);
    }
}

/// A line that holds the one span there is, and starts without a highlight,
/// is rendered as the characters before the span, the mark that opens the
/// highlight, the characters of the span, the mark that closes it and the
/// characters behind the span.
pub proof fn law_one_span_in_line(chars: Seq<char>, line: usize, span: Span)
    requires
        span.start.line == line,
        span.end.line == line,
        span.start.column < span.end.column <= chars.len(),
    ensures
        line_walk(chars, line, seq![span], false, 0).pieces == text_pieces(
            chars.take(span.start.column as int),
        ) + seq![Piece::Open] + text_pieces(
            chars.subrange(span.start.column as int, span.end.column as int),
        ) + seq![Piece::Close] + text_pieces(chars.skip(span.end.column as int)),
        !line_walk(chars, line, seq![span], false, 0).mark,
        line_walk(chars, line, seq![span], false, 0).next == 1,
{
    let spans = seq![span];
    let a = span.start.column as int;
    let b = span.end.column as int;
    let n = chars.len() as int;
    assert(spans[0] == span);
    assert(target(spans, false, 0) == Some(span.start));
    assert(target(spans, true, 0) == Some(span.end));
    assert(target(spans, false, 1) == None::<LineColumn>);
    lemma_walk_run(chars, 0, a, line, spans, false, 0);
    assert(reached(position(line, a), target(spans, false, 0)));
    let opened = walk(chars, a, line, spans, true, 0);
    assert(walk(chars, a, line, spans, false, 0).pieces =~= seq![Piece::Open] + opened.pieces);
    lemma_walk_run(chars, a, b, line, spans, true, 0);
    let body = walk(chars, 0, line, spans, false, 0);
    assert(chars.subrange(0, a) =~= chars.take(a));
    if b < n {
        assert(reached(position(line, b), target(spans, true, 0)));
        let closed = walk(chars, b, line, spans, false, 1);
        assert(walk(chars, b, line, spans, true, 0).pieces =~= seq![Piece::Close] + closed.pieces);
        lemma_walk_run(chars, b, n, line, spans, false, 1);
        assert(walk(chars, n, line, spans, false, 1).pieces =~= Seq::<Piece>::empty());
        assert(chars.subrange(b, n) =~= chars.skip(b));
        assert(body.pieces =~= text_pieces(chars.take(a)) + seq![Piece::Open] + text_pieces(
            chars.subrange(a, b),
        ) + seq![Piece::Close] + text_pieces(chars.skip(b)));
        assert(!body.mark && body.next == 1);
        assert(line_walk(chars, line, spans, false, 0).pieces =~= body.pieces);
    } else {
        assert(walk(chars, n, line, spans, true, 0).pieces =~= Seq::<Piece>::empty());
        assert(body.pieces =~= text_pieces(chars.take(a)) + seq![Piece::Open] + text_pieces(
            chars.subrange(a, b),
        ));
        assert(body.mark && body.next == 0);
        assert(reached(position(line, n), target(spans, true, 0)));
        assert(text_pieces(chars.skip(b)) =~= Seq::<Piece>::empty());
        assert(line_walk(chars, line, spans, false, 0).pieces =~= body.pieces + seq![Piece::Close]);
    }
}

} // verus!
