//! The two forms of attribute that suppress a lint, read from the tokens of
//! the attribute's argument list.
//!
//! A list of paths is a run of paths with a comma between each two and,
//! optionally, one after the last. A path is a run of words with `::` between
//! each two and, optionally, one in front.

use vstd::prelude::*;
use crate::source::LineColumn;
use crate::source::Span;
use crate::text::same_str;
use crate::token::KindView;
use crate::token::Token;
use crate::token::TokenKind;
use crate::token::TokenView;
use crate::token::tokens_view;

verus! {

/// Why an argument list is no suppression.
#[derive(Clone, Copy, Debug, PartialEq, Eq, Structural)]
pub enum ParseError {
    /// The tokens do not have the form that was looked for.
    Syntax,
    /// The form is the conditional one, for another feature than
    /// `cargo-clippy`.
    Feature,
}

/// A suppressed lint: its name and the span that is to be highlighted.
pub type FindingView = (Seq<char>, Span);

/// The findings of a list, each by what it holds.
pub open spec fn findings_view(findings: Seq<(String, Span)>) -> Seq<FindingView> {
    findings.map_values(|f: (String, Span)| (f.0@, f.1))
}

/// A path among the tokens: whether `::` stands in front of it, and the
/// places of its first and its last word. Its words stand three tokens
/// apart, since `::` is two tokens.
pub struct PathAt {
    pub leading: bool,
    pub first: int,
    pub last: int,
}

/// Whether a word stands at `i`.
pub open spec fn is_ident_at(ts: Seq<TokenView>, i: int) -> bool {
    0 <= i < ts.len() && ts[i].kind is Ident
}

/// Whether the word `word` stands at `i`.
pub open spec fn is_word_at(ts: Seq<TokenView>, i: int, word: Seq<char>) -> bool {
    0 <= i < ts.len() && ts[i].kind == KindView::Ident(word)
}

/// Whether the punctuation character `c` stands at `i`.
pub open spec fn is_punct_at(ts: Seq<TokenView>, i: int, c: char) -> bool {
    0 <= i < ts.len() && (ts[i].kind == KindView::Punct(c, true) || ts[i].kind == KindView::Punct(
        c,
        false,
    ))
}

/// Whether `::` stands at `i` and `i + 1`.
pub open spec fn is_sep_at(ts: Seq<TokenView>, i: int) -> bool {
    0 <= i < ts.len() && ts[i].kind == KindView::Punct(':', true) && is_punct_at(ts, i + 1, ':')
}

/// Whether an opening parenthesis stands at `i`.
pub open spec fn is_open_at(ts: Seq<TokenView>, i: int) -> bool {
    0 <= i < ts.len() && ts[i].kind is OpenParen
}

/// Whether a closing parenthesis stands at `i`.
pub open spec fn is_close_at(ts: Seq<TokenView>, i: int) -> bool {
    0 <= i < ts.len() && ts[i].kind is CloseParen
}

/// Where a list of paths ends: behind the last token, or at a closing
/// parenthesis.
pub open spec fn is_list_end(ts: Seq<TokenView>, i: int) -> bool {
    i >= ts.len() || is_close_at(ts, i)
}

/// The place of the last word of the path whose word stands at `i`.
pub open spec fn path_last(ts: Seq<TokenView>, i: int) -> int
    decreases ts.len() - i,
{
    if 0 <= i && is_sep_at(ts, i + 1) && is_ident_at(ts, i + 3) {
        path_last(ts, i + 3)
    } else {
        i
    }
}

/// The path that starts at `i`, if one does.
pub open spec fn path_at(ts: Seq<TokenView>, i: int) -> Option<PathAt> {
    let first = if is_sep_at(ts, i) {
        i + 2
    } else {
        i
    };
    if is_ident_at(ts, first) {
        Some(PathAt { leading: is_sep_at(ts, i), first, last: path_last(ts, first) })
    } else {
        None
    }
}

/// The list of paths that starts at `i`, behind the paths `acc` that were
/// read before: all its paths and the place where it ends, or `None` where
/// the tokens from `i` on are no list of paths.
pub open spec fn list_from(ts: Seq<TokenView>, i: int, acc: Seq<PathAt>) -> Option<
    (Seq<PathAt>, int),
>
    decreases ts.len() - i,
{
    if i < 0 {
        None
    } else if is_list_end(ts, i) {
        Some((acc, i))
    } else {
        match path_at(ts, i) {
            None => None,
            Some(p) => {
                if p.last < i {
                    None
                } else if is_list_end(ts, p.last + 1) {
                    Some((acc.push(p), p.last + 1))
                } else if is_punct_at(ts, p.last + 1, ',') {
                    list_from(ts, p.last + 2, acc.push(p))
                } else {
                    None
                }
            },
        }
    }
}

/// The text of the word at `i`.
pub open spec fn word_at(ts: Seq<TokenView>, i: int) -> Seq<char> {
    ts[i].kind->Ident_0
}

/// What a path of the direct form suppresses: a path of two words, the first
/// `clippy`, suppresses the lint that the second names. The span runs from
/// the start of the first word to the end of the second.
pub open spec fn direct_finding(ts: Seq<TokenView>, p: PathAt) -> Option<FindingView> {
    if p.last == p.first + 3 && word_at(ts, p.first) == "clippy"@ {
        Some(
            (
                word_at(ts, p.last),
                Span { start: ts[p.first].span.start, end: ts[p.last].span.end },
            ),
        )
    } else {
        None
    }
}

/// What a path of the conditional form suppresses: a path of one word,
/// without `::` in front, suppresses the lint that the word names. The span
/// is that of the word.
pub open spec fn conditional_finding(ts: Seq<TokenView>, p: PathAt) -> Option<FindingView> {
    if p.last == p.first && !p.leading {
        Some(
            (
                word_at(ts, p.first),
                Span { start: ts[p.first].span.start, end: ts[p.first].span.end },
            ),
        )
    } else {
        None
    }
}

/// What a path suppresses, in the conditional form or in the direct one.
pub open spec fn finding_of(ts: Seq<TokenView>, p: PathAt, conditional: bool) -> Option<
    FindingView,
> {
    if conditional {
        conditional_finding(ts, p)
    } else {
        direct_finding(ts, p)
    }
}

/// The findings of a list of paths, in the order of the paths.
pub open spec fn findings_of(ts: Seq<TokenView>, paths: Seq<PathAt>, conditional: bool) -> Seq<
    FindingView,
>
    decreases paths.len(),
{
    if paths.len() == 0 {
        Seq::empty()
    } else {
        findings_of(ts, paths.drop_last(), conditional) + (match finding_of(
            ts,
            paths.last(),
            conditional,
        ) {
            Some(f) => seq![f],
            None => Seq::empty(),
        })
    }
}

/// The direct form, `allow(clippy::a, clippy::b)`: the tokens are a list of
/// paths and nothing else.
pub open spec fn allow_spec(ts: Seq<TokenView>) -> Result<Seq<FindingView>, ParseError> {
    match list_from(ts, 0, Seq::empty()) {
        Some((paths, end)) => if end == ts.len() {
            Ok(findings_of(ts, paths, false))
        } else {
            Err(ParseError::Syntax)
        },
        None => Err(ParseError::Syntax),
    }
}

/// Whether the tokens start with `feature = "..."`.
pub open spec fn has_feature(ts: Seq<TokenView>) -> bool {
    is_word_at(ts, 0, "feature"@) && is_punct_at(ts, 1, '=') && 2 < ts.len() && ts[2].kind is Str
}

/// The conditional form, `cfg_attr(feature = "cargo-clippy", allow(a, b))`:
/// the words `feature` and `=`, the name of the feature, a comma, the word
/// `allow`, a list of paths in parentheses and, optionally, one more comma.
pub open spec fn cfg_attr_spec(ts: Seq<TokenView>) -> Result<Seq<FindingView>, ParseError> {
    if !has_feature(ts) {
        Err(ParseError::Syntax)
    } else if ts[2].kind->Str_0 != "cargo-clippy"@ {
        Err(ParseError::Feature)
    } else if !(is_punct_at(ts, 3, ',') && is_word_at(ts, 4, "allow"@) && is_open_at(ts, 5)) {
        Err(ParseError::Syntax)
    } else {
        match list_from(ts, 6, Seq::empty()) {
            Some((paths, end)) => if is_close_at(ts, end) && (end + 1 == ts.len() || (is_punct_at(
                ts,
                end + 1,
                ',',
            ) && end + 2 == ts.len())) {
                Ok(findings_of(ts, paths, true))
            } else {
                Err(ParseError::Syntax)
            },
            None => Err(ParseError::Syntax),
        }
    }
}

fn ident_at(tokens: &Vec<Token>, i: usize) -> (r: bool)
    ensures
        r == is_ident_at(tokens_view(tokens@), i as int),
{
    if i < tokens.len() {
        match &tokens[i].kind {
            TokenKind::Ident(_) => true,
            _ => false,
        }
    } else {
        false
    }
}

fn word_is(tokens: &Vec<Token>, i: usize, word: &str) -> (r: bool)
    ensures
        r == is_word_at(tokens_view(tokens@), i as int, word@),
{
    if i < tokens.len() {
        match &tokens[i].kind {
            TokenKind::Ident(s) => same_str(s.as_str(), word),
            _ => false,
        }
    } else {
        false
    }
}

fn punct_at(tokens: &Vec<Token>, i: usize, c: char) -> (r: bool)
    ensures
        r == is_punct_at(tokens_view(tokens@), i as int, c),
{
    if i < tokens.len() {
        match &tokens[i].kind {
            TokenKind::Punct(p, _) => *p == c,
            _ => false,
        }
    } else {
        false
    }
}

fn sep_at(tokens: &Vec<Token>, i: usize) -> (r: bool)
    ensures
        r == is_sep_at(tokens_view(tokens@), i as int),
{
    if i < tokens.len() {
        match &tokens[i].kind {
            TokenKind::Punct(p, joint) => *p == ':' && *joint && punct_at(tokens, i + 1, ':'),
            _ => false,
        }
    } else {
        false
    }
}

fn open_at(tokens: &Vec<Token>, i: usize) -> (r: bool)
    ensures
        r == is_open_at(tokens_view(tokens@), i as int),
{
    if i < tokens.len() {
        match &tokens[i].kind {
            TokenKind::OpenParen => true,
            _ => false,
        }
    } else {
        false
    }
}

fn close_at(tokens: &Vec<Token>, i: usize) -> (r: bool)
    ensures
        r == is_close_at(tokens_view(tokens@), i as int),
{
    if i < tokens.len() {
        match &tokens[i].kind {
            TokenKind::CloseParen => true,
            _ => false,
        }
    } else {
        false
    }
}

fn list_end(tokens: &Vec<Token>, i: usize) -> (r: bool)
    ensures
        r == is_list_end(tokens_view(tokens@), i as int),
{
    i >= tokens.len() || close_at(tokens, i)
}

/// The text of the word at `i`.
fn word_text(tokens: &Vec<Token>, i: usize) -> (s: String)
    requires
        is_ident_at(tokens_view(tokens@), i as int),
    ensures
        s@ == word_at(tokens_view(tokens@), i as int),
{
    match &tokens[i].kind {
        TokenKind::Ident(s) => s.clone(),
        _ => String::new(),
    }
}

/// The place of the last word of the path whose word stands at `first`.
fn last_word(tokens: &Vec<Token>, first: usize) -> (last: usize)
    requires
        is_ident_at(tokens_view(tokens@), first as int),
    ensures
        last == path_last(tokens_view(tokens@), first as int),
        first <= last < tokens.len(),
        is_ident_at(tokens_view(tokens@), last as int),
{
    let ghost ts = tokens_view(tokens@);
    let mut last: usize = first;
    while tokens.len() - last > 3 && sep_at(tokens, last + 1) && ident_at(tokens, last + 3)
        invariant
            ts == tokens_view(tokens@),
            first <= last < tokens.len(),
            is_ident_at(ts, last as int),
            path_last(ts, first as int) == path_last(ts, last as int),
        decreases tokens.len() - last,
    {
        last = last + 3;
    }
    last
}

/// Reads the finding of the path from `first` to `last`, if it has one.
fn read_finding(tokens: &Vec<Token>, leading: bool, first: usize, last: usize, conditional: bool) -> (r:
    Option<(String, Span)>)
    requires
        is_ident_at(tokens_view(tokens@), first as int),
        is_ident_at(tokens_view(tokens@), last as int),
        first <= last,
    ensures
        match (
            r,
            finding_of(
                tokens_view(tokens@),
                PathAt { leading, first: first as int, last: last as int },
                conditional,
            ),
        ) {
            (Some(f), Some(g)) => f.0@ == g.0 && f.1 == g.1,
            (None, None) => true,
            _ => false,
        },
{
    if conditional {
        if last == first && !leading {
            Some((word_text(tokens, first), tokens[first].span))
        } else {
            None
        }
    } else {
        if last - first == 3 && word_is(tokens, first, "clippy") {
            let span = Span { start: tokens[first].span.start, end: tokens[last].span.end };
            Some((word_text(tokens, last), span))
        } else {
            None
        }
    }
}

/// Reads the list of paths that starts at `start`. Returns the findings of
/// its paths and the place where it ends, or `None` where the tokens are no
/// list of paths.
fn read_list(tokens: &Vec<Token>, start: usize, conditional: bool) -> (r: Option<
    (Vec<(String, Span)>, usize),
>)
    requires
        start <= tokens.len(),
    ensures
        match (r, list_from(tokens_view(tokens@), start as int, Seq::empty())) {
            (Some((found, end)), Some((paths, stop))) => end == stop && end <= tokens.len()
                && findings_view(found@) == findings_of(tokens_view(tokens@), paths, conditional),
            (None, None) => true,
            _ => false,
        },
{
    let ghost ts = tokens_view(tokens@);
    let ghost mut acc: Seq<PathAt> = Seq::empty();
    let mut found: Vec<(String, Span)> = Vec::new();
    let mut i: usize = start;
    proof {
        assert(findings_view(found@) =~= findings_of(ts, acc, conditional));
    }
    loop
        invariant
            ts == tokens_view(tokens@),
            i <= tokens.len(),
            list_from(ts, start as int, Seq::empty()) == list_from(ts, i as int, acc),
            findings_view(found@) == findings_of(ts, acc, conditional),
        decreases tokens.len() - i,
    {
        if list_end(tokens, i) {
            return Some((found, i));
        }
        let leading = sep_at(tokens, i);
        let first: usize = if leading {
            i + 2
        } else {
            i
        };
        if !ident_at(tokens, first) {
            return None;
        }
        let last = last_word(tokens, first);
        let ghost p = PathAt { leading, first: first as int, last: last as int };
        assert(path_at(ts, i as int) == Some(p));
        let finding = read_finding(tokens, leading, first, last, conditional);
        let ghost before = found@;
        let ghost added: Option<FindingView> = match &finding {
            Some(f) => Some((f.0@, f.1)),
            None => None,
        };
        match finding {
            Some(f) => {
                found.push(f);
            },
            None => {},
        }
        proof {
            assert(acc.push(p).drop_last() =~= acc);
            assert(acc.push(p).last() == p);
            match added {
                Some(f) => {
                    assert(findings_view(found@) =~= findings_view(before).push(f));
                },
                None => {},
            }
            assert(findings_view(found@) =~= findings_of(ts, acc.push(p), conditional));
            acc = acc.push(p);
        }
        if list_end(tokens, last + 1) {
            return Some((found, last + 1));
        }
        if !punct_at(tokens, last + 1, ',') {
            return None;
        }
        i = last + 2;
    }
}

/// Reads the arguments of an attribute `allow`: a list of paths. Each path
/// `clippy::name` gives one finding, `name`, whose span covers the whole path;
/// every other path gives none.
pub fn allow(tokens: &Vec<Token>) -> (r: Result<Vec<(String, Span)>, ParseError>)
    ensures
        match (r, allow_spec(tokens_view(tokens@))) {
            (Ok(found), Ok(findings)) => findings_view(found@) == findings,
            (Err(e), Err(f)) => e == f,
            _ => false,
        },
{
    match read_list(tokens, 0, false) {
        Some((found, end)) => {
            if end == tokens.len() {
                Ok(found)
            } else {
                Err(ParseError::Syntax)
            }
        },
        None => Err(ParseError::Syntax),
    }
}

/// Reads the arguments of an attribute `cfg_attr` that suppresses lints on
/// the feature `cargo-clippy`: `feature = "cargo-clippy", allow(a, b)`. Each
/// single word in the parentheses gives one finding, whose span is that of
/// the word.
pub fn cfg_attr(tokens: &Vec<Token>) -> (r: Result<Vec<(String, Span)>, ParseError>)
    ensures
        match (r, cfg_attr_spec(tokens_view(tokens@))) {
            (Ok(found), Ok(findings)) => findings_view(found@) == findings,
            (Err(e), Err(f)) => e == f,
            _ => false,
        },
{
    if !(word_is(tokens, 0, "feature") && punct_at(tokens, 1, '=') && tokens.len() > 2) {
        return Err(ParseError::Syntax);
    }
    match &tokens[2].kind {
        TokenKind::Str(feature) => {
            if !same_str(feature.as_str(), "cargo-clippy") {
                return Err(ParseError::Feature);
            }
        },
        _ => {
            return Err(ParseError::Syntax);
        },
    }
    if !(punct_at(tokens, 3, ',') && word_is(tokens, 4, "allow") && open_at(tokens, 5)) {
        return Err(ParseError::Syntax);
    }
    match read_list(tokens, 6, true) {
        Some((found, end)) => {
            if close_at(tokens, end) && (end + 1 == tokens.len() || (punct_at(tokens, end + 1, ',')
                && end + 2 == tokens.len())) {
                Ok(found)
            } else {
                Err(ParseError::Syntax)
            }
        },
        None => Err(ParseError::Syntax),
    }
}


/// Whether `a`, `b` are the two tokens of `::`.
pub open spec fn is_sep_pair(a: TokenView, b: TokenView) -> bool {
    a.kind == KindView::Punct(':', true) && (b.kind == KindView::Punct(':', true) || b.kind
        == KindView::Punct(':', false))
}

/// Whether the token is a comma.
pub open spec fn is_comma(t: TokenView) -> bool {
    t.kind == KindView::Punct(',', true) || t.kind == KindView::Punct(',', false)
}

/// The finding of the path `clippy::name`: the lint `name`, from the start
/// of `clippy` to the end of `name`.
pub open spec fn qualified_finding(clippy: TokenView, name: TokenView) -> FindingView {
    (name.kind->Ident_0, Span { start: clippy.span.start, end: name.span.end })
}

/// The finding of the single word `name`: the lint `name`, with the word's
/// span.
pub open spec fn bare_finding(name: TokenView) -> FindingView {
    (name.kind->Ident_0, Span { start: name.span.start, end: name.span.end })
}

/// The arguments `clippy::name` of an `allow` give exactly one finding: the
/// lint `name`, with a span from the start of `clippy` to the end of `name`.
pub proof fn law_allow_one_lint(clippy: TokenView, c1: TokenView, c2: TokenView, name: TokenView)
    requires
        clippy.kind == KindView::Ident("clippy"@),
        is_sep_pair(c1, c2),
        name.kind is Ident,
    ensures
        allow_spec(seq![clippy, c1, c2, name]) == Ok::<Seq<FindingView>, ParseError>(
            seq![qualified_finding(clippy, name)],
        ),
{
    let ts = seq![clippy, c1, c2, name];
    reveal_with_fuel(path_last, 3);
    reveal_with_fuel(list_from, 2);
    reveal_with_fuel(findings_of, 3);
    assert(is_sep_at(ts, 1));
    assert(is_ident_at(ts, 3));
    assert(!is_sep_at(ts, 4));
    assert(path_last(ts, 0) == 3);
    let p = PathAt { leading: false, first: 0, last: 3 };
    assert(path_at(ts, 0) == Some(p));
    let paths = Seq::<PathAt>::empty().push(p);
    assert(list_from(ts, 0, Seq::empty()) == Some((paths, 4int)));
    assert(paths.drop_last() =~= Seq::<PathAt>::empty());
    assert(findings_of(ts, paths, false) =~= seq![qualified_finding(clippy, name)]);
}

/// The arguments `clippy::a, clippy::b` of an `allow` give two findings, the
/// lints `a` and `b` in this order.
pub proof fn law_allow_two_lints(
    q1: TokenView,
    c1: TokenView,
    c2: TokenView,
    a: TokenView,
    comma: TokenView,
    q2: TokenView,
    c3: TokenView,
    c4: TokenView,
    b: TokenView,
)
    requires
        q1.kind == KindView::Ident("clippy"@),
        q2.kind == KindView::Ident("clippy"@),
        is_sep_pair(c1, c2),
        is_sep_pair(c3, c4),
        is_comma(comma),
        a.kind is Ident,
        b.kind is Ident,
    ensures
        allow_spec(seq![q1, c1, c2, a, comma, q2, c3, c4, b]) == Ok::<Seq<FindingView>, ParseError>(
            seq![qualified_finding(q1, a), qualified_finding(q2, b)],
        ),
{
    let ts = seq![q1, c1, c2, a, comma, q2, c3, c4, b];
    reveal_with_fuel(path_last, 3);
    reveal_with_fuel(list_from, 3);
    reveal_with_fuel(findings_of, 3);
    assert(is_sep_at(ts, 1) && is_ident_at(ts, 3) && !is_sep_at(ts, 4));
    assert(path_last(ts, 0) == 3);
    assert(is_sep_at(ts, 6) && is_ident_at(ts, 8) && !is_sep_at(ts, 9));
    assert(path_last(ts, 5) == 8);
    let p = PathAt { leading: false, first: 0, last: 3 };
    let q = PathAt { leading: false, first: 5, last: 8 };
    assert(path_at(ts, 0) == Some(p));
    assert(path_at(ts, 5) == Some(q));
    assert(is_punct_at(ts, 4, ','));
    let one = Seq::<PathAt>::empty().push(p);
    let two = one.push(q);
    assert(list_from(ts, 5, one) == Some((two, 9int)));
    assert(list_from(ts, 0, Seq::empty()) == Some((two, 9int)));
    assert(two.drop_last() =~= one);
    assert(one.drop_last() =~= Seq::<PathAt>::empty());
    assert(findings_of(ts, one, false) =~= seq![qualified_finding(q1, a)]);
    assert(findings_of(ts, two, false) =~= seq![qualified_finding(q1, a), qualified_finding(q2, b)]);
}

/// The arguments `feature = "cargo-clippy", allow(x, y)` of a `cfg_attr`
/// give two findings, the lints `x` and `y` in this order; with any other
/// feature in place of `cargo-clippy` they are refused.
pub proof fn law_cfg_attr_two_lints(
    feature: TokenView,
    eq: TokenView,
    value: TokenView,
    comma1: TokenView,
    allow: TokenView,
    open: TokenView,
    x: TokenView,
    comma2: TokenView,
    y: TokenView,
    close: TokenView,
)
    requires
        feature.kind == KindView::Ident("feature"@),
        eq.kind == KindView::Punct('=', true) || eq.kind == KindView::Punct('=', false),
        value.kind is Str,
        is_comma(comma1),
        allow.kind == KindView::Ident("allow"@),
        open.kind is OpenParen,
        x.kind is Ident,
        is_comma(comma2),
        y.kind is Ident,
        close.kind is CloseParen,
    ensures
        cfg_attr_spec(seq![feature, eq, value, comma1, allow, open, x, comma2, y, close]) == (
        if value.kind->Str_0 == "cargo-clippy"@ {
            Ok::<Seq<FindingView>, ParseError>(seq![bare_finding(x), bare_finding(y)])
        } else {
            Err::<Seq<FindingView>, ParseError>(ParseError::Feature)
        }),
{
    let ts = seq![feature, eq, value, comma1, allow, open, x, comma2, y, close];
    reveal_with_fuel(path_last, 2);
    reveal_with_fuel(list_from, 3);
    reveal_with_fuel(findings_of, 3);
    assert(has_feature(ts));
    if value.kind->Str_0 == "cargo-clippy"@ {
        assert(is_punct_at(ts, 3, ',') && is_word_at(ts, 4, "allow"@) && is_open_at(ts, 5));
        assert(!is_sep_at(ts, 6) && !is_sep_at(ts, 7) && !is_sep_at(ts, 8) && !is_sep_at(ts, 9));
        assert(path_last(ts, 6) == 6);
        assert(path_last(ts, 8) == 8);
        let p = PathAt { leading: false, first: 6, last: 6 };
        let q = PathAt { leading: false, first: 8, last: 8 };
        assert(path_at(ts, 6) == Some(p));
        assert(path_at(ts, 8) == Some(q));
        assert(is_punct_at(ts, 7, ','));
        assert(is_close_at(ts, 9));
        let one = Seq::<PathAt>::empty().push(p);
        let two = one.push(q);
        assert(list_from(ts, 8, one) == Some((two, 9int)));
        assert(list_from(ts, 6, Seq::empty()) == Some((two, 9int)));
        assert(two.drop_last() =~= one);
        assert(one.drop_last() =~= Seq::<PathAt>::empty());
        assert(findings_of(ts, one, true) =~= seq![bare_finding(x)]);
        assert(findings_of(ts, two, true) =~= seq![bare_finding(x), bare_finding(y)]);
    }
}

} // verus!
