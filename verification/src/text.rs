//! Byte and character level helpers: lexicographic order, decimal numbers,
//! line splitting.

use vstd::prelude::*;
use vstd::utf8::encode_utf8;
use vstd::utf8::decode_utf8;
use vstd::utf8::encode_utf8_decode_utf8;

verus! {

/// Outcome of a three-way comparison.
#[derive(Clone, Copy, Debug, PartialEq, Eq, Structural)]
pub enum Order {
    Before,
    Same,
    After,
}

/// Strict lexicographic order on byte sequences: a proper prefix comes first,
/// otherwise the first differing byte decides.
pub open spec fn seq_lt(a: Seq<u8>, b: Seq<u8>) -> bool
    decreases a.len(),
{
    if b.len() == 0 {
        false
    } else if a.len() == 0 {
        true
    } else {
        a[0] < b[0] || (a[0] == b[0] && seq_lt(a.skip(1), b.skip(1)))
    }
}

/// Three-way form of `seq_lt`.
pub open spec fn seq_order(a: Seq<u8>, b: Seq<u8>) -> Order {
    if seq_lt(a, b) {
        Order::Before
    } else if a == b {
        Order::Same
    } else {
        Order::After
    }
}

/// No byte string comes before itself.
pub proof fn lemma_seq_lt_irreflexive(a: Seq<u8>)
    ensures
        !seq_lt(a, a),
    decreases a.len(),
{
    if a.len() > 0 {
        lemma_seq_lt_irreflexive(a.skip(1));
    }
}

/// What comes before a byte string comes before what that one comes before.
pub proof fn lemma_seq_lt_transitive(a: Seq<u8>, b: Seq<u8>, c: Seq<u8>)
    requires
        seq_lt(a, b),
        seq_lt(b, c),
    ensures
        seq_lt(a, c),
    decreases a.len(),
{
    if a.len() > 0 && a[0] == b[0] && b[0] == c[0] {
        lemma_seq_lt_transitive(a.skip(1), b.skip(1), c.skip(1));
    }
}

/// Of two byte strings that differ, exactly one comes before the other.
pub proof fn lemma_seq_lt_total(a: Seq<u8>, b: Seq<u8>)
    ensures
        seq_lt(a, b) || a == b || seq_lt(b, a),
        !(seq_lt(a, b) && seq_lt(b, a)),
    decreases a.len(),
{
    if a.len() > 0 && b.len() > 0 {
        lemma_seq_lt_total(a.skip(1), b.skip(1));
        if a[0] == b[0] && a.skip(1) == b.skip(1) {
            assert(a =~= seq![a[0]] + a.skip(1));
            assert(b =~= seq![b[0]] + b.skip(1));
        }
    } else if a.len() == 0 && b.len() == 0 {
        assert(a =~= b);
    }
}

/// Dropping a common prefix does not change the order.
pub proof fn lemma_seq_lt_skip(a: Seq<u8>, b: Seq<u8>, n: int)
    requires
        0 <= n <= a.len(),
        n <= b.len(),
        a.take(n) == b.take(n),
    ensures
        seq_lt(a, b) == seq_lt(a.skip(n), b.skip(n)),
    decreases n,
{
    if n == 0 {
        assert(a.skip(0) =~= a);
        assert(b.skip(0) =~= b);
    } else {
        assert(a[0] == a.take(n)[0]);
        assert(b[0] == b.take(n)[0]);
        assert(a.skip(1).take(n - 1) =~= a.take(n).skip(1));
        assert(b.skip(1).take(n - 1) =~= b.take(n).skip(1));
        lemma_seq_lt_skip(a.skip(1), b.skip(1), n - 1);
        assert(a.skip(1).skip(n - 1) =~= a.skip(n));
        assert(b.skip(1).skip(n - 1) =~= b.skip(n));
    }
}

/// Compares two byte strings lexicographically.
pub fn compare_bytes(a: &[u8], b: &[u8]) -> (o: Order)
    ensures
        o == seq_order(a@, b@),
{
    let mut i: usize = 0;
    while i < a.len() && i < b.len()
        invariant
            i <= a.len(),
            i <= b.len(),
            a@.take(i as int) == b@.take(i as int),
        decreases a.len() - i,
    {
        let x: u8 = a[i];
        let y: u8 = b[i];
        if x != y {
            proof {
                lemma_seq_lt_skip(a@, b@, i as int);
                lemma_seq_lt_skip(b@, a@, i as int);
                lemma_seq_lt_total(a@, b@);
            }
            if x < y {
                return Order::Before;
            } else {
                return Order::After;
            }
        }
        assert(a@.take(i + 1) =~= a@.take(i as int).push(a@[i as int]));
        assert(b@.take(i + 1) =~= b@.take(i as int).push(b@[i as int]));
        i += 1;
    }
    proof {
        lemma_seq_lt_skip(a@, b@, i as int);
        lemma_seq_lt_skip(b@, a@, i as int);
        lemma_seq_lt_total(a@, b@);
        if a.len() == b.len() {
            assert(a@ =~= a@.take(i as int));
            assert(b@ =~= b@.take(i as int));
        }
    }
    if a.len() < b.len() {
        Order::Before
    } else if a.len() == b.len() {
        Order::Same
    } else {
        Order::After
    }
}


/// `String::push` appends one character.
pub assume_specification[ String::push ](s: &mut String, ch: char)
    ensures
        final(s)@ == old(s)@.push(ch),
;

/// Two character sequences with the same encoding are the same sequence.
pub proof fn lemma_encoding_injective(a: Seq<char>, b: Seq<char>)
    requires
        encode_utf8(a) == encode_utf8(b),
    ensures
        a == b,
{
    encode_utf8_decode_utf8(a);
    encode_utf8_decode_utf8(b);
    assert(decode_utf8(encode_utf8(a)) == decode_utf8(encode_utf8(b)));
}

/// Order of two strings by their encoded bytes, which is the order of `str`.
pub open spec fn str_order(a: Seq<char>, b: Seq<char>) -> Order {
    seq_order(encode_utf8(a), encode_utf8(b))
}

/// Whether the string `a` comes before the string `b`.
pub open spec fn str_lt(a: Seq<char>, b: Seq<char>) -> bool {
    seq_lt(encode_utf8(a), encode_utf8(b))
}

/// `str_order` says `Same` exactly for equal strings.
pub proof fn lemma_str_order_same(a: Seq<char>, b: Seq<char>)
    ensures
        (str_order(a, b) == Order::Same) == (a == b),
        (str_order(a, b) == Order::Before) == str_lt(a, b),
        (str_order(a, b) == Order::After) == str_lt(b, a),
{
    lemma_seq_lt_total(encode_utf8(a), encode_utf8(b));
    lemma_seq_lt_irreflexive(encode_utf8(a));
    if encode_utf8(a) == encode_utf8(b) {
        lemma_encoding_injective(a, b);
    }
}

/// Compares two strings byte by byte.
pub fn compare_strs(a: &str, b: &str) -> (o: Order)
    ensures
        o == str_order(a@, b@),
        (o == Order::Same) == (a@ == b@),
        (o == Order::Before) == str_lt(a@, b@),
        (o == Order::After) == str_lt(b@, a@),
{
    proof {
        lemma_str_order_same(a@, b@);
    }
    compare_bytes(a.as_bytes(), b.as_bytes())
}

/// Whether two strings hold the same characters.
pub fn same_str(a: &str, b: &str) -> (r: bool)
    ensures
        r == (a@ == b@),
{
    match compare_strs(a, b) {
        Order::Same => true,
        _ => false,
    }
}

/// The characters of a string, in order.
pub fn chars_of(s: &str) -> (v: Vec<char>)
    ensures
        v@ == s@,
{
    let mut v: Vec<char> = Vec::new();
    for c in it: s.chars()
        invariant
            v@ == it.seq().take(it.index() as int),
            it.seq() == s@,
    {
        v.push(c);
    }
    v
}

/// The decimal digit for `d`, which is below ten.
pub open spec fn digit_char(d: nat) -> char {
    (48 + d) as u8 as char
}

/// The decimal notation of `n`, without leading zeros.
pub open spec fn decimal(n: nat) -> Seq<char>
    decreases n,
{
    if n < 10 {
        seq![digit_char(n)]
    } else {
        decimal(n / 10).push(digit_char(n % 10))
    }
}

/// Appends the decimal notation of `n` to `out`.
pub fn push_decimal(out: &mut String, n: u64)
    ensures
        final(out)@ == old(out)@ + decimal(n as nat),
    decreases n,
{
    if n >= 10 {
        push_decimal(out, n / 10);
    }
    let d: u8 = (n % 10) as u8;
    let c: char = (48u8 + d) as char;
    out.push(c);
    assert(out@ =~= old(out)@ + decimal(n as nat));
}


/// Whether `c` is white space: what `char::is_whitespace` answers for it.
pub uninterp spec fn is_white_space(c: char) -> bool;

/// Calls `char::is_whitespace`, whose answer depends on the character
/// alone: it is the answer that `is_white_space` names.
#[verifier::external_body]
fn white_space(c: char) -> (r: bool)
    ensures
        r == is_white_space(c),
{
    c.is_whitespace()
}

/// Whether a line holds nothing but white space.
pub open spec fn is_blank(line: Seq<char>) -> bool {
    forall|i: int| 0 <= i < line.len() ==> is_white_space(#[trigger] line[i])
}

/// Whether a line holds nothing but white space.
pub fn blank(line: &[char]) -> (r: bool)
    ensures
        r == is_blank(line@),
{
    let mut i: usize = 0;
    while i < line.len()
        invariant
            i <= line.len(),
            forall|j: int| 0 <= j < i ==> is_white_space(#[trigger] line@[j]),
        decreases line.len() - i,
    {
        if !white_space(line[i]) {
            return false;
        }
        i += 1;
    }
    true
}

/// The place of the first line feed in `text`; the length of `text` where it
/// holds none.
pub open spec fn line_end(text: Seq<char>) -> int
    decreases text.len(),
{
    if text.len() == 0 || text[0] == '\n' {
        0
    } else {
        1 + line_end(text.skip(1))
    }
}

/// The first line of a text that ends at `end`: what stands before `end`,
/// without the carriage return that stands directly before a line feed.
pub open spec fn first_line(text: Seq<char>, end: int) -> Seq<char> {
    if 0 < end < text.len() && text[end - 1] == '\r' {
        text.take(end - 1)
    } else {
        text.take(end)
    }
}

/// The lines of a text. A line ends with a line feed, or with a carriage
/// return and a line feed, which are no part of it; the last line may end
/// with the text.
pub open spec fn lines_of(text: Seq<char>) -> Seq<Seq<char>>
    decreases text.len(),
{
    if text.len() == 0 {
        Seq::empty()
    } else {
        let end = line_end(text);
        if 0 <= end < text.len() {
            seq![first_line(text, end)] + lines_of(text.skip(end + 1))
        } else {
            seq![first_line(text, end)]
        }
    }
}

/// The first line ends at the place of a line feed that no line feed stands
/// before.
pub proof fn lemma_line_end(text: Seq<char>, end: int)
    requires
        0 <= end <= text.len(),
        forall|j: int| 0 <= j < end ==> text[j] != '\n',
        end < text.len() ==> text[end] == '\n',
    ensures
        line_end(text) == end,
    decreases text.len(),
{
    if end > 0 {
        assert(text[0] != '\n');
        assert forall|j: int| 0 <= j < end - 1 implies text.skip(1)[j] != '\n' by {
            assert(text[j + 1] != '\n');
        }
        lemma_line_end(text.skip(1), end - 1);
    }
}

/// The lines of a list, each by what it holds.
pub open spec fn lines_view(lines: Seq<Vec<char>>) -> Seq<Seq<char>> {
    lines.map_values(|l: Vec<char>| l@)
}

/// Splits a text into its lines.
pub fn split_lines(text: &[char]) -> (lines: Vec<Vec<char>>)
    ensures
        lines_view(lines@) == lines_of(text@),
{
    let mut lines: Vec<Vec<char>> = Vec::new();
    let n = text.len();
    let mut start: usize = 0;
    proof {
        assert(text@.skip(0) =~= text@);
        assert(lines_view(lines@) =~= Seq::<Seq<char>>::empty());
    }
    while start < n
        invariant
            start <= n,
            n == text.len(),
            lines_of(text@) == lines_view(lines@) + lines_of(text@.skip(start as int)),
        decreases n - start,
    {
        let ghost rest = text@.skip(start as int);
        let mut end: usize = start;
        while end < n && text[end] != '\n'
            invariant
                start <= end <= n,
                n == text.len(),
                forall|j: int| start <= j < end ==> text@[j] != '\n',
            decreases n - end,
        {
            end += 1;
        }
        proof {
            assert forall|j: int| 0 <= j < end - start implies rest[j] != '\n' by {
                assert(rest[j] == text@[start + j]);
            }
            lemma_line_end(rest, end - start);
        }
        let stop: usize = if end < n && end > start && text[end - 1] == '\r' {
            end - 1
        } else {
            end
        };
        let mut line: Vec<char> = Vec::new();
        let mut j: usize = start;
        while j < stop
            invariant
                start <= j <= stop,
                stop <= n,
                n == text.len(),
                line@ == text@.subrange(start as int, j as int),
            decreases stop - j,
        {
            line.push(text[j]);
            assert(text@.subrange(start as int, j + 1) =~= text@.subrange(start as int, j as int).push(
                text@[j as int],
            ));
            j += 1;
        }
        let ghost before = lines_view(lines@);
        proof {
            assert(line@ =~= first_line(rest, end - start));
        }
        lines.push(line);
        proof {
            assert(lines_view(lines@) =~= before.push(first_line(rest, end - start)));
            if end < n {
                assert(rest.skip(end - start + 1) =~= text@.skip(end + 1));
                assert(lines_of(rest) =~= seq![first_line(rest, end - start)] + lines_of(
                    text@.skip(end + 1),
                ));
            } else {
                assert(text@.skip(n as int) =~= Seq::<char>::empty());
                assert(lines_of(rest) =~= seq![first_line(rest, end - start)] + lines_of(
                    text@.skip(n as int),
                ));
            }
        }
        start = if end < n {
            end + 1
        } else {
            n
        };
    }
    proof {
        assert(text@.skip(n as int) =~= Seq::<char>::empty());
        assert(lines_of(text@) =~= lines_view(lines@));
    }
    lines
}

} // verus!
