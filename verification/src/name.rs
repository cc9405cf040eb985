//! Package names, compared without regard to case and with `_` equal to `-`.

use vstd::prelude::*;
use vstd::utf8::encode_utf8;
use crate::text::Order;
use crate::text::seq_order;
use crate::text::seq_lt;
use crate::text::compare_bytes;
use crate::text::lemma_seq_lt_irreflexive;
use crate::text::lemma_seq_lt_transitive;
use crate::text::lemma_seq_lt_total;

verus! {

/// The byte that stands for `b` in a comparison of package names: `_` counts
/// as `-`, and an ASCII capital as its small letter.
pub open spec fn fold_byte(b: u8) -> u8 {
    if b == 95 {
        45
    } else if 65 <= b <= 90 {
        (b + 32) as u8
    } else {
        b
    }
}

/// A byte string with every byte folded.
pub open spec fn folded(s: Seq<u8>) -> Seq<u8> {
    s.map_values(|b: u8| fold_byte(b))
}

/// The folded bytes of a name: what two names are compared by.
pub open spec fn name_key(name: Seq<char>) -> Seq<u8> {
    folded(encode_utf8(name))
}

/// Order of two package names.
pub open spec fn name_order(a: Seq<char>, b: Seq<char>) -> Order {
    seq_order(name_key(a), name_key(b))
}

/// Whether two names denote the same package.
pub open spec fn same_name(a: Seq<char>, b: Seq<char>) -> bool {
    name_key(a) == name_key(b)
}

/// Folds one byte.
pub fn fold(b: u8) -> (r: u8)
    ensures
        r == fold_byte(b),
{
    if b == 95 {
        45
    } else if 65 <= b && b <= 90 {
        b + 32
    } else {
        b
    }
}

/// Folds every byte of `s`.
pub fn fold_bytes(s: &[u8]) -> (v: Vec<u8>)
    ensures
        v@ == folded(s@),
{
    let mut v: Vec<u8> = Vec::new();
    let mut i: usize = 0;
    while i < s.len()
        invariant
            i <= s.len(),
            v@ == folded(s@.take(i as int)),
        decreases s.len() - i,
    {
        v.push(fold(s[i]));
        assert(s@.take(i + 1) =~= s@.take(i as int).push(s@[i as int]));
        assert(v@ =~= folded(s@.take(i + 1)));
        i += 1;
    }
    assert(s@.take(i as int) =~= s@);
    v
}

/// The name of a package.
#[derive(Clone, Debug)]
pub struct Crate(pub String);

impl View for Crate {
    type V = Seq<char>;

    open spec fn view(&self) -> Seq<char> {
        self.0@
    }
}

impl Crate {
    /// The package of the given name.
    pub fn new(string: String) -> (krate: Self)
        ensures
            krate@ == string@,
    {
        Crate(string)
    }

    /// The name as it was given.
    pub fn as_str(&self) -> (s: &str)
        ensures
            s@ == self@,
    {
        self.0.as_str()
    }

    /// Three-way comparison of two names.
    pub fn compare(&self, rhs: &Crate) -> (o: Order)
        ensures
            o == name_order(self@, rhs@),
            (o == Order::Same) == same_name(self@, rhs@),
    {
        let a = fold_bytes(self.0.as_str().as_bytes());
        let b = fold_bytes(rhs.0.as_str().as_bytes());
        proof {
            lemma_seq_lt_irreflexive(a@);
        }
        compare_bytes(a.as_slice(), b.as_slice())
    }

    /// Whether both names denote the same package.
    pub fn same_package(&self, rhs: &Crate) -> (r: bool)
        ensures
            r == same_name(self@, rhs@),
    {
        self.compare(rhs) == Order::Same
    }

    /// The name in ASCII lower case.
    pub fn to_ascii_lowercase(&self) -> (s: String)
        ensures
            s@ == lowered(self@),
    {
        lower_chars(self.0.as_str())
    }
}

/// `c` in ASCII lower case.
pub open spec fn lower_char(c: char) -> char {
    if 'A' <= c <= 'Z' {
        ((c as u8) + 32) as char
    } else {
        c
    }
}

/// `s` with each ASCII capital replaced by its small letter.
pub open spec fn lowered(s: Seq<char>) -> Seq<char> {
    s.map_values(|c: char| lower_char(c))
}

/// Copies `s`, putting ASCII capitals in lower case.
pub fn lower_chars(s: &str) -> (r: String)
    ensures
        r@ == lowered(s@),
{
    let mut r = String::new();
    for c in it: s.chars()
        invariant
            it.seq() == s@,
            r@ == lowered(s@.take(it.index() as int)),
    {
        let ghost before = r@;
        let l: char = if 'A' <= c && c <= 'Z' {
            ((c as u8) + 32) as char
        } else {
            c
        };
        r.push(l);
        assert(s@.take(it.index() + 1) =~= s@.take(it.index() as int).push(c));
        assert(r@ =~= lowered(s@.take(it.index() + 1)));
    }
    assert(s@.take(s@.len() as int) =~= s@);
    r
}

/// The order of names is irreflexive and transitive, and any two names are
/// ordered or denote the same package.
pub proof fn lemma_name_order_total(a: Seq<char>, b: Seq<char>, c: Seq<char>)
    ensures
        name_order(a, a) == Order::Same,
        (name_order(a, b) == Order::Same) == same_name(a, b),
        (name_order(a, b) == Order::Before) == (name_order(b, a) == Order::After),
        name_order(a, b) == Order::Before && name_order(b, c) == Order::Before ==> name_order(a, c)
            == Order::Before,
        same_name(a, b) ==> name_order(a, c) == name_order(b, c),
{
    lemma_seq_lt_irreflexive(name_key(a));
    lemma_seq_lt_irreflexive(name_key(b));
    lemma_seq_lt_total(name_key(a), name_key(b));
    lemma_seq_lt_total(name_key(b), name_key(a));
    if seq_lt(name_key(a), name_key(b)) && seq_lt(name_key(b), name_key(c)) {
        lemma_seq_lt_transitive(name_key(a), name_key(b), name_key(c));
    }
}

} // verus!
