//! Sets of spans, kept as lists in ascending order without repetition.

use vstd::prelude::*;
use crate::findings::first_false;
use crate::findings::lemma_first_false;
use crate::findings::lemma_first_false_props;
use crate::source::Span;
use crate::source::span_lt;
use crate::text::Order;

verus! {

/// For each span of the list, whether it comes before `x`.
pub open spec fn spans_before(set: Seq<Span>, x: Span) -> Seq<bool> {
    set.map_values(|y: Span| span_lt(y, x))
}

/// The place of `x` in the list: that of the first span that does not come
/// before it.
pub open spec fn span_place(set: Seq<Span>, x: Span) -> int {
    first_false(spans_before(set, x))
}

/// The list with `x` at its place, unless `x` stands there already.
pub open spec fn with_span(set: Seq<Span>, x: Span) -> Seq<Span> {
    let p = span_place(set, x);
    if 0 <= p < set.len() && set[p] == x {
        set
    } else {
        set.insert(p, x)
    }
}

/// The set of the spans of a list: each span put at its place, one after
/// another.
pub open spec fn span_set(spans: Seq<Span>) -> Seq<Span>
    decreases spans.len(),
{
    if spans.len() == 0 {
        Seq::empty()
    } else {
        with_span(span_set(spans.drop_last()), spans.last())
    }
}

/// Whether the spans stand in strictly ascending order.
pub open spec fn ascending(set: Seq<Span>) -> bool {
    forall|i: int, j: int| 0 <= i < j < set.len() ==> span_lt(#[trigger] set[i], #[trigger] set[j])
}

/// Putting a span at its place keeps the order, keeps every span and adds
/// no other span than the one that was put.
pub proof fn lemma_with_span(set: Seq<Span>, x: Span)
    requires
        ascending(set),
    ensures
        ascending(with_span(set, x)),
        with_span(set, x).contains(x),
        forall|y: Span| set.contains(y) ==> #[trigger] with_span(set, x).contains(y),
        forall|y: Span| #[trigger] with_span(set, x).contains(y) ==> y == x || set.contains(y),
{
    let p = span_place(set, x);
    let flags = spans_before(set, x);
    lemma_first_false_props(flags);
    let out = with_span(set, x);
    if 0 <= p < set.len() && set[p] == x {
        assert(out[p] == x);
    } else {
        assert(out[p] == x);
        assert forall|k: int| 0 <= k < p implies span_lt(#[trigger] set[k], x) by {
            assert(flags[k]);
        }
        assert forall|k: int| p <= k < set.len() implies span_lt(x, #[trigger] set[k]) by {
            assert(!flags[p]);
            if k > p {
                assert(span_lt(set[p], set[k]));
            }
        }
        assert forall|i: int, j: int| 0 <= i < j < out.len() implies span_lt(
            #[trigger] out[i],
            #[trigger] out[j],
        ) by {
            if j < p {
                assert(out[i] == set[i] && out[j] == set[j]);
            } else if j == p {
                assert(out[i] == set[i]);
            } else if i < p {
                assert(out[i] == set[i] && out[j] == set[j - 1]);
            } else if i == p {
                assert(out[j] == set[j - 1]);
            } else {
                assert(out[i] == set[i - 1] && out[j] == set[j - 1]);
            }
        }
        assert forall|y: Span| set.contains(y) implies #[trigger] out.contains(y) by {
            let k = choose|k: int| 0 <= k < set.len() && set[k] == y;
            if k < p {
                assert(out[k] == y);
            } else {
                assert(out[k + 1] == y);
            }
        }
        assert forall|y: Span| #[trigger] out.contains(y) implies y == x || set.contains(y) by {
            let k = choose|k: int| 0 <= k < out.len() && out[k] == y;
            if k < p {
                assert(set[k] == y);
            } else if k > p {
                assert(set[k - 1] == y);
            }
        }
    }
}

/// The set of the spans of a list stands in strictly ascending order and
/// holds the spans of the list, and no others.
pub proof fn law_span_set(spans: Seq<Span>)
    ensures
        ascending(span_set(spans)),
        forall|y: Span| spans.contains(y) <==> #[trigger] span_set(spans).contains(y),
    decreases spans.len(),
{
    if spans.len() > 0 {
        let front = spans.drop_last();
        let x = spans.last();
        law_span_set(front);
        lemma_with_span(span_set(front), x);
        let out = span_set(spans);
        assert forall|y: Span| spans.contains(y) implies #[trigger] out.contains(y) by {
            let k = choose|k: int| 0 <= k < spans.len() && spans[k] == y;
            if k < front.len() {
                assert(front[k] == y);
                assert(front.contains(y));
                assert(span_set(front).contains(y));
            }
        }
        assert forall|y: Span| #[trigger] out.contains(y) implies spans.contains(y) by {
            if y == x {
                assert(spans[spans.len() - 1] == y);
            } else {
                assert(span_set(front).contains(y));
                assert(front.contains(y));
                let k = choose|k: int| 0 <= k < front.len() && front[k] == y;
                assert(spans[k] == y);
            }
        }
    }
}

/// Puts `x` at its place in the list, unless it stands there already.
pub fn insert_span(set: &mut Vec<Span>, x: Span)
    ensures
        final(set)@ == with_span(old(set)@, x),
{
    let ghost flags = spans_before(set@, x);
    let mut i: usize = 0;
    while i < set.len()
        invariant
            i <= set.len(),
            set@ == old(set)@,
            flags == spans_before(set@, x),
            forall|j: int| 0 <= j < i ==> flags[j],
        decreases set.len() - i,
    {
        match set[i].compare(&x) {
            Order::Before => {},
            Order::Same => {
                proof {
                    lemma_first_false(flags, i as int);
                }
                return ;
            },
            Order::After => {
                proof {
                    lemma_first_false(flags, i as int);
                }
                set.insert(i, x);
                return ;
            },
        }
        i += 1;
    }
    proof {
        lemma_first_false(flags, i as int);
    }
    set.insert(i, x);
}

/// The set of the spans of two lists, the one list after the other.
pub fn sorted_spans(global: &Vec<Span>, local: &Vec<Span>) -> (set: Vec<Span>)
    ensures
        set@ == span_set(global@ + local@),
{
    let ghost all = global@ + local@;
    let mut set: Vec<Span> = Vec::new();
    let mut i: usize = 0;
    proof {
        assert(all.take(0) =~= Seq::<Span>::empty());
    }
    while i < global.len()
        invariant
            i <= global.len(),
            all == global@ + local@,
            set@ == span_set(all.take(i as int)),
        decreases global.len() - i,
    {
        proof {
            assert(all.take(i + 1).drop_last() =~= all.take(i as int));
            assert(all.take(i + 1).last() == global@[i as int]);
        }
        insert_span(&mut set, global[i]);
        i += 1;
    }
    let mut j: usize = 0;
    while j < local.len()
        invariant
            j <= local.len(),
            all == global@ + local@,
            set@ == span_set(all.take(global.len() + j)),
        decreases local.len() - j,
    {
        proof {
            assert(all.take(global.len() + j + 1).drop_last() =~= all.take(global.len() + j));
            assert(all.take(global.len() + j + 1).last() == local@[j as int]);
        }
        insert_span(&mut set, local[j]);
        j += 1;
    }
    proof {
        assert(all.take(global.len() + local.len()) =~= all);
    }
    set
}

} // verus!
