//! Counting the spans of a lint, and ranking the lints by their counts.

use vstd::prelude::*;
use crate::caps::kept;
use crate::findings::FileFindings;
use crate::findings::FileView;
use crate::findings::LintFindings;
use crate::findings::EntryView;
use crate::findings::entries_view;
use crate::findings::files_view;

verus! {

/// The number of global spans that the files hold together.
pub open spec fn global_sum(files: Seq<FileView>) -> nat
    decreases files.len(),
{
    if files.len() == 0 {
        0
    } else {
        global_sum(files.drop_last()) + files.last().locations.global.len()
    }
}

/// The number of local spans that the files hold together.
pub open spec fn local_sum(files: Seq<FileView>) -> nat
    decreases files.len(),
{
    if files.len() == 0 {
        0
    } else {
        local_sum(files.drop_last()) + files.last().locations.local.len()
    }
}

/// A count as a machine number: counts beyond the largest one are all the
/// largest one.
pub open spec fn saturated(n: nat) -> usize {
    if n > usize::MAX {
        usize::MAX
    } else {
        n as usize
    }
}

/// The number of global spans of a lint.
pub open spec fn global_count(e: EntryView) -> usize {
    saturated(global_sum(e.files))
}

/// The number of local spans of a lint.
pub open spec fn local_count(e: EntryView) -> usize {
    saturated(local_sum(e.files))
}

/// The number of spans of a lint, global and local.
pub open spec fn total_count(e: EntryView) -> usize {
    saturated(global_sum(e.files) + local_sum(e.files))
}

/// Adds two counts.
fn add_counts(a: usize, b: usize) -> (r: usize)
    ensures
        r == saturated((a + b) as nat),
{
    if a > usize::MAX - b {
        usize::MAX
    } else {
        a + b
    }
}

impl LintFindings {
    /// The number of spans found inside inner attributes.
    pub fn global_count(&self) -> (n: usize)
        ensures
            n == global_count(self@),
    {
        let ghost files = files_view(self.files@);
        let mut n: usize = 0;
        let mut i: usize = 0;
        proof {
            assert(files.take(0) =~= Seq::<FileView>::empty());
        }
        while i < self.files.len()
            invariant
                i <= self.files.len(),
                files == files_view(self.files@),
                n == saturated(global_sum(files.take(i as int))),
            decreases self.files.len() - i,
        {
            proof {
                assert(files.take(i + 1).drop_last() =~= files.take(i as int));
                assert(files.take(i + 1).last() == files[i as int]);
            }
            n = add_counts(n, self.files[i].locations.global.len());
            i += 1;
        }
        assert(files.take(i as int) =~= files);
        n
    }

    /// The number of spans found inside outer attributes.
    pub fn local_count(&self) -> (n: usize)
        ensures
            n == local_count(self@),
    {
        let ghost files = files_view(self.files@);
        let mut n: usize = 0;
        let mut i: usize = 0;
        proof {
            assert(files.take(0) =~= Seq::<FileView>::empty());
        }
        while i < self.files.len()
            invariant
                i <= self.files.len(),
                files == files_view(self.files@),
                n == saturated(local_sum(files.take(i as int))),
            decreases self.files.len() - i,
        {
            proof {
                assert(files.take(i + 1).drop_last() =~= files.take(i as int));
                assert(files.take(i + 1).last() == files[i as int]);
            }
            n = add_counts(n, self.files[i].locations.local.len());
            i += 1;
        }
        assert(files.take(i as int) =~= files);
        n
    }

    /// The number of spans, global and local.
    pub fn total_count(&self) -> (n: usize)
        ensures
            n == total_count(self@),
    {
        add_counts(self.global_count(), self.local_count())
    }
}

/// Whether the lint at place `i` ranks before the one at place `j`: it has
/// the larger count or, with the same count, the earlier place.
pub open spec fn ranks_before(fs: Seq<EntryView>, i: int, j: int) -> bool {
    total_count(fs[i]) > total_count(fs[j]) || (total_count(fs[i]) == total_count(fs[j]) && i < j)
}

/// Whether `order` lists the places of all the lints, each once, such that
/// each one ranks before those behind it.
pub open spec fn is_ranking(fs: Seq<EntryView>, order: Seq<usize>) -> bool {
    &&& order.len() == fs.len()
    &&& order.no_duplicates()
    &&& forall|k: int| 0 <= k < order.len() ==> (#[trigger] order[k]) < fs.len()
    &&& forall|a: int, b: int|
        0 <= a < b < order.len() ==> ranks_before(fs, #[trigger] order[a] as int, #[trigger] order[b] as int)
}

/// Ranks the lints: the places of the lints, those with the most spans
/// first, and lints with the same number of spans in the order of their
/// places.
pub fn rank_order(lints: &Vec<LintFindings>) -> (order: Vec<usize>)
    ensures
        is_ranking(entries_view(lints@), order@),
{
    let ghost fs = entries_view(lints@);
    let n = lints.len();
    let mut totals: Vec<usize> = Vec::new();
    let mut i: usize = 0;
    while i < n
        invariant
            i <= n,
            n == lints.len(),
            fs == entries_view(lints@),
            totals.len() == i,
            forall|k: int| 0 <= k < i ==> totals@[k] == total_count(#[trigger] fs[k]),
        decreases n - i,
    {
        totals.push(lints[i].total_count());
        i += 1;
    }
    let mut order: Vec<usize> = Vec::new();
    let mut i: usize = 0;
    while i < n
        invariant
            i <= n,
            n == fs.len(),
            totals.len() == n,
            forall|k: int| 0 <= k < n ==> totals@[k] == total_count(#[trigger] fs[k]),
            order.len() == i,
            order@.no_duplicates(),
            forall|k: int| 0 <= k < order.len() ==> (#[trigger] order@[k]) < i,
            forall|a: int, b: int|
                0 <= a < b < order.len() ==> ranks_before(
                    fs,
                    #[trigger] order@[a] as int,
                    #[trigger] order@[b] as int,
                ),
        decreases n - i,
    {
        let t = totals[i];
        let mut p: usize = 0;
        while p < order.len() && totals[order[p]] >= t
            invariant
                p <= order.len(),
                i < n,
                totals.len() == n,
                t == totals@[i as int],
                forall|k: int| 0 <= k < order.len() ==> (#[trigger] order@[k]) < i,
                forall|k: int| 0 <= k < p ==> totals@[(#[trigger] order@[k]) as int] >= t,
            decreases order.len() - p,
        {
            p += 1;
        }
        let ghost before = order@;
        order.insert(p, i);
        proof {
            let after = order@;
            assert forall|a: int, b: int| 0 <= a < b < after.len() implies ranks_before(
                fs,
                #[trigger] after[a] as int,
                #[trigger] after[b] as int,
            ) by {
                if b < p {
                    assert(after[a] == before[a] && after[b] == before[b]);
                } else if b == p {
                    assert(after[a] == before[a]);
                    assert(totals@[before[a] as int] >= t);
                } else if a < p {
                    assert(after[a] == before[a] && after[b] == before[b - 1]);
                } else if a == p {
                    assert(after[b] == before[b - 1]);
                    assert(totals@[before[p as int] as int] < t);
                    if b - 1 > p {
                        assert(ranks_before(fs, before[p as int] as int, before[b - 1] as int));
                    }
                } else {
                    assert(after[a] == before[a - 1] && after[b] == before[b - 1]);
                }
            }
            assert forall|a: int, b: int|
                0 <= a < after.len() && 0 <= b < after.len() && a != b implies after[a] != after[b] by {
                let pa = if a < p {
                    a
                } else {
                    a - 1
                };
                let pb = if b < p {
                    b
                } else {
                    b - 1
                };
                if a != p {
                    assert(after[a] == before[pa]);
                }
                if b != p {
                    assert(after[b] == before[pb]);
                }
            }
            assert forall|k: int| 0 <= k < after.len() implies (#[trigger] after[k]) < i + 1 by {
                if k < p {
                    assert(after[k] == before[k]);
                } else if k > p {
                    assert(after[k] == before[k - 1]);
                }
            }
        }
        i += 1;
    }
    order
}

} // verus!
