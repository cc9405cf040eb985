//! The caps on what is displayed: so many spans of a lint for each source
//! file, and so many for each package.

use vstd::prelude::*;
use crate::findings::EntryView;
use crate::findings::FileFindings;
use crate::findings::FileView;
use crate::findings::LintFindings;
use crate::findings::by_package;
use crate::findings::entry_wf;
use crate::findings::findings_wf;
use crate::findings::entries_view;
use crate::findings::files_view;
use crate::findings::lemma_name_not_after;
use crate::findings::no_span_twice;
use crate::name::name_key;
use crate::name::name_order;
use crate::name::same_name;
use crate::source::Locations;
use crate::source::LocationsView;
use crate::source::Span;
use crate::text::Order;
use crate::text::lemma_seq_lt_total;

verus! {

/// The smaller of two numbers.
pub open spec fn least(a: nat, b: nat) -> nat {
    if a <= b {
        a
    } else {
        b
    }
}

/// The number of spans of a file.
pub open spec fn kept(l: LocationsView) -> nat {
    l.global.len() + l.local.len()
}

/// The locations of a file cut down to `allowance` spans: the first global
/// spans stay, as many as the allowance has room for, and the first local
/// spans fill what is left of it.
pub open spec fn cap_locations(l: LocationsView, allowance: nat) -> LocationsView {
    let g = least(l.global.len(), allowance);
    let k = least(l.local.len(), (allowance - g) as nat);
    LocationsView { contents: l.contents, global: l.global.take(g as int), local: l.local.take(k as int) }
}

/// The number of spans that the files of the package `name` hold together.
pub open spec fn package_total(files: Seq<FileView>, name: Seq<char>) -> nat
    decreases files.len(),
{
    if files.len() == 0 {
        0
    } else {
        package_total(files.drop_last(), name) + (if same_name(files.last().unit.krate, name) {
            kept(files.last().locations)
        } else {
            0
        })
    }
}

/// The files of a lint after both caps were applied, file by file in their
/// order: each file is cut down to `per_file` spans, and then to what the
/// files before it have left of the `per_package` spans of its package.
pub open spec fn capped_files(files: Seq<FileView>, per_file: nat, per_package: nat) -> Seq<FileView>
    decreases files.len(),
{
    if files.len() == 0 {
        Seq::empty()
    } else {
        let done = capped_files(files.drop_last(), per_file, per_package);
        let last = files.last();
        let used = package_total(done, last.unit.krate);
        let remaining = if used <= per_package {
            (per_package - used) as nat
        } else {
            0
        };
        done.push(
            FileView {
                unit: last.unit,
                locations: cap_locations(cap_locations(last.locations, per_file), remaining),
            },
        )
    }
}

/// One lint after both caps were applied.
pub open spec fn capped_entry(e: EntryView, per_file: nat, per_package: nat) -> EntryView {
    EntryView { id: e.id, files: capped_files(e.files, per_file, per_package) }
}

/// The findings after both caps were applied to every lint.
pub open spec fn capped(fs: Seq<EntryView>, per_file: nat, per_package: nat) -> Seq<EntryView> {
    fs.map_values(|e: EntryView| capped_entry(e, per_file, per_package))
}

/// The caps change neither the number of the files nor their identities.
pub proof fn lemma_capped_files_units(files: Seq<FileView>, per_file: nat, per_package: nat)
    ensures
        capped_files(files, per_file, per_package).len() == files.len(),
        forall|i: int|
            0 <= i < files.len() ==> (#[trigger] capped_files(files, per_file, per_package)[i]).unit
                == files[i].unit,
    decreases files.len(),
{
    if files.len() > 0 {
        lemma_capped_files_units(files.drop_last(), per_file, per_package);
    }
}

/// Two names of one package have the same total.
pub proof fn lemma_package_total_same(files: Seq<FileView>, a: Seq<char>, b: Seq<char>)
    requires
        same_name(a, b),
    ensures
        package_total(files, a) == package_total(files, b),
    decreases files.len(),
{
    if files.len() > 0 {
        lemma_package_total_same(files.drop_last(), a, b);
    }
}

/// A package without files has no spans.
pub proof fn lemma_package_total_none(files: Seq<FileView>, name: Seq<char>)
    requires
        forall|i: int| 0 <= i < files.len() ==> !same_name(#[trigger] files[i].unit.krate, name),
    ensures
        package_total(files, name) == 0,
    decreases files.len(),
{
    if files.len() > 0 {
        let front = files.drop_last();
        assert forall|i: int| 0 <= i < front.len() implies !same_name(
            #[trigger] front[i].unit.krate,
            name,
        ) by {
            assert(front[i] == files[i]);
        }
        lemma_package_total_none(front, name);
        assert(!same_name(files[files.len() - 1].unit.krate, name));
    }
}

/// Where the files stand package by package, a file whose package is not
/// that of the file before it is the first of its package.
pub proof fn lemma_new_package(files: Seq<FileView>, n: int)
    requires
        by_package(files),
        0 < n < files.len(),
        !same_name(files[n - 1].unit.krate, files[n].unit.krate),
    ensures
        forall|i: int| 0 <= i < n ==> !same_name(#[trigger] files[i].unit.krate, files[n].unit.krate),
{
    assert forall|i: int| 0 <= i < n implies !same_name(
        #[trigger] files[i].unit.krate,
        files[n].unit.krate,
    ) by {
        let a = files[i].unit.krate;
        let b = files[n - 1].unit.krate;
        let c = files[n].unit.krate;
        assert(name_order(b, c) != Order::After);
        if i < n - 1 {
            assert(name_order(a, b) != Order::After);
        }
        lemma_seq_lt_total(name_key(a), name_key(b));
        lemma_seq_lt_total(name_key(b), name_key(c));
        lemma_seq_lt_total(name_key(a), name_key(c));
    }
}

/// Cutting a file down leaves no span twice in it.
pub proof fn lemma_cap_no_span_twice(l: LocationsView, allowance: nat)
    requires
        no_span_twice(l),
    ensures
        no_span_twice(cap_locations(l, allowance)),
{
    let c = cap_locations(l, allowance);
    let before = l.global + l.local;
    let after = c.global + c.local;
    let g = c.global.len() as int;
    assert forall|i: int, j: int| 0 <= i < after.len() && 0 <= j < after.len() && i != j implies after[i]
        != after[j] by {
        let pi = if i < g {
            i
        } else {
            i - g + l.global.len()
        };
        let pj = if j < g {
            j
        } else {
            j - g + l.global.len()
        };
        assert(after[i] == before[pi]);
        assert(after[j] == before[pj]);
    }
}

/// Cuts a file down to `allowance` spans.
pub fn cap_file(locations: &mut Locations, allowance: usize)
    ensures
        final(locations)@ == cap_locations(old(locations)@, allowance as nat),
{
    locations.global.truncate(allowance);
    let rest: usize = allowance - locations.global.len();
    locations.local.truncate(rest);
    assert(locations.global@ =~= old(locations).global@.take(
        least(old(locations).global@.len(), allowance as nat) as int,
    ));
    assert(locations.local@ =~= old(locations).local@.take(
        least(
            old(locations).local@.len(),
            (allowance - least(old(locations).global@.len(), allowance as nat)) as nat,
        ) as int,
    ));
}

/// Applies both caps to the files of one lint, which stand package by
/// package.
pub fn cap_files(files: &mut Vec<FileFindings>, per_file: usize, per_package: usize)
    requires
        by_package(files_view(old(files)@)),
    ensures
        files_view(final(files)@) == capped_files(
            files_view(old(files)@),
            per_file as nat,
            per_package as nat,
        ),
{
    let ghost orig = files_view(files@);
    let n = files.len();
    let mut run: usize = 0;
    let mut i: usize = 0;
    proof {
        assert(orig.take(0) =~= Seq::<FileView>::empty());
    }
    while i < n
        invariant
            i <= n,
            n == files.len(),
            n == orig.len(),
            by_package(orig),
            files_view(files@).take(i as int) == capped_files(
                orig.take(i as int),
                per_file as nat,
                per_package as nat,
            ),
            files_view(files@).skip(i as int) == orig.skip(i as int),
            run <= per_package,
            i > 0 ==> run == package_total(
                capped_files(orig.take(i as int), per_file as nat, per_package as nat),
                orig[i - 1].unit.krate,
            ),
        decreases n - i,
    {
        let ghost done = capped_files(orig.take(i as int), per_file as nat, per_package as nat);
        let ghost now = files_view(files@);
        proof {
            assert(now[i as int] == now.skip(i as int)[0]);
            assert(orig[i as int] == orig.skip(i as int)[0]);
            lemma_capped_files_units(orig.take(i as int), per_file as nat, per_package as nat);
        }
        let same = i > 0 && files[i - 1].file.krate.same_package(&files[i].file.krate);
        proof {
            if i > 0 {
                assert(now[i - 1] == now.take(i as int)[i - 1]);
                assert(done[i - 1].unit == orig.take(i as int)[i - 1].unit);
            }
        }
        let used: usize = if same {
            run
        } else {
            0
        };
        proof {
            let name = orig[i as int].unit.krate;
            if same {
                lemma_package_total_same(done, orig[i - 1].unit.krate, name);
            } else {
                if i > 0 {
                    lemma_new_package(orig, i as int);
                }
                assert forall|k: int| 0 <= k < done.len() implies !same_name(
                    #[trigger] done[k].unit.krate,
                    name,
                ) by {
                    assert(done[k].unit == orig.take(i as int)[k].unit);
                    assert(orig.take(i as int)[k] == orig[k]);
                }
                lemma_package_total_none(done, name);
            }
            assert(used == package_total(done, name));
        }
        let remaining: usize = per_package - used;
        let entry = &mut files[i];
        cap_file(&mut entry.locations, per_file);
        cap_file(&mut entry.locations, remaining);
        let count: usize = entry.locations.global.len() + entry.locations.local.len();
        run = used + count;
        proof {
            let next = files_view(files@);
            let prefix = orig.take(i + 1);
            assert(prefix.drop_last() =~= orig.take(i as int));
            assert(prefix.last() == orig[i as int]);
            let want = capped_files(prefix, per_file as nat, per_package as nat);
            assert(next.take(i + 1) =~= now.take(i as int).push(next[i as int]));
            assert(next.take(i + 1) =~= want);
            assert(next.skip(i + 1) =~= orig.skip(i + 1)) by {
                let a = next.skip(i + 1);
                let b = orig.skip(i + 1);
                assert forall|k: int| 0 <= k < n - i - 1 implies #[trigger] a[k] == b[k] by {
                    assert(next[i + 1 + k] == now[i + 1 + k]);
                    assert(now.skip(i as int)[k + 1] == orig.skip(i as int)[k + 1]);
                }
            }
            assert(want.drop_last() =~= done);
            assert(same_name(orig[i as int].unit.krate, orig[i as int].unit.krate));
        }
        i += 1;
    }
    proof {
        assert(orig.take(n as int) =~= orig);
        assert(files_view(files@).take(n as int) =~= files_view(files@));
    }
}


/// The caps leave no span twice in any file.
pub proof fn lemma_capped_files_spans(files: Seq<FileView>, per_file: nat, per_package: nat)
    requires
        forall|i: int| 0 <= i < files.len() ==> no_span_twice(#[trigger] files[i].locations),
    ensures
        forall|i: int|
            0 <= i < files.len() ==> no_span_twice(
                (#[trigger] capped_files(files, per_file, per_package)[i]).locations,
            ),
    decreases files.len(),
{
    if files.len() > 0 {
        let front = files.drop_last();
        assert forall|i: int| 0 <= i < front.len() implies no_span_twice(
            #[trigger] front[i].locations,
        ) by {
            assert(front[i] == files[i]);
        }
        lemma_capped_files_spans(front, per_file, per_package);
        lemma_capped_files_units(front, per_file, per_package);
        let done = capped_files(front, per_file, per_package);
        let last = files.last();
        let used = package_total(done, last.unit.krate);
        let remaining = if used <= per_package {
            (per_package - used) as nat
        } else {
            0
        };
        assert(no_span_twice(files[files.len() - 1].locations));
        lemma_cap_no_span_twice(last.locations, per_file);
        lemma_cap_no_span_twice(cap_locations(last.locations, per_file), remaining);
        let all = capped_files(files, per_file, per_package);
        assert forall|i: int| 0 <= i < files.len() implies no_span_twice(
            (#[trigger] all[i]).locations,
        ) by {
            if i < front.len() {
                assert(all[i] == done[i]);
            }
        }
    }
}

/// The caps keep the findings well formed.
pub proof fn lemma_capped_wf(fs: Seq<EntryView>, per_file: nat, per_package: nat)
    requires
        findings_wf(fs),
    ensures
        findings_wf(capped(fs, per_file, per_package)),
{
    let cs = capped(fs, per_file, per_package);
    assert forall|i: int| 0 <= i < cs.len() implies entry_wf(#[trigger] cs[i]) by {
        assert(entry_wf(fs[i]));
        lemma_capped_files_units(fs[i].files, per_file, per_package);
        lemma_capped_files_spans(fs[i].files, per_file, per_package);
        let files = cs[i].files;
        assert forall|a: int, b: int| 0 <= a < b < files.len() implies name_order(
            #[trigger] files[a].unit.krate,
            #[trigger] files[b].unit.krate,
        ) != Order::After by {
            assert(files[a].unit == fs[i].files[a].unit);
            assert(files[b].unit == fs[i].files[b].unit);
        }
    }
    assert forall|i: int, j: int| 0 <= i < j < cs.len() implies crate::text::str_lt(
        #[trigger] cs[i].id,
        #[trigger] cs[j].id,
    ) by {
        assert(cs[i].id == fs[i].id);
        assert(cs[j].id == fs[j].id);
    }
}

/// Applies both caps to every lint of a list.
pub fn cap_lints(lints: &mut Vec<LintFindings>, per_file: usize, per_package: usize)
    requires
        findings_wf(entries_view(old(lints)@)),
    ensures
        entries_view(final(lints)@) == capped(
            entries_view(old(lints)@),
            per_file as nat,
            per_package as nat,
        ),
{
    let ghost orig = entries_view(lints@);
    let ghost want = capped(orig, per_file as nat, per_package as nat);
    let n = lints.len();
    let mut i: usize = 0;
    while i < n
        invariant
            i <= n,
            n == lints.len(),
            n == orig.len(),
            findings_wf(orig),
            want == capped(orig, per_file as nat, per_package as nat),
            forall|k: int| 0 <= k < i ==> (#[trigger] entries_view(lints@)[k]) == want[k],
            forall|k: int| i <= k < n ==> (#[trigger] entries_view(lints@)[k]) == orig[k],
        decreases n - i,
    {
        let ghost now = entries_view(lints@);
        proof {
            assert(now[i as int] == orig[i as int]);
            assert(entry_wf(orig[i as int]));
        }
        let entry = &mut lints[i];
        cap_files(&mut entry.files, per_file, per_package);
        proof {
            let next = entries_view(lints@);
            assert(next[i as int] == want[i as int]);
            assert forall|k: int| 0 <= k < i + 1 implies (#[trigger] next[k]) == want[k] by {
                if k < i {
                    assert(next[k] == now[k]);
                }
            }
            assert forall|k: int| i + 1 <= k < n implies (#[trigger] next[k]) == orig[k] by {
                assert(next[k] == now[k]);
            }
        }
        i += 1;
    }
    assert(entries_view(lints@) =~= want);
}


/// A file that is cut down keeps as many spans as the allowance has room
/// for, and all of them where it has room for all. It keeps a local span
/// only where it keeps every global one.
pub proof fn law_cap_keeps_least(l: LocationsView, allowance: nat)
    ensures
        kept(cap_locations(l, allowance)) == least(kept(l), allowance),
        cap_locations(l, allowance).local.len() > 0 ==> cap_locations(l, allowance).global
            == l.global,
{
    let c = cap_locations(l, allowance);
    if c.local.len() > 0 {
        assert(c.global =~= l.global);
    }
}

/// After the caps no file holds more than `per_file` spans of the lint, and
/// the files of no package hold more than `per_package` together.
pub proof fn law_caps_hold(files: Seq<FileView>, per_file: nat, per_package: nat, name: Seq<char>)
    ensures
        package_total(capped_files(files, per_file, per_package), name) <= per_package,
        forall|i: int|
            0 <= i < files.len() ==> kept(
                (#[trigger] capped_files(files, per_file, per_package)[i]).locations,
            ) <= per_file,
    decreases files.len(),
{
    if files.len() > 0 {
        let front = files.drop_last();
        let done = capped_files(front, per_file, per_package);
        let last = files.last();
        law_caps_hold(front, per_file, per_package, name);
        law_caps_hold(front, per_file, per_package, last.unit.krate);
        lemma_capped_files_units(front, per_file, per_package);
        let used = package_total(done, last.unit.krate);
        let remaining = (per_package - used) as nat;
        let once = cap_locations(last.locations, per_file);
        law_cap_keeps_least(last.locations, per_file);
        law_cap_keeps_least(once, remaining);
        let all = capped_files(files, per_file, per_package);
        assert(all.drop_last() =~= done);
        if same_name(last.unit.krate, name) {
            lemma_package_total_same(done, last.unit.krate, name);
        }
        assert forall|i: int| 0 <= i < files.len() implies kept((#[trigger] all[i]).locations)
            <= per_file by {
            if i < front.len() {
                assert(all[i] == done[i]);
            }
        }
    }
}

} // verus!
