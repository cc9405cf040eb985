//! The findings of a run: for each lint, the source files that suppress it,
//! and in each file the spans where they do.

use vstd::prelude::*;
use std::sync::Arc;
use crate::lints::Registry;
use crate::lints::LintView;
use crate::lints::canonical_id;
use crate::name::name_key;
use crate::name::name_order;
use crate::name::same_name;
use crate::parse::FindingView;
use crate::parse::ParseError;
use crate::parse::allow_spec;
use crate::parse::cfg_attr;
use crate::parse::cfg_attr_spec;
use crate::parse::has_feature;
use crate::parse::findings_view;
use crate::source::Locations;
use crate::source::LocationsView;
use crate::source::SourceFile;
use crate::source::Span;
use crate::source::UnitView;
use crate::source::unit_order;
use crate::source::lemma_unit_order_reflexive;
use crate::text::Order;
use crate::text::compare_strs;
use crate::text::lemma_seq_lt_total;
use crate::text::lemma_seq_lt_transitive;
use crate::text::lemma_seq_lt_irreflexive;
use crate::text::lemma_str_order_same;
use crate::text::same_str;
use crate::text::seq_lt;
use crate::text::str_lt;
use crate::token::AttrStyle;
use crate::token::Attribute;
use crate::token::AttributeView;
use crate::token::TokenView;

verus! {

/// What was found of one lint in one source file.
#[derive(Clone, Debug)]
pub struct FileFindings {
    pub file: SourceFile,
    pub locations: Locations,
}

/// What a `FileFindings` holds.
pub struct FileView {
    pub unit: UnitView,
    pub locations: LocationsView,
}

impl View for FileFindings {
    type V = FileView;

    open spec fn view(&self) -> FileView {
        FileView { unit: self.file@, locations: self.locations@ }
    }
}

/// The files of a list, each by what it holds.
pub open spec fn files_view(files: Seq<FileFindings>) -> Seq<FileView> {
    files.map_values(|f: FileFindings| f@)
}

/// What was found of one lint, file by file.
#[derive(Clone, Debug)]
pub struct LintFindings {
    pub lint_id: String,
    pub files: Vec<FileFindings>,
}

/// What a `LintFindings` holds.
pub struct EntryView {
    pub id: Seq<char>,
    pub files: Seq<FileView>,
}

impl View for LintFindings {
    type V = EntryView;

    open spec fn view(&self) -> EntryView {
        EntryView { id: self.lint_id@, files: files_view(self.files@) }
    }
}

/// The lints of a list, each by what it holds.
pub open spec fn entries_view(lints: Seq<LintFindings>) -> Seq<EntryView> {
    lints.map_values(|l: LintFindings| l@)
}

/// The number of leading `true` values: the place of the first `false`.
pub open spec fn first_false(flags: Seq<bool>) -> int
    decreases flags.len(),
{
    if flags.len() == 0 || !flags[0] {
        0
    } else {
        1 + first_false(flags.skip(1))
    }
}

/// The place of the first `false` is `p` where `true` stands at every place
/// before `p` and not at `p`.
pub proof fn lemma_first_false(flags: Seq<bool>, p: int)
    requires
        0 <= p <= flags.len(),
        forall|j: int| 0 <= j < p ==> flags[j],
        p < flags.len() ==> !flags[p],
    ensures
        first_false(flags) == p,
    decreases flags.len(),
{
    if p > 0 {
        assert(flags[0]);
        assert forall|j: int| 0 <= j < p - 1 implies flags.skip(1)[j] by {
            assert(flags[j + 1]);
        }
        lemma_first_false(flags.skip(1), p - 1);
    }
}

/// Whether no span stands twice in the two lists of a file.
pub open spec fn no_span_twice(l: LocationsView) -> bool {
    (l.global + l.local).no_duplicates()
}

/// Whether the files stand package by package, in the order of the packages'
/// names.
pub open spec fn by_package(files: Seq<FileView>) -> bool {
    forall|i: int, j: int|
        0 <= i < j < files.len() ==> name_order(
            #[trigger] files[i].unit.krate,
            #[trigger] files[j].unit.krate,
        ) != Order::After
}

/// What holds of the files of every lint: they stand package by package, and
/// no span stands twice in a file.
pub open spec fn files_wf(files: Seq<FileView>) -> bool {
    &&& by_package(files)
    &&& forall|i: int| 0 <= i < files.len() ==> no_span_twice(#[trigger] files[i].locations)
}

/// What holds of every lint of the findings.
pub open spec fn entry_wf(e: EntryView) -> bool {
    files_wf(e.files)
}

/// Whether the lints stand in the strict order of their names.
pub open spec fn by_id(fs: Seq<EntryView>) -> bool {
    forall|i: int, j: int| 0 <= i < j < fs.len() ==> str_lt(#[trigger] fs[i].id, #[trigger] fs[j].id)
}

/// What holds of every `Findings`: the lints stand in the order of their
/// names, none twice; the files of a lint stand package by package; and no
/// span stands twice in a file.
pub open spec fn findings_wf(fs: Seq<EntryView>) -> bool {
    &&& by_id(fs)
    &&& forall|i: int| 0 <= i < fs.len() ==> entry_wf(#[trigger] fs[i])
}

/// The locations of a file after one more span was found in it. A span that
/// the file has already is not added again.
pub open spec fn merge_span(l: LocationsView, style: AttrStyle, span: Span) -> LocationsView {
    if l.global.contains(span) || l.local.contains(span) {
        l
    } else {
        match style {
            AttrStyle::Inner => LocationsView {
                contents: l.contents,
                global: l.global.push(span),
                local: l.local,
            },
            AttrStyle::Outer => LocationsView {
                contents: l.contents,
                global: l.global,
                local: l.local.push(span),
            },
        }
    }
}

/// For each file, whether it comes before `unit`.
pub open spec fn files_before(files: Seq<FileView>, unit: UnitView) -> Seq<bool> {
    files.map_values(|f: FileView| unit_order(f.unit, unit) == Order::Before)
}

/// The place of `unit` among the files: that of the first file that does not
/// come before it.
pub open spec fn file_place(files: Seq<FileView>, unit: UnitView) -> int {
    first_false(files_before(files, unit))
}

/// Whether `unit` is among the files, at its place.
pub open spec fn has_file(files: Seq<FileView>, unit: UnitView) -> bool {
    let p = file_place(files, unit);
    0 <= p < files.len() && unit_order(files[p].unit, unit) == Order::Same
}

/// The files of a lint after one more span was found in `unit`, whose text
/// is `text`. A file that is there already keeps its identity and its text.
pub open spec fn merge_file(
    files: Seq<FileView>,
    unit: UnitView,
    text: Seq<char>,
    style: AttrStyle,
    span: Span,
) -> Seq<FileView> {
    let p = file_place(files, unit);
    if has_file(files, unit) {
        files.update(
            p,
            FileView { unit: files[p].unit, locations: merge_span(files[p].locations, style, span) },
        )
    } else {
        files.insert(
            p,
            FileView {
                unit,
                locations: merge_span(
                    LocationsView { contents: text, global: Seq::empty(), local: Seq::empty() },
                    style,
                    span,
                ),
            },
        )
    }
}

/// For each lint, whether its name comes before `id`.
pub open spec fn ids_before(fs: Seq<EntryView>, id: Seq<char>) -> Seq<bool> {
    fs.map_values(|e: EntryView| str_lt(e.id, id))
}

/// The place of the lint `id`: that of the first lint whose name does not
/// come before it.
pub open spec fn lint_place(fs: Seq<EntryView>, id: Seq<char>) -> int {
    first_false(ids_before(fs, id))
}

/// Whether the lint `id` is among the findings, at its place.
pub open spec fn has_lint(fs: Seq<EntryView>, id: Seq<char>) -> bool {
    let p = lint_place(fs, id);
    0 <= p < fs.len() && fs[p].id == id
}

/// The files of the lint `id`; none where the lint is not among the
/// findings.
pub open spec fn files_of(fs: Seq<EntryView>, id: Seq<char>) -> Seq<FileView> {
    if has_lint(fs, id) {
        fs[lint_place(fs, id)].files
    } else {
        Seq::empty()
    }
}

/// The findings with `files` as the files of the lint `id`, which stands at
/// its place.
pub open spec fn put_entry(fs: Seq<EntryView>, id: Seq<char>, files: Seq<FileView>) -> Seq<
    EntryView,
> {
    let p = lint_place(fs, id);
    if has_lint(fs, id) {
        fs.update(p, EntryView { id, files })
    } else {
        fs.insert(p, EntryView { id, files })
    }
}

/// The findings after one more span of the lint `id` was found in `unit`.
pub open spec fn merge_one(
    fs: Seq<EntryView>,
    id: Seq<char>,
    unit: UnitView,
    text: Seq<char>,
    style: AttrStyle,
    span: Span,
) -> Seq<EntryView> {
    put_entry(fs, id, merge_file(files_of(fs, id), unit, text, style, span))
}


/// `true` stands at every place before that of the first `false`.
pub proof fn lemma_first_false_props(flags: Seq<bool>)
    ensures
        0 <= first_false(flags) <= flags.len(),
        forall|j: int| 0 <= j < first_false(flags) ==> flags[j],
        first_false(flags) < flags.len() ==> !flags[first_false(flags)],
    decreases flags.len(),
{
    if flags.len() > 0 && flags[0] {
        let rest = flags.skip(1);
        lemma_first_false_props(rest);
        assert forall|j: int| 0 <= j < first_false(flags) implies flags[j] by {
            if j > 0 {
                assert(rest[j - 1]);
            }
        }
    }
}

/// The order of package names, read as "not after", is transitive.
pub proof fn lemma_name_not_after(a: Seq<char>, b: Seq<char>, c: Seq<char>)
    requires
        name_order(a, b) != Order::After,
        name_order(b, c) != Order::After,
    ensures
        name_order(a, c) != Order::After,
{
    let ka = name_key(a);
    let kb = name_key(b);
    let kc = name_key(c);
    lemma_seq_lt_total(ka, kb);
    lemma_seq_lt_total(kb, kc);
    lemma_seq_lt_total(ka, kc);
    if seq_lt(ka, kb) && seq_lt(kb, kc) {
        lemma_seq_lt_transitive(ka, kb, kc);
    }
}

/// One more span leaves no span twice in a file, and the text as it is.
pub proof fn lemma_merge_span_wf(l: LocationsView, style: AttrStyle, span: Span)
    requires
        no_span_twice(l),
    ensures
        no_span_twice(merge_span(l, style, span)),
        merge_span(l, style, span).contents == l.contents,
{
    let m = merge_span(l, style, span);
    if !(l.global.contains(span) || l.local.contains(span)) {
        let before = l.global + l.local;
        let after = m.global + m.local;
        assert forall|i: int, j: int| 0 <= i < after.len() && 0 <= j < after.len() && i != j implies after[i]
            != after[j] by {
            // Each place of `after` holds the new span or stands for a place of `before`.
            let g = l.global.len() as int;
            let place = |k: int| -> int
                {
                    match style {
                        AttrStyle::Inner => if k < g {
                            k
                        } else {
                            k - 1
                        },
                        AttrStyle::Outer => k,
                    }
                };
            let fresh: int = match style {
                AttrStyle::Inner => g,
                AttrStyle::Outer => before.len() as int,
            };
            if i == fresh {
                assert(after[i] == span);
                assert(after[j] == before[place(j)]);
                if place(j) < g {
                    assert(l.global[place(j)] == before[place(j)]);
                } else {
                    assert(l.local[place(j) - g] == before[place(j)]);
                }
            } else if j == fresh {
                assert(after[j] == span);
                assert(after[i] == before[place(i)]);
                if place(i) < g {
                    assert(l.global[place(i)] == before[place(i)]);
                } else {
                    assert(l.local[place(i) - g] == before[place(i)]);
                }
            } else {
                assert(after[i] == before[place(i)]);
                assert(after[j] == before[place(j)]);
            }
        }
    }
}

/// One more span keeps the files of a lint well formed.
pub proof fn lemma_merge_file_wf(
    files: Seq<FileView>,
    unit: UnitView,
    text: Seq<char>,
    style: AttrStyle,
    span: Span,
)
    requires
        files_wf(files),
    ensures
        files_wf(merge_file(files, unit, text, style, span)),
{
    let p = file_place(files, unit);
    let flags = files_before(files, unit);
    lemma_first_false_props(flags);
    let merged = merge_file(files, unit, text, style, span);
    if has_file(files, unit) {
        lemma_merge_span_wf(files[p].locations, style, span);
        assert forall|i: int| 0 <= i < merged.len() implies no_span_twice(
            #[trigger] merged[i].locations,
        ) by {
            if i != p {
                assert(merged[i] == files[i]);
            }
        }
        assert forall|i: int, j: int| 0 <= i < j < merged.len() implies name_order(
            #[trigger] merged[i].unit.krate,
            #[trigger] merged[j].unit.krate,
        ) != Order::After by {
            assert(merged[i].unit == files[i].unit);
            assert(merged[j].unit == files[j].unit);
        }
    } else {
        let empty = LocationsView { contents: text, global: Seq::empty(), local: Seq::empty() };
        assert((empty.global + empty.local) =~= Seq::<Span>::empty());
        lemma_merge_span_wf(empty, style, span);
        assert forall|i: int| 0 <= i < merged.len() implies no_span_twice(
            #[trigger] merged[i].locations,
        ) by {
            if i < p {
                assert(merged[i] == files[i]);
            } else if i > p {
                assert(merged[i] == files[i - 1]);
            }
        }
        assert forall|k: int| 0 <= k < p implies name_order(
            #[trigger] files[k].unit.krate,
            unit.krate,
        ) != Order::After by {
            assert(flags[k]);
        }
        assert forall|k: int| p <= k < files.len() implies name_order(
            unit.krate,
            #[trigger] files[k].unit.krate,
        ) != Order::After by {
            assert(!flags[p]);
            lemma_seq_lt_total(name_key(files[p].unit.krate), name_key(unit.krate));
            if k > p {
                lemma_name_not_after(unit.krate, files[p].unit.krate, files[k].unit.krate);
            }
        }
        assert forall|i: int, j: int| 0 <= i < j < merged.len() implies name_order(
            #[trigger] merged[i].unit.krate,
            #[trigger] merged[j].unit.krate,
        ) != Order::After by {
            if j < p {
                assert(merged[i] == files[i] && merged[j] == files[j]);
            } else if j == p {
                assert(merged[i] == files[i]);
            } else if i < p {
                assert(merged[i] == files[i] && merged[j] == files[j - 1]);
            } else if i == p {
                assert(merged[j] == files[j - 1]);
            } else {
                assert(merged[i] == files[i - 1] && merged[j] == files[j - 1]);
            }
        }
    }
}

/// Putting well-formed files at the place of their lint keeps the findings
/// well formed.
pub proof fn lemma_put_entry_wf(fs: Seq<EntryView>, id: Seq<char>, files: Seq<FileView>)
    requires
        findings_wf(fs),
        files_wf(files),
    ensures
        findings_wf(put_entry(fs, id, files)),
{
    let p = lint_place(fs, id);
    let flags = ids_before(fs, id);
    lemma_first_false_props(flags);
    let merged = put_entry(fs, id, files);
    if has_lint(fs, id) {
        assert forall|i: int| 0 <= i < merged.len() implies entry_wf(#[trigger] merged[i]) by {
            if i != p {
                assert(merged[i] == fs[i]);
            }
        }
        assert forall|i: int, j: int| 0 <= i < j < merged.len() implies str_lt(
            #[trigger] merged[i].id,
            #[trigger] merged[j].id,
        ) by {
            assert(merged[i].id == fs[i].id);
            assert(merged[j].id == fs[j].id);
        }
    } else {
        assert forall|i: int| 0 <= i < merged.len() implies entry_wf(#[trigger] merged[i]) by {
            if i < p {
                assert(merged[i] == fs[i]);
            } else if i > p {
                assert(merged[i] == fs[i - 1]);
            }
        }
        assert forall|k: int| 0 <= k < p implies str_lt(#[trigger] fs[k].id, id) by {
            assert(flags[k]);
        }
        assert forall|k: int| p <= k < fs.len() implies str_lt(id, #[trigger] fs[k].id) by {
            assert(!flags[p]);
            lemma_str_order_same(fs[p].id, id);
            if k > p {
                lemma_seq_lt_transitive(
                    vstd::utf8::encode_utf8(id),
                    vstd::utf8::encode_utf8(fs[p].id),
                    vstd::utf8::encode_utf8(fs[k].id),
                );
            }
        }
        assert forall|i: int, j: int| 0 <= i < j < merged.len() implies str_lt(
            #[trigger] merged[i].id,
            #[trigger] merged[j].id,
        ) by {
            if j < p {
                assert(merged[i] == fs[i] && merged[j] == fs[j]);
            } else if j == p {
                assert(merged[i] == fs[i]);
            } else if i < p {
                assert(merged[i] == fs[i] && merged[j] == fs[j - 1]);
            } else if i == p {
                assert(merged[j] == fs[j - 1]);
            } else {
                assert(merged[i] == fs[i - 1] && merged[j] == fs[j - 1]);
            }
        }
    }
}

/// Merging keeps the findings well formed.
pub proof fn lemma_merge_one_wf(
    fs: Seq<EntryView>,
    id: Seq<char>,
    unit: UnitView,
    text: Seq<char>,
    style: AttrStyle,
    span: Span,
)
    requires
        findings_wf(fs),
    ensures
        findings_wf(merge_one(fs, id, unit, text, style, span)),
{
    let files = files_of(fs, id);
    if has_lint(fs, id) {
        lemma_first_false_props(ids_before(fs, id));
        assert(entry_wf(fs[lint_place(fs, id)]));
    }
    lemma_merge_file_wf(files, unit, text, style, span);
    lemma_put_entry_wf(fs, id, merge_file(files, unit, text, style, span));
}

fn has_span(spans: &Vec<Span>, span: Span) -> (r: bool)
    ensures
        r == spans@.contains(span),
{
    let mut i: usize = 0;
    while i < spans.len()
        invariant
            i <= spans.len(),
            forall|j: int| 0 <= j < i ==> spans@[j] != span,
        decreases spans.len() - i,
    {
        if spans[i] == span {
            return true;
        }
        i += 1;
    }
    false
}

/// Records one more span in a file, unless the file has it already: among
/// the global spans for an inner attribute, among the local ones for an outer
/// attribute.
pub fn add_span(locations: &mut Locations, style: AttrStyle, span: Span)
    ensures
        final(locations)@ == merge_span(old(locations)@, style, span),
{
    if has_span(&locations.global, span) || has_span(&locations.local, span) {
        return ;
    }
    match style {
        AttrStyle::Inner => locations.global.push(span),
        AttrStyle::Outer => locations.local.push(span),
    }
}

/// One more holder of the text, through `Arc::clone`: the text itself is
/// not copied, and the new holder gives the same text.
#[verifier::external_body]
fn share(text: &Arc<String>) -> (r: Arc<String>)
    ensures
        r == *text,
{
    Arc::clone(text)
}

/// The place of `source_file` among the files, and whether it is there.
fn find_file(files: &Vec<FileFindings>, source_file: &SourceFile) -> (r: (usize, bool))
    ensures
        r.0 == file_place(files_view(files@), source_file@),
        r.0 <= files.len(),
        r.1 == has_file(files_view(files@), source_file@),
{
    let ghost flags = files_before(files_view(files@), source_file@);
    let mut i: usize = 0;
    while i < files.len()
        invariant
            i <= files.len(),
            flags == files_before(files_view(files@), source_file@),
            forall|j: int| 0 <= j < i ==> flags[j],
        decreases files.len() - i,
    {
        let o = files[i].file.compare(source_file);
        match o {
            Order::Before => {},
            _ => {
                proof {
                    lemma_first_false(flags, i as int);
                }
                return (i, o == Order::Same);
            },
        }
        i += 1;
    }
    proof {
        lemma_first_false(flags, i as int);
    }
    (i, false)
}

/// Records one more span of a lint in `source_file`, whose text is
/// `contents`. The file is looked up among `files` and, where it is not
/// there, put at its place with a share of the text.
pub fn merge_into_files(
    files: &mut Vec<FileFindings>,
    source_file: &SourceFile,
    contents: &Arc<String>,
    style: AttrStyle,
    span: Span,
)
    ensures
        files_view(final(files)@) == merge_file(
            files_view(old(files)@),
            source_file@,
            contents@,
            style,
            span,
        ),
{
    let (p, found) = find_file(files, source_file);
    if found {
        let entry = &mut files[p];
        add_span(&mut entry.locations, style, span);
    } else {
        let mut entry = FileFindings {
            file: source_file.duplicate(),
            locations: Locations { contents: share(contents), global: Vec::new(), local: Vec::new() },
        };
        add_span(&mut entry.locations, style, span);
        files.insert(p, entry);
    }
    assert(files_view(files@) =~= merge_file(
        files_view(old(files)@),
        source_file@,
        contents@,
        style,
        span,
    ));
}

/// The place of the lint `lint_id` among the lints, and whether it is there.
fn find_lint(lints: &Vec<LintFindings>, lint_id: &str) -> (r: (usize, bool))
    ensures
        r.0 == lint_place(entries_view(lints@), lint_id@),
        r.0 <= lints.len(),
        r.1 == has_lint(entries_view(lints@), lint_id@),
{
    let ghost flags = ids_before(entries_view(lints@), lint_id@);
    let mut i: usize = 0;
    while i < lints.len()
        invariant
            i <= lints.len(),
            flags == ids_before(entries_view(lints@), lint_id@),
            forall|j: int| 0 <= j < i ==> flags[j],
        decreases lints.len() - i,
    {
        let o = compare_strs(lints[i].lint_id.as_str(), lint_id);
        match o {
            Order::Before => {},
            _ => {
                proof {
                    lemma_first_false(flags, i as int);
                }
                return (i, o == Order::Same);
            },
        }
        i += 1;
    }
    proof {
        lemma_first_false(flags, i as int);
    }
    (i, false)
}

/// Records one more span of the lint `lint_id` among `lints`.
fn merge_into_lints(
    lints: &mut Vec<LintFindings>,
    lint_id: String,
    source_file: &SourceFile,
    contents: &Arc<String>,
    style: AttrStyle,
    span: Span,
)
    ensures
        entries_view(final(lints)@) == merge_one(
            entries_view(old(lints)@),
            lint_id@,
            source_file@,
            contents@,
            style,
            span,
        ),
{
    let ghost fs = entries_view(old(lints)@);
    let ghost id = lint_id@;
    let ghost want = merge_one(fs, id, source_file@, contents@, style, span);
    let (p, found) = find_lint(lints, lint_id.as_str());
    if found {
        let entry = &mut lints[p];
        merge_into_files(&mut entry.files, source_file, contents, style, span);
        assert(entries_view(lints@) =~= fs.update(
            p as int,
            EntryView {
                id,
                files: merge_file(files_of(fs, id), source_file@, contents@, style, span),
            },
        ));
    } else {
        let mut entry = LintFindings { lint_id, files: Vec::new() };
        assert(files_view(entry.files@) =~= Seq::<FileView>::empty());
        merge_into_files(&mut entry.files, source_file, contents, style, span);
        let ghost e = entry@;
        lints.insert(p, entry);
        assert(entries_view(lints@) =~= fs.insert(p as int, e));
    }
}


/// The forms of attribute that are told apart.
#[derive(Clone, Copy, Debug, PartialEq, Eq, Structural)]
pub enum Shape {
    /// `allow(...)`.
    Direct,
    /// `cfg_attr(...)`.
    Conditional,
    /// Any other attribute.
    Ignore,
}

/// The form of an attribute, by its path.
pub open spec fn shape_of(name: Option<Seq<char>>) -> Shape {
    match name {
        Some(n) => if n == "allow"@ {
            Shape::Direct
        } else if n == "cfg_attr"@ {
            Shape::Conditional
        } else {
            Shape::Ignore
        },
        None => Shape::Ignore,
    }
}

/// The lints that an attribute suppresses, with their spans. An attribute of
/// another form, one without a list of arguments and one whose arguments are
/// refused suppress none.
pub open spec fn attribute_findings(attr: AttributeView) -> Seq<FindingView> {
    match attr.tokens {
        Some(ts) => {
            let parsed = match shape_of(attr.name) {
                Shape::Direct => allow_spec(ts),
                Shape::Conditional => cfg_attr_spec(ts),
                Shape::Ignore => Err(ParseError::Syntax),
            };
            match parsed {
                Ok(found) => found,
                Err(_) => Seq::empty(),
            }
        },
        None => Seq::empty(),
    }
}

/// The findings after the spans `found` of one attribute were merged, each
/// under the current name of its lint.
pub open spec fn merge_all(
    fs: Seq<EntryView>,
    registry: Seq<LintView>,
    unit: UnitView,
    text: Seq<char>,
    style: AttrStyle,
    found: Seq<FindingView>,
) -> Seq<EntryView>
    decreases found.len(),
{
    if found.len() == 0 {
        fs
    } else {
        merge_one(
            merge_all(fs, registry, unit, text, style, found.drop_last()),
            canonical_id(registry, found.last().0),
            unit,
            text,
            style,
            found.last().1,
        )
    }
}

/// The findings after one attribute of `unit` was visited.
pub open spec fn visit_spec(
    fs: Seq<EntryView>,
    registry: Seq<LintView>,
    unit: UnitView,
    text: Seq<char>,
    attr: AttributeView,
) -> Seq<EntryView> {
    merge_all(fs, registry, unit, text, attr.style, attribute_findings(attr))
}

/// The form of an attribute.
pub fn shape(attr: &Attribute) -> (r: Shape)
    ensures
        r == shape_of(attr@.name),
{
    match &attr.name {
        Some(n) => {
            if same_str(n.as_str(), "allow") {
                Shape::Direct
            } else if same_str(n.as_str(), "cfg_attr") {
                Shape::Conditional
            } else {
                Shape::Ignore
            }
        },
        None => Shape::Ignore,
    }
}

/// The lints that an attribute suppresses, with their spans.
pub fn parse_attribute(attr: &Attribute) -> (found: Vec<(String, Span)>)
    ensures
        findings_view(found@) == attribute_findings(attr@),
{
    let parsed = match &attr.tokens {
        Some(tokens) => match shape(attr) {
            Shape::Direct => crate::parse::allow(tokens),
            Shape::Conditional => cfg_attr(tokens),
            Shape::Ignore => Err(ParseError::Syntax),
        },
        None => Err(ParseError::Syntax),
    };
    match parsed {
        Ok(found) => found,
        Err(_) => {
            let found: Vec<(String, Span)> = Vec::new();
            assert(findings_view(found@) =~= Seq::<FindingView>::empty());
            found
        },
    }
}

/// The findings of a run.
#[derive(Debug)]
pub struct Findings {
    lints: Vec<LintFindings>,
}

impl View for Findings {
    type V = Seq<EntryView>;

    closed spec fn view(&self) -> Seq<EntryView> {
        entries_view(self.lints@)
    }
}

impl Findings {
    #[verifier::type_invariant]
    spec fn well_formed(self) -> bool {
        findings_wf(entries_view(self.lints@))
    }

    /// Findings without any lint.
    pub fn new() -> (findings: Self)
        ensures
            findings@ == Seq::<EntryView>::empty(),
    {
        let findings = Findings { lints: Vec::new() };
        assert(findings@ =~= Seq::<EntryView>::empty());
        findings
    }

    /// The lints, in the order of their names.
    pub fn lints(&self) -> (lints: &Vec<LintFindings>)
        ensures
            entries_view(lints@) == self@,
            findings_wf(self@),
    {
        proof {
            use_type_invariant(self);
        }
        &self.lints
    }

    /// Records one more span of the lint `lint_id`, found in `source_file`,
    /// whose text is `contents`, inside an attribute of style `style`.
    pub fn merge(
        &mut self,
        lint_id: String,
        source_file: &SourceFile,
        contents: &Arc<String>,
        style: AttrStyle,
        span: Span,
    )
        ensures
            final(self)@ == merge_one(old(self)@, lint_id@, source_file@, contents@, style, span),
            findings_wf(final(self)@),
    {
        proof {
            use_type_invariant(&*self);
            lemma_merge_one_wf(self@, lint_id@, source_file@, contents@, style, span);
        }
        let mut lints: Vec<LintFindings> = Vec::new();
        core::mem::swap(&mut self.lints, &mut lints);
        merge_into_lints(&mut lints, lint_id, source_file, contents, style, span);
        self.lints = lints;
    }

    /// Applies the caps on what is displayed: of each lint at most
    /// `per_file` spans stay in each source file, and at most `per_package`
    /// in the files of each package. Global spans stay before local ones.
    pub fn apply_caps(&mut self, per_file: usize, per_package: usize)
        ensures
            final(self)@ == crate::caps::capped(old(self)@, per_file as nat, per_package as nat),
            findings_wf(final(self)@),
    {
        proof {
            use_type_invariant(&*self);
            crate::caps::lemma_capped_wf(self@, per_file as nat, per_package as nat);
        }
        let mut lints: Vec<LintFindings> = Vec::new();
        core::mem::swap(&mut self.lints, &mut lints);
        crate::caps::cap_lints(&mut lints, per_file, per_package);
        self.lints = lints;
    }

    /// Ranks the lints: the places, within `lints()`, of the lints with the
    /// most spans first, and of lints with the same number of spans in the
    /// order of their names.
    pub fn rank(&self) -> (order: Vec<usize>)
        ensures
            crate::rank::is_ranking(self@, order@),
            forall|a: int, b: int|
                0 <= a < b < order@.len() ==> crate::rank::total_count(self@[order@[a] as int])
                    > crate::rank::total_count(self@[order@[b] as int]) || (crate::rank::total_count(
                    self@[order@[a] as int],
                ) == crate::rank::total_count(self@[order@[b] as int]) && str_lt(
                    (#[trigger] self@[order@[a] as int]).id,
                    (#[trigger] self@[order@[b] as int]).id,
                )),
    {
        proof {
            use_type_invariant(self);
        }
        let order = crate::rank::rank_order(&self.lints);
        proof {
            let fs = self@;
            assert forall|a: int, b: int| 0 <= a < b < order@.len() implies crate::rank::total_count(
                fs[order@[a] as int],
            ) > crate::rank::total_count(fs[order@[b] as int]) || (crate::rank::total_count(
                fs[order@[a] as int],
            ) == crate::rank::total_count(fs[order@[b] as int]) && str_lt(
                (#[trigger] fs[order@[a] as int]).id,
                (#[trigger] fs[order@[b] as int]).id,
            )) by {
                assert(crate::rank::ranks_before(fs, order@[a] as int, order@[b] as int));
            }
        }
        order
    }

    /// Records the lints `found` inside one attribute of style `style` of
    /// `source_file`, whose text is `contents`: each lint under its current
    /// name, as global for an inner attribute and as local for an outer one.
    pub fn merge_found(
        &mut self,
        registry: &Registry,
        source_file: &SourceFile,
        contents: &Arc<String>,
        style: AttrStyle,
        found: &Vec<(String, Span)>,
    )
        ensures
            final(self)@ == merge_all(
                old(self)@,
                registry@,
                source_file@,
                contents@,
                style,
                findings_view(found@),
            ),
            findings_wf(final(self)@),
    {
        let ghost all = findings_view(found@);
        let ghost start = self@;
        proof {
            use_type_invariant(&*self);
            assert(all.take(0) =~= Seq::<FindingView>::empty());
        }
        let mut i: usize = 0;
        while i < found.len()
            invariant
                i <= found.len(),
                all == findings_view(found@),
                self@ == merge_all(start, registry@, source_file@, contents@, style, all.take(i as int)),
                findings_wf(self@),
            decreases found.len() - i,
        {
            let lint_id = found[i].0.clone();
            let span = found[i].1;
            proof {
                assert(all[i as int] == (lint_id@, span));
                assert(all.take(i + 1).drop_last() =~= all.take(i as int));
                assert(all.take(i + 1).last() == all[i as int]);
            }
            let id = registry.canonical(lint_id);
            self.merge(id, source_file, contents, style, span);
            i += 1;
        }
        assert(all.take(all.len() as int) =~= all);
    }

    /// Visits one attribute of `source_file`, whose text is `contents`: the
    /// lints that the attribute suppresses are recorded.
    pub fn visit_attribute(
        &mut self,
        registry: &Registry,
        source_file: &SourceFile,
        contents: &Arc<String>,
        attr: &Attribute,
    )
        ensures
            final(self)@ == visit_spec(old(self)@, registry@, source_file@, contents@, attr@),
            findings_wf(final(self)@),
    {
        let found = parse_attribute(attr);
        self.merge_found(registry, source_file, contents, attr.style, &found);
    }
}

/// A span that was merged is found in its file: merging it once more changes
/// nothing.
pub proof fn law_merge_span_idempotent(l: LocationsView, style: AttrStyle, span: Span)
    ensures
        merge_span(merge_span(l, style, span), style, span) == merge_span(l, style, span),
{
    let m = merge_span(l, style, span);
    if !(l.global.contains(span) || l.local.contains(span)) {
        match style {
            AttrStyle::Inner => {
                assert(m.global[l.global.len() as int] == span);
            },
            AttrStyle::Outer => {
                assert(m.local[l.local.len() as int] == span);
            },
        }
    }
}

/// Whether `span` is among the spans of a file, global or local.
pub open spec fn holds_span(l: LocationsView, span: Span) -> bool {
    l.global.contains(span) || l.local.contains(span)
}

/// After a span was merged, the file is among the files, at its place, and
/// holds the span.
pub proof fn lemma_merge_file_has(
    files: Seq<FileView>,
    unit: UnitView,
    text: Seq<char>,
    style: AttrStyle,
    span: Span,
)
    ensures
        has_file(merge_file(files, unit, text, style, span), unit),
        file_place(merge_file(files, unit, text, style, span), unit) == file_place(files, unit),
        holds_span(
            merge_file(files, unit, text, style, span)[file_place(files, unit)].locations,
            span,
        ),
{
    let p = file_place(files, unit);
    let flags = files_before(files, unit);
    lemma_first_false_props(flags);
    let once = merge_file(files, unit, text, style, span);
    let flags1 = files_before(once, unit);
    lemma_unit_order_reflexive(unit);
    let before = if has_file(files, unit) {
        files[p].locations
    } else {
        LocationsView { contents: text, global: Seq::empty(), local: Seq::empty() }
    };
    let after = merge_span(before, style, span);
    if !holds_span(before, span) {
        match style {
            AttrStyle::Inner => {
                assert(after.global[before.global.len() as int] == span);
            },
            AttrStyle::Outer => {
                assert(after.local[before.local.len() as int] == span);
            },
        }
    }
    assert(once[p].locations == after);
    if has_file(files, unit) {
        assert(flags1 =~= flags);
    } else {
        assert forall|j: int| 0 <= j < p implies flags1[j] by {
            assert(flags[j]);
            assert(once[j] == files[j]);
        }
        assert(once[p].unit == unit);
        assert(!flags1[p]);
        lemma_first_false(flags1, p);
    }
}

/// Merging the same span in the same file twice gives what merging it once
/// gives.
pub proof fn lemma_merge_file_idempotent(
    files: Seq<FileView>,
    unit: UnitView,
    text: Seq<char>,
    style: AttrStyle,
    span: Span,
)
    ensures
        merge_file(merge_file(files, unit, text, style, span), unit, text, style, span)
            == merge_file(files, unit, text, style, span),
{
    lemma_merge_file_has(files, unit, text, style, span);
    let once = merge_file(files, unit, text, style, span);
    assert(merge_file(once, unit, text, style, span) =~= once);
}

/// After a span of a lint was merged, the lint is among the findings.
pub proof fn lemma_merge_one_has(
    fs: Seq<EntryView>,
    id: Seq<char>,
    unit: UnitView,
    text: Seq<char>,
    style: AttrStyle,
    span: Span,
)
    ensures
        has_lint(merge_one(fs, id, unit, text, style, span), id),
        files_of(merge_one(fs, id, unit, text, style, span), id) == merge_file(
            files_of(fs, id),
            unit,
            text,
            style,
            span,
        ),
{
    let p = lint_place(fs, id);
    let flags = ids_before(fs, id);
    lemma_first_false_props(flags);
    let files = merge_file(files_of(fs, id), unit, text, style, span);
    let once = put_entry(fs, id, files);
    let flags1 = ids_before(once, id);
    lemma_seq_lt_irreflexive(vstd::utf8::encode_utf8(id));
    assert forall|j: int| 0 <= j < p implies flags1[j] by {
        assert(flags[j]);
        assert(once[j] == fs[j]);
    }
    assert(once[p].id == id);
    assert(!flags1[p]);
    lemma_first_false(flags1, p);
}

/// A span that was merged is found: its lint is among the findings, its
/// file is among the files of the lint, and the file holds the span.
pub proof fn law_merged_span_is_found(
    fs: Seq<EntryView>,
    id: Seq<char>,
    unit: UnitView,
    text: Seq<char>,
    style: AttrStyle,
    span: Span,
)
    ensures
        has_lint(merge_one(fs, id, unit, text, style, span), id),
        has_file(files_of(merge_one(fs, id, unit, text, style, span), id), unit),
        holds_span(
            files_of(merge_one(fs, id, unit, text, style, span), id)[file_place(
                files_of(merge_one(fs, id, unit, text, style, span), id),
                unit,
            )].locations,
            span,
        ),
{
    lemma_merge_one_has(fs, id, unit, text, style, span);
    lemma_merge_file_has(files_of(fs, id), unit, text, style, span);
}

/// Merging the same span of the same lint in the same file twice gives what
/// merging it once gives: the span stands once in the file, not twice.
pub proof fn law_merge_idempotent(
    fs: Seq<EntryView>,
    id: Seq<char>,
    unit: UnitView,
    text: Seq<char>,
    style: AttrStyle,
    span: Span,
)
    ensures
        merge_one(merge_one(fs, id, unit, text, style, span), id, unit, text, style, span)
            == merge_one(fs, id, unit, text, style, span),
{
    lemma_merge_one_has(fs, id, unit, text, style, span);
    lemma_merge_file_idempotent(files_of(fs, id), unit, text, style, span);
    let once = merge_one(fs, id, unit, text, style, span);
    lemma_first_false_props(ids_before(once, id));
    assert(merge_one(once, id, unit, text, style, span) =~= once);
}

/// The first span that is found at all gives one lint with one file, which
/// holds the span as global where the attribute is an inner one and as local
/// where it is an outer one.
pub proof fn law_first_finding(
    id: Seq<char>,
    unit: UnitView,
    text: Seq<char>,
    style: AttrStyle,
    span: Span,
)
    ensures
        merge_one(Seq::empty(), id, unit, text, style, span) == seq![
            EntryView {
                id,
                files: seq![
                    FileView {
                        unit,
                        locations: LocationsView {
                            contents: text,
                            global: if style == AttrStyle::Inner {
                                seq![span]
                            } else {
                                Seq::empty()
                            },
                            local: if style == AttrStyle::Outer {
                                seq![span]
                            } else {
                                Seq::empty()
                            },
                        },
                    },
                ],
            },
        ],
{
    let empty = LocationsView { contents: text, global: Seq::<Span>::empty(), local: Seq::empty() };
    let l = merge_span(empty, style, span);
    assert(l.global =~= if style == AttrStyle::Inner {
        seq![span]
    } else {
        Seq::empty()
    });
    assert(l.local =~= if style == AttrStyle::Outer {
        seq![span]
    } else {
        Seq::empty()
    });
    let files = merge_file(Seq::empty(), unit, text, style, span);
    assert(files =~= seq![FileView { unit, locations: l }]);
    assert(files_of(Seq::empty(), id) =~= Seq::<FileView>::empty());
    assert(merge_one(Seq::empty(), id, unit, text, style, span) =~= seq![EntryView { id, files }]);
}


/// The style of the attribute decides the list of a new span: a span from an
/// inner attribute is added behind the global spans, one from an outer
/// attribute behind the local spans, and the other list stays as it is.
pub proof fn law_style_decides_the_list(l: LocationsView, style: AttrStyle, span: Span)
    requires
        !holds_span(l, span),
    ensures
        style == AttrStyle::Inner ==> merge_span(l, style, span).global == l.global.push(span)
            && merge_span(l, style, span).local == l.local,
        style == AttrStyle::Outer ==> merge_span(l, style, span).local == l.local.push(span)
            && merge_span(l, style, span).global == l.global,
{
}

/// An attribute `cfg_attr` whose arguments start with `feature = "..."`, for
/// another feature than `cargo-clippy`, suppresses nothing.
pub proof fn law_other_feature_finds_nothing(style: AttrStyle, ts: Seq<TokenView>)
    requires
        has_feature(ts),
        ts[2].kind->Str_0 != "cargo-clippy"@,
    ensures
        attribute_findings(AttributeView { style, name: Some("cfg_attr"@), tokens: Some(ts) })
            == Seq::<FindingView>::empty(),
{
    reveal_strlit("cfg_attr");
    reveal_strlit("allow");
    assert("cfg_attr"@.len() != "allow"@.len());
    assert(shape_of(Some("cfg_attr"@)) == Shape::Conditional);
    assert(cfg_attr_spec(ts) == Err::<Seq<FindingView>, ParseError>(ParseError::Feature));
}

/// An attribute of another name than `allow` and `cfg_attr` suppresses
/// nothing, and so does an attribute without a list of arguments.
pub proof fn law_other_attributes_find_nothing(attr: AttributeView)
    requires
        attr.tokens is None || attr.name is None || (attr.name != Some("allow"@) && attr.name != Some(
            "cfg_attr"@,
        )),
    ensures
        attribute_findings(attr) == Seq::<FindingView>::empty(),
{
}

} // verus!
