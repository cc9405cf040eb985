//! Positions and spans in a source text, and the identity of a source file.

use vstd::prelude::*;
use std::sync::Arc;
use crate::text::Order;
use crate::text::str_order;
use crate::text::compare_strs;
use crate::text::lemma_str_order_same;
use crate::name::Crate;
use crate::name::name_order;
use crate::name::lemma_name_order_total;
use crate::version::Version;
use crate::version::VersionView;
use crate::version::version_order;

verus! {

/// A place in a text: the line, counted from 1, and the column, counted in
/// characters from 0.
#[derive(Clone, Copy, Debug, PartialEq, Eq, Structural)]
pub struct LineColumn {
    pub line: usize,
    pub column: usize,
}

/// Order of positions: by line, then by column.
pub open spec fn pos_lt(a: LineColumn, b: LineColumn) -> bool {
    a.line < b.line || (a.line == b.line && a.column < b.column)
}

impl LineColumn {
    /// The position at the given line and column.
    pub fn new(line: usize, column: usize) -> (p: Self)
        ensures
            p.line == line,
            p.column == column,
    {
        LineColumn { line, column }
    }

    /// Whether `self` comes before `other`.
    pub fn before(&self, other: &LineColumn) -> (r: bool)
        ensures
            r == pos_lt(*self, *other),
    {
        self.line < other.line || (self.line == other.line && self.column < other.column)
    }
}

/// The stretch of text from `start` up to, not including, `end`.
#[derive(Clone, Copy, Debug, PartialEq, Eq, Structural)]
pub struct Span {
    pub start: LineColumn,
    pub end: LineColumn,
}

/// Order of spans: by start, then by end.
pub open spec fn span_lt(a: Span, b: Span) -> bool {
    pos_lt(a.start, b.start) || (a.start == b.start && pos_lt(a.end, b.end))
}

impl Span {
    /// The span from `start` to `end`.
    pub fn new(start: LineColumn, end: LineColumn) -> (s: Self)
        ensures
            s.start == start,
            s.end == end,
    {
        Span { start, end }
    }

    /// Three-way comparison of two spans.
    pub fn compare(&self, other: &Span) -> (o: Order)
        ensures
            (o == Order::Before) == span_lt(*self, *other),
            (o == Order::Same) == (*self == *other),
            (o == Order::After) == span_lt(*other, *self),
    {
        if self.start.before(&other.start) {
            Order::Before
        } else if other.start.before(&self.start) {
            Order::After
        } else if self.end.before(&other.end) {
            Order::Before
        } else if other.end.before(&self.end) {
            Order::After
        } else {
            Order::Same
        }
    }
}

/// Order of two paths, each given by the names of its components: the first
/// component in which they differ decides, and a path comes before each of
/// its extensions.
pub open spec fn path_order(a: Seq<Seq<char>>, b: Seq<Seq<char>>) -> Order
    decreases a.len(),
{
    if a.len() == 0 {
        if b.len() == 0 {
            Order::Same
        } else {
            Order::Before
        }
    } else if b.len() == 0 {
        Order::After
    } else if str_order(a[0], b[0]) != Order::Same {
        str_order(a[0], b[0])
    } else {
        path_order(a.skip(1), b.skip(1))
    }
}

/// A path is `Same` as itself.
pub proof fn lemma_path_order_reflexive(a: Seq<Seq<char>>)
    ensures
        path_order(a, a) == Order::Same,
    decreases a.len(),
{
    if a.len() > 0 {
        lemma_str_order_same(a[0], a[0]);
        lemma_path_order_reflexive(a.skip(1));
    }
}

/// The names of a path's components.
pub open spec fn path_view(path: Seq<String>) -> Seq<Seq<char>> {
    path.map_values(|s: String| s@)
}

/// Three-way comparison of two paths.
pub fn compare_paths(a: &Vec<String>, b: &Vec<String>) -> (o: Order)
    ensures
        o == path_order(path_view(a@), path_view(b@)),
{
    let ghost pa = path_view(a@);
    let ghost pb = path_view(b@);
    let mut i: usize = 0;
    proof {
        assert(pa.skip(0) =~= pa);
        assert(pb.skip(0) =~= pb);
    }
    while i < a.len() && i < b.len()
        invariant
            i <= a.len(),
            i <= b.len(),
            pa == path_view(a@),
            pb == path_view(b@),
            path_order(pa, pb) == path_order(pa.skip(i as int), pb.skip(i as int)),
        decreases a.len() - i,
    {
        let o = compare_strs(a[i].as_str(), b[i].as_str());
        proof {
            assert(pa.skip(i as int)[0] == a@[i as int]@);
            assert(pb.skip(i as int)[0] == b@[i as int]@);
            assert(pa.skip(i as int).skip(1) =~= pa.skip(i + 1));
            assert(pb.skip(i as int).skip(1) =~= pb.skip(i + 1));
        }
        match o {
            Order::Same => {},
            _ => {
                return o;
            },
        }
        i += 1;
    }
    if i < b.len() {
        Order::Before
    } else if i < a.len() {
        Order::After
    } else {
        Order::Same
    }
}

/// One text file of one release of a package.
#[derive(Clone, Debug)]
pub struct SourceFile {
    pub krate: Crate,
    pub version: Version,
    /// The file's path below the package's root, one name per component.
    pub relative_path: Vec<String>,
}

/// What a `SourceFile` holds.
pub struct UnitView {
    pub krate: Seq<char>,
    pub version: VersionView,
    pub path: Seq<Seq<char>>,
}

impl View for SourceFile {
    type V = UnitView;

    open spec fn view(&self) -> UnitView {
        UnitView {
            krate: self.krate@,
            version: self.version@,
            path: path_view(self.relative_path@),
        }
    }
}

/// Order of source files: by package name, then by version, then by path.
pub open spec fn unit_order(a: UnitView, b: UnitView) -> Order {
    if name_order(a.krate, b.krate) != Order::Same {
        name_order(a.krate, b.krate)
    } else if version_order(a.version, b.version) != Order::Same {
        version_order(a.version, b.version)
    } else {
        path_order(a.path, b.path)
    }
}

/// A source file is `Same` as itself.
pub proof fn lemma_unit_order_reflexive(a: UnitView)
    ensures
        unit_order(a, a) == Order::Same,
{
    lemma_name_order_total(a.krate, a.krate, a.krate);
    lemma_path_order_reflexive(a.path);
}

impl SourceFile {
    /// The file at `relative_path` in the given release of the package.
    pub fn new(krate: Crate, version: Version, relative_path: Vec<String>) -> (file: Self)
        ensures
            file.krate == krate,
            file.version == version,
            file.relative_path == relative_path,
    {
        SourceFile { krate, version, relative_path }
    }

    /// A copy of the file's identity.
    pub fn duplicate(&self) -> (file: SourceFile)
        ensures
            file@ == self@,
    {
        let mut path: Vec<String> = Vec::new();
        let mut i: usize = 0;
        while i < self.relative_path.len()
            invariant
                i <= self.relative_path.len(),
                path@.len() == i,
                forall|j: int| 0 <= j < i ==> path@[j]@ == self.relative_path@[j]@,
            decreases self.relative_path.len() - i,
        {
            path.push(self.relative_path[i].clone());
            i += 1;
        }
        assert(path_view(path@) =~= path_view(self.relative_path@));
        SourceFile {
            krate: Crate(self.krate.0.clone()),
            version: Version {
                major: self.version.major,
                minor: self.version.minor,
                patch: self.version.patch,
                pre: self.version.pre.clone(),
                build: self.version.build.clone(),
            },
            relative_path: path,
        }
    }

    /// Three-way comparison of two source files.
    pub fn compare(&self, rhs: &SourceFile) -> (o: Order)
        ensures
            o == unit_order(self@, rhs@),
    {
        let by_name = self.krate.compare(&rhs.krate);
        match by_name {
            Order::Same => {},
            _ => {
                return by_name;
            },
        }
        let by_version = self.version.compare(&rhs.version);
        match by_version {
            Order::Same => {},
            _ => {
                return by_version;
            },
        }
        compare_paths(&self.relative_path, &rhs.relative_path)
    }
}

/// What was found of one lint in one source file.
#[derive(Clone, Debug)]
pub struct Locations {
    /// The file's text.
    pub contents: Arc<String>,
    /// Spans inside attributes that apply to the enclosing scope.
    pub global: Vec<Span>,
    /// Spans inside attributes that apply to the item that follows.
    pub local: Vec<Span>,
}

/// What a `Locations` holds.
pub struct LocationsView {
    pub contents: Seq<char>,
    pub global: Seq<Span>,
    pub local: Seq<Span>,
}

impl View for Locations {
    type V = LocationsView;

    open spec fn view(&self) -> LocationsView {
        LocationsView { contents: self.contents@, global: self.global@, local: self.local@ }
    }
}

} // verus!
