//! The corpus of packages: where the archive of a package lies in a
//! directory of archives, which archive is the newest of a package, and which
//! entries of an archive are read.

use vstd::prelude::*;
use crate::name::Crate;
use crate::name::lowered;
use crate::name::name_order;
use crate::findings::first_false;
use crate::findings::lemma_first_false;
use crate::findings::lemma_first_false_props;
use crate::name::lemma_name_order_total;
use crate::source::path_view;
use crate::text::Order;
use crate::text::chars_of;
use crate::text::same_str;
use crate::version::Version;
use crate::version::VersionView;
use crate::version::semver_parts;
use crate::version::version_order;
use crate::version::version_text;

verus! {

/// The largest source file that is read, in bytes.
pub const MAX_SOURCE_SIZE: u64 = 10 * 1024 * 1024;

/// Whether every character of the text is an ASCII character.
pub open spec fn all_ascii(s: Seq<char>) -> bool {
    forall|i: int| 0 <= i < s.len() ==> (#[trigger] s[i]) <= '\x7f'
}

/// Whether a package of this name has a place among the archives: the name
/// is not empty and holds ASCII characters only.
pub open spec fn is_indexed_name(name: Seq<char>) -> bool {
    name.len() > 0 && all_ascii(name)
}

/// The directories of a package whose name in lower case is `lower`: `1`
/// and `2` for names of one and of two characters, `3` and the first
/// character for names of three, and else the first two characters and the
/// next two.
pub open spec fn index_dirs(lower: Seq<char>) -> Seq<Seq<char>> {
    if lower.len() == 1 {
        seq!["1"@]
    } else if lower.len() == 2 {
        seq!["2"@]
    } else if lower.len() == 3 {
        seq!["3"@, lower.subrange(0, 1)]
    } else {
        seq![lower.subrange(0, 2), lower.subrange(2, 4)]
    }
}

/// The name of the archive of a package's release.
pub open spec fn archive_name(name: Seq<char>, version: VersionView) -> Seq<char> {
    name + "-"@ + version_text(version) + ".crate"@
}

/// The path of the archive of a package's release within the directory of
/// archives: the package's directories, its name in lower case, and the name
/// of the archive.
pub open spec fn archive_path(name: Seq<char>, version: VersionView) -> Seq<Seq<char>> {
    index_dirs(lowered(name)).push(lowered(name)).push(archive_name(name, version))
}

/// The characters from `from` up to `to`, as a string.
fn text_between(chars: &Vec<char>, from: usize, to: usize) -> (s: String)
    requires
        from <= to <= chars.len(),
    ensures
        s@ == chars@.subrange(from as int, to as int),
{
    let mut s = String::new();
    let mut i: usize = from;
    while i < to
        invariant
            from <= i <= to,
            to <= chars.len(),
            s@ == chars@.subrange(from as int, i as int),
        decreases to - i,
    {
        s.push(chars[i]);
        assert(chars@.subrange(from as int, i + 1) =~= chars@.subrange(from as int, i as int).push(
            chars@[i as int],
        ));
        i += 1;
    }
    s
}

fn is_ascii_text(chars: &Vec<char>) -> (r: bool)
    ensures
        r == all_ascii(chars@),
{
    let mut i: usize = 0;
    while i < chars.len()
        invariant
            i <= chars.len(),
            forall|j: int| 0 <= j < i ==> (#[trigger] chars@[j]) <= '\x7f',
        decreases chars.len() - i,
    {
        if chars[i] > '\x7f' {
            return false;
        }
        i += 1;
    }
    true
}

/// The path of the archive of a package's release within the directory of
/// archives, one name for each component.
pub fn reconstruct_crate_file_path(crate_name: &Crate, version: &Version) -> (path: Vec<String>)
    requires
        is_indexed_name(crate_name@),
    ensures
        path_view(path@) == archive_path(crate_name@, version@),
{
    let name_lower = crate_name.to_ascii_lowercase();
    let lower = chars_of(name_lower.as_str());
    let mut path: Vec<String> = Vec::new();
    if lower.len() == 1 {
        path.push("1".to_owned());
    } else if lower.len() == 2 {
        path.push("2".to_owned());
    } else if lower.len() == 3 {
        path.push("3".to_owned());
        path.push(text_between(&lower, 0, 1));
    } else {
        path.push(text_between(&lower, 0, 2));
        path.push(text_between(&lower, 2, 4));
    }
    assert(path_view(path@) =~= index_dirs(lowered(crate_name@)));
    path.push(name_lower);
    let mut file = String::new();
    file.append(crate_name.as_str());
    file.append("-");
    version.push_to(&mut file);
    file.append(".crate");
    assert(file@ =~= archive_name(crate_name@, version@));
    path.push(file);
    assert(path_view(path@) =~= archive_path(crate_name@, version@));
    path
}

/// Whether a file's name has the extension `ext`: it ends with a dot and
/// `ext`, and something stands before the dot.
pub open spec fn has_extension(file: Seq<char>, ext: Seq<char>) -> bool {
    file.len() > ext.len() + 1 && file.subrange(file.len() - ext.len() - 1, file.len() as int)
        == seq!['.'] + ext
}

/// The place of the first dot in `file`; the length of `file` where it
/// holds none.
pub open spec fn first_dot(file: Seq<char>) -> int
    decreases file.len(),
{
    if file.len() == 0 || file[0] == '.' {
        0
    } else {
        1 + first_dot(file.skip(1))
    }
}

/// The place of the last hyphen in `s`, if it holds one.
pub open spec fn last_hyphen(s: Seq<char>) -> Option<int>
    decreases s.len(),
{
    if s.len() == 0 {
        None
    } else if s.last() == '-' {
        Some(s.len() - 1)
    } else {
        last_hyphen(s.drop_last())
    }
}

/// The package and the version that an archive's name stands for: the name
/// of the package ends at the last hyphen before the first dot, and the
/// version stands between that hyphen and the extension `.crate`.
pub open spec fn archive_parts(file: Seq<char>) -> Option<(Seq<char>, VersionView)> {
    if !has_extension(file, "crate"@) {
        None
    } else {
        match last_hyphen(file.take(first_dot(file))) {
            None => None,
            Some(sep) => {
                match semver_parts(file.subrange(sep + 1, file.len() - "crate"@.len() - 1)) {
                    Some(version) => Some((file.take(sep), version)),
                    None => None,
                }
            },
        }
    }
}

/// The package and the version of the archive at `path`, a path within the
/// directory of archives. `None` where the last name of the path is not
/// that of an archive, and where the archive does not lie at the place of
/// its package.
pub open spec fn archive_at(path: Seq<Seq<char>>) -> Option<(Seq<char>, VersionView)> {
    if path.len() == 0 {
        None
    } else {
        match archive_parts(path.last()) {
            Some((name, version)) => if is_indexed_name(name) && archive_path(name, version) == path {
                Some((name, version))
            } else {
                None
            },
            None => None,
        }
    }
}

/// The place of the first dot is the place of a dot that no dot stands
/// before.
pub proof fn lemma_first_dot(file: Seq<char>, at: int)
    requires
        0 <= at <= file.len(),
        forall|j: int| 0 <= j < at ==> file[j] != '.',
        at < file.len() ==> file[at] == '.',
    ensures
        first_dot(file) == at,
    decreases file.len(),
{
    if at > 0 {
        assert(file[0] != '.');
        assert forall|j: int| 0 <= j < at - 1 implies file.skip(1)[j] != '.' by {
            assert(file[j + 1] != '.');
        }
        lemma_first_dot(file.skip(1), at - 1);
    }
}

/// The place of the last hyphen is the place of a hyphen that no hyphen
/// stands behind.
pub proof fn lemma_last_hyphen(s: Seq<char>, at: int)
    requires
        -1 <= at < s.len(),
        forall|j: int| at < j < s.len() ==> s[j] != '-',
        at >= 0 ==> s[at] == '-',
    ensures
        last_hyphen(s) == (if at >= 0 {
            Some(at)
        } else {
            None
        }),
    decreases s.len(),
{
    if s.len() > 0 && at < s.len() - 1 {
        assert(s[s.len() - 1] != '-');
        lemma_last_hyphen(s.drop_last(), at);
    }
}

/// Whether the characters end with a dot and `ext`, behind something else.
fn ends_with_extension(chars: &Vec<char>, ext: &str) -> (r: bool)
    ensures
        r == has_extension(chars@, ext@),
{
    let e = chars_of(ext);
    if chars.len() <= e.len() || chars.len() - e.len() <= 1 {
        return false;
    }
    let start: usize = chars.len() - e.len() - 1;
    let ghost tail = chars@.subrange(start as int, chars.len() as int);
    let ghost want = seq!['.'] + ext@;
    if chars[start] != '.' {
        assert(tail[0] != want[0]);
        return false;
    }
    let mut i: usize = 0;
    while i < e.len()
        invariant
            i <= e.len(),
            e@ == ext@,
            start + 1 + e.len() == chars.len(),
            tail == chars@.subrange(start as int, chars.len() as int),
            want == seq!['.'] + ext@,
            forall|j: int| 0 <= j < i ==> chars@[start + 1 + j] == e@[j],
        decreases e.len() - i,
    {
        if chars[start + 1 + i] != e[i] {
            assert(tail[1 + i] != want[1 + i]);
            return false;
        }
        i += 1;
    }
    assert(tail =~= want);
    true
}

/// Whether two paths hold the same names.
fn same_path(a: &Vec<String>, b: &Vec<String>) -> (r: bool)
    ensures
        r == (path_view(a@) == path_view(b@)),
{
    if a.len() != b.len() {
        return false;
    }
    let mut i: usize = 0;
    while i < a.len()
        invariant
            i <= a.len(),
            a.len() == b.len(),
            forall|j: int| 0 <= j < i ==> a@[j]@ == b@[j]@,
        decreases a.len() - i,
    {
        if !same_str(a[i].as_str(), b[i].as_str()) {
            assert(path_view(a@)[i as int] != path_view(b@)[i as int]);
            return false;
        }
        i += 1;
    }
    assert(path_view(a@) =~= path_view(b@));
    true
}

/// Reads the package and the version from the path of an archive within the
/// directory of archives, given by the names of its components. An archive
/// that does not lie at the place of its package is passed over, and so is
/// one whose package has an empty name or one with other than ASCII
/// characters.
pub fn parse_crate_file_path(path: &Vec<String>) -> (r: Option<(Crate, Version)>)
    ensures
        match (r, archive_at(path_view(path@))) {
            (Some((krate, version)), Some((name, v))) => krate@ == name && version@ == v,
            (None, None) => true,
            _ => false,
        },
{
    if path.len() == 0 {
        return None;
    }
    proof {
        reveal_strlit("crate");
    }
    let ghost file = path_view(path@).last();
    let chars = chars_of(path[path.len() - 1].as_str());
    assert(chars@ == file);
    if !ends_with_extension(&chars, "crate") {
        return None;
    }
    let n = chars.len();
    let mut dot: usize = 0;
    while dot < n && chars[dot] != '.'
        invariant
            dot <= n,
            n == chars.len(),
            forall|j: int| 0 <= j < dot ==> chars@[j] != '.',
        decreases n - dot,
    {
        dot += 1;
    }
    proof {
        lemma_first_dot(chars@, dot as int);
        // the dot of the extension is one of the dots
        assert(chars@.subrange(n - 6, n as int)[0] == '.');
        assert(chars@[n - 6] == '.');
        assert(dot <= n - 6);
    }
    let ghost stem = chars@.take(dot as int);
    let mut sep: usize = dot;
    while sep > 0 && chars[sep - 1] != '-'
        invariant
            sep <= dot,
            dot <= chars.len(),
            forall|j: int| sep <= j < dot ==> chars@[j] != '-',
        decreases sep,
    {
        sep -= 1;
    }
    proof {
        assert forall|j: int| sep - 1 < j < stem.len() implies stem[j] != '-' by {
            assert(stem[j] == chars@[j]);
        }
        if sep > 0 {
            assert(stem[sep - 1] == '-');
        }
        lemma_last_hyphen(stem, sep - 1);
    }
    if sep == 0 {
        return None;
    }
    let sep: usize = sep - 1;
    let name_chars = {
        let mut v: Vec<char> = Vec::new();
        let mut i: usize = 0;
        while i < sep
            invariant
                i <= sep,
                sep < chars.len(),
                v@ == chars@.take(i as int),
            decreases sep - i,
        {
            v.push(chars[i]);
            assert(chars@.take(i + 1) =~= chars@.take(i as int).push(chars@[i as int]));
            i += 1;
        }
        v
    };
    let version_text = text_between(&chars, sep + 1, n - 6);
    let version = match Version::parse(version_text.as_str()) {
        Some(v) => v,
        None => {
            return None;
        },
    };
    if name_chars.len() == 0 || !is_ascii_text(&name_chars) {
        return None;
    }
    let krate = Crate::new(text_between(&chars, 0, sep));
    assert(krate@ =~= chars@.take(sep as int));
    let expected = reconstruct_crate_file_path(&krate, &version);
    if same_path(&expected, path) {
        Some((krate, version))
    } else {
        None
    }
}

/// Whether an entry of an archive is read: it is no larger than the largest
/// source file that is read, and its name has the extension `rs`.
pub open spec fn is_wanted(size: u64, path: Seq<Seq<char>>) -> bool {
    size <= MAX_SOURCE_SIZE && path.len() > 0 && has_extension(path.last(), "rs"@)
}

/// Whether an entry of an archive is read.
pub fn wants_entry(size: u64, path: &Vec<String>) -> (r: bool)
    ensures
        r == is_wanted(size, path_view(path@)),
{
    if size > MAX_SOURCE_SIZE || path.len() == 0 {
        return false;
    }
    let chars = chars_of(path[path.len() - 1].as_str());
    assert(chars@ == path_view(path@).last());
    ends_with_extension(&chars, "rs")
}

/// A path without its first component.
pub open spec fn below_root(path: Seq<Seq<char>>) -> Seq<Seq<char>> {
    if path.len() == 0 {
        path
    } else {
        path.skip(1)
    }
}

/// The path of an entry below the root of its package: the entry's path
/// within the archive without its first component, which names the package
/// and the version.
pub fn relative_path(path: &Vec<String>) -> (r: Vec<String>)
    ensures
        path_view(r@) == below_root(path_view(path@)),
{
    let mut r: Vec<String> = Vec::new();
    if path.len() == 0 {
        assert(path_view(r@) =~= below_root(path_view(path@)));
        return r;
    }
    let mut i: usize = 1;
    while i < path.len()
        invariant
            1 <= i <= path.len(),
            r.len() == i - 1,
            forall|j: int| 0 <= j < i - 1 ==> (#[trigger] r@[j])@ == path@[j + 1]@,
        decreases path.len() - i,
    {
        r.push(path[i].clone());
        i += 1;
    }
    assert forall|j: int| 0 <= j < r@.len() implies path_view(r@)[j] == path_view(path@).skip(1)[j] by {
        assert(r@[j]@ == path@[j + 1]@);
    }
    assert(path_view(r@) =~= path_view(path@).skip(1));
    r
}


/// A release of a package: the package's name and the version.
pub type ReleaseView = (Seq<char>, VersionView);

/// The releases of a list, each by what it holds.
pub open spec fn releases_view(releases: Seq<(Crate, Version)>) -> Seq<ReleaseView> {
    releases.map_values(|r: (Crate, Version)| (r.0@, r.1@))
}

/// For each release, whether its package comes before the package `name`.
pub open spec fn packages_before(releases: Seq<ReleaseView>, name: Seq<char>) -> Seq<bool> {
    releases.map_values(|r: ReleaseView| name_order(r.0, name) == Order::Before)
}

/// The place of the package `name`: that of the first release whose package
/// does not come before it.
pub open spec fn package_place(releases: Seq<ReleaseView>, name: Seq<char>) -> int {
    first_false(packages_before(releases, name))
}

/// The newest releases after one more release was seen. A package that is
/// new stands at its place; a package that is there already keeps its name,
/// and gets the version where that is a later one than the one it has.
pub open spec fn with_release(releases: Seq<ReleaseView>, name: Seq<char>, version: VersionView) -> Seq<
    ReleaseView,
> {
    let p = package_place(releases, name);
    if 0 <= p < releases.len() && name_order(releases[p].0, name) == Order::Same {
        if version_order(version, releases[p].1) == Order::After {
            releases.update(p, (releases[p].0, version))
        } else {
            releases
        }
    } else {
        releases.insert(p, (name, version))
    }
}

/// Whether the releases stand in the strict order of their packages' names,
/// so that no package stands twice.
pub open spec fn by_package_name(releases: Seq<ReleaseView>) -> bool {
    forall|i: int, j: int|
        0 <= i < j < releases.len() ==> name_order(
            (#[trigger] releases[i]).0,
            (#[trigger] releases[j]).0,
        ) == Order::Before
}

/// One more release leaves the releases in the strict order of their
/// packages' names: no package comes to stand twice.
pub proof fn law_releases_stay_in_order(releases: Seq<ReleaseView>, name: Seq<char>, version: VersionView)
    requires
        by_package_name(releases),
    ensures
        by_package_name(with_release(releases, name, version)),
{
    let p = package_place(releases, name);
    let flags = packages_before(releases, name);
    lemma_first_false_props(flags);
    let out = with_release(releases, name, version);
    if 0 <= p < releases.len() && name_order(releases[p].0, name) == Order::Same {
        assert forall|i: int, j: int| 0 <= i < j < out.len() implies name_order(
            (#[trigger] out[i]).0,
            (#[trigger] out[j]).0,
        ) == Order::Before by {
            assert(out[i].0 == releases[i].0);
            assert(out[j].0 == releases[j].0);
        }
    } else {
        assert forall|k: int| 0 <= k < p implies name_order(
            (#[trigger] releases[k]).0,
            name,
        ) == Order::Before by {
            assert(flags[k]);
        }
        assert forall|k: int| p <= k < releases.len() implies name_order(
            name,
            (#[trigger] releases[k]).0,
        ) == Order::Before by {
            assert(!flags[p]);
            lemma_name_order_total(name, releases[p].0, releases[k].0);
            lemma_name_order_total(releases[p].0, name, name);
        }
        assert forall|i: int, j: int| 0 <= i < j < out.len() implies name_order(
            (#[trigger] out[i]).0,
            (#[trigger] out[j]).0,
        ) == Order::Before by {
            if j < p {
                assert(out[i] == releases[i] && out[j] == releases[j]);
            } else if j == p {
                assert(out[i] == releases[i]);
            } else if i < p {
                assert(out[i] == releases[i] && out[j] == releases[j - 1]);
            } else if i == p {
                assert(out[j] == releases[j - 1]);
            } else {
                assert(out[i] == releases[i - 1] && out[j] == releases[j - 1]);
            }
        }
    }
}

/// Takes note of one more release among the newest releases of the
/// packages.
pub fn record_release(releases: &mut Vec<(Crate, Version)>, krate: Crate, version: Version)
    ensures
        releases_view(final(releases)@) == with_release(
            releases_view(old(releases)@),
            krate@,
            version@,
        ),
{
    let ghost before = releases_view(releases@);
    let ghost flags = packages_before(before, krate@);
    let mut i: usize = 0;
    while i < releases.len()
        invariant
            i <= releases.len(),
            releases@ == old(releases)@,
            before == releases_view(releases@),
            flags == packages_before(before, krate@),
            forall|j: int| 0 <= j < i ==> flags[j],
        decreases releases.len() - i,
    {
        match releases[i].0.compare(&krate) {
            Order::Before => {},
            Order::Same => {
                proof {
                    lemma_first_false(flags, i as int);
                }
                match version.compare(&releases[i].1) {
                    Order::After => {
                        let entry = &mut releases[i];
                        entry.1 = version;
                        assert(releases_view(releases@) =~= before.update(
                            i as int,
                            (before[i as int].0, version@),
                        ));
                    },
                    _ => {},
                }
                return ;
            },
            Order::After => {
                proof {
                    lemma_first_false(flags, i as int);
                }
                releases.insert(i, (krate, version));
                assert(releases_view(releases@) =~= before.insert(i as int, (krate@, version@)));
                return ;
            },
        }
        i += 1;
    }
    proof {
        lemma_first_false(flags, i as int);
    }
    releases.insert(i, (krate, version));
    assert(releases_view(releases@) =~= before.insert(i as int, (krate@, version@)));
}

} // verus!
