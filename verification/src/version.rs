//! Semantic versions: their parts as plain values, their text and their order.

use vstd::prelude::*;
use crate::text::Order;
use crate::text::decimal;
use crate::text::push_decimal;

verus! {

/// A semantic version. `pre` and `build` hold the text after `-` and after
/// `+`; each is empty where the version has no such part.
#[derive(Clone, Debug)]
pub struct Version {
    pub major: u64,
    pub minor: u64,
    pub patch: u64,
    pub pre: String,
    pub build: String,
}

/// What a `Version` holds.
pub struct VersionView {
    pub major: u64,
    pub minor: u64,
    pub patch: u64,
    pub pre: Seq<char>,
    pub build: Seq<char>,
}

impl View for Version {
    type V = VersionView;

    open spec fn view(&self) -> VersionView {
        VersionView {
            major: self.major,
            minor: self.minor,
            patch: self.patch,
            pre: self.pre@,
            build: self.build@,
        }
    }
}

/// The sign of a three-way outcome: -1, 0 or 1.
pub open spec fn sign_of(o: Order) -> int {
    match o {
        Order::Before => -1,
        Order::Same => 0,
        Order::After => 1,
    }
}

/// How `semver` orders two pre-release texts, as a sign. A text that is no
/// pre-release comes before every text that is one.
pub uninterp spec fn prerelease_sign(a: Seq<char>, b: Seq<char>) -> int;

/// How `semver` orders two build-metadata texts, as a sign. A text that is no
/// build metadata comes before every text that is.
pub uninterp spec fn build_sign(a: Seq<char>, b: Seq<char>) -> int;

/// The parts that `semver` reads from a version's text, or `None` where the
/// text is no version.
pub uninterp spec fn semver_parts(text: Seq<char>) -> Option<VersionView>;

/// Calls `semver::Prerelease::new` on both texts and `cmp` on the two
/// outcomes. The result is the order that `semver` gives the two
/// pre-releases; it is `Same` for equal texts, since equal texts parse alike.
#[verifier::external_body]
fn compare_prerelease(a: &str, b: &str) -> (o: Order)
    ensures
        sign_of(o) == prerelease_sign(a@, b@),
        a@ == b@ ==> o == Order::Same,
{
    let x = semver::Prerelease::new(a).ok();
    let y = semver::Prerelease::new(b).ok();
    match x.cmp(&y) {
        core::cmp::Ordering::Less => Order::Before,
        core::cmp::Ordering::Equal => Order::Same,
        core::cmp::Ordering::Greater => Order::After,
    }
}

/// Calls `semver::BuildMetadata::new` on both texts and `cmp` on the two
/// outcomes. The result is the order that `semver` gives the two; it is
/// `Same` for equal texts, since equal texts parse alike.
#[verifier::external_body]
fn compare_build(a: &str, b: &str) -> (o: Order)
    ensures
        sign_of(o) == build_sign(a@, b@),
        a@ == b@ ==> o == Order::Same,
{
    let x = semver::BuildMetadata::new(a).ok();
    let y = semver::BuildMetadata::new(b).ok();
    match x.cmp(&y) {
        core::cmp::Ordering::Less => Order::Before,
        core::cmp::Ordering::Equal => Order::Same,
        core::cmp::Ordering::Greater => Order::After,
    }
}

/// Calls `semver::Version::parse` and copies the parts of the version it
/// returns; `None` where it returns an error.
#[verifier::external_body]
fn parse_semver(text: &str) -> (r: Option<Version>)
    ensures
        match r {
            Some(v) => semver_parts(text@) == Some(v@),
            None => semver_parts(text@) is None,
        },
{
    match semver::Version::parse(text) {
        Ok(v) => Some(Version {
            major: v.major,
            minor: v.minor,
            patch: v.patch,
            pre: v.pre.as_str().to_owned(),
            build: v.build.as_str().to_owned(),
        }),
        Err(_) => None,
    }
}

/// The outcome with the given sign.
pub open spec fn order_of_sign(s: int) -> Order {
    if s < 0 {
        Order::Before
    } else if s == 0 {
        Order::Same
    } else {
        Order::After
    }
}

/// Order of two numbers.
pub open spec fn number_order(a: u64, b: u64) -> Order {
    if a < b {
        Order::Before
    } else if a == b {
        Order::Same
    } else {
        Order::After
    }
}

/// Order of two versions: by major, minor and patch number, then by
/// pre-release, then by build metadata. A version is `Same` as itself.
pub open spec fn version_order(a: VersionView, b: VersionView) -> Order {
    if a == b {
        Order::Same
    } else if a.major != b.major {
        number_order(a.major, b.major)
    } else if a.minor != b.minor {
        number_order(a.minor, b.minor)
    } else if a.patch != b.patch {
        number_order(a.patch, b.patch)
    } else if prerelease_sign(a.pre, b.pre) != 0 {
        order_of_sign(prerelease_sign(a.pre, b.pre))
    } else {
        order_of_sign(build_sign(a.build, b.build))
    }
}

/// The text of a version: the three numbers with dots between them, then `-`
/// and the pre-release where there is one, then `+` and the build metadata
/// where there is some.
pub open spec fn version_text(v: VersionView) -> Seq<char> {
    decimal(v.major as nat) + seq!['.'] + decimal(v.minor as nat) + seq!['.'] + decimal(
        v.patch as nat,
    ) + (if v.pre.len() > 0 {
        seq!['-'] + v.pre
    } else {
        Seq::empty()
    }) + (if v.build.len() > 0 {
        seq!['+'] + v.build
    } else {
        Seq::empty()
    })
}

fn compare_numbers(a: u64, b: u64) -> (o: Order)
    ensures
        o == number_order(a, b),
{
    if a < b {
        Order::Before
    } else if a == b {
        Order::Same
    } else {
        Order::After
    }
}

impl Version {
    /// The version `major.minor.patch`, without pre-release and build
    /// metadata.
    pub fn new(major: u64, minor: u64, patch: u64) -> (v: Self)
        ensures
            v@ == (VersionView { major, minor, patch, pre: Seq::empty(), build: Seq::empty() }),
    {
        Version { major, minor, patch, pre: String::new(), build: String::new() }
    }

    /// Reads a version from its text.
    pub fn parse(text: &str) -> (r: Option<Version>)
        ensures
            match r {
                Some(v) => semver_parts(text@) == Some(v@),
                None => semver_parts(text@) is None,
            },
    {
        parse_semver(text)
    }

    /// Three-way comparison of two versions.
    pub fn compare(&self, rhs: &Version) -> (o: Order)
        ensures
            o == version_order(self@, rhs@),
    {
        assert(self@ == rhs@ <==> self.major == rhs.major && self.minor == rhs.minor && self.patch
            == rhs.patch && self.pre@ == rhs.pre@ && self.build@ == rhs.build@);
        if self.major != rhs.major {
            compare_numbers(self.major, rhs.major)
        } else if self.minor != rhs.minor {
            compare_numbers(self.minor, rhs.minor)
        } else if self.patch != rhs.patch {
            compare_numbers(self.patch, rhs.patch)
        } else {
            let p = compare_prerelease(self.pre.as_str(), rhs.pre.as_str());
            match p {
                Order::Same => compare_build(self.build.as_str(), rhs.build.as_str()),
                _ => p,
            }
        }
    }

    /// Appends the version's text to `out`.
    pub fn push_to(&self, out: &mut String)
        ensures
            final(out)@ == old(out)@ + version_text(self@),
    {
        push_decimal(out, self.major);
        out.push('.');
        push_decimal(out, self.minor);
        out.push('.');
        push_decimal(out, self.patch);
        if self.pre.as_str().unicode_len() > 0 {
            out.push('-');
            out.append(self.pre.as_str());
        }
        if self.build.as_str().unicode_len() > 0 {
            out.push('+');
            out.append(self.build.as_str());
        }
        assert(out@ =~= old(out)@ + version_text(self@));
    }

    /// The version's text.
    pub fn to_text(&self) -> (s: String)
        ensures
            s@ == version_text(self@),
    {
        let mut s = String::new();
        self.push_to(&mut s);
        s
    }
}

} // verus!
