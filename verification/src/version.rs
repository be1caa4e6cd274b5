//! Semantic versions of UDS releases, parsed and ordered by the `semver` crate.

use vstd::prelude::*;

use crate::text::{decimal, push_decimal};

verus! {

#[verifier::external_type_specification]
#[verifier::external_body]
pub struct ExSemverVersion(semver::Version);

#[verifier::external_type_specification]
#[verifier::external_body]
pub struct ExSemverError(semver::Error);

/// The plain content of a semantic version.
pub struct VersionView {
    pub major: u64,
    pub minor: u64,
    pub patch: u64,
    pub pre: Seq<char>,
    pub build: Seq<char>,
}

/// What `semver::Version::parse` gives for a text: `None` where it reports an error.
pub uninterp spec fn spec_semver_parse(text: Seq<char>) -> Option<VersionView>;

/// Whether `semver` orders version `a` at or before version `b` (`a <= b`).
pub uninterp spec fn semver_le(a: VersionView, b: VersionView) -> bool;

/// A release version as `semver` parsed it.
///
/// Values come only from `parse_version`, so the plain fields always describe
/// the parsed version held beside them.
pub struct ReleaseVersion {
    parsed: semver::Version,
    major: u64,
    minor: u64,
    patch: u64,
    pre: String,
    build: String,
}

impl View for ReleaseVersion {
    type V = VersionView;

    closed spec fn view(&self) -> VersionView {
        VersionView {
            major: self.major,
            minor: self.minor,
            patch: self.patch,
            pre: self.pre@,
            build: self.build@,
        }
    }
}

/// Parses a semantic version.
///
/// Trusted: `semver::Version::parse`; the result is named by
/// `spec_semver_parse`, and the plain fields are copied from the parsed version.
#[verifier::external_body]
pub fn parse_version(text: &str) -> (r: Result<ReleaseVersion, semver::Error>)
    ensures
        match r {
            Ok(v) => spec_semver_parse(text@) == Some(v@),
            Err(_) => spec_semver_parse(text@) is None,
        },
{
    match semver::Version::parse(text) {
        Ok(parsed) => Ok(ReleaseVersion {
            major: parsed.major,
            minor: parsed.minor,
            patch: parsed.patch,
            pre: parsed.pre.as_str().to_string(),
            build: parsed.build.as_str().to_string(),
            parsed,
        }),
        Err(error) => Err(error),
    }
}

/// Whether `a <= b` in `semver`'s order of versions.
///
/// Trusted: `<Version as PartialOrd>::le`, named by `semver_le`. The order is
/// derived from `Ord` over the fields, so a version is at or before itself.
#[verifier::external_body]
pub fn version_le(a: &ReleaseVersion, b: &ReleaseVersion) -> (r: bool)
    ensures
        r == semver_le(a@, b@),
        a@ == b@ ==> r,
{
    a.parsed <= b.parsed
}

/// Whether two versions are equal: `semver::Version` derives equality over
/// its five fields, and pre-release and build identifiers are equal when
/// their texts are.
pub fn versions_equal(a: &ReleaseVersion, b: &ReleaseVersion) -> (r: bool)
    ensures
        r == (a@ == b@),
{
    let r = a.major == b.major && a.minor == b.minor && a.patch == b.patch && a.pre == b.pre
        && a.build == b.build;
    proof {
        if a.pre@ == b.pre@ && a.build@ == b.build@ && a.major == b.major && a.minor == b.minor
            && a.patch == b.patch {
            assert(a@ == b@);
        }
    }
    r
}

impl ReleaseVersion {
    /// The major version number.
    pub fn major(&self) -> (r: u64)
        ensures
            r == self@.major,
    {
        self.major
    }

    /// The minor version number.
    pub fn minor(&self) -> (r: u64)
        ensures
            r == self@.minor,
    {
        self.minor
    }

    /// The patch version number.
    pub fn patch(&self) -> (r: u64)
        ensures
            r == self@.patch,
    {
        self.patch
    }

    /// The pre-release identifiers, empty for a release.
    pub fn pre(&self) -> (r: &str)
        ensures
            r@ == self@.pre,
    {
        self.pre.as_str()
    }

    /// The build metadata, empty where there is none.
    pub fn build(&self) -> (r: &str)
        ensures
            r@ == self@.build,
    {
        self.build.as_str()
    }

    /// The version as `semver` displays it: `major.minor.patch[-pre][+build]`.
    pub fn to_text(&self) -> (r: String)
        ensures
            r@ == version_text(self@),
    {
        let mut r = String::new();
        push_decimal(&mut r, self.major);
        r.append(".");
        push_decimal(&mut r, self.minor);
        r.append(".");
        push_decimal(&mut r, self.patch);
        proof {
            reveal_strlit(".");
        }
        if !self.pre.as_str().is_empty() {
            r.append("-");
            r.append(self.pre.as_str());
        }
        if !self.build.as_str().is_empty() {
            r.append("+");
            r.append(self.build.as_str());
        }
        proof {
            reveal_strlit("-");
            reveal_strlit("+");
        }
        r
    }
}

/// The display text of a version: `major.minor.patch`, then `-pre` and
/// `+build` where those are not empty.
pub open spec fn version_text(v: VersionView) -> Seq<char> {
    let core = decimal(v.major as nat) + seq!['.'] + decimal(v.minor as nat) + seq!['.']
        + decimal(v.patch as nat);
    let with_pre = if v.pre.len() == 0 {
        core
    } else {
        core + seq!['-'] + v.pre
    };
    if v.build.len() == 0 {
        with_pre
    } else {
        with_pre + seq!['+'] + v.build
    }
}

/// Whether `c` is a decimal digit.
pub open spec fn is_digit(c: char) -> bool {
    '0' <= c && c <= '9'
}

/// The number a string of decimal digits reads as.
pub open spec fn read_decimal(s: Seq<char>) -> nat
    decreases s.len(),
{
    if s.len() == 0 {
        0
    } else {
        read_decimal(s.drop_last()) * 10 + ((s.last() as u32) - 48) as nat
    }
}

/// A non-empty run of decimal digits.
pub open spec fn is_number(s: Seq<char>) -> bool {
    s.len() > 0 && forall|i: int| 0 <= i < s.len() ==> is_digit(#[trigger] s[i])
}

/// The decimal text of `n` is a run of digits that reads back as `n`.
pub proof fn lemma_decimal_reads_back(n: nat)
    ensures
        is_number(decimal(n)),
        read_decimal(decimal(n)) == n,
    decreases n,
{
    let c = crate::text::digit_char(n % 10);
    assert((c as u32) - 48 == n % 10);
    if n < 10 {
        assert(decimal(n) == seq![c]);
        assert(decimal(n).drop_last() =~= Seq::<char>::empty());
        assert(read_decimal(Seq::<char>::empty()) == 0);
        assert(decimal(n).last() == c);
        assert(read_decimal(decimal(n)) == read_decimal(decimal(n).drop_last()) * 10 + ((c as u32) - 48) as nat);
    } else {
        lemma_decimal_reads_back(n / 10);
        let d = decimal(n / 10);
        assert(decimal(n) == d.push(crate::text::digit_char(n % 10)));
        assert(decimal(n).drop_last() =~= d);
        assert(n == (n / 10) * 10 + n % 10) by (nonlinear_arith);
        assert(decimal(n).last() == c);
        assert(read_decimal(decimal(n)) == read_decimal(d) * 10 + ((c as u32) - 48) as nat);
        assert forall|i: int| 0 <= i < decimal(n).len() implies is_digit(#[trigger] decimal(n)[i]) by {
            if i < d.len() {
                assert(decimal(n)[i] == d[i]);
            }
        }
    }
}

/// The displayed text of a version reads back as that version: it is the
/// major, minor and patch numbers in that order, in decimal and separated
/// by dots, followed by nothing, or by `-` and the pre-release, or by `+`
/// and the build metadata.
pub proof fn lemma_version_text_reads_back(v: VersionView)
    ensures
        exists|major: Seq<char>, minor: Seq<char>, patch: Seq<char>, rest: Seq<char>|
            {
                &&& version_text(v) == major + seq!['.'] + minor + seq!['.'] + patch + rest
                &&& is_number(major) && read_decimal(major) == v.major
                &&& is_number(minor) && read_decimal(minor) == v.minor
                &&& is_number(patch) && read_decimal(patch) == v.patch
                &&& rest.len() == 0 || rest[0] == '-' || rest[0] == '+'
                &&& (v.pre.len() == 0 && v.build.len() == 0) ==> rest.len() == 0
                &&& v.pre.len() > 0 ==> rest.subrange(0, (v.pre.len() + 1) as int) == seq!['-'] + v.pre
            },
{
    lemma_decimal_reads_back(v.major as nat);
    lemma_decimal_reads_back(v.minor as nat);
    lemma_decimal_reads_back(v.patch as nat);
    let major = decimal(v.major as nat);
    let minor = decimal(v.minor as nat);
    let patch = decimal(v.patch as nat);
    let with_pre = if v.pre.len() == 0 {
        Seq::<char>::empty()
    } else {
        seq!['-'] + v.pre
    };
    let rest = if v.build.len() == 0 {
        with_pre
    } else {
        with_pre + seq!['+'] + v.build
    };
    assert(version_text(v) =~= major + seq!['.'] + minor + seq!['.'] + patch + rest);
    if v.pre.len() > 0 {
        assert(rest.subrange(0, (v.pre.len() + 1) as int) =~= seq!['-'] + v.pre);
    }
    if rest.len() > 0 {
        assert(rest[0] == '-' || rest[0] == '+');
    }
}

} // verus!
