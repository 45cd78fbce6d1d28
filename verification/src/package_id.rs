//! Package identifiers: a package name and a semantic version.
use crate::text::{decimal, push_char, push_decimal, replace_char, replace_char_spec, str_eq};
use vstd::prelude::*;

verus! {

/// A semantic version, held as its plain parts.
pub struct Version {
    pub major: u64,
    pub minor: u64,
    pub patch: u64,
    /// Pre-release identifiers (empty when there are none).
    pub pre: String,
    /// Build metadata (empty when there is none).
    pub build: String,
}

/// The parts of a version as plain values.
pub type VersionView = (u64, u64, u64, Seq<char>, Seq<char>);

impl View for Version {
    type V = VersionView;

    open spec fn view(&self) -> VersionView {
        (self.major, self.minor, self.patch, self.pre@, self.build@)
    }
}

/// The text of a version as `semver` displays it: `major.minor.patch`, then `-pre` and
/// `+build` where those are not empty.
pub open spec fn version_text(v: VersionView) -> Seq<char> {
    let core = decimal(v.0 as nat) + seq!['.'] + decimal(v.1 as nat) + seq!['.'] + decimal(v.2 as nat);
    let with_pre = if v.3.len() > 0 { core + seq!['-'] + v.3 } else { core };
    if v.4.len() > 0 { with_pre + seq!['+'] + v.4 } else { with_pre }
}

/// Whether a pre-release or build part holds only ASCII letters, digits, `-` and `.`,
/// the characters that `semver` accepts there.
pub open spec fn valid_identifiers(s: Seq<char>) -> bool {
    forall|i: int|
        0 <= i < s.len() ==> {
            let c = #[trigger] s[i];
            ('a' <= c && c <= 'z') || ('A' <= c && c <= 'Z') || ('0' <= c && c <= '9') || c == '-'
                || c == '.'
        }
}

/// What `semver::Version::parse` gives for a text: the parts of the version, or `None`
/// where the text is not a valid version.
pub uninterp spec fn semver_parse(s: Seq<char>) -> Option<VersionView>;

/// `semver::Version::parse`, converted to the library's `Version`. The parser takes a
/// number without leading zeros for each of the three parts, then optional `-pre` and
/// `+build` identifiers made of ASCII letters, digits, `-` and `.`, which it keeps
/// verbatim, and rejects anything else; so a
/// version it returns displays as exactly the text it was parsed from.
#[verifier::external_body]
pub(crate) fn parse_version(s: &str) -> (res: Option<Version>)
    ensures
        match res {
            Some(v) => semver_parse(s@) == Some(v@),
            None => semver_parse(s@) is None,
        },
        res matches Some(v) ==> version_text(v@) == s@,
        res matches Some(v) ==> semver_parse(version_text(v@)) == Some(v@),
        res matches Some(v) ==> valid_identifiers(v.pre@) && valid_identifiers(v.build@),
{
    cargo_metadata::semver::Version::parse(s).ok().map(|v| Version {
        major: v.major,
        minor: v.minor,
        patch: v.patch,
        pre: v.pre.as_str().to_string(),
        build: v.build.as_str().to_string(),
    })
}

impl Version {
    /// A copy of this version.
    pub fn duplicate(&self) -> (res: Version)
        ensures
            res@ == self@,
    {
        Version {
            major: self.major,
            minor: self.minor,
            patch: self.patch,
            pre: self.pre.clone(),
            build: self.build.clone(),
        }
    }

    /// Appends the text of this version to `out`.
    pub fn push_text(&self, out: &mut String)
        ensures
            final(out)@ == old(out)@ + version_text(self@),
    {
        let ghost start = out@;
        push_decimal(out, self.major);
        push_char(out, '.');
        push_decimal(out, self.minor);
        push_char(out, '.');
        push_decimal(out, self.patch);
        let ghost core = decimal(self.major as nat) + seq!['.'] + decimal(self.minor as nat)
            + seq!['.'] + decimal(self.patch as nat);
        assert(out@ =~= start + core);
        if !self.pre.as_str().is_empty() {
            push_char(out, '-');
            out.append(self.pre.as_str());
            assert(out@ =~= start + (core + seq!['-'] + self.pre@));
        }
        let ghost with_pre = if self.pre@.len() > 0 { core + seq!['-'] + self.pre@ } else { core };
        assert(out@ =~= start + with_pre);
        if !self.build.as_str().is_empty() {
            push_char(out, '+');
            out.append(self.build.as_str());
            assert(out@ =~= start + (with_pre + seq!['+'] + self.build@));
        }
    }

    /// The text of this version (its `Display` form).
    pub fn to_text(&self) -> (res: String)
        ensures
            res@ == version_text(self@),
    {
        let mut out = String::new();
        self.push_text(&mut out);
        assert(Seq::<char>::empty() + version_text(self@) =~= version_text(self@));
        out
    }

    /// Whether two versions are equal (all parts equal, as `semver` compares them).
    pub fn same_as(&self, other: &Version) -> (res: bool)
        ensures
            res == (self@ == other@),
    {
        self.major == other.major && self.minor == other.minor && self.patch == other.patch
            && str_eq(self.pre.as_str(), other.pre.as_str()) && str_eq(
            self.build.as_str(),
            other.build.as_str(),
        )
    }
}

/// A package's identity: its name (with `_` written as `-`) and its version.
pub struct PackageId {
    pub name: String,
    pub version: Version,
}

/// A package identifier as plain values.
pub type PackageIdView = (Seq<char>, VersionView);

impl View for PackageId {
    type V = PackageIdView;

    open spec fn view(&self) -> PackageIdView {
        (self.name@, self.version@)
    }
}

/// The name a package identifier keeps: underscores become hyphens, since underscores
/// separate the parts of an output license file name.
pub open spec fn id_name(name: Seq<char>) -> Seq<char> {
    replace_char_spec(name, '_', '-')
}

/// The text of a package identifier (its `Display` form): `name version`.
pub open spec fn package_id_text(id: PackageIdView) -> Seq<char> {
    id.0 + seq![' '] + version_text(id.1)
}

/// The key of a package identifier, as output license file names begin with it and the
/// lints name packages by it: `name_version`.
pub open spec fn package_key(id: PackageIdView) -> Seq<char> {
    id.0 + seq!['_'] + version_text(id.1)
}

impl PackageId {
    /// A package identifier for `name` and `version`.
    pub fn new(name: &str, version: Version) -> (res: PackageId)
        ensures
            res@ == (id_name(name@), version@),
    {
        PackageId { name: replace_char(name, '_', '-'), version }
    }

    /// A copy of this identifier.
    pub fn duplicate(&self) -> (res: PackageId)
        ensures
            res@ == self@,
    {
        PackageId { name: self.name.clone(), version: self.version.duplicate() }
    }

    /// Whether two identifiers are equal.
    pub fn same_as(&self, other: &PackageId) -> (res: bool)
        ensures
            res == (self@ == other@),
    {
        str_eq(self.name.as_str(), other.name.as_str()) && self.version.same_as(&other.version)
    }

    /// The text of this identifier: `name version`.
    pub fn to_text(&self) -> (res: String)
        ensures
            res@ == package_id_text(self@),
    {
        let mut out = self.name.clone();
        push_char(&mut out, ' ');
        self.version.push_text(&mut out);
        assert(out@ =~= package_id_text(self@));
        out
    }
}

impl PackageId {
    /// The key of this identifier: `name_version`.
    pub fn key(&self) -> (res: String)
        ensures
            res@ == package_key(self@),
    {
        let mut out = self.name.clone();
        push_char(&mut out, '_');
        self.version.push_text(&mut out);
        assert(out@ =~= package_key(self@));
        out
    }
}

/// No identifier that `PackageId::new` makes holds an underscore in its name.
pub proof fn lemma_id_name_has_no_underscore(name: Seq<char>)
    ensures
        !id_name(name).contains('_'),
{
    assert forall|i: int| 0 <= i < id_name(name).len() implies id_name(name)[i] != '_' by {}
}

} // verus!
