//! License files: recognising them by name, and naming them in the output folder.
use crate::package_id::{
    id_name, parse_version, semver_parse, valid_identifiers, version_text, PackageId, PackageIdView, Version,
    VersionView,
};
use crate::text::{
    contains, lowercase_of, push_char, seq_contains, split_once, split_once_spec, to_lowercase,
};
use vstd::prelude::*;

verus! {

/// A file's location, held as the folder that holds it and the file's own name.
pub struct LicensePath {
    pub directory: String,
    pub file_name: String,
}

impl View for LicensePath {
    type V = (Seq<char>, Seq<char>);

    open spec fn view(&self) -> (Seq<char>, Seq<char>) {
        (self.directory@, self.file_name@)
    }
}

impl LicensePath {
    /// A copy of this location.
    pub fn duplicate(&self) -> (res: LicensePath)
        ensures
            res@ == self@,
    {
        LicensePath { directory: self.directory.clone(), file_name: self.file_name.clone() }
    }
}

/// Whether a file name counts as a license file for the given keywords: some keyword,
/// lowercased, occurs in the lowercased file name.
pub open spec fn is_license_name(keywords: Seq<Seq<char>>, file_name: Seq<char>) -> bool {
    exists|i: int|
        0 <= i < keywords.len() && seq_contains(
            lowercase_of(file_name),
            lowercase_of(#[trigger] keywords[i]),
        )
}

/// Whether `file_name` holds one of `keywords`, ignoring case.
pub fn is_license(keywords: &[String], file_name: &str) -> (res: bool)
    ensures
        res == is_license_name(keywords@.map_values(|k: String| k@), file_name@),
{
    let ghost ks = keywords@.map_values(|k: String| k@);
    let lower_name = to_lowercase(file_name);
    let mut i: usize = 0;
    while i < keywords.len()
        invariant
            i <= keywords@.len(),
            ks == keywords@.map_values(|k: String| k@),
            lower_name@ == lowercase_of(file_name@),
            forall|j: int| 0 <= j < i ==> !seq_contains(lower_name@, lowercase_of(#[trigger] ks[j])),
        decreases keywords@.len() - i,
    {
        let word = to_lowercase(keywords[i].as_str());
        if contains(lower_name.as_str(), word.as_str()) {
            assert(ks[i as int] == keywords@[i as int]@);
            return true;
        }
        i = i + 1;
    }
    false
}

/// A file name counts as a license file wherever a lowercased keyword stands in the
/// lowercased name, at its start or anywhere after it (`UNLICENSE` and
/// `THIRD-PARTY-LICENSES` hold `license`).
pub proof fn lemma_keyword_anywhere_makes_license_name(
    keywords: Seq<Seq<char>>,
    file_name: Seq<char>,
    i: int,
    before: Seq<char>,
    after: Seq<char>,
)
    requires
        0 <= i < keywords.len(),
        lowercase_of(file_name) == before + lowercase_of(keywords[i]) + after,
    ensures
        is_license_name(keywords, file_name),
{
    let hay = lowercase_of(file_name);
    let needle = lowercase_of(keywords[i]);
    assert(hay.subrange(before.len() as int, (before.len() + needle.len()) as int) =~= needle);
    assert(crate::text::occurs_at(hay, needle, before.len() as int));
}

/// A file name counts as a license file only where some lowercased keyword stands in
/// the lowercased name.
pub proof fn lemma_license_name_holds_a_keyword(keywords: Seq<Seq<char>>, file_name: Seq<char>)
    requires
        is_license_name(keywords, file_name),
    ensures
        exists|i: int, p: int|
            0 <= i < keywords.len() && #[trigger] crate::text::occurs_at(lowercase_of(file_name), lowercase_of(keywords[i]), p),
{
    let i = choose|i: int|
        0 <= i < keywords.len() && seq_contains(lowercase_of(file_name), lowercase_of(#[trigger] keywords[i]));
    let p = choose|p: int| crate::text::occurs_at(lowercase_of(file_name), lowercase_of(keywords[i]), p);
    assert(crate::text::occurs_at(lowercase_of(file_name), lowercase_of(keywords[i]), p));
}

/// A license file of a package, wherever it is kept (`T` is its location).
pub struct License<T> {
    pub package: String,
    pub version: Version,
    pub name: String,
    pub location: T,
}

impl<T> License<T> {
    /// The package part of an output file name: `package_version`.
    pub fn package_id(&self) -> (res: String)
        ensures
            res@ == self.package@ + seq!['_'] + version_text(self.version@),
    {
        let mut out = self.package.clone();
        push_char(&mut out, '_');
        self.version.push_text(&mut out);
        out
    }
}

impl License<LicensePath> {
    /// The name of the file that holds this license.
    pub fn file_name(&self) -> (res: String)
        ensures
            res@ == self.location.file_name@,
    {
        self.location.file_name.clone()
    }
}

/// A license file found in a package's own folder.
pub struct LocalLicense(pub LicensePath);

impl LocalLicense {
    /// Where the file is.
    pub fn path(&self) -> (res: &LicensePath)
        ensures
            res == &self.0,
    {
        &self.0
    }

    /// The file's name.
    pub fn name(&self) -> (res: String)
        ensures
            res@ == self.0.file_name@,
    {
        self.0.file_name.clone()
    }
}

/// A license file in the output folder, named `package_version_name`.
pub struct OutputLicense {
    pub package_id: PackageId,
    pub name: String,
    pub location: LicensePath,
}

/// An output license as plain values.
pub type OutputLicenseView = (PackageIdView, Seq<char>, (Seq<char>, Seq<char>));

impl View for OutputLicense {
    type V = OutputLicenseView;

    open spec fn view(&self) -> OutputLicenseView {
        (self.package_id@, self.name@, self.location@)
    }
}

/// The file name under which a license of a package is stored: `name_version_license`.
pub open spec fn output_file_name(id: PackageIdView, name: Seq<char>) -> Seq<char> {
    id.0 + seq!['_'] + version_text(id.1) + seq!['_'] + name
}

/// What a file in the output folder stands for, read back from its name: the package
/// name (up to the first `_`), the version (up to the next `_`, which must parse), and
/// the license name (the rest).
pub open spec fn output_license_from(location: (Seq<char>, Seq<char>)) -> Option<OutputLicenseView> {
    match split_once_spec(location.1, '_') {
        Some((package, suffix)) => match split_once_spec(suffix, '_') {
            Some((version, name)) => match semver_parse(version) {
                Some(v) => Some(((id_name(package), v), name, location)),
                None => None,
            },
            None => None,
        },
        None => None,
    }
}

impl OutputLicense {
    /// The output license for `name` of the package `package_id`, stored in `output_directory`.
    pub fn new(output_directory: &str, package_id: &PackageId, name: &str) -> (res: OutputLicense)
        ensures
            res@ == (package_id@, name@, (output_directory@, output_file_name(package_id@, name@))),
    {
        let mut file_name = package_id.name.clone();
        push_char(&mut file_name, '_');
        package_id.version.push_text(&mut file_name);
        push_char(&mut file_name, '_');
        file_name.append(name);
        OutputLicense {
            package_id: package_id.duplicate(),
            name: name.to_owned(),
            location: LicensePath { directory: output_directory.to_owned(), file_name },
        }
    }

    /// The name of the file that holds this license.
    pub fn location_file_name(&self) -> (res: String)
        ensures
            res@ == self.location.file_name@,
    {
        self.location.file_name.clone()
    }

    /// A copy of this output license.
    pub fn duplicate(&self) -> (res: OutputLicense)
        ensures
            res@ == self@,
    {
        OutputLicense {
            package_id: self.package_id.duplicate(),
            name: self.name.clone(),
            location: self.location.duplicate(),
        }
    }
}

/// Reads an output license back from the location of its file; `None` where the file
/// name does not have the shape `package_version_name` with a valid version.
pub fn from_output_folder(location: LicensePath) -> (res: Option<OutputLicense>)
    ensures
        match res {
            Some(l) => output_license_from(location@) == Some(l@),
            None => output_license_from(location@) is None,
        },
{
    let (package, suffix) = match split_once(location.file_name.as_str(), '_') {
        Some(parts) => parts,
        None => return None,
    };
    let (version, name) = match split_once(suffix.as_str(), '_') {
        Some(parts) => parts,
        None => return None,
    };
    let version = match parse_version(version.as_str()) {
        Some(v) => v,
        None => return None,
    };
    Some(OutputLicense { package_id: PackageId::new(package.as_str(), version), name, location })
}

/// What the output folder holds, read from its file names (in the order given): the
/// output license of each file whose name has the shape `package_version_name`.
pub open spec fn output_licenses_from(folder: Seq<char>, names: Seq<Seq<char>>) -> Seq<OutputLicenseView>
    decreases names.len(),
{
    if names.len() == 0 {
        Seq::empty()
    } else {
        let rest = output_licenses_from(folder, names.drop_last());
        match output_license_from((folder, names.last())) {
            Some(l) => rest.push(l),
            None => rest,
        }
    }
}

/// The license files of the output folder, given the names of the files in it.
pub fn output_licenses_in(folder: &str, file_names: &Vec<String>) -> (res: Vec<OutputLicense>)
    ensures
        res@.map_values(|l: OutputLicense| l@) == output_licenses_from(folder@, file_names@.map_values(|n: String| n@)),
{
    let ghost names = file_names@.map_values(|n: String| n@);
    let mut found: Vec<OutputLicense> = Vec::new();
    let mut i: usize = 0;
    while i < file_names.len()
        invariant
            i <= file_names@.len(),
            names == file_names@.map_values(|n: String| n@),
            found@.map_values(|l: OutputLicense| l@) == output_licenses_from(folder@, names.subrange(0, i as int)),
        decreases file_names@.len() - i,
    {
        assert(names.subrange(0, i + 1).drop_last() =~= names.subrange(0, i as int));
        assert(names.subrange(0, i + 1).last() == file_names@[i as int]@);
        let location = LicensePath { directory: folder.to_owned(), file_name: file_names[i].clone() };
        if let Some(l) = from_output_folder(location) {
            let ghost before = found@.map_values(|l: OutputLicense| l@);
            found.push(l);
            assert(found@.map_values(|l: OutputLicense| l@) =~= before.push(l@));
        }
        i = i + 1;
    }
    assert(names.subrange(0, i as int) =~= names);
    found
}

/// Reading back the name of an output license file gives the package name, the version
/// text and the license name it was written from, provided the package name holds no
/// `_` (as in every identifier that `PackageId::new` makes) and the version parses to
/// a version with the same text (as every version that `parse_version` returns, whose
/// pre-release and build parts hold only the characters `semver` accepts there).
pub proof fn lemma_output_file_name_round_trip(id: PackageIdView, name: Seq<char>, directory: Seq<char>)
    requires
        !id.0.contains('_'),
        valid_identifiers(id.1.3),
        valid_identifiers(id.1.4),
        semver_parse(version_text(id.1)) == Some(id.1),
    ensures
        output_license_from((directory, output_file_name(id, name))) == Some(
            ((id_name(id.0), id.1), name, (directory, output_file_name(id, name))),
        ),
        id_name(id.0) == id.0,
{
    let f = output_file_name(id, name);
    let vt = version_text(id.1);
    lemma_version_text_has_no_underscore(id.1);
    let n0 = id.0.len() as int;
    assert(f[n0] == '_');
    assert forall|j: int| 0 <= j < n0 implies f[j] != '_' by {
        assert(f[j] == id.0[j]);
    }
    let suffix = f.subrange(n0 + 1, f.len() as int);
    assert(f.subrange(0, n0) =~= id.0);
    assert(suffix =~= vt + seq!['_'] + name);
    let n1 = vt.len() as int;
    assert(suffix[n1] == '_');
    assert forall|j: int| 0 <= j < n1 implies suffix[j] != '_' by {
        assert(suffix[j] == vt[j]);
    }
    assert(suffix.subrange(0, n1) =~= vt);
    assert(suffix.subrange(n1 + 1, suffix.len() as int) =~= name);
    lemma_first_index(f, '_', n0);
    lemma_first_index(suffix, '_', n1);
    assert(id_name(id.0) =~= id.0);
}

/// What `OutputLicense::new` writes, `from_output_folder` reads back unchanged: for the
/// identifier that `PackageId::new` makes of any package name `package` and of a version
/// that `parse_version` returned for some text (which it states parses from that text,
/// displays as it, and holds only the characters semver accepts), the output license of
/// any license name is read back from its location as the same output license.
pub proof fn lemma_output_license_reads_back(
    directory: Seq<char>,
    package: Seq<char>,
    text: Seq<char>,
    version: VersionView,
    name: Seq<char>,
)
    requires
        semver_parse(text) == Some(version),
        version_text(version) == text,
        valid_identifiers(version.3),
        valid_identifiers(version.4),
    ensures
        ({
            let id = (id_name(package), version);
            let written = (id, name, (directory, output_file_name(id, name)));
            output_license_from(written.2) == Some(written)
        }),
{
    let id = (id_name(package), version);
    crate::package_id::lemma_id_name_has_no_underscore(package);
    lemma_output_file_name_round_trip(id, name, directory);
    assert(id_name(id.0) =~= id.0) by {
        assert forall|i: int| 0 <= i < id.0.len() implies id_name(id.0)[i] == id.0[i] by {
            assert(id.0[i] != '_') by {
                if id.0[i] == '_' {
                    assert(id.0.contains('_'));
                }
            }
        }
    }
}

/// The first occurrence of `c` is at `i` when `s[i] == c` and no earlier entry is `c`.
proof fn lemma_first_index(s: Seq<char>, c: char, i: int)
    requires
        0 <= i < s.len(),
        s[i] == c,
        forall|j: int| 0 <= j < i ==> s[j] != c,
    ensures
        crate::text::first_index_of(s, c) == Some(i),
{
    let w = choose|k: int| 0 <= k < s.len() && s[k] == c && forall|j: int| 0 <= j < k ==> s[j] != c;
    assert(0 <= w < s.len() && s[w] == c);
    if w < i {
        assert(s[w] != c);
    } else if w > i {
        assert(s[i] != c);
    }
}

/// The digits of a number hold no `_`.
proof fn lemma_decimal_has_no_underscore(n: nat)
    ensures
        !crate::text::decimal(n).contains('_'),
    decreases n,
{
    if n >= 10 {
        lemma_decimal_has_no_underscore(n / 10);
    }
}

/// The text of a version with valid identifiers holds no `_`.
proof fn lemma_version_text_has_no_underscore(v: VersionView)
    requires
        valid_identifiers(v.3),
        valid_identifiers(v.4),
    ensures
        !version_text(v).contains('_'),
{
    lemma_decimal_has_no_underscore(v.0 as nat);
    lemma_decimal_has_no_underscore(v.1 as nat);
    lemma_decimal_has_no_underscore(v.2 as nat);
    let core = crate::text::decimal(v.0 as nat) + seq!['.'] + crate::text::decimal(v.1 as nat)
        + seq!['.'] + crate::text::decimal(v.2 as nat);
    assert(!core.contains('_')) by {
        assert forall|i: int| 0 <= i < core.len() implies core[i] != '_' by {
            let d0 = crate::text::decimal(v.0 as nat);
            let d1 = crate::text::decimal(v.1 as nat);
            let d2 = crate::text::decimal(v.2 as nat);
            if i < d0.len() {
                assert(core[i] == d0[i]);
            } else if i == d0.len() {
            } else if i < d0.len() + 1 + d1.len() {
                assert(core[i] == d1[i - d0.len() - 1]);
            } else if i == d0.len() + 1 + d1.len() {
            } else {
                assert(core[i] == d2[i - d0.len() - 2 - d1.len()]);
            }
        }
    }
    let with_pre = if v.3.len() > 0 { core + seq!['-'] + v.3 } else { core };
    assert(!with_pre.contains('_')) by {
        assert forall|i: int| 0 <= i < with_pre.len() implies with_pre[i] != '_' by {
            if i >= core.len() + 1 && v.3.len() > 0 {
                assert(with_pre[i] == v.3[i - core.len() - 1]);
            } else if i < core.len() {
                assert(with_pre[i] == core[i]);
            }
        }
    }
    assert forall|i: int| 0 <= i < version_text(v).len() implies version_text(v)[i] != '_' by {
        if i >= with_pre.len() + 1 && v.4.len() > 0 {
            assert(version_text(v)[i] == v.4[i - with_pre.len() - 1]);
        } else if i < with_pre.len() {
            assert(version_text(v)[i] == with_pre[i]);
        }
    }
}

} // verus!
