//! Recognising license files by a fixed list of names and extensions.
use crate::license::LicensePath;
use crate::text::{lowercase_of, split_once, split_once_spec, str_eq, to_lowercase};
use vstd::prelude::*;

verus! {

/// The names (lowercased, without extension) of license files.
pub open spec fn is_license_base_name(name: Seq<char>) -> bool {
    ||| name == "license"@
    ||| name == "license-apache"@
    ||| name == "license-mit"@
    ||| name == "license-zlib"@
    ||| name == "license-cc0"@
    ||| name == "copying"@
    ||| name == "authors"@
}

/// The extensions (lowercased) that license files may have.
pub open spec fn is_license_extension(ext: Seq<char>) -> bool {
    ||| ext == "md"@
    ||| ext == "txt"@
    ||| ext == "apache2"@
    ||| ext == "mit"@
}

/// Whether a file name is that of a license file: up to the first `.` a known name,
/// after it a known extension, both ignoring case; or, without a `.`, a known name.
pub open spec fn is_license_file_name(file_name: Seq<char>) -> bool {
    match split_once_spec(file_name, '.') {
        Some((prefix, suffix)) => is_license_base_name(lowercase_of(prefix))
            && is_license_extension(lowercase_of(suffix)),
        None => is_license_base_name(lowercase_of(file_name)),
    }
}

fn base_name_matches(name: &str) -> (res: bool)
    ensures
        res == is_license_base_name(name@),
{
    str_eq(name, "license") || str_eq(name, "license-apache") || str_eq(name, "license-mit")
        || str_eq(name, "license-zlib") || str_eq(name, "license-cc0") || str_eq(name, "copying")
        || str_eq(name, "authors")
}

fn extension_matches(ext: &str) -> (res: bool)
    ensures
        res == is_license_extension(ext@),
{
    str_eq(ext, "md") || str_eq(ext, "txt") || str_eq(ext, "apache2") || str_eq(ext, "mit")
}

/// Whether the file at `path` is a license file by its name.
pub fn is_license(path: &LicensePath) -> (res: bool)
    ensures
        res == is_license_file_name(path.file_name@),
{
    let file_name = path.file_name.as_str();
    match split_once(file_name, '.') {
        Some((prefix, suffix)) => {
            let prefix = to_lowercase(prefix.as_str());
            let suffix = to_lowercase(suffix.as_str());
            base_name_matches(prefix.as_str()) && extension_matches(suffix.as_str())
        },
        None => {
            let name = to_lowercase(file_name);
            base_name_matches(name.as_str())
        },
    }
}

/// Whether `found` are the files among `names` (in order) that are license files by
/// name, each located in `folder`.
pub open spec fn license_files_found(folder: Seq<char>, names: Seq<Seq<char>>, found: Seq<(Seq<char>, Seq<char>)>) -> bool
    decreases names.len(),
{
    if names.len() == 0 {
        found.len() == 0
    } else if is_license_file_name(names.last()) {
        &&& found.len() > 0
        &&& found.last() == (folder, names.last())
        &&& license_files_found(folder, names.drop_last(), found.drop_last())
    } else {
        license_files_found(folder, names.drop_last(), found)
    }
}

/// The license files of a folder, given the names of the files in it, in that order.
pub fn license_files_in(folder: &str, file_names: &Vec<String>) -> (res: Vec<LicensePath>)
    ensures
        license_files_found(folder@, file_names@.map_values(|n: String| n@), res@.map_values(|p: LicensePath| p@)),
{
    let ghost names = file_names@.map_values(|n: String| n@);
    let mut found: Vec<LicensePath> = Vec::new();
    let mut i: usize = 0;
    while i < file_names.len()
        invariant
            i <= file_names@.len(),
            names == file_names@.map_values(|n: String| n@),
            license_files_found(folder@, names.subrange(0, i as int), found@.map_values(|p: LicensePath| p@)),
        decreases file_names@.len() - i,
    {
        assert(names.subrange(0, i + 1).drop_last() =~= names.subrange(0, i as int));
        assert(names.subrange(0, i + 1).last() == file_names@[i as int]@);
        let path = LicensePath { directory: folder.to_owned(), file_name: file_names[i].clone() };
        if is_license(&path) {
            let ghost before = found@.map_values(|p: LicensePath| p@);
            found.push(path);
            assert(found@.map_values(|p: LicensePath| p@).drop_last() =~= before);
        }
        i = i + 1;
    }
    assert(names.subrange(0, i as int) =~= names);
    found
}

} // verus!
