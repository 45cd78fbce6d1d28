//! The license files of each dependency: those in its own folder, and those found in
//! its GitHub repository when the settings ask for a remote search.
use crate::config::SearchRemote;
use crate::license::{is_license, is_license_name, LicensePath, LocalLicense};
use crate::package::{opt_view, Package};
use crate::package_id::PackageId;
use crate::remote::RemoteLicense;
use vstd::prelude::*;

verus! {

broadcast use vstd::seq_lib::group_seq_properties;

/// The license files found for one dependency.
pub struct PackageLicenses {
    pub id: PackageId,
    pub local_licenses: Vec<LocalLicense>,
    pub remote_licenses: Vec<RemoteLicense>,
}

/// Whether the repository is searched: always with `Always`, and with `IfNotLocal` only
/// when no license file was found locally.
pub open spec fn searches_remote(local_count: nat, search_remote: SearchRemote) -> bool {
    ||| search_remote == SearchRemote::Always
    ||| (search_remote == SearchRemote::IfNotLocal && local_count == 0)
}

/// Whether to look for license files in the package's repository.
pub fn should_search_remote(local: &[LocalLicense], search_remote: SearchRemote) -> (res: bool)
    ensures
        res == searches_remote(local@.len(), search_remote),
{
    match search_remote {
        SearchRemote::Always => true,
        SearchRemote::IfNotLocal => local.len() == 0,
        SearchRemote::Never => false,
    }
}

/// The repository to search for license files of `package`, if any: its repository URL,
/// where it has one and the settings ask for a search.
pub fn remote_repository(package: &Package, local: &[LocalLicense], search_remote: SearchRemote) -> (res: Option<String>)
    ensures
        opt_view(res) == (if searches_remote(local@.len(), search_remote) { opt_view(package.repository) } else { None }),
{
    match &package.repository {
        Some(url) => if should_search_remote(local, search_remote) { Some(url.clone()) } else { None },
        None => None,
    }
}

/// Whether `found` holds the license files among `names` (in order), each located in
/// `folder`.
pub open spec fn local_found(keywords: Seq<Seq<char>>, folder: Seq<char>, names: Seq<String>, found: Seq<LocalLicense>) -> bool
    decreases names.len(),
{
    if names.len() == 0 {
        found.len() == 0
    } else if is_license_name(keywords, names.last()@) {
        &&& found.len() > 0
        &&& found.last().0@ == (folder, names.last()@)
        &&& local_found(keywords, folder, names.drop_last(), found.drop_last())
    } else {
        local_found(keywords, folder, names.drop_last(), found)
    }
}

/// The license files of a package folder, given the names of the files in it: those whose
/// names hold a keyword (ignoring case), in the order given.
pub fn local_licenses_in(keywords: &[String], folder: &str, file_names: &Vec<String>) -> (res: Vec<LocalLicense>)
    ensures
        local_found(keywords@.map_values(|k: String| k@), folder@, file_names@, res@),
{
    let ghost ks = keywords@.map_values(|k: String| k@);
    let mut found: Vec<LocalLicense> = Vec::new();
    let mut i: usize = 0;
    while i < file_names.len()
        invariant
            i <= file_names@.len(),
            ks == keywords@.map_values(|k: String| k@),
            local_found(ks, folder@, file_names@.subrange(0, i as int), found@),
        decreases file_names@.len() - i,
    {
        assert(file_names@.subrange(0, i + 1).drop_last() =~= file_names@.subrange(0, i as int));
        if is_license(keywords, file_names[i].as_str()) {
            let ghost before = found@;
            found.push(LocalLicense(LicensePath { directory: folder.to_owned(), file_name: file_names[i].clone() }));
            assert(found@.drop_last() =~= before);
        }
        i = i + 1;
    }
    assert(file_names@.subrange(0, i as int) =~= file_names@);
    found
}

} // verus!
