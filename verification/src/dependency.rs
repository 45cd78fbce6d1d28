//! A dependency with the license files found for it by name, and the lines that sum up a
//! search for license files.
use crate::config::SearchRemote;
use crate::get::{found_message, unlicensed_message};
use crate::license::{License, LicensePath};
use crate::text::views;
use vstd::prelude::*;

verus! {

broadcast use vstd::seq_lib::group_seq_properties;

/// A dependency, by name, with its license files on disk and in its repository (by
/// download address).
pub struct Dependency {
    pub name: String,
    pub local_licenses: Vec<License<LicensePath>>,
    pub remote_licenses: Vec<License<String>>,
}

/// Whether to look for license files in the dependency's repository: always with
/// `Always`, with `IfNotLocal` only when none were found on disk.
pub fn should_search_remote(local: &[License<LicensePath>], search_remote: SearchRemote) -> (res: bool)
    ensures
        res == crate::package::package_licenses::searches_remote(local@.len(), search_remote),
{
    match search_remote {
        SearchRemote::Always => true,
        SearchRemote::IfNotLocal => local.len() == 0,
        SearchRemote::Never => false,
    }
}

/// The number of license files found over the dependencies.
pub open spec fn files_found(deps: Seq<Dependency>) -> nat
    decreases deps.len(),
{
    if deps.len() == 0 {
        0
    } else {
        files_found(deps.drop_last()) + deps.last().local_licenses@.len() + deps.last().remote_licenses@.len()
    }
}

/// The names of the dependencies without license files, in order.
pub open spec fn unlicensed_names(deps: Seq<Dependency>) -> Seq<Seq<char>>
    decreases deps.len(),
{
    if deps.len() == 0 {
        Seq::empty()
    } else if deps.last().local_licenses@.len() == 0 && deps.last().remote_licenses@.len() == 0 {
        unlicensed_names(deps.drop_last()).push(deps.last().name@)
    } else {
        unlicensed_names(deps.drop_last())
    }
}

proof fn lemma_files_found_prefix(deps: Seq<Dependency>, i: int)
    requires
        0 <= i <= deps.len(),
    ensures
        files_found(deps.subrange(0, i)) <= files_found(deps),
    decreases deps.len() - i,
{
    if i < deps.len() {
        lemma_files_found_prefix(deps, i + 1);
        assert(deps.subrange(0, i + 1).drop_last() =~= deps.subrange(0, i));
    } else {
        assert(deps.subrange(0, i) =~= deps);
    }
}

/// The lines that sum up a search: how many license files were found for how many
/// dependencies, then, where some dependency has none, which ones.
pub fn warning_lines(deps: &[Dependency]) -> (res: Vec<String>)
    requires
        files_found(deps@) <= usize::MAX,
    ensures
        views(res@) == seq![found_message(files_found(deps@), deps@.len())] + (if unlicensed_names(deps@).len() > 0 {
            seq![unlicensed_message(unlicensed_names(deps@))]
        } else {
            Seq::empty()
        }),
{
    let mut total: usize = 0;
    let mut names: Vec<String> = Vec::new();
    let mut i: usize = 0;
    while i < deps.len()
        invariant
            i <= deps@.len(),
            files_found(deps@) <= usize::MAX,
            total == files_found(deps@.subrange(0, i as int)),
            views(names@) == unlicensed_names(deps@.subrange(0, i as int)),
        decreases deps@.len() - i,
    {
        let d = &deps[i];
        assert(deps@.subrange(0, i + 1).drop_last() =~= deps@.subrange(0, i as int));
        proof { lemma_files_found_prefix(deps@, i + 1); }
        total = total + d.local_licenses.len() + d.remote_licenses.len();
        if d.local_licenses.len() == 0 && d.remote_licenses.len() == 0 {
            let ghost before = views(names@);
            names.push(d.name.clone());
            assert(views(names@) =~= before.push(d.name@));
        }
        i = i + 1;
    }
    assert(deps@.subrange(0, i as int) =~= deps@);
    let mut lines: Vec<String> = Vec::new();
    lines.push(crate::get::found_licenses_message(total, deps.len()));
    if let Some(m) = crate::get::no_licenses_message(&names) {
        lines.push(m);
    }
    assert(views(lines@) =~= seq![found_message(files_found(deps@), deps@.len())] + (if unlicensed_names(deps@).len() > 0 {
        seq![unlicensed_message(unlicensed_names(deps@))]
    } else {
        Seq::empty()
    }));
    lines
}

} // verus!
