//! Collecting the license files of the dependencies into the output folder: what to tell
//! the user about what was found, and which file goes where.
use crate::license::{output_file_name, LicensePath, OutputLicense};
use crate::package::package_licenses::PackageLicenses;
use crate::package_id::package_id_text;
use crate::remote::RemoteLicense;
use crate::text::{decimal, decimal_string, join, joined, views};
use vstd::prelude::*;
use vstd::string::StringExecFns;

verus! {

broadcast use vstd::seq_lib::group_seq_properties;

/// The number of license files, local and remote, found for the dependencies.
pub open spec fn licenses_found(deps: Seq<PackageLicenses>) -> nat
    decreases deps.len(),
{
    if deps.len() == 0 {
        0
    } else {
        licenses_found(deps.drop_last()) + deps.last().local_licenses@.len() + deps.last().remote_licenses@.len()
    }
}

proof fn lemma_licenses_found_monotonic(deps: Seq<PackageLicenses>, i: int)
    requires
        0 <= i <= deps.len(),
    ensures
        licenses_found(deps.subrange(0, i)) <= licenses_found(deps),
    decreases deps.len() - i,
{
    if i < deps.len() {
        lemma_licenses_found_monotonic(deps, i + 1);
        assert(deps.subrange(0, i + 1).drop_last() =~= deps.subrange(0, i));
    } else {
        assert(deps.subrange(0, i) =~= deps);
    }
}

/// How many license files were found, local and remote, over all dependencies.
pub fn total_licenses(dependencies: &[PackageLicenses]) -> (res: usize)
    requires
        licenses_found(dependencies@) <= usize::MAX,
    ensures
        res == licenses_found(dependencies@),
{
    let mut total: usize = 0;
    let mut i: usize = 0;
    while i < dependencies.len()
        invariant
            i <= dependencies@.len(),
            licenses_found(dependencies@) <= usize::MAX,
            total == licenses_found(dependencies@.subrange(0, i as int)),
        decreases dependencies@.len() - i,
    {
        let d = &dependencies[i];
        assert(dependencies@.subrange(0, i + 1).drop_last() =~= dependencies@.subrange(0, i as int));
        proof { lemma_licenses_found_monotonic(dependencies@, i + 1); }
        total = total + d.local_licenses.len() + d.remote_licenses.len();
        i = i + 1;
    }
    assert(dependencies@.subrange(0, i as int) =~= dependencies@);
    total
}

/// Whether a dependency has no license file at all.
pub open spec fn has_no_license(d: PackageLicenses) -> bool {
    d.local_licenses@.len() == 0 && d.remote_licenses@.len() == 0
}

/// The texts (`name version`) of the dependencies without license files, in order.
pub open spec fn unlicensed_texts(deps: Seq<PackageLicenses>) -> Seq<Seq<char>>
    decreases deps.len(),
{
    if deps.len() == 0 {
        Seq::empty()
    } else if has_no_license(deps.last()) {
        unlicensed_texts(deps.drop_last()).push(package_id_text(deps.last().id@))
    } else {
        unlicensed_texts(deps.drop_last())
    }
}

/// The dependencies for which no license file was found, as `name version`, in order.
pub fn dependencies_with_no_licenses(dependencies: &[PackageLicenses]) -> (res: Vec<String>)
    ensures
        views(res@) == unlicensed_texts(dependencies@),
{
    let mut out: Vec<String> = Vec::new();
    let mut i: usize = 0;
    while i < dependencies.len()
        invariant
            i <= dependencies@.len(),
            views(out@) == unlicensed_texts(dependencies@.subrange(0, i as int)),
        decreases dependencies@.len() - i,
    {
        let d = &dependencies[i];
        assert(dependencies@.subrange(0, i + 1).drop_last() =~= dependencies@.subrange(0, i as int));
        if d.local_licenses.len() == 0 && d.remote_licenses.len() == 0 {
            let ghost before = views(out@);
            out.push(d.id.to_text());
            assert(views(out@) =~= before.push(package_id_text(d.id@)));
        }
        i = i + 1;
    }
    assert(dependencies@.subrange(0, i as int) =~= dependencies@);
    out
}

/// `{total} licenses found for {count} dependencies`.
pub open spec fn found_message(total: nat, count: nat) -> Seq<char> {
    decimal(total) + " licenses found for "@ + decimal(count) + " dependencies"@
}

/// `{count} dependencies with no licenses: {names}`, the names joined by `, `.
pub open spec fn unlicensed_message(names: Seq<Seq<char>>) -> Seq<char> {
    decimal(names.len()) + " dependencies with no licenses: "@ + joined(names, ", "@)
}

/// The information line on how many license files were found for how many dependencies.
pub fn found_licenses_message(total: usize, count: usize) -> (res: String)
    ensures
        res@ == found_message(total as nat, count as nat),
{
    let mut m = decimal_string(total as u64);
    m.append(" licenses found for ");
    let c = decimal_string(count as u64);
    m.append(c.as_str());
    m.append(" dependencies");
    m
}

/// The warning line naming the dependencies without license files, where there are any.
pub fn no_licenses_message(names: &Vec<String>) -> (res: Option<String>)
    ensures
        match res {
            Some(m) => names@.len() > 0 && m@ == unlicensed_message(views(names@)),
            None => names@.len() == 0,
        },
{
    if names.len() == 0 {
        return None;
    }
    let mut m = decimal_string(names.len() as u64);
    m.append(" dependencies with no licenses: ");
    let list = join(names, ", ");
    m.append(list.as_str());
    Some(m)
}

/// Where each license file of a dependency is copied (or downloaded) to: for each local
/// file its path and its output path, for each remote file its address and its output
/// path; output files are named after the dependency and the file's name.
pub fn copy_plan(dependency: &PackageLicenses, output_directory: &str) -> (res: (Vec<(LicensePath, LicensePath)>, Vec<(String, LicensePath)>))
    ensures
        res.0@.len() == dependency.local_licenses@.len(),
        forall|i: int| 0 <= i < res.0@.len() ==> {
            &&& (#[trigger] res.0@[i]).0@ == dependency.local_licenses@[i].0@
            &&& res.0@[i].1@ == (output_directory@, output_file_name(dependency.id@, dependency.local_licenses@[i].0.file_name@))
        },
        res.1@.len() == dependency.remote_licenses@.len(),
        forall|i: int| 0 <= i < res.1@.len() ==> {
            &&& (#[trigger] res.1@[i]).0@ == dependency.remote_licenses@[i].location@
            &&& res.1@[i].1@ == (output_directory@, output_file_name(dependency.id@, dependency.remote_licenses@[i].name@))
        },
{
    let mut local: Vec<(LicensePath, LicensePath)> = Vec::new();
    let mut i: usize = 0;
    while i < dependency.local_licenses.len()
        invariant
            i <= dependency.local_licenses@.len(),
            local@.len() == i,
            forall|k: int| 0 <= k < i ==> {
                &&& (#[trigger] local@[k]).0@ == dependency.local_licenses@[k].0@
                &&& local@[k].1@ == (output_directory@, output_file_name(dependency.id@, dependency.local_licenses@[k].0.file_name@))
            },
        decreases dependency.local_licenses@.len() - i,
    {
        let license = &dependency.local_licenses[i];
        let output = OutputLicense::new(output_directory, &dependency.id, license.name().as_str());
        local.push((license.path().duplicate(), output.location));
        i = i + 1;
    }
    let mut remote: Vec<(String, LicensePath)> = Vec::new();
    let mut j: usize = 0;
    while j < dependency.remote_licenses.len()
        invariant
            j <= dependency.remote_licenses@.len(),
            remote@.len() == j,
            forall|k: int| 0 <= k < j ==> {
                &&& (#[trigger] remote@[k]).0@ == dependency.remote_licenses@[k].location@
                &&& remote@[k].1@ == (output_directory@, output_file_name(dependency.id@, dependency.remote_licenses@[k].name@))
            },
        decreases dependency.remote_licenses@.len() - j,
    {
        let license: &RemoteLicense = &dependency.remote_licenses[j];
        let output = OutputLicense::new(output_directory, &dependency.id, license.name.as_str());
        remote.push((license.location.clone(), output.location));
        j = j + 1;
    }
    (local, remote)
}

} // verus!
