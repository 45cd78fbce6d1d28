//! Dependencies without license files, and license files of packages that are no
//! dependencies.
use crate::license::OutputLicense;
use crate::lint::Lint;
use crate::package::Package;
use crate::package_id::{package_key, PackageIdView};
use crate::report::{report_views, Level, Report, ReportView};
use vstd::prelude::*;

verus! {

broadcast use vstd::seq_lib::group_seq_properties;

/// The identifiers of the dependencies.
pub open spec fn dependency_ids(ds: Seq<Package>) -> Seq<PackageIdView> {
    ds.map_values(|p: Package| p.id@)
}

/// The package identifiers of the license files.
pub open spec fn license_ids(ls: Seq<OutputLicense>) -> Seq<PackageIdView> {
    ls.map_values(|l: OutputLicense| l.package_id@)
}

/// The report of a dependency without license files, naming it by its key `name_version`.
pub open spec fn missing_report(id: PackageIdView) -> ReportView {
    (Lint::Missing, Level::Error, package_key(id))
}

/// The reports of the license files whose package is no dependency, in file order.
pub open spec fn unexpected_reports(ls: Seq<OutputLicense>, expected: Seq<PackageIdView>) -> Seq<ReportView>
    decreases ls.len(),
{
    if ls.len() == 0 {
        Seq::empty()
    } else {
        let rest = unexpected_reports(ls.drop_last(), expected);
        let l = ls.last();
        if expected.contains(l.package_id@) {
            rest
        } else {
            rest.push((Lint::Unexpected, Level::Info, l.location.file_name@))
        }
    }
}

/// A license file whose package identifier (name and version) is that of no dependency
/// is reported unexpected, even where a dependency has the same name in another version.
pub proof fn lemma_file_of_no_dependency_is_unexpected(ls: Seq<OutputLicense>, deps: Seq<Package>, k: int)
    requires
        0 <= k < ls.len(),
        forall|d: int| 0 <= d < deps.len() ==> (#[trigger] deps[d]).id@ != ls[k].package_id@,
    ensures
        unexpected_reports(ls, dependency_ids(deps)).contains((Lint::Unexpected, Level::Info, ls[k].location.file_name@)),
    decreases ls.len(),
{
    let expected = dependency_ids(deps);
    let report = (Lint::Unexpected, Level::Info, ls[k].location.file_name@);
    let rest = unexpected_reports(ls.drop_last(), expected);
    if k == ls.len() - 1 {
        assert(!expected.contains(ls[k].package_id@)) by {
            if expected.contains(ls[k].package_id@) {
                let d = choose|d: int| 0 <= d < expected.len() && expected[d] == ls[k].package_id@;
                assert(deps[d].id@ == expected[d]);
            }
        }
        assert(unexpected_reports(ls, expected) == rest.push(report));
        assert(rest.push(report)[rest.len() as int] == report);
    } else {
        lemma_file_of_no_dependency_is_unexpected(ls.drop_last(), deps, k);
        assert(ls.drop_last()[k] == ls[k]);
        let j = choose|j: int| 0 <= j < rest.len() && rest[j] == report;
        if !expected.contains(ls.last().package_id@) {
            assert(unexpected_reports(ls, expected)[j] == report);
        }
    }
}

/// Every unexpected report names a license file whose package identifier (name and
/// version) is that of no dependency.
pub proof fn lemma_unexpected_report_source(ls: Seq<OutputLicense>, deps: Seq<Package>, j: int)
    requires
        0 <= j < unexpected_reports(ls, dependency_ids(deps)).len(),
    ensures
        exists|k: int|
            0 <= k < ls.len() && unexpected_reports(ls, dependency_ids(deps))[j] == (
            Lint::Unexpected,
            Level::Info,
            (#[trigger] ls[k]).location.file_name@,
            ) && forall|d: int| 0 <= d < deps.len() ==> (#[trigger] deps[d]).id@ != ls[k].package_id@,
    decreases ls.len(),
{
    let expected = dependency_ids(deps);
    let rest = unexpected_reports(ls.drop_last(), expected);
    let k0 = ls.len() - 1;
    if j < rest.len() {
        lemma_unexpected_report_source(ls.drop_last(), deps, j);
        let k = choose|k: int|
            0 <= k < ls.drop_last().len() && rest[j] == (Lint::Unexpected, Level::Info, (#[trigger] ls.drop_last()[k]).location.file_name@)
                && forall|d: int| 0 <= d < deps.len() ==> (#[trigger] deps[d]).id@ != ls.drop_last()[k].package_id@;
        assert(ls[k] == ls.drop_last()[k]);
        if !expected.contains(ls.last().package_id@) {
            assert(unexpected_reports(ls, expected)[j] == rest[j]);
        }
    } else {
        assert(!expected.contains(ls[k0].package_id@));
        assert forall|d: int| 0 <= d < deps.len() implies (#[trigger] deps[d]).id@ != ls[k0].package_id@ by {
            assert(expected[d] == deps[d].id@);
        }
    }
}

fn dependency_has(dependencies: &[Package], id: &crate::package_id::PackageId) -> (res: bool)
    ensures
        res == dependency_ids(dependencies@).contains(id@),
{
    let mut i: usize = 0;
    while i < dependencies.len()
        invariant
            i <= dependencies@.len(),
            forall|j: int| 0 <= j < i ==> dependencies@[j].id@ != id@,
        decreases dependencies@.len() - i,
    {
        if dependencies[i].id.same_as(id) {
            assert(dependency_ids(dependencies@)[i as int] == id@);
            return true;
        }
        i = i + 1;
    }
    assert forall|j: int| 0 <= j < dependency_ids(dependencies@).len() implies dependency_ids(dependencies@)[j] != id@ by {
        assert(dependencies@[j].id@ != id@);
    }
    false
}

fn license_has(licenses: &[OutputLicense], id: &crate::package_id::PackageId) -> (res: bool)
    ensures
        res == license_ids(licenses@).contains(id@),
{
    let mut i: usize = 0;
    while i < licenses.len()
        invariant
            i <= licenses@.len(),
            forall|j: int| 0 <= j < i ==> licenses@[j].package_id@ != id@,
        decreases licenses@.len() - i,
    {
        if licenses[i].package_id.same_as(id) {
            assert(license_ids(licenses@)[i as int] == id@);
            return true;
        }
        i = i + 1;
    }
    assert forall|j: int| 0 <= j < license_ids(licenses@).len() implies license_ids(licenses@)[j] != id@ by {
        assert(licenses@[j].package_id@ != id@);
    }
    false
}

/// The missing reports (one per dependency identifier with no license file, each
/// identifier once) and the unexpected reports (one per license file whose package is
/// no dependency).
pub fn missing_or_unexpected(dependencies: &[Package], licenses: &[OutputLicense]) -> (res: (Vec<Report>, Vec<Report>))
    ensures
        exists|ms: Seq<PackageIdView>|
            {
                &&& ms.no_duplicates()
                &&& ms.to_set() == dependency_ids(dependencies@).to_set().difference(license_ids(licenses@).to_set())
                &&& report_views(res.0@) == ms.map_values(|id: PackageIdView| missing_report(id))
            },
        report_views(res.1@) == unexpected_reports(licenses@, dependency_ids(dependencies@)),
{
    let ghost expected = dependency_ids(dependencies@);
    let ghost found = license_ids(licenses@);
    let mut missing: Vec<Report> = Vec::new();
    let ghost mut ms: Seq<PackageIdView> = Seq::empty();
    let mut i: usize = 0;
    while i < dependencies.len()
        invariant
            i <= dependencies@.len(),
            expected == dependency_ids(dependencies@),
            found == license_ids(licenses@),
            ms.no_duplicates(),
            ms.to_set() == dependency_ids(dependencies@.subrange(0, i as int)).to_set().difference(found.to_set()),
            report_views(missing@) == ms.map_values(|id: PackageIdView| missing_report(id)),
            missing@.len() == ms.len(),
        decreases dependencies@.len() - i,
    {
        let id = &dependencies[i].id;
        let ghost before = dependency_ids(dependencies@.subrange(0, i as int));
        assert(dependency_ids(dependencies@.subrange(0, i + 1)) =~= before.push(id@));
        if !license_has(licenses, id) {
            // whether this identifier was already reported
            let mut seen = false;
            let mut j: usize = 0;
            while j < i
                invariant
                    j <= i,
                    i < dependencies@.len(),
                    seen == exists|k: int| 0 <= k < j && dependencies@[k].id@ == id@,
                decreases i - j,
            {
                if dependencies[j].id.same_as(id) {
                    seen = true;
                }
                j = j + 1;
            }
            if !seen {
                let ghost old_missing = missing@;
                missing.push(Report { lint: Lint::Missing, level: Level::Error, item: id.key() });
                proof {
                    assert(!ms.contains(id@)) by {
                        if ms.contains(id@) {
                            assert(ms.to_set().contains(id@));
                            assert(before.to_set().contains(id@));
                            let k = choose|k: int| 0 <= k < before.len() && before[k] == id@;
                            assert(dependencies@[k].id@ == id@);
                        }
                    }
                    ms.lemma_push_to_set_commute(id@);
                    ms = ms.push(id@);
                    assert(report_views(missing@) =~= report_views(old_missing).push(missing_report(id@)));
                }
            } else {
                proof {
                    let k = choose|k: int| 0 <= k < i && dependencies@[k].id@ == id@;
                    assert(before[k] == id@);
                }
            }
        }
        proof {
            let now = dependency_ids(dependencies@.subrange(0, i + 1));
            before.lemma_push_to_set_commute(id@);
            assert(now.to_set() == before.to_set().insert(id@));
            assert(ms.to_set() =~= now.to_set().difference(found.to_set())) by {
                if found.contains(id@) {
                    assert(found.to_set().contains(id@));
                }
                if !found.contains(id@) {
                    assert(!found.to_set().contains(id@)) by {
                        if found.to_set().contains(id@) {
                            assert(found.contains(id@));
                        }
                    }
                }
            }
        }
        i = i + 1;
    }
    assert(dependencies@.subrange(0, i as int) =~= dependencies@);
    let mut unexpected: Vec<Report> = Vec::new();
    let mut k: usize = 0;
    while k < licenses.len()
        invariant
            k <= licenses@.len(),
            expected == dependency_ids(dependencies@),
            report_views(unexpected@) == unexpected_reports(licenses@.subrange(0, k as int), expected),
        decreases licenses@.len() - k,
    {
        let l = &licenses[k];
        assert(licenses@.subrange(0, k + 1).drop_last() =~= licenses@.subrange(0, k as int));
        if !dependency_has(dependencies, &l.package_id) {
            let ghost old_unexpected = unexpected@;
            unexpected.push(Report { lint: Lint::Unexpected, level: Level::Info, item: l.location_file_name() });
            assert(report_views(unexpected@) =~= report_views(old_unexpected).push((Lint::Unexpected, Level::Info, l.location.file_name@)));
        }
        k = k + 1;
    }
    assert(licenses@.subrange(0, k as int) =~= licenses@);
    (missing, unexpected)
}

} // verus!
