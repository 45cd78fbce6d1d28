//! License files that a dependency's license expression does not require.
use crate::expression::{candidates, distinct_by_index, satisfying_ids, distinct_ids, minimized_requirements, opt_id_views, spdx_minimized, LicenseExpression};
use crate::identity::{all_ids, id_views, IdentifiedLicense, IdentifiedView, LicenseId, LicenseIdView};
use crate::lint::{identified_views, Lint};
use crate::package::Package;
use crate::package_id::PackageIdView;
use crate::report::{report_views, Level, Report, ReportView};
use crate::text::{push_char, views};
use vstd::prelude::*;

verus! {

/// The license files of a package, in order.
pub open spec fn of_package(ls: Seq<IdentifiedView>, package: PackageIdView) -> Seq<IdentifiedView>
    decreases ls.len(),
{
    if ls.len() == 0 {
        Seq::empty()
    } else {
        let rest = of_package(ls.drop_last(), package);
        if ls.last().0.0 == package { rest.push(ls.last()) } else { rest }
    }
}

/// Every identifier of the license files, file by file.
pub open spec fn flat_ids(ls: Seq<IdentifiedView>) -> Seq<LicenseIdView>
    decreases ls.len(),
{
    if ls.len() == 0 { Seq::empty() } else { flat_ids(ls.drop_last()) + all_ids(ls.last()) }
}

/// The identifiers among the requirements.
pub open spec fn required_ids(reqs: Seq<Option<LicenseIdView>>) -> Seq<LicenseIdView>
    decreases reqs.len(),
{
    if reqs.len() == 0 {
        Seq::empty()
    } else {
        let rest = required_ids(reqs.drop_last());
        match reqs.last() {
            Some(id) => rest.push(id),
            None => rest,
        }
    }
}

/// Whether some identifier of the license file is required.
pub open spec fn is_required(l: IdentifiedView, required: Seq<LicenseIdView>) -> bool {
    exists|k: int, j: int| 0 <= k < all_ids(l).len() && 0 <= j < required.len() && (#[trigger] all_ids(l)[k]).0 == (#[trigger] required[j]).0
}

/// `file (not expression)` for each license file that no requirement needs.
pub open spec fn unrequired_items(pls: Seq<IdentifiedView>, required: Seq<LicenseIdView>, text: Seq<char>) -> Seq<Seq<char>>
    decreases pls.len(),
{
    if pls.len() == 0 {
        Seq::empty()
    } else {
        let rest = unrequired_items(pls.drop_last(), required, text);
        let l = pls.last();
        if is_required(l, required) { rest } else { rest.push(l.0.2.1 + " (not "@ + text + seq![')']) }
    }
}

/// The extraneous license files of a package: where the licenses of its files can meet
/// its expression, each file none of whose identifiers the minimal requirements name;
/// none where 32 or more different licenses of its files satisfy a requirement of it
/// (more than the minimization can count).
pub open spec fn extraneous_items(expression_text: Seq<char>, package: PackageIdView, ls: Seq<IdentifiedView>) -> Seq<Seq<char>> {
    let pls = of_package(ls, package);
    let accepted = candidates(expression_text, distinct_ids(flat_ids(pls)));
    if accepted.len() >= 32 {
        Seq::empty()
    } else {
        match spdx_minimized(expression_text, accepted) {
            Some(reqs) => unrequired_items(pls, required_ids(reqs), expression_text),
            None => Seq::empty(),
        }
    }
}

/// The license files of `package`.
pub fn package_license_indices(package: &crate::package_id::PackageId, licenses: &[IdentifiedLicense]) -> (res: Vec<usize>)
    ensures
        forall|k: int| 0 <= k < res@.len() ==> #[trigger] res@[k] < licenses@.len(),
        res@.map_values(|k: usize| licenses@[k as int]@) == of_package(identified_views(licenses@), package@),
{
    let mut out: Vec<usize> = Vec::new();
    let mut i: usize = 0;
    while i < licenses.len()
        invariant
            i <= licenses@.len(),
            forall|k: int| 0 <= k < out@.len() ==> #[trigger] out@[k] < licenses@.len(),
            out@.map_values(|k: usize| licenses@[k as int]@) == of_package(identified_views(licenses@.subrange(0, i as int)), package@),
        decreases licenses@.len() - i,
    {
        assert(identified_views(licenses@.subrange(0, i + 1)).drop_last() =~= identified_views(licenses@.subrange(0, i as int)));
        assert(identified_views(licenses@.subrange(0, i + 1)).last() == licenses@[i as int]@);
        let ghost before = out@;
        if licenses[i].license.package_id.same_as(package) {
            out.push(i);
            assert(out@.map_values(|k: usize| licenses@[k as int]@) =~= before.map_values(|k: usize| licenses@[k as int]@).push(licenses@[i as int]@));
        }
        i = i + 1;
    }
    assert(licenses@.subrange(0, i as int) =~= licenses@);
    out
}

/// Every identifier of the chosen license files, file by file.
pub fn collect_ids(licenses: &[IdentifiedLicense], chosen: &Vec<usize>) -> (res: Vec<LicenseId>)
    requires
        forall|k: int| 0 <= k < chosen@.len() ==> #[trigger] chosen@[k] < licenses@.len(),
    ensures
        id_views(res@) == flat_ids(chosen@.map_values(|k: usize| licenses@[k as int]@)),
{
    let ghost pls = chosen@.map_values(|k: usize| licenses@[k as int]@);
    let mut out: Vec<LicenseId> = Vec::new();
    let mut i: usize = 0;
    while i < chosen.len()
        invariant
            i <= chosen@.len(),
            pls == chosen@.map_values(|k: usize| licenses@[k as int]@),
            forall|k: int| 0 <= k < chosen@.len() ==> #[trigger] chosen@[k] < licenses@.len(),
            id_views(out@) == flat_ids(pls.subrange(0, i as int)),
        decreases chosen@.len() - i,
    {
        let l = &licenses[chosen[i]];
        let ids = l.ids();
        assert(pls.subrange(0, i + 1).drop_last() =~= pls.subrange(0, i as int));
        assert(pls.subrange(0, i + 1).last() == l@);
        let mut j: usize = 0;
        let ghost start = id_views(out@);
        while j < ids.len()
            invariant
                j <= ids@.len(),
                id_views(out@) == start + id_views(ids@).subrange(0, j as int),
            decreases ids@.len() - j,
        {
            let ghost before = out@;
            out.push(ids[j].duplicate());
            assert(id_views(out@) =~= id_views(before).push(ids@[j as int]@));
            assert(id_views(ids@).subrange(0, j + 1) =~= id_views(ids@).subrange(0, j as int).push(ids@[j as int]@));
            j = j + 1;
        }
        assert(id_views(ids@).subrange(0, j as int) =~= id_views(ids@));
        i = i + 1;
    }
    assert(pls.subrange(0, i as int) =~= pls);
    out
}

/// The identifiers among the requirements.
pub fn requirement_ids(reqs: &Vec<Option<LicenseId>>) -> (res: Vec<LicenseId>)
    ensures
        id_views(res@) == required_ids(opt_id_views(reqs@)),
{
    let mut out: Vec<LicenseId> = Vec::new();
    let mut i: usize = 0;
    while i < reqs.len()
        invariant
            i <= reqs@.len(),
            id_views(out@) == required_ids(opt_id_views(reqs@).subrange(0, i as int)),
        decreases reqs@.len() - i,
    {
        assert(opt_id_views(reqs@).subrange(0, i + 1).drop_last() =~= opt_id_views(reqs@).subrange(0, i as int));
        assert(opt_id_views(reqs@).subrange(0, i + 1).last() == opt_id_views(reqs@)[i as int]);
        let ghost before = out@;
        if let Some(id) = &reqs[i] {
            out.push(id.duplicate());
            assert(id_views(out@) =~= id_views(before).push(id@));
        }
        i = i + 1;
    }
    assert(opt_id_views(reqs@).subrange(0, i as int) =~= opt_id_views(reqs@));
    out
}

/// Whether some identifier of the license file is among `required`.
pub fn required_license(required: &Vec<LicenseId>, license: &IdentifiedLicense) -> (res: bool)
    ensures
        res == is_required(license@, id_views(required@)),
{
    let mut j: usize = 0;
    while j < required.len()
        invariant
            j <= required@.len(),
            forall|k: int, jj: int| 0 <= k < all_ids(license@).len() && 0 <= jj < j ==> (#[trigger] all_ids(license@)[k]).0 != (#[trigger] id_views(required@)[jj]).0,
        decreases required@.len() - j,
    {
        if license.has(&required[j]) {
            proof {
                let k = choose|k: int| 0 <= k < all_ids(license@).len() && (#[trigger] all_ids(license@)[k]).0 == required@[j as int]@.0;
                assert(id_views(required@)[j as int] == required@[j as int]@);
            }
            return true;
        }
        proof {
            assert forall|k: int| 0 <= k < all_ids(license@).len() implies (#[trigger] all_ids(license@)[k]).0 != id_views(required@)[j as int].0 by {
                assert(id_views(required@)[j as int] == required@[j as int]@);
            }
        }
        j = j + 1;
    }
    false
}

/// The license files of `package` that its expression does not require, each as
/// `file (not expression)`.
pub fn extraneous_package_licenses(package: &Package, expression: &LicenseExpression, licenses: &[IdentifiedLicense]) -> (res: Vec<String>)
    ensures
        views(res@) == extraneous_items(expression@.0, package.id@, identified_views(licenses@)),
{
    let chosen = package_license_indices(&package.id, licenses);
    let ghost pls = chosen@.map_values(|k: usize| licenses@[k as int]@);
    let ids = collect_ids(licenses, &chosen);
    // The minimization keeps only the first of equal licensees, and only those that
    // satisfy some requirement, so handing it just those gives the same requirements.
    let distinct = distinct_by_index(&ids);
    let accepted = satisfying_ids(expression, &distinct);
    if accepted.len() >= 32 {
        return Vec::new();
    }
    let requirements = match minimized_requirements(expression, &accepted) {
        Some(r) => r,
        None => return Vec::new(),
    };
    let required = requirement_ids(&requirements);
    let mut out: Vec<String> = Vec::new();
    let mut i: usize = 0;
    while i < chosen.len()
        invariant
            i <= chosen@.len(),
            pls == chosen@.map_values(|k: usize| licenses@[k as int]@),
            forall|k: int| 0 <= k < chosen@.len() ==> #[trigger] chosen@[k] < licenses@.len(),
            views(out@) == unrequired_items(pls.subrange(0, i as int), id_views(required@), expression@.0),
        decreases chosen@.len() - i,
    {
        let l = &licenses[chosen[i]];
        assert(pls.subrange(0, i + 1).drop_last() =~= pls.subrange(0, i as int));
        assert(pls.subrange(0, i + 1).last() == l@);
        if !required_license(&required, l) {
            let mut item = l.license.location_file_name();
            item.append(" (not ");
            item.append(expression.text.as_str());
            push_char(&mut item, ')');
            assert(item@ =~= l@.0.2.1 + " (not "@ + expression@.0 + seq![')']);
            let ghost before = out@;
            out.push(item);
            assert(views(out@) =~= views(before).push(l@.0.2.1 + " (not "@ + expression@.0 + seq![')']));
        }
        i = i + 1;
    }
    assert(pls.subrange(0, i as int) =~= pls);
    out
}

/// The extraneous reports of every dependency with a license expression, in order.
pub open spec fn extraneous_reports(ds: Seq<Package>, ls: Seq<IdentifiedView>) -> Seq<ReportView>
    decreases ds.len(),
{
    if ds.len() == 0 {
        Seq::empty()
    } else {
        let rest = extraneous_reports(ds.drop_last(), ls);
        let p = ds.last();
        match p.spdx_license {
            Some(e) => rest + extraneous_items(e@.0, p.id@, ls).map_values(|item: Seq<char>| (Lint::Extraneous, Level::Info, item)),
            None => rest,
        }
    }
}

/// Information on each license file that its dependency's license expression does not
/// require.
pub fn extraneous(dependencies: &[Package], licenses: &[IdentifiedLicense]) -> (res: Vec<Report>)
    ensures
        report_views(res@) == extraneous_reports(dependencies@, identified_views(licenses@)),
{
    let mut out: Vec<Report> = Vec::new();
    let mut i: usize = 0;
    while i < dependencies.len()
        invariant
            i <= dependencies@.len(),
            report_views(out@) == extraneous_reports(dependencies@.subrange(0, i as int), identified_views(licenses@)),
        decreases dependencies@.len() - i,
    {
        let p = &dependencies[i];
        assert(dependencies@.subrange(0, i + 1).drop_last() =~= dependencies@.subrange(0, i as int));
        if let Some(expression) = &p.spdx_license {
            let items = extraneous_package_licenses(p, expression, licenses);
            let ghost start = report_views(out@);
            let ghost mapped = views(items@).map_values(|item: Seq<char>| (Lint::Extraneous, Level::Info, item));
            let mut j: usize = 0;
            while j < items.len()
                invariant
                    j <= items@.len(),
                    mapped == views(items@).map_values(|item: Seq<char>| (Lint::Extraneous, Level::Info, item)),
                    report_views(out@) == start + mapped.subrange(0, j as int),
                decreases items@.len() - j,
            {
                let ghost before = out@;
                out.push(Report { lint: Lint::Extraneous, level: Level::Info, item: items[j].clone() });
                assert(report_views(out@) =~= report_views(before).push(mapped[j as int]));
                assert(mapped.subrange(0, j + 1) =~= mapped.subrange(0, j as int).push(mapped[j as int]));
                j = j + 1;
            }
            assert(mapped.subrange(0, j as int) =~= mapped);
            assert(p.spdx_license == Some(*expression));
        }
        i = i + 1;
    }
    assert(dependencies@.subrange(0, i as int) =~= dependencies@);
    out
}

} // verus!
