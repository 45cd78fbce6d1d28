//! License files with a copyleft license.
use crate::identity::{all_ids, IdentifiedLicense, IdentifiedView};
use crate::lint::{identified_views, select, Lint};
use crate::report::{report_views, Level, Report, ReportView};
use vstd::prelude::*;

verus! {

/// Whether some identifier of the license is copyleft.
pub open spec fn is_copy_left(l: IdentifiedView) -> bool {
    exists|k: int| 0 <= k < all_ids(l).len() && (#[trigger] all_ids(l)[k]).2
}

/// The report of a copyleft license file: its file name.
pub open spec fn copy_left_report(l: IdentifiedView) -> ReportView {
    (Lint::CopyLeft, Level::Error, l.0.2.1)
}

fn any_copy_left(l: &IdentifiedLicense) -> (res: bool)
    ensures
        res == is_copy_left(l@),
{
    let ids = l.ids();
    let mut i: usize = 0;
    while i < ids.len()
        invariant
            i <= ids@.len(),
            crate::identity::id_views(ids@) == all_ids(l@),
            forall|k: int| 0 <= k < i ==> !(#[trigger] all_ids(l@)[k]).2,
        decreases ids@.len() - i,
    {
        assert(all_ids(l@)[i as int] == ids@[i as int]@);
        if ids[i].copyleft {
            return true;
        }
        i = i + 1;
    }
    false
}

/// An error for each license file with at least one copyleft identifier.
pub fn copy_left(licenses: &[IdentifiedLicense]) -> (res: Vec<Report>)
    ensures
        report_views(res@) == select(identified_views(licenses@), |l: IdentifiedView| is_copy_left(l), |l: IdentifiedView| copy_left_report(l)),
{
    let mut out: Vec<Report> = Vec::new();
    let mut i: usize = 0;
    while i < licenses.len()
        invariant
            i <= licenses@.len(),
            report_views(out@) == select(identified_views(licenses@.subrange(0, i as int)), |l: IdentifiedView| is_copy_left(l), |l: IdentifiedView| copy_left_report(l)),
        decreases licenses@.len() - i,
    {
        let l = &licenses[i];
        assert(identified_views(licenses@.subrange(0, i + 1)).drop_last() =~= identified_views(licenses@.subrange(0, i as int)));
        assert(identified_views(licenses@.subrange(0, i + 1)).last() == l@);
        if any_copy_left(l) {
            let ghost before = out@;
            out.push(Report { lint: Lint::CopyLeft, level: Level::Error, item: l.license.location_file_name() });
            assert(report_views(out@) =~= report_views(before).push(copy_left_report(l@)));
        }
        i = i + 1;
    }
    assert(licenses@.subrange(0, i as int) =~= licenses@);
    out
}

} // verus!
