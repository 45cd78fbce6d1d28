//! License files whose license could not be identified.
use crate::identity::{all_ids, IdentifiedLicense, IdentifiedView};
use crate::lint::{identified_views, select, Lint};
use crate::report::{report_views, Level, Report, ReportView};
use vstd::prelude::*;

verus! {

/// Whether no identifier was found for the license, by name or by contents.
pub open spec fn is_unknown(l: IdentifiedView) -> bool {
    all_ids(l).len() == 0
}

/// The report of a license file of unknown type: its file name.
pub open spec fn unknown_report(l: IdentifiedView) -> ReportView {
    (Lint::UnknownType, Level::Warning, l.0.2.1)
}

/// A warning for each license file with no identifier.
pub fn unknown_type(licenses: &[IdentifiedLicense]) -> (res: Vec<Report>)
    ensures
        report_views(res@) == select(identified_views(licenses@), |l: IdentifiedView| is_unknown(l), |l: IdentifiedView| unknown_report(l)),
{
    let mut out: Vec<Report> = Vec::new();
    let mut i: usize = 0;
    while i < licenses.len()
        invariant
            i <= licenses@.len(),
            report_views(out@) == select(identified_views(licenses@.subrange(0, i as int)), |l: IdentifiedView| is_unknown(l), |l: IdentifiedView| unknown_report(l)),
        decreases licenses@.len() - i,
    {
        let l = &licenses[i];
        assert(identified_views(licenses@.subrange(0, i + 1)).drop_last() =~= identified_views(licenses@.subrange(0, i as int)));
        assert(identified_views(licenses@.subrange(0, i + 1)).last() == l@);
        let ids = l.ids();
        if ids.len() == 0 {
            let ghost before = out@;
            out.push(Report { lint: Lint::UnknownType, level: Level::Warning, item: l.license.location_file_name() });
            assert(report_views(out@) =~= report_views(before).push(unknown_report(l@)));
        }
        i = i + 1;
    }
    assert(licenses@.subrange(0, i as int) =~= licenses@);
    out
}

} // verus!
