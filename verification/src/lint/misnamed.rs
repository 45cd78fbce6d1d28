//! License files whose name and contents suggest different licenses.
use crate::identity::{IdentifiedLicense, IdentifiedView, LicenseId, LicenseIdView};
use crate::lint::{identified_views, select, Lint};
use crate::report::{report_views, Level, Report, ReportView};
use crate::text::{joined, push_char, split_once, split_once_spec, views};
use vstd::prelude::*;

verus! {

/// Whether the license's name suggests an identifier that its contents (which suggest
/// at least one) do not.
pub open spec fn is_misnamed(l: IdentifiedView) -> bool {
    match l.1 {
        Some(id) => l.2.len() > 0 && !(exists|k: int| 0 <= k < l.2.len() && (#[trigger] l.2[k]).0 == id.0),
        None => false,
    }
}

/// The base name of a license (its name up to the first `-`), as `LicenseId::base`.
pub open spec fn base_name(name: Seq<char>) -> Seq<char> {
    match split_once_spec(name, '-') {
        Some((base, _)) => base,
        None => name,
    }
}

/// `file (name-base vs content-base, content-base, ...)`, with `<unknown>` where the name
/// suggests nothing.
pub open spec fn misnamed_text(l: IdentifiedView) -> Seq<char> {
    let from_name = match l.1 {
        Some(id) => base_name(id.1),
        None => "<unknown>"@,
    };
    l.0.2.1 + " ("@ + from_name + " vs "@ + joined(l.2.map_values(|id: LicenseIdView| base_name(id.1)), ", "@) + seq![')']
}

/// The report of a misnamed license file.
pub open spec fn misnamed_report(l: IdentifiedView) -> ReportView {
    (Lint::Misnamed, Level::Warning, misnamed_text(l))
}

/// The base name of a license.
pub fn base(id: &LicenseId) -> (res: String)
    ensures
        res@ == base_name(id@.1),
{
    match split_once(id.name.as_str(), '-') {
        Some((base, _)) => base,
        None => id.name.clone(),
    }
}

/// The text that describes a misnamed license file.
pub fn display_misnamed(l: &IdentifiedLicense) -> (res: String)
    ensures
        res@ == misnamed_text(l@),
{
    let mut out = l.license.location_file_name();
    out.append(" (");
    match &l.id_from_name {
        Some(id) => {
            let b = base(id);
            out.append(b.as_str());
        },
        None => {
            out.append("<unknown>");
        },
    }
    out.append(" vs ");
    let mut bases: Vec<String> = Vec::new();
    let mut i: usize = 0;
    while i < l.ids_from_content.len()
        invariant
            i <= l.ids_from_content@.len(),
            views(bases@) == l@.2.subrange(0, i as int).map_values(|id: LicenseIdView| base_name(id.1)),
        decreases l.ids_from_content@.len() - i,
    {
        let ghost before = bases@;
        bases.push(base(&l.ids_from_content[i]));
        assert(views(bases@) =~= views(before).push(base_name(l@.2[i as int].1)));
        assert(l@.2.subrange(0, i + 1).map_values(|id: LicenseIdView| base_name(id.1)) =~= l@.2.subrange(0, i as int).map_values(|id: LicenseIdView| base_name(id.1)).push(base_name(l@.2[i as int].1)));
        i = i + 1;
    }
    assert(l@.2.subrange(0, i as int) =~= l@.2);
    let joined_bases = crate::text::join(&bases, ", ");
    out.append(joined_bases.as_str());
    push_char(&mut out, ')');
    assert(out@ =~= misnamed_text(l@));
    out
}

fn misnamed_license(l: &IdentifiedLicense) -> (res: bool)
    ensures
        res == is_misnamed(l@),
{
    match &l.id_from_name {
        Some(id) => {
            if l.ids_from_content.len() == 0 {
                return false;
            }
            let mut i: usize = 0;
            while i < l.ids_from_content.len()
                invariant
                    i <= l.ids_from_content@.len(),
                    l@.1 == Some(id@),
                    l@.2.len() > 0,
                    forall|k: int| 0 <= k < i ==> (#[trigger] l@.2[k]).0 != id@.0,
                decreases l.ids_from_content@.len() - i,
            {
                assert(l@.2[i as int] == l.ids_from_content@[i as int]@);
                if l.ids_from_content[i].same_as(id) {
                    assert(l@.1 == Some(id@));
                    assert(l@.2[i as int].0 == id@.0);
                    return false;
                }
                i = i + 1;
            }
            true
        },
        None => false,
    }
}

/// A warning for each license file whose name suggests an identifier that its contents
/// (which suggest at least one) do not.
pub fn misnamed(licenses: &[IdentifiedLicense]) -> (res: Vec<Report>)
    ensures
        report_views(res@) == select(identified_views(licenses@), |l: IdentifiedView| is_misnamed(l), |l: IdentifiedView| misnamed_report(l)),
{
    let mut out: Vec<Report> = Vec::new();
    let mut i: usize = 0;
    while i < licenses.len()
        invariant
            i <= licenses@.len(),
            report_views(out@) == select(identified_views(licenses@.subrange(0, i as int)), |l: IdentifiedView| is_misnamed(l), |l: IdentifiedView| misnamed_report(l)),
        decreases licenses@.len() - i,
    {
        let l = &licenses[i];
        assert(identified_views(licenses@.subrange(0, i + 1)).drop_last() =~= identified_views(licenses@.subrange(0, i as int)));
        assert(identified_views(licenses@.subrange(0, i + 1)).last() == l@);
        if misnamed_license(l) {
            let ghost before = out@;
            out.push(Report { lint: Lint::Misnamed, level: Level::Warning, item: display_misnamed(l) });
            assert(report_views(out@) =~= report_views(before).push(misnamed_report(l@)));
        }
        i = i + 1;
    }
    assert(licenses@.subrange(0, i as int) =~= licenses@);
    out
}

} // verus!
