//! The `check` command: every lint run over the dependencies and the output folder, the
//! levels the filters set, and the reports combined per lint and level.
use crate::config::CheckConfig;
use crate::filter::{filter_levels, filter_views, filtered_level, rules_map, sub_rules_map, FilterRules};
use crate::identity::{IdentifiedLicense, IdentifiedView};
use crate::license::{lemma_output_file_name_round_trip, output_file_name, output_license_from, output_licenses_from, OutputLicense};
use crate::lint::copy_left::{copy_left, copy_left_report, is_copy_left};
use crate::lint::extraneous::{extraneous, extraneous_reports};
use crate::lint::misnamed::{is_misnamed, misnamed, misnamed_report};
use crate::lint::missing_or_unexpected::{dependency_ids, license_ids, missing_or_unexpected, missing_report, unexpected_reports};
use crate::lint::no_cargo_license::no_cargo_license;
use crate::lint::no_licenses::no_licenses;
use crate::lint::unknown_type::{is_unknown, unknown_report, unknown_type};
use crate::lint::unmet_spdx::{unmet_reports, unmet_spdx};
use crate::lint::{identified_views, select, Lint};
use crate::package::{dependencies, describes, listed, root_package, Metadata, Package};
use crate::package_id::{id_name, package_key, semver_parse, valid_identifiers, version_text, PackageIdView};
use crate::report::{is_combination, report_views, CombineReports, CombinedReport, Level, Report, ReportView};
use crate::text::views;
use vstd::prelude::*;

verus! {

broadcast use vstd::seq_lib::group_seq_properties;

/// Whether `deps` are the project's dependencies under the settings, as
/// `package::dependencies` lists them.
pub open spec fn are_dependencies(meta: Metadata, config: CheckConfig, deps: Seq<Package>) -> bool {
    let l = listed(meta, views(config.common.excluded@), config.common.build_dependencies, config.common.dev_dependencies);
    &&& deps.len() == l.len()
    &&& forall|i: int| 0 <= i < deps.len() ==> describes(#[trigger] deps[i], meta.packages@[l[i]])
}

/// Whether `ms` lists, each once, the dependency identifiers with no output license file.
pub open spec fn are_missing(ms: Seq<PackageIdView>, deps: Seq<Package>, outputs: Seq<OutputLicense>) -> bool {
    &&& ms.no_duplicates()
    &&& ms.to_set() == dependency_ids(deps).to_set().difference(license_ids(outputs).to_set())
}

/// The report of the root package when it declares no license.
pub open spec fn no_cargo_reports(root: Package) -> Seq<ReportView> {
    if root.spdx_license is None {
        seq![(Lint::NoCargoLicense, Level::Warning, package_key(root.id@))]
    } else {
        Seq::empty()
    }
}

/// The report of an empty output folder where there are dependencies.
pub open spec fn no_licenses_reports(directory: Seq<char>, deps: Seq<Package>, ls: Seq<IdentifiedView>) -> Seq<ReportView> {
    if deps.len() > 0 && ls.len() == 0 {
        seq![(Lint::NoLicenses, Level::Warning, directory)]
    } else {
        Seq::empty()
    }
}

/// Every report of every lint, before filtering, in the order the lints run: missing,
/// no cargo license, unmet SPDX, copyleft, no licenses, unknown type, misnamed,
/// extraneous, unexpected.
pub open spec fn lint_reports(
    ms: Seq<PackageIdView>,
    deps: Seq<Package>,
    root: Package,
    outputs: Seq<OutputLicense>,
    ls: Seq<IdentifiedView>,
    directory: Seq<char>,
) -> Seq<ReportView> {
    ms.map_values(|id: PackageIdView| missing_report(id))
        + no_cargo_reports(root)
        + unmet_reports(deps, ls)
        + select(ls, |l: IdentifiedView| is_copy_left(l), |l: IdentifiedView| copy_left_report(l))
        + no_licenses_reports(directory, deps, ls)
        + select(ls, |l: IdentifiedView| is_unknown(l), |l: IdentifiedView| unknown_report(l))
        + select(ls, |l: IdentifiedView| is_misnamed(l), |l: IdentifiedView| misnamed_report(l))
        + extraneous_reports(deps, ls)
        + unexpected_reports(outputs, dependency_ids(deps))
}

/// The reports with the levels that the configuration's filters give them.
pub open spec fn filtered_reports(config: CheckConfig, rs: Seq<ReportView>) -> Seq<ReportView> {
    let fl = filter_levels(filter_views(config.allow@), filter_views(config.warn@), filter_views(config.deny@));
    rs.map_values(|r: ReportView| (r.0, filtered_level(rules_map(fl), sub_rules_map(fl), r), r.2))
}

fn apply_filters(rules: &FilterRules, reports: &Vec<Report>) -> (res: Vec<Report>)
    requires
        rules.well_formed(),
    ensures
        report_views(res@) == report_views(reports@).map_values(|r: ReportView| (r.0, filtered_level(rules.rules_view(), rules.sub_rules_view(), r), r.2)),
{
    let ghost target = report_views(reports@).map_values(|r: ReportView| (r.0, filtered_level(rules.rules_view(), rules.sub_rules_view(), r), r.2));
    let mut out: Vec<Report> = Vec::new();
    let mut i: usize = 0;
    while i < reports.len()
        invariant
            i <= reports@.len(),
            rules.well_formed(),
            target == report_views(reports@).map_values(|r: ReportView| (r.0, filtered_level(rules.rules_view(), rules.sub_rules_view(), r), r.2)),
            report_views(out@) == target.subrange(0, i as int),
        decreases reports@.len() - i,
    {
        let r = &reports[i];
        let copy = Report { lint: r.lint, level: r.level, item: r.item.clone() };
        assert(copy@ == r@);
        if let Some(filtered) = rules.filter(copy) {
            let ghost before = report_views(out@);
            out.push(filtered);
            assert(report_views(out@) =~= before.push(filtered@));
        }
        assert(target.subrange(0, i + 1) =~= target.subrange(0, i as int).push(target[i as int]));
        i = i + 1;
    }
    assert(target.subrange(0, i as int) =~= target);
    out
}

fn append_all(out: &mut Vec<Report>, more: Vec<Report>)
    ensures
        report_views(final(out)@) == report_views(old(out)@) + report_views(more@),
{
    let mut more = more;
    let ghost a = report_views(out@);
    let ghost b = report_views(more@);
    out.append(&mut more);
    assert(report_views(out@) =~= a + b);
}

fn append_opt(out: &mut Vec<Report>, more: Option<Report>)
    ensures
        report_views(final(out)@) == report_views(old(out)@) + match more {
            Some(r) => seq![r@],
            None => Seq::<ReportView>::empty(),
        },
{
    let ghost a = report_views(out@);
    match more {
        Some(r) => {
            let ghost v = r@;
            out.push(r);
            assert(report_views(out@) =~= a + seq![v]);
        },
        None => {
            assert(report_views(out@) =~= a + Seq::<ReportView>::empty());
        },
    }
}

/// The reports of `check`: every lint's reports over the project's dependencies, its
/// root package, the output license files and their identified licenses; each given
/// the level that the filters set; combined into one report per lint and level, ordered
/// by level and then by lint, with the items of each sorted.
pub fn check_reports(config: &CheckConfig, metadata: &Metadata, outputs: &[OutputLicense], licenses: &[IdentifiedLicense]) -> (res: Vec<CombinedReport>)
    requires
        metadata.well_formed(),
        metadata.workspace_members@.len() > 0,
    ensures
        exists|deps: Seq<Package>, root: Package, ms: Seq<PackageIdView>| {
            &&& are_dependencies(*metadata, *config, deps)
            &&& describes(root, metadata.packages@[metadata.workspace_members@[0] as int])
            &&& are_missing(ms, deps, outputs@)
            &&& is_combination(
                filtered_reports(*config, lint_reports(ms, deps, root, outputs@, identified_views(licenses@), config.common.license_directory@)),
                crate::report::combined_views(res@),
            )
        },
{
    let rules = FilterRules::new(config);
    let deps = dependencies(&config.common, metadata);
    let (missing, unexpected) = missing_or_unexpected(deps.as_slice(), outputs);
    let root = root_package(metadata);
    let mut reports: Vec<Report> = Vec::new();
    let ghost empty = report_views(reports@);
    append_all(&mut reports, missing);
    append_opt(&mut reports, no_cargo_license(&root));
    append_all(&mut reports, unmet_spdx(deps.as_slice(), licenses));
    append_all(&mut reports, copy_left(licenses));
    append_opt(&mut reports, no_licenses(config.common.license_directory.as_str(), deps.as_slice(), licenses));
    append_all(&mut reports, unknown_type(licenses));
    append_all(&mut reports, misnamed(licenses));
    append_all(&mut reports, extraneous(deps.as_slice(), licenses));
    append_all(&mut reports, unexpected);
    let filtered = apply_filters(&rules, &reports);
    let res = filtered.combine_reports();
    proof {
        let ms = choose|ms: Seq<PackageIdView>| {
            &&& ms.no_duplicates()
            &&& ms.to_set() == dependency_ids(deps@).to_set().difference(license_ids(outputs@).to_set())
            &&& report_views(missing@) == ms.map_values(|id: PackageIdView| missing_report(id))
        };
        let ls = identified_views(licenses@);
        let dir = config.common.license_directory@;
        assert(report_views(reports@) =~= lint_reports(ms, deps@, root, outputs@, ls, dir));
        assert(are_dependencies(*metadata, *config, deps@));
    }
    res
}

proof fn lemma_output_licenses_hold(folder: Seq<char>, names: Seq<Seq<char>>, k: int)
    requires
        0 <= k < names.len(),
        output_license_from((folder, names[k])) is Some,
    ensures
        output_licenses_from(folder, names).contains(output_license_from((folder, names[k]))->0),
    decreases names.len(),
{
    let rest = output_licenses_from(folder, names.drop_last());
    if k < names.len() - 1 {
        lemma_output_licenses_hold(folder, names.drop_last(), k);
        let w = choose|w: int| 0 <= w < rest.len() && rest[w] == output_license_from((folder, names[k]))->0;
        assert(output_licenses_from(folder, names)[w] == rest[w]);
    } else {
        assert(output_licenses_from(folder, names) == rest.push(output_license_from((folder, names[k]))->0));
        assert(output_licenses_from(folder, names)[rest.len() as int] == output_license_from((folder, names[k]))->0);
    }
}

/// What `get` writes, `check` finds: where the output folder holds a file named as
/// `get` names a license file of a dependency, and the output licenses are read from the
/// folder's file names, that dependency is not among the missing ones. This holds for
/// every dependency identifier with no `_` in its name (as `PackageId::new` makes them)
/// and a version that displays as the text it parses from (as every version that
/// `semver` parses does).
pub proof fn lemma_collected_license_is_not_missing(
    folder: Seq<char>,
    names: Seq<Seq<char>>,
    outputs: Seq<OutputLicense>,
    deps: Seq<Package>,
    ms: Seq<PackageIdView>,
    i: int,
    name: Seq<char>,
)
    requires
        0 <= i < deps.len(),
        names.contains(output_file_name(deps[i].id@, name)),
        outputs.map_values(|l: OutputLicense| l@) == output_licenses_from(folder, names),
        !deps[i].id@.0.contains('_'),
        valid_identifiers(deps[i].id@.1.3),
        valid_identifiers(deps[i].id@.1.4),
        semver_parse(version_text(deps[i].id@.1)) == Some(deps[i].id@.1),
        are_missing(ms, deps, outputs),
    ensures
        !ms.contains(deps[i].id@),
{
    let id = deps[i].id@;
    let file = output_file_name(id, name);
    lemma_output_file_name_round_trip(id, name, folder);
    assert(id_name(id.0) =~= id.0);
    let k = choose|k: int| 0 <= k < names.len() && names[k] == file;
    lemma_output_licenses_hold(folder, names, k);
    let views = outputs.map_values(|l: OutputLicense| l@);
    let w = choose|w: int| 0 <= w < views.len() && views[w] == output_license_from((folder, file))->0;
    assert(outputs[w]@ == views[w]);
    assert(license_ids(outputs)[w] == id);
    assert(license_ids(outputs).to_set().contains(id));
    assert(dependency_ids(deps)[i] == id);
    if ms.contains(id) {
        assert(ms.to_set().contains(id));
    }
}

} // verus!
