use licenses::expression::distinct_by_index;
use licenses::identity::{ids_from_content, IdentifiedLicense, LicenseId, Licensee};
use licenses::license::{output_licenses_in, OutputLicense};
use licenses::lint::copy_left::copy_left;
use licenses::lint::extraneous::extraneous;
use licenses::lint::misnamed::{display_misnamed, misnamed};
use licenses::lint::missing_or_unexpected::missing_or_unexpected;
use licenses::lint::no_cargo_license::no_cargo_license;
use licenses::lint::no_licenses::no_licenses;
use licenses::lint::report::ReportIfAny;
use licenses::lint::unknown_type::unknown_type;
use licenses::lint::unmet_spdx::unmet_spdx;
use licenses::lint::Lint;
use licenses::package::{MetadataPackage, Package};
use licenses::package_id::{PackageId, Version};
use licenses::prune::{
    extraneous_licenses, extraneous_requirements, licensee_from_id, removing_message, required_license, sort_requirements,
    unrequired_licenses,
};
use licenses::report::Level;
use licenses::summary::{license_type_summary, summary_rows, unique_license_types, unknown_license_type_summary};

fn version() -> Version {
    Version { major: 1, minor: 0, patch: 0, pre: String::new(), build: String::new() }
}

fn id(name: &str) -> PackageId {
    PackageId::new(name, version())
}

fn spdx(name: &str) -> LicenseId {
    ids_from_content(&vec![name.to_string()]).pop().unwrap()
}

fn package(name: &str, expression: Option<&str>) -> Package {
    let package = Package::from(&MetadataPackage {
        name: name.to_string(),
        version: version(),
        repository: None,
        manifest_directory: format!("vendor/{name}"),
        license: expression.map(|e| e.to_string()),
        deps: Vec::new(),
    });
    assert_eq!(package.spdx_license.is_some(), expression.is_some());
    package
}

fn identified(package: &str, file: &str, from_name: Option<&str>, from_content: &[&str]) -> IdentifiedLicense {
    IdentifiedLicense {
        license: OutputLicense::new("licenses", &id(package), file),
        id_from_name: from_name.map(spdx),
        ids_from_content: from_content.iter().map(|n| spdx(n)).collect(),
    }
}

fn preferred(name: &str) -> Licensee {
    Licensee { id: Some(spdx(name)), or_later: false, addition: None }
}

#[test]
fn missing_and_unexpected_files() {
    let deps = vec![package("a", None), package("b", None), package("b", None)];
    let outputs = vec![OutputLicense::new("licenses", &id("a"), "LICENSE"), OutputLicense::new("licenses", &id("z"), "LICENSE")];
    let (missing, unexpected) = missing_or_unexpected(&deps, &outputs);
    assert_eq!(missing.len(), 1);
    assert_eq!((missing[0].lint, missing[0].level), (Lint::Missing, Level::Error));
    assert_eq!(missing[0].item, "b_1.0.0");
    assert_eq!(unexpected.len(), 1);
    assert_eq!((unexpected[0].lint, unexpected[0].level), (Lint::Unexpected, Level::Info));
    assert_eq!(unexpected[0].item, "z_1.0.0_LICENSE");
}

#[test]
fn copyleft_unknown_and_misnamed_files() {
    let licenses = vec![
        identified("a", "LICENSE-MIT", Some("MIT"), &["MIT"]),
        identified("b", "COPYING", None, &["GPL-3.0"]),
        identified("c", "NOTICE", None, &[]),
        identified("d", "LICENSE-MIT", Some("MIT"), &["Apache-2.0"]),
    ];
    let copyleft = copy_left(&licenses);
    assert_eq!(copyleft.len(), 1);
    assert_eq!((copyleft[0].lint, copyleft[0].level), (Lint::CopyLeft, Level::Error));
    assert_eq!(copyleft[0].item, "b_1.0.0_COPYING");
    let unknown = unknown_type(&licenses);
    assert_eq!(unknown.len(), 1);
    assert_eq!(unknown[0].item, "c_1.0.0_NOTICE");
    let wrong = misnamed(&licenses);
    assert_eq!(wrong.len(), 1);
    assert_eq!((wrong[0].lint, wrong[0].level), (Lint::Misnamed, Level::Warning));
    assert_eq!(wrong[0].item, "d_1.0.0_LICENSE-MIT (MIT vs Apache)");
    assert_eq!(display_misnamed(&licenses[3]), "d_1.0.0_LICENSE-MIT (MIT vs Apache)");
}

#[test]
fn unmet_license_expressions() {
    let deps = vec![package("a", Some("MIT AND Apache-2.0")), package("b", Some("MIT OR Apache-2.0")), package("c", None)];
    let licenses = vec![identified("a", "LICENSE-MIT", Some("MIT"), &["MIT"]), identified("b", "LICENSE-APACHE", None, &["Apache-2.0"])];
    let unmet = unmet_spdx(&deps, &licenses);
    assert_eq!(unmet.len(), 1);
    assert_eq!((unmet[0].lint, unmet[0].level), (Lint::UnmetSpdx, Level::Error));
    assert_eq!(unmet[0].item, "a (MIT AND Apache-2.0)");
}

#[test]
fn no_licenses_and_no_cargo_license() {
    let deps = vec![package("a", None)];
    let r = no_licenses("./licenses", &deps, &[]).unwrap();
    assert_eq!((r.lint, r.level), (Lint::NoLicenses, Level::Warning));
    assert_eq!(r.item, "./licenses");
    assert!(no_licenses("./licenses", &[], &[]).is_none());
    assert!(no_licenses("./licenses", &deps, &[identified("a", "LICENSE", None, &[])]).is_none());
    let r = no_cargo_license(&package("root", None)).unwrap();
    assert_eq!((r.lint, r.level), (Lint::NoCargoLicense, Level::Warning));
    assert_eq!(r.item, "root_1.0.0");
    assert!(no_cargo_license(&package("root", Some("MIT"))).is_none());
}

#[test]
fn extraneous_files_of_an_alternative() {
    let deps = vec![package("a", Some("MIT OR Apache-2.0"))];
    let licenses = vec![identified("a", "LICENSE-MIT", Some("MIT"), &["MIT"]), identified("a", "LICENSE-APACHE", None, &["Apache-2.0"])];
    let reports = extraneous(&deps, &licenses);
    assert_eq!(reports.len(), 1);
    assert_eq!((reports[0].lint, reports[0].level), (Lint::Extraneous, Level::Info));
    assert_eq!(reports[0].item, "a_1.0.0_LICENSE-APACHE (not MIT OR Apache-2.0)");
    let both = vec![package("a", Some("MIT AND Apache-2.0"))];
    assert!(extraneous(&both, &licenses).is_empty());
}

#[test]
fn lists_report_if_any() {
    let r = vec!["b".to_string(), "a".to_string()].report_if_any(Lint::Missing, Level::Error).unwrap();
    assert_eq!(r.message, "2 Dependencies without any license files: a, b");
    assert!(Vec::<String>::new().report_if_any(Lint::Missing, Level::Error).is_none());
}

#[test]
fn preferred_licenses_sort_first() {
    let sorted = sort_requirements(&[preferred("MIT")], vec![spdx("Apache-2.0"), spdx("ISC"), spdx("MIT"), spdx("BSD-3-Clause")]);
    let names: Vec<String> = sorted.iter().map(|i| i.name.clone()).collect();
    assert_eq!(names[0], "MIT");
    assert!(sorted[1].index <= sorted[2].index && sorted[2].index <= sorted[3].index);
    let sorted = sort_requirements(&[preferred("ISC"), preferred("MIT")], vec![spdx("MIT"), spdx("Apache-2.0"), spdx("ISC")]);
    let names: Vec<String> = sorted.iter().map(|i| i.name.clone()).collect();
    assert_eq!(names, vec!["ISC".to_string(), "MIT".to_string(), "Apache-2.0".to_string()]);
    // A preference for later versions, or with an exception, names another licensee.
    let later = Licensee { id: Some(spdx("MIT")), or_later: true, addition: None };
    let sorted = sort_requirements(&[later], vec![spdx("MIT"), spdx("Apache-2.0")]);
    assert_eq!(sorted[0].name, "Apache-2.0");
    let licensee = licensee_from_id(&spdx("MIT"));
    assert!(!licensee.or_later && licensee.addition.is_none());
    assert_eq!(licensee.id.unwrap().name, "MIT");
}

#[test]
fn prune_keeps_the_preferred_alternative() {
    let deps = vec![package("a", Some("MIT OR Apache-2.0"))];
    let licenses = vec![identified("a", "LICENSE-MIT", Some("MIT"), &["MIT"]), identified("a", "LICENSE-APACHE", None, &["Apache-2.0"])];
    let removed = extraneous_requirements(&[preferred("MIT")], &deps[0], &licenses);
    assert_eq!(removed.len(), 1);
    assert_eq!(removed[0].file_name, "a_1.0.0_LICENSE-APACHE");
    let removed = extraneous_requirements(&[preferred("Apache-2.0")], &deps[0], &licenses);
    assert_eq!(removed.len(), 1);
    assert_eq!(removed[0].file_name, "a_1.0.0_LICENSE-MIT");
    // Without a preference, the SPDX list order decides: Apache-2.0 comes before MIT.
    let removed = extraneous_requirements(&[], &deps[0], &licenses);
    assert_eq!(removed[0].file_name, "a_1.0.0_LICENSE-MIT");
}

#[test]
fn prune_is_conservative() {
    let deps = vec![package("a", Some("MIT OR Apache-2.0")), package("b", None), package("c", Some("GPL-3.0-only"))];
    let licenses = vec![
        identified("a", "LICENSE-MIT", Some("MIT"), &["MIT"]),
        identified("a", "LICENSE-APACHE", None, &["Apache-2.0"]),
        identified("a", "NOTICE", None, &[]),
        identified("a", "COPYING-ISC", None, &["ISC"]),
        identified("b", "LICENSE-MIT", Some("MIT"), &["MIT"]),
        identified("c", "LICENSE-MIT", Some("MIT"), &["MIT"]),
    ];
    let removed = extraneous_licenses(&[preferred("MIT")], &deps, &licenses);
    let names: Vec<String> = removed.iter().map(|p| p.file_name.clone()).collect();
    assert_eq!(names, vec!["a_1.0.0_LICENSE-APACHE".to_string()]);
    assert_eq!(removing_message(removed.len()), "removing 1 extraneous license(s)");
}

#[test]
fn required_and_unrequired_files() {
    let licenses = vec![identified("a", "LICENSE-MIT", Some("MIT"), &["MIT"]), identified("a", "LICENSE-APACHE", None, &["Apache-2.0"])];
    let requirements = vec![Some(spdx("MIT")), None];
    assert!(required_license(&requirements, &licenses[0]));
    assert!(!required_license(&requirements, &licenses[1]));
    let either = package("a", Some("MIT OR Apache-2.0")).spdx_license.unwrap();
    let unneeded = unrequired_licenses(&id("a"), &either, &licenses, &requirements);
    assert_eq!(unneeded.len(), 1);
    assert_eq!(unneeded[0].file_name, "a_1.0.0_LICENSE-APACHE");
    assert!(unrequired_licenses(&id("zzz"), &either, &licenses, &requirements).is_empty());
    // A file whose licenses are not in the expression is never unneeded.
    let only_mit = package("a", Some("MIT")).spdx_license.unwrap();
    assert!(unrequired_licenses(&id("a"), &only_mit, &licenses, &requirements).is_empty());
    assert!(only_mit.names(&spdx("MIT")));
    assert!(!only_mit.names(&spdx("Apache-2.0")));
}

#[test]
fn summary_of_license_types() {
    let licenses = vec![
        identified("b", "LICENSE-MIT", Some("MIT"), &["MIT"]),
        identified("a", "LICENSE-MIT", Some("MIT"), &[]),
        identified("a", "COPYING", None, &["GPL-3.0"]),
        identified("c", "NOTICE", None, &[]),
        identified("a", "README", None, &[]),
    ];
    assert_eq!(unique_license_types(&licenses), vec!["GPL-3.0".to_string(), "MIT".to_string()]);
    let mit = license_type_summary("MIT", &licenses);
    assert_eq!(mit.license_type, "MIT");
    assert_eq!(mit.license_count, 2);
    assert_eq!(mit.package_count, 2);
    assert_eq!(mit.packages, "a, b");
    assert_eq!(mit.copyleft, "not copyleft");
    let gpl = license_type_summary("GPL-3.0", &licenses);
    assert_eq!(gpl.copyleft, "copyleft");
    assert_eq!(gpl.packages, "a");
    let unknown = unknown_license_type_summary(&licenses);
    assert_eq!(unknown.license_type, "<unknown>");
    assert_eq!(unknown.license_count, 2);
    assert_eq!(unknown.package_count, 1);
    assert_eq!(unknown.packages, "c");
    assert_eq!(unknown.copyleft, "<unknown>");
    let rows = summary_rows(&licenses).unwrap();
    assert_eq!(rows.len(), 3);
    assert_eq!(rows[0].license_type, "GPL-3.0");
    assert_eq!(rows[2].license_type, "<unknown>");
}

#[test]
fn collected_licenses_are_not_missing() {
    let deps = vec![package("serde_json", Some("MIT")), package("rand", None)];
    let written = OutputLicense::new("out", &deps[0].id, "LICENSE-MIT");
    let outputs = output_licenses_in("out", &vec![written.location_file_name(), "notes.txt".to_string()]);
    assert_eq!(outputs.len(), 1);
    let (missing, unexpected) = missing_or_unexpected(&deps, &outputs);
    assert_eq!(missing.len(), 1);
    assert_eq!(missing[0].item, "rand_1.0.0");
    assert!(unexpected.is_empty());
}

#[test]
fn identifiers_each_once() {
    let ids = vec![spdx("MIT"), spdx("Apache-2.0"), spdx("MIT"), spdx("ISC"), spdx("Apache-2.0")];
    let names: Vec<String> = distinct_by_index(&ids).iter().map(|i| i.name.clone()).collect();
    assert_eq!(names, vec!["MIT".to_string(), "Apache-2.0".to_string(), "ISC".to_string()]);
}

#[test]
fn many_copies_of_one_license_still_prune() {
    let dep = package("a", Some("MIT OR Apache-2.0"));
    let mut licenses: Vec<IdentifiedLicense> = (0..40).map(|i| identified("a", &format!("LICENSE-MIT-{i}"), Some("MIT"), &["MIT"])).collect();
    licenses.push(identified("a", "LICENSE-APACHE", None, &["Apache-2.0"]));
    let removed = extraneous_requirements(&[preferred("MIT")], &dep, &licenses);
    assert_eq!(removed.len(), 1);
    assert_eq!(removed[0].file_name, "a_1.0.0_LICENSE-APACHE");
}

#[test]
fn unmet_requirements_match_any_version_of_the_package() {
    let deps = vec![package("a", Some("MIT"))];
    let v2 = Version { major: 2, minor: 0, patch: 0, pre: String::new(), build: String::new() };
    let other_version = IdentifiedLicense {
        license: OutputLicense::new("licenses", &PackageId::new("a", v2), "LICENSE-MIT"),
        id_from_name: Some(spdx("MIT")),
        ids_from_content: vec![spdx("MIT")],
    };
    assert!(unmet_spdx(&deps, &[other_version]).is_empty());
    assert_eq!(unmet_spdx(&deps, &[identified("b", "LICENSE-MIT", Some("MIT"), &["MIT"])]).len(), 1);
}

const MANY: [&str; 40] = [
    "0BSD", "AAL", "ADSL", "AFL-1.1", "AFL-1.2", "AFL-2.0", "AFL-2.1", "AFL-3.0", "AGPL-1.0-only", "AGPL-3.0-only",
    "AMDPLPA", "AML", "AMPAS", "ANTLR-PD", "APAFML", "APL-1.0", "APSL-1.0", "APSL-1.1", "APSL-1.2", "APSL-2.0",
    "Abstyles", "Adobe-2006", "Adobe-Glyph", "Afmparse", "Aladdin", "Apache-1.0", "Apache-1.1", "Artistic-1.0",
    "Artistic-2.0", "BSD-1-Clause", "BSD-2-Clause", "BSD-3-Clause", "BSL-1.0", "Bahyph", "Barr", "Beerware",
    "BitTorrent-1.0", "Borceux", "CC0-1.0", "ISC",
];

#[test]
fn many_licenses_outside_the_expression_do_not_stop_pruning() {
    let dep = package("a", Some("MIT OR Apache-2.0"));
    let mut licenses: Vec<IdentifiedLicense> = MANY.iter().map(|n| identified("a", &format!("LICENSE-{n}"), None, &[n])).collect();
    assert_eq!(licenses.iter().map(|l| l.ids_from_content.len()).sum::<usize>(), 40);
    licenses.push(identified("a", "LICENSE-MIT", Some("MIT"), &["MIT"]));
    licenses.push(identified("a", "LICENSE-APACHE", None, &["Apache-2.0"]));
    let removed = extraneous_requirements(&[preferred("MIT")], &dep, &licenses);
    let names: Vec<String> = removed.iter().map(|p| p.file_name.clone()).collect();
    assert_eq!(names, vec!["a_1.0.0_LICENSE-APACHE".to_string()]);
    let reports = extraneous(&[dep], &licenses);
    assert!(reports.iter().any(|r| r.item.starts_with("a_1.0.0_LICENSE-0BSD")));
}
