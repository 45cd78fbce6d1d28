use licenses::files::{is_license as is_license_file, license_files_in};
use licenses::identity::{id_from_name, identify_license, ids_from_content, possible_ids_from_word, LicenseId};
use licenses::license::{from_output_folder, is_license, output_licenses_in, License, LicensePath, LocalLicense, OutputLicense};
use licenses::package_id::{PackageId, Version};

fn strings(items: &[&str]) -> Vec<String> {
    items.iter().map(|s| s.to_string()).collect()
}

fn version(major: u64, minor: u64, patch: u64) -> Version {
    Version { major, minor, patch, pre: String::new(), build: String::new() }
}

/// The version an output file name holds, read back by the library.
fn parse_version(text: &str) -> Option<Version> {
    let location = LicensePath { directory: "d".to_string(), file_name: format!("pkg_{text}_LICENSE") };
    from_output_folder(location).map(|l| l.package_id.version)
}

fn license_id(name: &str) -> Option<LicenseId> {
    ids_from_content(&vec![name.to_string()]).pop()
}

#[test]
fn package_id_replaces_underscores() {
    let id = PackageId::new("my_crate_name", version(1, 2, 3));
    assert_eq!(id.name, "my-crate-name");
    assert_eq!(id.to_text(), "my-crate-name 1.2.3");
}

#[test]
fn version_keeps_pre_release_and_build() {
    let v = parse_version("1.2.3-alpha.1+build.5").unwrap();
    assert_eq!((v.major, v.minor, v.patch), (1, 2, 3));
    assert_eq!(v.pre, "alpha.1");
    assert_eq!(v.build, "build.5");
    assert_eq!(v.to_text(), "1.2.3-alpha.1+build.5");
}

#[test]
fn invalid_versions_are_refused() {
    assert!(parse_version("1.2").is_none());
    assert!(parse_version("01.2.3").is_none());
    assert!(parse_version("one.two.three").is_none());
}

#[test]
fn keywords_match_ignoring_case() {
    let keywords = strings(&["license", "copying"]);
    assert!(is_license(&keywords, "LICENSE-MIT"));
    assert!(is_license(&keywords, "Copying.txt"));
    assert!(!is_license(&keywords, "README.md"));
    assert!(!is_license(&[], "LICENSE"));
}

#[test]
fn fixed_license_file_names() {
    let path = |name: &str| LicensePath { directory: "dir".to_string(), file_name: name.to_string() };
    assert!(is_license_file(&path("LICENSE")));
    assert!(is_license_file(&path("LICENSE.md")));
    assert!(is_license_file(&path("license-mit.TXT")));
    assert!(is_license_file(&path("COPYING")));
    assert!(is_license_file(&path("AUTHORS.txt")));
    assert!(!is_license_file(&path("LICENSE.rs")));
    assert!(!is_license_file(&path("license-bsd.md")));
    assert!(!is_license_file(&path("README")));
}

#[test]
fn license_files_of_a_folder() {
    let found = license_files_in("vendor", &strings(&["src", "LICENSE-MIT", "Cargo.toml", "COPYING"]));
    assert_eq!(found.len(), 2);
    assert_eq!(found[0].directory, "vendor");
    assert_eq!(found[0].file_name, "LICENSE-MIT");
    assert_eq!(found[1].file_name, "COPYING");
}

#[test]
fn output_file_name_round_trip() {
    let id = PackageId::new("serde_json", version(1, 0, 140));
    let written = OutputLicense::new("licenses", &id, "LICENSE-MIT");
    assert_eq!(written.location.directory, "licenses");
    assert_eq!(written.location_file_name(), "serde-json_1.0.140_LICENSE-MIT");
    let read = from_output_folder(written.location.duplicate()).unwrap();
    assert!(read.package_id.same_as(&id));
    assert_eq!(read.name, "LICENSE-MIT");
    assert_eq!(read.location.file_name, "serde-json_1.0.140_LICENSE-MIT");
}

#[test]
fn output_file_names_of_other_shapes_are_skipped() {
    assert!(from_output_folder(LicensePath { directory: "d".to_string(), file_name: "README".to_string() }).is_none());
    assert!(from_output_folder(LicensePath { directory: "d".to_string(), file_name: "a_b".to_string() }).is_none());
    assert!(from_output_folder(LicensePath { directory: "d".to_string(), file_name: "a_x.y_LICENSE".to_string() }).is_none());
    let found = output_licenses_in("out", &strings(&["anyhow_1.0.0_LICENSE-MIT", ".metadata.json", "x_1_2"]));
    assert_eq!(found.len(), 1);
    assert_eq!(found[0].package_id.name, "anyhow");
    assert_eq!(found[0].name, "LICENSE-MIT");
}

#[test]
fn license_package_id_and_file_name() {
    let license = License {
        package: "rand".to_string(),
        version: version(0, 8, 5),
        name: "LICENSE-APACHE".to_string(),
        location: LicensePath { directory: "vendor/rand".to_string(), file_name: "LICENSE-APACHE".to_string() },
    };
    assert_eq!(license.package_id(), "rand_0.8.5");
    assert_eq!(license.file_name(), "LICENSE-APACHE");
    let local = LocalLicense(LicensePath { directory: "vendor/rand".to_string(), file_name: "COPYING".to_string() });
    assert_eq!(local.name(), "COPYING");
    assert_eq!(local.path().directory, "vendor/rand");
}

#[test]
fn spdx_identifiers() {
    let mit = license_id("MIT").unwrap();
    assert_eq!(mit.name, "MIT");
    assert!(!mit.copyleft);
    let gpl = license_id("GPL-3.0").unwrap();
    assert!(gpl.copyleft);
    assert!(license_id("Not-A-License").is_none());
    assert_eq!(possible_ids_from_word("MIT")[0].name, "MIT");
    // No exact identifier is named `apache`; the imprecise names give Apache-2.0.
    let ids = possible_ids_from_word("apache");
    assert_eq!(ids.len(), 1);
    assert_eq!(ids[0].name, "Apache-2.0");
    assert!(possible_ids_from_word("LICENSE").is_empty());
}

#[test]
fn identifier_from_a_later_word_of_the_name() {
    let id = PackageId::new("anyhow", version(1, 0, 0));
    let license = OutputLicense::new("licenses", &id, "LICENSE-APACHE");
    assert_eq!(id_from_name(&license).unwrap().name, "Apache-2.0");
    let license = OutputLicense::new("licenses", &id, "README");
    assert!(id_from_name(&license).is_none());
}

#[test]
fn identifiers_from_name_and_content() {
    let id = PackageId::new("rand", version(0, 8, 5));
    let license = OutputLicense::new("licenses", &id, "LICENSE-MIT");
    assert_eq!(id_from_name(&license).unwrap().name, "MIT");
    let detected = strings(&["MIT", "NotALicense", "Apache-2.0"]);
    let ids = ids_from_content(&detected);
    assert_eq!(ids.len(), 2);
    assert_eq!(ids[0].name, "MIT");
    assert_eq!(ids[1].name, "Apache-2.0");
    let identified = identify_license(license, &detected);
    assert_eq!(identified.id_from_name.as_ref().unwrap().name, "MIT");
    let all = identified.ids();
    assert_eq!(all.len(), 3);
    assert_eq!(all[2].name, "MIT");
    assert!(identified.has(&license_id("Apache-2.0").unwrap()));
    assert!(!identified.has(&license_id("ISC").unwrap()));
}

#[test]
fn written_name_with_pre_release_reads_back() {
    let v = parse_version("2.0.0-rc.1+build.7").unwrap();
    let id = PackageId::new("my_pkg", v);
    let written = OutputLicense::new("out", &id, "LICENSE_WITH_UNDERSCORES");
    let read = from_output_folder(written.location.duplicate()).unwrap();
    assert!(read.package_id.same_as(&written.package_id));
    assert_eq!(read.name, written.name);
    assert_eq!(read.location.directory, written.location.directory);
    assert_eq!(read.location.file_name, written.location.file_name);
}
