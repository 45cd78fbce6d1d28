use licenses::config::SearchRemote;
use licenses::dependency::{should_search_remote as dependency_should_search_remote, warning_lines, Dependency};
use licenses::get::{copy_plan, dependencies_with_no_licenses, found_licenses_message, no_licenses_message, total_licenses};
use licenses::license::{License, LicensePath, LocalLicense};
use licenses::package::package_licenses::{local_licenses_in, remote_repository, should_search_remote, PackageLicenses};
use licenses::package::Package;
use licenses::package_id::{PackageId, Version};
use licenses::remote::{
    api_url_from_repo_url, license_file_urls_from_listing, remote_licenses_from_listing, trim_git_suffix, GithubFileInfo,
    RemoteLicense, RepositoryUrlError,
};

fn strings(items: &[&str]) -> Vec<String> {
    items.iter().map(|s| s.to_string()).collect()
}

fn version() -> Version {
    Version { major: 1, minor: 0, patch: 0, pre: String::new(), build: String::new() }
}

fn id(name: &str) -> PackageId {
    PackageId::new(name, version())
}

fn local(name: &str) -> LocalLicense {
    LocalLicense(LicensePath { directory: "vendor".to_string(), file_name: name.to_string() })
}

fn remote(name: &str) -> RemoteLicense {
    RemoteLicense { name: name.to_string(), location: format!("https://raw.example/{name}") }
}

fn file(name: &str, url: Option<&str>) -> GithubFileInfo {
    GithubFileInfo { name: name.to_string(), download_url: url.map(|u| u.to_string()) }
}

#[test]
fn api_url_of_github_repositories() {
    assert_eq!(
        api_url_from_repo_url("https://github.com/dtolnay/anyhow").unwrap(),
        "https://api.github.com/repos/dtolnay/anyhow/contents/"
    );
    assert_eq!(
        api_url_from_repo_url("https://github.com/rust-lang/cargo.git").unwrap(),
        "https://api.github.com/repos/rust-lang/cargo/contents/"
    );
    assert_eq!(
        api_url_from_repo_url("https://github.com/owner/repo/tree/main").unwrap(),
        "https://api.github.com/repos/owner/repo/contents/"
    );
}

#[test]
fn api_url_errors() {
    let e = api_url_from_repo_url("https://gitlab.com/owner/repo").unwrap_err();
    assert_eq!(e, RepositoryUrlError::NotGithub("https://gitlab.com/owner/repo".to_string()));
    assert_eq!(e.message(), "not a github.com URL: https://gitlab.com/owner/repo");
    assert_eq!(api_url_from_repo_url("not a url").unwrap_err(), RepositoryUrlError::InvalidUrl);
    assert_eq!(api_url_from_repo_url("https://github.com/owner").unwrap_err(), RepositoryUrlError::MissingRepo);
    assert_eq!(api_url_from_repo_url("https://github.com").unwrap_err(), RepositoryUrlError::MissingRepo);
    assert_eq!(RepositoryUrlError::MissingRepo.message(), "missing repo");
    assert_eq!(RepositoryUrlError::InvalidUrl.message(), "invalid URL");
}

#[test]
fn every_git_suffix_is_trimmed() {
    assert_eq!(trim_git_suffix("repo.git.git"), "repo");
    assert_eq!(trim_git_suffix("repo"), "repo");
    assert_eq!(trim_git_suffix(".git"), "");
    assert_eq!(trim_git_suffix("git"), "git");
}

#[test]
fn remote_listing_keeps_license_files() {
    let keywords = strings(&["license", "copying"]);
    let files = vec![file("LICENSE-MIT", Some("https://raw/LICENSE-MIT")), file("README.md", None), file("src", None)];
    let kept = remote_licenses_from_listing(&keywords, files).unwrap();
    assert_eq!(kept.len(), 1);
    assert_eq!(kept[0].name, "LICENSE-MIT");
    assert_eq!(kept[0].location, "https://raw/LICENSE-MIT");
    let files = vec![file("COPYING", None)];
    assert!(remote_licenses_from_listing(&keywords, files).is_none());
}

#[test]
fn remote_listing_urls_of_fixed_names() {
    let files = vec![file("LICENSE", Some("u1")), file("LICENSE.txt", None), file("notes", Some("u3")), file("COPYING", Some("u4"))];
    assert_eq!(license_file_urls_from_listing(&files), strings(&["u1", "u4"]));
}

#[test]
fn remote_search_decision() {
    let none: Vec<LocalLicense> = Vec::new();
    let some = vec![local("LICENSE")];
    assert!(!should_search_remote(&none, SearchRemote::Never));
    assert!(should_search_remote(&none, SearchRemote::IfNotLocal));
    assert!(!should_search_remote(&some, SearchRemote::IfNotLocal));
    assert!(should_search_remote(&some, SearchRemote::Always));
    let package = Package { id: id("a"), project_folder: "vendor/a".to_string(), repository: Some("https://github.com/o/a".to_string()), spdx_license: None };
    assert_eq!(remote_repository(&package, &none, SearchRemote::IfNotLocal).unwrap(), "https://github.com/o/a");
    assert!(remote_repository(&package, &some, SearchRemote::IfNotLocal).is_none());
    let no_repo = Package { id: id("b"), project_folder: "vendor/b".to_string(), repository: None, spdx_license: None };
    assert!(remote_repository(&no_repo, &none, SearchRemote::Always).is_none());
    let on_disk: Vec<License<LicensePath>> = Vec::new();
    assert!(dependency_should_search_remote(&on_disk, SearchRemote::IfNotLocal));
}

#[test]
fn local_license_files_by_keyword() {
    let found = local_licenses_in(&strings(&["license"]), "vendor/a", &strings(&["LICENSE-MIT", "src", "license.txt"]));
    assert_eq!(found.len(), 2);
    assert_eq!(found[0].name(), "LICENSE-MIT");
    assert_eq!(found[1].path().file_name, "license.txt");
    assert_eq!(found[1].path().directory, "vendor/a");
}

fn dependencies() -> Vec<PackageLicenses> {
    vec![
        PackageLicenses { id: id("a"), local_licenses: vec![local("LICENSE-MIT"), local("LICENSE-APACHE")], remote_licenses: Vec::new() },
        PackageLicenses { id: id("b"), local_licenses: Vec::new(), remote_licenses: Vec::new() },
        PackageLicenses { id: id("c"), local_licenses: Vec::new(), remote_licenses: vec![remote("COPYING")] },
        PackageLicenses { id: id("d"), local_licenses: Vec::new(), remote_licenses: Vec::new() },
    ]
}

#[test]
fn what_get_found() {
    let deps = dependencies();
    assert_eq!(total_licenses(&deps), 3);
    let none = dependencies_with_no_licenses(&deps);
    assert_eq!(none, strings(&["b 1.0.0", "d 1.0.0"]));
    assert_eq!(found_licenses_message(3, 4), "3 licenses found for 4 dependencies");
    assert_eq!(no_licenses_message(&none).unwrap(), "2 dependencies with no licenses: b 1.0.0, d 1.0.0");
    assert!(no_licenses_message(&Vec::new()).is_none());
}

#[test]
fn where_get_copies_files() {
    let deps = dependencies();
    let (local_copies, downloads) = copy_plan(&deps[0], "out");
    assert_eq!(local_copies.len(), 2);
    assert_eq!(local_copies[1].0.file_name, "LICENSE-APACHE");
    assert_eq!(local_copies[1].1.directory, "out");
    assert_eq!(local_copies[1].1.file_name, "a_1.0.0_LICENSE-APACHE");
    assert!(downloads.is_empty());
    let (local_copies, downloads) = copy_plan(&deps[2], "out");
    assert!(local_copies.is_empty());
    assert_eq!(downloads[0].0, "https://raw.example/COPYING");
    assert_eq!(downloads[0].1.file_name, "c_1.0.0_COPYING");
}

#[test]
fn warning_lines_of_a_search() {
    let path = LicensePath { directory: "v".to_string(), file_name: "LICENSE".to_string() };
    let deps = vec![
        Dependency {
            name: "a".to_string(),
            local_licenses: vec![License { package: "a".to_string(), version: version(), name: "LICENSE".to_string(), location: path }],
            remote_licenses: Vec::new(),
        },
        Dependency { name: "b".to_string(), local_licenses: Vec::new(), remote_licenses: Vec::new() },
    ];
    assert_eq!(warning_lines(&deps), strings(&["1 licenses found for 2 dependencies", "1 dependencies with no licenses: b"]));
    assert_eq!(warning_lines(&deps[..1]), strings(&["1 licenses found for 1 dependencies"]));
}
