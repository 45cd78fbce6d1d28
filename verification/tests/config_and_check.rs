use licenses::check::check_reports;
use licenses::config::arguments::{Arguments, CheckArguments, CommonArguments, GetArguments, PruneArguments};
use licenses::config::toml::{TomlCommon, TomlConfig};
use licenses::config::{config, CheckConfig, CommonConfig, Config, GetConfig, PruneConfig, SearchRemote};
use licenses::filter::Filter;
use licenses::identity::{ids_from_content, IdentifiedLicense};
use licenses::interrupt::Interrupt;
use licenses::license::OutputLicense;
use licenses::lint::Lint;
use licenses::package::{dependencies, root_package, DependencyKind, Metadata, MetadataPackage, NodeDep, Package};
use licenses::package_id::{PackageId, Version};
use licenses::report::Level;
use licenses::settings;
use std::sync::atomic::{AtomicBool, Ordering};
use std::sync::Arc;

fn strings(items: &[&str]) -> Vec<String> {
    items.iter().map(|s| s.to_string()).collect()
}

fn version() -> Version {
    Version { major: 1, minor: 0, patch: 0, pre: String::new(), build: String::new() }
}

fn no_toml() -> TomlConfig {
    TomlConfig {
        common: TomlCommon { license_directory: None, excluded: None, build_dependencies: None, dev_dependencies: None, quiet: None },
        search_remote: None,
        keywords: None,
        allow: None,
        warn: None,
        deny: None,
        licenses: None,
    }
}

fn no_args() -> CommonArguments {
    CommonArguments { license_directory: None, excluded: None, build_dependencies: None, dev_dependencies: None, quiet: None }
}

#[test]
fn defaults_when_nothing_is_set() {
    let c = CommonConfig::new(no_toml().common, no_args());
    assert_eq!(c.license_directory, "./licenses");
    assert!(c.excluded.is_empty());
    assert!(!c.build_dependencies && !c.dev_dependencies && !c.quiet);
    let g = GetConfig::new(no_toml(), GetArguments { common: no_args(), search_remote: None, keywords: None });
    assert_eq!(g.search_remote, SearchRemote::Never);
    assert_eq!(g.keywords, strings(&["license", "copying", "author", "copyright", "notice"]));
    assert_eq!(SearchRemote::default(), SearchRemote::Never);
}

#[test]
fn command_line_overrides_cargo_toml() {
    let mut toml = no_toml();
    toml.common.license_directory = Some("toml-dir".to_string());
    toml.common.quiet = Some(true);
    toml.common.excluded = Some(strings(&["x"]));
    toml.search_remote = Some(SearchRemote::Always);
    toml.keywords = Some(strings(&["legal"]));
    let mut args = no_args();
    args.license_directory = Some("cli-dir".to_string());
    args.quiet = Some(false);
    let g = GetConfig::new(toml, GetArguments { common: args, search_remote: Some(SearchRemote::IfNotLocal), keywords: None });
    assert_eq!(g.common.license_directory, "cli-dir");
    assert!(!g.common.quiet);
    assert_eq!(g.common.excluded, strings(&["x"]));
    assert_eq!(g.search_remote, SearchRemote::IfNotLocal);
    assert_eq!(g.keywords, strings(&["legal"]));
}

#[test]
fn filters_and_preferences_from_either_source() {
    let mut toml = no_toml();
    toml.allow = Some(vec![Filter::parse("missing").unwrap()]);
    toml.deny = Some(vec![Filter::parse("copy-left").unwrap()]);
    let args = CheckArguments { common: no_args(), allow: None, warn: None, deny: Some(Vec::new()) };
    let c = CheckConfig::new(toml, args);
    assert_eq!(c.allow.len(), 1);
    assert!(c.warn.is_empty());
    assert!(c.deny.is_empty());
    let p = PruneConfig::new(no_toml(), PruneArguments { common: no_args(), licenses: None });
    assert!(p.licenses.is_empty());
    match config(no_toml(), Arguments::Summary(no_args())) {
        Config::Summary(c) => assert_eq!(c.license_directory, "./licenses"),
        _ => panic!("wrong command"),
    }
    let c = config(no_toml(), Arguments::Check(CheckArguments { common: no_args(), allow: None, warn: None, deny: None }));
    assert_eq!(c.common().license_directory, "./licenses");
}

fn layer(project: &str, licenses: &str, excluded: &[&str], build: bool) -> settings::CommonConfig {
    settings::CommonConfig {
        project_directory: project.to_string(),
        license_directory: licenses.to_string(),
        excluded: strings(excluded),
        build_dependencies: build,
        dev_dependencies: false,
        quiet: false,
    }
}

#[test]
fn layered_settings() {
    assert_eq!(settings::default_project_directory(), "./");
    assert_eq!(settings::default_output_directory(), "./licenses/");
    let lower = layer("proj", "out", &["a"], true);
    let merged = lower.overwrite_with(layer("./", "./licenses/", &["b"], false));
    assert_eq!(merged.project_directory, "proj");
    assert_eq!(merged.license_directory, "out");
    assert_eq!(merged.excluded, strings(&["a", "b"]));
    assert!(merged.build_dependencies);
    // Paths compare as paths: `.` and `./licenses` are the default folders.
    let merged = layer("proj", "out", &[], false).overwrite_with(layer(".", "./licenses", &[], false));
    assert_eq!(merged.project_directory, "proj");
    assert_eq!(merged.license_directory, "out");
    let merged = layer("proj", "out", &[], false).overwrite_with(layer("other", "elsewhere", &[], false));
    assert_eq!(merged.project_directory, "other");
    assert_eq!(merged.license_directory, "elsewhere");
    let search = settings::SearchConfig { search_remote: Some(SearchRemote::Always), keywords: strings(&["license"]) }
        .overwrite_with(settings::SearchConfig { search_remote: None, keywords: Vec::new() });
    assert_eq!(search.search_remote, Some(SearchRemote::Always));
    assert_eq!(search.keywords, strings(&["license"]));
    let filters = settings::FilterConfig { allow: vec![Filter::parse("missing").unwrap()], warn: Vec::new(), deny: Vec::new() }
        .overwrite_with(settings::FilterConfig { allow: vec![Filter::parse("unexpected").unwrap()], warn: Vec::new(), deny: Vec::new() });
    assert_eq!(filters.allow.len(), 2);
    assert_eq!(filters.allow[1].lint, Lint::Unexpected);
}

#[test]
fn interrupt_flag() {
    let flag = Arc::new(AtomicBool::new(false));
    let interrupt = Interrupt::watching(flag.clone());
    assert!(interrupt.should_continue());
    flag.store(true, Ordering::SeqCst);
    assert!(!interrupt.should_continue());
}

fn meta_package(name: &str, license: Option<&str>, deps: Vec<NodeDep>) -> MetadataPackage {
    MetadataPackage {
        name: name.to_string(),
        version: version(),
        repository: None,
        manifest_directory: format!("/src/{name}"),
        license: license.map(|l| l.to_string()),
        deps,
    }
}

fn dep(pkg: usize, kind: DependencyKind) -> NodeDep {
    NodeDep { pkg, dep_kinds: vec![kind] }
}

fn metadata() -> Metadata {
    Metadata {
        packages: vec![
            meta_package("root", None, vec![dep(1, DependencyKind::Normal), dep(2, DependencyKind::Development), dep(3, DependencyKind::Build)]),
            meta_package("serde_json", Some("MIT OR Apache-2.0"), vec![dep(4, DependencyKind::Normal)]),
            meta_package("tester", Some("MIT"), Vec::new()),
            meta_package("builder", Some("MIT"), Vec::new()),
            meta_package("itoa", Some("MIT"), Vec::new()),
            meta_package("unused", Some("MIT"), Vec::new()),
        ],
        workspace_members: vec![0],
    }
}

fn common(excluded: &[&str], dev: bool) -> CommonConfig {
    CommonConfig { license_directory: "./licenses".to_string(), excluded: strings(excluded), build_dependencies: false, dev_dependencies: dev, quiet: false }
}

fn names(packages: &[Package]) -> Vec<String> {
    packages.iter().map(|p| p.id.name.clone()).collect()
}

#[test]
fn dependencies_follow_included_kinds() {
    let meta = metadata();
    assert_eq!(names(&dependencies(&common(&[], false), &meta)), strings(&["serde-json", "itoa"]));
    assert_eq!(names(&dependencies(&common(&[], true), &meta)), strings(&["serde-json", "tester", "itoa"]));
    assert_eq!(names(&dependencies(&common(&["serde_json"], false), &meta)), Vec::<String>::new());
    let root = root_package(&meta);
    assert_eq!(root.id.name, "root");
    assert!(root.spdx_license.is_none());
    let serde = &dependencies(&common(&[], false), &meta)[0];
    assert_eq!(serde.project_folder, "/src/serde_json");
    assert_eq!(serde.spdx_license.as_ref().unwrap().text, "MIT OR Apache-2.0");
}

fn id(name: &str) -> PackageId {
    PackageId::new(name, version())
}

#[test]
fn check_combines_every_lint() {
    let meta = metadata();
    let outputs = vec![
        OutputLicense::new("./licenses", &id("serde_json"), "LICENSE-MIT"),
        OutputLicense::new("./licenses", &id("stale"), "LICENSE"),
    ];
    let identified: Vec<IdentifiedLicense> = outputs
        .iter()
        .map(|o| IdentifiedLicense { license: o.duplicate(), id_from_name: None, ids_from_content: ids_from_content(&strings(&["MIT"])) })
        .collect();
    let config = CheckConfig { common: common(&[], false), allow: Vec::new(), warn: vec![Filter::parse("missing:itoa_1.0.0").unwrap()], deny: Vec::new() };
    let reports = check_reports(&config, &meta, &outputs, &identified);
    let summary: Vec<(Lint, Level, Vec<String>)> = reports.iter().map(|r| (r.lint, r.level, r.items.clone())).collect();
    assert_eq!(
        summary,
        vec![
            (Lint::Unexpected, Level::Info, strings(&["stale_1.0.0_LICENSE"])),
            (Lint::Missing, Level::Warning, strings(&["itoa_1.0.0"])),
            (Lint::NoCargoLicense, Level::Warning, strings(&["root_1.0.0"])),
            (Lint::UnmetSpdx, Level::Error, strings(&["itoa (MIT)"])),
        ]
    );
}
