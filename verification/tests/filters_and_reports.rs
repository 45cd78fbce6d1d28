use licenses::config::{CheckConfig, CommonConfig};
use licenses::filter::{Filter, FilterRules};
use licenses::lint::Lint;
use licenses::report::{CombineReports, Level, Report};
use licenses::reporter::StdoutReporter;

fn common() -> CommonConfig {
    CommonConfig {
        license_directory: "./licenses".to_string(),
        excluded: Vec::new(),
        build_dependencies: false,
        dev_dependencies: false,
        quiet: false,
    }
}

fn report(lint: Lint, level: Level, item: &str) -> Report {
    Report { lint, level, item: item.to_string() }
}

fn filter(text: &str) -> Filter {
    Filter::parse(text).unwrap()
}

#[test]
fn filters_parse_lint_names_ignoring_case() {
    let f = filter("missing");
    assert_eq!(f.lint, Lint::Missing);
    assert!(f.sub_filter.is_none());
    let f = filter("Copy-Left:gpl_crate");
    assert_eq!(f.lint, Lint::CopyLeft);
    assert_eq!(f.sub_filter.unwrap(), "gpl_crate");
    let f = filter("unknown-type:a:b");
    assert_eq!(f.lint, Lint::UnknownType);
    assert_eq!(f.sub_filter.unwrap(), "a:b");
}

#[test]
fn invalid_filters_name_the_lint_text() {
    assert_eq!(Filter::parse("bogus").err().unwrap(), "invalid variant: bogus");
    assert_eq!(Filter::parse("bogus:item").err().unwrap(), "invalid variant: bogus");
}

#[test]
fn lint_names_round_trip() {
    assert_eq!(Lint::from_name("no-cargo-license", false).unwrap(), Lint::NoCargoLicense);
    assert_eq!(Lint::from_name("MISSING", true).unwrap(), Lint::Missing);
    assert_eq!(Lint::from_name("MISSING", false).err().unwrap(), "invalid variant: MISSING");
    assert_eq!(Lint::UnmetSpdx.name(), "unmet-spdx");
    assert_eq!(Lint::Missing.docs(), "Dependencies without any license files");
}

#[test]
fn sub_filters_override_lint_filters() {
    let config = CheckConfig { common: common(), allow: vec![filter("missing")], warn: vec![filter("missing:foo")], deny: Vec::new() };
    let rules = FilterRules::new(&config);
    assert_eq!(rules.filter(report(Lint::Missing, Level::Error, "bar")).unwrap().level, Level::Info);
    assert_eq!(rules.filter(report(Lint::Missing, Level::Error, "foo")).unwrap().level, Level::Warning);
    assert_eq!(rules.filter(report(Lint::CopyLeft, Level::Error, "foo")).unwrap().level, Level::Error);
}

#[test]
fn deny_overrides_warn_overrides_allow() {
    let config = CheckConfig {
        common: common(),
        allow: vec![filter("unexpected"), filter("missing")],
        warn: vec![filter("unexpected"), filter("copy-left")],
        deny: vec![filter("unexpected")],
    };
    let rules = FilterRules::new(&config);
    assert_eq!(rules.filter(report(Lint::Unexpected, Level::Info, "x")).unwrap().level, Level::Error);
    assert_eq!(rules.filter(report(Lint::Missing, Level::Error, "x")).unwrap().level, Level::Info);
    assert_eq!(rules.filter(report(Lint::CopyLeft, Level::Error, "x")).unwrap().level, Level::Warning);
    // A sub filter at a lower level still wins over a lint filter at a higher one.
    let config = CheckConfig { common: common(), allow: vec![filter("copy-left:x")], warn: Vec::new(), deny: vec![filter("copy-left")] };
    let rules = FilterRules::new(&config);
    assert_eq!(rules.filter(report(Lint::CopyLeft, Level::Error, "x")).unwrap().level, Level::Info);
    assert_eq!(rules.filter(report(Lint::CopyLeft, Level::Info, "y")).unwrap().level, Level::Error);
}

#[test]
fn reports_combine_per_lint_and_level_in_order() {
    let reports = vec![
        report(Lint::Missing, Level::Error, "b"),
        report(Lint::CopyLeft, Level::Error, "x"),
        report(Lint::Missing, Level::Error, "a"),
        report(Lint::Unexpected, Level::Info, "u"),
        report(Lint::Missing, Level::Warning, "c"),
    ];
    let combined = reports.combine_reports();
    assert_eq!(combined.len(), 4);
    assert_eq!((combined[0].lint, combined[0].level), (Lint::Unexpected, Level::Info));
    assert_eq!((combined[1].lint, combined[1].level), (Lint::Missing, Level::Warning));
    assert_eq!((combined[2].lint, combined[2].level), (Lint::CopyLeft, Level::Error));
    assert_eq!((combined[3].lint, combined[3].level), (Lint::Missing, Level::Error));
    assert_eq!(combined[3].items, vec!["a".to_string(), "b".to_string()]);
    assert_eq!(combined[3].to_text(), "[missing] 2 Dependencies without any license files: a, b");
}

#[test]
fn no_reports_combine_to_none() {
    assert!(Vec::<Report>::new().combine_reports().is_empty());
}

#[test]
fn reporter_remembers_errors() {
    let mut reporter = StdoutReporter::new(false);
    assert_eq!(reporter.exit_code(), 0);
    assert_eq!(reporter.info("hello".to_string()).unwrap(), "hello");
    assert_eq!(reporter.warning("careful".to_string()).unwrap(), "careful");
    assert_eq!(reporter.exit_code(), 0);
    let combined = vec![report(Lint::CopyLeft, Level::Error, "gpl")].combine_reports();
    let (level, line) = reporter.report(&combined[0]).unwrap();
    assert_eq!(level, Level::Error);
    assert_eq!(line, "[copy-left] 1 Dependencies with at least one copy-left license: gpl");
    assert!(reporter.errored());
    assert_eq!(reporter.exit_code(), 1);
}

#[test]
fn quiet_reporter_shows_nothing_but_still_fails() {
    let mut reporter = StdoutReporter::new(true);
    assert!(reporter.info("hello".to_string()).is_none());
    assert!(reporter.error("bad".to_string()).is_none());
    assert_eq!(reporter.exit_code(), 1);
}

#[test]
fn reports_of_one_level_come_in_order_of_lint_name() {
    let combined = vec![
        report(Lint::NoLicenses, Level::Warning, "./licenses"),
        report(Lint::UnknownType, Level::Warning, "x"),
        report(Lint::NoCargoLicense, Level::Warning, "root_1.0.0"),
        report(Lint::Misnamed, Level::Warning, "m"),
    ]
    .combine_reports();
    let lints: Vec<Lint> = combined.iter().map(|r| r.lint).collect();
    assert_eq!(lints, vec![Lint::Misnamed, Lint::NoCargoLicense, Lint::NoLicenses, Lint::UnknownType]);
}
