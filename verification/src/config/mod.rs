//! The settings of each command: the command line first, then `Cargo.toml`, then defaults.
pub mod arguments;
pub mod toml;

use crate::config::arguments::{Arguments, CheckArguments, CommonArguments, GetArguments, PruneArguments};
use crate::config::toml::{TomlCommon, TomlConfig};
use crate::filter::{filter_views, Filter};
use crate::identity::Licensee;
use crate::text::{owned, views};
use vstd::prelude::*;

verus! {

/// The license folder when neither the command line nor `Cargo.toml` names one.
pub open spec fn default_license_directory() -> Seq<char> {
    "./licenses"@
}

/// The file-name keywords when neither the command line nor `Cargo.toml` gives any.
pub open spec fn default_keywords() -> Seq<Seq<char>> {
    seq!["license"@, "copying"@, "author"@, "copyright"@, "notice"@]
}

/// The first of two optional settings that is present, or else the default.
pub open spec fn first_or<T>(first: Option<T>, second: Option<T>, default: T) -> T {
    match first {
        Some(x) => x,
        None => match second {
            Some(y) => y,
            None => default,
        },
    }
}

/// The views of an optional vector of strings.
pub open spec fn opt_views(v: Option<Vec<String>>) -> Option<Seq<Seq<char>>> {
    match v {
        Some(x) => Some(views(x@)),
        None => None,
    }
}

/// The views of an optional vector of filters.
pub open spec fn opt_filter_views(v: Option<Vec<Filter>>) -> Option<Seq<(crate::lint::Lint, Option<Seq<char>>)>> {
    match v {
        Some(x) => Some(filter_views(x@)),
        None => None,
    }
}

/// Whether and when to look for license files in a package's GitHub repository.
#[derive(Clone, Copy, Debug, PartialEq, Eq, Structural)]
pub enum SearchRemote {
    /// never search remotely for license files, only locally
    Never,
    /// search remotely for license files only if none are found locally
    IfNotLocal,
    /// always search remotely licenses, even if one or more found locally
    Always,
}

impl Default for SearchRemote {
    fn default() -> (res: SearchRemote)
        ensures
            res == SearchRemote::Never,
    {
        SearchRemote::Never
    }
}

/// The settings of `get`.
pub struct GetConfig {
    pub common: CommonConfig,
    pub search_remote: SearchRemote,
    pub keywords: Vec<String>,
}

/// Whether `c` holds the settings of `get` that `Cargo.toml` and the command line give.
pub open spec fn is_get_config(c: GetConfig, toml: TomlConfig, args: GetArguments) -> bool {
    &&& c.common@ == common_config(toml.common, args.common)
    &&& c.search_remote == first_or(args.search_remote, toml.search_remote, SearchRemote::Never)
    &&& views(c.keywords@) == first_or(opt_views(args.keywords), opt_views(toml.keywords), default_keywords())
}

impl GetConfig {
    /// The settings of `get`: each from the command line, else from `Cargo.toml`, else
    /// the default (never search remotely; the keywords license, copying, author,
    /// copyright and notice).
    pub fn new(toml: TomlConfig, args: GetArguments) -> (res: GetConfig)
        ensures
            is_get_config(res, toml, args),
    {
        let common = CommonConfig::new(toml.common, args.common);
        let search_remote = match args.search_remote {
            Some(s) => s,
            None => match toml.search_remote {
                Some(s) => s,
                None => SearchRemote::default(),
            },
        };
        let keywords = match args.keywords {
            Some(k) => k,
            None => match toml.keywords {
                Some(k) => k,
                None => default_keyword_list(),
            },
        };
        GetConfig { common, search_remote, keywords }
    }
}

fn default_keyword_list() -> (res: Vec<String>)
    ensures
        views(res@) == default_keywords(),
{
    let mut v: Vec<String> = Vec::new();
    v.push(owned("license"));
    v.push(owned("copying"));
    v.push(owned("author"));
    v.push(owned("copyright"));
    v.push(owned("notice"));
    assert(views(v@) =~= default_keywords());
    v
}

/// The settings of `check`.
pub struct CheckConfig {
    pub common: CommonConfig,
    pub allow: Vec<Filter>,
    pub warn: Vec<Filter>,
    pub deny: Vec<Filter>,
}

/// A filter list: from the command line, else from `Cargo.toml`, else empty.
fn pick_filters(args: Option<Vec<Filter>>, toml: Option<Vec<Filter>>) -> (res: Vec<Filter>)
    ensures
        filter_views(res@) == first_or(opt_filter_views(args), opt_filter_views(toml), Seq::empty()),
{
    match args {
        Some(f) => f,
        None => match toml {
            Some(f) => f,
            None => {
                let v: Vec<Filter> = Vec::new();
                assert(filter_views(v@) =~= Seq::empty());
                v
            },
        },
    }
}

/// Whether `c` holds the settings of `check` that `Cargo.toml` and the command line give.
pub open spec fn is_check_config(c: CheckConfig, toml: TomlConfig, args: CheckArguments) -> bool {
    &&& c.common@ == common_config(toml.common, args.common)
    &&& filter_views(c.allow@) == first_or(opt_filter_views(args.allow), opt_filter_views(toml.allow), Seq::empty())
    &&& filter_views(c.warn@) == first_or(opt_filter_views(args.warn), opt_filter_views(toml.warn), Seq::empty())
    &&& filter_views(c.deny@) == first_or(opt_filter_views(args.deny), opt_filter_views(toml.deny), Seq::empty())
}

impl CheckConfig {
    /// The settings of `check`: each filter list from the command line, else from
    /// `Cargo.toml`, else empty.
    pub fn new(toml: TomlConfig, args: CheckArguments) -> (res: CheckConfig)
        ensures
            is_check_config(res, toml, args),
    {
        CheckConfig {
            common: CommonConfig::new(toml.common, args.common),
            allow: pick_filters(args.allow, toml.allow),
            warn: pick_filters(args.warn, toml.warn),
            deny: pick_filters(args.deny, toml.deny),
        }
    }
}

/// The settings of `prune`.
pub struct PruneConfig {
    pub common: CommonConfig,
    pub licenses: Vec<Licensee>,
}

/// Whether `c` holds the settings of `prune` that `Cargo.toml` and the command line give.
pub open spec fn is_prune_config(c: PruneConfig, toml: TomlConfig, args: PruneArguments) -> bool {
    &&& c.common@ == common_config(toml.common, args.common)
    &&& c.licenses@ == first_or(
        match args.licenses { Some(l) => Some(l@), None => None },
        match toml.licenses { Some(l) => Some(l@), None => None },
        Seq::empty(),
    )
}

impl PruneConfig {
    /// The settings of `prune`: the preferred licenses from the command line, else from
    /// `Cargo.toml`, else none.
    pub fn new(toml: TomlConfig, args: PruneArguments) -> (res: PruneConfig)
        ensures
            is_prune_config(res, toml, args),
    {
        let licenses = match args.licenses {
            Some(l) => l,
            None => match toml.licenses {
                Some(l) => l,
                None => Vec::new(),
            },
        };
        PruneConfig { common: CommonConfig::new(toml.common, args.common), licenses }
    }
}

/// The settings that every command shares.
pub struct CommonConfig {
    pub license_directory: String,
    pub excluded: Vec<String>,
    pub build_dependencies: bool,
    pub dev_dependencies: bool,
    pub quiet: bool,
}

/// Shared settings as plain values.
pub type CommonConfigView = (Seq<char>, Seq<Seq<char>>, bool, bool, bool);

impl View for CommonConfig {
    type V = CommonConfigView;

    open spec fn view(&self) -> CommonConfigView {
        (self.license_directory@, views(self.excluded@), self.build_dependencies, self.dev_dependencies, self.quiet)
    }
}

/// The shared settings that the command line and `Cargo.toml` give together: each from
/// the command line, else from `Cargo.toml`, else the default (`./licenses`, nothing
/// excluded, no build or dev dependencies, not quiet).
pub open spec fn common_config(toml: TomlCommon, args: CommonArguments) -> CommonConfigView {
    (
        first_or(
            match args.license_directory { Some(d) => Some(d@), None => None },
            match toml.license_directory { Some(d) => Some(d@), None => None },
            default_license_directory(),
        ),
        first_or(opt_views(args.excluded), opt_views(toml.excluded), Seq::empty()),
        first_or(args.build_dependencies, toml.build_dependencies, false),
        first_or(args.dev_dependencies, toml.dev_dependencies, false),
        first_or(args.quiet, toml.quiet, false),
    )
}

fn first_flag(first: Option<bool>, second: Option<bool>) -> (res: bool)
    ensures
        res == first_or(first, second, false),
{
    match first {
        Some(x) => x,
        None => match second {
            Some(y) => y,
            None => false,
        },
    }
}

impl CommonConfig {
    /// The shared settings: each from the command line, else from `Cargo.toml`, else the
    /// default.
    pub fn new(toml: TomlCommon, args: CommonArguments) -> (res: CommonConfig)
        ensures
            res@ == common_config(toml, args),
    {
        let ghost spec_toml = toml;
        let ghost spec_args = args;
        let license_directory = match args.license_directory {
            Some(d) => d,
            None => match toml.license_directory {
                Some(d) => d,
                None => owned("./licenses"),
            },
        };
        let excluded = match args.excluded {
            Some(e) => e,
            None => match toml.excluded {
                Some(e) => e,
                None => {
                    let v: Vec<String> = Vec::new();
                    assert(views(v@) =~= Seq::empty());
                    v
                },
            },
        };
        CommonConfig {
            license_directory,
            excluded,
            build_dependencies: first_flag(args.build_dependencies, toml.build_dependencies),
            dev_dependencies: first_flag(args.dev_dependencies, toml.dev_dependencies),
            quiet: first_flag(args.quiet, toml.quiet),
        }
    }
}

/// The settings of one command.
pub enum Config {
    Get(GetConfig),
    Check(CheckConfig),
    Summary(CommonConfig),
    Prune(PruneConfig),
}

impl Config {
    /// The shared settings of this command.
    pub fn common(&self) -> (res: &CommonConfig)
        ensures
            res == match self {
                Config::Get(c) => &c.common,
                Config::Check(c) => &c.common,
                Config::Summary(c) => c,
                Config::Prune(c) => &c.common,
            },
    {
        match self {
            Config::Get(config) => &config.common,
            Config::Check(config) => &config.common,
            Config::Summary(common) => common,
            Config::Prune(config) => &config.common,
        }
    }
}

/// The settings of the command that `args` names, given `Cargo.toml`'s table.
pub fn config(toml: TomlConfig, args: Arguments) -> (res: Config)
    ensures
        match (args, res) {
            (Arguments::Get(a), Config::Get(c)) => is_get_config(c, toml, a),
            (Arguments::Check(a), Config::Check(c)) => is_check_config(c, toml, a),
            (Arguments::Summary(a), Config::Summary(c)) => c@ == common_config(toml.common, a),
            (Arguments::Prune(a), Config::Prune(c)) => is_prune_config(c, toml, a),
            _ => false,
        },
{
    match args {
        Arguments::Get(args) => Config::Get(GetConfig::new(toml, args)),
        Arguments::Check(args) => Config::Check(CheckConfig::new(toml, args)),
        Arguments::Summary(args) => Config::Summary(CommonConfig::new(toml.common, args)),
        Arguments::Prune(args) => Config::Prune(PruneConfig::new(toml, args)),
    }
}

} // verus!
