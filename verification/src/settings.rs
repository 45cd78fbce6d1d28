//! Settings in layers: those from `[package.metadata.licenses]`, overwritten by those
//! given on the command line.
use crate::config::SearchRemote;
use crate::filter::{filter_views, Filter};
use crate::text::{owned, views};
use vstd::prelude::*;

verus! {

broadcast use vstd::seq_lib::group_seq_properties;

/// What `Path == Path` gives for the paths of two texts (`std::path::Path` compares them
/// component by component, so that, for instance, a trailing `/` makes no difference).
pub uninterp spec fn path_eq(a: Seq<char>, b: Seq<char>) -> bool;

/// Whether two texts name the same path: equal texts always do (`Path` is `Eq`, whose
/// equality is reflexive); other texts as `Path == Path` compares them.
pub open spec fn same_path(a: Seq<char>, b: Seq<char>) -> bool {
    a == b || path_eq(a, b)
}

/// `Path == Path` on the paths of two texts. Claimed: the result is named `path_eq` of
/// the two texts where they differ, and is `true` where they are equal (`Path` is `Eq`).
/// How components are compared is not stated.
#[verifier::external_body]
fn paths_equal(a: &str, b: &str) -> (res: bool)
    ensures
        res == (a@ == b@ || path_eq(a@, b@)),
{
    std::path::Path::new(a) == std::path::Path::new(b)
}

/// The project folder when none is set: `./`.
pub fn default_project_directory() -> (res: String)
    ensures
        res@ == "./"@,
{
    owned("./")
}

/// The output folder when none is set: `./licenses/`.
pub fn default_output_directory() -> (res: String)
    ensures
        res@ == "./licenses/"@,
{
    owned("./licenses/")
}

/// Settings that every command shares.
pub struct CommonConfig {
    /// The root folder of the project to find dependencies for.
    pub project_directory: String,
    /// The folder to store license files in.
    pub license_directory: String,
    /// Package names to exclude from the search (with their dependencies).
    pub excluded: Vec<String>,
    /// Whether dependencies only used during build count.
    pub build_dependencies: bool,
    /// Whether dependencies only used during development count.
    pub dev_dependencies: bool,
    /// Whether nothing is logged.
    pub quiet: bool,
}

/// Common settings as plain values.
pub type CommonView = (Seq<char>, Seq<char>, Seq<Seq<char>>, bool, bool, bool);

impl View for CommonConfig {
    type V = CommonView;

    open spec fn view(&self) -> CommonView {
        (
            self.project_directory@,
            self.license_directory@,
            views(self.excluded@),
            self.build_dependencies,
            self.dev_dependencies,
            self.quiet,
        )
    }
}

/// A path of the upper layer wins unless it is the default path.
pub open spec fn layered_path(lower: Seq<char>, upper: Seq<char>, default: Seq<char>) -> Seq<char> {
    if !same_path(upper, default) { upper } else { lower }
}

/// The common settings of `lower` overwritten by those of `upper`: each folder of
/// `upper` where it is not the default one; the excluded names of both; each switch on
/// where either turns it on.
pub open spec fn layered_common(lower: CommonView, upper: CommonView) -> CommonView {
    (
        layered_path(lower.0, upper.0, "./"@),
        layered_path(lower.1, upper.1, "./licenses/"@),
        lower.2 + upper.2,
        lower.3 || upper.3,
        lower.4 || upper.4,
        lower.5 || upper.5,
    )
}

/// The common settings that overwrite nothing: the default folders, nothing excluded,
/// every switch off.
pub open spec fn default_common() -> CommonView {
    ("./"@, "./licenses/"@, Seq::empty(), false, false, false)
}

/// Overwriting is associative: overwriting `a` with `b` and then with `c` gives the same
/// settings as overwriting `a` with `b` overwritten by `c`.
pub proof fn lemma_overwrite_associative(a: CommonView, b: CommonView, c: CommonView)
    ensures
        layered_common(layered_common(a, b), c) == layered_common(a, layered_common(b, c)),
{
    assert(a.2 + b.2 + c.2 =~= a.2 + (b.2 + c.2));
}

/// The default settings overwrite nothing: overwriting with them keeps every setting.
/// Overwriting them keeps every setting of the upper layer, except a folder that names
/// the same path as the default folder in other words (such as `.` for `./`), where the
/// default text stays.
pub proof fn lemma_overwrite_default_identity(x: CommonView)
    ensures
        layered_common(x, default_common()) == x,
        (x.0 == "./"@ || !same_path(x.0, "./"@)) && (x.1 == "./licenses/"@ || !same_path(x.1, "./licenses/"@))
            ==> layered_common(default_common(), x) == x,
{
    assert(x.2 + Seq::<Seq<char>>::empty() =~= x.2);
    assert(Seq::<Seq<char>>::empty() + x.2 =~= x.2);
}

impl CommonConfig {
    /// These settings overwritten by `other`.
    pub fn overwrite_with(self, other: Self) -> (res: Self)
        ensures
            res@ == layered_common(self@, other@),
    {
        let project_default = default_project_directory();
        let output_default = default_output_directory();
        let project_directory = if !paths_equal(other.project_directory.as_str(), project_default.as_str()) {
            other.project_directory
        } else {
            self.project_directory
        };
        let license_directory = if !paths_equal(other.license_directory.as_str(), output_default.as_str()) {
            other.license_directory
        } else {
            self.license_directory
        };
        let mut excluded = self.excluded;
        let mut more = other.excluded;
        let ghost a = views(excluded@);
        let ghost b = views(more@);
        excluded.append(&mut more);
        assert(views(excluded@) =~= a + b);
        CommonConfig {
            project_directory,
            license_directory,
            excluded,
            build_dependencies: self.build_dependencies || other.build_dependencies,
            dev_dependencies: self.dev_dependencies || other.dev_dependencies,
            quiet: self.quiet || other.quiet,
        }
    }
}

/// Settings of the search for license files.
pub struct SearchConfig {
    /// Whether to search the package's repository too.
    pub search_remote: Option<SearchRemote>,
    /// Keywords that a license file's name holds.
    pub keywords: Vec<String>,
}

impl SearchConfig {
    /// These settings overwritten by `other`: its remote search where set, its keywords
    /// where it has any.
    pub fn overwrite_with(self, other: Self) -> (res: Self)
        ensures
            res.search_remote == (match other.search_remote { Some(s) => Some(s), None => self.search_remote }),
            views(res.keywords@) == (if other.keywords@.len() == 0 { views(self.keywords@) } else { views(other.keywords@) }),
    {
        SearchConfig {
            search_remote: match other.search_remote {
                Some(s) => Some(s),
                None => self.search_remote,
            },
            keywords: if other.keywords.len() == 0 { self.keywords } else { other.keywords },
        }
    }
}

/// The filters of `check`: lints (or lint items) allowed, warned of and denied.
pub struct FilterConfig {
    pub allow: Vec<Filter>,
    pub warn: Vec<Filter>,
    pub deny: Vec<Filter>,
}

fn concat_filters(a: Vec<Filter>, b: Vec<Filter>) -> (res: Vec<Filter>)
    ensures
        filter_views(res@) == filter_views(a@) + filter_views(b@),
{
    let mut a = a;
    let mut b = b;
    let ghost x = filter_views(a@);
    let ghost y = filter_views(b@);
    a.append(&mut b);
    assert(filter_views(a@) =~= x + y);
    a
}

impl FilterConfig {
    /// These filters followed by those of `other` (later filters take precedence).
    pub fn overwrite_with(self, other: Self) -> (res: Self)
        ensures
            filter_views(res.allow@) == filter_views(self.allow@) + filter_views(other.allow@),
            filter_views(res.warn@) == filter_views(self.warn@) + filter_views(other.warn@),
            filter_views(res.deny@) == filter_views(self.deny@) + filter_views(other.deny@),
    {
        FilterConfig {
            allow: concat_filters(self.allow, other.allow),
            warn: concat_filters(self.warn, other.warn),
            deny: concat_filters(self.deny, other.deny),
        }
    }
}

/// All settings, as read from `[package.metadata.licenses]`.
pub struct Config {
    pub common: CommonConfig,
    pub filter: FilterConfig,
    pub search: SearchConfig,
}

/// The settings of `get` on the command line.
pub struct GetArguments {
    pub common: CommonConfig,
    pub search: SearchConfig,
}

/// The settings of `check` on the command line.
pub struct CheckArguments {
    pub common: CommonConfig,
    pub filter: FilterConfig,
}

/// The settings of `summary` on the command line.
pub struct SummaryArguments {
    pub common: CommonConfig,
}

impl GetArguments {
    /// The settings of `config` overwritten by these: common and search settings.
    pub fn overwrite(self, config: Config) -> (res: Config)
        ensures
            res.common@ == layered_common(config.common@, self.common@),
            res.search.search_remote == (match self.search.search_remote { Some(s) => Some(s), None => config.search.search_remote }),
            views(res.search.keywords@) == (if self.search.keywords@.len() == 0 { views(config.search.keywords@) } else { views(self.search.keywords@) }),
            res.filter == config.filter,
    {
        Config {
            common: config.common.overwrite_with(self.common),
            search: config.search.overwrite_with(self.search),
            filter: config.filter,
        }
    }
}

impl CheckArguments {
    /// The settings of `config` overwritten by these: common settings and filters.
    pub fn overwrite(self, config: Config) -> (res: Config)
        ensures
            res.common@ == layered_common(config.common@, self.common@),
            filter_views(res.filter.allow@) == filter_views(config.filter.allow@) + filter_views(self.filter.allow@),
            filter_views(res.filter.warn@) == filter_views(config.filter.warn@) + filter_views(self.filter.warn@),
            filter_views(res.filter.deny@) == filter_views(config.filter.deny@) + filter_views(self.filter.deny@),
            res.search == config.search,
    {
        Config {
            common: config.common.overwrite_with(self.common),
            filter: config.filter.overwrite_with(self.filter),
            search: config.search,
        }
    }
}

impl SummaryArguments {
    /// The settings of `config` with its common settings overwritten by these.
    pub fn overwrite(self, config: Config) -> (res: Config)
        ensures
            res.common@ == layered_common(config.common@, self.common@),
            res.filter == config.filter,
            res.search == config.search,
    {
        Config { common: config.common.overwrite_with(self.common), filter: config.filter, search: config.search }
    }
}

} // verus!
