//! The settings given on the command line (each may be absent).
use crate::config::SearchRemote;
use crate::filter::Filter;
use crate::identity::Licensee;
use vstd::prelude::*;

verus! {

/// Settings that every command shares.
pub struct CommonArguments {
    pub license_directory: Option<String>,
    pub excluded: Option<Vec<String>>,
    pub build_dependencies: Option<bool>,
    pub dev_dependencies: Option<bool>,
    pub quiet: Option<bool>,
}

/// Settings of `get`.
pub struct GetArguments {
    pub common: CommonArguments,
    pub search_remote: Option<SearchRemote>,
    pub keywords: Option<Vec<String>>,
}

/// Settings of `check`.
pub struct CheckArguments {
    pub common: CommonArguments,
    pub allow: Option<Vec<Filter>>,
    pub warn: Option<Vec<Filter>>,
    pub deny: Option<Vec<Filter>>,
}

/// Settings of `prune`.
pub struct PruneArguments {
    pub common: CommonArguments,
    pub licenses: Option<Vec<Licensee>>,
}

/// A command with its settings.
pub enum Arguments {
    Get(GetArguments),
    Check(CheckArguments),
    Summary(CommonArguments),
    Prune(PruneArguments),
}

} // verus!
