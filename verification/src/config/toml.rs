//! The `[package.metadata.licenses]` table of the root package's `Cargo.toml`, once read.
use crate::config::SearchRemote;
use crate::filter::Filter;
use crate::identity::Licensee;
use vstd::prelude::*;

verus! {

/// The settings that every command shares, as the table gives them (each may be absent).
pub struct TomlCommon {
    pub license_directory: Option<String>,
    pub excluded: Option<Vec<String>>,
    pub build_dependencies: Option<bool>,
    pub dev_dependencies: Option<bool>,
    pub quiet: Option<bool>,
}

/// Every setting of the table (each may be absent).
pub struct TomlConfig {
    pub common: TomlCommon,
    pub search_remote: Option<SearchRemote>,
    pub keywords: Option<Vec<String>>,
    pub allow: Option<Vec<Filter>>,
    pub warn: Option<Vec<Filter>>,
    pub deny: Option<Vec<Filter>>,
    pub licenses: Option<Vec<Licensee>>,
}

} // verus!
