//! Collecting and checking the license files of a Rust project's dependencies.
pub mod text;
pub mod package_id;
pub mod license;
pub mod files;
pub mod lint;
pub mod report;
pub mod apache_license;
pub mod identity;
pub mod config;
pub mod filter;
pub mod reporter;
pub mod expression;
pub mod package;
pub mod summary;
pub mod remote;
pub mod get;
pub mod prune;
pub mod check;
pub mod settings;
pub mod dependency;
pub mod interrupt;
