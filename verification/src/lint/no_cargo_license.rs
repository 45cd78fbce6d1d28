//! A root package without a `license` field.
use crate::lint::Lint;
use crate::package::Package;
use crate::package_id::package_key;
use crate::report::{Level, Report};
use vstd::prelude::*;

verus! {

/// A warning naming the root package (by its key `name_version`) where it has no (valid)
/// SPDX `license` field.
pub fn no_cargo_license(root_package: &Package) -> (res: Option<Report>)
    ensures
        match res {
            None => root_package.spdx_license is Some,
            Some(r) => root_package.spdx_license is None && r@ == (Lint::NoCargoLicense, Level::Warning, package_key(root_package.id@)),
        },
{
    if root_package.spdx_license.is_some() {
        return None;
    }
    Some(Report { lint: Lint::NoCargoLicense, level: Level::Warning, item: root_package.id.key() })
}

} // verus!
