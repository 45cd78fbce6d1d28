//! No license file at all for a project with dependencies.
use crate::identity::IdentifiedLicense;
use crate::lint::Lint;
use crate::package::Package;
use crate::report::{Level, Report};
use vstd::prelude::*;

verus! {

/// A warning naming the license folder where there are dependencies but no license
/// files at all.
pub fn no_licenses(license_directory: &str, dependencies: &[Package], licenses: &[IdentifiedLicense]) -> (res: Option<Report>)
    ensures
        match res {
            None => dependencies@.len() == 0 || licenses@.len() > 0,
            Some(r) => dependencies@.len() > 0 && licenses@.len() == 0 && r@ == (Lint::NoLicenses, Level::Warning, license_directory@),
        },
{
    if dependencies.len() == 0 || licenses.len() > 0 {
        return None;
    }
    Some(Report { lint: Lint::NoLicenses, level: Level::Warning, item: license_directory.to_owned() })
}

} // verus!
