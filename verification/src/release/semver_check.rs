//! The public API comparison with the latest release published on crates.io.
//!
//! The comparison applies the release type declared in the manifest. A
//! `patch` declaration lets the tool infer the release type from the manifest
//! version; a `minor` or `major` declaration is passed explicitly.
use vstd::prelude::*;

use crate::release::error::{XtaskError};
use crate::release::manifest::{declared_next_release, manifest_next_release};
use crate::release::version::{level_name, BumpLevel};

verus! {

/// The texts of a list of string slices.
pub open spec fn str_texts(v: Seq<&str>) -> Seq<Seq<char>> {
    v.map_values(|s: &str| s@)
}

/// The `cargo` arguments that compare the public API under the `declared`
/// release type: `--release-type` is passed unless the declaration is
/// `patch`, and `--all-features` always.
pub open spec fn semver_arguments(declared: BumpLevel) -> Seq<Seq<char>> {
    seq!["semver-checks"@, "--package"@, "isochron"@, "--all-features"@] + if declared != BumpLevel::Patch {
        seq!["--release-type"@, level_name(declared)]
    } else {
        Seq::empty()
    }
}

/// Returns the `cargo` arguments that compare the public API under the
/// `declared` release type.
pub fn semver_checks_arguments(declared: BumpLevel) -> (arguments: Vec<&'static str>)
    ensures
        str_texts(arguments@) == semver_arguments(declared),
{
    let mut arguments = vec!["semver-checks", "--package", "isochron", "--all-features"];
    if declared != BumpLevel::Patch {
        arguments.push("--release-type");
        arguments.push(declared.as_str());
    }
    assert(str_texts(arguments@) =~= semver_arguments(declared));
    arguments
}

/// The `cargo` arguments of the public API comparison that a manifest
/// declares, or why the manifest declares none; nothing is run before the
/// declaration is read.
///
/// # Errors
///
/// [`XtaskError::NextReleaseNotFound`] or [`XtaskError::InvalidNextRelease`].
pub fn public_api_arguments(manifest: &str) -> (r: Result<Vec<&'static str>, XtaskError>)
    ensures
        match (r, manifest_next_release(manifest@)) {
            (Ok(a), Ok(declared)) => str_texts(a@) == semver_arguments(declared),
            (Err(e), Err(w)) => e@ == w,
            _ => false,
        },
{
    match declared_next_release(manifest) {
        Ok(declared) => Ok(semver_checks_arguments(declared)),
        Err(e) => Err(e),
    }
}

} // verus!
