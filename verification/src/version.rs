//! The version compatibility gate: validates a declared minimum-tool-version
//! requirement against the running tool's own version.

use vstd::prelude::*;
use std::str::FromStr;
use crate::error::ManifestError;

verus! {

/// The running tool's own version.
pub const PIXI_VERSION: &'static str = "0.1.0";

/// Whether a string parses as a conda version.
pub uninterp spec fn version_parses(s: Seq<char>) -> bool;

/// Whether a string parses as a conda version-requirement expression.
pub uninterp spec fn version_req_parses(s: Seq<char>) -> bool;

/// Whether the version written `ver` satisfies the requirement written
/// `req`; meaningful when both parse.
pub uninterp spec fn version_satisfies(req: Seq<char>, ver: Seq<char>) -> bool;

/// Relies on `rattler_conda_types::Version::from_str`: whether `ver` is a
/// well-formed version. The result depends on the string alone.
#[verifier::external_body]
fn version_is_valid(ver: &str) -> (r: bool)
    ensures
        r == version_parses(ver@),
{
    rattler_conda_types::Version::from_str(ver).is_ok()
}

/// Relies on `rattler_conda_types::VersionSpec::from_str` (strict) and
/// `VersionSpec::matches`, with `Version::from_str` re-reading a version the
/// caller already validated: whether the requirement parses, and whether
/// `ver` satisfies it. Both results depend on the two strings alone.
#[verifier::external_body]
fn eval_version_requirement(req: &str, ver: &str) -> (r: Option<bool>)
    requires
        version_parses(ver@),
    ensures
        r is Some <==> version_req_parses(req@),
        r matches Some(b) ==> b == version_satisfies(req@, ver@),
{
    let version = match rattler_conda_types::Version::from_str(ver) {
        Ok(v) => v,
        Err(_) => return None,
    };
    let spec = match rattler_conda_types::VersionSpec::from_str(
        req,
        rattler_conda_types::ParseStrictness::Strict,
    ) {
        Ok(s) => s,
        Err(_) => return None,
    };
    Some(spec.matches(&version))
}

/// Succeeds when `running` satisfies the requirement; otherwise fails with
/// `InvalidVersionRequirement` when the requirement string does not parse,
/// and with `VersionMismatch` when it parses and is not met.
pub fn check_version_requirement(requirement: &String, running: &str) -> (r: Result<
    (),
    ManifestError,
>)
    requires
        version_parses(running@),
    ensures
        match r {
            Ok(()) => version_req_parses(requirement@) && version_satisfies(
                requirement@,
                running@,
            ),
            Err(ManifestError::InvalidVersionRequirement { requirement: s }) => s@ == requirement@
                && !version_req_parses(requirement@),
            Err(ManifestError::VersionMismatch { requirement: s, running: v }) => s@
                == requirement@ && v@ == running@ && version_req_parses(requirement@)
                && !version_satisfies(requirement@, running@),
            _ => false,
        },
{
    match eval_version_requirement(requirement.as_str(), running) {
        None => Err(
            ManifestError::InvalidVersionRequirement { requirement: requirement.clone() },
        ),
        Some(true) => Ok(()),
        Some(false) => Err(
            ManifestError::VersionMismatch {
                requirement: requirement.clone(),
                running: <String as vstd::string::StringExecFns>::from_str(running),
            },
        ),
    }
}

/// Checks a declared requirement against `PIXI_VERSION`: succeeds when no
/// requirement is declared or that version satisfies it.
pub fn check_pixi_version(requirement: &Option<String>) -> (r: Result<(), ManifestError>)
    ensures
        r matches Err(e) ==> (e matches ManifestError::InvalidVersionRequirement { .. }
            || e matches ManifestError::VersionMismatch { .. }),
        version_parses(PIXI_VERSION@) ==> match r {
            Ok(()) => match requirement {
                Some(req) => version_req_parses(req@) && version_satisfies(
                    req@,
                    PIXI_VERSION@,
                ),
                None => true,
            },
            Err(ManifestError::InvalidVersionRequirement { requirement: s }) => requirement
                matches Some(req) && s@ == req@ && !version_req_parses(req@),
            Err(ManifestError::VersionMismatch { requirement: s, running: v }) => requirement
                matches Some(req) && s@ == req@ && v@ == PIXI_VERSION@ && version_req_parses(req@)
                && !version_satisfies(req@, PIXI_VERSION@),
            _ => false,
        },
        requirement is None ==> r is Ok,
{
    match requirement {
        None => Ok(()),
        Some(req) => {
            if version_is_valid(PIXI_VERSION) {
                check_version_requirement(req, PIXI_VERSION)
            } else {
                Ok(())
            }
        },
    }
}

} // verus!
