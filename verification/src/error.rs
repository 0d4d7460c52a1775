//! The error taxonomy of the manifest model.
//!
//! Every failure is returned as a value of a stable kind that carries the
//! offending input, never raised as an uncatchable fault.

use vstd::prelude::*;

verus! {

/// One error kind per way a manifest operation can fail.
#[derive(Debug, Clone)]
pub enum ManifestError {
    /// The declared compatibility string is not a version-requirement
    /// expression.
    InvalidVersionRequirement { requirement: String },
    /// The running tool does not satisfy a well-formed requirement.
    VersionMismatch { requirement: String, running: String },
    /// A raw dependency string fails the grammar of its kind.
    InvalidSpecification { raw: String },
    /// A referenced platform is not declared in the enclosing scope.
    UnsupportedPlatform { platform: String },
    /// An add conflicts with an existing entry under the `Error` policy.
    DuplicateDependency { name: String },
    /// A remove targets a name absent from every touched scope.
    DependencyNotFound { name: String },
    /// An environment references a feature that does not exist.
    UnknownFeature { feature: String },
    /// Environment composition yields zero usable platforms.
    EmptyPlatformIntersection { environment: String },
    /// A structural failure of the underlying document, with the line it
    /// was found on (1-based) and the section being read.
    MalformedDocument { line: usize, section: String },
}

impl ManifestError {
    /// The human-readable message of this error: its kind's phrase followed
    /// by the offending value.
    pub open spec fn spec_message(self) -> Seq<char> {
        match self {
            ManifestError::InvalidVersionRequirement { requirement } => {
                "Invalid Pixi version requirement: "@ + requirement@
            },
            ManifestError::VersionMismatch { requirement, running } => {
                "Pixi version "@ + running@ + " does not satisfy the requirement "@ + requirement@
            },
            ManifestError::InvalidSpecification { raw } => {
                "invalid dependency specification: "@ + raw@
            },
            ManifestError::UnsupportedPlatform { platform } => {
                "platform is not supported here: "@ + platform@
            },
            ManifestError::DuplicateDependency { name } => {
                "dependency already exists: "@ + name@
            },
            ManifestError::DependencyNotFound { name } => "dependency not found: "@ + name@,
            ManifestError::UnknownFeature { feature } => "unknown feature: "@ + feature@,
            ManifestError::EmptyPlatformIntersection { environment } => {
                "environment has an empty platform set: "@ + environment@
            },
            ManifestError::MalformedDocument { line, section } => {
                "malformed document in section "@ + section@
            },
        }
    }

    /// Renders the message stated by `spec_message`.
    pub fn message(&self) -> (r: String)
        ensures
            r@ == self.spec_message(),
    {
        let mut out = String::new();
        match self {
            ManifestError::InvalidVersionRequirement { requirement } => {
                out.append("Invalid Pixi version requirement: ");
                out.append(requirement.as_str());
            },
            ManifestError::VersionMismatch { requirement, running } => {
                out.append("Pixi version ");
                out.append(running.as_str());
                out.append(" does not satisfy the requirement ");
                out.append(requirement.as_str());
            },
            ManifestError::InvalidSpecification { raw } => {
                out.append("invalid dependency specification: ");
                out.append(raw.as_str());
            },
            ManifestError::UnsupportedPlatform { platform } => {
                out.append("platform is not supported here: ");
                out.append(platform.as_str());
            },
            ManifestError::DuplicateDependency { name } => {
                out.append("dependency already exists: ");
                out.append(name.as_str());
            },
            ManifestError::DependencyNotFound { name } => {
                out.append("dependency not found: ");
                out.append(name.as_str());
            },
            ManifestError::UnknownFeature { feature } => {
                out.append("unknown feature: ");
                out.append(feature.as_str());
            },
            ManifestError::EmptyPlatformIntersection { environment } => {
                out.append("environment has an empty platform set: ");
                out.append(environment.as_str());
            },
            ManifestError::MalformedDocument { line: _, section } => {
                out.append("malformed document in section ");
                out.append(section.as_str());
            },
        }
        out
    }
}

} // verus!
