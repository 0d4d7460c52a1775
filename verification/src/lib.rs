use vstd::prelude::*;

pub mod text;
pub mod names;
pub mod error;
pub mod deps;
pub mod model;
pub mod version;
pub mod parse;
pub mod serialize;
pub mod adapter;
pub mod normalizer;

verus! {

/// The manifest file flavours that a project can be initialised with.
#[derive(Debug, Clone, PartialEq, Eq, Structural)]
pub enum ManifestFormat {
    Pixi,
    Pyproject,
}

/// The source-control hosts for which a `.gitattributes` template exists.
#[derive(Debug, Clone, PartialEq, Eq, Structural)]
pub enum GitAttributes {
    Github,
    Gitlab,
    Codeberg,
}

impl GitAttributes {
    /// The `.gitattributes` content that marks the lock file as generated
    /// for this source-control host.
    pub fn template(&self) -> (r: &'static str)
        ensures
            (*self is Gitlab) ==> r@ == gitlab_attributes_template(),
            !(*self is Gitlab) ==> r@ == github_attributes_template(),
    {
        match self {
            GitAttributes::Github | GitAttributes::Codeberg => {
                "# SCM syntax highlighting\npixi.lock linguist-language=YAML linguist-generated=true\n"
            },
            GitAttributes::Gitlab => {
                "# GitLab syntax highlighting\npixi.lock gitlab-language=yaml gitlab-generated=true\n"
            },
        }
    }
}

/// The attributes line used for hosts that follow the GitHub convention.
pub open spec fn github_attributes_template() -> Seq<char> {
    "# SCM syntax highlighting\npixi.lock linguist-language=YAML linguist-generated=true\n"@
}

/// The attributes line used for GitLab.
pub open spec fn gitlab_attributes_template() -> Seq<char> {
    "# GitLab syntax highlighting\npixi.lock gitlab-language=yaml gitlab-generated=true\n"@
}

} // verus!
