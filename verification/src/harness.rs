//! Agents and how they authenticate.

use vstd::prelude::*;

use crate::container::MountMode;

verus! {

/// A host path with an agent's credentials, and where it goes.
#[derive(Debug, PartialEq)]
pub struct CredentialMount {
    /// The host path, or why it cannot be known.
    pub host: Result<String, String>,
    /// Whether the host path exists.
    pub found: bool,
    /// The path inside the container, relative to the home directory unless absolute.
    pub container: String,
    pub mode: MountMode,
    /// Whether a session cannot do without it.
    pub required: bool,
    /// Whether it is left out where it does not exist.
    pub only_if_exists: bool,
}

/// What a [`CredentialMount`] stands for.
pub struct CredentialModel {
    pub host: Result<Seq<char>, Seq<char>>,
    pub found: bool,
    pub container: Seq<char>,
    pub mode: MountMode,
    pub required: bool,
    pub only_if_exists: bool,
}

impl DeepView for CredentialMount {
    type V = CredentialModel;

    open spec fn deep_view(&self) -> CredentialModel {
        CredentialModel {
            host: match self.host {
                Ok(p) => Ok(p@),
                Err(e) => Err(e@),
            },
            found: self.found,
            container: self.container@,
            mode: self.mode,
            required: self.required,
            only_if_exists: self.only_if_exists,
        }
    }
}

/// Where a variable that an agent needs comes from.
#[derive(Debug, PartialEq)]
pub enum EnvSource {
    /// A variable of the host, under the same name.
    Passthrough(String),
    /// The token that the GitHub CLI holds.
    GhToken,
}

/// What an [`EnvSource`] stands for.
pub enum EnvSourceModel {
    Passthrough(Seq<char>),
    GhToken,
}

impl DeepView for EnvSource {
    type V = EnvSourceModel;

    open spec fn deep_view(&self) -> EnvSourceModel {
        match self {
            EnvSource::Passthrough(v) => EnvSourceModel::Passthrough(v@),
            EnvSource::GhToken => EnvSourceModel::GhToken,
        }
    }
}

/// How an agent authenticates.
#[derive(Debug, PartialEq)]
pub struct Integration {
    pub mounts: Vec<CredentialMount>,
    pub env: Vec<EnvSource>,
    /// Whether the agent can do without a home directory.
    pub home_optional: bool,
    /// What to say where several ways to authenticate are all missing.
    pub alternatives_message: Option<String>,
    /// How to obtain credentials.
    pub hint: String,
    /// Whether the host has what the agent needs.
    pub satisfied: bool,
    /// The path that is missing, where it is a single one.
    pub unsatisfied_path: Option<String>,
}

/// What an [`Integration`] stands for.
pub struct IntegrationModel {
    pub mounts: Seq<CredentialModel>,
    pub env: Seq<EnvSourceModel>,
    pub home_optional: bool,
    pub alternatives_message: Option<Seq<char>>,
    pub hint: Seq<char>,
    pub satisfied: bool,
    pub unsatisfied_path: Option<Seq<char>>,
}

impl DeepView for Integration {
    type V = IntegrationModel;

    open spec fn deep_view(&self) -> IntegrationModel {
        IntegrationModel {
            mounts: self.mounts.deep_view(),
            env: self.env.deep_view(),
            home_optional: self.home_optional,
            alternatives_message: self.alternatives_message.deep_view(),
            hint: self.hint@,
            satisfied: self.satisfied,
            unsatisfied_path: self.unsatisfied_path.deep_view(),
        }
    }
}

/// An agent.
#[derive(Debug, PartialEq)]
pub struct Harness {
    pub name: String,
    pub integration: Option<Integration>,
}

/// What a [`Harness`] stands for.
pub struct HarnessModel {
    pub name: Seq<char>,
    pub integration: Option<IntegrationModel>,
}

impl DeepView for Harness {
    type V = HarnessModel;

    open spec fn deep_view(&self) -> HarnessModel {
        HarnessModel { name: self.name@, integration: self.integration.deep_view() }
    }
}

} // verus!
