//! Errors.

use vstd::prelude::*;

verus! {

/// What can go wrong.
#[derive(Debug, PartialEq)]
pub enum AmError {
    /// A container or compose problem.
    ContainerError(String),
    /// A configuration that cannot be used.
    ConfigError(String),
    /// Neither Podman nor Docker is installed.
    ContainerRuntimeNotFound,
    /// The runtime that was asked for by name is not installed.
    RequestedContainerRuntimeNotFound(String),
    /// Building a devcontainer image failed.
    DevcontainerBuildFailed(String),
}

/// What an [`AmError`] stands for.
pub enum AmErrorModel {
    ContainerError(Seq<char>),
    ConfigError(Seq<char>),
    ContainerRuntimeNotFound,
    RequestedContainerRuntimeNotFound(Seq<char>),
    DevcontainerBuildFailed(Seq<char>),
}

impl DeepView for AmError {
    type V = AmErrorModel;

    open spec fn deep_view(&self) -> AmErrorModel {
        match self {
            AmError::ContainerError(s) => AmErrorModel::ContainerError(s@),
            AmError::ConfigError(s) => AmErrorModel::ConfigError(s@),
            AmError::ContainerRuntimeNotFound => AmErrorModel::ContainerRuntimeNotFound,
            AmError::RequestedContainerRuntimeNotFound(s) => {
                AmErrorModel::RequestedContainerRuntimeNotFound(s@)
            },
            AmError::DevcontainerBuildFailed(s) => AmErrorModel::DevcontainerBuildFailed(s@),
        }
    }
}

impl AmErrorModel {
    /// The message shown for the error.
    pub open spec fn text(self) -> Seq<char> {
        match self {
            AmErrorModel::ContainerError(s) => s,
            AmErrorModel::ConfigError(s) => s,
            AmErrorModel::ContainerRuntimeNotFound => {
                "no container runtime found: install Podman or Docker"@
            },
            AmErrorModel::RequestedContainerRuntimeNotFound(s) => {
                "the requested container runtime is not installed: "@ + s
            },
            AmErrorModel::DevcontainerBuildFailed(s) => s,
        }
    }
}

impl AmError {
    /// The message shown for the error.
    pub fn to_string(&self) -> (r: String)
        ensures
            r@ == self.deep_view().text(),
    {
        match self {
            AmError::ContainerError(s) => s.clone(),
            AmError::ConfigError(s) => s.clone(),
            AmError::ContainerRuntimeNotFound => {
                "no container runtime found: install Podman or Docker".to_owned()
            },
            AmError::RequestedContainerRuntimeNotFound(s) => crate::text::cat2(
                "the requested container runtime is not installed: ",
                s.as_str(),
            ),
            AmError::DevcontainerBuildFailed(s) => s.clone(),
        }
    }
}

/// A result as a model.
pub open spec fn outcome<T: DeepView>(r: Result<T, AmError>) -> Result<T::V, AmErrorModel> {
    match r {
        Ok(v) => Ok(v.deep_view()),
        Err(e) => Err(e.deep_view()),
    }
}

} // verus!
