//! Dev Container support: discovery, parsing, merging and the trust gate.
//!
//! Two sources feed a session's configuration. The image's `devcontainer.metadata` label carries
//! what the base image and the Features contribute together with most of the `devcontainer.json`,
//! already in merge order; the `devcontainer.json` itself is read only for the properties the label
//! drops.

pub mod discovery;
pub mod document;
pub mod finalize;
pub mod image;
pub mod lifecycle;
pub mod lock;
pub mod merge;
pub mod mount;
pub mod native;
pub mod port;
pub mod precedence;
pub mod snippet;
pub mod substitution;
pub mod trust;

pub use lifecycle::{Command, CommandModel, LifecycleCommand, LifecycleCommandModel, NamedCommand};
pub use mount::{Mount, MountModel, MountObject, MountObjectModel, NormalizedMount, NormalizedMountModel};
pub use port::{ForwardedPort, ForwardedPortModel};
pub use snippet::{parse_metadata_label, MetadataSnippet, SnippetModel, UserEnvProbe};
pub use substitution::{ContextModel, SubstitutionContext};
pub use document::{
    check_host_commands, check_supported, compose_files, dockerfile_path, parse_config_str, BuildModel,
    BuildSection, CacheFrom, CacheFromModel, ComposeFile, ComposeFileModel, DevcontainerJson, DocumentModel,
};
pub use merge::{merge, ResolvedConfig, ResolvedModel};
pub use finalize::{attach_commands, finalize, startup_commands};
pub use discovery::find_config;
pub use image::{config_hash, image_exists, image_name, read_image_metadata, InjectedFeature, InjectedModel};
pub use native::plan::BuildRequest;
pub use trust::{apply_trust, trust_notes};
