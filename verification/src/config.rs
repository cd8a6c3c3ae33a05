//! Configuration: compiled-in defaults, the global file, the project file, the environment.

pub mod file;
pub mod layers;
pub mod load;

pub use load::{
    global_config_path, global_state_dir, load_with_global, validate_container_user, validate_env_passthrough,
    ConfigText,
};

use vstd::prelude::*;

use crate::json::{self, Json, JsonModel};
use crate::path;
use crate::strmap::{self, StrMap};
use crate::text;

verus! {

// ----------------------------------------------------------------------------------------------
// Choices
// ----------------------------------------------------------------------------------------------

/// The version control system of a repository.
#[derive(Debug, Clone, Copy, PartialEq, Eq, Structural)]
pub enum Vcs {
    Git,
    Jj,
}

impl Default for Vcs {
    fn default() -> (r: Self)
        ensures
            r == Vcs::Git,
    {
        Vcs::Git
    }
}

/// Which pane of the window gets the agent.
#[derive(Debug, Clone, Copy, PartialEq, Eq, Structural)]
pub enum PaneSide {
    Left,
    Right,
}

impl Default for PaneSide {
    fn default() -> (r: Self)
        ensures
            r == PaneSide::Left,
    {
        PaneSide::Left
    }
}

impl PaneSide {
    /// The choice that `s` names.
    pub open spec fn named(s: Seq<char>) -> Option<PaneSide> {
        if s == "left"@ {
            Some(PaneSide::Left)
        } else if s == "right"@ {
            Some(PaneSide::Right)
        } else {
            None
        }
    }

    pub fn read(s: &str) -> (r: Option<PaneSide>)
        ensures
            r == PaneSide::named(s@),
    {
        if text::eq(s, "left") {
            Some(PaneSide::Left)
        } else if text::eq(s, "right") {
            Some(PaneSide::Right)
        } else {
            None
        }
    }

    /// The choice that a document member makes.
    pub open spec fn member_of(j: Option<JsonModel>) -> Option<Option<PaneSide>> {
        match j {
            None => Some(None),
            Some(JsonModel::Str(s)) => match PaneSide::named(s) {
                Some(v) => Some(Some(v)),
                None => None,
            },
            _ => None,
        }
    }

    fn read_member(j: Option<&Json>) -> (r: Option<Option<PaneSide>>)
        ensures
            r == PaneSide::member_of(j.deep_view()),
    {
        match j {
            None => Some(None),
            Some(Json::Str(s)) => match PaneSide::read(s.as_str()) {
                Some(v) => Some(Some(v)),
                None => None,
            },
            _ => None,
        }
    }
}

/// How the window is split.
#[derive(Debug, Clone, Copy, PartialEq, Eq, Structural)]
pub enum SplitDirection {
    Horizontal,
    Vertical,
}

impl Default for SplitDirection {
    fn default() -> (r: Self)
        ensures
            r == SplitDirection::Horizontal,
    {
        SplitDirection::Horizontal
    }
}

impl SplitDirection {
    /// The choice that `s` names.
    pub open spec fn named(s: Seq<char>) -> Option<SplitDirection> {
        if s == "horizontal"@ {
            Some(SplitDirection::Horizontal)
        } else if s == "vertical"@ {
            Some(SplitDirection::Vertical)
        } else {
            None
        }
    }

    pub fn read(s: &str) -> (r: Option<SplitDirection>)
        ensures
            r == SplitDirection::named(s@),
    {
        if text::eq(s, "horizontal") {
            Some(SplitDirection::Horizontal)
        } else if text::eq(s, "vertical") {
            Some(SplitDirection::Vertical)
        } else {
            None
        }
    }

    /// The choice that a document member makes.
    pub open spec fn member_of(j: Option<JsonModel>) -> Option<Option<SplitDirection>> {
        match j {
            None => Some(None),
            Some(JsonModel::Str(s)) => match SplitDirection::named(s) {
                Some(v) => Some(Some(v)),
                None => None,
            },
            _ => None,
        }
    }

    fn read_member(j: Option<&Json>) -> (r: Option<Option<SplitDirection>>)
        ensures
            r == SplitDirection::member_of(j.deep_view()),
    {
        match j {
            None => Some(None),
            Some(Json::Str(s)) => match SplitDirection::read(s.as_str()) {
                Some(v) => Some(Some(v)),
                None => None,
            },
            _ => None,
        }
    }
}

/// Which container runtime to use.
#[derive(Debug, Clone, Copy, PartialEq, Eq, Structural)]
pub enum RuntimePreference {
    /// Podman where it is installed, Docker otherwise.
    Auto,
    Podman,
    Docker,
}

impl Default for RuntimePreference {
    fn default() -> (r: Self)
        ensures
            r == RuntimePreference::Auto,
    {
        RuntimePreference::Auto
    }
}

impl RuntimePreference {
    /// The choice that `s` names.
    pub open spec fn named(s: Seq<char>) -> Option<RuntimePreference> {
        if s == "auto"@ {
            Some(RuntimePreference::Auto)
        } else if s == "podman"@ {
            Some(RuntimePreference::Podman)
        } else if s == "docker"@ {
            Some(RuntimePreference::Docker)
        } else {
            None
        }
    }

    pub fn read(s: &str) -> (r: Option<RuntimePreference>)
        ensures
            r == RuntimePreference::named(s@),
    {
        if text::eq(s, "auto") {
            Some(RuntimePreference::Auto)
        } else if text::eq(s, "podman") {
            Some(RuntimePreference::Podman)
        } else if text::eq(s, "docker") {
            Some(RuntimePreference::Docker)
        } else {
            None
        }
    }

    /// The choice that a document member makes.
    pub open spec fn member_of(j: Option<JsonModel>) -> Option<Option<RuntimePreference>> {
        match j {
            None => Some(None),
            Some(JsonModel::Str(s)) => match RuntimePreference::named(s) {
                Some(v) => Some(Some(v)),
                None => None,
            },
            _ => None,
        }
    }

    fn read_member(j: Option<&Json>) -> (r: Option<Option<RuntimePreference>>)
        ensures
            r == RuntimePreference::member_of(j.deep_view()),
    {
        match j {
            None => Some(None),
            Some(Json::Str(s)) => match RuntimePreference::read(s.as_str()) {
                Some(v) => Some(Some(v)),
                None => None,
            },
            _ => None,
        }
    }
}

/// What network a session gets.
#[derive(Debug, Clone, Copy, PartialEq, Eq, Structural)]
pub enum NetworkMode {
    Full,
    /// No network at all.
    Off,
}

impl Default for NetworkMode {
    fn default() -> (r: Self)
        ensures
            r == NetworkMode::Full,
    {
        NetworkMode::Full
    }
}

impl NetworkMode {
    /// The choice that `s` names.
    pub open spec fn named(s: Seq<char>) -> Option<NetworkMode> {
        if s == "full"@ {
            Some(NetworkMode::Full)
        } else if s == "none"@ {
            Some(NetworkMode::Off)
        } else {
            None
        }
    }

    pub fn read(s: &str) -> (r: Option<NetworkMode>)
        ensures
            r == NetworkMode::named(s@),
    {
        if text::eq(s, "full") {
            Some(NetworkMode::Full)
        } else if text::eq(s, "none") {
            Some(NetworkMode::Off)
        } else {
            None
        }
    }

    /// The choice that a document member makes.
    pub open spec fn member_of(j: Option<JsonModel>) -> Option<Option<NetworkMode>> {
        match j {
            None => Some(None),
            Some(JsonModel::Str(s)) => match NetworkMode::named(s) {
                Some(v) => Some(Some(v)),
                None => None,
            },
            _ => None,
        }
    }

    fn read_member(j: Option<&Json>) -> (r: Option<Option<NetworkMode>>)
        ensures
            r == NetworkMode::member_of(j.deep_view()),
    {
        match j {
            None => Some(None),
            Some(Json::Str(s)) => match NetworkMode::read(s.as_str()) {
                Some(v) => Some(Some(v)),
                None => None,
            },
            _ => None,
        }
    }
}

/// Where a session's container environment comes from.
#[derive(Debug, Clone, Copy, PartialEq, Eq, Structural)]
pub enum ContainerMode {
    /// An image resolved from the configuration.
    Image,
    /// The repository's own `devcontainer.json`; an error where there is none.
    Devcontainer,
    /// The `devcontainer.json` where one is found, an image otherwise.
    Auto,
}

impl Default for ContainerMode {
    fn default() -> (r: Self)
        ensures
            r == ContainerMode::Auto,
    {
        ContainerMode::Auto
    }
}

impl ContainerMode {
    /// The choice that `s` names.
    pub open spec fn named(s: Seq<char>) -> Option<ContainerMode> {
        if s == "image"@ {
            Some(ContainerMode::Image)
        } else if s == "devcontainer"@ {
            Some(ContainerMode::Devcontainer)
        } else if s == "auto"@ {
            Some(ContainerMode::Auto)
        } else {
            None
        }
    }

    pub fn read(s: &str) -> (r: Option<ContainerMode>)
        ensures
            r == ContainerMode::named(s@),
    {
        if text::eq(s, "image") {
            Some(ContainerMode::Image)
        } else if text::eq(s, "devcontainer") {
            Some(ContainerMode::Devcontainer)
        } else if text::eq(s, "auto") {
            Some(ContainerMode::Auto)
        } else {
            None
        }
    }

    /// The choice that a document member makes.
    pub open spec fn member_of(j: Option<JsonModel>) -> Option<Option<ContainerMode>> {
        match j {
            None => Some(None),
            Some(JsonModel::Str(s)) => match ContainerMode::named(s) {
                Some(v) => Some(Some(v)),
                None => None,
            },
            _ => None,
        }
    }

    fn read_member(j: Option<&Json>) -> (r: Option<Option<ContainerMode>>)
        ensures
            r == ContainerMode::member_of(j.deep_view()),
    {
        match j {
            None => Some(None),
            Some(Json::Str(s)) => match ContainerMode::read(s.as_str()) {
                Some(v) => Some(Some(v)),
                None => None,
            },
            _ => None,
        }
    }
}

/// How the agent gets into a devcontainer image.
#[derive(Debug, Clone, Copy, PartialEq, Eq, Structural)]
pub enum AgentInstall {
    /// A Feature injected at build time.
    Feature,
    /// An installation into a volume shared across sessions.
    Bootstrap,
    /// The devcontainer already provides the agent.
    Off,
    /// A Feature where one is mapped for the agent, a bootstrap otherwise.
    Auto,
}

impl Default for AgentInstall {
    fn default() -> (r: Self)
        ensures
            r == AgentInstall::Auto,
    {
        AgentInstall::Auto
    }
}

impl AgentInstall {
    /// The choice that `s` names.
    pub open spec fn named(s: Seq<char>) -> Option<AgentInstall> {
        if s == "feature"@ {
            Some(AgentInstall::Feature)
        } else if s == "bootstrap"@ {
            Some(AgentInstall::Bootstrap)
        } else if s == "none"@ {
            Some(AgentInstall::Off)
        } else if s == "auto"@ {
            Some(AgentInstall::Auto)
        } else {
            None
        }
    }

    pub fn read(s: &str) -> (r: Option<AgentInstall>)
        ensures
            r == AgentInstall::named(s@),
    {
        if text::eq(s, "feature") {
            Some(AgentInstall::Feature)
        } else if text::eq(s, "bootstrap") {
            Some(AgentInstall::Bootstrap)
        } else if text::eq(s, "none") {
            Some(AgentInstall::Off)
        } else if text::eq(s, "auto") {
            Some(AgentInstall::Auto)
        } else {
            None
        }
    }

    /// The choice that a document member makes.
    pub open spec fn member_of(j: Option<JsonModel>) -> Option<Option<AgentInstall>> {
        match j {
            None => Some(None),
            Some(JsonModel::Str(s)) => match AgentInstall::named(s) {
                Some(v) => Some(Some(v)),
                None => None,
            },
            _ => None,
        }
    }

    fn read_member(j: Option<&Json>) -> (r: Option<Option<AgentInstall>>)
        ensures
            r == AgentInstall::member_of(j.deep_view()),
    {
        match j {
            None => Some(None),
            Some(Json::Str(s)) => match AgentInstall::read(s.as_str()) {
                Some(v) => Some(Some(v)),
                None => None,
            },
            _ => None,
        }
    }
}

// ----------------------------------------------------------------------------------------------
// The configuration
// ----------------------------------------------------------------------------------------------

/// Settings of one agent.
#[derive(Debug, PartialEq)]
pub struct AgentSettings {
    pub image: Option<String>,
    /// The Feature that installs this agent.
    pub devcontainer_feature: Option<String>,
}

/// What a [`AgentSettings`] stands for.
pub struct AgentModel {
    pub image: Option<Seq<char>>,
    pub devcontainer_feature: Option<Seq<char>>,
}

impl DeepView for AgentSettings {
    type V = AgentModel;

    open spec fn deep_view(&self) -> AgentModel {
        AgentModel {
            image: self.image.deep_view(),
            devcontainer_feature: self.devcontainer_feature.deep_view(),
        }
    }
}

#[derive(Debug, Clone, Copy, PartialEq, Eq, Structural)]
pub struct TmuxConfig {
    pub agent_pane: PaneSide,
    pub split: SplitDirection,
    /// Percentage of the window given to the agent pane.
    pub split_percent: u8,
}

/// Settings of the session container.
#[derive(Debug, PartialEq)]
pub struct ContainerConfig {
    pub enabled: bool,
    pub mode: ContainerMode,
    pub runtime: RuntimePreference,
    pub image: Option<String>,
    pub network: NetworkMode,
    /// Variables to pass through, as `NAME` or `NAME=value`.
    pub env: Vec<String>,
    pub gitconfig: Option<String>,
    pub ssh: Option<String>,
    /// Forward the host's SSH agent.
    pub ssh_agent: bool,
    /// The user inside the container.
    pub user: String,
}

/// What a [`ContainerConfig`] stands for.
pub struct ContainerModel {
    pub enabled: bool,
    pub mode: ContainerMode,
    pub runtime: RuntimePreference,
    pub image: Option<Seq<char>>,
    pub network: NetworkMode,
    pub env: Seq<Seq<char>>,
    pub gitconfig: Option<Seq<char>>,
    pub ssh: Option<Seq<char>>,
    pub ssh_agent: bool,
    pub user: Seq<char>,
}

impl DeepView for ContainerConfig {
    type V = ContainerModel;

    open spec fn deep_view(&self) -> ContainerModel {
        ContainerModel {
            enabled: self.enabled,
            mode: self.mode,
            runtime: self.runtime,
            image: self.image.deep_view(),
            network: self.network,
            env: self.env.deep_view(),
            gitconfig: self.gitconfig.deep_view(),
            ssh: self.ssh.deep_view(),
            ssh_agent: self.ssh_agent,
            user: self.user.deep_view(),
        }
    }
}

/// Settings for sessions whose environment comes from a `devcontainer.json`.
#[derive(Debug, PartialEq)]
pub struct DevcontainerConfig {
    /// Explicit config path, relative to the session worktree.
    pub path: Option<String>,
    pub cli: String,
    pub agent_install: AgentInstall,
    /// Whether repository-controlled code may reach the host.
    pub allow_host_commands: bool,
    pub skip_lifecycle: bool,
    /// Override of the home directory inside the container.
    pub home: Option<String>,
    /// Features to inject at build time, as id to options.
    pub extra_features: StrMap<String>,
}

/// What a [`DevcontainerConfig`] stands for.
pub struct DevcontainerModel {
    pub path: Option<Seq<char>>,
    pub cli: Seq<char>,
    pub agent_install: AgentInstall,
    pub allow_host_commands: bool,
    pub skip_lifecycle: bool,
    pub home: Option<Seq<char>>,
    pub extra_features: Seq<(Seq<char>, Seq<char>)>,
}

impl DeepView for DevcontainerConfig {
    type V = DevcontainerModel;

    open spec fn deep_view(&self) -> DevcontainerModel {
        DevcontainerModel {
            path: self.path.deep_view(),
            cli: self.cli.deep_view(),
            agent_install: self.agent_install,
            allow_host_commands: self.allow_host_commands,
            skip_lifecycle: self.skip_lifecycle,
            home: self.home.deep_view(),
            extra_features: self.extra_features.deep_view(),
        }
    }
}

/// A key that is not recognised, and the file it came from.
#[derive(Debug, PartialEq)]
pub struct UnknownKey {
    pub file: String,
    pub key: String,
}

/// What a [`UnknownKey`] stands for.
pub struct UnknownKeyModel {
    pub file: Seq<char>,
    pub key: Seq<char>,
}

impl DeepView for UnknownKey {
    type V = UnknownKeyModel;

    open spec fn deep_view(&self) -> UnknownKeyModel {
        UnknownKeyModel {
            file: self.file.deep_view(),
            key: self.key.deep_view(),
        }
    }
}

/// The configuration of `am`.
#[derive(Debug, PartialEq)]
pub struct Config {
    pub agent: Option<String>,
    pub agents: StrMap<AgentSettings>,
    pub tmux: TmuxConfig,
    pub container: ContainerConfig,
    pub devcontainer: DevcontainerConfig,
    pub unknown_keys: Vec<UnknownKey>,
}

/// What a [`Config`] stands for.
pub struct ConfigModel {
    pub agent: Option<Seq<char>>,
    pub agents: Seq<(Seq<char>, AgentModel)>,
    pub tmux: TmuxConfig,
    pub container: ContainerModel,
    pub devcontainer: DevcontainerModel,
    pub unknown_keys: Seq<UnknownKeyModel>,
}

impl DeepView for Config {
    type V = ConfigModel;

    open spec fn deep_view(&self) -> ConfigModel {
        ConfigModel {
            agent: self.agent.deep_view(),
            agents: self.agents.deep_view(),
            tmux: self.tmux,
            container: self.container.deep_view(),
            devcontainer: self.devcontainer.deep_view(),
            unknown_keys: self.unknown_keys.deep_view(),
        }
    }
}

impl Default for AgentSettings {
    fn default() -> (r: Self)
        ensures
            r.deep_view() == no_agent(),
    {
        AgentSettings { image: None, devcontainer_feature: None }
    }
}

/// The settings of an agent nothing is known of.
pub open spec fn no_agent() -> AgentModel {
    AgentModel { image: None, devcontainer_feature: None }
}

impl Default for TmuxConfig {
    fn default() -> (r: Self)
        ensures
            r == default_tmux(),
    {
        TmuxConfig { agent_pane: PaneSide::Left, split: SplitDirection::Horizontal, split_percent: 50 }
    }
}

pub open spec fn default_tmux() -> TmuxConfig {
    TmuxConfig { agent_pane: PaneSide::Left, split: SplitDirection::Horizontal, split_percent: 50 }
}

impl Default for ContainerConfig {
    fn default() -> (r: Self)
        ensures
            r.deep_view() == default_container(),
    {
        let r = ContainerConfig {
            enabled: true,
            mode: ContainerMode::Auto,
            runtime: RuntimePreference::Auto,
            image: None,
            network: NetworkMode::Full,
            env: Vec::new(),
            gitconfig: None,
            ssh: None,
            ssh_agent: true,
            user: "am".to_owned(),
        };
        assert(r.env.deep_view() =~= Seq::<Seq<char>>::empty());
        r
    }
}

pub open spec fn default_container() -> ContainerModel {
    ContainerModel {
        enabled: true,
        mode: ContainerMode::Auto,
        runtime: RuntimePreference::Auto,
        image: None,
        network: NetworkMode::Full,
        env: Seq::empty(),
        gitconfig: None,
        ssh: None,
        ssh_agent: true,
        user: "am"@,
    }
}

impl Default for DevcontainerConfig {
    fn default() -> (r: Self)
        ensures
            r.deep_view() == default_devcontainer(),
    {
        DevcontainerConfig {
            path: None,
            cli: "devcontainer".to_owned(),
            agent_install: AgentInstall::Auto,
            allow_host_commands: false,
            skip_lifecycle: false,
            home: None,
            extra_features: StrMap::new(),
        }
    }
}

pub open spec fn default_devcontainer() -> DevcontainerModel {
    DevcontainerModel {
        path: None,
        cli: "devcontainer"@,
        agent_install: AgentInstall::Auto,
        allow_host_commands: false,
        skip_lifecycle: false,
        home: None,
        extra_features: Seq::empty(),
    }
}

/// The agents that are known without any configuration.
pub open spec fn default_agents() -> Seq<(Seq<char>, AgentModel)> {
    strmap::insert(
        Seq::empty(),
        "copilot"@,
        AgentModel {
            image: Some("ghcr.io/dstanek/am-copilot-minimal:latest"@),
            devcontainer_feature: None,
        },
    )
}

/// The agents that are known without any configuration.
pub fn default_agent_images() -> (r: StrMap<AgentSettings>)
    ensures
        r.deep_view() == default_agents(),
{
    let mut m: StrMap<AgentSettings> = StrMap::new();
    m.insert(
        "copilot".to_owned(),
        AgentSettings {
            image: Some("ghcr.io/dstanek/am-copilot-minimal:latest".to_owned()),
            devcontainer_feature: None,
        },
    );
    m
}

pub open spec fn default_config() -> ConfigModel {
    ConfigModel {
        agent: None,
        agents: default_agents(),
        tmux: default_tmux(),
        container: default_container(),
        devcontainer: default_devcontainer(),
        unknown_keys: Seq::empty(),
    }
}

impl Default for Config {
    fn default() -> (r: Self)
        ensures
            r.deep_view() == default_config(),
    {
        let r = Config {
            agent: None,
            agents: default_agent_images(),
            tmux: TmuxConfig::default(),
            container: ContainerConfig::default(),
            devcontainer: DevcontainerConfig::default(),
            unknown_keys: Vec::new(),
        };
        assert(r.unknown_keys.deep_view() =~= Seq::<UnknownKeyModel>::empty());
        r
    }
}

impl UnknownKey {
    /// The key and its file, for a message.
    pub fn to_string(&self) -> (r: String)
        ensures
            r@ == self.key@ + " in "@ + self.file@,
    {
        text::cat3(self.key.as_str(), " in ", self.file.as_str())
    }
}

// ----------------------------------------------------------------------------------------------
// Looking things up
// ----------------------------------------------------------------------------------------------

/// The text, unless it is empty.
pub open spec fn nonempty(s: Option<Seq<char>>) -> Option<Seq<char>> {
    match s {
        Some(t) if t.len() > 0 => Some(t),
        _ => None,
    }
}

fn nonempty_ref<'a>(s: &'a Option<String>) -> (r: Option<&'a str>)
    ensures
        r.deep_view() == nonempty(s.deep_view()),
{
    match s {
        Some(t) => if t.as_str().is_empty() {
            None
        } else {
            Some(t.as_str())
        },
        None => None,
    }
}

/// The Feature mapped for an agent.
pub open spec fn agent_feature(agent: Option<Seq<char>>, c: ConfigModel) -> Option<Seq<char>> {
    match agent {
        None => None,
        Some(a) => match strmap::get(c.agents, a) {
            Some(s) => nonempty(s.devcontainer_feature),
            None => None,
        },
    }
}

/// The image for an agent: the one set for every agent, or the agent's own.
pub open spec fn agent_image(agent: Option<Seq<char>>, c: ConfigModel) -> Option<Seq<char>> {
    if nonempty(c.container.image) is Some {
        c.container.image
    } else {
        match agent {
            None => None,
            Some(a) => match strmap::get(c.agents, a) {
                Some(s) => nonempty(s.image),
                None => None,
            },
        }
    }
}

/// An image that is set for every agent is used whatever the agent. Otherwise a known agent has its own
/// image and its own Feature, where they are set and not empty, and an unknown agent has neither.
pub proof fn law_an_agent_is_looked_up(agent: Option<Seq<char>>, c: ConfigModel)
    ensures
        ({
            let common = c.container.image is Some && c.container.image->0.len() > 0;
            let known = match agent {
                Some(a) => strmap::get(c.agents, a),
                None => None,
            };
            &&& common ==> agent_image(agent, c) == c.container.image
            &&& !common && known is None ==> agent_image(agent, c) is None
            &&& known is None ==> agent_feature(agent, c) is None
            &&& known matches Some(s) ==> {
                &&& !common && s.image is Some && s.image->0.len() > 0 ==> agent_image(agent, c) == s.image
                &&& !common && (s.image is None || s.image->0.len() == 0) ==> agent_image(agent, c) is None
                &&& s.devcontainer_feature is Some && s.devcontainer_feature->0.len() > 0 ==> agent_feature(agent, c)
                    == s.devcontainer_feature
                &&& s.devcontainer_feature is None || s.devcontainer_feature->0.len() == 0 ==> agent_feature(
                    agent,
                    c,
                ) is None
            }
        }),
{
}

/// Each choice has exactly one name, and no other text names a choice.
pub proof fn law_each_choice_has_one_name(s: Seq<char>)
    ensures
        PaneSide::named(s) == Some(PaneSide::Left) <==> s == "left"@,
        PaneSide::named(s) == Some(PaneSide::Right) <==> s == "right"@,
        SplitDirection::named(s) == Some(SplitDirection::Horizontal) <==> s == "horizontal"@,
        SplitDirection::named(s) == Some(SplitDirection::Vertical) <==> s == "vertical"@,
        RuntimePreference::named(s) == Some(RuntimePreference::Auto) <==> s == "auto"@,
        RuntimePreference::named(s) == Some(RuntimePreference::Podman) <==> s == "podman"@,
        RuntimePreference::named(s) == Some(RuntimePreference::Docker) <==> s == "docker"@,
        NetworkMode::named(s) == Some(NetworkMode::Full) <==> s == "full"@,
        NetworkMode::named(s) == Some(NetworkMode::Off) <==> s == "none"@,
        ContainerMode::named(s) == Some(ContainerMode::Image) <==> s == "image"@,
        ContainerMode::named(s) == Some(ContainerMode::Devcontainer) <==> s == "devcontainer"@,
        ContainerMode::named(s) == Some(ContainerMode::Auto) <==> s == "auto"@,
        AgentInstall::named(s) == Some(AgentInstall::Feature) <==> s == "feature"@,
        AgentInstall::named(s) == Some(AgentInstall::Bootstrap) <==> s == "bootstrap"@,
        AgentInstall::named(s) == Some(AgentInstall::Off) <==> s == "none"@,
        AgentInstall::named(s) == Some(AgentInstall::Auto) <==> s == "auto"@,
{
    reveal_strlit("left");
    reveal_strlit("right");
    reveal_strlit("horizontal");
    reveal_strlit("vertical");
    reveal_strlit("auto");
    reveal_strlit("podman");
    reveal_strlit("docker");
    reveal_strlit("full");
    reveal_strlit("none");
    reveal_strlit("image");
    reveal_strlit("devcontainer");
    reveal_strlit("feature");
    reveal_strlit("bootstrap");
    assert("left"@.len() == 4 && "right"@.len() == 5);
    assert("horizontal"@.len() == 10 && "vertical"@.len() == 8);
    assert("image"@.len() == 5 && "devcontainer"@.len() == 12 && "auto"@.len() == 4);
    assert("feature"@.len() == 7 && "bootstrap"@.len() == 9 && "none"@.len() == 4);
    assert("podman"@[0] == 'p' && "docker"@[0] == 'd');
    assert("auto"@[0] == 'a' && "none"@[0] == 'n' && "full"@[0] == 'f');
}

/// Resolves the Feature that installs an agent, where one is mapped.
pub fn resolve_agent_feature<'a>(agent: Option<&str>, cfg: &'a Config) -> (r: Option<&'a str>)
    ensures
        r.deep_view() == agent_feature(agent.deep_view(), cfg.deep_view()),
{
    match agent {
        None => None,
        Some(a) => match cfg.agents.get(a) {
            Some(s) => nonempty_ref(&s.devcontainer_feature),
            None => None,
        },
    }
}

/// Resolves the container image for an agent.
pub fn resolve_image<'a>(agent: Option<&str>, cfg: &'a Config) -> (r: Option<&'a str>)
    ensures
        r.deep_view() == agent_image(agent.deep_view(), cfg.deep_view()),
{
    let explicit = nonempty_ref(&cfg.container.image);
    if explicit.is_some() {
        return explicit;
    }
    match agent {
        None => None,
        Some(a) => match cfg.agents.get(a) {
            Some(s) => nonempty_ref(&s.image),
            None => None,
        },
    }
}

// ----------------------------------------------------------------------------------------------
// Templates
// ----------------------------------------------------------------------------------------------

/// The project config skeleton, everything in it commented out.
pub const PROJECT_CONFIG_SKELETON: &'static str = r#"# Project-level am configuration — .am/config.toml
# Uncomment only the values you want to override from your global or compiled-in defaults.
# Precedence (highest wins): CLI flags > environment variables > project config > global config
# Run `am generate-config` to see the full global config template with all options documented.

[defaults]
# agent = "copilot"      # agent to launch, e.g. "copilot" | "codex" — also selects the container image

# Override the container image for a specific agent (built-in defaults shown):
# [agents.copilot]
# image = "ghcr.io/dstanek/am-copilot-minimal:latest"

[tmux]
# agent_pane = "left"    # which pane gets the agent: "left" | "right"
# split = "horizontal"   # split direction: "horizontal" | "vertical"
# split_percent = 50     # percentage of the window given to the agent pane

[container]
# enabled = true
# mode = "auto"          # "auto" (devcontainer when one is found) | "devcontainer" | "image"
# runtime = "auto"       # "auto" | "podman" | "docker"
# network = "full"       # "full" | "none"
# env = []               # extra environment variables to pass into the container
# gitconfig = ""         # path to gitconfig to mount (default: ~/.gitconfig)
# ssh = ""               # path to SSH dir to mount (default: ~/.ssh)
# ssh_agent = true       # forward the host's SSH_AUTH_SOCK into the container
# image = ""             # override image for all agents (advanced; prefer [agents.<name>].image)
# user = "am"            # username inside the container (used for credential mount paths)

# Applies only when container.mode resolves to "devcontainer".
[devcontainer]
# path = ""                  # explicit devcontainer.json, relative to the worktree
# agent_install = "auto"     # "feature" | "bootstrap" | "none" | "auto"
# allow_host_commands = false # let initializeCommand run on the HOST — off by default
# skip_lifecycle = false     # skip postCreateCommand and friends
"#;

/// The global config template, every option in it set and explained.
pub const GLOBAL_CONFIG_TEMPLATE: &'static str = r#"# am global configuration — ~/.config/am/config.toml
# Sets machine-wide defaults for all projects.
# Precedence (highest wins): CLI flags > environment variables > project config (.am/config.toml) > global config
#
# Environment variable overrides:
#   AM_AGENT
#   AM_TMUX_AGENT_PANE, AM_TMUX_SPLIT, AM_TMUX_SPLIT_PERCENT
#   AM_CONTAINER_ENABLED, AM_CONTAINER_MODE, AM_CONTAINER_RUNTIME, AM_CONTAINER_IMAGE,
#   AM_CONTAINER_NETWORK, AM_CONTAINER_SSH_AGENT, AM_CONTAINER_USER
#   AM_DEVCONTAINER_PATH, AM_DEVCONTAINER_AGENT_INSTALL, AM_DEVCONTAINER_ALLOW_HOST_COMMANDS
#   AM_DEVCONTAINER_BIN (path to the `devcontainer` CLI)

[defaults]
agent = "copilot"      # agent to launch; also selects the container image via [agents.<name>]

# Per-agent configuration. These are the compiled-in defaults — override here if needed.
# `image` is used in container.mode = "image"; `devcontainer_feature` is injected at build
# time in devcontainer mode when agent_install resolves to "feature".
[agents.copilot]
image = "ghcr.io/dstanek/am-copilot-minimal:latest"

# Add entries for any other agent you use, e.g.:
# [agents.gemini]
# image = "ghcr.io/your-org/am-gemini:latest"

[tmux]
agent_pane = "left"    # which pane gets the agent: "left" | "right"
split = "horizontal"   # split direction: "horizontal" | "vertical"
split_percent = 50     # percentage of the window given to the agent pane (1-99)

[container]
enabled = true
mode = "auto"          # where the environment comes from:
                       #   "auto"         — the repo's .devcontainer/devcontainer.json when
                       #                    one is found, an am-resolved image otherwise
                       #   "devcontainer" — the repo's config; error if there isn't one
                       #   "image"        — an am-resolved image, ignoring any .devcontainer/
runtime = "auto"       # "auto" (podman first, then docker) | "podman" | "docker"
network = "full"       # "full" (unrestricted) | "none" (no network access)
env = []               # extra environment variables passed into the container, e.g. ["FOO=bar"]
# gitconfig = ""        # path to gitconfig to mount (default: ~/.gitconfig)
# ssh = ""              # path to SSH dir to mount (default: ~/.ssh)
ssh_agent = true       # forward the host's SSH_AUTH_SOCK, so a passphrase-protected or
                       #   agent-only key still works for git push inside the session
# image = ""            # override image for all agents (advanced; prefer [agents.<name>].image above)
# user = "am"           # username inside the container (used for credential mount paths)

# Applies only when container.mode resolves to "devcontainer". Building requires the
# `devcontainer` CLI (npm install -g @devcontainers/cli) and Node 20+. am builds the image
# once per config change and runs it itself, so the CLI is not on the hot path.
[devcontainer]
# path = ""                    # explicit devcontainer.json, relative to the session worktree;
                               # default is to discover .devcontainer/devcontainer.json
cli = "devcontainer"           # CLI binary name or path (AM_DEVCONTAINER_BIN overrides)
agent_install = "auto"         # how the agent gets into the image:
                               #   "feature"   — inject the agent's devcontainer Feature at build
                               #   "bootstrap" — install into a shared volume at run time
                               #   "none"      — the devcontainer already provides it
                               #   "auto"      — feature if one is mapped, else bootstrap
allow_host_commands = false    # let initializeCommand run on YOUR HOST, outside the container.
                               # Off by default: devcontainer.json is repo-controlled code.
skip_lifecycle = false         # skip postCreateCommand and the other in-container hooks
# home = ""                    # override the container home derived from remoteUser

# Extra Features to inject at build time, as id -> options JSON:
# [devcontainer.extra_features]
# "ghcr.io/devcontainers/features/node:1" = "{}"
"#;

/// The project config skeleton. A project file that set anything would override the user's global
/// configuration the moment it was created, so nothing in it is active.
pub fn render_project_config_skeleton() -> (r: &'static str)
    ensures
        r@ == PROJECT_CONFIG_SKELETON@,
{
    PROJECT_CONFIG_SKELETON
}

/// The global config template.
pub fn global_config_template() -> (r: &'static str)
    ensures
        r@ == GLOBAL_CONFIG_TEMPLATE@,
{
    GLOBAL_CONFIG_TEMPLATE
}

} // verus!
