//! Configuration files.

use vstd::prelude::*;

use crate::config::{AgentInstall, ContainerMode, NetworkMode, PaneSide, RuntimePreference, SplitDirection};
use crate::decode;
use crate::error::{AmError, AmErrorModel};
use crate::json::{self, Json, JsonModel};
use crate::strmap::StrMap;
use crate::text;
use crate::toml_text;

verus! {

/// The `[defaults]` table.
#[derive(Debug, PartialEq)]
pub struct FileDefaults {
    pub agent: Option<String>,
    /// Keys that are not recognised.
    pub unknown: Vec<String>,
}

/// What a [`FileDefaults`] stands for.
pub struct FileDefaultsModel {
    pub agent: Option<Seq<char>>,
    pub unknown: Seq<Seq<char>>,
}

impl DeepView for FileDefaults {
    type V = FileDefaultsModel;

    open spec fn deep_view(&self) -> FileDefaultsModel {
        FileDefaultsModel {
            agent: self.agent.deep_view(),
            unknown: self.unknown.deep_view(),
        }
    }
}

/// One `[agents.<name>]` table.
#[derive(Debug, PartialEq)]
pub struct FileAgentSettings {
    pub image: Option<String>,
    pub devcontainer_feature: Option<String>,
    /// Keys that are not recognised.
    pub unknown: Vec<String>,
}

/// What a [`FileAgentSettings`] stands for.
pub struct FileAgentModel {
    pub image: Option<Seq<char>>,
    pub devcontainer_feature: Option<Seq<char>>,
    pub unknown: Seq<Seq<char>>,
}

impl DeepView for FileAgentSettings {
    type V = FileAgentModel;

    open spec fn deep_view(&self) -> FileAgentModel {
        FileAgentModel {
            image: self.image.deep_view(),
            devcontainer_feature: self.devcontainer_feature.deep_view(),
            unknown: self.unknown.deep_view(),
        }
    }
}

/// The `[tmux]` table.
#[derive(Debug, PartialEq)]
pub struct FileTmux {
    pub agent_pane: Option<PaneSide>,
    pub split: Option<SplitDirection>,
    pub split_percent: Option<u8>,
    /// Keys that are not recognised.
    pub unknown: Vec<String>,
}

/// What a [`FileTmux`] stands for.
pub struct FileTmuxModel {
    pub agent_pane: Option<PaneSide>,
    pub split: Option<SplitDirection>,
    pub split_percent: Option<u8>,
    pub unknown: Seq<Seq<char>>,
}

impl DeepView for FileTmux {
    type V = FileTmuxModel;

    open spec fn deep_view(&self) -> FileTmuxModel {
        FileTmuxModel {
            agent_pane: self.agent_pane,
            split: self.split,
            split_percent: self.split_percent,
            unknown: self.unknown.deep_view(),
        }
    }
}

/// The `[container]` table.
#[derive(Debug, PartialEq)]
pub struct FileContainer {
    pub enabled: Option<bool>,
    pub mode: Option<ContainerMode>,
    pub runtime: Option<RuntimePreference>,
    pub image: Option<String>,
    pub network: Option<NetworkMode>,
    pub env: Option<Vec<String>>,
    pub gitconfig: Option<String>,
    pub ssh: Option<String>,
    pub ssh_agent: Option<bool>,
    pub user: Option<String>,
    /// Keys that are not recognised.
    pub unknown: Vec<String>,
}

/// What a [`FileContainer`] stands for.
pub struct FileContainerModel {
    pub enabled: Option<bool>,
    pub mode: Option<ContainerMode>,
    pub runtime: Option<RuntimePreference>,
    pub image: Option<Seq<char>>,
    pub network: Option<NetworkMode>,
    pub env: Option<Seq<Seq<char>>>,
    pub gitconfig: Option<Seq<char>>,
    pub ssh: Option<Seq<char>>,
    pub ssh_agent: Option<bool>,
    pub user: Option<Seq<char>>,
    pub unknown: Seq<Seq<char>>,
}

impl DeepView for FileContainer {
    type V = FileContainerModel;

    open spec fn deep_view(&self) -> FileContainerModel {
        FileContainerModel {
            enabled: self.enabled,
            mode: self.mode,
            runtime: self.runtime,
            image: self.image.deep_view(),
            network: self.network,
            env: self.env.deep_view(),
            gitconfig: self.gitconfig.deep_view(),
            ssh: self.ssh.deep_view(),
            ssh_agent: self.ssh_agent,
            user: self.user.deep_view(),
            unknown: self.unknown.deep_view(),
        }
    }
}

/// The `[devcontainer]` table.
#[derive(Debug, PartialEq)]
pub struct FileDevcontainer {
    pub path: Option<String>,
    pub cli: Option<String>,
    pub agent_install: Option<AgentInstall>,
    pub allow_host_commands: Option<bool>,
    pub skip_lifecycle: Option<bool>,
    pub home: Option<String>,
    pub extra_features: Option<StrMap<String>>,
    /// Keys that are not recognised.
    pub unknown: Vec<String>,
}

/// What a [`FileDevcontainer`] stands for.
pub struct FileDevcontainerModel {
    pub path: Option<Seq<char>>,
    pub cli: Option<Seq<char>>,
    pub agent_install: Option<AgentInstall>,
    pub allow_host_commands: Option<bool>,
    pub skip_lifecycle: Option<bool>,
    pub home: Option<Seq<char>>,
    pub extra_features: Option<Seq<(Seq<char>, Seq<char>)>>,
    pub unknown: Seq<Seq<char>>,
}

impl DeepView for FileDevcontainer {
    type V = FileDevcontainerModel;

    open spec fn deep_view(&self) -> FileDevcontainerModel {
        FileDevcontainerModel {
            path: self.path.deep_view(),
            cli: self.cli.deep_view(),
            agent_install: self.agent_install,
            allow_host_commands: self.allow_host_commands,
            skip_lifecycle: self.skip_lifecycle,
            home: self.home.deep_view(),
            extra_features: self.extra_features.deep_view(),
            unknown: self.unknown.deep_view(),
        }
    }
}

/// A configuration file.
#[derive(Debug, PartialEq)]
pub struct FileConfig {
    pub defaults: FileDefaults,
    pub agents: StrMap<FileAgentSettings>,
    pub tmux: FileTmux,
    pub container: FileContainer,
    pub devcontainer: FileDevcontainer,
    pub unknown: Vec<String>,
}

/// What a [`FileConfig`] stands for.
pub struct FileModel {
    pub defaults: FileDefaultsModel,
    pub agents: Seq<(Seq<char>, FileAgentModel)>,
    pub tmux: FileTmuxModel,
    pub container: FileContainerModel,
    pub devcontainer: FileDevcontainerModel,
    pub unknown: Seq<Seq<char>>,
}

impl DeepView for FileConfig {
    type V = FileModel;

    open spec fn deep_view(&self) -> FileModel {
        FileModel {
            defaults: self.defaults.deep_view(),
            agents: self.agents.deep_view(),
            tmux: self.tmux.deep_view(),
            container: self.container.deep_view(),
            devcontainer: self.devcontainer.deep_view(),
            unknown: self.unknown.deep_view(),
        }
    }
}

// ----------------------------------------------------------------------------------------------
// Reading
// ----------------------------------------------------------------------------------------------

/// An optional number that fits in a byte.
pub open spec fn byte_of(j: Option<JsonModel>) -> Option<Option<u8>> {
    match j {
        None => Some(None),
        Some(JsonModel::Number(n)) => if n.len() > 0 && n[0] != '+' && text::parsed(n, 255) is Some {
            Some(Some(text::parsed(n, 255)->0 as u8))
        } else {
            None
        },
        _ => None,
    }
}

fn read_byte(j: Option<&Json>) -> (r: Option<Option<u8>>)
    ensures
        r == byte_of(j.deep_view()),
{
    match j {
        None => Some(None),
        Some(Json::Number(n)) => {
            if n.as_str().unicode_len() > 0 && n.as_str().get_char(0) != '+' {
                match text::parse_number(n.as_str(), 255) {
                    Some(v) => Some(Some(v as u8)),
                    None => None,
                }
            } else {
                None
            }
        },
        _ => None,
    }
}

/// An optional list of texts.
pub open spec fn opt_texts_of(j: Option<JsonModel>) -> Option<Option<Seq<Seq<char>>>> {
    match j {
        None => Some(None),
        _ => match decode::texts_of(j) {
            Some(t) => Some(Some(t)),
            None => None,
        },
    }
}

fn read_texts(j: Option<&Json>) -> (r: Option<Option<Vec<String>>>)
    ensures
        r.deep_view() == opt_texts_of(j.deep_view()),
{
    match j {
        None => Some(None),
        _ => match decode::texts(j) {
            Some(t) => Some(Some(t)),
            None => None,
        },
    }
}

/// An optional map of texts.
pub open spec fn opt_text_map_of(j: Option<JsonModel>) -> Option<Option<Seq<(Seq<char>, Seq<char>)>>> {
    match j {
        None => Some(None),
        _ => match decode::text_map_of(j) {
            Some(t) => Some(Some(t)),
            None => None,
        },
    }
}

fn read_text_map(j: Option<&Json>) -> (r: Option<Option<StrMap<String>>>)
    ensures
        r.deep_view() == opt_text_map_of(j.deep_view()),
{
    match j {
        None => Some(None),
        _ => match decode::text_map(j) {
            Some(t) => Some(Some(t)),
            None => None,
        },
    }
}

/// The keys of a table that are not among `known`, in the order of the table.
pub open spec fn unknown_of(o: Seq<(Seq<char>, JsonModel)>, known: Seq<Seq<char>>) -> Seq<Seq<char>>
    decreases o.len(),
{
    if o.len() == 0 {
        Seq::empty()
    } else {
        let rest = unknown_of(o.drop_last(), known);
        if known.contains(o.last().0) {
            rest
        } else {
            rest.push(o.last().0)
        }
    }
}

fn is_known(known: &Vec<&str>, k: &str) -> (r: bool)
    ensures
        r == known.deep_view().contains(k@),
{
    let mut i: usize = 0;
    while i < known.len()
        invariant
            i <= known.len(),
            forall|n: int| 0 <= n < i ==> (#[trigger] known.deep_view()[n]) != k@,
        decreases known.len() - i,
    {
        assert(known.deep_view()[i as int] == known@[i as int]@);
        if text::eq(known[i], k) {
            return true;
        }
        i = i + 1;
    }
    false
}

fn unknown_keys(o: &Vec<(String, Json)>, known: &Vec<&str>) -> (r: Vec<String>)
    ensures
        r.deep_view() == unknown_of(json::members_model(o@), known.deep_view()),
{
    let ghost m = json::members_model(o@);
    let mut out: Vec<String> = Vec::new();
    let mut i: usize = 0;
    assert(out.deep_view() =~= unknown_of(m.subrange(0, 0), known.deep_view()));
    while i < o.len()
        invariant
            m == json::members_model(o@),
            i <= o.len(),
            out.deep_view() == unknown_of(m.subrange(0, i as int), known.deep_view()),
        decreases o.len() - i,
    {
        assert(m.subrange(0, i + 1).drop_last() =~= m.subrange(0, i as int));
        assert(m[i as int] == (o@[i as int].0@, o@[i as int].1@));
        if !is_known(known, o[i].0.as_str()) {
            text::push_str(&mut out, o[i].0.as_str());
        }
        i = i + 1;
    }
    assert(m.subrange(0, m.len() as int) =~= m);
    out
}

/// The table as a document spells it.
pub open spec fn defaults_of(j: JsonModel) -> Option<FileDefaultsModel> {
    let agent = decode::opt_text_of(j.member("agent"@));
    if j is Object && agent is Some {
        Some(
            FileDefaultsModel {
                agent: agent->0,
                unknown: unknown_of(j->Object_0, seq!["agent"@]),
            },
        )
    } else {
        None
    }
}

fn read_defaults(j: &Json) -> (r: Option<FileDefaults>)
    ensures
        r.deep_view() == defaults_of(j@),
{
    broadcast use crate::json::lemma_object_view;

    let known: Vec<&str> = vec!["agent"];
    assert(known.deep_view() =~= seq!["agent"@]);
    let unknown = match j {
        Json::Object(o) => unknown_keys(o, &known),
        _ => {
            return None;
        },
    };
    let agent = decode::opt_text(j.get("agent"));
    if agent.is_none() {
        return None;
    }
    Some(
        FileDefaults {
            agent: agent.unwrap(),
            unknown,
        },
    )
}

/// The table as a document spells it.
pub open spec fn agent_of(j: JsonModel) -> Option<FileAgentModel> {
    let image = decode::opt_text_of(j.member("image"@));
    let devcontainer_feature = decode::opt_text_of(j.member("devcontainer_feature"@));
    if j is Object && image is Some && devcontainer_feature is Some {
        Some(
            FileAgentModel {
                image: image->0,
                devcontainer_feature: devcontainer_feature->0,
                unknown: unknown_of(j->Object_0, seq!["image"@, "devcontainer_feature"@]),
            },
        )
    } else {
        None
    }
}

fn read_agent(j: &Json) -> (r: Option<FileAgentSettings>)
    ensures
        r.deep_view() == agent_of(j@),
{
    broadcast use crate::json::lemma_object_view;

    let known: Vec<&str> = vec!["image", "devcontainer_feature"];
    assert(known.deep_view() =~= seq!["image"@, "devcontainer_feature"@]);
    let unknown = match j {
        Json::Object(o) => unknown_keys(o, &known),
        _ => {
            return None;
        },
    };
    let image = decode::opt_text(j.get("image"));
    let devcontainer_feature = decode::opt_text(j.get("devcontainer_feature"));
    if image.is_none() || devcontainer_feature.is_none() {
        return None;
    }
    Some(
        FileAgentSettings {
            image: image.unwrap(),
            devcontainer_feature: devcontainer_feature.unwrap(),
            unknown,
        },
    )
}

/// The table as a document spells it.
pub open spec fn tmux_of(j: JsonModel) -> Option<FileTmuxModel> {
    let agent_pane = PaneSide::member_of(j.member("agent_pane"@));
    let split = SplitDirection::member_of(j.member("split"@));
    let split_percent = byte_of(j.member("split_percent"@));
    if j is Object && agent_pane is Some && split is Some && split_percent is Some {
        Some(
            FileTmuxModel {
                agent_pane: agent_pane->0,
                split: split->0,
                split_percent: split_percent->0,
                unknown: unknown_of(j->Object_0, seq!["agent_pane"@, "split"@, "split_percent"@]),
            },
        )
    } else {
        None
    }
}

fn read_tmux(j: &Json) -> (r: Option<FileTmux>)
    ensures
        r.deep_view() == tmux_of(j@),
{
    broadcast use crate::json::lemma_object_view;

    let known: Vec<&str> = vec!["agent_pane", "split", "split_percent"];
    assert(known.deep_view() =~= seq!["agent_pane"@, "split"@, "split_percent"@]);
    let unknown = match j {
        Json::Object(o) => unknown_keys(o, &known),
        _ => {
            return None;
        },
    };
    let agent_pane = PaneSide::read_member(j.get("agent_pane"));
    let split = SplitDirection::read_member(j.get("split"));
    let split_percent = read_byte(j.get("split_percent"));
    if agent_pane.is_none() || split.is_none() || split_percent.is_none() {
        return None;
    }
    Some(
        FileTmux {
            agent_pane: agent_pane.unwrap(),
            split: split.unwrap(),
            split_percent: split_percent.unwrap(),
            unknown,
        },
    )
}

/// The table as a document spells it.
pub open spec fn container_of(j: JsonModel) -> Option<FileContainerModel> {
    let enabled = decode::opt_bool_of(j.member("enabled"@));
    let mode = ContainerMode::member_of(j.member("mode"@));
    let runtime = RuntimePreference::member_of(j.member("runtime"@));
    let image = decode::opt_text_of(j.member("image"@));
    let network = NetworkMode::member_of(j.member("network"@));
    let env = opt_texts_of(j.member("env"@));
    let gitconfig = decode::opt_text_of(j.member("gitconfig"@));
    let ssh = decode::opt_text_of(j.member("ssh"@));
    let ssh_agent = decode::opt_bool_of(j.member("ssh_agent"@));
    let user = decode::opt_text_of(j.member("user"@));
    if j is Object && enabled is Some && mode is Some && runtime is Some && image is Some && network is Some && env is Some && gitconfig is Some && ssh is Some && ssh_agent is Some && user is Some {
        Some(
            FileContainerModel {
                enabled: enabled->0,
                mode: mode->0,
                runtime: runtime->0,
                image: image->0,
                network: network->0,
                env: env->0,
                gitconfig: gitconfig->0,
                ssh: ssh->0,
                ssh_agent: ssh_agent->0,
                user: user->0,
                unknown: unknown_of(j->Object_0, seq!["enabled"@, "mode"@, "runtime"@, "image"@, "network"@, "env"@, "gitconfig"@, "ssh"@, "ssh_agent"@, "user"@]),
            },
        )
    } else {
        None
    }
}

fn read_container(j: &Json) -> (r: Option<FileContainer>)
    ensures
        r.deep_view() == container_of(j@),
{
    broadcast use crate::json::lemma_object_view;

    let known: Vec<&str> = vec!["enabled", "mode", "runtime", "image", "network", "env", "gitconfig", "ssh", "ssh_agent", "user"];
    assert(known.deep_view() =~= seq!["enabled"@, "mode"@, "runtime"@, "image"@, "network"@, "env"@, "gitconfig"@, "ssh"@, "ssh_agent"@, "user"@]);
    let unknown = match j {
        Json::Object(o) => unknown_keys(o, &known),
        _ => {
            return None;
        },
    };
    let enabled = decode::opt_bool(j.get("enabled"));
    let mode = ContainerMode::read_member(j.get("mode"));
    let runtime = RuntimePreference::read_member(j.get("runtime"));
    let image = decode::opt_text(j.get("image"));
    let network = NetworkMode::read_member(j.get("network"));
    let env = read_texts(j.get("env"));
    let gitconfig = decode::opt_text(j.get("gitconfig"));
    let ssh = decode::opt_text(j.get("ssh"));
    let ssh_agent = decode::opt_bool(j.get("ssh_agent"));
    let user = decode::opt_text(j.get("user"));
    if enabled.is_none() || mode.is_none() || runtime.is_none() || image.is_none() || network.is_none() || env.is_none() || gitconfig.is_none() || ssh.is_none() || ssh_agent.is_none() || user.is_none() {
        return None;
    }
    Some(
        FileContainer {
            enabled: enabled.unwrap(),
            mode: mode.unwrap(),
            runtime: runtime.unwrap(),
            image: image.unwrap(),
            network: network.unwrap(),
            env: env.unwrap(),
            gitconfig: gitconfig.unwrap(),
            ssh: ssh.unwrap(),
            ssh_agent: ssh_agent.unwrap(),
            user: user.unwrap(),
            unknown,
        },
    )
}

/// The table as a document spells it.
pub open spec fn devcontainer_of(j: JsonModel) -> Option<FileDevcontainerModel> {
    let path = decode::opt_text_of(j.member("path"@));
    let cli = decode::opt_text_of(j.member("cli"@));
    let agent_install = AgentInstall::member_of(j.member("agent_install"@));
    let allow_host_commands = decode::opt_bool_of(j.member("allow_host_commands"@));
    let skip_lifecycle = decode::opt_bool_of(j.member("skip_lifecycle"@));
    let home = decode::opt_text_of(j.member("home"@));
    let extra_features = opt_text_map_of(j.member("extra_features"@));
    if j is Object && path is Some && cli is Some && agent_install is Some && allow_host_commands is Some && skip_lifecycle is Some && home is Some && extra_features is Some {
        Some(
            FileDevcontainerModel {
                path: path->0,
                cli: cli->0,
                agent_install: agent_install->0,
                allow_host_commands: allow_host_commands->0,
                skip_lifecycle: skip_lifecycle->0,
                home: home->0,
                extra_features: extra_features->0,
                unknown: unknown_of(j->Object_0, seq!["path"@, "cli"@, "agent_install"@, "allow_host_commands"@, "skip_lifecycle"@, "home"@, "extra_features"@]),
            },
        )
    } else {
        None
    }
}

fn read_devcontainer(j: &Json) -> (r: Option<FileDevcontainer>)
    ensures
        r.deep_view() == devcontainer_of(j@),
{
    broadcast use crate::json::lemma_object_view;

    let known: Vec<&str> = vec!["path", "cli", "agent_install", "allow_host_commands", "skip_lifecycle", "home", "extra_features"];
    assert(known.deep_view() =~= seq!["path"@, "cli"@, "agent_install"@, "allow_host_commands"@, "skip_lifecycle"@, "home"@, "extra_features"@]);
    let unknown = match j {
        Json::Object(o) => unknown_keys(o, &known),
        _ => {
            return None;
        },
    };
    let path = decode::opt_text(j.get("path"));
    let cli = decode::opt_text(j.get("cli"));
    let agent_install = AgentInstall::read_member(j.get("agent_install"));
    let allow_host_commands = decode::opt_bool(j.get("allow_host_commands"));
    let skip_lifecycle = decode::opt_bool(j.get("skip_lifecycle"));
    let home = decode::opt_text(j.get("home"));
    let extra_features = read_text_map(j.get("extra_features"));
    if path.is_none() || cli.is_none() || agent_install.is_none() || allow_host_commands.is_none() || skip_lifecycle.is_none() || home.is_none() || extra_features.is_none() {
        return None;
    }
    Some(
        FileDevcontainer {
            path: path.unwrap(),
            cli: cli.unwrap(),
            agent_install: agent_install.unwrap(),
            allow_host_commands: allow_host_commands.unwrap(),
            skip_lifecycle: skip_lifecycle.unwrap(),
            home: home.unwrap(),
            extra_features: extra_features.unwrap(),
            unknown,
        },
    )
}

/// A table that may be absent, which then counts as empty.
pub open spec fn table_or_empty(j: Option<JsonModel>) -> JsonModel {
    match j {
        Some(v) => v,
        None => JsonModel::Object(Seq::empty()),
    }
}

/// The agents that the members of `[agents]` describe.
pub open spec fn agents_of(o: Seq<(Seq<char>, JsonModel)>) -> Option<Seq<(Seq<char>, FileAgentModel)>> {
    if forall|i: int| 0 <= i < o.len() ==> agent_of((#[trigger] o[i]).1) is Some {
        Some(decode::collected(o.map_values(|e: (Seq<char>, JsonModel)| (e.0, agent_of(e.1)->0))))
    } else {
        None
    }
}

/// The tables that a configuration file can have.
pub open spec fn known_tables() -> Seq<Seq<char>> {
    seq!["defaults"@, "agents"@, "tmux"@, "container"@, "devcontainer"@]
}

/// The configuration file that a document spells.
pub open spec fn file_of(j: JsonModel) -> Option<FileModel> {
    let defaults = defaults_of(table_or_empty(j.member("defaults"@)));
    let tmux = tmux_of(table_or_empty(j.member("tmux"@)));
    let container = container_of(table_or_empty(j.member("container"@)));
    let devcontainer = devcontainer_of(table_or_empty(j.member("devcontainer"@)));
    let agents = match table_or_empty(j.member("agents"@)) {
        JsonModel::Object(o) => agents_of(o),
        _ => None,
    };
    if j is Object && defaults is Some && tmux is Some && container is Some && devcontainer is Some && agents is Some {
        Some(
            FileModel {
                defaults: defaults->0,
                agents: agents->0,
                tmux: tmux->0,
                container: container->0,
                devcontainer: devcontainer->0,
                unknown: unknown_of(j->Object_0, known_tables()),
            },
        )
    } else {
        None
    }
}

fn table<'a>(j: Option<&'a Json>, empty: &'a Json) -> (r: &'a Json)
    requires
        empty@ == JsonModel::Object(Seq::empty()),
    ensures
        r@ == table_or_empty(j.deep_view()),
{
    match j {
        Some(v) => v,
        None => empty,
    }
}

fn read_agents(j: &Json) -> (r: Option<StrMap<FileAgentSettings>>)
    ensures
        r.deep_view() == (match j@ {
            JsonModel::Object(o) => agents_of(o),
            _ => None,
        }),
{
    broadcast use crate::json::lemma_object_view;

    match j {
        Json::Object(o) => {
            let mut out: StrMap<FileAgentSettings> = StrMap::new();
            let ghost m = json::members_model(o@);
            let ghost t = m.map_values(|e: (Seq<char>, JsonModel)| (e.0, agent_of(e.1)->0));
            let mut i: usize = 0;
            assert(t.subrange(0, 0) =~= Seq::empty());
            while i < o.len()
                invariant
                    j@ == JsonModel::Object(m),
                    m == json::members_model(o@),
                    t == m.map_values(|e: (Seq<char>, JsonModel)| (e.0, agent_of(e.1)->0)),
                    i <= o.len(),
                    forall|k: int| 0 <= k < i ==> agent_of((#[trigger] m[k]).1) is Some,
                    out.deep_view() == decode::collected(t.subrange(0, i as int)),
                decreases o.len() - i,
            {
                assert(m[i as int] == (o@[i as int].0@, o@[i as int].1@));
                match read_agent(&o[i].1) {
                    Some(a) => {
                        out.insert(o[i].0.clone(), a);
                    },
                    None => {
                        return None;
                    },
                }
                i = i + 1;
                assert(t.subrange(0, i as int).drop_last() =~= t.subrange(0, i - 1));
            }
            assert(t.subrange(0, t.len() as int) =~= t);
            Some(out)
        },
        _ => None,
    }
}

/// Reads a configuration file that is already a document.
pub fn read_file(j: &Json) -> (r: Option<FileConfig>)
    ensures
        r.deep_view() == file_of(j@),
{
    broadcast use crate::json::lemma_object_view;

    let known: Vec<&str> = vec!["defaults", "agents", "tmux", "container", "devcontainer"];
    assert(known.deep_view() =~= known_tables());
    let unknown = match j {
        Json::Object(o) => unknown_keys(o, &known),
        _ => {
            return None;
        },
    };
    let empty = Json::Object(Vec::new());
    assert(empty@->Object_0 =~= Seq::empty());
    let defaults = read_defaults(table(j.get("defaults"), &empty));
    let tmux = read_tmux(table(j.get("tmux"), &empty));
    let container = read_container(table(j.get("container"), &empty));
    let devcontainer = read_devcontainer(table(j.get("devcontainer"), &empty));
    let agents = read_agents(table(j.get("agents"), &empty));
    if defaults.is_none() || tmux.is_none() || container.is_none() || devcontainer.is_none() || agents.is_none() {
        return None;
    }
    Some(
        FileConfig {
            defaults: defaults.unwrap(),
            agents: agents.unwrap(),
            tmux: tmux.unwrap(),
            container: container.unwrap(),
            devcontainer: devcontainer.unwrap(),
            unknown,
        },
    )
}

/// A table whose keys are all known has no unknown ones.
pub proof fn lemma_nothing_unknown(o: Seq<(Seq<char>, JsonModel)>, known: Seq<Seq<char>>)
    requires
        forall|i: int| 0 <= i < o.len() ==> known.contains((#[trigger] o[i]).0),
    ensures
        unknown_of(o, known) == Seq::<Seq<char>>::empty(),
    decreases o.len(),
{
    if o.len() > 0 {
        let r = o.drop_last();
        assert forall|i: int| 0 <= i < r.len() implies known.contains((#[trigger] r[i]).0) by {
            assert(r[i] == o[i]);
        }
        lemma_nothing_unknown(r, known);
        assert(known.contains(o[o.len() - 1].0));
    }
}

/// Where every member is an empty table, the table under any key is empty.
pub proof fn lemma_table_is_empty(o: Seq<(Seq<char>, JsonModel)>, key: Seq<char>)
    requires
        forall|i: int| 0 <= i < o.len() ==> (#[trigger] o[i]).1 == JsonModel::Object(Seq::empty()),
    ensures
        table_or_empty(json::lookup(o, key)) == JsonModel::Object(Seq::empty()),
    decreases o.len(),
{
    if o.len() > 0 {
        let r = o.drop_first();
        assert(o[0].1 == JsonModel::Object(Seq::empty()));
        assert forall|i: int| 0 <= i < r.len() implies (#[trigger] r[i]).1 == JsonModel::Object(Seq::empty()) by {
            assert(r[i] == o[i + 1]);
        }
        lemma_table_is_empty(r, key);
    }
}

/// What a configuration file says; `parsed` is what the TOML reader made of its text.
pub open spec fn file_config_of(path: Seq<char>, parsed: Result<JsonModel, Seq<char>>) -> Result<
    FileModel,
    AmErrorModel,
> {
    let failed = AmErrorModel::ConfigError("parsing config file "@ + path);
    match parsed {
        Err(_) => Err(failed),
        Ok(j) => match file_of(j) {
            Some(f) => Ok(f),
            None => Err(failed),
        },
    }
}

/// Parses the text of the configuration file at `path`.
pub fn parse_config_file(path: &str, text: &str) -> (r: Result<FileConfig, AmError>)
    ensures
        crate::error::outcome(r) == file_config_of(path@, toml_text::toml_document(text@)),
{
    match toml_text::parse_toml(text) {
        Err(_) => Err(AmError::ConfigError(crate::text::cat2("parsing config file ", path))),
        Ok(j) => match read_file(&j) {
            Some(f) => Ok(f),
            None => Err(AmError::ConfigError(crate::text::cat2("parsing config file ", path))),
        },
    }
}

// ----------------------------------------------------------------------------------------------
// What a file says
// ----------------------------------------------------------------------------------------------

/// Whether some keys are exactly those of a table that are not known.
pub open spec fn are_unknown(keys: Seq<Seq<char>>, o: Seq<(Seq<char>, JsonModel)>, known: Seq<Seq<char>>) -> bool {
    forall|k: Seq<char>| #[trigger]
        keys.contains(k) <==> !known.contains(k) && exists|i: int| 0 <= i < o.len() && (#[trigger] o[i]).0 == k
}

proof fn lemma_are_unknown(o: Seq<(Seq<char>, JsonModel)>, known: Seq<Seq<char>>)
    ensures
        are_unknown(unknown_of(o, known), o, known),
    decreases o.len(),
{
    if o.len() > 0 {
        let front = o.drop_last();
        let last = o.len() - 1;
        let rest = unknown_of(front, known);
        let all = unknown_of(o, known);
        lemma_are_unknown(front, known);
        assert forall|k: Seq<char>| #[trigger] all.contains(k) <==> !known.contains(k) && exists|i: int|
            0 <= i < o.len() && (#[trigger] o[i]).0 == k by {
            if all.contains(k) {
                let i = choose|i: int| 0 <= i < all.len() && all[i] == k;
                if i < rest.len() {
                    assert(rest[i] == k);
                    assert(rest.contains(k));
                    let j = choose|j: int| 0 <= j < front.len() && (#[trigger] front[j]).0 == k;
                    assert(o[j].0 == k);
                } else {
                    assert(o[last].0 == k);
                }
            }
            if !known.contains(k) && exists|i: int| 0 <= i < o.len() && (#[trigger] o[i]).0 == k {
                let i = choose|i: int| 0 <= i < o.len() && (#[trigger] o[i]).0 == k;
                if i < last {
                    assert(front[i].0 == k);
                    assert(rest.contains(k));
                    let j = choose|j: int| 0 <= j < rest.len() && rest[j] == k;
                    assert(all[j] == k);
                } else {
                    assert(all[rest.len() as int] == k);
                }
            }
        }
    }
}

/// Every setting of the `[defaults]` table is what the table says under its own name, and every other key is
/// one that is not known.
pub proof fn law_the_defaults_table_says_what_it_spells(o: Seq<(Seq<char>, JsonModel)>)
    ensures
        defaults_of(JsonModel::Object(o)) matches Some(s) ==> {
            &&& decode::spells_text(json::lookup(o, "agent"@), s.agent)
            &&& are_unknown(s.unknown, o, seq!["agent"@])
        },
{
    lemma_are_unknown(o, seq!["agent"@]);
    decode::law_what_is_read_is_what_is_there(json::lookup(o, "agent"@));
}

/// Every setting of the `[tmux]` table is what the table says under its own name, and every other key is
/// one that is not known.
pub proof fn law_the_tmux_table_says_what_it_spells(o: Seq<(Seq<char>, JsonModel)>)
    ensures
        tmux_of(JsonModel::Object(o)) matches Some(s) ==> {
            &&& json::lookup(o, "agent_pane"@) is None ==> s.agent_pane is None
            &&& json::lookup(o, "agent_pane"@) matches Some(JsonModel::Str(v)) ==> s.agent_pane is Some && s.agent_pane == PaneSide::named(v)
            &&& json::lookup(o, "split"@) is None ==> s.split is None
            &&& json::lookup(o, "split"@) matches Some(JsonModel::Str(v)) ==> s.split is Some && s.split == SplitDirection::named(v)
            &&& json::lookup(o, "split_percent"@) is None ==> s.split_percent is None
            &&& json::lookup(o, "split_percent"@) matches Some(JsonModel::Number(n)) ==> s.split_percent is Some && text::parsed(n, 255) == Some(
                s.split_percent->0 as nat,
            )
            &&& are_unknown(s.unknown, o, seq!["agent_pane"@, "split"@, "split_percent"@])
        },
{
    lemma_are_unknown(o, seq!["agent_pane"@, "split"@, "split_percent"@]);
}

/// Every setting of the `[container]` table is what the table says under its own name, and every other key is
/// one that is not known.
pub proof fn law_the_container_table_says_what_it_spells(o: Seq<(Seq<char>, JsonModel)>)
    ensures
        container_of(JsonModel::Object(o)) matches Some(s) ==> {
            &&& decode::spells_flag(json::lookup(o, "enabled"@), s.enabled)
            &&& json::lookup(o, "mode"@) is None ==> s.mode is None
            &&& json::lookup(o, "mode"@) matches Some(JsonModel::Str(v)) ==> s.mode is Some && s.mode == ContainerMode::named(v)
            &&& json::lookup(o, "runtime"@) is None ==> s.runtime is None
            &&& json::lookup(o, "runtime"@) matches Some(JsonModel::Str(v)) ==> s.runtime is Some && s.runtime == RuntimePreference::named(v)
            &&& decode::spells_text(json::lookup(o, "image"@), s.image)
            &&& json::lookup(o, "network"@) is None ==> s.network is None
            &&& json::lookup(o, "network"@) matches Some(JsonModel::Str(v)) ==> s.network is Some && s.network == NetworkMode::named(v)
            &&& json::lookup(o, "env"@) is None ==> s.env is None
            &&& json::lookup(o, "env"@) is Some ==> s.env is Some && decode::spells_texts(json::lookup(o, "env"@), s.env->0)
            &&& decode::spells_text(json::lookup(o, "gitconfig"@), s.gitconfig)
            &&& decode::spells_text(json::lookup(o, "ssh"@), s.ssh)
            &&& decode::spells_flag(json::lookup(o, "ssh_agent"@), s.ssh_agent)
            &&& decode::spells_text(json::lookup(o, "user"@), s.user)
            &&& are_unknown(s.unknown, o, seq!["enabled"@, "mode"@, "runtime"@, "image"@, "network"@, "env"@, "gitconfig"@, "ssh"@, "ssh_agent"@, "user"@])
        },
{
    lemma_are_unknown(o, seq!["enabled"@, "mode"@, "runtime"@, "image"@, "network"@, "env"@, "gitconfig"@, "ssh"@, "ssh_agent"@, "user"@]);
    decode::law_what_is_read_is_what_is_there(json::lookup(o, "enabled"@));
    decode::law_what_is_read_is_what_is_there(json::lookup(o, "image"@));
    decode::law_what_is_read_is_what_is_there(json::lookup(o, "env"@));
    decode::law_what_is_read_is_what_is_there(json::lookup(o, "gitconfig"@));
    decode::law_what_is_read_is_what_is_there(json::lookup(o, "ssh"@));
    decode::law_what_is_read_is_what_is_there(json::lookup(o, "ssh_agent"@));
    decode::law_what_is_read_is_what_is_there(json::lookup(o, "user"@));
}

/// Every setting of the `[devcontainer]` table is what the table says under its own name, and every other key is
/// one that is not known.
pub proof fn law_the_devcontainer_table_says_what_it_spells(o: Seq<(Seq<char>, JsonModel)>)
    ensures
        devcontainer_of(JsonModel::Object(o)) matches Some(s) ==> {
            &&& decode::spells_text(json::lookup(o, "path"@), s.path)
            &&& decode::spells_text(json::lookup(o, "cli"@), s.cli)
            &&& json::lookup(o, "agent_install"@) is None ==> s.agent_install is None
            &&& json::lookup(o, "agent_install"@) matches Some(JsonModel::Str(v)) ==> s.agent_install is Some && s.agent_install == AgentInstall::named(v)
            &&& decode::spells_flag(json::lookup(o, "allow_host_commands"@), s.allow_host_commands)
            &&& decode::spells_flag(json::lookup(o, "skip_lifecycle"@), s.skip_lifecycle)
            &&& decode::spells_text(json::lookup(o, "home"@), s.home)
            &&& json::lookup(o, "extra_features"@) is None ==> s.extra_features is None
            &&& json::lookup(o, "extra_features"@) is Some ==> s.extra_features is Some && decode::spells_map(json::lookup(o, "extra_features"@), s.extra_features->0, |v: JsonModel| v.text())
            &&& are_unknown(s.unknown, o, seq!["path"@, "cli"@, "agent_install"@, "allow_host_commands"@, "skip_lifecycle"@, "home"@, "extra_features"@])
        },
{
    lemma_are_unknown(o, seq!["path"@, "cli"@, "agent_install"@, "allow_host_commands"@, "skip_lifecycle"@, "home"@, "extra_features"@]);
    decode::law_what_is_read_is_what_is_there(json::lookup(o, "path"@));
    decode::law_what_is_read_is_what_is_there(json::lookup(o, "cli"@));
    decode::law_what_is_read_is_what_is_there(json::lookup(o, "allow_host_commands"@));
    decode::law_what_is_read_is_what_is_there(json::lookup(o, "skip_lifecycle"@));
    decode::law_what_is_read_is_what_is_there(json::lookup(o, "home"@));
    decode::law_what_is_read_is_what_is_there(json::lookup(o, "extra_features"@));
}

/// The settings of an agent are what its table says.
pub proof fn law_an_agents_table_says_what_it_spells(o: Seq<(Seq<char>, JsonModel)>)
    ensures
        agent_of(JsonModel::Object(o)) matches Some(s) ==> {
            &&& decode::spells_text(json::lookup(o, "image"@), s.image)
            &&& decode::spells_text(json::lookup(o, "devcontainer_feature"@), s.devcontainer_feature)
            &&& are_unknown(s.unknown, o, seq!["image"@, "devcontainer_feature"@])
        },
{
    lemma_are_unknown(o, seq!["image"@, "devcontainer_feature"@]);
    decode::law_what_is_read_is_what_is_there(json::lookup(o, "image"@));
    decode::law_what_is_read_is_what_is_there(json::lookup(o, "devcontainer_feature"@));
}

/// A file is its tables, each under its own name and empty where it is absent, and every agent is the table
/// under its name. Every other key is one that is not known.
pub proof fn law_a_file_is_its_tables(o: Seq<(Seq<char>, JsonModel)>)
    ensures
        file_of(JsonModel::Object(o)) matches Some(f) ==> {
            let none = JsonModel::Object(Seq::empty());
            &&& json::lookup(o, "defaults"@) matches Some(t) ==> defaults_of(t) == Some(f.defaults)
            &&& json::lookup(o, "defaults"@) is None ==> defaults_of(none) == Some(f.defaults)
            &&& json::lookup(o, "tmux"@) matches Some(t) ==> tmux_of(t) == Some(f.tmux)
            &&& json::lookup(o, "tmux"@) is None ==> tmux_of(none) == Some(f.tmux)
            &&& json::lookup(o, "container"@) matches Some(t) ==> container_of(t) == Some(f.container)
            &&& json::lookup(o, "container"@) is None ==> container_of(none) == Some(f.container)
            &&& json::lookup(o, "devcontainer"@) matches Some(t) ==> devcontainer_of(t) == Some(f.devcontainer)
            &&& json::lookup(o, "devcontainer"@) is None ==> devcontainer_of(none) == Some(f.devcontainer)
            &&& json::lookup(o, "agents"@) is None ==> f.agents.len() == 0
            &&& json::lookup(o, "agents"@) is Some ==> decode::spells_map(
                json::lookup(o, "agents"@),
                f.agents,
                |v: JsonModel| agent_of(v),
            )
            &&& are_unknown(f.unknown, o, seq!["defaults"@, "agents"@, "tmux"@, "container"@, "devcontainer"@])
        },
{
    lemma_are_unknown(o, known_tables());
    match json::lookup(o, "agents"@) {
        Some(JsonModel::Object(a)) => {
            if agents_of(a) is Some {
                let p = a.map_values(|e: (Seq<char>, JsonModel)| (e.0, agent_of(e.1)->0));
                decode::lemma_spells_map(a, p, |v: JsonModel| agent_of(v));
            }
        },
        _ => {},
    }
}

} // verus!
