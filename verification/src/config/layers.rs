//! Layering: each source of configuration overrides the ones before it.

use vstd::prelude::*;

use crate::config::file::{self, FileAgentModel, FileAgentSettings, FileConfig, FileModel};
use crate::config::{
    AgentInstall, AgentModel, AgentSettings, Config, ConfigModel, ContainerMode, ContainerModel,
    DevcontainerModel, NetworkMode, PaneSide, RuntimePreference, SplitDirection, TmuxConfig, UnknownKey,
    UnknownKeyModel,
};
use crate::duplicate::Duplicate;
use crate::error::{AmError, AmErrorModel};
use crate::path;
use crate::sort;
use crate::strmap::{self, StrMap};
use crate::text;

verus! {

// ----------------------------------------------------------------------------------------------
// Unknown keys
// ----------------------------------------------------------------------------------------------

/// `keys`, each below `prefix`.
pub open spec fn prefixed(prefix: Seq<char>, keys: Seq<Seq<char>>) -> Seq<Seq<char>> {
    keys.map_values(|k: Seq<char>| prefix + k)
}

/// The unknown keys of the agents, as dotted paths.
pub open spec fn agent_keys(agents: Seq<(Seq<char>, FileAgentModel)>) -> Seq<Seq<char>>
    decreases agents.len(),
{
    if agents.len() == 0 {
        Seq::empty()
    } else {
        agent_keys(agents.drop_last()) + prefixed("agents."@ + agents.last().0 + "."@, agents.last().1.unknown)
    }
}

/// The unknown keys of a file, as dotted paths, in order.
pub open spec fn dotted_keys(f: FileModel) -> Seq<Seq<char>> {
    sort::sorted::<String>(
        f.unknown + prefixed("defaults."@, f.defaults.unknown) + prefixed("tmux."@, f.tmux.unknown) + prefixed(
            "container."@,
            f.container.unknown,
        ) + prefixed("devcontainer."@, f.devcontainer.unknown) + agent_keys(f.agents),
    )
}

/// The unknown keys of a file, with the file they come from.
pub open spec fn unknown_keys_of(f: FileModel, path: Seq<char>) -> Seq<UnknownKeyModel> {
    dotted_keys(f).map_values(|key: Seq<char>| UnknownKeyModel { file: path, key })
}

fn add_prefixed(out: &mut Vec<String>, prefix: &str, keys: &Vec<String>)
    ensures
        final(out).deep_view() == old(out).deep_view() + prefixed(prefix@, keys.deep_view()),
{
    let ghost base = out.deep_view();
    let ghost all = prefixed(prefix@, keys.deep_view());
    let mut i: usize = 0;
    assert(base =~= base + all.subrange(0, 0));
    while i < keys.len()
        invariant
            i <= keys.len(),
            all == prefixed(prefix@, keys.deep_view()),
            out.deep_view() == base + all.subrange(0, i as int),
        decreases keys.len() - i,
    {
        text::push(out, text::cat2(prefix, keys[i].as_str()));
        i = i + 1;
        assert(out.deep_view() =~= base + all.subrange(0, i as int));
    }
    assert(all.subrange(0, all.len() as int) =~= all);
}

/// Every unrecognised key of a file, as dotted paths in a stable order.
pub fn collect_unknown(file: &FileConfig, path: &str) -> (r: Vec<UnknownKey>)
    ensures
        r.deep_view() == unknown_keys_of(file.deep_view(), path@),
{
    let mut keys: Vec<String> = file.unknown.duplicate();
    add_prefixed(&mut keys, "defaults.", &file.defaults.unknown);
    add_prefixed(&mut keys, "tmux.", &file.tmux.unknown);
    add_prefixed(&mut keys, "container.", &file.container.unknown);
    add_prefixed(&mut keys, "devcontainer.", &file.devcontainer.unknown);
    let ghost base = keys.deep_view();
    let ghost agents = file.agents.deep_view();
    let n: usize = file.agents.len();
    let mut i: usize = 0;
    assert(base =~= base + agent_keys(agents.subrange(0, 0)));
    while i < n
        invariant
            n == agents.len(),
            agents == file.agents.deep_view(),
            i <= n,
            keys.deep_view() == base + agent_keys(agents.subrange(0, i as int)),
        decreases n - i,
    {
        let (name, settings) = file.agents.at(i);
        let prefix = text::cat3("agents.", name, ".");
        add_prefixed(&mut keys, prefix.as_str(), &settings.unknown);
        proof {
            let a = agents.subrange(0, i + 1);
            assert(a.drop_last() =~= agents.subrange(0, i as int));
            assert(keys.deep_view() =~= base + agent_keys(a));
        }
        i = i + 1;
    }
    assert(agents.subrange(0, agents.len() as int) =~= agents);
    let sorted = sort::sort_values(keys);
    let ghost all = dotted_keys(file.deep_view());
    let mut out: Vec<UnknownKey> = Vec::new();
    let mut k: usize = 0;
    while k < sorted.len()
        invariant
            sorted.deep_view() == all,
            k <= sorted.len(),
            out.len() == k,
            forall|j: int|
                0 <= j < k ==> (#[trigger] out@[j]).deep_view() == (UnknownKeyModel { file: path@, key: all[j] }),
        decreases sorted.len() - k,
    {
        assert(all[k as int] == sorted@[k as int]@);
        out.push(UnknownKey { file: path.to_owned(), key: sorted[k].clone() });
        k = k + 1;
    }
    assert(out.deep_view() =~= unknown_keys_of(file.deep_view(), path@));
    out
}

// ----------------------------------------------------------------------------------------------
// Files over what came before
// ----------------------------------------------------------------------------------------------

/// The new value, where there is one.
pub open spec fn over<T>(old: T, new: Option<T>) -> T {
    match new {
        Some(v) => v,
        None => old,
    }
}

/// The new value, where there is one.
pub open spec fn over_some<T>(old: Option<T>, new: Option<T>) -> Option<T> {
    if new is Some {
        new
    } else {
        old
    }
}

/// The new text, where there is one that is not empty.
pub open spec fn over_text(old: Option<Seq<char>>, new: Option<Seq<char>>) -> Option<Seq<char>> {
    over_some(old, crate::config::nonempty(new))
}

/// Overwrites `target` where there is a value.
pub fn apply_opt<T>(target: &mut T, value: Option<T>)
    ensures
        *final(target) == over(*old(target), value),
{
    if let Some(v) = value {
        *target = v;
    }
}

/// Overwrites `target` where there is a value, even an empty one.
pub fn apply_opt_some<T>(target: &mut Option<T>, value: Option<T>)
    ensures
        *final(target) == over_some(*old(target), value),
{
    if let Some(v) = value {
        *target = Some(v);
    }
}

/// Overwrites `target` where there is a value that is not empty, so that a blank entry clears nothing.
pub fn apply_opt_string(target: &mut Option<String>, value: Option<String>)
    ensures
        final(target).deep_view() == over_text(old(target).deep_view(), value.deep_view()),
{
    if let Some(v) = value {
        if !v.as_str().is_empty() {
            *target = Some(v);
        }
    }
}

/// Overwrites `target` where there is a value that is not empty.
fn apply_text(target: &mut String, value: Option<String>)
    ensures
        final(target)@ == over(old(target)@, crate::config::nonempty(value.deep_view())),
{
    if let Some(v) = value {
        if !v.as_str().is_empty() {
            *target = v;
        }
    }
}

/// One agent's settings with what a file says of it.
pub open spec fn agent_over(a: AgentModel, f: FileAgentModel) -> AgentModel {
    AgentModel {
        image: over_text(a.image, f.image),
        devcontainer_feature: over_text(a.devcontainer_feature, f.devcontainer_feature),
    }
}

/// The settings under a name, or those of an unknown agent.
pub open spec fn agent_or_new(agents: Seq<(Seq<char>, AgentModel)>, name: Seq<char>) -> AgentModel {
    match strmap::get(agents, name) {
        Some(a) => a,
        None => crate::config::no_agent(),
    }
}

/// The agents with those of a file, which extend and override them.
pub open spec fn agents_over(base: Seq<(Seq<char>, AgentModel)>, more: Seq<(Seq<char>, FileAgentModel)>) -> Seq<
    (Seq<char>, AgentModel),
>
    decreases more.len(),
{
    if more.len() == 0 {
        base
    } else {
        let b = agents_over(base, more.drop_last());
        let (name, f) = more.last();
        strmap::insert(b, name, agent_over(agent_or_new(b, name), f))
    }
}

/// A configuration with a file applied over it.
pub open spec fn file_over(c: ConfigModel, f: FileModel) -> ConfigModel {
    ConfigModel {
        agent: over_text(c.agent, f.defaults.agent),
        agents: agents_over(c.agents, f.agents),
        tmux: TmuxConfig {
            agent_pane: over(c.tmux.agent_pane, f.tmux.agent_pane),
            split: over(c.tmux.split, f.tmux.split),
            split_percent: over(c.tmux.split_percent, f.tmux.split_percent),
        },
        container: ContainerModel {
            enabled: over(c.container.enabled, f.container.enabled),
            mode: over(c.container.mode, f.container.mode),
            runtime: over(c.container.runtime, f.container.runtime),
            image: over_text(c.container.image, f.container.image),
            network: over(c.container.network, f.container.network),
            env: over(c.container.env, f.container.env),
            gitconfig: over_some(c.container.gitconfig, f.container.gitconfig),
            ssh: over_some(c.container.ssh, f.container.ssh),
            ssh_agent: over(c.container.ssh_agent, f.container.ssh_agent),
            user: over(c.container.user, crate::config::nonempty(f.container.user)),
        },
        devcontainer: DevcontainerModel {
            path: over_some(c.devcontainer.path, f.devcontainer.path),
            cli: over(c.devcontainer.cli, crate::config::nonempty(f.devcontainer.cli)),
            agent_install: over(c.devcontainer.agent_install, f.devcontainer.agent_install),
            allow_host_commands: over(c.devcontainer.allow_host_commands, f.devcontainer.allow_host_commands),
            skip_lifecycle: over(c.devcontainer.skip_lifecycle, f.devcontainer.skip_lifecycle),
            home: over_some(c.devcontainer.home, f.devcontainer.home),
            extra_features: match f.devcontainer.extra_features {
                Some(m) => strmap::extended(c.devcontainer.extra_features, m),
                None => c.devcontainer.extra_features,
            },
        },
        unknown_keys: c.unknown_keys,
    }
}

fn merge_agents(base: &mut StrMap<AgentSettings>, more: &StrMap<FileAgentSettings>)
    ensures
        final(base).deep_view() == agents_over(old(base).deep_view(), more.deep_view()),
{
    let ghost b0 = base.deep_view();
    let ghost all = more.deep_view();
    let n: usize = more.len();
    let mut i: usize = 0;
    while i < n
        invariant
            n == all.len(),
            all == more.deep_view(),
            i <= n,
            base.deep_view() == agents_over(b0, all.subrange(0, i as int)),
        decreases n - i,
    {
        let (name, f) = more.at(i);
        let mut entry = match base.get(name) {
            Some(a) => AgentSettings {
                image: a.image.duplicate(),
                devcontainer_feature: a.devcontainer_feature.duplicate(),
            },
            None => AgentSettings::default(),
        };
        assert(entry.deep_view() == agent_or_new(base.deep_view(), name@));
        apply_opt_string(&mut entry.image, f.image.duplicate());
        apply_opt_string(&mut entry.devcontainer_feature, f.devcontainer_feature.duplicate());
        base.insert(name.to_owned(), entry);
        i = i + 1;
        assert(all.subrange(0, i as int).drop_last() =~= all.subrange(0, i - 1));
    }
    assert(all.subrange(0, all.len() as int) =~= all);
}

/// Applies a configuration file over `base`.
pub fn apply_file_config(base: &mut Config, file: FileConfig)
    ensures
        final(base).deep_view() == file_over(old(base).deep_view(), file.deep_view()),
{
    apply_opt_string(&mut base.agent, file.defaults.agent);
    merge_agents(&mut base.agents, &file.agents);
    apply_opt(&mut base.tmux.agent_pane, file.tmux.agent_pane);
    apply_opt(&mut base.tmux.split, file.tmux.split);
    apply_opt(&mut base.tmux.split_percent, file.tmux.split_percent);
    apply_opt(&mut base.container.enabled, file.container.enabled);
    apply_opt(&mut base.container.mode, file.container.mode);
    apply_opt(&mut base.container.runtime, file.container.runtime);
    apply_opt_string(&mut base.container.image, file.container.image);
    apply_opt(&mut base.container.network, file.container.network);
    apply_opt(&mut base.container.env, file.container.env);
    apply_opt_some(&mut base.container.gitconfig, file.container.gitconfig);
    apply_opt_some(&mut base.container.ssh, file.container.ssh);
    apply_opt(&mut base.container.ssh_agent, file.container.ssh_agent);
    apply_text(&mut base.container.user, file.container.user);
    apply_opt_some(&mut base.devcontainer.path, file.devcontainer.path);
    apply_text(&mut base.devcontainer.cli, file.devcontainer.cli);
    apply_opt(&mut base.devcontainer.agent_install, file.devcontainer.agent_install);
    apply_opt(&mut base.devcontainer.allow_host_commands, file.devcontainer.allow_host_commands);
    apply_opt(&mut base.devcontainer.skip_lifecycle, file.devcontainer.skip_lifecycle);
    apply_opt_some(&mut base.devcontainer.home, file.devcontainer.home);
    if let Some(features) = &file.devcontainer.extra_features {
        base.devcontainer.extra_features.extend_from(features);
    }
}

/// The settings that [`agents_over`] leaves under a name.
pub proof fn lemma_get_after_agents(
    base: Seq<(Seq<char>, AgentModel)>,
    more: Seq<(Seq<char>, FileAgentModel)>,
    q: Seq<char>,
)
    requires
        strmap::sorted(base),
        strmap::sorted(more),
    ensures
        strmap::sorted(agents_over(base, more)),
        strmap::get(agents_over(base, more), q) == (match strmap::get(more, q) {
            Some(f) => Some(agent_over(agent_or_new(base, q), f)),
            None => strmap::get(base, q),
        }),
    decreases more.len(),
{
    if more.len() > 0 {
        let rest = more.drop_last();
        let (name, f) = more.last();
        assert forall|i: int, j: int| #![trigger rest[i], rest[j]] 0 <= i < j < rest.len() implies text::less(
            rest[i].0,
            rest[j].0,
        ) by {
            assert(rest[i] == more[i] && rest[j] == more[j]);
        }
        assert forall|i: int| 0 <= i < rest.len() implies (#[trigger] rest[i]).0 != name by {
            assert(rest[i] == more[i]);
            assert(text::less(more[i].0, more[more.len() - 1].0));
            text::lemma_less_irreflexive(name);
        }
        strmap::lemma_absent(rest, name);
        let b = agents_over(base, rest);
        lemma_get_after_agents(base, rest, q);
        lemma_get_after_agents(base, rest, name);
        let a = agent_over(agent_or_new(b, name), f);
        strmap::lemma_insert_sorted(b, name, a);
        strmap::lemma_get_after_insert(b, name, a, q);
        strmap::lemma_get_of_last(more, q);
    }
}

/// Whether the maps of a configuration are in order.
pub open spec fn maps_in_order(c: ConfigModel) -> bool {
    strmap::sorted(c.agents) && strmap::sorted(c.devcontainer.extra_features)
}

/// Whether the maps of a file are in order.
pub open spec fn file_maps_in_order(f: FileModel) -> bool {
    &&& strmap::sorted(f.agents)
    &&& f.devcontainer.extra_features matches Some(m) ==> strmap::sorted(m)
}

/// To apply a file twice is to apply it once.
pub proof fn law_a_file_applies_once(c: ConfigModel, f: FileModel)
    requires
        maps_in_order(c),
        file_maps_in_order(f),
    ensures
        file_over(file_over(c, f), f) == file_over(c, f),
{
    let once = file_over(c, f);
    let twice = file_over(once, f);
    lemma_get_after_agents(c.agents, f.agents, Seq::empty());
    lemma_get_after_agents(once.agents, f.agents, Seq::empty());
    assert forall|q: Seq<char>| #[trigger] strmap::get(twice.agents, q) == strmap::get(once.agents, q) by {
        lemma_get_after_agents(c.agents, f.agents, q);
        lemma_get_after_agents(once.agents, f.agents, q);
    }
    strmap::lemma_same_under_every_key(twice.agents, once.agents);
    match f.devcontainer.extra_features {
        Some(m) => {
            strmap::lemma_extended_twice(c.devcontainer.extra_features, m);
        },
        None => {},
    }
}

/// A key that a file does not have, or for most texts one that it leaves empty, leaves its setting as
/// it was. So do the agents and the extra Features that it does not name, and it clears no unknown key.
pub proof fn law_absent_keys_change_nothing(c: ConfigModel, f: FileModel, name: Seq<char>)
    requires
        maps_in_order(c),
        file_maps_in_order(f),
    ensures
        ({
            let d = file_over(c, f);
            &&& crate::config::nonempty(f.defaults.agent) is None ==> d.agent == c.agent
            &&& f.tmux.agent_pane is None ==> d.tmux.agent_pane == c.tmux.agent_pane
            &&& f.tmux.split is None ==> d.tmux.split == c.tmux.split
            &&& f.tmux.split_percent is None ==> d.tmux.split_percent == c.tmux.split_percent
            &&& f.container.enabled is None ==> d.container.enabled == c.container.enabled
            &&& f.container.mode is None ==> d.container.mode == c.container.mode
            &&& f.container.runtime is None ==> d.container.runtime == c.container.runtime
            &&& crate::config::nonempty(f.container.image) is None ==> d.container.image == c.container.image
            &&& f.container.network is None ==> d.container.network == c.container.network
            &&& f.container.env is None ==> d.container.env == c.container.env
            &&& f.container.gitconfig is None ==> d.container.gitconfig == c.container.gitconfig
            &&& f.container.ssh is None ==> d.container.ssh == c.container.ssh
            &&& f.container.ssh_agent is None ==> d.container.ssh_agent == c.container.ssh_agent
            &&& crate::config::nonempty(f.container.user) is None ==> d.container.user == c.container.user
            &&& f.devcontainer.path is None ==> d.devcontainer.path == c.devcontainer.path
            &&& crate::config::nonempty(f.devcontainer.cli) is None ==> d.devcontainer.cli == c.devcontainer.cli
            &&& f.devcontainer.agent_install is None ==> d.devcontainer.agent_install == c.devcontainer.agent_install
            &&& f.devcontainer.allow_host_commands is None ==> d.devcontainer.allow_host_commands
                == c.devcontainer.allow_host_commands
            &&& f.devcontainer.skip_lifecycle is None ==> d.devcontainer.skip_lifecycle
                == c.devcontainer.skip_lifecycle
            &&& f.devcontainer.home is None ==> d.devcontainer.home == c.devcontainer.home
            &&& f.devcontainer.extra_features is None ==> d.devcontainer.extra_features
                == c.devcontainer.extra_features
            &&& f.devcontainer.extra_features matches Some(m) ==> strmap::get(m, name) is None ==> strmap::get(
                d.devcontainer.extra_features,
                name,
            ) == strmap::get(c.devcontainer.extra_features, name)
            &&& strmap::get(f.agents, name) is None ==> strmap::get(d.agents, name) == strmap::get(c.agents, name)
            &&& strmap::get(f.agents, name) matches Some(a) ==> {
                let before = agent_or_new(c.agents, name);
                let after = agent_or_new(d.agents, name);
                &&& crate::config::nonempty(a.image) is None ==> after.image == before.image
                &&& crate::config::nonempty(a.devcontainer_feature) is None ==> after.devcontainer_feature
                    == before.devcontainer_feature
            }
            &&& d.unknown_keys == c.unknown_keys
        }),
{
    lemma_get_after_agents(c.agents, f.agents, name);
    match f.devcontainer.extra_features {
        Some(m) => {
            strmap::lemma_get_after_extend(c.devcontainer.extra_features, m, name);
        },
        None => {},
    }
}

// ----------------------------------------------------------------------------------------------
// The environment over the files
// ----------------------------------------------------------------------------------------------

/// The flag that a text stands for, in any letter case.
pub open spec fn flag_named(s: Seq<char>) -> Option<bool> {
    let l = text::lowercase(s);
    if l == "true"@ || l == "1"@ || l == "yes"@ {
        Some(true)
    } else if l == "false"@ || l == "0"@ || l == "no"@ {
        Some(false)
    } else {
        None
    }
}

fn read_flag(s: &str) -> (r: Option<bool>)
    ensures
        r == flag_named(s@),
{
    let l = text::to_lowercase(s);
    let l = l.as_str();
    if text::eq(l, "true") || text::eq(l, "1") || text::eq(l, "yes") {
        Some(true)
    } else if text::eq(l, "false") || text::eq(l, "0") || text::eq(l, "no") {
        Some(false)
    } else {
        None
    }
}

/// A percentage from 1 to 99.
pub open spec fn percent_named(s: Seq<char>) -> Option<u8> {
    match text::parsed(s, 255) {
        Some(n) if 1 <= n <= 99 => Some(n as u8),
        _ => None,
    }
}

pub open spec fn bad_percent(s: Seq<char>) -> AmErrorModel {
    AmErrorModel::ConfigError(
        "invalid AM_TMUX_SPLIT_PERCENT '"@ + s + "': must be a number between 1 and 99"@,
    )
}

/// What a variable chooses; a value that is not known chooses nothing.
pub open spec fn chosen<T>(v: Option<Seq<char>>, named: spec_fn(Seq<char>) -> Option<T>) -> Option<T> {
    match v {
        Some(s) => named(s),
        None => None,
    }
}

/// A configuration with the environment applied over it. Unknown values of a choice are ignored; a
/// percentage that is not one is an error.
pub open spec fn env_over(c: ConfigModel, env: Seq<(Seq<char>, Seq<char>)>) -> Result<ConfigModel, AmErrorModel> {
    let percent = strmap::get(env, "AM_TMUX_SPLIT_PERCENT"@);
    if percent is Some && percent_named(percent->0) is None {
        Err(bad_percent(percent->0))
    } else {
        Ok(
            ConfigModel {
                agent: over_text(c.agent, strmap::get(env, "AM_AGENT"@)),
                tmux: TmuxConfig {
                    agent_pane: over(
                        c.tmux.agent_pane,
                        chosen(strmap::get(env, "AM_TMUX_AGENT_PANE"@), |s: Seq<char>| PaneSide::named(s)),
                    ),
                    split: over(
                        c.tmux.split,
                        chosen(strmap::get(env, "AM_TMUX_SPLIT"@), |s: Seq<char>| SplitDirection::named(s)),
                    ),
                    split_percent: over(c.tmux.split_percent, chosen(percent, |s: Seq<char>| percent_named(s))),
                },
                container: ContainerModel {
                    enabled: over(
                        c.container.enabled,
                        chosen(strmap::get(env, "AM_CONTAINER_ENABLED"@), |s: Seq<char>| flag_named(s)),
                    ),
                    mode: over(
                        c.container.mode,
                        chosen(strmap::get(env, "AM_CONTAINER_MODE"@), |s: Seq<char>| ContainerMode::named(s)),
                    ),
                    runtime: over(
                        c.container.runtime,
                        chosen(strmap::get(env, "AM_CONTAINER_RUNTIME"@), |s: Seq<char>| RuntimePreference::named(s)),
                    ),
                    image: over_text(c.container.image, strmap::get(env, "AM_CONTAINER_IMAGE"@)),
                    network: over(
                        c.container.network,
                        chosen(strmap::get(env, "AM_CONTAINER_NETWORK"@), |s: Seq<char>| NetworkMode::named(s)),
                    ),
                    gitconfig: over_text(c.container.gitconfig, strmap::get(env, "AM_CONTAINER_GITCONFIG"@)),
                    ssh: over_text(c.container.ssh, strmap::get(env, "AM_CONTAINER_SSH"@)),
                    ssh_agent: over(
                        c.container.ssh_agent,
                        chosen(strmap::get(env, "AM_CONTAINER_SSH_AGENT"@), |s: Seq<char>| flag_named(s)),
                    ),
                    user: over(
                        c.container.user,
                        crate::config::nonempty(strmap::get(env, "AM_CONTAINER_USER"@)),
                    ),
                    ..c.container
                },
                devcontainer: DevcontainerModel {
                    path: over_text(c.devcontainer.path, strmap::get(env, "AM_DEVCONTAINER_PATH"@)),
                    cli: over(
                        c.devcontainer.cli,
                        crate::config::nonempty(strmap::get(env, "AM_DEVCONTAINER_BIN"@)),
                    ),
                    agent_install: over(
                        c.devcontainer.agent_install,
                        chosen(
                            strmap::get(env, "AM_DEVCONTAINER_AGENT_INSTALL"@),
                            |s: Seq<char>| AgentInstall::named(s),
                        ),
                    ),
                    allow_host_commands: over(
                        c.devcontainer.allow_host_commands,
                        chosen(
                            strmap::get(env, "AM_DEVCONTAINER_ALLOW_HOST_COMMANDS"@),
                            |s: Seq<char>| flag_named(s),
                        ),
                    ),
                    ..c.devcontainer
                },
                ..c
            },
        )
    }
}

fn variable(env: &StrMap<String>, name: &str) -> (r: Option<String>)
    ensures
        r.deep_view() == strmap::get(env.deep_view(), name@),
{
    match env.get(name) {
        Some(v) => Some(v.clone()),
        None => None,
    }
}

fn pane_variable(env: &StrMap<String>, name: &str) -> (r: Option<PaneSide>)
    ensures
        r == chosen(strmap::get(env.deep_view(), name@), |s: Seq<char>| PaneSide::named(s)),
{
    match env.get(name) {
        Some(v) => PaneSide::read(v.as_str()),
        None => None,
    }
}

fn split_variable(env: &StrMap<String>, name: &str) -> (r: Option<SplitDirection>)
    ensures
        r == chosen(strmap::get(env.deep_view(), name@), |s: Seq<char>| SplitDirection::named(s)),
{
    match env.get(name) {
        Some(v) => SplitDirection::read(v.as_str()),
        None => None,
    }
}

fn mode_variable(env: &StrMap<String>, name: &str) -> (r: Option<ContainerMode>)
    ensures
        r == chosen(strmap::get(env.deep_view(), name@), |s: Seq<char>| ContainerMode::named(s)),
{
    match env.get(name) {
        Some(v) => ContainerMode::read(v.as_str()),
        None => None,
    }
}

fn runtime_variable(env: &StrMap<String>, name: &str) -> (r: Option<RuntimePreference>)
    ensures
        r == chosen(strmap::get(env.deep_view(), name@), |s: Seq<char>| RuntimePreference::named(s)),
{
    match env.get(name) {
        Some(v) => RuntimePreference::read(v.as_str()),
        None => None,
    }
}

fn network_variable(env: &StrMap<String>, name: &str) -> (r: Option<NetworkMode>)
    ensures
        r == chosen(strmap::get(env.deep_view(), name@), |s: Seq<char>| NetworkMode::named(s)),
{
    match env.get(name) {
        Some(v) => NetworkMode::read(v.as_str()),
        None => None,
    }
}

fn install_variable(env: &StrMap<String>, name: &str) -> (r: Option<AgentInstall>)
    ensures
        r == chosen(strmap::get(env.deep_view(), name@), |s: Seq<char>| AgentInstall::named(s)),
{
    match env.get(name) {
        Some(v) => AgentInstall::read(v.as_str()),
        None => None,
    }
}

fn flag_variable(env: &StrMap<String>, name: &str) -> (r: Option<bool>)
    ensures
        r == chosen(strmap::get(env.deep_view(), name@), |s: Seq<char>| flag_named(s)),
{
    match env.get(name) {
        Some(v) => read_flag(v.as_str()),
        None => None,
    }
}

fn read_percent(s: &str) -> (r: Option<u8>)
    ensures
        r == percent_named(s@),
{
    match text::parse_number(s, 255) {
        Some(n) => if 1 <= n && n <= 99 {
            Some(n as u8)
        } else {
            None
        },
        None => None,
    }
}

/// Applies the environment over `config`.
pub fn apply_env_vars(config: Config, env: &StrMap<String>) -> (r: Result<Config, AmError>)
    ensures
        crate::error::outcome(r) == env_over(config.deep_view(), env.deep_view()),
{
    let mut c = config;
    match env.get("AM_TMUX_SPLIT_PERCENT") {
        Some(v) => match read_percent(v.as_str()) {
            Some(n) => {
                c.tmux.split_percent = n;
            },
            None => {
                return Err(
                    AmError::ConfigError(
                        text::cat3(
                            "invalid AM_TMUX_SPLIT_PERCENT '",
                            v.as_str(),
                            "': must be a number between 1 and 99",
                        ),
                    ),
                );
            },
        },
        None => {},
    }
    apply_opt_string(&mut c.agent, variable(env, "AM_AGENT"));
    apply_opt(&mut c.tmux.agent_pane, pane_variable(env, "AM_TMUX_AGENT_PANE"));
    apply_opt(&mut c.tmux.split, split_variable(env, "AM_TMUX_SPLIT"));
    apply_opt(&mut c.container.enabled, flag_variable(env, "AM_CONTAINER_ENABLED"));
    apply_opt(&mut c.container.mode, mode_variable(env, "AM_CONTAINER_MODE"));
    apply_opt(&mut c.container.runtime, runtime_variable(env, "AM_CONTAINER_RUNTIME"));
    apply_opt_string(&mut c.container.image, variable(env, "AM_CONTAINER_IMAGE"));
    apply_opt(&mut c.container.network, network_variable(env, "AM_CONTAINER_NETWORK"));
    apply_opt_string(&mut c.container.gitconfig, variable(env, "AM_CONTAINER_GITCONFIG"));
    apply_opt_string(&mut c.container.ssh, variable(env, "AM_CONTAINER_SSH"));
    apply_opt(&mut c.container.ssh_agent, flag_variable(env, "AM_CONTAINER_SSH_AGENT"));
    apply_text(&mut c.container.user, variable(env, "AM_CONTAINER_USER"));
    apply_opt_string(&mut c.devcontainer.path, variable(env, "AM_DEVCONTAINER_PATH"));
    apply_text(&mut c.devcontainer.cli, variable(env, "AM_DEVCONTAINER_BIN"));
    apply_opt(&mut c.devcontainer.agent_install, install_variable(env, "AM_DEVCONTAINER_AGENT_INSTALL"));
    apply_opt(&mut c.devcontainer.allow_host_commands, flag_variable(env, "AM_DEVCONTAINER_ALLOW_HOST_COMMANDS"));
    Ok(c)
}

// ----------------------------------------------------------------------------------------------
// What a variable says
// ----------------------------------------------------------------------------------------------

/// A percentage is read as it is written, and only from 1 to 99. A flag is one of six words, in any letter
/// case, three for each answer.
pub proof fn law_percentages_and_flags_are_read(n: nat, s: Seq<char>, b: bool)
    ensures
        1 <= n <= 99 ==> percent_named(text::decimal(n)) == Some(n as u8),
        !(1 <= n <= 99) ==> percent_named(text::decimal(n)) is None,
        flag_named(s) == Some(true) <==> seq!["true"@, "1"@, "yes"@].contains(text::lowercase(s)),
        flag_named(s) == Some(false) <==> seq!["false"@, "0"@, "no"@].contains(text::lowercase(s)),
{
    text::law_decimals_are_read_back(n);
    assert(text::is_digit(text::decimal(n)[0]));
    reveal_strlit("true");
    reveal_strlit("1");
    reveal_strlit("yes");
    reveal_strlit("false");
    reveal_strlit("0");
    reveal_strlit("no");
    let l = text::lowercase(s);
    let yes = seq!["true"@, "1"@, "yes"@];
    let no = seq!["false"@, "0"@, "no"@];
    assert(yes[0] == "true"@ && yes[1] == "1"@ && yes[2] == "yes"@);
    assert(no[0] == "false"@ && no[1] == "0"@ && no[2] == "no"@);
    if flag_named(s) == Some(false) {
        assert(no.contains(l));
    }
    if no.contains(l) {
        assert(!yes.contains(l)) by {
            assert("true"@[0] == 't' && "1"@[0] == '1' && "yes"@[0] == 'y');
            assert("false"@[0] == 'f' && "0"@[0] == '0' && "no"@[0] == 'n');
        }
    }
}

} // verus!
