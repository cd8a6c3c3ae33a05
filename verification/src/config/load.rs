//! Loading the configuration.

use vstd::prelude::*;

use crate::config::file::{self, FileConfig, FileModel};
use crate::config::layers::{self, apply_env_vars, apply_file_config, collect_unknown};
use crate::config::{
    AgentInstall, Config, ConfigModel, ContainerMode, NetworkMode, PaneSide, RuntimePreference, SplitDirection,
};
use crate::error::{AmError, AmErrorModel};
use crate::json::JsonModel;
use crate::path;
use crate::strmap::{self, StrMap};
use crate::text;
use crate::toml_text;

verus! {

// ----------------------------------------------------------------------------------------------
// Where things live
// ----------------------------------------------------------------------------------------------

/// `am` below the first directory that is known: the one given, or `rest` below the home directory.
pub open spec fn am_dir(given: Option<Seq<char>>, home: Option<Seq<char>>, rest: Seq<char>) -> Option<Seq<char>> {
    match (given, home) {
        (Some(d), _) => Some(path::joined(d, "am"@)),
        (None, Some(h)) => Some(path::joined(path::joined(h, rest), "am"@)),
        (None, None) => None,
    }
}

fn am_directory(given: Option<&str>, home: Option<&str>, rest: &str) -> (r: Option<String>)
    ensures
        r.deep_view() == am_dir(given.deep_view(), home.deep_view(), rest@),
{
    match (given, home) {
        (Some(d), _) => Some(path::join(d, "am")),
        (None, Some(h)) => {
            let base = path::join(h, rest);
            Some(path::join(base.as_str(), "am"))
        },
        (None, None) => None,
    }
}

/// The global config file: below `$XDG_CONFIG_HOME`, or below `~/.config`.
pub fn global_config_path(xdg_config_home: Option<&str>, home: Option<&str>) -> (r: Option<String>)
    ensures
        r.deep_view() == (match am_dir(xdg_config_home.deep_view(), home.deep_view(), ".config"@) {
            Some(d) => Some(path::joined(d, "config.toml"@)),
            None => None,
        }),
{
    match am_directory(xdg_config_home, home, ".config") {
        Some(d) => Some(path::join(d.as_str(), "config.toml")),
        None => None,
    }
}

/// The global state directory: below `$XDG_STATE_HOME`, or below `~/.local/state`.
pub fn global_state_dir(xdg_state_home: Option<&str>, home: Option<&str>) -> (r: Option<String>)
    ensures
        r.deep_view() == am_dir(xdg_state_home.deep_view(), home.deep_view(), ".local/state"@),
{
    am_directory(xdg_state_home, home, ".local/state")
}

// ----------------------------------------------------------------------------------------------
// Validation
// ----------------------------------------------------------------------------------------------

/// A name that a variable may have.
pub open spec fn variable_name(s: Seq<char>) -> bool {
    &&& s.len() > 0
    &&& !text::is_digit(s[0])
    &&& forall|i: int| 0 <= i < s.len() ==> (text::is_word(#[trigger] s[i]) || s[i] == '_')
}

/// The part of an entry before the first `=`.
pub open spec fn entry_name(entry: Seq<char>) -> Seq<char> {
    entry.subrange(0, text::position(entry, '=') as int)
}

pub open spec fn bad_entry(entry: Seq<char>) -> AmErrorModel {
    AmErrorModel::ConfigError(
        "invalid container.env entry '"@ + entry
            + "': must be 'NAME' or 'NAME=value' where NAME starts with a letter or underscore and contains only letters, digits, and underscores"@,
    )
}

/// The first entry whose name is not one, as an error.
pub open spec fn env_error(env: Seq<Seq<char>>) -> Option<AmErrorModel>
    decreases env.len(),
{
    if env.len() == 0 {
        None
    } else if !variable_name(entry_name(env[0])) {
        Some(bad_entry(env[0]))
    } else {
        env_error(env.drop_first())
    }
}

fn is_variable_name(s: &str) -> (r: bool)
    ensures
        r == variable_name(s@),
{
    let cs = text::chars(s);
    if cs.len() == 0 || text::is_ascii_digit(cs[0]) {
        return false;
    }
    let mut i: usize = 0;
    while i < cs.len()
        invariant
            cs@ == s@,
            i <= cs.len(),
            forall|j: int| 0 <= j < i ==> (text::is_word(#[trigger] s@[j]) || s@[j] == '_'),
        decreases cs.len() - i,
    {
        assert(s@[i as int] == cs@[i as int]);
        if !(text::is_ascii_word(cs[i]) || cs[i] == '_') {
            return false;
        }
        i = i + 1;
    }
    true
}

/// Checks that every entry is `NAME` or `NAME=value`. An entry that starts with a dash would reach the
/// container runtime as a flag.
pub fn validate_env_passthrough(env: &Vec<String>) -> (r: Result<(), AmError>)
    ensures
        crate::error::outcome(r) == (match env_error(env.deep_view()) {
            Some(e) => Err::<(), AmErrorModel>(e),
            None => Ok(()),
        }),
{
    let ghost all = env.deep_view();
    let mut i: usize = 0;
    assert(all.subrange(0, all.len() as int) =~= all);
    while i < env.len()
        invariant
            all == env.deep_view(),
            i <= env.len(),
            env_error(all) == env_error(all.subrange(i as int, all.len() as int)),
        decreases env.len() - i,
    {
        let ghost rest = all.subrange(i as int, all.len() as int);
        assert(rest[0] == env@[i as int]@);
        assert(rest.drop_first() =~= all.subrange(i + 1, all.len() as int));
        let entry = env[i].as_str();
        let cs = text::chars(entry);
        let n: usize = text::find(&cs, 0, '=');
        assert(cs@.subrange(0, cs@.len() as int) =~= cs@);
        if !is_variable_name(entry.substring_char(0, n)) {
            return Err(
                AmError::ConfigError(
                    text::cat3(
                        "invalid container.env entry '",
                        entry,
                        "': must be 'NAME' or 'NAME=value' where NAME starts with a letter or underscore and contains only letters, digits, and underscores",
                    ),
                ),
            );
        }
        i = i + 1;
    }
    Ok(())
}

pub open spec fn percent_error(percent: u8) -> Option<AmErrorModel> {
    if 1 <= percent <= 99 {
        None
    } else {
        Some(
            AmErrorModel::ConfigError(
                "invalid tmux.split_percent "@ + text::decimal(percent as nat) + ": must be between 1 and 99"@,
            ),
        )
    }
}

/// Checks that the percentage leaves room for both panes.
pub fn validate_split_percent(percent: u8) -> (r: Result<(), AmError>)
    ensures
        crate::error::outcome(r) == (match percent_error(percent) {
            Some(e) => Err::<(), AmErrorModel>(e),
            None => Ok(()),
        }),
{
    if 1 <= percent && percent <= 99 {
        Ok(())
    } else {
        let n = text::decimal_of(percent as u64);
        Err(
            AmError::ConfigError(
                text::cat3("invalid tmux.split_percent ", n.as_str(), ": must be between 1 and 99"),
            ),
        )
    }
}

/// A name that a container user may have.
pub open spec fn user_name(s: Seq<char>) -> bool {
    &&& s.len() > 0
    &&& (text::is_lower(s[0]) || s[0] == '_')
    &&& forall|i: int|
        0 <= i < s.len() ==> (text::is_lower(#[trigger] s[i]) || text::is_digit(s[i]) || s[i] == '_' || s[i] == '-')
}

pub open spec fn user_error(user: Seq<char>) -> Option<AmErrorModel> {
    if user_name(user) {
        None
    } else {
        Some(
            AmErrorModel::ConfigError(
                "invalid container.user '"@ + user
                    + "': must start with a lowercase letter or underscore and contain only lowercase letters, digits, underscores, and hyphens"@,
            ),
        )
    }
}

/// Checks the name of the container user, which becomes part of mount paths.
pub fn validate_container_user(user: &str) -> (r: Result<(), AmError>)
    ensures
        crate::error::outcome(r) == (match user_error(user@) {
            Some(e) => Err::<(), AmErrorModel>(e),
            None => Ok(()),
        }),
{
    let cs = text::chars(user);
    let mut valid = cs.len() > 0 && (text::is_ascii_lower(cs[0]) || cs[0] == '_');
    let mut i: usize = 0;
    while i < cs.len() && valid
        invariant
            cs@ == user@,
            i <= cs.len(),
            valid ==> user@.len() > 0 && (text::is_lower(user@[0]) || user@[0] == '_'),
            valid ==> forall|j: int|
                0 <= j < i ==> (text::is_lower(#[trigger] user@[j]) || text::is_digit(user@[j]) || user@[j] == '_'
                    || user@[j] == '-'),
            !valid ==> !user_name(user@),
        decreases cs.len() - i,
    {
        let c = cs[i];
        assert(user@[i as int] == c);
        valid = text::is_ascii_lower(c) || text::is_ascii_digit(c) || c == '_' || c == '-';
        i = i + 1;
    }
    if valid {
        Ok(())
    } else {
        Err(
            AmError::ConfigError(
                text::cat3(
                    "invalid container.user '",
                    user,
                    "': must start with a lowercase letter or underscore and contain only lowercase letters, digits, underscores, and hyphens",
                ),
            ),
        )
    }
}

/// The first thing that is wrong with a configuration.
pub open spec fn config_error(c: ConfigModel) -> Option<AmErrorModel> {
    match percent_error(c.tmux.split_percent) {
        Some(e) => Some(e),
        None => match env_error(c.container.env) {
            Some(e) => Some(e),
            None => user_error(c.container.user),
        },
    }
}

fn validate(c: &Config) -> (r: Result<(), AmError>)
    ensures
        crate::error::outcome(r) == (match config_error(c.deep_view()) {
            Some(e) => Err::<(), AmErrorModel>(e),
            None => Ok(()),
        }),
{
    match validate_split_percent(c.tmux.split_percent) {
        Err(e) => {
            return Err(e);
        },
        Ok(()) => {},
    }
    match validate_env_passthrough(&c.container.env) {
        Err(e) => {
            return Err(e);
        },
        Ok(()) => {},
    }
    validate_container_user(c.container.user.as_str())
}

// ----------------------------------------------------------------------------------------------
// Loading
// ----------------------------------------------------------------------------------------------

/// A configuration file that was read.
#[derive(Debug, PartialEq)]
pub struct Layer {
    pub path: String,
    pub file: FileConfig,
}

/// What a [`Layer`] stands for.
pub struct LayerModel {
    pub path: Seq<char>,
    pub file: FileModel,
}

impl DeepView for Layer {
    type V = LayerModel;

    open spec fn deep_view(&self) -> LayerModel {
        LayerModel { path: self.path@, file: self.file.deep_view() }
    }
}

/// The text of a configuration file that exists.
#[derive(Debug, PartialEq)]
pub struct ConfigText {
    pub path: String,
    pub text: String,
}

/// A configuration with a file applied over it, and the keys that were not recognised in it noted.
pub open spec fn with_layer(c: ConfigModel, l: Option<LayerModel>) -> ConfigModel {
    match l {
        Some(l) => layers::file_over(
            ConfigModel { unknown_keys: c.unknown_keys + layers::unknown_keys_of(l.file, l.path), ..c },
            l.file,
        ),
        None => c,
    }
}

/// The configuration from all its sources, or the first thing that is wrong with it.
pub open spec fn loaded(
    global: Option<LayerModel>,
    project: Option<LayerModel>,
    env: Seq<(Seq<char>, Seq<char>)>,
) -> Result<ConfigModel, AmErrorModel> {
    match layers::env_over(with_layer(with_layer(crate::config::default_config(), global), project), env) {
        Err(e) => Err(e),
        Ok(c) => match config_error(c) {
            Some(e) => Err(e),
            None => Ok(c),
        },
    }
}

fn apply_layer(c: &mut Config, l: Option<Layer>)
    ensures
        final(c).deep_view() == with_layer(old(c).deep_view(), l.deep_view()),
{
    match l {
        Some(l) => {
            let ghost before = c.unknown_keys.deep_view();
            let mut keys = collect_unknown(&l.file, l.path.as_str());
            let ghost more = keys.deep_view();
            c.unknown_keys.append(&mut keys);
            assert(c.unknown_keys.deep_view() =~= before + more);
            apply_file_config(c, l.file);
        },
        None => {},
    }
}

/// Layers the global file, the project file and the environment over the defaults, and validates what
/// comes out.
pub fn load_layers(global: Option<Layer>, project: Option<Layer>, env: &StrMap<String>) -> (r: Result<Config, AmError>)
    ensures
        crate::error::outcome(r) == loaded(global.deep_view(), project.deep_view(), env.deep_view()),
{
    let mut c = Config::default();
    apply_layer(&mut c, global);
    apply_layer(&mut c, project);
    match apply_env_vars(c, env) {
        Err(e) => Err(e),
        Ok(c) => match validate(&c) {
            Err(e) => Err(e),
            Ok(()) => Ok(c),
        },
    }
}

/// What a file contributes, where there is one.
pub open spec fn layer_of(t: Option<ConfigText>) -> Result<Option<LayerModel>, AmErrorModel> {
    match t {
        None => Ok(None),
        Some(t) => match file::file_config_of(t.path@, toml_text::toml_document(t.text@)) {
            Ok(f) => Ok(Some(LayerModel { path: t.path@, file: f })),
            Err(e) => Err(e),
        },
    }
}

fn parse_layer(t: Option<ConfigText>) -> (r: Result<Option<Layer>, AmError>)
    ensures
        crate::error::outcome(r) == layer_of(t),
{
    match t {
        None => Ok(None),
        Some(t) => match file::parse_config_file(t.path.as_str(), t.text.as_str()) {
            Ok(f) => Ok(Some(Layer { path: t.path, file: f })),
            Err(e) => Err(e),
        },
    }
}

/// The configuration from the texts of the files that exist and from the environment.
pub open spec fn load_of(
    global: Option<ConfigText>,
    project: Option<ConfigText>,
    env: Seq<(Seq<char>, Seq<char>)>,
) -> Result<ConfigModel, AmErrorModel> {
    match layer_of(global) {
        Err(e) => Err(e),
        Ok(g) => match layer_of(project) {
            Err(e) => Err(e),
            Ok(p) => loaded(g, p, env),
        },
    }
}

/// Loads the configuration from the texts of the files that exist and from the environment.
pub fn load_with_global(global: Option<ConfigText>, project: Option<ConfigText>, env: &StrMap<String>) -> (r: Result<
    Config,
    AmError,
>)
    ensures
        crate::error::outcome(r) == load_of(global, project, env.deep_view()),
{
    let g = match parse_layer(global) {
        Ok(g) => g,
        Err(e) => {
            return Err(e);
        },
    };
    let p = match parse_layer(project) {
        Ok(p) => p,
        Err(e) => {
            return Err(e);
        },
    };
    load_layers(g, p, env)
}

// ----------------------------------------------------------------------------------------------
// What loading guarantees
// ----------------------------------------------------------------------------------------------

/// A configuration that loads is valid.
pub proof fn law_loaded_is_valid(
    global: Option<LayerModel>,
    project: Option<LayerModel>,
    env: Seq<(Seq<char>, Seq<char>)>,
)
    requires
        loaded(global, project, env) is Ok,
    ensures
        ({
            let c = loaded(global, project, env)->Ok_0;
            &&& 1 <= c.tmux.split_percent <= 99
            &&& user_name(c.container.user)
            &&& forall|i: int|
                0 <= i < c.container.env.len() ==> variable_name(entry_name(#[trigger] c.container.env[i]))
        }),
{
    lemma_no_env_error(loaded(global, project, env)->Ok_0.container.env);
}

proof fn lemma_no_env_error(env: Seq<Seq<char>>)
    requires
        env_error(env) is None,
    ensures
        forall|i: int| 0 <= i < env.len() ==> variable_name(entry_name(#[trigger] env[i])),
    decreases env.len(),
{
    if env.len() > 0 {
        let r = env.drop_first();
        lemma_no_env_error(r);
        assert forall|i: int| 0 <= i < env.len() implies variable_name(entry_name(#[trigger] env[i])) by {
            if i > 0 {
                assert(r[i - 1] == env[i]);
            }
        }
    }
}

/// The setting of the last source that gives one: the environment, then the project file, then the
/// global file, then the default.
pub open spec fn last_given<T>(env: Option<T>, project: Option<T>, global: Option<T>, default: T) -> T {
    match (env, project, global) {
        (Some(v), _, _) => v,
        (None, Some(v), _) => v,
        (None, None, Some(v)) => v,
        (None, None, None) => default,
    }
}

/// The choices a layer makes, where there is one.
pub open spec fn given<T>(l: Option<LayerModel>, f: spec_fn(FileModel) -> Option<T>) -> Option<T> {
    match l {
        Some(l) => f(l.file),
        None => None,
    }
}

/// The setting of the last source that gives one, for a setting without a default.
pub open spec fn first_given<T>(env: Option<T>, project: Option<T>, global: Option<T>) -> Option<T> {
    match (env, project, global) {
        (Some(v), _, _) => Some(v),
        (None, Some(v), _) => Some(v),
        (None, None, v) => v,
    }
}

/// A text that says something.
pub open spec fn said(s: Option<Seq<char>>) -> Option<Seq<char>> {
    if s is Some && s->0.len() > 0 {
        s
    } else {
        None
    }
}

/// The environment overrides the project file, which overrides the global file, which overrides the
/// defaults. It is so for every setting that has a variable.
pub proof fn law_precedence(
    global: Option<LayerModel>,
    project: Option<LayerModel>,
    env: Seq<(Seq<char>, Seq<char>)>,
)
    requires
        loaded(global, project, env) is Ok,
    ensures
        ({
            let c = loaded(global, project, env)->Ok_0;
            &&& c.agent == first_given(
                said(strmap::get(env, "AM_AGENT"@)),
                said(given(project, |f: FileModel| f.defaults.agent)),
                said(given(global, |f: FileModel| f.defaults.agent)),
            )
            &&& c.tmux.agent_pane == last_given(
                layers::chosen(strmap::get(env, "AM_TMUX_AGENT_PANE"@), |s: Seq<char>| PaneSide::named(s)),
                given(project, |f: FileModel| f.tmux.agent_pane),
                given(global, |f: FileModel| f.tmux.agent_pane),
                PaneSide::Left,
            )
            &&& c.tmux.split == last_given(
                layers::chosen(strmap::get(env, "AM_TMUX_SPLIT"@), |s: Seq<char>| SplitDirection::named(s)),
                given(project, |f: FileModel| f.tmux.split),
                given(global, |f: FileModel| f.tmux.split),
                SplitDirection::Horizontal,
            )
            &&& c.tmux.split_percent == last_given(
                layers::chosen(strmap::get(env, "AM_TMUX_SPLIT_PERCENT"@), |s: Seq<char>| layers::percent_named(s)),
                given(project, |f: FileModel| f.tmux.split_percent),
                given(global, |f: FileModel| f.tmux.split_percent),
                50,
            )
            &&& c.container.enabled == last_given(
                layers::chosen(strmap::get(env, "AM_CONTAINER_ENABLED"@), |s: Seq<char>| layers::flag_named(s)),
                given(project, |f: FileModel| f.container.enabled),
                given(global, |f: FileModel| f.container.enabled),
                true,
            )
            &&& c.container.mode == last_given(
                layers::chosen(strmap::get(env, "AM_CONTAINER_MODE"@), |s: Seq<char>| ContainerMode::named(s)),
                given(project, |f: FileModel| f.container.mode),
                given(global, |f: FileModel| f.container.mode),
                ContainerMode::Auto,
            )
            &&& c.container.runtime == last_given(
                layers::chosen(strmap::get(env, "AM_CONTAINER_RUNTIME"@), |s: Seq<char>| RuntimePreference::named(s)),
                given(project, |f: FileModel| f.container.runtime),
                given(global, |f: FileModel| f.container.runtime),
                RuntimePreference::Auto,
            )
            &&& c.container.image == first_given(
                said(strmap::get(env, "AM_CONTAINER_IMAGE"@)),
                said(given(project, |f: FileModel| f.container.image)),
                said(given(global, |f: FileModel| f.container.image)),
            )
            &&& c.container.network == last_given(
                layers::chosen(strmap::get(env, "AM_CONTAINER_NETWORK"@), |s: Seq<char>| NetworkMode::named(s)),
                given(project, |f: FileModel| f.container.network),
                given(global, |f: FileModel| f.container.network),
                NetworkMode::Full,
            )
            &&& c.container.gitconfig == first_given(
                said(strmap::get(env, "AM_CONTAINER_GITCONFIG"@)),
                given(project, |f: FileModel| f.container.gitconfig),
                given(global, |f: FileModel| f.container.gitconfig),
            )
            &&& c.container.ssh == first_given(
                said(strmap::get(env, "AM_CONTAINER_SSH"@)),
                given(project, |f: FileModel| f.container.ssh),
                given(global, |f: FileModel| f.container.ssh),
            )
            &&& c.container.ssh_agent == last_given(
                layers::chosen(strmap::get(env, "AM_CONTAINER_SSH_AGENT"@), |s: Seq<char>| layers::flag_named(s)),
                given(project, |f: FileModel| f.container.ssh_agent),
                given(global, |f: FileModel| f.container.ssh_agent),
                true,
            )
            &&& c.container.user == last_given(
                said(strmap::get(env, "AM_CONTAINER_USER"@)),
                said(given(project, |f: FileModel| f.container.user)),
                said(given(global, |f: FileModel| f.container.user)),
                "am"@,
            )
            &&& c.devcontainer.path == first_given(
                said(strmap::get(env, "AM_DEVCONTAINER_PATH"@)),
                given(project, |f: FileModel| f.devcontainer.path),
                given(global, |f: FileModel| f.devcontainer.path),
            )
            &&& c.devcontainer.cli == last_given(
                said(strmap::get(env, "AM_DEVCONTAINER_BIN"@)),
                said(given(project, |f: FileModel| f.devcontainer.cli)),
                said(given(global, |f: FileModel| f.devcontainer.cli)),
                "devcontainer"@,
            )
            &&& c.devcontainer.agent_install == last_given(
                layers::chosen(strmap::get(env, "AM_DEVCONTAINER_AGENT_INSTALL"@), |s: Seq<char>| AgentInstall::named(s)),
                given(project, |f: FileModel| f.devcontainer.agent_install),
                given(global, |f: FileModel| f.devcontainer.agent_install),
                AgentInstall::Auto,
            )
            &&& c.devcontainer.allow_host_commands == last_given(
                layers::chosen(strmap::get(env, "AM_DEVCONTAINER_ALLOW_HOST_COMMANDS"@), |s: Seq<char>| layers::flag_named(s)),
                given(project, |f: FileModel| f.devcontainer.allow_host_commands),
                given(global, |f: FileModel| f.devcontainer.allow_host_commands),
                false,
            )
        }),
{
}

/// The layers' maps are in order, as they are in every file that was read.
pub open spec fn layer_in_order(l: Option<LayerModel>) -> bool {
    l matches Some(l) ==> layers::file_maps_in_order(l.file)
}

/// The settings that have no variable: the project file overrides the global file, which overrides the
/// defaults. The agents and the extra Features do so name by name, and an agent's settings one by one.
pub proof fn law_files_settle_the_rest(
    global: Option<LayerModel>,
    project: Option<LayerModel>,
    env: Seq<(Seq<char>, Seq<char>)>,
    name: Seq<char>,
)
    requires
        loaded(global, project, env) is Ok,
        layer_in_order(global),
        layer_in_order(project),
    ensures
        ({
            let c = loaded(global, project, env)->Ok_0;
            let builtin = name == "copilot"@;
            let feature = |f: FileModel|
                match f.devcontainer.extra_features {
                    Some(m) => strmap::get(m, name),
                    None => None,
                };
            let agent_image = |f: FileModel|
                match strmap::get(f.agents, name) {
                    Some(a) => said(a.image),
                    None => None,
                };
            let agent_feature = |f: FileModel|
                match strmap::get(f.agents, name) {
                    Some(a) => said(a.devcontainer_feature),
                    None => None,
                };
            let names_it = |f: FileModel| strmap::get(f.agents, name);
            &&& c.devcontainer.skip_lifecycle == last_given(
                None,
                given(project, |f: FileModel| f.devcontainer.skip_lifecycle),
                given(global, |f: FileModel| f.devcontainer.skip_lifecycle),
                false,
            )
            &&& c.devcontainer.home == first_given(
                None,
                given(project, |f: FileModel| f.devcontainer.home),
                given(global, |f: FileModel| f.devcontainer.home),
            )
            &&& c.container.env == last_given(
                None,
                given(project, |f: FileModel| f.container.env),
                given(global, |f: FileModel| f.container.env),
                Seq::empty(),
            )
            &&& strmap::get(c.devcontainer.extra_features, name) == first_given(
                None,
                given(project, feature),
                given(global, feature),
            )
            &&& strmap::get(c.agents, name) is Some <==> builtin || given(project, names_it) is Some || given(
                global,
                names_it,
            ) is Some
            &&& strmap::get(c.agents, name) matches Some(a) ==> {
                &&& a.image == first_given(
                    given(project, agent_image),
                    given(global, agent_image),
                    if builtin {
                        Some("ghcr.io/dstanek/am-copilot-minimal:latest"@)
                    } else {
                        None
                    },
                )
                &&& a.devcontainer_feature == first_given(
                    None,
                    given(project, agent_feature),
                    given(global, agent_feature),
                )
            }
        }),
{
    let d = crate::config::default_config();
    let g = with_layer(d, global);
    let p = with_layer(g, project);
    let c = loaded(global, project, env)->Ok_0;
    let empty = Seq::<(Seq<char>, crate::config::AgentModel)>::empty();
    let copilot = crate::config::AgentModel {
        image: Some("ghcr.io/dstanek/am-copilot-minimal:latest"@),
        devcontainer_feature: None,
    };
    strmap::lemma_insert_sorted(empty, "copilot"@, copilot);
    strmap::lemma_get_after_insert(empty, "copilot"@, copilot, name);
    assert(d.agents == strmap::insert(empty, "copilot"@, copilot));
    lemma_with_layer(d, global, name);
    lemma_with_layer(g, project, name);
    assert(c.agents == p.agents);
    assert(c.devcontainer.extra_features == p.devcontainer.extra_features);
}

proof fn lemma_with_layer(c: ConfigModel, l: Option<LayerModel>, name: Seq<char>)
    requires
        layers::maps_in_order(c),
        layer_in_order(l),
    ensures
        layers::maps_in_order(with_layer(c, l)),
        strmap::get(with_layer(c, l).agents, name) == (match l {
            Some(l) => match strmap::get(l.file.agents, name) {
                Some(f) => Some(layers::agent_over(layers::agent_or_new(c.agents, name), f)),
                None => strmap::get(c.agents, name),
            },
            None => strmap::get(c.agents, name),
        }),
        strmap::get(with_layer(c, l).devcontainer.extra_features, name) == (match l {
            Some(l) => match l.file.devcontainer.extra_features {
                Some(m) => match strmap::get(m, name) {
                    Some(v) => Some(v),
                    None => strmap::get(c.devcontainer.extra_features, name),
                },
                None => strmap::get(c.devcontainer.extra_features, name),
            },
            None => strmap::get(c.devcontainer.extra_features, name),
        }),
{
    match l {
        Some(l) => {
            layers::lemma_get_after_agents(c.agents, l.file.agents, name);
            match l.file.devcontainer.extra_features {
                Some(m) => {
                    strmap::lemma_get_after_extend(c.devcontainer.extra_features, m, name);
                },
                None => {},
            }
        },
        None => {},
    }
}

/// Every key that a file has and that is not known is reported with the file and the tables it stands in,
/// the global file's first. Nothing else is.
pub proof fn law_unknown_keys_are_reported(
    global: Option<LayerModel>,
    project: Option<LayerModel>,
    env: Seq<(Seq<char>, Seq<char>)>,
)
    requires
        loaded(global, project, env) is Ok,
    ensures
        ({
            let keys = loaded(global, project, env)->Ok_0.unknown_keys;
            let of_global = match global {
                Some(l) => layers::dotted_keys(l.file).len(),
                None => 0,
            };
            &&& of_global <= keys.len()
            &&& global matches Some(l) ==> {
                &&& forall|i: int| 0 <= i < of_global ==> (#[trigger] keys[i]).file == l.path
                &&& forall|k: Seq<char>|
                    reports(keys.subrange(0, of_global as int), k) <==> #[trigger] stands_unknown(l.file, k)
            }
            &&& project matches Some(l) ==> {
                &&& forall|i: int| of_global <= i < keys.len() ==> (#[trigger] keys[i]).file == l.path
                &&& forall|k: Seq<char>|
                    reports(keys.subrange(of_global as int, keys.len() as int), k) <==> #[trigger] stands_unknown(
                        l.file,
                        k,
                    )
            }
            &&& project is None ==> keys.len() == of_global
        }),
{
    let keys = loaded(global, project, env)->Ok_0.unknown_keys;
    let a = match global {
        Some(l) => layers::unknown_keys_of(l.file, l.path),
        None => Seq::empty(),
    };
    let b = match project {
        Some(l) => layers::unknown_keys_of(l.file, l.path),
        None => Seq::empty(),
    };
    assert(keys =~= a + b);
    assert(keys.subrange(0, a.len() as int) =~= a);
    assert(keys.subrange(a.len() as int, keys.len() as int) =~= b);
    match global {
        Some(l) => {
            lemma_reported(l.file, l.path);
        },
        None => {},
    }
    match project {
        Some(l) => {
            lemma_reported(l.file, l.path);
        },
        None => {},
    }
}

/// Whether a key is among those reported.
pub open spec fn reports(keys: Seq<crate::config::UnknownKeyModel>, k: Seq<char>) -> bool {
    exists|i: int| 0 <= i < keys.len() && (#[trigger] keys[i]).key == k
}

/// Whether a dotted key stands in a file and is not known.
pub open spec fn stands_unknown(f: FileModel, k: Seq<char>) -> bool {
    ||| f.unknown.contains(k)
    ||| below("defaults."@, f.defaults.unknown, k)
    ||| below("tmux."@, f.tmux.unknown, k)
    ||| below("container."@, f.container.unknown, k)
    ||| below("devcontainer."@, f.devcontainer.unknown, k)
    ||| exists|i: int|
        0 <= i < f.agents.len() && below(
            "agents."@ + (#[trigger] f.agents[i]).0 + "."@,
            f.agents[i].1.unknown,
            k,
        )
}

/// Whether `k` is one of the keys, written below the prefix.
pub open spec fn below(prefix: Seq<char>, keys: Seq<Seq<char>>, k: Seq<char>) -> bool {
    exists|i: int| 0 <= i < keys.len() && k == prefix + #[trigger] keys[i]
}

proof fn lemma_below(prefix: Seq<char>, keys: Seq<Seq<char>>, k: Seq<char>)
    ensures
        layers::prefixed(prefix, keys).contains(k) <==> below(prefix, keys, k),
{
    let p = layers::prefixed(prefix, keys);
    if p.contains(k) {
        let i = choose|i: int| 0 <= i < p.len() && p[i] == k;
        assert(k == prefix + keys[i]);
    }
    if below(prefix, keys, k) {
        let i = choose|i: int| 0 <= i < keys.len() && k == prefix + #[trigger] keys[i];
        assert(p[i] == k);
    }
}

proof fn lemma_agent_keys(agents: Seq<(Seq<char>, file::FileAgentModel)>, k: Seq<char>)
    ensures
        layers::agent_keys(agents).contains(k) <==> exists|i: int|
            0 <= i < agents.len() && below("agents."@ + (#[trigger] agents[i]).0 + "."@, agents[i].1.unknown, k),
    decreases agents.len(),
{
    if agents.len() > 0 {
        let front = agents.drop_last();
        let rest = layers::agent_keys(front);
        let prefix = "agents."@ + agents.last().0 + "."@;
        let more = layers::prefixed(prefix, agents.last().1.unknown);
        lemma_agent_keys(front, k);
        lemma_below(prefix, agents.last().1.unknown, k);
        lemma_contains_either(rest, more, k);
        if exists|i: int|
            0 <= i < agents.len() && below("agents."@ + (#[trigger] agents[i]).0 + "."@, agents[i].1.unknown, k) {
            let i = choose|i: int|
                0 <= i < agents.len() && below("agents."@ + (#[trigger] agents[i]).0 + "."@, agents[i].1.unknown, k);
            if i < front.len() {
                assert(front[i] == agents[i]);
            }
        }
        if rest.contains(k) {
            let i = choose|i: int|
                0 <= i < front.len() && below("agents."@ + (#[trigger] front[i]).0 + "."@, front[i].1.unknown, k);
            assert(agents[i] == front[i]);
        }
        if more.contains(k) {
            assert(agents[agents.len() - 1] == agents.last());
        }
    }
}

proof fn lemma_contains_either(a: Seq<Seq<char>>, b: Seq<Seq<char>>, k: Seq<char>)
    ensures
        (a + b).contains(k) <==> a.contains(k) || b.contains(k),
{
    let c = a + b;
    if c.contains(k) {
        let i = choose|i: int| 0 <= i < c.len() && c[i] == k;
        if i < a.len() {
            assert(a[i] == k);
        } else {
            assert(b[i - a.len()] == k);
        }
    }
    if a.contains(k) {
        let i = choose|i: int| 0 <= i < a.len() && a[i] == k;
        assert(c[i] == k);
    }
    if b.contains(k) {
        let i = choose|i: int| 0 <= i < b.len() && b[i] == k;
        assert(c[a.len() + i] == k);
    }
}

proof fn lemma_reported(f: FileModel, path: Seq<char>)
    ensures
        layers::unknown_keys_of(f, path).len() == layers::dotted_keys(f).len(),
        forall|i: int|
            0 <= i < layers::unknown_keys_of(f, path).len() ==> (#[trigger] layers::unknown_keys_of(f, path)[i]).file
                == path,
        forall|k: Seq<char>| reports(layers::unknown_keys_of(f, path), k) <==> #[trigger] stands_unknown(f, k),
{
    broadcast use vstd::seq_lib::group_to_multiset_ensures;

    let u = layers::unknown_keys_of(f, path);
    let d = layers::dotted_keys(f);
    let p1 = layers::prefixed("defaults."@, f.defaults.unknown);
    let p2 = layers::prefixed("tmux."@, f.tmux.unknown);
    let p3 = layers::prefixed("container."@, f.container.unknown);
    let p4 = layers::prefixed("devcontainer."@, f.devcontainer.unknown);
    let p5 = layers::agent_keys(f.agents);
    let all = f.unknown + p1 + p2 + p3 + p4 + p5;
    crate::sort::law_sorted::<String>(all);
    assert(d == crate::sort::sorted::<String>(all));
    assert forall|k: Seq<char>| reports(u, k) <==> #[trigger] stands_unknown(f, k) by {
        lemma_below("defaults."@, f.defaults.unknown, k);
        lemma_below("tmux."@, f.tmux.unknown, k);
        lemma_below("container."@, f.container.unknown, k);
        lemma_below("devcontainer."@, f.devcontainer.unknown, k);
        lemma_agent_keys(f.agents, k);
        lemma_contains_either(f.unknown, p1, k);
        lemma_contains_either(f.unknown + p1, p2, k);
        lemma_contains_either(f.unknown + p1 + p2, p3, k);
        lemma_contains_either(f.unknown + p1 + p2 + p3, p4, k);
        lemma_contains_either(f.unknown + p1 + p2 + p3 + p4, p5, k);
        assert(d.contains(k) <==> all.contains(k)) by {
            assert(d.to_multiset().count(k) == all.to_multiset().count(k));
        }
        if reports(u, k) {
            let i = choose|i: int| 0 <= i < u.len() && (#[trigger] u[i]).key == k;
            assert(d[i] == k);
        }
        if d.contains(k) {
            let i = choose|i: int| 0 <= i < d.len() && d[i] == k;
            assert(u[i].key == k);
        }
    }
}

/// Whether a document holds nothing but empty tables, each of them a known one.
pub open spec fn empty_tables(j: JsonModel) -> bool {
    &&& j is Object
    &&& forall|i: int|
        0 <= i < j->Object_0.len() ==> (#[trigger] j->Object_0[i]).1 == JsonModel::Object(Seq::empty())
            && file::known_tables().contains(j->Object_0[i].0)
}

/// A file of empty tables activates nothing: every setting, and the list of unknown keys, stays as it
/// was.
pub proof fn law_empty_tables_activate_nothing(c: ConfigModel, path: Seq<char>, j: JsonModel)
    requires
        empty_tables(j),
    ensures
        file::file_config_of(path, Ok(j)) is Ok,
        with_layer(c, Some(LayerModel { path, file: file::file_config_of(path, Ok(j))->Ok_0 })) == c,
{
    let o = j->Object_0;
    file::lemma_nothing_unknown(o, file::known_tables());
    file::lemma_table_is_empty(o, "defaults"@);
    file::lemma_table_is_empty(o, "agents"@);
    file::lemma_table_is_empty(o, "tmux"@);
    file::lemma_table_is_empty(o, "container"@);
    file::lemma_table_is_empty(o, "devcontainer"@);
    let f = file::file_of(j)->0;
    assert(f.unknown.len() == 0);
    assert(layers::agent_keys(f.agents).len() == 0);
    let all = f.unknown + layers::prefixed("defaults."@, f.defaults.unknown) + layers::prefixed(
        "tmux."@,
        f.tmux.unknown,
    ) + layers::prefixed("container."@, f.container.unknown) + layers::prefixed(
        "devcontainer."@,
        f.devcontainer.unknown,
    ) + layers::agent_keys(f.agents);
    assert(all.len() == 0);
    assert(layers::unknown_keys_of(f, path).len() == 0);
    assert(c.unknown_keys + layers::unknown_keys_of(f, path) =~= c.unknown_keys);
}

/// A project file of empty tables loads as if there were none.
pub proof fn law_an_empty_project_file_is_none(
    global: Option<ConfigText>,
    project: ConfigText,
    env: Seq<(Seq<char>, Seq<char>)>,
)
    ensures
        toml_text::toml_document(project.text@) matches Ok(j) ==> empty_tables(j) ==> load_of(
            global,
            Some(project),
            env,
        ) == load_of(global, None, env),
{
    match toml_text::toml_document(project.text@) {
        Ok(j) => {
            if empty_tables(j) && layer_of(global) is Ok {
                let c = with_layer(crate::config::default_config(), layer_of(global)->Ok_0);
                law_empty_tables_activate_nothing(c, project.path@, j);
            }
        },
        Err(_) => {},
    }
}

// ----------------------------------------------------------------------------------------------
// What is accepted
// ----------------------------------------------------------------------------------------------

/// Whether every entry is named as a variable is.
pub open spec fn all_named(env: Seq<Seq<char>>) -> bool {
    forall|i: int| 0 <= i < env.len() ==> variable_name(entry_name(#[trigger] env[i]))
}

proof fn lemma_env_error(env: Seq<Seq<char>>)
    ensures
        env_error(env) is None <==> all_named(env),
    decreases env.len(),
{
    if env.len() > 0 {
        let rest = env.drop_first();
        lemma_env_error(rest);
        if all_named(env) {
            assert(variable_name(entry_name(env[0])));
            assert forall|i: int| 0 <= i < rest.len() implies variable_name(entry_name(#[trigger] rest[i])) by {
                assert(rest[i] == env[i + 1]);
            }
        }
        if env_error(env) is None {
            assert forall|i: int| 0 <= i < env.len() implies variable_name(entry_name(#[trigger] env[i])) by {
                if i > 0 {
                    assert(rest[i - 1] == env[i]);
                }
            }
        }
    }
}

/// A configuration is refused exactly where a percentage, the name of the container's user or the name of a
/// passed-through variable is none. The percentage in the environment counts also as such.
pub proof fn law_only_valid_configurations_load(
    global: Option<LayerModel>,
    project: Option<LayerModel>,
    env: Seq<(Seq<char>, Seq<char>)>,
)
    ensures
        ({
            let percent = strmap::get(env, "AM_TMUX_SPLIT_PERCENT"@);
            let user = last_given(
                said(strmap::get(env, "AM_CONTAINER_USER"@)),
                said(given(project, |f: FileModel| f.container.user)),
                said(given(global, |f: FileModel| f.container.user)),
                "am"@,
            );
            let passed = last_given(
                None,
                given(project, |f: FileModel| f.container.env),
                given(global, |f: FileModel| f.container.env),
                Seq::empty(),
            );
            let of_files = last_given(
                None,
                given(project, |f: FileModel| f.tmux.split_percent),
                given(global, |f: FileModel| f.tmux.split_percent),
                50,
            );
            loaded(global, project, env) is Ok <==> user_name(user) && all_named(passed) && match percent {
                Some(s) => layers::percent_named(s) is Some,
                None => 1 <= of_files <= 99,
            }
        }),
{
    let c = with_layer(with_layer(crate::config::default_config(), global), project);
    match layers::env_over(c, env) {
        Ok(d) => {
            lemma_env_error(d.container.env);
        },
        Err(_) => {},
    }
}

/// What names are made of: a variable's of letters, digits and underscores and not of a digit first, a user's
/// of small letters, digits, underscores and hyphens, a small letter or an underscore first.
pub proof fn law_names_are_made_of(s: Seq<char>)
    ensures
        variable_name(s) <==> s.len() > 0 && !('0' <= s[0] <= '9') && (forall|i: int|
            0 <= i < s.len() ==> ('a' <= #[trigger] s[i] <= 'z' || 'A' <= s[i] <= 'Z' || '0' <= s[i] <= '9' || s[i]
                == '_')),
        user_name(s) <==> s.len() > 0 && ('a' <= s[0] <= 'z' || s[0] == '_') && (forall|i: int|
            0 <= i < s.len() ==> ('a' <= #[trigger] s[i] <= 'z' || '0' <= s[i] <= '9' || s[i] == '_' || s[i] == '-')),
{
}

/// An entry is named by what stands before its first `=`, or by all of it.
pub proof fn law_an_entry_is_named_before_its_value(name: Seq<char>, value: Seq<char>)
    requires
        !name.contains('='),
    ensures
        entry_name(name) == name,
        entry_name(name + "="@ + value) == name,
{
    reveal_strlit("=");
    let s = name + "="@ + value;
    assert forall|j: int| 0 <= j < name.len() implies name[j] != '=' && s[j] != '=' by {
        assert(name.contains(name[j]));
    }
    text::lemma_position_is(name, '=', name.len() as int);
    text::lemma_position_is(s, '=', name.len() as int);
    assert(name.subrange(0, name.len() as int) =~= name);
    assert(s.subrange(0, name.len() as int) =~= name);
}

/// Both files are read, each with its own path, and the first of them that cannot be read is the error.
pub proof fn law_both_files_are_read(
    global: ConfigText,
    project: ConfigText,
    env: Seq<(Seq<char>, Seq<char>)>,
)
    ensures
        ({
            let g = file::file_config_of(global.path@, toml_text::toml_document(global.text@));
            let p = file::file_config_of(project.path@, toml_text::toml_document(project.text@));
            let of_global = |f: FileModel| Some(LayerModel { path: global.path@, file: f });
            let of_project = |f: FileModel| Some(LayerModel { path: project.path@, file: f });
            &&& load_of(None, None, env) == loaded(None, None, env)
            &&& g matches Ok(f) ==> load_of(Some(global), None, env) == loaded(of_global(f), None, env)
            &&& p matches Ok(h) ==> load_of(None, Some(project), env) == loaded(None, of_project(h), env)
            &&& g matches Ok(f) ==> (p matches Ok(h) ==> load_of(Some(global), Some(project), env) == loaded(
                of_global(f),
                of_project(h),
                env,
            ))
            &&& g matches Err(e) ==> load_of(Some(global), Some(project), env) == Err::<ConfigModel, AmErrorModel>(e)
            &&& g is Ok ==> (p matches Err(e) ==> load_of(Some(global), Some(project), env) == Err::<
                ConfigModel,
                AmErrorModel,
            >(e))
        }),
{
}

/// What is kept for a user is kept in `am` below the directory that is given for it, and where none is given
/// below the usual one in the home directory.
pub proof fn law_a_directory_that_is_given_is_used(
    given: Seq<char>,
    home: Option<Seq<char>>,
    own: Seq<char>,
    rest: Seq<char>,
)
    requires
        given.len() > 0 && path::tidy(given) == given,
        own.len() > 0 && path::tidy(own) == own,
        path::tidy(path::joined(own, rest)) == path::joined(own, rest),
        path::joined(own, rest).len() > 0,
    ensures
        am_dir(Some(given), home, rest) matches Some(d) && path::file_name(d) == Some("am"@) && path::parent(d) == Some(
            given,
        ),
        am_dir(None, Some(own), rest) matches Some(d) && path::file_name(d) == Some("am"@) && path::parent(d) == Some(
            path::joined(own, rest),
        ),
        am_dir(None, None, rest) is None,
{
    reveal_strlit("am");
    reveal_strlit(".");
    reveal_strlit("..");
    let am = "am"@;
    assert(!am.contains('/')) by {
        assert forall|i: int| 0 <= i < am.len() implies am[i] != '/' by {}
    }
    assert(am != "."@ && am != ".."@) by {
        assert(am[0] == 'a');
        assert(".."@[0] == '.');
    }
    path::law_a_file_is_below_its_directory(given, am, am, am, am);
    path::law_a_file_is_below_its_directory(path::joined(own, rest), am, am, am, am);
}

} // verus!
