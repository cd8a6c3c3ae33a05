//! The `devcontainer.metadata` image label.

use vstd::prelude::*;

use crate::decode;
use crate::devcontainer::lifecycle::{self, LifecycleCommand, LifecycleCommandModel};
use crate::devcontainer::mount::{self, Mount, MountModel};
use crate::error::{AmError, AmErrorModel};
use crate::json::{self, Json, JsonModel};
use crate::strmap::StrMap;
use crate::text;

verus! {

/// One element of the image label. Properties that are not modelled are ignored: the label is
/// written by tools that evolve on their own.
#[derive(Debug, PartialEq)]
pub struct MetadataSnippet {
    /// The Feature that contributed this, where one did.
    pub id: Option<String>,
    pub entrypoint: Option<String>,
    pub mounts: Vec<Mount>,
    pub init: Option<bool>,
    pub privileged: Option<bool>,
    pub cap_add: Vec<String>,
    pub security_opt: Vec<String>,
    pub container_env: StrMap<String>,
    /// A `null` value means that the variable is deliberately not set.
    pub remote_env: StrMap<Option<String>>,
    pub container_user: Option<String>,
    pub remote_user: Option<String>,
    pub user_env_probe: Option<String>,
    pub override_command: Option<bool>,
    pub wait_for: Option<String>,
    pub on_create_command: Option<LifecycleCommand>,
    pub update_content_command: Option<LifecycleCommand>,
    pub post_create_command: Option<LifecycleCommand>,
    pub post_start_command: Option<LifecycleCommand>,
    pub post_attach_command: Option<LifecycleCommand>,
    /// Numbers and `"<service>:<port>"` texts; [`crate::devcontainer::ForwardedPort::parse`] sorts them out.
    pub forward_ports: Vec<Json>,
}

/// What a [`MetadataSnippet`] stands for.
pub struct SnippetModel {
    pub id: Option<Seq<char>>,
    pub entrypoint: Option<Seq<char>>,
    pub mounts: Seq<MountModel>,
    pub init: Option<bool>,
    pub privileged: Option<bool>,
    pub cap_add: Seq<Seq<char>>,
    pub security_opt: Seq<Seq<char>>,
    pub container_env: Seq<(Seq<char>, Seq<char>)>,
    pub remote_env: Seq<(Seq<char>, Option<Seq<char>>)>,
    pub container_user: Option<Seq<char>>,
    pub remote_user: Option<Seq<char>>,
    pub user_env_probe: Option<Seq<char>>,
    pub override_command: Option<bool>,
    pub wait_for: Option<Seq<char>>,
    pub on_create_command: Option<LifecycleCommandModel>,
    pub update_content_command: Option<LifecycleCommandModel>,
    pub post_create_command: Option<LifecycleCommandModel>,
    pub post_start_command: Option<LifecycleCommandModel>,
    pub post_attach_command: Option<LifecycleCommandModel>,
    pub forward_ports: Seq<JsonModel>,
}

impl DeepView for MetadataSnippet {
    type V = SnippetModel;

    open spec fn deep_view(&self) -> SnippetModel {
        SnippetModel {
            id: self.id.deep_view(),
            entrypoint: self.entrypoint.deep_view(),
            mounts: self.mounts.deep_view(),
            init: self.init,
            privileged: self.privileged,
            cap_add: self.cap_add.deep_view(),
            security_opt: self.security_opt.deep_view(),
            container_env: self.container_env.deep_view(),
            remote_env: self.remote_env.deep_view(),
            container_user: self.container_user.deep_view(),
            remote_user: self.remote_user.deep_view(),
            user_env_probe: self.user_env_probe.deep_view(),
            override_command: self.override_command,
            wait_for: self.wait_for.deep_view(),
            on_create_command: self.on_create_command.deep_view(),
            update_content_command: self.update_content_command.deep_view(),
            post_create_command: self.post_create_command.deep_view(),
            post_start_command: self.post_start_command.deep_view(),
            post_attach_command: self.post_attach_command.deep_view(),
            forward_ports: self.forward_ports.deep_view(),
        }
    }
}

impl Default for MetadataSnippet {
    /// A snippet that contributes nothing.
    fn default() -> (r: Self)
        ensures
            r.deep_view() == empty_snippet(),
    {
        let r = MetadataSnippet {
            id: None,
            entrypoint: None,
            mounts: Vec::new(),
            init: None,
            privileged: None,
            cap_add: Vec::new(),
            security_opt: Vec::new(),
            container_env: StrMap::new(),
            remote_env: StrMap::new(),
            container_user: None,
            remote_user: None,
            user_env_probe: None,
            override_command: None,
            wait_for: None,
            on_create_command: None,
            update_content_command: None,
            post_create_command: None,
            post_start_command: None,
            post_attach_command: None,
            forward_ports: Vec::new(),
        };
        assert(r.mounts.deep_view() =~= Seq::<MountModel>::empty());
        assert(r.cap_add.deep_view() =~= Seq::<Seq<char>>::empty());
        assert(r.security_opt.deep_view() =~= Seq::<Seq<char>>::empty());
        assert(r.forward_ports.deep_view() =~= Seq::<JsonModel>::empty());
        r
    }
}

/// The snippet that contributes nothing.
pub open spec fn empty_snippet() -> SnippetModel {
    SnippetModel {
        id: None,
        entrypoint: None,
        mounts: Seq::empty(),
        init: None,
        privileged: None,
        cap_add: Seq::empty(),
        security_opt: Seq::empty(),
        container_env: Seq::empty(),
        remote_env: Seq::empty(),
        container_user: None,
        remote_user: None,
        user_env_probe: None,
        override_command: None,
        wait_for: None,
        on_create_command: None,
        update_content_command: None,
        post_create_command: None,
        post_start_command: None,
        post_attach_command: None,
        forward_ports: Seq::empty(),
    }
}

/// The fields of a snippet.
pub open spec fn snippet_fields() -> Seq<Seq<char>> {
    seq![
        "id"@,
        "entrypoint"@,
        "mounts"@,
        "init"@,
        "privileged"@,
        "capAdd"@,
        "securityOpt"@,
        "containerEnv"@,
        "remoteEnv"@,
        "containerUser"@,
        "remoteUser"@,
        "userEnvProbe"@,
        "overrideCommand"@,
        "waitFor"@,
        "onCreateCommand"@,
        "updateContentCommand"@,
        "postCreateCommand"@,
        "postStartCommand"@,
        "postAttachCommand"@,
        "forwardPorts"@,
    ]
}

/// The snippet that a JSON object spells.
pub open spec fn snippet_of(j: JsonModel) -> Option<SnippetModel> {
    let j = decode::named(j, snippet_fields(), 19);
    let id = decode::opt_text_of(j.member("id"@));
    let entrypoint = decode::opt_text_of(j.member("entrypoint"@));
    let mounts = mount::mounts_of(j.member("mounts"@));
    let init = decode::opt_bool_of(j.member("init"@));
    let privileged = decode::opt_bool_of(j.member("privileged"@));
    let cap_add = decode::texts_of(j.member("capAdd"@));
    let security_opt = decode::texts_of(j.member("securityOpt"@));
    let container_env = decode::text_map_of(j.member("containerEnv"@));
    let remote_env = decode::nullable_map_of(j.member("remoteEnv"@));
    let container_user = decode::opt_text_of(j.member("containerUser"@));
    let remote_user = decode::opt_text_of(j.member("remoteUser"@));
    let user_env_probe = decode::opt_text_of(j.member("userEnvProbe"@));
    let override_command = decode::opt_bool_of(j.member("overrideCommand"@));
    let wait_for = decode::opt_text_of(j.member("waitFor"@));
    let on_create_command = lifecycle::hook_of(j.member("onCreateCommand"@));
    let update_content_command = lifecycle::hook_of(j.member("updateContentCommand"@));
    let post_create_command = lifecycle::hook_of(j.member("postCreateCommand"@));
    let post_start_command = lifecycle::hook_of(j.member("postStartCommand"@));
    let post_attach_command = lifecycle::hook_of(j.member("postAttachCommand"@));
    let forward_ports = decode::values_of(j.member("forwardPorts"@));
    if j is Object && id is Some && entrypoint is Some && mounts is Some && init is Some && privileged is Some && cap_add is Some && security_opt is Some && container_env is Some && remote_env is Some && container_user is Some && remote_user is Some && user_env_probe is Some && override_command is Some && wait_for is Some && on_create_command is Some && update_content_command is Some && post_create_command is Some && post_start_command is Some && post_attach_command is Some && forward_ports is Some {
        Some(
            SnippetModel {
                id: id->0,
                entrypoint: entrypoint->0,
                mounts: mounts->0,
                init: init->0,
                privileged: privileged->0,
                cap_add: cap_add->0,
                security_opt: security_opt->0,
                container_env: container_env->0,
                remote_env: remote_env->0,
                container_user: container_user->0,
                remote_user: remote_user->0,
                user_env_probe: user_env_probe->0,
                override_command: override_command->0,
                wait_for: wait_for->0,
                on_create_command: on_create_command->0,
                update_content_command: update_content_command->0,
                post_create_command: post_create_command->0,
                post_start_command: post_start_command->0,
                post_attach_command: post_attach_command->0,
                forward_ports: forward_ports->0,
            },
        )
    } else {
        None
    }
}

/// The snippets of a JSON array.
pub open spec fn snippet_list(a: Seq<JsonModel>) -> Option<Seq<SnippetModel>> {
    if forall|i: int| 0 <= i < a.len() ==> snippet_of(#[trigger] a[i]) is Some {
        Some(a.map_values(|j: JsonModel| snippet_of(j)->0))
    } else {
        None
    }
}

/// A label that is a single snippet.
pub open spec fn only_snippet(j: JsonModel) -> Option<Seq<SnippetModel>> {
    match snippet_of(j) {
        Some(s) => Some(seq![s]),
        None => None,
    }
}

/// The snippets of a label: an array of them, or a single one.
pub open spec fn label_snippets(j: JsonModel) -> Option<Seq<SnippetModel>> {
    match j {
        JsonModel::Array(a) => match snippet_list(a) {
            Some(s) => Some(s),
            None => only_snippet(j),
        },
        _ => only_snippet(j),
    }
}

pub open spec fn bad_label() -> AmErrorModel {
    AmErrorModel::ConfigError("parsing the devcontainer.metadata image label"@)
}

/// What a label's text says; `parsed` is what the JSON reader made of the trimmed text.
pub open spec fn label_of(trimmed: Seq<char>, parsed: Result<JsonModel, Seq<char>>) -> Result<
    Seq<SnippetModel>,
    AmErrorModel,
> {
    if trimmed.len() == 0 {
        Ok(Seq::empty())
    } else {
        match parsed {
            Err(_) => Err(bad_label()),
            Ok(j) => match label_snippets(j) {
                Some(s) => Ok(s),
                None => Err(bad_label()),
            },
        }
    }
}

/// Reads one snippet.
pub fn read_snippet(j: &Json) -> (r: Option<MetadataSnippet>)
    ensures
        r.deep_view() == snippet_of(j@),
{
    let names: Vec<&str> = vec![
        "id",
        "entrypoint",
        "mounts",
        "init",
        "privileged",
        "capAdd",
        "securityOpt",
        "containerEnv",
        "remoteEnv",
        "containerUser",
        "remoteUser",
        "userEnvProbe",
        "overrideCommand",
        "waitFor",
        "onCreateCommand",
        "updateContentCommand",
        "postCreateCommand",
        "postStartCommand",
        "postAttachCommand",
        "forwardPorts",
    ];
    assert(names.deep_view() =~= snippet_fields());
    let held = decode::by_position(j, &names, 19);
    let j: &Json = match &held {
        Some(o) => o,
        None => j,
    };
    let is_object = match j {
        Json::Object(_) => true,
        _ => false,
    };
    assert(is_object == (j@ is Object));
    let id = decode::opt_text(j.get("id"));
    let entrypoint = decode::opt_text(j.get("entrypoint"));
    let mounts = mount::read_mounts(j.get("mounts"));
    let init = decode::opt_bool(j.get("init"));
    let privileged = decode::opt_bool(j.get("privileged"));
    let cap_add = decode::texts(j.get("capAdd"));
    let security_opt = decode::texts(j.get("securityOpt"));
    let container_env = decode::text_map(j.get("containerEnv"));
    let remote_env = decode::nullable_map(j.get("remoteEnv"));
    let container_user = decode::opt_text(j.get("containerUser"));
    let remote_user = decode::opt_text(j.get("remoteUser"));
    let user_env_probe = decode::opt_text(j.get("userEnvProbe"));
    let override_command = decode::opt_bool(j.get("overrideCommand"));
    let wait_for = decode::opt_text(j.get("waitFor"));
    let on_create_command = lifecycle::read_hook(j.get("onCreateCommand"));
    let update_content_command = lifecycle::read_hook(j.get("updateContentCommand"));
    let post_create_command = lifecycle::read_hook(j.get("postCreateCommand"));
    let post_start_command = lifecycle::read_hook(j.get("postStartCommand"));
    let post_attach_command = lifecycle::read_hook(j.get("postAttachCommand"));
    let forward_ports = decode::values(j.get("forwardPorts"));
    if !is_object || id.is_none() || entrypoint.is_none() || mounts.is_none() || init.is_none() || privileged.is_none() || cap_add.is_none() || security_opt.is_none() || container_env.is_none() || remote_env.is_none() || container_user.is_none() || remote_user.is_none() || user_env_probe.is_none() || override_command.is_none() || wait_for.is_none() || on_create_command.is_none() || update_content_command.is_none() || post_create_command.is_none() || post_start_command.is_none() || post_attach_command.is_none() || forward_ports.is_none() {
        return None;
    }
    Some(
        MetadataSnippet {
            id: id.unwrap(),
            entrypoint: entrypoint.unwrap(),
            mounts: mounts.unwrap(),
            init: init.unwrap(),
            privileged: privileged.unwrap(),
            cap_add: cap_add.unwrap(),
            security_opt: security_opt.unwrap(),
            container_env: container_env.unwrap(),
            remote_env: remote_env.unwrap(),
            container_user: container_user.unwrap(),
            remote_user: remote_user.unwrap(),
            user_env_probe: user_env_probe.unwrap(),
            override_command: override_command.unwrap(),
            wait_for: wait_for.unwrap(),
            on_create_command: on_create_command.unwrap(),
            update_content_command: update_content_command.unwrap(),
            post_create_command: post_create_command.unwrap(),
            post_start_command: post_start_command.unwrap(),
            post_attach_command: post_attach_command.unwrap(),
            forward_ports: forward_ports.unwrap(),
        },
    )
}

/// What is read of a label that was written from these elements.
pub open spec fn read_back(a: Seq<JsonModel>) -> Result<Seq<SnippetModel>, AmErrorModel> {
    match label_snippets(JsonModel::Array(a)) {
        Some(s) => Ok(s),
        None => Err(bad_label()),
    }
}

pub(crate) proof fn lemma_spaced_is_trimmed(a: Seq<JsonModel>)
    ensures
        json::spaced(a).len() > 0,
        json::spaced(a)[0] == '[',
        text::trimmed(json::spaced(a)) == json::spaced(a),
{
    reveal_strlit("[ ");
    reveal_strlit(" ]");
    let s = json::spaced(a);
    assert(s[0] == "[ "@[0]);
    assert(s.last() == " ]"@[1]);
}

fn read_snippets(a: &Vec<Json>) -> (r: Option<Vec<MetadataSnippet>>)
    ensures
        r.deep_view() == snippet_list(crate::json::elements_model(a@)),
{
    let ghost m = crate::json::elements_model(a@);
    let mut out: Vec<MetadataSnippet> = Vec::new();
    let mut i: usize = 0;
    while i < a.len()
        invariant
            m == crate::json::elements_model(a@),
            i <= a.len(),
            out.len() == i,
            forall|k: int| 0 <= k < i ==> snippet_of(#[trigger] m[k]) == Some(out@[k].deep_view()),
        decreases a.len() - i,
    {
        assert(m[i as int] == a@[i as int]@);
        match read_snippet(&a[i]) {
            Some(v) => {
                out.push(v);
            },
            None => {
                return None;
            },
        }
        i = i + 1;
    }
    assert(out.deep_view() =~= m.map_values(|j: JsonModel| snippet_of(j)->0));
    Some(out)
}

/// Reads the snippets of a parsed label.
pub fn read_label(j: &Json) -> (r: Result<Vec<MetadataSnippet>, AmError>)
    ensures
        crate::error::outcome(r) == (match label_snippets(j@) {
            Some(s) => Ok::<Seq<SnippetModel>, AmErrorModel>(s),
            None => Err(bad_label()),
        }),
{
    broadcast use crate::json::lemma_object_view;

    match j {
        Json::Array(a) => match read_snippets(a) {
            Some(all) => {
                return Ok(all);
            },
            None => {},
        },
        _ => {},
    }
    match read_snippet(j) {
        Some(s) => {
            let mut out: Vec<MetadataSnippet> = Vec::new();
            out.push(s);
            assert(out.deep_view() =~= seq![s.deep_view()]);
            Ok(out)
        },
        None => Err(AmError::ConfigError("parsing the devcontainer.metadata image label".to_owned())),
    }
}

/// Parses the `devcontainer.metadata` label value into snippets in merge order.
pub fn parse_metadata_label(label: &str) -> (r: Result<Vec<MetadataSnippet>, AmError>)
    ensures
        crate::error::outcome(r) == label_of(text::trimmed(label@), json::lenient(text::trimmed(label@))),
        forall|a: Seq<JsonModel>|
            json::plain(JsonModel::Array(a), 64) && label@ == #[trigger] json::spaced(a) ==> crate::error::outcome(r)
                == read_back(a),
{
    proof {
        assert forall|a: Seq<JsonModel>| label@ == #[trigger] json::spaced(a) implies text::trimmed(label@) == label@
            && label@.len() > 0 by {
            lemma_spaced_is_trimmed(a);
        }
    }
    let trimmed = text::trim(label);
    if trimmed.is_empty() {
        let v: Vec<MetadataSnippet> = Vec::new();
        assert(v.deep_view() =~= Seq::<SnippetModel>::empty());
        return Ok(v);
    }
    match json::parse_lenient(trimmed) {
        Ok(j) => read_label(&j),
        Err(_) => Err(AmError::ConfigError("parsing the devcontainer.metadata image label".to_owned())),
    }
}

// ----------------------------------------------------------------------------------------------
// userEnvProbe
// ----------------------------------------------------------------------------------------------

/// How to derive the environment the agent runs with.
#[derive(Debug, Clone, Copy, PartialEq, Eq, Structural)]
pub enum UserEnvProbe {
    /// Start the agent with exactly the environment it is given.
    Off,
    InteractiveShell,
    LoginShell,
    LoginInteractiveShell,
}

impl Default for UserEnvProbe {
    fn default() -> (r: Self)
        ensures
            r == UserEnvProbe::Off,
    {
        UserEnvProbe::Off
    }
}

/// The probe a config value names; a login, interactive shell where it names none.
pub open spec fn probe_of(value: Option<Seq<char>>) -> UserEnvProbe {
    if value == Some("none"@) {
        UserEnvProbe::Off
    } else if value == Some("interactiveShell"@) {
        UserEnvProbe::InteractiveShell
    } else if value == Some("loginShell"@) {
        UserEnvProbe::LoginShell
    } else {
        UserEnvProbe::LoginInteractiveShell
    }
}

impl UserEnvProbe {
    /// The flags the probe shell is started with; none where there is no probe.
    pub open spec fn flags(self) -> Option<Seq<char>> {
        match self {
            UserEnvProbe::Off => None,
            UserEnvProbe::InteractiveShell => Some("-ic"@),
            UserEnvProbe::LoginShell => Some("-lc"@),
            UserEnvProbe::LoginInteractiveShell => Some("-lic"@),
        }
    }

    /// Reads the config value.
    pub fn parse(value: Option<&str>) -> (r: Self)
        ensures
            r == probe_of(value.deep_view()),
    {
        match value {
            Some(v) => if text::eq(v, "none") {
                UserEnvProbe::Off
            } else if text::eq(v, "interactiveShell") {
                UserEnvProbe::InteractiveShell
            } else if text::eq(v, "loginShell") {
                UserEnvProbe::LoginShell
            } else {
                UserEnvProbe::LoginInteractiveShell
            },
            None => UserEnvProbe::LoginInteractiveShell,
        }
    }

    /// The flags the probe shell is started with, or `None` for no probe at all.
    pub fn shell_flags(&self) -> (r: Option<&'static str>)
        ensures
            r.deep_view() == self.flags(),
    {
        match self {
            UserEnvProbe::Off => None,
            UserEnvProbe::InteractiveShell => Some("-ic"),
            UserEnvProbe::LoginShell => Some("-lc"),
            UserEnvProbe::LoginInteractiveShell => Some("-lic"),
        }
    }
}

/// The probe shell's flags: none where the config asks for none, and otherwise those of an interactive
/// shell, of a login shell, or of both, which is also what is used where the config says nothing.
pub proof fn law_the_probe_is_the_shell_that_is_named(value: Option<Seq<char>>)
    ensures
        value == Some("none"@) ==> probe_of(value).flags() is None,
        value == Some("interactiveShell"@) ==> probe_of(value).flags() == Some("-ic"@),
        value == Some("loginShell"@) ==> probe_of(value).flags() == Some("-lc"@),
        value == Some("loginInteractiveShell"@) ==> probe_of(value).flags() == Some("-lic"@),
        value is None ==> probe_of(value).flags() == Some("-lic"@),
{
    reveal_strlit("none");
    reveal_strlit("interactiveShell");
    reveal_strlit("loginShell");
    reveal_strlit("loginInteractiveShell");
    assert("none"@.len() == 4 && "interactiveShell"@.len() == 16 && "loginShell"@.len() == 10);
    assert("loginInteractiveShell"@.len() == 21);
}

/// Everything in a snippet is what the object says under its own name. A property that the object does not
/// have contributes nothing.
pub proof fn law_a_snippet_says_what_it_spells(o: Seq<(Seq<char>, JsonModel)>)
    ensures
        snippet_of(JsonModel::Object(o)) matches Some(s) ==> {
            &&& decode::spells_text(json::lookup(o, "id"@), s.id)
            &&& decode::spells_text(json::lookup(o, "entrypoint"@), s.entrypoint)
            &&& json::lookup(o, "mounts"@) is None ==> s.mounts.len() == 0
            &&& json::lookup(o, "mounts"@) matches Some(JsonModel::Array(a)) ==> s.mounts.len() == a.len() && forall|i: int|
                0 <= i < a.len() ==> mount::mount_of(a[i]) == Some(#[trigger] s.mounts[i])
            &&& decode::spells_flag(json::lookup(o, "init"@), s.init)
            &&& decode::spells_flag(json::lookup(o, "privileged"@), s.privileged)
            &&& decode::spells_texts(json::lookup(o, "capAdd"@), s.cap_add)
            &&& decode::spells_texts(json::lookup(o, "securityOpt"@), s.security_opt)
            &&& decode::spells_map(json::lookup(o, "containerEnv"@), s.container_env, |v: JsonModel| v.text())
            &&& decode::spells_map(
                json::lookup(o, "remoteEnv"@),
                s.remote_env,
                |v: JsonModel|
                    match v {
                        JsonModel::Str(s) => Some(Some(s)),
                        JsonModel::Null => Some(None),
                        _ => None,
                    },
            )
            &&& decode::spells_text(json::lookup(o, "containerUser"@), s.container_user)
            &&& decode::spells_text(json::lookup(o, "remoteUser"@), s.remote_user)
            &&& decode::spells_text(json::lookup(o, "userEnvProbe"@), s.user_env_probe)
            &&& decode::spells_flag(json::lookup(o, "overrideCommand"@), s.override_command)
            &&& decode::spells_text(json::lookup(o, "waitFor"@), s.wait_for)
            &&& lifecycle::spells_hook(json::lookup(o, "onCreateCommand"@), s.on_create_command)
            &&& lifecycle::spells_hook(json::lookup(o, "updateContentCommand"@), s.update_content_command)
            &&& lifecycle::spells_hook(json::lookup(o, "postCreateCommand"@), s.post_create_command)
            &&& lifecycle::spells_hook(json::lookup(o, "postStartCommand"@), s.post_start_command)
            &&& lifecycle::spells_hook(json::lookup(o, "postAttachCommand"@), s.post_attach_command)
            &&& decode::spells_values(json::lookup(o, "forwardPorts"@), s.forward_ports)
        },
{
    decode::law_what_is_read_is_what_is_there(json::lookup(o, "id"@));
    decode::law_what_is_read_is_what_is_there(json::lookup(o, "entrypoint"@));
    decode::law_what_is_read_is_what_is_there(json::lookup(o, "init"@));
    decode::law_what_is_read_is_what_is_there(json::lookup(o, "privileged"@));
    decode::law_what_is_read_is_what_is_there(json::lookup(o, "capAdd"@));
    decode::law_what_is_read_is_what_is_there(json::lookup(o, "securityOpt"@));
    decode::law_what_is_read_is_what_is_there(json::lookup(o, "containerEnv"@));
    decode::law_what_is_read_is_what_is_there(json::lookup(o, "remoteEnv"@));
    decode::law_what_is_read_is_what_is_there(json::lookup(o, "containerUser"@));
    decode::law_what_is_read_is_what_is_there(json::lookup(o, "remoteUser"@));
    decode::law_what_is_read_is_what_is_there(json::lookup(o, "userEnvProbe"@));
    decode::law_what_is_read_is_what_is_there(json::lookup(o, "overrideCommand"@));
    decode::law_what_is_read_is_what_is_there(json::lookup(o, "waitFor"@));
    lifecycle::law_a_hook_is_read_as_written(json::lookup(o, "onCreateCommand"@));
    lifecycle::law_a_hook_is_read_as_written(json::lookup(o, "updateContentCommand"@));
    lifecycle::law_a_hook_is_read_as_written(json::lookup(o, "postCreateCommand"@));
    lifecycle::law_a_hook_is_read_as_written(json::lookup(o, "postStartCommand"@));
    lifecycle::law_a_hook_is_read_as_written(json::lookup(o, "postAttachCommand"@));
    decode::law_what_is_read_is_what_is_there(json::lookup(o, "forwardPorts"@));
}

/// A label that lists snippets is read as all of them, in its order, and one that holds a single snippet as
/// that one. An empty label says nothing.
pub proof fn law_a_label_is_all_its_snippets(trimmed: Seq<char>, parsed: Result<JsonModel, Seq<char>>, k: int)
    ensures
        trimmed.len() == 0 ==> label_of(trimmed, parsed) == Ok::<Seq<SnippetModel>, AmErrorModel>(Seq::empty()),
        trimmed.len() > 0 && parsed is Err ==> label_of(trimmed, parsed) is Err,
        trimmed.len() > 0 ==> (parsed matches Ok(JsonModel::Object(o)) ==> (snippet_of(
            JsonModel::Object(o),
        ) matches Some(s) ==> label_of(trimmed, parsed) == Ok::<Seq<SnippetModel>, AmErrorModel>(seq![s]))),
        trimmed.len() > 0 ==> (parsed matches Ok(JsonModel::Array(a)) ==> (forall|i: int|
            0 <= i < a.len() ==> snippet_of(#[trigger] a[i]) is Some) ==> {
            &&& label_of(trimmed, parsed) is Ok
            &&& label_of(trimmed, parsed)->Ok_0.len() == a.len()
            &&& 0 <= k < a.len() ==> snippet_of(a[k]) == Some(label_of(trimmed, parsed)->Ok_0[k])
        }),
{
}

} // verus!
