//! What holds of every override document.

use vstd::prelude::*;

use super::{
    all_put, auth_texts, config_texts, env_members, environment_of, explicit_env, optional_member, other_members,
    other_ports, override_of, own_ports, own_texts, passthrough_members, service_members, service_user, sock_texts,
    user_member, volumes_of, with_service_port,
};
use crate::container::run::{self, laws as run_laws};
use crate::container::{
    self, AuthMountModel, DevcontainerRuntimeModel, HostModel, MountMode, MountsModel, RuntimeKind, RuntimeModel,
};
use crate::devcontainer::mount::NormalizedMountModel;
use crate::devcontainer::port::{self, ForwardedPortModel};
use crate::json::{self, JsonModel};
use crate::strmap;
use crate::text;

verus! {

// ----------------------------------------------------------------------------------------------
// Reading the document
// ----------------------------------------------------------------------------------------------

/// What a document says under a key of a service.
pub open spec fn said_of(doc: JsonModel, service: Seq<char>, key: Seq<char>) -> Option<JsonModel> {
    match doc.member("services"@) {
        Some(services) => match services.member(service) {
            Some(s) => s.member(key),
            None => None,
        },
        None => None,
    }
}

/// Whether a value is a list that has this text in it.
pub open spec fn lists(j: Option<JsonModel>, s: Seq<char>) -> bool {
    match j {
        Some(JsonModel::Array(a)) => a.contains(JsonModel::Str(s)),
        _ => false,
    }
}

proof fn lemma_lists(ts: Seq<Seq<char>>, s: Seq<char>)
    requires
        ts.contains(s),
    ensures
        lists(Some(json::texts_model(ts)), s),
{
    let k = choose|k: int| 0 <= k < ts.len() && ts[k] == s;
    let a = ts.map_values(|s: Seq<char>| JsonModel::Str(s));
    assert(a[k] == JsonModel::Str(s));
}

proof fn lemma_lookup_one(k: Seq<char>, v: JsonModel, q: Seq<char>)
    ensures
        json::lookup(seq![(k, v)], q) == (if q == k {
            Some(v)
        } else {
            None
        }),
{
    reveal_with_fuel(json::lookup, 2);
    assert(seq![(k, v)].drop_first() =~= Seq::<(Seq<char>, JsonModel)>::empty());
}

proof fn lemma_keys_differ()
    ensures
        "image"@ != "volumes"@,
        "image"@ != "environment"@,
        "image"@ != "user"@,
        "image"@ != "init"@,
        "image"@ != "privileged"@,
        "image"@ != "cap_add"@,
        "image"@ != "security_opt"@,
        "image"@ != "working_dir"@,
        "image"@ != "ports"@,
        "volumes"@ != "environment"@,
        "volumes"@ != "user"@,
        "volumes"@ != "init"@,
        "volumes"@ != "privileged"@,
        "volumes"@ != "cap_add"@,
        "volumes"@ != "security_opt"@,
        "volumes"@ != "working_dir"@,
        "volumes"@ != "ports"@,
        "environment"@ != "user"@,
        "environment"@ != "init"@,
        "environment"@ != "privileged"@,
        "environment"@ != "cap_add"@,
        "environment"@ != "security_opt"@,
        "environment"@ != "working_dir"@,
        "environment"@ != "ports"@,
        "user"@ != "init"@,
        "user"@ != "privileged"@,
        "user"@ != "cap_add"@,
        "user"@ != "security_opt"@,
        "user"@ != "working_dir"@,
        "user"@ != "ports"@,
        "init"@ != "privileged"@,
        "init"@ != "cap_add"@,
        "init"@ != "security_opt"@,
        "init"@ != "working_dir"@,
        "init"@ != "ports"@,
        "privileged"@ != "cap_add"@,
        "privileged"@ != "security_opt"@,
        "privileged"@ != "working_dir"@,
        "privileged"@ != "ports"@,
        "cap_add"@ != "security_opt"@,
        "cap_add"@ != "working_dir"@,
        "cap_add"@ != "ports"@,
        "security_opt"@ != "working_dir"@,
        "security_opt"@ != "ports"@,
        "working_dir"@ != "ports"@,
{
    reveal_strlit("image");
    reveal_strlit("volumes");
    reveal_strlit("environment");
    reveal_strlit("user");
    reveal_strlit("init");
    reveal_strlit("privileged");
    reveal_strlit("cap_add");
    reveal_strlit("security_opt");
    reveal_strlit("working_dir");
    reveal_strlit("ports");
    assert("image"@[0] == 'i' && "image"@.len() == 5);
    assert("volumes"@[0] == 'v' && "volumes"@.len() == 7);
    assert("environment"@[0] == 'e' && "environment"@.len() == 11);
    assert("user"@[0] == 'u' && "user"@.len() == 4);
    assert("init"@[0] == 'i' && "init"@.len() == 4);
    assert("privileged"@[0] == 'p' && "privileged"@.len() == 10);
    assert("cap_add"@[0] == 'c' && "cap_add"@.len() == 7);
    assert("security_opt"@[0] == 's' && "security_opt"@.len() == 12);
    assert("working_dir"@[0] == 'w' && "working_dir"@.len() == 11);
    assert("ports"@[0] == 'p' && "ports"@.len() == 5);
}

proof fn lemma_found(
    runtime: RuntimeModel,
    image: Seq<char>,
    m: MountsModel,
    env_passthrough: Seq<Seq<char>>,
    extra_env: Seq<(Seq<char>, Seq<char>)>,
    dc: DevcontainerRuntimeModel,
    host: HostModel,
    q: Seq<char>,
)
    ensures
        json::lookup(service_members(runtime, image, m, env_passthrough, extra_env, dc, host), q) == (if q == "image"@ {
            Some(JsonModel::Str(image))
        } else if q == "volumes"@ {
            Some(json::texts_model(volumes_of(m, dc, host, container::selinux(runtime.kind, host.linux))))
        } else if q == "environment"@ {
            Some(environment_of(env_passthrough, explicit_env(m, extra_env, dc, host)))
        } else if q == "user"@ && service_user(dc, host) is Some {
            Some(JsonModel::Str(service_user(dc, host)->0))
        } else if q == "init"@ && dc.init {
            Some(JsonModel::Bool(true))
        } else if q == "privileged"@ && dc.privileged {
            Some(JsonModel::Bool(true))
        } else if q == "cap_add"@ && dc.cap_add.len() > 0 {
            Some(json::texts_model(dc.cap_add))
        } else if q == "security_opt"@ && dc.security_opt.len() > 0 {
            Some(json::texts_model(dc.security_opt))
        } else if q == "working_dir"@ {
            Some(
                JsonModel::Str(
                    match dc.workdir {
                        Some(dir) => dir,
                        None => m.worktree_host,
                    },
                ),
            )
        } else if q == "ports"@ && own_ports(dc.ports).len() > 0 {
            Some(json::texts_model(own_ports(dc.ports)))
        } else {
            None
        }),
{
    lemma_keys_differ();
    let dir = JsonModel::Str(
        match dc.workdir {
            Some(dir) => dir,
            None => m.worktree_host,
        },
    );
    let ports = own_ports(dc.ports);
    let v = json::texts_model(volumes_of(m, dc, host, container::selinux(runtime.kind, host.linux)));
    let e = environment_of(env_passthrough, explicit_env(m, extra_env, dc, host));
    let p0 = seq![("image"@, JsonModel::Str(image)), ("volumes"@, v), ("environment"@, e)];
    let p1 = user_member(service_user(dc, host));
    let p2 = optional_member(dc.init, "init"@, JsonModel::Bool(true));
    let p3 = optional_member(dc.privileged, "privileged"@, JsonModel::Bool(true));
    let p4 = optional_member(dc.cap_add.len() > 0, "cap_add"@, json::texts_model(dc.cap_add));
    let p5 = optional_member(dc.security_opt.len() > 0, "security_opt"@, json::texts_model(dc.security_opt));
    let p6 = seq![("working_dir"@, dir)];
    let p7 = optional_member(ports.len() > 0, "ports"@, json::texts_model(ports));
    json::lemma_lookup_in_either(p0 + p1 + p2 + p3 + p4 + p5 + p6, p7, q);
    json::lemma_lookup_in_either(p0 + p1 + p2 + p3 + p4 + p5, p6, q);
    json::lemma_lookup_in_either(p0 + p1 + p2 + p3 + p4, p5, q);
    json::lemma_lookup_in_either(p0 + p1 + p2 + p3, p4, q);
    json::lemma_lookup_in_either(p0 + p1 + p2, p3, q);
    json::lemma_lookup_in_either(p0 + p1, p2, q);
    json::lemma_lookup_in_either(p0, p1, q);
    let a = seq![("image"@, JsonModel::Str(image))];
    let b = seq![("volumes"@, v)];
    let c = seq![("environment"@, e)];
    assert(p0 =~= a + b + c);
    json::lemma_lookup_in_either(a + b, c, q);
    json::lemma_lookup_in_either(a, b, q);
    lemma_lookup_one("image"@, JsonModel::Str(image), q);
    lemma_lookup_one("volumes"@, v, q);
    lemma_lookup_one("environment"@, e, q);
    match service_user(dc, host) {
        Some(u) => {
            lemma_lookup_one("user"@, JsonModel::Str(u), q);
        },
        None => {},
    }
    lemma_lookup_one("init"@, JsonModel::Bool(true), q);
    lemma_lookup_one("privileged"@, JsonModel::Bool(true), q);
    lemma_lookup_one("cap_add"@, json::texts_model(dc.cap_add), q);
    lemma_lookup_one("security_opt"@, json::texts_model(dc.security_opt), q);
    lemma_lookup_one("working_dir"@, dir, q);
    lemma_lookup_one("ports"@, json::texts_model(ports), q);
}

proof fn lemma_said(
    runtime: RuntimeModel,
    service: Seq<char>,
    image: Seq<char>,
    m: MountsModel,
    env_passthrough: Seq<Seq<char>>,
    extra_env: Seq<(Seq<char>, Seq<char>)>,
    dc: DevcontainerRuntimeModel,
    host: HostModel,
    q: Seq<char>,
)
    ensures
        said_of(override_of(runtime, service, image, m, env_passthrough, extra_env, dc, host), service, q) == json::lookup(
            service_members(runtime, image, m, env_passthrough, extra_env, dc, host),
            q,
        ),
{
    let members = JsonModel::Object(service_members(runtime, image, m, env_passthrough, extra_env, dc, host));
    let services = JsonModel::Object(json::put(other_members(dc.ports), service, members));
    lemma_lookup_one("services"@, services, "services"@);
    json::lemma_lookup_after_put(other_members(dc.ports), service, members, service);
}

/// The agent's service runs the image that was built, in the directory the config names or else in the
/// worktree, as the user the config names or else under the host's numbers.
pub proof fn law_the_agents_service_is_described(
    runtime: RuntimeModel,
    service: Seq<char>,
    image: Seq<char>,
    m: MountsModel,
    env_passthrough: Seq<Seq<char>>,
    extra_env: Seq<(Seq<char>, Seq<char>)>,
    dc: DevcontainerRuntimeModel,
    host: HostModel,
)
    ensures
        ({
            let doc = override_of(runtime, service, image, m, env_passthrough, extra_env, dc, host);
            &&& said_of(doc, service, "image"@) == Some(JsonModel::Str(image))
            &&& dc.workdir matches Some(dir) ==> said_of(doc, service, "working_dir"@) == Some(JsonModel::Str(dir))
            &&& dc.workdir is None ==> said_of(doc, service, "working_dir"@) == Some(JsonModel::Str(m.worktree_host))
            &&& dc.user matches Some(u) ==> said_of(doc, service, "user"@) == Some(JsonModel::Str(u))
            &&& dc.user is None ==> (host.uid_gid matches Some(id) ==> said_of(doc, service, "user"@) == Some(
                JsonModel::Str(text::decimal(id.0 as nat) + ":"@ + text::decimal(id.1 as nat)),
            ))
            &&& dc.user is None && host.uid_gid is None ==> said_of(doc, service, "user"@) is None
        }),
{
    lemma_keys_differ();
    lemma_said(runtime, service, image, m, env_passthrough, extra_env, dc, host, "image"@);
    lemma_found(runtime, image, m, env_passthrough, extra_env, dc, host, "image"@);
    lemma_said(runtime, service, image, m, env_passthrough, extra_env, dc, host, "working_dir"@);
    lemma_found(runtime, image, m, env_passthrough, extra_env, dc, host, "working_dir"@);
    lemma_said(runtime, service, image, m, env_passthrough, extra_env, dc, host, "user"@);
    lemma_found(runtime, image, m, env_passthrough, extra_env, dc, host, "user"@);
}

/// What was granted is asked of the service, and nothing that was not. Its command and its entrypoint
/// are left alone.
pub proof fn law_what_is_granted_is_said(
    runtime: RuntimeModel,
    service: Seq<char>,
    image: Seq<char>,
    m: MountsModel,
    env_passthrough: Seq<Seq<char>>,
    extra_env: Seq<(Seq<char>, Seq<char>)>,
    dc: DevcontainerRuntimeModel,
    host: HostModel,
)
    ensures
        ({
            let doc = override_of(runtime, service, image, m, env_passthrough, extra_env, dc, host);
            &&& said_of(doc, service, "init"@) == (if dc.init {
                Some(JsonModel::Bool(true))
            } else {
                None
            })
            &&& said_of(doc, service, "privileged"@) == (if dc.privileged {
                Some(JsonModel::Bool(true))
            } else {
                None
            })
            &&& said_of(doc, service, "cap_add"@) is Some <==> dc.cap_add.len() > 0
            &&& forall|k: int|
                0 <= k < dc.cap_add.len() ==> lists(said_of(doc, service, "cap_add"@), #[trigger] dc.cap_add[k])
            &&& said_of(doc, service, "security_opt"@) is Some <==> dc.security_opt.len() > 0
            &&& forall|k: int|
                0 <= k < dc.security_opt.len() ==> lists(
                    said_of(doc, service, "security_opt"@),
                    #[trigger] dc.security_opt[k],
                )
            &&& said_of(doc, service, "command"@) is None
            &&& said_of(doc, service, "entrypoint"@) is None
        }),
{
    lemma_keys_differ();
    lemma_said(runtime, service, image, m, env_passthrough, extra_env, dc, host, "init"@);
    lemma_found(runtime, image, m, env_passthrough, extra_env, dc, host, "init"@);
    lemma_said(runtime, service, image, m, env_passthrough, extra_env, dc, host, "privileged"@);
    lemma_found(runtime, image, m, env_passthrough, extra_env, dc, host, "privileged"@);
    lemma_said(runtime, service, image, m, env_passthrough, extra_env, dc, host, "cap_add"@);
    lemma_found(runtime, image, m, env_passthrough, extra_env, dc, host, "cap_add"@);
    lemma_said(runtime, service, image, m, env_passthrough, extra_env, dc, host, "security_opt"@);
    lemma_found(runtime, image, m, env_passthrough, extra_env, dc, host, "security_opt"@);
    lemma_said(runtime, service, image, m, env_passthrough, extra_env, dc, host, "command"@);
    lemma_found(runtime, image, m, env_passthrough, extra_env, dc, host, "command"@);
    lemma_said(runtime, service, image, m, env_passthrough, extra_env, dc, host, "entrypoint"@);
    lemma_found(runtime, image, m, env_passthrough, extra_env, dc, host, "entrypoint"@);
    reveal_strlit("command");
    reveal_strlit("entrypoint");
    reveal_strlit("image");
    reveal_strlit("volumes");
    reveal_strlit("environment");
    reveal_strlit("user");
    reveal_strlit("init");
    reveal_strlit("privileged");
    reveal_strlit("cap_add");
    reveal_strlit("security_opt");
    reveal_strlit("working_dir");
    reveal_strlit("ports");
    assert("command"@.len() == 7 && "command"@[1] == 'o' && "command"@[2] == 'm');
    assert("volumes"@[2] == 'l' && "cap_add"@[2] == 'p');
    assert("entrypoint"@.len() == 10 && "entrypoint"@[0] == 'e' && "privileged"@[0] == 'p');
    assert forall|k: int| 0 <= k < dc.cap_add.len() implies lists(
        Some(json::texts_model(dc.cap_add)),
        #[trigger] dc.cap_add[k],
    ) by {
        lemma_lists(dc.cap_add, dc.cap_add[k]);
    }
    assert forall|k: int| 0 <= k < dc.security_opt.len() implies lists(
        Some(json::texts_model(dc.security_opt)),
        #[trigger] dc.security_opt[k],
    ) by {
        lemma_lists(dc.security_opt, dc.security_opt[k]);
    }
}

/// A compose session mounts what a plain one does: its worktree and its repository at their own paths,
/// both writable, the user's files read-only where they exist, the agent's socket and credentials, and
/// what the config mounts.
pub proof fn law_a_compose_session_mounts_its_work(
    runtime: RuntimeModel,
    service: Seq<char>,
    image: Seq<char>,
    m: MountsModel,
    env_passthrough: Seq<Seq<char>>,
    extra_env: Seq<(Seq<char>, Seq<char>)>,
    dc: DevcontainerRuntimeModel,
    host: HostModel,
)
    ensures
        ({
            let doc = override_of(runtime, service, image, m, env_passthrough, extra_env, dc, host);
            let volumes = said_of(doc, service, "volumes"@);
            let labels = runtime.kind == RuntimeKind::Podman && host.linux;
            let z = run_laws::label(runtime, host);
            &&& lists(volumes, m.worktree_host + ":"@ + m.worktree_host + ":rw"@ + z)
            &&& lists(volumes, m.vcs_host + ":"@ + m.vcs_host + ":rw"@ + z)
            &&& m.colocated_git_host matches Some(git) ==> lists(volumes, git + ":"@ + git + ":rw"@ + z)
            &&& host.existing.contains(m.gitconfig_host) ==> lists(
                volumes,
                m.gitconfig_host + ":"@ + m.container_home + "/.gitconfig:ro"@ + z,
            )
            &&& host.existing.contains(m.ssh_host) ==> lists(
                volumes,
                m.ssh_host + ":"@ + m.container_home + "/.ssh:ro"@ + z,
            )
            &&& m.ssh_agent_sock matches Some(sock) ==> host.existing.contains(sock) ==> lists(
                volumes,
                sock + ":"@ + sock + ":rw"@,
            )
            &&& forall|k: int|
                0 <= k < m.agent_auth.len() && host.existing.contains((#[trigger] m.agent_auth[k]).host_path)
                    ==> lists(
                    volumes,
                    run_laws::written_mount(
                        m.agent_auth[k].host_path,
                        m.agent_auth[k].container_path,
                        m.agent_auth[k].mode == MountMode::ReadOnly,
                        labels,
                    ),
                )
            &&& forall|k: int|
                0 <= k < dc.mounts.len() && (#[trigger] dc.mounts[k]).source is Some ==> lists(
                    volumes,
                    run_laws::written_mount(
                        dc.mounts[k].source->0,
                        dc.mounts[k].target,
                        dc.mounts[k].read_only,
                        labels && dc.mounts[k].kind == "bind"@,
                    ),
                )
        }),
{
    lemma_keys_differ();
    lemma_said(runtime, service, image, m, env_passthrough, extra_env, dc, host, "volumes"@);
    lemma_found(runtime, image, m, env_passthrough, extra_env, dc, host, "volumes"@);
    let labels = container::selinux(runtime.kind, host.linux);
    let vs = volumes_of(m, dc, host, labels);
    lemma_own_texts(m, host, labels);
    lemma_sock_texts(m, host);
    lemma_auth_texts(m.agent_auth, host, labels);
    lemma_config_texts(dc.mounts, labels);
    lemma_among_volumes(m, dc, host, labels);
}

proof fn lemma_among_volumes(m: MountsModel, dc: DevcontainerRuntimeModel, host: HostModel, labels: bool)
    ensures
        ({
            let vs = Some(json::texts_model(volumes_of(m, dc, host, labels)));
            &&& forall|s: Seq<char>| #[trigger] own_texts(m, host, labels).contains(s) ==> lists(vs, s)
            &&& forall|s: Seq<char>| #[trigger] sock_texts(m, host).contains(s) ==> lists(vs, s)
            &&& forall|s: Seq<char>| #[trigger] auth_texts(m.agent_auth, host, labels).contains(s) ==> lists(vs, s)
            &&& forall|s: Seq<char>| #[trigger] config_texts(dc.mounts, labels).contains(s) ==> lists(vs, s)
        }),
{
    let a = own_texts(m, host, labels);
    let b = sock_texts(m, host);
    let c = auth_texts(m.agent_auth, host, labels);
    let d = config_texts(dc.mounts, labels);
    let all = volumes_of(m, dc, host, labels);
    assert(all == a + b + c + d);
    assert forall|s: Seq<char>| #[trigger] a.contains(s) implies lists(Some(json::texts_model(all)), s) by {
        let k = choose|k: int| 0 <= k < a.len() && a[k] == s;
        assert(all[k] == s);
        lemma_lists(all, s);
    }
    assert forall|s: Seq<char>| #[trigger] b.contains(s) implies lists(Some(json::texts_model(all)), s) by {
        let k = choose|k: int| 0 <= k < b.len() && b[k] == s;
        assert(all[a.len() + k] == s);
        lemma_lists(all, s);
    }
    assert forall|s: Seq<char>| #[trigger] c.contains(s) implies lists(Some(json::texts_model(all)), s) by {
        let k = choose|k: int| 0 <= k < c.len() && c[k] == s;
        assert(all[a.len() + b.len() + k] == s);
        lemma_lists(all, s);
    }
    assert forall|s: Seq<char>| #[trigger] d.contains(s) implies lists(Some(json::texts_model(all)), s) by {
        let k = choose|k: int| 0 <= k < d.len() && d[k] == s;
        assert(all[a.len() + b.len() + c.len() + k] == s);
        lemma_lists(all, s);
    }
}

proof fn lemma_own_texts(m: MountsModel, host: HostModel, labels: bool)
    ensures
        ({
            let own = own_texts(m, host, labels);
            let z = if labels {
                ",z"@
            } else {
                ""@
            };
            &&& own.contains(m.worktree_host + ":"@ + m.worktree_host + ":rw"@ + z)
            &&& own.contains(m.vcs_host + ":"@ + m.vcs_host + ":rw"@ + z)
            &&& m.colocated_git_host matches Some(git) ==> own.contains(git + ":"@ + git + ":rw"@ + z)
            &&& host.existing.contains(m.gitconfig_host) ==> own.contains(
                m.gitconfig_host + ":"@ + m.container_home + "/.gitconfig:ro"@ + z,
            )
            &&& host.existing.contains(m.ssh_host) ==> own.contains(
                m.ssh_host + ":"@ + m.container_home + "/.ssh:ro"@ + z,
            )
        }),
{
    let own = own_texts(m, host, labels);
    let n = own.len() as int;
    let z = if labels {
        ",z"@
    } else {
        ""@
    };
    run_laws::lemma_mode_text(m.worktree_host, m.worktree_host, labels);
    run_laws::lemma_mode_text(m.vcs_host, m.vcs_host, labels);
    assert(own[0] == m.worktree_host + ":"@ + m.worktree_host + ":rw"@ + z);
    assert(own[1] == m.vcs_host + ":"@ + m.vcs_host + ":rw"@ + z);
    match m.colocated_git_host {
        Some(git) => {
            run_laws::lemma_mode_text(git, git, labels);
            assert(own[2] == git + ":"@ + git + ":rw"@ + z);
        },
        None => {},
    }
    let s = if host.existing.contains(m.ssh_host) {
        1int
    } else {
        0int
    };
    if host.existing.contains(m.gitconfig_host) {
        let target = m.container_home + "/.gitconfig"@;
        run_laws::lemma_mode_text(m.gitconfig_host, target, labels);
        reveal_strlit("/.gitconfig");
        reveal_strlit(":ro");
        reveal_strlit("/.gitconfig:ro");
        assert("/.gitconfig:ro"@ =~= "/.gitconfig"@ + ":ro"@);
        let g = m.gitconfig_host + ":"@ + m.container_home + "/.gitconfig:ro"@ + z;
        assert(g =~= m.gitconfig_host + ":"@ + target + ":ro"@ + z);
        assert(own[n - s - 1] == g);
    }
    if host.existing.contains(m.ssh_host) {
        let target = m.container_home + "/.ssh"@;
        run_laws::lemma_mode_text(m.ssh_host, target, labels);
        reveal_strlit("/.ssh");
        reveal_strlit(":ro");
        reveal_strlit("/.ssh:ro");
        assert("/.ssh:ro"@ =~= "/.ssh"@ + ":ro"@);
        let g = m.ssh_host + ":"@ + m.container_home + "/.ssh:ro"@ + z;
        assert(g =~= m.ssh_host + ":"@ + target + ":ro"@ + z);
        assert(own[n - 1] == g);
    }
}

proof fn lemma_sock_texts(m: MountsModel, host: HostModel)
    ensures
        m.ssh_agent_sock matches Some(sock) ==> host.existing.contains(sock) ==> sock_texts(m, host).contains(
            sock + ":"@ + sock + ":rw"@,
        ),
{
    match m.ssh_agent_sock {
        Some(sock) => {
            if host.existing.contains(sock) {
                run_laws::lemma_mode_text(sock, sock, false);
                reveal_strlit("");
                assert(sock + ":"@ + sock + ":rw"@ + ""@ =~= sock + ":"@ + sock + ":rw"@);
                assert(sock_texts(m, host)[0] == sock + ":"@ + sock + ":rw"@);
            }
        },
        None => {},
    }
}

proof fn lemma_auth_texts(auth: Seq<AuthMountModel>, host: HostModel, labels: bool)
    ensures
        forall|k: int|
            0 <= k < auth.len() && host.existing.contains((#[trigger] auth[k]).host_path) ==> auth_texts(
                auth,
                host,
                labels,
            ).contains(
                run_laws::written_mount(
                    auth[k].host_path,
                    auth[k].container_path,
                    auth[k].mode == MountMode::ReadOnly,
                    labels,
                ),
            ),
    decreases auth.len(),
{
    if auth.len() > 0 {
        let front = auth.drop_last();
        let rest = auth_texts(front, host, labels);
        let all = auth_texts(auth, host, labels);
        lemma_auth_texts(front, host, labels);
        assert forall|k: int|
            0 <= k < auth.len() && host.existing.contains((#[trigger] auth[k]).host_path) implies all.contains(
            run_laws::written_mount(
                auth[k].host_path,
                auth[k].container_path,
                auth[k].mode == MountMode::ReadOnly,
                labels,
            ),
        ) by {
            let a = auth[k];
            let w = run_laws::written_mount(a.host_path, a.container_path, a.mode == MountMode::ReadOnly, labels);
            run_laws::lemma_mode_text(a.host_path, a.container_path, labels);
            if k < front.len() {
                assert(front[k] == a);
                let j = choose|j: int| 0 <= j < rest.len() && rest[j] == w;
                assert(all[j] == w);
            } else {
                assert(all[rest.len() as int] == w);
            }
        }
    }
}

proof fn lemma_config_texts(ms: Seq<NormalizedMountModel>, labels: bool)
    ensures
        forall|k: int|
            0 <= k < ms.len() && (#[trigger] ms[k]).source is Some ==> config_texts(ms, labels).contains(
                run_laws::written_mount(
                    ms[k].source->0,
                    ms[k].target,
                    ms[k].read_only,
                    labels && ms[k].kind == "bind"@,
                ),
            ),
    decreases ms.len(),
{
    if ms.len() > 0 {
        let front = ms.drop_last();
        let rest = config_texts(front, labels);
        let all = config_texts(ms, labels);
        lemma_config_texts(front, labels);
        assert forall|k: int| 0 <= k < ms.len() && (#[trigger] ms[k]).source is Some implies all.contains(
            run_laws::written_mount(
                ms[k].source->0,
                ms[k].target,
                ms[k].read_only,
                labels && ms[k].kind == "bind"@,
            ),
        ) by {
            let c = ms[k];
            let l = labels && c.kind == "bind"@;
            let w = run_laws::written_mount(c.source->0, c.target, c.read_only, l);
            run_laws::lemma_mode_text(c.source->0, c.target, l);
            if k < front.len() {
                assert(front[k] == c);
                let j = choose|j: int| 0 <= j < rest.len() && rest[j] == w;
                assert(all[j] == w);
            } else {
                assert(all[rest.len() as int] == w);
            }
        }
    }
}

// ----------------------------------------------------------------------------------------------
// The environment
// ----------------------------------------------------------------------------------------------

/// Whether entry `k` is the last to name `q`.
pub open spec fn last_to_name(env: Seq<(Seq<char>, Seq<char>)>, k: int, q: Seq<char>) -> bool {
    &&& 0 <= k < env.len()
    &&& env[k].0 == q
    &&& forall|j: int| k < j < env.len() ==> (#[trigger] env[j]).0 != q
}

/// Whether no entry names `q`.
pub open spec fn unnamed(env: Seq<(Seq<char>, Seq<char>)>, q: Seq<char>) -> bool {
    forall|j: int| 0 <= j < env.len() ==> (#[trigger] env[j]).0 != q
}

/// The value of a variable in the environment of a service.
pub open spec fn variable_in(doc: JsonModel, service: Seq<char>, q: Seq<char>) -> Option<JsonModel> {
    match said_of(doc, service, "environment"@) {
        Some(env) => env.member(q),
        None => None,
    }
}

/// Every variable of the host's identity, of what the session adds and of what the config sets is in the
/// environment of the agent's service, with the value of the last of these to name it. What is set this
/// way overrides what is only passed through.
pub proof fn law_the_last_source_sets_a_variable(
    runtime: RuntimeModel,
    service: Seq<char>,
    image: Seq<char>,
    m: MountsModel,
    env_passthrough: Seq<Seq<char>>,
    extra_env: Seq<(Seq<char>, Seq<char>)>,
    dc: DevcontainerRuntimeModel,
    host: HostModel,
    k: int,
    q: Seq<char>,
)
    requires
        last_to_name(host.identity + extra_env + dc.env, k, q),
    ensures
        variable_in(override_of(runtime, service, image, m, env_passthrough, extra_env, dc, host), service, q) == Some(
            JsonModel::Str((host.identity + extra_env + dc.env)[k].1),
        ),
{
    lemma_keys_differ();
    lemma_said(runtime, service, image, m, env_passthrough, extra_env, dc, host, "environment"@);
    lemma_found(runtime, image, m, env_passthrough, extra_env, dc, host, "environment"@);
    lemma_explicit(m, extra_env, dc, host, q);
    let all = host.identity + extra_env + dc.env;
    lemma_last_to_name(all, k, q);
    lemma_environment(env_passthrough, explicit_env(m, extra_env, dc, host), q);
}

/// A variable that none of these sets is the agent's socket, where one is forwarded. Otherwise it is what
/// the last entry to pass it through says: the value written there, or the host's own.
pub proof fn law_other_variables_are_passed_through(
    runtime: RuntimeModel,
    service: Seq<char>,
    image: Seq<char>,
    m: MountsModel,
    env_passthrough: Seq<Seq<char>>,
    extra_env: Seq<(Seq<char>, Seq<char>)>,
    dc: DevcontainerRuntimeModel,
    host: HostModel,
    k: int,
    q: Seq<char>,
)
    requires
        unnamed(host.identity + extra_env + dc.env, q),
    ensures
        ({
            let doc = override_of(runtime, service, image, m, env_passthrough, extra_env, dc, host);
            let sock = m.ssh_agent_sock is Some && host.existing.contains(m.ssh_agent_sock->0);
            let through = |j: int| crate::config::load::entry_name(env_passthrough[j]) == q;
            let last = 0 <= k < env_passthrough.len() && through(k) && forall|j: int|
                k < j < env_passthrough.len() ==> !#[trigger] through(j);
            &&& q == "SSH_AUTH_SOCK"@ && sock ==> variable_in(doc, service, q) == Some(
                JsonModel::Str(m.ssh_agent_sock->0),
            )
            &&& !(q == "SSH_AUTH_SOCK"@ && sock) && last && env_passthrough[k] == q ==> variable_in(doc, service, q)
                == Some(JsonModel::Null)
            &&& !(q == "SSH_AUTH_SOCK"@ && sock) && last && env_passthrough[k] != q ==> variable_in(doc, service, q)
                == Some(JsonModel::Str(env_passthrough[k].subrange(q.len() as int + 1, env_passthrough[k].len() as int)))
            &&& !(q == "SSH_AUTH_SOCK"@ && sock) && (forall|j: int|
                0 <= j < env_passthrough.len() ==> !#[trigger] through(j)) ==> variable_in(doc, service, q) is None
        }),
{
    lemma_keys_differ();
    lemma_said(runtime, service, image, m, env_passthrough, extra_env, dc, host, "environment"@);
    lemma_found(runtime, image, m, env_passthrough, extra_env, dc, host, "environment"@);
    lemma_explicit(m, extra_env, dc, host, q);
    lemma_unnamed(host.identity + extra_env + dc.env, q);
    lemma_environment(env_passthrough, explicit_env(m, extra_env, dc, host), q);
    lemma_passed_through(env_passthrough, k, q);
    let through = |j: int| crate::config::load::entry_name(env_passthrough[j]) == q;
    if 0 <= k < env_passthrough.len() && through(k) && (forall|j: int|
        k < j < env_passthrough.len() ==> !#[trigger] through(j)) {
        assert forall|j: int| k < j < env_passthrough.len() implies crate::config::load::entry_name(
            #[trigger] env_passthrough[j],
        ) != q by {
            assert(!through(j));
        }
    }
    if forall|j: int| 0 <= j < env_passthrough.len() ==> !#[trigger] through(j) {
        assert forall|j: int| 0 <= j < env_passthrough.len() implies crate::config::load::entry_name(
            #[trigger] env_passthrough[j],
        ) != q by {
            assert(!through(j));
        }
    }
}

/// The last value given to a name.
spec fn last_value(env: Seq<(Seq<char>, Seq<char>)>, q: Seq<char>) -> Option<Seq<char>>
    decreases env.len(),
{
    if env.len() == 0 {
        None
    } else if env.last().0 == q {
        Some(env.last().1)
    } else {
        last_value(env.drop_last(), q)
    }
}

proof fn lemma_last_to_name(env: Seq<(Seq<char>, Seq<char>)>, k: int, q: Seq<char>)
    requires
        last_to_name(env, k, q),
    ensures
        last_value(env, q) == Some(env[k].1),
    decreases env.len(),
{
    if k < env.len() - 1 {
        let front = env.drop_last();
        assert(env[env.len() - 1].0 != q);
        assert forall|j: int| k < j < front.len() implies (#[trigger] front[j]).0 != q by {
            assert(front[j] == env[j]);
        }
        lemma_last_to_name(front, k, q);
    }
}

proof fn lemma_unnamed(env: Seq<(Seq<char>, Seq<char>)>, q: Seq<char>)
    requires
        unnamed(env, q),
    ensures
        last_value(env, q) is None,
    decreases env.len(),
{
    if env.len() > 0 {
        let front = env.drop_last();
        assert(env[env.len() - 1].0 != q);
        assert forall|j: int| 0 <= j < front.len() implies (#[trigger] front[j]).0 != q by {
            assert(front[j] == env[j]);
        }
        lemma_unnamed(front, q);
    }
}

proof fn lemma_last_of_either(a: Seq<(Seq<char>, Seq<char>)>, b: Seq<(Seq<char>, Seq<char>)>, q: Seq<char>)
    ensures
        last_value(a + b, q) == (match last_value(b, q) {
            Some(v) => Some(v),
            None => last_value(a, q),
        }),
    decreases b.len(),
{
    if b.len() == 0 {
        assert(a + b =~= a);
    } else {
        assert((a + b).drop_last() =~= a + b.drop_last());
        lemma_last_of_either(a, b.drop_last(), q);
    }
}

proof fn lemma_extended(base: Seq<(Seq<char>, Seq<char>)>, more: Seq<(Seq<char>, Seq<char>)>, q: Seq<char>)
    requires
        strmap::sorted(base),
    ensures
        strmap::sorted(strmap::extended(base, more)),
        strmap::get(strmap::extended(base, more), q) == (match last_value(more, q) {
            Some(v) => Some(v),
            None => strmap::get(base, q),
        }),
    decreases more.len(),
{
    if more.len() > 0 {
        lemma_extended(base, more.drop_last(), q);
        let b = strmap::extended(base, more.drop_last());
        strmap::lemma_insert_sorted(b, more.last().0, more.last().1);
        strmap::lemma_get_after_insert(b, more.last().0, more.last().1, q);
    }
}

proof fn lemma_explicit(
    m: MountsModel,
    extra_env: Seq<(Seq<char>, Seq<char>)>,
    dc: DevcontainerRuntimeModel,
    host: HostModel,
    q: Seq<char>,
)
    ensures
        strmap::sorted(explicit_env(m, extra_env, dc, host)),
        strmap::get(explicit_env(m, extra_env, dc, host), q) == (match last_value(
            host.identity + extra_env + dc.env,
            q,
        ) {
            Some(v) => Some(v),
            None => if q == "SSH_AUTH_SOCK"@ && m.ssh_agent_sock is Some && host.existing.contains(
                m.ssh_agent_sock->0,
            ) {
                Some(m.ssh_agent_sock->0)
            } else {
                None
            },
        }),
{
    let empty = Seq::<(Seq<char>, Seq<char>)>::empty();
    let sock = match run::forwarded_sock(m, host) {
        Some(sock) => strmap::insert(empty, "SSH_AUTH_SOCK"@, sock),
        None => empty,
    };
    match run::forwarded_sock(m, host) {
        Some(s) => {
            strmap::lemma_insert_sorted(empty, "SSH_AUTH_SOCK"@, s);
            strmap::lemma_get_after_insert(empty, "SSH_AUTH_SOCK"@, s, q);
        },
        None => {},
    }
    lemma_extended(sock, host.identity, q);
    lemma_extended(strmap::extended(sock, host.identity), extra_env, q);
    lemma_extended(strmap::extended(strmap::extended(sock, host.identity), extra_env), dc.env, q);
    lemma_last_of_either(host.identity, extra_env, q);
    lemma_last_of_either(host.identity + extra_env, dc.env, q);
}

/// What is found of a variable that is set.
spec fn as_text(v: Option<Seq<char>>) -> Option<JsonModel> {
    match v {
        Some(s) => Some(JsonModel::Str(s)),
        None => None,
    }
}

proof fn lemma_members(env: Seq<(Seq<char>, Seq<char>)>, q: Seq<char>)
    ensures
        json::lookup(env_members(env), q) == as_text(strmap::get(env, q)),
    decreases env.len(),
{
    if env.len() > 0 {
        assert(env_members(env)[0] == (env[0].0, JsonModel::Str(env[0].1)));
        assert(env_members(env).drop_first() =~= env_members(env.drop_first()));
        lemma_members(env.drop_first(), q);
    }
}

proof fn lemma_all_put(base: Seq<(Seq<char>, JsonModel)>, env: Seq<(Seq<char>, Seq<char>)>, q: Seq<char>)
    requires
        strmap::sorted(env),
    ensures
        json::lookup(all_put(base, env_members(env)), q) == (match strmap::get(env, q) {
            Some(v) => Some(JsonModel::Str(v)),
            None => json::lookup(base, q),
        }),
    decreases env.len(),
{
    if env.len() > 0 {
        let front = env.drop_last();
        let em = env_members(env);
        assert(em.drop_last() =~= env_members(front));
        assert(em.last() == (env.last().0, JsonModel::Str(env.last().1)));
        assert(strmap::sorted(front)) by {
            assert forall|i: int, j: int| #![trigger front[i], front[j]] 0 <= i < j < front.len() implies text::less(
                front[i].0,
                front[j].0,
            ) by {
                assert(front[i] == env[i] && front[j] == env[j]);
            }
        }
        lemma_all_put(base, front, q);
        json::lemma_lookup_after_put(all_put(base, env_members(front)), env.last().0, JsonModel::Str(env.last().1), q);
        strmap::lemma_get_of_last(env, q);
    }
}

proof fn lemma_environment(passthrough: Seq<Seq<char>>, explicit: Seq<(Seq<char>, Seq<char>)>, q: Seq<char>)
    requires
        strmap::sorted(explicit),
    ensures
        environment_of(passthrough, explicit).member(q) == (match strmap::get(explicit, q) {
            Some(v) => Some(JsonModel::Str(v)),
            None => json::lookup(passthrough_members(passthrough), q),
        }),
{
    if passthrough.len() == 0 {
        lemma_members(explicit, q);
    } else {
        lemma_all_put(passthrough_members(passthrough), explicit, q);
    }
}

proof fn lemma_passed_through(env: Seq<Seq<char>>, k: int, q: Seq<char>)
    ensures
        0 <= k < env.len() && crate::config::load::entry_name(env[k]) == q && (forall|j: int|
            k < j < env.len() ==> crate::config::load::entry_name(#[trigger] env[j]) != q) ==> json::lookup(
            passthrough_members(env),
            q,
        ) == Some(
            if env[k] == q {
                JsonModel::Null
            } else {
                JsonModel::Str(env[k].subrange(q.len() as int + 1, env[k].len() as int))
            },
        ),
        (forall|j: int| 0 <= j < env.len() ==> crate::config::load::entry_name(#[trigger] env[j]) != q) ==> json::lookup(
            passthrough_members(env),
            q,
        ) is None,
    decreases env.len(),
{
    if env.len() > 0 {
        let front = env.drop_last();
        let e = env.last();
        let rest = passthrough_members(front);
        lemma_passed_through(front, k, q);
        text::lemma_position(e, '=');
        let i = text::position(e, '=') as int;
        let (n, v) = if i < e.len() {
            (e.subrange(0, i), JsonModel::Str(e.subrange(i + 1, e.len() as int)))
        } else {
            (e, JsonModel::Null)
        };
        assert(e.subrange(0, e.len() as int) =~= e);
        assert(n == crate::config::load::entry_name(e));
        assert(passthrough_members(env) == json::put(rest, n, v));
        json::lemma_lookup_after_put(rest, n, v, q);
        assert(i < e.len() ==> e.subrange(0, i).len() != e.len());
        if 0 <= k < env.len() && crate::config::load::entry_name(env[k]) == q && (forall|j: int|
            k < j < env.len() ==> crate::config::load::entry_name(#[trigger] env[j]) != q) {
            if k < front.len() {
                assert(env[env.len() - 1] == e);
                assert(front[k] == env[k]);
                assert forall|j: int| k < j < front.len() implies crate::config::load::entry_name(
                    #[trigger] front[j],
                ) != q by {
                    assert(front[j] == env[j]);
                }
            }
        }
        if forall|j: int| 0 <= j < env.len() ==> crate::config::load::entry_name(#[trigger] env[j]) != q {
            assert(env[env.len() - 1] == e);
            assert forall|j: int| 0 <= j < front.len() implies crate::config::load::entry_name(
                #[trigger] front[j],
            ) != q by {
                assert(front[j] == env[j]);
            }
        }
    }
}

// ----------------------------------------------------------------------------------------------
// Ports
// ----------------------------------------------------------------------------------------------

/// What publishes a port: on the loopback address, under its own number.
pub open spec fn on_loopback(p: u16) -> Seq<char> {
    "127.0.0.1:"@ + text::decimal(p as nat) + ":"@ + text::decimal(p as nat)
}

/// The agent's service publishes its own ports and every complete publish specification. Each port that
/// names another service is published by that service.
pub proof fn law_each_service_publishes_its_ports(
    runtime: RuntimeModel,
    service: Seq<char>,
    image: Seq<char>,
    m: MountsModel,
    env_passthrough: Seq<Seq<char>>,
    extra_env: Seq<(Seq<char>, Seq<char>)>,
    dc: DevcontainerRuntimeModel,
    host: HostModel,
    k: int,
)
    requires
        0 <= k < dc.ports.len(),
    ensures
        ({
            let doc = override_of(runtime, service, image, m, env_passthrough, extra_env, dc, host);
            match dc.ports[k] {
                ForwardedPortModel::Own(p) => lists(said_of(doc, service, "ports"@), on_loopback(p)),
                ForwardedPortModel::Published(s) => lists(said_of(doc, service, "ports"@), s),
                ForwardedPortModel::Service { service: other, port } => other != service ==> lists(
                    said_of(doc, other, "ports"@),
                    on_loopback(port),
                ),
            }
        }),
{
    lemma_keys_differ();
    lemma_said(runtime, service, image, m, env_passthrough, extra_env, dc, host, "ports"@);
    lemma_found(runtime, image, m, env_passthrough, extra_env, dc, host, "ports"@);
    lemma_own_ports(dc.ports, k);
    match dc.ports[k] {
        ForwardedPortModel::Own(p) => {
            lemma_lists(own_ports(dc.ports), on_loopback(p));
        },
        ForwardedPortModel::Published(s) => {
            lemma_lists(own_ports(dc.ports), s);
        },
        ForwardedPortModel::Service { service: other, port } => {
            let members = JsonModel::Object(service_members(runtime, image, m, env_passthrough, extra_env, dc, host));
            let services = JsonModel::Object(json::put(other_members(dc.ports), service, members));
            lemma_lookup_one("services"@, services, "services"@);
            json::lemma_lookup_after_put(other_members(dc.ports), service, members, other);
            lemma_other_ports(dc.ports, k);
            let list = ports_of(other_ports(dc.ports), other)->0;
            lemma_other_members(other_ports(dc.ports), other);
            lemma_lookup_one("ports"@, json::texts_model(list), "ports"@);
            lemma_lists(list, on_loopback(port));
        },
    }
}

proof fn lemma_own_ports(ports: Seq<ForwardedPortModel>, k: int)
    requires
        0 <= k < ports.len(),
    ensures
        ports[k] matches ForwardedPortModel::Own(p) ==> own_ports(ports).contains(on_loopback(p)),
        ports[k] matches ForwardedPortModel::Published(s) ==> own_ports(ports).contains(s),
    decreases ports.len(),
{
    let front = ports.drop_last();
    let rest = own_ports(front);
    let all = own_ports(ports);
    match ports[k].spec_text() {
        Some(s) => {
            if k < front.len() {
                lemma_own_ports(front, k);
                let j = choose|j: int| 0 <= j < rest.len() && rest[j] == s;
                assert(all[j] == s);
            } else {
                assert(all[rest.len() as int] == s);
            }
        },
        None => {},
    }
}

/// The specifications listed under a service.
spec fn ports_of(o: Seq<(Seq<char>, Seq<Seq<char>>)>, service: Seq<char>) -> Option<Seq<Seq<char>>>
    decreases o.len(),
{
    if o.len() == 0 {
        None
    } else if o[0].0 == service {
        Some(o[0].1)
    } else {
        ports_of(o.drop_first(), service)
    }
}

proof fn lemma_with_service_port(
    o: Seq<(Seq<char>, Seq<Seq<char>>)>,
    service: Seq<char>,
    spec: Seq<char>,
    q: Seq<char>,
)
    ensures
        ports_of(with_service_port(o, service, spec), q) == (if q == service {
            match ports_of(o, q) {
                Some(l) => Some(l.push(spec)),
                None => Some(seq![spec]),
            }
        } else {
            ports_of(o, q)
        }),
    decreases o.len(),
{
    let w = with_service_port(o, service, spec);
    if o.len() == 0 {
        assert(w.drop_first() =~= Seq::<(Seq<char>, Seq<Seq<char>>)>::empty());
        assert(ports_of(w.drop_first(), q) is None);
    } else if o[0].0 == service {
        assert(w[0] == (service, o[0].1.push(spec)));
        assert(w.drop_first() =~= o.drop_first());
    } else {
        lemma_with_service_port(o.drop_first(), service, spec, q);
        assert(w[0] == o[0]);
        assert(w.drop_first() =~= with_service_port(o.drop_first(), service, spec));
    }
}

proof fn lemma_other_ports(ports: Seq<ForwardedPortModel>, k: int)
    requires
        0 <= k < ports.len(),
    ensures
        ports[k] matches ForwardedPortModel::Service { service, port } ==> ports_of(
            other_ports(ports),
            service,
        ) is Some && ports_of(other_ports(ports), service)->0.contains(on_loopback(port)),
    decreases ports.len(),
{
    let front = ports.drop_last();
    let rest = other_ports(front);
    match ports[k] {
        ForwardedPortModel::Service { service, port } => {
            match ports.last() {
                ForwardedPortModel::Service { service: last, port: p } => {
                    lemma_with_service_port(rest, last, port::published(p), service);
                    let now = ports_of(other_ports(ports), service)->0;
                    if k < front.len() {
                        lemma_other_ports(front, k);
                        let l = ports_of(rest, service)->0;
                        let j = choose|j: int| 0 <= j < l.len() && l[j] == on_loopback(port);
                        assert(now[j] == on_loopback(port));
                    } else {
                        assert(now[now.len() - 1] == on_loopback(port));
                    }
                },
                _ => {
                    lemma_other_ports(front, k);
                },
            }
        },
        _ => {},
    }
}

proof fn lemma_other_members(o: Seq<(Seq<char>, Seq<Seq<char>>)>, q: Seq<char>)
    ensures
        ({
            let ms = o.map_values(
                |e: (Seq<char>, Seq<Seq<char>>)| (e.0, JsonModel::Object(seq![("ports"@, json::texts_model(e.1))])),
            );
            json::lookup(ms, q) == (match ports_of(o, q) {
                Some(l) => Some(JsonModel::Object(seq![("ports"@, json::texts_model(l))])),
                None => None,
            })
        }),
    decreases o.len(),
{
    let f = |e: (Seq<char>, Seq<Seq<char>>)| (e.0, JsonModel::Object(seq![("ports"@, json::texts_model(e.1))]));
    if o.len() > 0 {
        assert(o.map_values(f)[0] == f(o[0]));
        assert(o.map_values(f).drop_first() =~= o.drop_first().map_values(f));
        lemma_other_members(o.drop_first(), q);
    }
}

// ----------------------------------------------------------------------------------------------
// Nothing else
// ----------------------------------------------------------------------------------------------

/// How many values a list has.
pub open spec fn listed(j: Option<JsonModel>) -> nat {
    match j {
        Some(JsonModel::Array(a)) => a.len(),
        _ => 0,
    }
}

proof fn lemma_auth_count(auth: Seq<AuthMountModel>, host: HostModel, labels: bool)
    ensures
        auth_texts(auth, host, labels).len() == auth.filter(
            |a: AuthMountModel| host.existing.contains(a.host_path),
        ).len(),
    decreases auth.len(),
{
    reveal(Seq::filter);
    if auth.len() > 0 {
        lemma_auth_count(auth.drop_last(), host, labels);
    }
}

proof fn lemma_config_count(ms: Seq<NormalizedMountModel>, labels: bool)
    ensures
        config_texts(ms, labels).len() == ms.filter(|m: NormalizedMountModel| m.source is Some).len(),
    decreases ms.len(),
{
    reveal(Seq::filter);
    if ms.len() > 0 {
        lemma_config_count(ms.drop_last(), labels);
    }
}

proof fn lemma_port_count(ports: Seq<ForwardedPortModel>)
    ensures
        own_ports(ports).len() == ports.filter(|p: ForwardedPortModel| !(p is Service)).len(),
    decreases ports.len(),
{
    reveal(Seq::filter);
    if ports.len() > 0 {
        lemma_port_count(ports.drop_last());
    }
}

/// A compose session mounts its work, the user's files and the credentials that exist, the agent's socket and
/// what the config mounts, and nothing else. It publishes no port that it was not asked to, and asks for no
/// capability and no option beyond those granted.
pub proof fn law_nothing_else_is_said(
    runtime: RuntimeModel,
    service: Seq<char>,
    image: Seq<char>,
    m: MountsModel,
    env_passthrough: Seq<Seq<char>>,
    extra_env: Seq<(Seq<char>, Seq<char>)>,
    dc: DevcontainerRuntimeModel,
    host: HostModel,
)
    ensures
        ({
            let doc = override_of(runtime, service, image, m, env_passthrough, extra_env, dc, host);
            let sock = m.ssh_agent_sock is Some && host.existing.contains(m.ssh_agent_sock->0);
            let one = |present: bool|
                if present {
                    1int
                } else {
                    0
                };
            &&& listed(said_of(doc, service, "volumes"@)) == 2 + one(m.colocated_git_host is Some) + one(
                host.existing.contains(m.gitconfig_host),
            ) + one(host.existing.contains(m.ssh_host)) + one(sock) + run_laws::existing_credentials(m, host).len()
                + run_laws::sourced_mounts(dc).len()
            &&& listed(said_of(doc, service, "ports"@)) == run_laws::ports_here(dc).len()
            &&& listed(said_of(doc, service, "cap_add"@)) == dc.cap_add.len()
            &&& listed(said_of(doc, service, "security_opt"@)) == dc.security_opt.len()
        }),
{
    let labels = container::selinux(runtime.kind, host.linux);
    lemma_keys_differ();
    lemma_said(runtime, service, image, m, env_passthrough, extra_env, dc, host, "volumes"@);
    lemma_found(runtime, image, m, env_passthrough, extra_env, dc, host, "volumes"@);
    lemma_said(runtime, service, image, m, env_passthrough, extra_env, dc, host, "ports"@);
    lemma_found(runtime, image, m, env_passthrough, extra_env, dc, host, "ports"@);
    lemma_said(runtime, service, image, m, env_passthrough, extra_env, dc, host, "cap_add"@);
    lemma_found(runtime, image, m, env_passthrough, extra_env, dc, host, "cap_add"@);
    lemma_said(runtime, service, image, m, env_passthrough, extra_env, dc, host, "security_opt"@);
    lemma_found(runtime, image, m, env_passthrough, extra_env, dc, host, "security_opt"@);
    lemma_auth_count(m.agent_auth, host, labels);
    lemma_config_count(dc.mounts, labels);
    lemma_port_count(dc.ports);
}

/// A service is made from its image, from its build section or from both, and one that has neither, or that
/// is not there, is refused. A build section without a context builds in its own directory.
pub proof fn law_a_service_is_read(config: JsonModel, service: Seq<char>, services: JsonModel, s: Seq<char>, t: Seq<char>)
    requires
        config.member("services"@) == Some(services),
    ensures
        services.member(service) is None ==> super::service_of(config, service) is Err,
        services.member(service) matches Some(svc) ==> {
            let r = super::service_of(config, service);
            let image = svc.member("image"@);
            let build = svc.member("build"@);
            &&& r is Ok <==> (image matches Some(JsonModel::Str(_))) || (build matches Some(JsonModel::Object(_)))
            &&& r is Ok ==> {
                &&& image == Some(JsonModel::Str(s)) ==> r->Ok_0.image == Some(s)
                &&& !(image matches Some(JsonModel::Str(_))) ==> r->Ok_0.image is None
                &&& build matches Some(JsonModel::Object(o)) ==> {
                    let b = JsonModel::Object(o);
                    &&& r->Ok_0.build is Some
                    &&& b.member("context"@) == Some(JsonModel::Str(s)) ==> (r->Ok_0.build->0).0 == s
                    &&& b.member("context"@) is None ==> (r->Ok_0.build->0).0 == "."@
                    &&& b.member("dockerfile"@) == Some(JsonModel::Str(t)) ==> (r->Ok_0.build->0).1 == Some(t)
                    &&& b.member("dockerfile"@) is None ==> (r->Ok_0.build->0).1 is None
                }
                &&& !(build matches Some(JsonModel::Object(_))) ==> r->Ok_0.build is None
            }
        },
{
}

} // verus!
