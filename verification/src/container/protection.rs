//! The variables that a session sets on purpose.
//!
//! The environment probe runs the user's own dotfiles in the container. What they set is taken over,
//! but never in place of something that the run command sets.

use vstd::prelude::*;

use super::run::{self, each, env_args, flag};
use crate::config::load::entry_name;
use crate::config::NetworkMode;
use crate::container::{
    self, AuthMountModel, ContainerMounts, ContainerRuntime, DevcontainerRuntime, DevcontainerRuntimeModel, HostFacts,
    HostModel, MountMode, MountsModel, RuntimeKind, RuntimeModel,
};
use crate::devcontainer::merge;
use crate::devcontainer::mount::NormalizedMountModel;
use crate::devcontainer::port::{self, ForwardedPortModel};
use crate::devcontainer::precedence;
use crate::text;

verus! {

/// The names of the pairs.
pub open spec fn keys_of(env: Seq<(Seq<char>, Seq<char>)>) -> Seq<Seq<char>> {
    env.map_values(|e: (Seq<char>, Seq<char>)| e.0)
}

/// The names of pass-through entries.
pub open spec fn entry_names(env: Seq<Seq<char>>) -> Seq<Seq<char>> {
    env.map_values(|e: Seq<char>| entry_name(e))
}

/// `HOME`, where the container runs under a numeric user that has none of its own.
pub open spec fn home_name(kind: RuntimeKind, dc: DevcontainerRuntimeModel, host: HostModel) -> Seq<Seq<char>> {
    if dc.user is Some && run::mapped_uid(kind, dc, host.uid_gid) {
        seq!["HOME"@]
    } else {
        Seq::empty()
    }
}

/// `SSH_AUTH_SOCK`, where an agent is forwarded.
pub open spec fn sock_name(m: MountsModel, host: HostModel) -> Seq<Seq<char>> {
    if run::forwarded_sock(m, host) is Some {
        seq!["SSH_AUTH_SOCK"@]
    } else {
        Seq::empty()
    }
}

/// The variables that are set on purpose, each once, in the order they are set.
pub open spec fn protected_names(
    kind: RuntimeKind,
    m: MountsModel,
    env_passthrough: Seq<Seq<char>>,
    extra_env: Seq<(Seq<char>, Seq<char>)>,
    dc: DevcontainerRuntimeModel,
    host: HostModel,
) -> Seq<Seq<char>> {
    merge::united(
        Seq::empty(),
        home_name(kind, dc, host) + sock_name(m, host) + keys_of(host.identity) + keys_of(extra_env) + keys_of(dc.env) + entry_names(env_passthrough),
    )
}

fn push_keys(out: &mut Vec<String>, env: &Vec<(String, String)>)
    ensures
        final(out).deep_view() == old(out).deep_view() + keys_of(env.deep_view()),
{
    let ghost c0 = out.deep_view();
    let ghost all = keys_of(env.deep_view());
    let mut i: usize = 0;
    assert(c0 =~= c0 + all.subrange(0, 0));
    while i < env.len()
        invariant
            all == keys_of(env.deep_view()),
            i <= env.len(),
            out.deep_view() == c0 + all.subrange(0, i as int),
        decreases env.len() - i,
    {
        text::push_str(out, env[i].0.as_str());
        i = i + 1;
        assert(out.deep_view() =~= c0 + all.subrange(0, i as int));
    }
    assert(all.subrange(0, all.len() as int) =~= all);
}

fn push_entry_names(out: &mut Vec<String>, env: &Vec<String>)
    ensures
        final(out).deep_view() == old(out).deep_view() + entry_names(env.deep_view()),
{
    let ghost c0 = out.deep_view();
    let ghost all = entry_names(env.deep_view());
    let mut i: usize = 0;
    assert(c0 =~= c0 + all.subrange(0, 0));
    while i < env.len()
        invariant
            all == entry_names(env.deep_view()),
            i <= env.len(),
            out.deep_view() == c0 + all.subrange(0, i as int),
        decreases env.len() - i,
    {
        let cs = text::chars(env[i].as_str());
        let n: usize = text::find(&cs, 0, '=');
        assert(cs@.subrange(0, cs@.len() as int) =~= cs@);
        text::push(out, text::from_range(&cs, 0, n));
        i = i + 1;
        assert(out.deep_view() =~= c0 + all.subrange(0, i as int));
    }
    assert(all.subrange(0, all.len() as int) =~= all);
}

/// The variables that `am` sets on purpose, which the environment probe must not overwrite.
pub fn protected_env_names(
    runtime: &ContainerRuntime,
    mounts: &ContainerMounts,
    env_passthrough: &Vec<String>,
    extra_env: &Vec<(String, String)>,
    dc: &DevcontainerRuntime,
    host: &HostFacts,
) -> (r: Vec<String>)
    ensures
        r.deep_view() == protected_names(
            runtime.kind,
            mounts.deep_view(),
            env_passthrough.deep_view(),
            extra_env.deep_view(),
            dc.deep_view(),
            host.deep_view(),
        ),
{
    let mut all: Vec<String> = Vec::new();
    let mapped = runtime.kind == RuntimeKind::Docker && dc.drop_to.is_none() && dc.update_remote_user_uid
        && host.uid_gid.is_some();
    if dc.user.is_some() && mapped {
        text::push_str(&mut all, "HOME");
    }
    let ghost home = home_name(runtime.kind, dc.deep_view(), host.deep_view());
    assert(all.deep_view() =~= home);
    match &mounts.ssh_agent_sock {
        Some(sock) => {
            if host.has_path(sock.as_str()) {
                text::push_str(&mut all, "SSH_AUTH_SOCK");
            }
        },
        None => {},
    }
    assert(all.deep_view() =~= home + sock_name(mounts.deep_view(), host.deep_view()));
    push_keys(&mut all, &host.identity);
    push_keys(&mut all, extra_env);
    push_keys(&mut all, &dc.env);
    push_entry_names(&mut all, env_passthrough);
    let mut names: Vec<String> = Vec::new();
    assert(names.deep_view() =~= Seq::<Seq<char>>::empty());
    merge::extend_unique(&mut names, &all);
    names
}

// ----------------------------------------------------------------------------------------------
// What is protected
// ----------------------------------------------------------------------------------------------

/// Whether every `-e` among some arguments is followed by a variable with one of the names.
pub open spec fn sets_only(args: Seq<Seq<char>>, names: Seq<Seq<char>>) -> bool {
    forall|i: int|
        0 <= i < args.len() && (#[trigger] args[i]) == "-e"@ ==> i + 1 < args.len() && names.contains(
            entry_name(args[i + 1]),
        )
}

/// Whether no argument is an `-e`.
pub open spec fn no_flag(args: Seq<Seq<char>>) -> bool {
    forall|i: int| 0 <= i < args.len() ==> (#[trigger] args[i]) != "-e"@
}

/// Whether no name holds a `=`.
pub open spec fn plain_keys(env: Seq<(Seq<char>, Seq<char>)>) -> bool {
    forall|i: int| 0 <= i < env.len() ==> !(#[trigger] env[i]).0.contains('=')
}

proof fn lemma_joined(a: Seq<Seq<char>>, b: Seq<Seq<char>>, names: Seq<Seq<char>>)
    requires
        sets_only(a, names),
        sets_only(b, names),
    ensures
        sets_only(a + b, names),
{
    let c = a + b;
    assert forall|i: int| 0 <= i < c.len() && (#[trigger] c[i]) == "-e"@ implies i + 1 < c.len() && names.contains(
        entry_name(c[i + 1]),
    ) by {
        if i < a.len() {
            assert(a[i] == c[i]);
            assert(c[i + 1] == a[i + 1]);
        } else {
            assert(b[i - a.len()] == c[i]);
            assert(c[i + 1] == b[i - a.len() + 1]);
        }
    }
}

proof fn lemma_is_no_flag(s: Seq<char>, c: char)
    requires
        s.contains(c),
        c != '-' && c != 'e',
    ensures
        s != "-e"@,
{
    reveal_strlit("-e");
}

proof fn lemma_one_is_set(name: Seq<char>, value: Seq<char>, names: Seq<Seq<char>>)
    requires
        !name.contains('='),
        names.contains(name),
    ensures
        sets_only(flag("-e"@, name + "="@ + value), names),
{
    let e = name + "="@ + value;
    reveal_strlit("=");
    let n = name.len() as int;
    assert(e[n] == '=');
    assert forall|j: int| 0 <= j < n implies e[j] != '=' by {
        assert(name.contains(name[j]));
    }
    text::lemma_position_is(e, '=', n);
    assert(entry_name(e) =~= name);
    assert(e.contains('='));
    lemma_is_no_flag(e, '=');
    let a = flag("-e"@, e);
    assert(a[0] == "-e"@ && a[1] == e);
}

proof fn lemma_env_is_set(env: Seq<(Seq<char>, Seq<char>)>, names: Seq<Seq<char>>)
    requires
        plain_keys(env),
        forall|i: int| 0 <= i < env.len() ==> names.contains((#[trigger] env[i]).0),
    ensures
        sets_only(env_args(env), names),
    decreases env.len(),
{
    if env.len() > 0 {
        let rest = env.drop_last();
        assert forall|i: int| 0 <= i < rest.len() implies names.contains((#[trigger] rest[i]).0) && !rest[i].0.contains(
            '=',
        ) by {
            assert(rest[i] == env[i]);
        }
        lemma_env_is_set(rest, names);
        let last = env[env.len() - 1];
        lemma_one_is_set(last.0, last.1, names);
        lemma_joined(env_args(rest), flag("-e"@, last.0 + "="@ + last.1), names);
    }
}

proof fn lemma_passed_is_set(env: Seq<Seq<char>>, names: Seq<Seq<char>>)
    requires
        no_flag(env),
        forall|i: int| 0 <= i < env.len() ==> names.contains(entry_name(#[trigger] env[i])),
    ensures
        sets_only(each("-e"@, env), names),
    decreases env.len(),
{
    if env.len() > 0 {
        let rest = env.drop_last();
        assert forall|i: int| 0 <= i < rest.len() implies names.contains(entry_name(#[trigger] rest[i])) && rest[i]
            != "-e"@ by {
            assert(rest[i] == env[i]);
        }
        lemma_passed_is_set(rest, names);
        let last = env[env.len() - 1];
        let a = flag("-e"@, last);
        assert(a[0] == "-e"@ && a[1] == last);
        assert(sets_only(a, names));
        lemma_joined(each("-e"@, rest), a, names);
    }
}

proof fn lemma_each_has_no_flag(name: Seq<char>, values: Seq<Seq<char>>)
    requires
        name != "-e"@,
        no_flag(values),
    ensures
        no_flag(each(name, values)),
    decreases values.len(),
{
    if values.len() > 0 {
        let rest = values.drop_last();
        assert forall|i: int| 0 <= i < rest.len() implies (#[trigger] rest[i]) != "-e"@ by {
            assert(rest[i] == values[i]);
        }
        lemma_each_has_no_flag(name, rest);
        assert(values[values.len() - 1] != "-e"@);
    }
}

proof fn lemma_volume(host: Seq<char>, target: Seq<char>, mode: MountMode, selinux: bool)
    ensures
        no_flag(run::volume(host, target, mode, selinux)),
{
    let t = container::mount_text(host, target, mode, selinux);
    reveal_strlit(":");
    reveal_strlit("-e");
    reveal_strlit("-v");
    assert(t[host.len() as int] == ':');
    lemma_is_no_flag(t, ':');
    assert("-v"@[1] != "-e"@[1]);
}

proof fn lemma_auth_volumes(auth: Seq<AuthMountModel>, host: HostModel, selinux: bool)
    ensures
        no_flag(run::auth_volumes(auth, host, selinux)),
    decreases auth.len(),
{
    if auth.len() > 0 {
        lemma_auth_volumes(auth.drop_last(), host, selinux);
        let a = auth.last();
        lemma_volume(a.host_path, a.container_path, a.mode, selinux);
    }
}

proof fn lemma_config_volumes(ms: Seq<NormalizedMountModel>, selinux: bool)
    ensures
        no_flag(run::config_volumes(ms, selinux)),
    decreases ms.len(),
{
    if ms.len() > 0 {
        lemma_config_volumes(ms.drop_last(), selinux);
        let m = ms.last();
        match m.source {
            Some(s) => {
                lemma_volume(s, m.target, run::mode_of(m), selinux && m.kind == "bind"@);
            },
            None => {},
        }
    }
}

/// Whether no port is published by a text that is an `-e`.
pub open spec fn plain_ports(ports: Seq<ForwardedPortModel>) -> bool {
    forall|i: int| 0 <= i < ports.len() ==> (#[trigger] ports[i]) != ForwardedPortModel::Published("-e"@)
}

proof fn lemma_ports(ports: Seq<ForwardedPortModel>)
    requires
        plain_ports(ports),
    ensures
        no_flag(run::port_args(ports)),
    decreases ports.len(),
{
    if ports.len() > 0 {
        let rest = ports.drop_last();
        assert forall|i: int| 0 <= i < rest.len() implies (#[trigger] rest[i]) != ForwardedPortModel::Published(
            "-e"@,
        ) by {
            assert(rest[i] == ports[i]);
        }
        lemma_ports(rest);
        reveal_strlit("-e");
        reveal_strlit("-p");
        assert("-p"@[1] != "-e"@[1]);
        match ports[ports.len() - 1] {
            ForwardedPortModel::Own(p) => {
                reveal_strlit("127.0.0.1:");
                assert(port::published(p)[9] == ':');
                lemma_is_no_flag(port::published(p), ':');
            },
            _ => {},
        }
    }
}

proof fn lemma_united_holds(base: Seq<Seq<char>>, more: Seq<Seq<char>>, i: int)
    requires
        0 <= i < more.len(),
    ensures
        merge::united(base, more).contains(more[i]),
    decreases more.len(),
{
    let rest = more.drop_last();
    let u = merge::united(base, rest);
    let v = merge::united(base, more);
    if i < rest.len() {
        lemma_united_holds(base, rest, i);
        assert(rest[i] == more[i]);
        let k = choose|k: int| 0 <= k < u.len() && u[k] == more[i];
        assert(v[k] == more[i]);
    } else if !u.contains(more.last()) {
        assert(v[v.len() - 1] == more.last());
    }
}

proof fn lemma_united_is_distinct(base: Seq<Seq<char>>, more: Seq<Seq<char>>)
    requires
        base.no_duplicates(),
    ensures
        merge::united(base, more).no_duplicates(),
    decreases more.len(),
{
    if more.len() > 0 {
        lemma_united_is_distinct(base, more.drop_last());
    }
}

proof fn lemma_names_hold(
    kind: RuntimeKind,
    m: MountsModel,
    env_passthrough: Seq<Seq<char>>,
    extra_env: Seq<(Seq<char>, Seq<char>)>,
    dc: DevcontainerRuntimeModel,
    host: HostModel,
)
    ensures
        ({
            let p = protected_names(kind, m, env_passthrough, extra_env, dc, host);
            &&& home_name(kind, dc, host).len() > 0 ==> p.contains("HOME"@)
            &&& sock_name(m, host).len() > 0 ==> p.contains("SSH_AUTH_SOCK"@)
            &&& forall|i: int| 0 <= i < host.identity.len() ==> p.contains((#[trigger] host.identity[i]).0)
            &&& forall|i: int| 0 <= i < extra_env.len() ==> p.contains((#[trigger] extra_env[i]).0)
            &&& forall|i: int| 0 <= i < dc.env.len() ==> p.contains((#[trigger] dc.env[i]).0)
            &&& forall|i: int|
                0 <= i < env_passthrough.len() ==> p.contains(entry_name(#[trigger] env_passthrough[i]))
        }),
{
    let h = home_name(kind, dc, host);
    let a = h + sock_name(m, host);
    let b = a + keys_of(host.identity);
    let c = b + keys_of(extra_env);
    let d = c + keys_of(dc.env);
    let all = d + entry_names(env_passthrough);
    let p = protected_names(kind, m, env_passthrough, extra_env, dc, host);
    if h.len() > 0 {
        lemma_united_holds(Seq::empty(), all, 0);
        assert(all[0] == "HOME"@);
    }
    if a.len() > h.len() {
        lemma_united_holds(Seq::empty(), all, h.len() as int);
        assert(all[h.len() as int] == "SSH_AUTH_SOCK"@);
    }
    assert forall|i: int| 0 <= i < host.identity.len() implies p.contains((#[trigger] host.identity[i]).0) by {
        lemma_united_holds(Seq::empty(), all, a.len() + i);
        assert(all[a.len() + i] == host.identity[i].0);
    }
    assert forall|i: int| 0 <= i < extra_env.len() implies p.contains((#[trigger] extra_env[i]).0) by {
        lemma_united_holds(Seq::empty(), all, b.len() + i);
        assert(all[b.len() + i] == extra_env[i].0);
    }
    assert forall|i: int| 0 <= i < dc.env.len() implies p.contains((#[trigger] dc.env[i]).0) by {
        lemma_united_holds(Seq::empty(), all, c.len() + i);
        assert(all[c.len() + i] == dc.env[i].0);
    }
    assert forall|i: int| 0 <= i < env_passthrough.len() implies p.contains(
        entry_name(#[trigger] env_passthrough[i]),
    ) by {
        lemma_united_holds(Seq::empty(), all, d.len() + i);
        assert(all[d.len() + i] == entry_name(env_passthrough[i]));
    }
}

proof fn lemma_own_volumes(m: MountsModel, host: HostModel, selinux: bool)
    ensures
        no_flag(run::own_volumes(m, host, selinux)),
{
    lemma_volume(m.worktree_host, m.worktree_host, MountMode::ReadWrite, selinux);
    lemma_volume(m.vcs_host, m.vcs_host, MountMode::ReadWrite, selinux);
    match m.colocated_git_host {
        Some(git) => {
            lemma_volume(git, git, MountMode::ReadWrite, selinux);
        },
        None => {},
    }
    lemma_volume(m.gitconfig_host, m.container_home + "/.gitconfig"@, MountMode::ReadOnly, selinux);
    lemma_volume(m.ssh_host, m.container_home + "/.ssh"@, MountMode::ReadOnly, selinux);
}

proof fn lemma_user_args(
    kind: RuntimeKind,
    m: MountsModel,
    dc: DevcontainerRuntimeModel,
    host: HostModel,
    names: Seq<Seq<char>>,
)
    requires
        dc.user != Some("-e"@),
        home_name(kind, dc, host).len() > 0 ==> names.contains("HOME"@),
    ensures
        no_flag(run::mapping_args(kind, dc, host.uid_gid)),
        sets_only(run::named_user_args(kind, dc, host.uid_gid, m.container_home), names),
{
    reveal_strlit("-e");
    reveal_strlit("--user");
    assert("--user"@.len() != "-e"@.len());
    match host.uid_gid {
        Some(id) => {
            reveal_strlit("--userns=keep-id:uid=");
            reveal_strlit(":");
            let n = run::numeric_user(id);
            assert(n[text::decimal(id.0 as nat).len() as int] == ':');
            lemma_is_no_flag(n, ':');
        },
        None => {},
    }
    if dc.user is Some && run::mapped_uid(kind, dc, host.uid_gid) {
        reveal_strlit("HOME");
        reveal_strlit("HOME=");
        reveal_strlit("=");
        assert("HOME="@ =~= "HOME"@ + "="@);
        assert(!"HOME"@.contains('='));
        lemma_one_is_set("HOME"@, m.container_home, names);
    }
}

proof fn lemma_agent_volume(m: MountsModel, host: HostModel, names: Seq<Seq<char>>)
    requires
        sock_name(m, host).len() > 0 ==> names.contains("SSH_AUTH_SOCK"@),
    ensures
        sets_only(run::agent_volume(m, host), names),
{
    match run::forwarded_sock(m, host) {
        Some(sock) => {
            reveal_strlit("SSH_AUTH_SOCK");
            reveal_strlit("SSH_AUTH_SOCK=");
            reveal_strlit("=");
            assert("SSH_AUTH_SOCK="@ =~= "SSH_AUTH_SOCK"@ + "="@);
            assert(!"SSH_AUTH_SOCK"@.contains('='));
            let v = run::volume(sock, sock, MountMode::ReadWrite, false);
            lemma_volume(sock, sock, MountMode::ReadWrite, false);
            lemma_one_is_set("SSH_AUTH_SOCK"@, sock, names);
            lemma_joined(v, flag("-e"@, "SSH_AUTH_SOCK="@ + sock), names);
        },
        None => {},
    }
}

proof fn lemma_granted(dc: DevcontainerRuntimeModel)
    requires
        no_flag(dc.cap_add),
        no_flag(dc.security_opt),
    ensures
        no_flag(run::granted_args(dc)),
{
    reveal_strlit("-e");
    reveal_strlit("--init");
    reveal_strlit("--privileged");
    reveal_strlit("--cap-add");
    reveal_strlit("--security-opt");
    assert("--init"@.len() != "-e"@.len());
    assert("--privileged"@.len() != "-e"@.len());
    assert("--cap-add"@.len() != "-e"@.len());
    assert("--security-opt"@.len() != "-e"@.len());
    lemma_each_has_no_flag("--cap-add"@, dc.cap_add);
    lemma_each_has_no_flag("--security-opt"@, dc.security_opt);
}

/// The texts of the caller that stand alone in the command.
pub open spec fn caller_texts(
    runtime: RuntimeModel,
    image: Seq<char>,
    m: MountsModel,
    env_passthrough: Seq<Seq<char>>,
    name: Seq<char>,
    dc: DevcontainerRuntimeModel,
) -> Seq<Seq<char>> {
    seq![
        runtime.bin,
        image,
        name,
        match dc.workdir {
            Some(dir) => dir,
            None => m.worktree_host,
        },
    ] + dc.cap_add + dc.security_opt + dc.run_args + env_passthrough
}

proof fn lemma_caller_texts(
    runtime: RuntimeModel,
    image: Seq<char>,
    m: MountsModel,
    env_passthrough: Seq<Seq<char>>,
    name: Seq<char>,
    dc: DevcontainerRuntimeModel,
)
    requires
        no_flag(caller_texts(runtime, image, m, env_passthrough, name, dc)),
    ensures
        runtime.bin != "-e"@,
        name != "-e"@,
        no_flag(run::tail_args(m, dc, image)),
        no_flag(dc.cap_add),
        no_flag(dc.security_opt),
        no_flag(dc.run_args),
        no_flag(env_passthrough),
{
    let all = caller_texts(runtime, image, m, env_passthrough, name, dc);
    let (c, o, r) = (dc.cap_add.len() as int, dc.security_opt.len() as int, dc.run_args.len() as int);
    assert(all[0] == runtime.bin && all[1] == image && all[2] == name);
    assert(all[3] != "-e"@);
    assert forall|i: int| 0 <= i < dc.cap_add.len() implies (#[trigger] dc.cap_add[i]) != "-e"@ by {
        assert(all[4 + i] == dc.cap_add[i]);
    }
    assert forall|i: int| 0 <= i < dc.security_opt.len() implies (#[trigger] dc.security_opt[i]) != "-e"@ by {
        assert(all[4 + c + i] == dc.security_opt[i]);
    }
    assert forall|i: int| 0 <= i < dc.run_args.len() implies (#[trigger] dc.run_args[i]) != "-e"@ by {
        assert(all[4 + c + o + i] == dc.run_args[i]);
    }
    assert forall|i: int| 0 <= i < env_passthrough.len() implies (#[trigger] env_passthrough[i]) != "-e"@ by {
        assert(all[4 + c + o + r + i] == env_passthrough[i]);
    }
    reveal_strlit("-e");
    reveal_strlit("--workdir");
    assert("--workdir"@.len() != "-e"@.len());
}

/// Every variable that the run command sets is protected, and each is named once. A text of the caller
/// that is itself an `-e`, or a name that holds a `=`, would be read as something else by the runtime.
pub proof fn law_every_variable_is_protected(
    runtime: RuntimeModel,
    image: Seq<char>,
    m: MountsModel,
    env_passthrough: Seq<Seq<char>>,
    extra_env: Seq<(Seq<char>, Seq<char>)>,
    network: NetworkMode,
    name: Seq<char>,
    dc: DevcontainerRuntimeModel,
    host: HostModel,
)
    requires
        no_flag(caller_texts(runtime, image, m, env_passthrough, name, dc)),
        dc.user != Some("-e"@),
        plain_ports(dc.ports),
        plain_keys(host.identity),
        plain_keys(extra_env),
        plain_keys(dc.env),
    ensures
        sets_only(
            run::run_command(runtime, image, m, env_passthrough, extra_env, network, name, dc, host),
            protected_names(runtime.kind, m, env_passthrough, extra_env, dc, host),
        ),
        protected_names(runtime.kind, m, env_passthrough, extra_env, dc, host).no_duplicates(),
{
    let p = protected_names(runtime.kind, m, env_passthrough, extra_env, dc, host);
    lemma_names_hold(runtime.kind, m, env_passthrough, extra_env, dc, host);
    lemma_united_is_distinct(
        Seq::empty(),
        home_name(runtime.kind, dc, host) + sock_name(m, host) + keys_of(host.identity) + keys_of(extra_env)
            + keys_of(dc.env) + entry_names(env_passthrough),
    );
    lemma_caller_texts(runtime, image, m, env_passthrough, name, dc);
    let labels = container::selinux(runtime.kind, host.linux);
    let s0 = seq![runtime.bin, "run"@, "--rm"@, "-it"@, "--name"@, name];
    reveal_strlit("-e");
    reveal_strlit("run");
    reveal_strlit("--rm");
    reveal_strlit("-it");
    reveal_strlit("--name");
    assert("run"@.len() != "-e"@.len() && "--rm"@.len() != "-e"@.len());
    assert("-it"@.len() != "-e"@.len() && "--name"@.len() != "-e"@.len());
    assert(no_flag(s0));
    lemma_user_args(runtime.kind, m, dc, host, p);
    let s1 = s0 + run::mapping_args(runtime.kind, dc, host.uid_gid);
    let a1 = run::named_user_args(runtime.kind, dc, host.uid_gid, m.container_home);
    lemma_joined(s1, a1, p);
    let s2 = s1 + a1;
    lemma_own_volumes(m, host, labels);
    lemma_joined(s2, run::own_volumes(m, host, labels), p);
    let s3 = s2 + run::own_volumes(m, host, labels);
    lemma_agent_volume(m, host, p);
    lemma_joined(s3, run::agent_volume(m, host), p);
    let s4 = s3 + run::agent_volume(m, host);
    lemma_auth_volumes(m.agent_auth, host, labels);
    lemma_joined(s4, run::auth_volumes(m.agent_auth, host, labels), p);
    let s5 = s4 + run::auth_volumes(m.agent_auth, host, labels);
    lemma_config_volumes(dc.mounts, labels);
    lemma_joined(s5, run::config_volumes(dc.mounts, labels), p);
    let s6 = s5 + run::config_volumes(dc.mounts, labels);
    lemma_env_is_set(host.identity, p);
    lemma_joined(s6, env_args(host.identity), p);
    let s7 = s6 + env_args(host.identity);
    lemma_env_is_set(extra_env, p);
    lemma_joined(s7, env_args(extra_env), p);
    let s8 = s7 + env_args(extra_env);
    lemma_env_is_set(dc.env, p);
    lemma_joined(s8, env_args(dc.env), p);
    let s9 = s8 + env_args(dc.env);
    lemma_passed_is_set(env_passthrough, p);
    lemma_joined(s9, each("-e"@, env_passthrough), p);
    let s10 = s9 + each("-e"@, env_passthrough);
    lemma_granted(dc);
    lemma_joined(s10, run::granted_args(dc), p);
    let s11 = s10 + run::granted_args(dc);
    lemma_ports(dc.ports);
    lemma_joined(s11, run::port_args(dc.ports), p);
    let s12 = s11 + run::port_args(dc.ports);
    assert(s12 == run::head_args(runtime, m, env_passthrough, extra_env, name, dc, host));
    lemma_joined(s12, dc.run_args, p);
    let s13 = s12 + dc.run_args;
    reveal_strlit("--network");
    reveal_strlit("none");
    reveal_strlit("--workdir");
    assert("--network"@.len() != "-e"@.len() && "none"@.len() != "-e"@.len() && "--workdir"@.len() != "-e"@.len());
    lemma_joined(s13, run::network_args(network), p);
    let s14 = s13 + run::network_args(network);
    lemma_joined(s14, run::tail_args(m, dc, image), p);
}

/// Whether one of some pairs is named so.
pub open spec fn is_key(env: Seq<(Seq<char>, Seq<char>)>, name: Seq<char>) -> bool {
    exists|i: int| 0 <= i < env.len() && (#[trigger] env[i]).0 == name
}

/// Whether one of some entries is named so.
pub open spec fn is_entry(env: Seq<Seq<char>>, name: Seq<char>) -> bool {
    exists|i: int| 0 <= i < env.len() && entry_name(#[trigger] env[i]) == name
}

/// Protected are the home directory where the container runs under the host's numbers in place of the user
/// that the config names, the agent's socket where it is forwarded, the host's identity, what the session adds,
/// what the config sets and what is passed through. The probe may set everything else.
pub proof fn law_only_what_is_set_is_protected(
    kind: RuntimeKind,
    m: MountsModel,
    env_passthrough: Seq<Seq<char>>,
    extra_env: Seq<(Seq<char>, Seq<char>)>,
    dc: DevcontainerRuntimeModel,
    host: HostModel,
    name: Seq<char>,
)
    ensures
        protected_names(kind, m, env_passthrough, extra_env, dc, host).contains(name) <==> {
            ||| name == "HOME"@ && dc.user is Some && kind == RuntimeKind::Docker && dc.drop_to is None
                && dc.update_remote_user_uid && host.uid_gid is Some
            ||| name == "SSH_AUTH_SOCK"@ && m.ssh_agent_sock is Some && host.existing.contains(m.ssh_agent_sock->0)
            ||| is_key(host.identity, name)
            ||| is_key(extra_env, name)
            ||| is_key(dc.env, name)
            ||| is_entry(env_passthrough, name)
        },
{
    let a = home_name(kind, dc, host);
    let b = sock_name(m, host);
    let c = keys_of(host.identity);
    let d = keys_of(extra_env);
    let e = keys_of(dc.env);
    let f = entry_names(env_passthrough);
    precedence::lemma_united(Seq::empty(), a + b + c + d + e + f);
    lemma_in_either(a, b, name);
    lemma_in_either(a + b, c, name);
    lemma_in_either(a + b + c, d, name);
    lemma_in_either(a + b + c + d, e, name);
    lemma_in_either(a + b + c + d + e, f, name);
    lemma_key(host.identity, name);
    lemma_key(extra_env, name);
    lemma_key(dc.env, name);
    if f.contains(name) {
        let i = choose|i: int| 0 <= i < f.len() && f[i] == name;
        assert(entry_name(env_passthrough[i]) == name);
    }
    if is_entry(env_passthrough, name) {
        let i = choose|i: int| 0 <= i < env_passthrough.len() && entry_name(#[trigger] env_passthrough[i]) == name;
        assert(f[i] == name);
    }
    assert(a.len() > 0 ==> a[0] == "HOME"@);
    assert(b.len() > 0 ==> b[0] == "SSH_AUTH_SOCK"@);
}

proof fn lemma_in_either(a: Seq<Seq<char>>, b: Seq<Seq<char>>, x: Seq<char>)
    ensures
        (a + b).contains(x) <==> a.contains(x) || b.contains(x),
{
    let s = a + b;
    if a.contains(x) {
        let i = choose|i: int| 0 <= i < a.len() && a[i] == x;
        assert(s[i] == x);
    }
    if b.contains(x) {
        let i = choose|i: int| 0 <= i < b.len() && b[i] == x;
        assert(s[a.len() + i] == x);
    }
    if s.contains(x) {
        let i = choose|i: int| 0 <= i < s.len() && s[i] == x;
        if i < a.len() {
            assert(a[i] == x);
        } else {
            assert(b[i - a.len()] == x);
        }
    }
}

proof fn lemma_key(env: Seq<(Seq<char>, Seq<char>)>, name: Seq<char>)
    ensures
        keys_of(env).contains(name) <==> is_key(env, name),
{
    let k = keys_of(env);
    if k.contains(name) {
        let i = choose|i: int| 0 <= i < k.len() && k[i] == name;
        assert(env[i].0 == name);
    }
    if is_key(env, name) {
        let i = choose|i: int| 0 <= i < env.len() && (#[trigger] env[i]).0 == name;
        assert(k[i] == name);
    }
}

} // verus!
