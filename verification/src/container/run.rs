//! The command that starts a session container.

use vstd::prelude::*;

use crate::config::NetworkMode;
use crate::container::{
    self, AgentAuthMount, AuthMountModel, ContainerMounts, ContainerRuntime, DevcontainerRuntime,
    DevcontainerRuntimeModel, HostFacts, HostModel, MountMode, MountsModel, RuntimeKind, RuntimeModel,
};
use crate::devcontainer::mount::{NormalizedMount, NormalizedMountModel};
use crate::devcontainer::port::{self, ForwardedPort, ForwardedPortModel};
use crate::text;

pub mod laws;

verus! {

/// A flag and its value.
pub open spec fn flag(name: Seq<char>, value: Seq<char>) -> Seq<Seq<char>> {
    seq![name, value]
}

fn push_flag(cmd: &mut Vec<String>, name: &str, value: &str)
    ensures
        final(cmd).deep_view() == old(cmd).deep_view() + flag(name@, value@),
{
    text::push_str(cmd, name);
    text::push_str(cmd, value);
    assert(cmd.deep_view() =~= old(cmd).deep_view() + flag(name@, value@));
}

// ----------------------------------------------------------------------------------------------
// The user
// ----------------------------------------------------------------------------------------------

/// The user and group as `uid:gid`.
pub open spec fn numeric_user(id: (u32, u32)) -> Seq<char> {
    text::decimal(id.0 as nat) + ":"@ + text::decimal(id.1 as nat)
}

/// Whether the container process runs under the host's own numeric user.
pub open spec fn mapped_uid(kind: RuntimeKind, dc: DevcontainerRuntimeModel, id: Option<(u32, u32)>) -> bool {
    kind == RuntimeKind::Docker && dc.drop_to is None && dc.update_remote_user_uid && id is Some
}

/// How the host's user is mapped: Podman maps the user namespace, Docker runs as the host's numeric
/// user, unless the config names a user that is not to be mapped or privileges are dropped later.
pub open spec fn mapping_args(kind: RuntimeKind, dc: DevcontainerRuntimeModel, id: Option<(u32, u32)>) -> Seq<
    Seq<char>,
> {
    match id {
        None => Seq::empty(),
        Some(id) => match kind {
            RuntimeKind::Podman => seq![
                "--userns=keep-id:uid="@ + text::decimal(id.0 as nat) + ",gid="@ + text::decimal(id.1 as nat),
            ],
            RuntimeKind::Docker => if dc.drop_to is None && (dc.user is None || dc.update_remote_user_uid) {
                flag("--user"@, numeric_user(id))
            } else {
                Seq::empty()
            },
        },
    }
}

/// The user the config names. Under a mapped numeric user only its home directory is set.
pub open spec fn named_user_args(
    kind: RuntimeKind,
    dc: DevcontainerRuntimeModel,
    id: Option<(u32, u32)>,
    home: Seq<char>,
) -> Seq<Seq<char>> {
    match dc.user {
        None => Seq::empty(),
        Some(user) => if mapped_uid(kind, dc, id) {
            flag("-e"@, "HOME="@ + home)
        } else {
            flag("--user"@, user)
        },
    }
}

fn push_user(cmd: &mut Vec<String>, kind: RuntimeKind, dc: &DevcontainerRuntime, id: Option<(u32, u32)>, home: &str)
    ensures
        final(cmd).deep_view() == old(cmd).deep_view() + mapping_args(kind, dc.deep_view(), id) + named_user_args(
            kind,
            dc.deep_view(),
            id,
            home@,
        ),
{
    let ghost c0 = cmd.deep_view();
    match id {
        Some((uid, gid)) => {
            let u = text::decimal_of(uid as u64);
            let g = text::decimal_of(gid as u64);
            match kind {
                RuntimeKind::Podman => {
                    text::push(cmd, text::cat4("--userns=keep-id:uid=", u.as_str(), ",gid=", g.as_str()));
                    assert(cmd.deep_view() =~= c0 + mapping_args(kind, dc.deep_view(), id));
                },
                RuntimeKind::Docker => {
                    if dc.drop_to.is_none() && (dc.user.is_none() || dc.update_remote_user_uid) {
                        let v = text::cat3(u.as_str(), ":", g.as_str());
                        push_flag(cmd, "--user", v.as_str());
                    } else {
                        assert(c0 =~= c0 + mapping_args(kind, dc.deep_view(), id));
                    }
                },
            }
        },
        None => {
            assert(c0 =~= c0 + mapping_args(kind, dc.deep_view(), id));
        },
    }
    let ghost c1 = cmd.deep_view();
    assert(c1 == c0 + mapping_args(kind, dc.deep_view(), id));
    let mapped = kind == RuntimeKind::Docker && dc.drop_to.is_none() && dc.update_remote_user_uid && id.is_some();
    match &dc.user {
        Some(user) => {
            if mapped {
                let h = text::cat2("HOME=", home);
                push_flag(cmd, "-e", h.as_str());
            } else {
                push_flag(cmd, "--user", user.as_str());
            }
        },
        None => {
            assert(c1 =~= c1 + named_user_args(kind, dc.deep_view(), id, home@));
        },
    }
}

// ----------------------------------------------------------------------------------------------
// Mounts
// ----------------------------------------------------------------------------------------------

/// A `-v` flag.
pub open spec fn volume(host: Seq<char>, container: Seq<char>, mode: MountMode, selinux: bool) -> Seq<Seq<char>> {
    flag("-v"@, container::mount_text(host, container, mode, selinux))
}

fn push_volume(cmd: &mut Vec<String>, host: &str, target: &str, mode: MountMode, selinux: bool)
    ensures
        final(cmd).deep_view() == old(cmd).deep_view() + volume(host@, target@, mode, selinux),
{
    let m = container::mount_str(host, target, mode, selinux);
    push_flag(cmd, "-v", m.as_str());
}

/// The mounts that every session has: the worktree and the repository at their own paths, the user's
/// git configuration and SSH directory where they exist.
pub open spec fn own_volumes(m: MountsModel, host: HostModel, selinux: bool) -> Seq<Seq<char>> {
    volume(m.worktree_host, m.worktree_host, MountMode::ReadWrite, selinux) + volume(
        m.vcs_host,
        m.vcs_host,
        MountMode::ReadWrite,
        selinux,
    ) + (match m.colocated_git_host {
        Some(git) => volume(git, git, MountMode::ReadWrite, selinux),
        None => Seq::empty(),
    }) + (if host.has_path(m.gitconfig_host) {
        volume(m.gitconfig_host, m.container_home + "/.gitconfig"@, MountMode::ReadOnly, selinux)
    } else {
        Seq::empty()
    }) + (if host.has_path(m.ssh_host) {
        volume(m.ssh_host, m.container_home + "/.ssh"@, MountMode::ReadOnly, selinux)
    } else {
        Seq::empty()
    })
}

/// The SSH agent socket that is forwarded: the one given, where it exists.
pub open spec fn forwarded_sock(m: MountsModel, host: HostModel) -> Option<Seq<char>> {
    match m.ssh_agent_sock {
        Some(sock) => if host.has_path(sock) {
            Some(sock)
        } else {
            None
        },
        None => None,
    }
}

/// The SSH agent socket, at its own path and never relabelled: the host still needs it.
pub open spec fn agent_volume(m: MountsModel, host: HostModel) -> Seq<Seq<char>> {
    match forwarded_sock(m, host) {
        Some(sock) => volume(sock, sock, MountMode::ReadWrite, false) + flag("-e"@, "SSH_AUTH_SOCK="@ + sock),
        None => Seq::empty(),
    }
}

/// The credential mounts whose host path exists.
pub open spec fn auth_volumes(auth: Seq<AuthMountModel>, host: HostModel, selinux: bool) -> Seq<Seq<char>>
    decreases auth.len(),
{
    if auth.len() == 0 {
        Seq::empty()
    } else {
        let a = auth.last();
        auth_volumes(auth.drop_last(), host, selinux) + (if host.has_path(a.host_path) {
            volume(a.host_path, a.container_path, a.mode, selinux)
        } else {
            Seq::empty()
        })
    }
}

/// The mode that a mount asks for.
pub open spec fn mode_of(m: NormalizedMountModel) -> MountMode {
    if m.read_only {
        MountMode::ReadOnly
    } else {
        MountMode::ReadWrite
    }
}

/// One devcontainer mount. A mount without a source is skipped, and only a bind mount is relabelled: a
/// volume is not a host path.
pub open spec fn config_volume(m: NormalizedMountModel, selinux: bool) -> Seq<Seq<char>> {
    match m.source {
        None => Seq::empty(),
        Some(source) => volume(source, m.target, mode_of(m), selinux && m.kind == "bind"@),
    }
}

/// The devcontainer mounts.
pub open spec fn config_volumes(ms: Seq<NormalizedMountModel>, selinux: bool) -> Seq<Seq<char>>
    decreases ms.len(),
{
    if ms.len() == 0 {
        Seq::empty()
    } else {
        config_volumes(ms.drop_last(), selinux) + config_volume(ms.last(), selinux)
    }
}

fn push_own_volumes(cmd: &mut Vec<String>, m: &ContainerMounts, host: &HostFacts, selinux: bool)
    ensures
        final(cmd).deep_view() == old(cmd).deep_view() + own_volumes(m.deep_view(), host.deep_view(), selinux),
{
    let ghost c0 = cmd.deep_view();
    push_volume(cmd, m.worktree_host.as_str(), m.worktree_host.as_str(), MountMode::ReadWrite, selinux);
    push_volume(cmd, m.vcs_host.as_str(), m.vcs_host.as_str(), MountMode::ReadWrite, selinux);
    match &m.colocated_git_host {
        Some(git) => {
            push_volume(cmd, git.as_str(), git.as_str(), MountMode::ReadWrite, selinux);
        },
        None => {},
    }
    if host.has_path(m.gitconfig_host.as_str()) {
        let target = text::cat2(m.container_home.as_str(), "/.gitconfig");
        push_volume(cmd, m.gitconfig_host.as_str(), target.as_str(), MountMode::ReadOnly, selinux);
    }
    if host.has_path(m.ssh_host.as_str()) {
        let target = text::cat2(m.container_home.as_str(), "/.ssh");
        push_volume(cmd, m.ssh_host.as_str(), target.as_str(), MountMode::ReadOnly, selinux);
    }
    assert(cmd.deep_view() =~= c0 + own_volumes(m.deep_view(), host.deep_view(), selinux));
}

fn push_agent_volume(cmd: &mut Vec<String>, m: &ContainerMounts, host: &HostFacts)
    ensures
        final(cmd).deep_view() == old(cmd).deep_view() + agent_volume(m.deep_view(), host.deep_view()),
{
    let ghost c0 = cmd.deep_view();
    match &m.ssh_agent_sock {
        Some(sock) => {
            if host.has_path(sock.as_str()) {
                push_volume(cmd, sock.as_str(), sock.as_str(), MountMode::ReadWrite, false);
                let e = text::cat2("SSH_AUTH_SOCK=", sock.as_str());
                push_flag(cmd, "-e", e.as_str());
            }
        },
        None => {},
    }
    assert(cmd.deep_view() =~= c0 + agent_volume(m.deep_view(), host.deep_view()));
}

fn push_auth_volumes(cmd: &mut Vec<String>, auth: &Vec<AgentAuthMount>, host: &HostFacts, selinux: bool)
    ensures
        final(cmd).deep_view() == old(cmd).deep_view() + auth_volumes(auth.deep_view(), host.deep_view(), selinux),
{
    let ghost c0 = cmd.deep_view();
    let ghost all = auth.deep_view();
    let mut i: usize = 0;
    assert(c0 =~= c0 + auth_volumes(all.subrange(0, 0), host.deep_view(), selinux));
    while i < auth.len()
        invariant
            all == auth.deep_view(),
            i <= auth.len(),
            cmd.deep_view() == c0 + auth_volumes(all.subrange(0, i as int), host.deep_view(), selinux),
        decreases auth.len() - i,
    {
        assert(all.subrange(0, i + 1).drop_last() =~= all.subrange(0, i as int));
        assert(all[i as int] == auth@[i as int].deep_view());
        if host.has_path(auth[i].host_path.as_str()) {
            push_volume(cmd, auth[i].host_path.as_str(), auth[i].container_path.as_str(), auth[i].mode, selinux);
        }
        i = i + 1;
        assert(cmd.deep_view() =~= c0 + auth_volumes(all.subrange(0, i as int), host.deep_view(), selinux));
    }
    assert(all.subrange(0, all.len() as int) =~= all);
}

fn push_config_volumes(cmd: &mut Vec<String>, ms: &Vec<NormalizedMount>, selinux: bool)
    ensures
        final(cmd).deep_view() == old(cmd).deep_view() + config_volumes(ms.deep_view(), selinux),
{
    let ghost c0 = cmd.deep_view();
    let ghost all = ms.deep_view();
    let mut i: usize = 0;
    assert(c0 =~= c0 + config_volumes(all.subrange(0, 0), selinux));
    while i < ms.len()
        invariant
            all == ms.deep_view(),
            i <= ms.len(),
            cmd.deep_view() == c0 + config_volumes(all.subrange(0, i as int), selinux),
        decreases ms.len() - i,
    {
        assert(all.subrange(0, i + 1).drop_last() =~= all.subrange(0, i as int));
        assert(all[i as int] == ms@[i as int].deep_view());
        let m = &ms[i];
        match &m.source {
            Some(source) => {
                let mode = if m.read_only {
                    MountMode::ReadOnly
                } else {
                    MountMode::ReadWrite
                };
                let label = selinux && text::eq(m.kind.as_str(), "bind");
                push_volume(cmd, source.as_str(), m.target.as_str(), mode, label);
            },
            None => {},
        }
        i = i + 1;
        assert(cmd.deep_view() =~= c0 + config_volumes(all.subrange(0, i as int), selinux));
    }
    assert(all.subrange(0, all.len() as int) =~= all);
}

// ----------------------------------------------------------------------------------------------
// The environment
// ----------------------------------------------------------------------------------------------

/// An `-e` flag for each pair.
pub open spec fn env_args(env: Seq<(Seq<char>, Seq<char>)>) -> Seq<Seq<char>>
    decreases env.len(),
{
    if env.len() == 0 {
        Seq::empty()
    } else {
        env_args(env.drop_last()) + flag("-e"@, env.last().0 + "="@ + env.last().1)
    }
}

/// A flag for each value.
pub open spec fn each(name: Seq<char>, values: Seq<Seq<char>>) -> Seq<Seq<char>>
    decreases values.len(),
{
    if values.len() == 0 {
        Seq::empty()
    } else {
        each(name, values.drop_last()) + flag(name, values.last())
    }
}

/// A `-p` flag for each port that the session's own container can publish.
pub open spec fn port_args(ports: Seq<ForwardedPortModel>) -> Seq<Seq<char>>
    decreases ports.len(),
{
    if ports.len() == 0 {
        Seq::empty()
    } else {
        port_args(ports.drop_last()) + (match ports.last().spec_text() {
            Some(s) => flag("-p"@, s),
            None => Seq::empty(),
        })
    }
}

fn push_env(cmd: &mut Vec<String>, env: &Vec<(String, String)>)
    ensures
        final(cmd).deep_view() == old(cmd).deep_view() + env_args(env.deep_view()),
{
    let ghost c0 = cmd.deep_view();
    let ghost all = env.deep_view();
    let mut i: usize = 0;
    assert(c0 =~= c0 + env_args(all.subrange(0, 0)));
    while i < env.len()
        invariant
            all == env.deep_view(),
            i <= env.len(),
            cmd.deep_view() == c0 + env_args(all.subrange(0, i as int)),
        decreases env.len() - i,
    {
        assert(all.subrange(0, i + 1).drop_last() =~= all.subrange(0, i as int));
        assert(all[i as int] == env@[i as int].deep_view());
        let e = text::cat3(env[i].0.as_str(), "=", env[i].1.as_str());
        push_flag(cmd, "-e", e.as_str());
        i = i + 1;
        assert(cmd.deep_view() =~= c0 + env_args(all.subrange(0, i as int)));
    }
    assert(all.subrange(0, all.len() as int) =~= all);
}

fn push_each(cmd: &mut Vec<String>, name: &str, values: &Vec<String>)
    ensures
        final(cmd).deep_view() == old(cmd).deep_view() + each(name@, values.deep_view()),
{
    let ghost c0 = cmd.deep_view();
    let ghost all = values.deep_view();
    let mut i: usize = 0;
    assert(c0 =~= c0 + each(name@, all.subrange(0, 0)));
    while i < values.len()
        invariant
            all == values.deep_view(),
            i <= values.len(),
            cmd.deep_view() == c0 + each(name@, all.subrange(0, i as int)),
        decreases values.len() - i,
    {
        assert(all.subrange(0, i + 1).drop_last() =~= all.subrange(0, i as int));
        assert(all[i as int] == values@[i as int]@);
        push_flag(cmd, name, values[i].as_str());
        i = i + 1;
        assert(cmd.deep_view() =~= c0 + each(name@, all.subrange(0, i as int)));
    }
    assert(all.subrange(0, all.len() as int) =~= all);
}

fn push_ports(cmd: &mut Vec<String>, ports: &Vec<ForwardedPort>)
    ensures
        final(cmd).deep_view() == old(cmd).deep_view() + port_args(ports.deep_view()),
{
    let ghost c0 = cmd.deep_view();
    let ghost all = ports.deep_view();
    let mut i: usize = 0;
    assert(c0 =~= c0 + port_args(all.subrange(0, 0)));
    while i < ports.len()
        invariant
            all == ports.deep_view(),
            i <= ports.len(),
            cmd.deep_view() == c0 + port_args(all.subrange(0, i as int)),
        decreases ports.len() - i,
    {
        assert(all.subrange(0, i + 1).drop_last() =~= all.subrange(0, i as int));
        assert(all[i as int] == ports@[i as int].deep_view());
        match ports[i].spec() {
            Some(s) => {
                push_flag(cmd, "-p", s.as_str());
            },
            None => {},
        }
        i = i + 1;
        assert(cmd.deep_view() =~= c0 + port_args(all.subrange(0, i as int)));
    }
    assert(all.subrange(0, all.len() as int) =~= all);
}

fn push_all(cmd: &mut Vec<String>, values: &Vec<String>)
    ensures
        final(cmd).deep_view() == old(cmd).deep_view() + values.deep_view(),
{
    let ghost c0 = cmd.deep_view();
    let ghost all = values.deep_view();
    let mut i: usize = 0;
    assert(c0 =~= c0 + all.subrange(0, 0));
    while i < values.len()
        invariant
            all == values.deep_view(),
            i <= values.len(),
            cmd.deep_view() == c0 + all.subrange(0, i as int),
        decreases values.len() - i,
    {
        text::push_str(cmd, values[i].as_str());
        i = i + 1;
        assert(cmd.deep_view() =~= c0 + all.subrange(0, i as int));
    }
    assert(all.subrange(0, all.len() as int) =~= all);
}

// ----------------------------------------------------------------------------------------------
// The command
// ----------------------------------------------------------------------------------------------

/// The flags that were granted beyond an ordinary container.
pub open spec fn granted_args(dc: DevcontainerRuntimeModel) -> Seq<Seq<char>> {
    (if dc.init {
        seq!["--init"@]
    } else {
        Seq::empty()
    }) + (if dc.privileged {
        seq!["--privileged"@]
    } else {
        Seq::empty()
    }) + each("--cap-add"@, dc.cap_add) + each("--security-opt"@, dc.security_opt)
}

/// The network flag.
pub open spec fn network_args(network: NetworkMode) -> Seq<Seq<char>> {
    match network {
        NetworkMode::Full => Seq::empty(),
        NetworkMode::Off => flag("--network"@, "none"@),
    }
}

/// The working directory and the image.
pub open spec fn tail_args(m: MountsModel, dc: DevcontainerRuntimeModel, image: Seq<char>) -> Seq<Seq<char>> {
    flag(
        "--workdir"@,
        match dc.workdir {
            Some(dir) => dir,
            None => m.worktree_host,
        },
    ).push(image)
}

/// Everything before the raw runtime flags.
pub open spec fn head_args(
    runtime: RuntimeModel,
    m: MountsModel,
    env_passthrough: Seq<Seq<char>>,
    extra_env: Seq<(Seq<char>, Seq<char>)>,
    name: Seq<char>,
    dc: DevcontainerRuntimeModel,
    host: HostModel,
) -> Seq<Seq<char>> {
    let labels = container::selinux(runtime.kind, host.linux);
    seq![runtime.bin, "run"@, "--rm"@, "-it"@, "--name"@, name] + mapping_args(runtime.kind, dc, host.uid_gid)
        + named_user_args(runtime.kind, dc, host.uid_gid, m.container_home) + own_volumes(m, host, labels)
        + agent_volume(m, host) + auth_volumes(m.agent_auth, host, labels) + config_volumes(dc.mounts, labels)
        + env_args(host.identity) + env_args(extra_env) + env_args(dc.env) + each("-e"@, env_passthrough)
        + granted_args(dc) + port_args(dc.ports)
}

/// The command that starts a session container. The network flag comes after the raw flags of the
/// config, so that a config cannot widen what was asked for.
pub open spec fn run_command(
    runtime: RuntimeModel,
    image: Seq<char>,
    m: MountsModel,
    env_passthrough: Seq<Seq<char>>,
    extra_env: Seq<(Seq<char>, Seq<char>)>,
    network: NetworkMode,
    name: Seq<char>,
    dc: DevcontainerRuntimeModel,
    host: HostModel,
) -> Seq<Seq<char>> {
    head_args(runtime, m, env_passthrough, extra_env, name, dc, host) + dc.run_args + network_args(network)
        + tail_args(m, dc, image)
}

fn push_granted(cmd: &mut Vec<String>, dc: &DevcontainerRuntime)
    ensures
        final(cmd).deep_view() == old(cmd).deep_view() + granted_args(dc.deep_view()),
{
    let ghost c0 = cmd.deep_view();
    if dc.init {
        text::push_str(cmd, "--init");
    }
    if dc.privileged {
        text::push_str(cmd, "--privileged");
    }
    push_each(cmd, "--cap-add", &dc.cap_add);
    push_each(cmd, "--security-opt", &dc.security_opt);
    assert(cmd.deep_view() =~= c0 + granted_args(dc.deep_view()));
}

/// Builds the command that starts a session container.
pub fn build_run_command(
    runtime: &ContainerRuntime,
    image: &str,
    mounts: &ContainerMounts,
    env_passthrough: &Vec<String>,
    extra_env: &Vec<(String, String)>,
    network: &NetworkMode,
    container_name: &str,
    dc: &DevcontainerRuntime,
    host: &HostFacts,
) -> (r: Vec<String>)
    ensures
        r.deep_view() == run_command(
            runtime.deep_view(),
            image@,
            mounts.deep_view(),
            env_passthrough.deep_view(),
            extra_env.deep_view(),
            *network,
            container_name@,
            dc.deep_view(),
            host.deep_view(),
        ),
{
    let labels = container::use_selinux_labels(runtime, host.linux);
    let mut cmd: Vec<String> = Vec::new();
    text::push_str(&mut cmd, runtime.bin.as_str());
    text::push_str(&mut cmd, "run");
    text::push_str(&mut cmd, "--rm");
    text::push_str(&mut cmd, "-it");
    text::push_str(&mut cmd, "--name");
    text::push_str(&mut cmd, container_name);
    assert(cmd.deep_view() =~= seq![runtime.bin@, "run"@, "--rm"@, "-it"@, "--name"@, container_name@]);
    push_user(&mut cmd, runtime.kind, dc, host.uid_gid, mounts.container_home.as_str());
    push_own_volumes(&mut cmd, mounts, host, labels);
    push_agent_volume(&mut cmd, mounts, host);
    push_auth_volumes(&mut cmd, &mounts.agent_auth, host, labels);
    push_config_volumes(&mut cmd, &dc.mounts, labels);
    push_env(&mut cmd, &host.identity);
    push_env(&mut cmd, extra_env);
    push_env(&mut cmd, &dc.env);
    push_each(&mut cmd, "-e", env_passthrough);
    push_granted(&mut cmd, dc);
    push_ports(&mut cmd, &dc.ports);
    push_all(&mut cmd, &dc.run_args);
    let ghost c1 = cmd.deep_view();
    match network {
        NetworkMode::Off => {
            push_flag(&mut cmd, "--network", "none");
        },
        NetworkMode::Full => {
            assert(c1 =~= c1 + network_args(*network));
        },
    }
    let ghost c2 = cmd.deep_view();
    let dir = match &dc.workdir {
        Some(dir) => dir.as_str(),
        None => mounts.worktree_host.as_str(),
    };
    push_flag(&mut cmd, "--workdir", dir);
    text::push_str(&mut cmd, image);
    assert(cmd.deep_view() =~= c2 + tail_args(mounts.deep_view(), dc.deep_view(), image@));
    cmd
}

/// The command always ends in the raw flags of the config, then the network flag, then the working
/// directory and the image: a session without a network stays without one whatever its config asks
/// for.
pub proof fn law_network_is_decided_last(
    runtime: RuntimeModel,
    image: Seq<char>,
    m: MountsModel,
    env_passthrough: Seq<Seq<char>>,
    extra_env: Seq<(Seq<char>, Seq<char>)>,
    name: Seq<char>,
    dc: DevcontainerRuntimeModel,
    host: HostModel,
)
    ensures
        ({
            let cmd = run_command(
                runtime,
                image,
                m,
                env_passthrough,
                extra_env,
                NetworkMode::Off,
                name,
                dc,
                host,
            );
            let n = cmd.len() as int;
            &&& n >= 5 + dc.run_args.len()
            &&& cmd.subrange(n - 5 - dc.run_args.len(), n - 5) == dc.run_args
            &&& cmd[n - 5] == "--network"@
            &&& cmd[n - 4] == "none"@
            &&& cmd[n - 3] == "--workdir"@
            &&& cmd[n - 1] == image
        }),
{
    let h = head_args(runtime, m, env_passthrough, extra_env, name, dc, host);
    let cmd = run_command(runtime, image, m, env_passthrough, extra_env, NetworkMode::Off, name, dc, host);
    let t = tail_args(m, dc, image);
    assert(cmd =~= h + dc.run_args + flag("--network"@, "none"@) + t);
    let n = cmd.len() as int;
    assert(cmd.subrange(n - 5 - dc.run_args.len(), n - 5) =~= dc.run_args);
}

/// The user is set at most once: a numeric mapping and a named user never contradict each other.
pub proof fn law_one_user(kind: RuntimeKind, dc: DevcontainerRuntimeModel, id: Option<(u32, u32)>, home: Seq<char>)
    ensures
        !(mapping_args(kind, dc, id).contains("--user"@) && named_user_args(kind, dc, id, home).contains("--user"@)),
        dc.drop_to is Some && kind == RuntimeKind::Docker ==> mapping_args(kind, dc, id).len() == 0,
        kind == RuntimeKind::Docker && dc.user is Some && !dc.update_remote_user_uid ==> mapping_args(kind, dc, id).len()
            == 0,
{
    reveal_strlit("-e");
    reveal_strlit("--user");
    if mapped_uid(kind, dc, id) && dc.user is Some {
        let a = named_user_args(kind, dc, id, home);
        assert("-e"@.len() != "--user"@.len());
        assert(a[1] == "HOME="@ + home);
        reveal_strlit("HOME=");
        assert(a[1][0] == 'H');
        assert("--user"@[0] == '-');
        assert(!a.contains("--user"@));
    } else if kind == RuntimeKind::Podman && id is Some {
        let a = mapping_args(kind, dc, id);
        reveal_strlit("--userns=keep-id:uid=");
        assert(a[0].len() > 6);
        assert(!a.contains("--user"@));
    }
}

/// The jj identity that a git configuration gives: both values or none, since half an identity would
/// look configured and still produce commits that cannot be pushed.
pub fn jj_identity_env(name: Option<String>, email: Option<String>) -> (r: Vec<(String, String)>)
    ensures
        r.deep_view() == (match (name.deep_view(), email.deep_view()) {
            (Some(n), Some(e)) => seq![("JJ_USER"@, n), ("JJ_EMAIL"@, e)],
            _ => Seq::<(Seq<char>, Seq<char>)>::empty(),
        }),
{
    let mut out: Vec<(String, String)> = Vec::new();
    match (name, email) {
        (Some(n), Some(e)) => {
            out.push(("JJ_USER".to_owned(), n));
            out.push(("JJ_EMAIL".to_owned(), e));
            assert(out.deep_view() =~= seq![("JJ_USER"@, n@), ("JJ_EMAIL"@, e@)]);
        },
        _ => {
            assert(out.deep_view() =~= Seq::<(Seq<char>, Seq<char>)>::empty());
        },
    }
    out
}

// ----------------------------------------------------------------------------------------------
// Ports that are already taken
// ----------------------------------------------------------------------------------------------

/// The host address and port that a publish specification binds; none where the runtime picks the
/// port.
pub open spec fn binding(spec: Seq<char>) -> Option<(Seq<char>, u16)> {
    match text::split_last(spec, ':') {
        None => None,
        Some((rest, _)) => match text::split_last(rest, ':') {
            None => match port::port_text(rest) {
                Some(p) => Some(("0.0.0.0"@, p)),
                None => None,
            },
            Some((ip, host)) => match port::port_text(host) {
                Some(p) => Some((ip, p)),
                None => None,
            },
        },
    }
}

/// The host address and port that a publish specification binds.
pub fn host_binding(spec: &str) -> (r: Option<(String, u16)>)
    ensures
        r.deep_view() == binding(spec@),
{
    match text::rsplit_once(spec, ':') {
        None => None,
        Some((rest, _)) => match text::rsplit_once(rest, ':') {
            None => match port::parse_port(rest) {
                Some(p) => Some(("0.0.0.0".to_owned(), p)),
                None => None,
            },
            Some((ip, host)) => match port::parse_port(host) {
                Some(p) => Some((ip.to_owned(), p)),
                None => None,
            },
        },
    }
}

/// What a port binds on the host.
pub open spec fn port_binding(p: ForwardedPortModel) -> Option<(Seq<char>, u16)> {
    match p.spec_text() {
        Some(s) => binding(s),
        None => None,
    }
}

/// Whether what a port binds is taken.
pub open spec fn is_taken(p: ForwardedPortModel, taken: Seq<(Seq<char>, u16)>) -> bool {
    port_binding(p) is Some && taken.contains(port_binding(p)->0)
}

/// The ports whose host binding is not taken.
pub open spec fn free_ports(ports: Seq<ForwardedPortModel>, taken: Seq<(Seq<char>, u16)>) -> Seq<ForwardedPortModel>
    decreases ports.len(),
{
    if ports.len() == 0 {
        Seq::empty()
    } else {
        let rest = free_ports(ports.drop_last(), taken);
        if is_taken(ports.last(), taken) {
            rest
        } else {
            rest.push(ports.last())
        }
    }
}

/// The port numbers whose host binding is taken.
pub open spec fn taken_ports(ports: Seq<ForwardedPortModel>, taken: Seq<(Seq<char>, u16)>) -> Seq<u16>
    decreases ports.len(),
{
    if ports.len() == 0 {
        Seq::empty()
    } else {
        let rest = taken_ports(ports.drop_last(), taken);
        if is_taken(ports.last(), taken) {
            rest.push((port_binding(ports.last())->0).1)
        } else {
            rest
        }
    }
}

fn contains_binding(taken: &Vec<(String, u16)>, b: &(String, u16)) -> (r: bool)
    ensures
        r == taken.deep_view().contains(b.deep_view()),
{
    let ghost all = taken.deep_view();
    let mut i: usize = 0;
    while i < taken.len()
        invariant
            all == taken.deep_view(),
            i <= taken.len(),
            forall|k: int| 0 <= k < i ==> (#[trigger] all[k]) != b.deep_view(),
        decreases taken.len() - i,
    {
        assert(all[i as int] == taken@[i as int].deep_view());
        if taken[i].1 == b.1 && text::eq(taken[i].0.as_str(), b.0.as_str()) {
            return true;
        }
        i = i + 1;
    }
    false
}

/// Drops the ports whose host binding is taken, and returns the numbers of those. A port for which the
/// runtime picks the host side is kept.
pub fn drop_busy_ports(ports: &mut Vec<ForwardedPort>, taken: &Vec<(String, u16)>) -> (r: Vec<u16>)
    ensures
        final(ports).deep_view() == free_ports(old(ports).deep_view(), taken.deep_view()),
        r@ == taken_ports(old(ports).deep_view(), taken.deep_view()),
{
    let ghost all = ports.deep_view();
    let mut old_ports: Vec<ForwardedPort> = Vec::new();
    std::mem::swap(&mut old_ports, ports);
    let mut dropped: Vec<u16> = Vec::new();
    let mut kept: Vec<ForwardedPort> = Vec::new();
    let mut i: usize = 0;
    assert(kept.deep_view() =~= free_ports(all.subrange(0, 0), taken.deep_view()));
    while i < old_ports.len()
        invariant
            all == old_ports.deep_view(),
            i <= old_ports.len(),
            kept.deep_view() == free_ports(all.subrange(0, i as int), taken.deep_view()),
            dropped@ == taken_ports(all.subrange(0, i as int), taken.deep_view()),
        decreases old_ports.len() - i,
    {
        assert(all.subrange(0, i + 1).drop_last() =~= all.subrange(0, i as int));
        assert(all[i as int] == old_ports@[i as int].deep_view());
        let ghost k0 = kept.deep_view();
        let b = match old_ports[i].spec() {
            Some(s) => host_binding(s.as_str()),
            None => None,
        };
        let busy = match &b {
            Some(b) => contains_binding(taken, b),
            None => false,
        };
        if busy {
            dropped.push(b.unwrap().1);
        } else {
            kept.push(crate::duplicate::Duplicate::duplicate(&old_ports[i]));
            assert(kept.deep_view() =~= k0.push(all[i as int]));
        }
        i = i + 1;
    }
    assert(all.subrange(0, all.len() as int) =~= all);
    *ports = kept;
    dropped
}

} // verus!
