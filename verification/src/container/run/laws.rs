//! What holds of every run command.

use vstd::prelude::*;

use super::{
    agent_volume, auth_volumes, config_volume, config_volumes, each, env_args, flag, granted_args, mapping_args,
    named_user_args, network_args, own_volumes, port_args, run_command, tail_args,
};
use crate::config::NetworkMode;
use crate::container::{
    self, AuthMountModel, DevcontainerRuntimeModel, HostModel, MountMode, MountsModel, RuntimeKind, RuntimeModel,
};
use crate::devcontainer::mount::NormalizedMountModel;
use crate::devcontainer::port::ForwardedPortModel;
use crate::text;

verus! {

// ----------------------------------------------------------------------------------------------
// Finding flags
// ----------------------------------------------------------------------------------------------

/// Whether `part` stands in `cmd` from index `i` on.
pub open spec fn stands_at(cmd: Seq<Seq<char>>, i: int, part: Seq<Seq<char>>) -> bool {
    0 <= i && i + part.len() <= cmd.len() && cmd.subrange(i, i + part.len()) == part
}

/// Whether the command has the flag with this value.
pub open spec fn has_flag(cmd: Seq<Seq<char>>, name: Seq<char>, value: Seq<char>) -> bool {
    exists|i: int| 0 <= i < cmd.len() - 1 && #[trigger] cmd[i] == name && cmd[i + 1] == value
}

/// Whether the flag number `k` from index `i` on is this one.
pub open spec fn flag_at(cmd: Seq<Seq<char>>, i: int, k: int, name: Seq<char>, value: Seq<char>) -> bool {
    cmd[i + 2 * k] == name && cmd[i + 2 * k + 1] == value
}

/// Whether from index `i` on the command has the flag once for each value, in order.
pub open spec fn flags_at(cmd: Seq<Seq<char>>, i: int, name: Seq<char>, values: Seq<Seq<char>>) -> bool {
    &&& 0 <= i
    &&& i + 2 * values.len() <= cmd.len()
    &&& forall|k: int| 0 <= k < values.len() ==> #[trigger] flag_at(cmd, i, k, name, values[k])
}

/// The text after a mode that has the runtime relabel what it mounts.
pub open spec fn label(runtime: RuntimeModel, host: HostModel) -> Seq<char> {
    if runtime.kind == RuntimeKind::Podman && host.linux {
        ",z"@
    } else {
        ""@
    }
}

pub proof fn lemma_flag_within(cmd: Seq<Seq<char>>, i: int, part: Seq<Seq<char>>, name: Seq<char>, value: Seq<char>)
    requires
        stands_at(cmd, i, part),
        has_flag(part, name, value),
    ensures
        has_flag(cmd, name, value),
{
    let k = choose|k: int| 0 <= k < part.len() - 1 && #[trigger] part[k] == name && part[k + 1] == value;
    let s = cmd.subrange(i, i + part.len());
    assert(s[k] == cmd[i + k]);
    assert(s[k + 1] == cmd[i + k + 1]);
}

proof fn lemma_flags_of_part(cmd: Seq<Seq<char>>, part: Seq<Seq<char>>)
    requires
        exists|i: int| stands_at(cmd, i, part),
    ensures
        forall|n: Seq<char>, v: Seq<char>| has_flag(part, n, v) ==> #[trigger] has_flag(cmd, n, v),
{
    let i = choose|i: int| stands_at(cmd, i, part);
    assert forall|n: Seq<char>, v: Seq<char>| has_flag(part, n, v) implies #[trigger] has_flag(cmd, n, v) by {
        lemma_flag_within(cmd, i, part, n, v);
    }
}

proof fn lemma_words_of_part(cmd: Seq<Seq<char>>, part: Seq<Seq<char>>)
    requires
        exists|i: int| stands_at(cmd, i, part),
    ensures
        forall|w: Seq<char>| part.contains(w) ==> #[trigger] cmd.contains(w),
{
    let i = choose|i: int| stands_at(cmd, i, part);
    let s = cmd.subrange(i, i + part.len());
    assert forall|w: Seq<char>| part.contains(w) implies #[trigger] cmd.contains(w) by {
        let k = choose|k: int| 0 <= k < part.len() && part[k] == w;
        assert(s[k] == cmd[i + k]);
    }
}

proof fn lemma_flag_left(a: Seq<Seq<char>>, b: Seq<Seq<char>>, name: Seq<char>, value: Seq<char>)
    requires
        has_flag(a, name, value),
    ensures
        has_flag(a + b, name, value),
{
    assert((a + b).subrange(0, a.len() as int) =~= a);
    lemma_flag_within(a + b, 0, a, name, value);
}

proof fn lemma_flag_right(a: Seq<Seq<char>>, b: Seq<Seq<char>>, name: Seq<char>, value: Seq<char>)
    requires
        has_flag(b, name, value),
    ensures
        has_flag(a + b, name, value),
{
    assert((a + b).subrange(a.len() as int, (a + b).len() as int) =~= b);
    lemma_flag_within(a + b, a.len() as int, b, name, value);
}

proof fn lemma_one_flag(name: Seq<char>, value: Seq<char>)
    ensures
        has_flag(flag(name, value), name, value),
{
    let f = flag(name, value);
    assert(f[0] == name && f[1] == value);
}

pub proof fn lemma_each_at(name: Seq<char>, values: Seq<Seq<char>>)
    ensures
        each(name, values).len() == 2 * values.len(),
        flags_at(each(name, values), 0, name, values),
    decreases values.len(),
{
    if values.len() > 0 {
        let front = values.drop_last();
        let e = each(name, values);
        let f = each(name, front);
        lemma_each_at(name, front);
        assert(e =~= f + flag(name, values.last()));
        assert forall|k: int| 0 <= k < values.len() implies #[trigger] flag_at(e, 0, k, name, values[k]) by {
            if k < front.len() {
                assert(flag_at(f, 0, k, name, front[k]));
            }
        }
    }
}

pub proof fn lemma_flags_within(
    cmd: Seq<Seq<char>>,
    i: int,
    part: Seq<Seq<char>>,
    o: int,
    name: Seq<char>,
    values: Seq<Seq<char>>,
)
    requires
        stands_at(cmd, i, part),
        flags_at(part, o, name, values),
    ensures
        flags_at(cmd, i + o, name, values),
{
    let s = cmd.subrange(i, i + part.len());
    assert forall|k: int| 0 <= k < values.len() implies #[trigger] flag_at(cmd, i + o, k, name, values[k]) by {
        assert(flag_at(part, o, k, name, values[k]));
        assert(s[o + 2 * k] == cmd[i + o + 2 * k] && s[o + 2 * k + 1] == cmd[i + o + 2 * k + 1]);
    }
}

pub proof fn lemma_flag_of_flags(cmd: Seq<Seq<char>>, i: int, name: Seq<char>, values: Seq<Seq<char>>, k: int)
    requires
        flags_at(cmd, i, name, values),
        0 <= k < values.len(),
    ensures
        has_flag(cmd, name, values[k]),
{
    assert(flag_at(cmd, i, k, name, values[k]));
}

// ----------------------------------------------------------------------------------------------
// The parts of the command
// ----------------------------------------------------------------------------------------------

proof fn lemma_middle(a: Seq<Seq<char>>, part: Seq<Seq<char>>, b: Seq<Seq<char>>)
    ensures
        stands_at((a + part) + b, a.len() as int, part),
        (a + part) + b == a + (part + b),
{
    assert(((a + part) + b).subrange(a.len() as int, (a.len() + part.len()) as int) =~= part);
    assert((a + part) + b =~= a + (part + b));
}

proof fn lemma_parts(
    runtime: RuntimeModel,
    image: Seq<char>,
    m: MountsModel,
    env_passthrough: Seq<Seq<char>>,
    extra_env: Seq<(Seq<char>, Seq<char>)>,
    network: NetworkMode,
    name: Seq<char>,
    dc: DevcontainerRuntimeModel,
    host: HostModel,
)
    ensures
        ({
            let labels = container::selinux(runtime.kind, host.linux);
            let cmd = run_command(runtime, image, m, env_passthrough, extra_env, network, name, dc, host);
            &&& stands_at(cmd, 0, seq![runtime.bin, "run"@, "--rm"@, "-it"@, "--name"@, name])
            &&& exists|i: int| stands_at(cmd, i, mapping_args(runtime.kind, dc, host.uid_gid))
            &&& exists|i: int| stands_at(cmd, i, named_user_args(runtime.kind, dc, host.uid_gid, m.container_home))
            &&& exists|i: int| stands_at(cmd, i, own_volumes(m, host, labels))
            &&& exists|i: int| stands_at(cmd, i, agent_volume(m, host))
            &&& exists|i: int| stands_at(cmd, i, auth_volumes(m.agent_auth, host, labels))
            &&& exists|i: int| stands_at(cmd, i, config_volumes(dc.mounts, labels))
            &&& exists|i: int|
                stands_at(
                    cmd,
                    i,
                    env_args(host.identity) + env_args(extra_env) + env_args(dc.env) + each("-e"@, env_passthrough),
                )
            &&& exists|i: int| stands_at(cmd, i, granted_args(dc))
            &&& exists|i: int| stands_at(cmd, i, port_args(dc.ports))
            &&& exists|i: int| stands_at(cmd, i, dc.run_args)
            &&& exists|i: int| stands_at(cmd, i, network_args(network))
            &&& exists|i: int| stands_at(cmd, i, tail_args(m, dc, image))
        }),
{
    let labels = container::selinux(runtime.kind, host.linux);
    let cmd = run_command(runtime, image, m, env_passthrough, extra_env, network, name, dc, host);
    let a0 = seq![runtime.bin, "run"@, "--rm"@, "-it"@, "--name"@, name];
    let p0 = mapping_args(runtime.kind, dc, host.uid_gid);
    let p1 = named_user_args(runtime.kind, dc, host.uid_gid, m.container_home);
    let p2 = own_volumes(m, host, labels);
    let p3 = agent_volume(m, host);
    let p4 = auth_volumes(m.agent_auth, host, labels);
    let p5 = config_volumes(dc.mounts, labels);
    let p6 = env_args(host.identity) + env_args(extra_env) + env_args(dc.env) + each("-e"@, env_passthrough);
    let p7 = granted_args(dc);
    let p8 = port_args(dc.ports);
    let p9 = dc.run_args;
    let p10 = network_args(network);
    let p11 = tail_args(m, dc, image);
    let a1 = a0 + p0;
    let a2 = a1 + p1;
    let a3 = a2 + p2;
    let a4 = a3 + p3;
    let a5 = a4 + p4;
    let a6 = a5 + p5;
    let a7 = a6 + p6;
    let a8 = a7 + p7;
    let a9 = a8 + p8;
    let a10 = a9 + p9;
    let a11 = a10 + p10;
    let a12 = a11 + p11;
    assert(((a6 + env_args(host.identity) + env_args(extra_env)) + env_args(dc.env)) + each("-e"@, env_passthrough) =~= a7);
    assert(cmd == a12);
    let b12 = Seq::<Seq<char>>::empty();
    assert(cmd =~= a12 + b12);
    lemma_middle(a11, p11, b12);
    let b11 = p11 + b12;
    lemma_middle(a10, p10, b11);
    let b10 = p10 + b11;
    lemma_middle(a9, p9, b10);
    let b9 = p9 + b10;
    lemma_middle(a8, p8, b9);
    let b8 = p8 + b9;
    lemma_middle(a7, p7, b8);
    let b7 = p7 + b8;
    lemma_middle(a6, p6, b7);
    let b6 = p6 + b7;
    lemma_middle(a5, p5, b6);
    let b5 = p5 + b6;
    lemma_middle(a4, p4, b5);
    let b4 = p4 + b5;
    lemma_middle(a3, p3, b4);
    let b3 = p3 + b4;
    lemma_middle(a2, p2, b3);
    let b2 = p2 + b3;
    lemma_middle(a1, p1, b2);
    let b1 = p1 + b2;
    lemma_middle(a0, p0, b1);
    let b0 = p0 + b1;
    assert(cmd.subrange(0, 6) =~= a0);
}

/// The session container is started by the runtime's `run`, removed when it ends, attached to the
/// terminal, and carries the session's name.
#[verifier::rlimit(40)]
pub proof fn law_the_container_is_named_and_removed(
    runtime: RuntimeModel,
    image: Seq<char>,
    m: MountsModel,
    env_passthrough: Seq<Seq<char>>,
    extra_env: Seq<(Seq<char>, Seq<char>)>,
    network: NetworkMode,
    name: Seq<char>,
    dc: DevcontainerRuntimeModel,
    host: HostModel,
)
    ensures
        ({
            let cmd = run_command(runtime, image, m, env_passthrough, extra_env, network, name, dc, host);
            &&& cmd.len() > 6
            &&& cmd[0] == runtime.bin
            &&& cmd[1] == "run"@
            &&& cmd[2] == "--rm"@
            &&& cmd[3] == "-it"@
            &&& cmd[4] == "--name"@
            &&& cmd[5] == name
        }),
{
    lemma_parts(runtime, image, m, env_passthrough, extra_env, network, name, dc, host);
    let cmd = run_command(runtime, image, m, env_passthrough, extra_env, network, name, dc, host);
    let a = seq![runtime.bin, "run"@, "--rm"@, "-it"@, "--name"@, name];
    assert forall|k: int| 0 <= k < 6 implies cmd[k] == a[k] by {
        assert(cmd.subrange(0, 6)[k] == cmd[k]);
    }
}

/// Every session mounts its worktree and its repository at their own paths, both writable. A colocated
/// git directory is mounted the same way.
#[verifier::rlimit(40)]
pub proof fn law_the_work_is_mounted_writable(
    runtime: RuntimeModel,
    image: Seq<char>,
    m: MountsModel,
    env_passthrough: Seq<Seq<char>>,
    extra_env: Seq<(Seq<char>, Seq<char>)>,
    network: NetworkMode,
    name: Seq<char>,
    dc: DevcontainerRuntimeModel,
    host: HostModel,
)
    ensures
        ({
            let cmd = run_command(runtime, image, m, env_passthrough, extra_env, network, name, dc, host);
            let z = label(runtime, host);
            &&& has_flag(cmd, "-v"@, m.worktree_host + ":"@ + m.worktree_host + ":rw"@ + z)
            &&& has_flag(cmd, "-v"@, m.vcs_host + ":"@ + m.vcs_host + ":rw"@ + z)
            &&& m.colocated_git_host matches Some(git) ==> has_flag(cmd, "-v"@, git + ":"@ + git + ":rw"@ + z)
        }),
{
    lemma_parts(runtime, image, m, env_passthrough, extra_env, network, name, dc, host);
    let cmd = run_command(runtime, image, m, env_passthrough, extra_env, network, name, dc, host);
    let labels = container::selinux(runtime.kind, host.linux);
    lemma_own(m, host, labels);
    lemma_flags_of_part(cmd, own_volumes(m, host, labels));
}

/// The user's git configuration and SSH directory are mounted into the container's home, read-only, where
/// they exist. A session's own mounts are these and those of its work, and no more.
#[verifier::rlimit(40)]
pub proof fn law_the_users_files_are_mounted_read_only(
    runtime: RuntimeModel,
    image: Seq<char>,
    m: MountsModel,
    env_passthrough: Seq<Seq<char>>,
    extra_env: Seq<(Seq<char>, Seq<char>)>,
    network: NetworkMode,
    name: Seq<char>,
    dc: DevcontainerRuntimeModel,
    host: HostModel,
)
    ensures
        ({
            let cmd = run_command(runtime, image, m, env_passthrough, extra_env, network, name, dc, host);
            let z = label(runtime, host);
            let own = own_volumes(m, host, runtime.kind == RuntimeKind::Podman && host.linux);
            &&& host.existing.contains(m.gitconfig_host) ==> has_flag(
                cmd,
                "-v"@,
                m.gitconfig_host + ":"@ + m.container_home + "/.gitconfig:ro"@ + z,
            )
            &&& host.existing.contains(m.ssh_host) ==> has_flag(
                cmd,
                "-v"@,
                m.ssh_host + ":"@ + m.container_home + "/.ssh:ro"@ + z,
            )
            &&& own.len() == 4 + twice(m.colocated_git_host is Some) + twice(
                host.existing.contains(m.gitconfig_host),
            ) + twice(host.existing.contains(m.ssh_host))
        }),
{
    lemma_parts(runtime, image, m, env_passthrough, extra_env, network, name, dc, host);
    let cmd = run_command(runtime, image, m, env_passthrough, extra_env, network, name, dc, host);
    let labels = container::selinux(runtime.kind, host.linux);
    lemma_own(m, host, labels);
    lemma_flags_of_part(cmd, own_volumes(m, host, labels));
}

/// Two words where there is a flag, none where there is not.
pub open spec fn twice(present: bool) -> int {
    if present {
        2
    } else {
        0
    }
}

proof fn lemma_own(m: MountsModel, host: HostModel, labels: bool)
    ensures
        ({
            let own = own_volumes(m, host, labels);
            let z = if labels {
                ",z"@
            } else {
                ""@
            };
            &&& has_flag(own, "-v"@, m.worktree_host + ":"@ + m.worktree_host + ":rw"@ + z)
            &&& has_flag(own, "-v"@, m.vcs_host + ":"@ + m.vcs_host + ":rw"@ + z)
            &&& m.colocated_git_host matches Some(git) ==> has_flag(own, "-v"@, git + ":"@ + git + ":rw"@ + z)
            &&& host.existing.contains(m.gitconfig_host) ==> has_flag(
                own,
                "-v"@,
                m.gitconfig_host + ":"@ + m.container_home + "/.gitconfig:ro"@ + z,
            )
            &&& host.existing.contains(m.ssh_host) ==> has_flag(
                own,
                "-v"@,
                m.ssh_host + ":"@ + m.container_home + "/.ssh:ro"@ + z,
            )
            &&& own.len() == 4 + twice(m.colocated_git_host is Some) + twice(
                host.existing.contains(m.gitconfig_host),
            ) + twice(host.existing.contains(m.ssh_host))
        }),
{
    let own = own_volumes(m, host, labels);
    let n = own.len() as int;
    let z = if labels {
        ",z"@
    } else {
        ""@
    };
    lemma_mode_text(m.worktree_host, m.worktree_host, labels);
    lemma_mode_text(m.vcs_host, m.vcs_host, labels);
    assert(own[0] == "-v"@ && own[1] == m.worktree_host + ":"@ + m.worktree_host + ":rw"@ + z);
    assert(own[2] == "-v"@ && own[3] == m.vcs_host + ":"@ + m.vcs_host + ":rw"@ + z);
    match m.colocated_git_host {
        Some(git) => {
            lemma_mode_text(git, git, labels);
            assert(own[4] == "-v"@ && own[5] == git + ":"@ + git + ":rw"@ + z);
        },
        None => {},
    }
    let s = twice(host.existing.contains(m.ssh_host));
    if host.existing.contains(m.gitconfig_host) {
        let target = m.container_home + "/.gitconfig"@;
        lemma_mode_text(m.gitconfig_host, target, labels);
        reveal_strlit("/.gitconfig");
        reveal_strlit(":ro");
        reveal_strlit("/.gitconfig:ro");
        assert("/.gitconfig:ro"@ =~= "/.gitconfig"@ + ":ro"@);
        let g = m.gitconfig_host + ":"@ + m.container_home + "/.gitconfig:ro"@ + z;
        assert(g =~= m.gitconfig_host + ":"@ + target + ":ro"@ + z);
        assert(own[n - s - 2] == "-v"@ && own[n - s - 1] == g);
    }
    if host.existing.contains(m.ssh_host) {
        let target = m.container_home + "/.ssh"@;
        lemma_mode_text(m.ssh_host, target, labels);
        reveal_strlit("/.ssh");
        reveal_strlit(":ro");
        reveal_strlit("/.ssh:ro");
        assert("/.ssh:ro"@ =~= "/.ssh"@ + ":ro"@);
        let g = m.ssh_host + ":"@ + m.container_home + "/.ssh:ro"@ + z;
        assert(g =~= m.ssh_host + ":"@ + target + ":ro"@ + z);
        assert(own[n - 2] == "-v"@ && own[n - 1] == g);
    }
}

/// What a mount reads with its mode and its label written out.
pub open spec fn written_mount(source: Seq<char>, target: Seq<char>, read_only: bool, labels: bool) -> Seq<char> {
    source + ":"@ + target + (if read_only {
        ":ro"@
    } else {
        ":rw"@
    }) + (if labels {
        ",z"@
    } else {
        ""@
    })
}

pub proof fn lemma_mode_text(source: Seq<char>, target: Seq<char>, labels: bool)
    ensures
        container::mount_text(source, target, MountMode::ReadWrite, labels) == written_mount(
            source,
            target,
            false,
            labels,
        ),
        container::mount_text(source, target, MountMode::ReadOnly, labels) == written_mount(
            source,
            target,
            true,
            labels,
        ),
{
    reveal_strlit(":");
    reveal_strlit("rw");
    reveal_strlit("ro");
    reveal_strlit(":rw");
    reveal_strlit(":ro");
    assert(":rw"@ =~= ":"@ + "rw"@);
    assert(":ro"@ =~= ":"@ + "ro"@);
    assert(container::mount_text(source, target, MountMode::ReadWrite, labels) =~= written_mount(
        source,
        target,
        false,
        labels,
    ));
    assert(container::mount_text(source, target, MountMode::ReadOnly, labels) =~= written_mount(
        source,
        target,
        true,
        labels,
    ));
}

/// The agent's SSH socket is mounted at its own path where it exists, writable and never relabelled, and
/// the container is told where it is.
#[verifier::rlimit(40)]
pub proof fn law_the_ssh_agent_is_forwarded(
    runtime: RuntimeModel,
    image: Seq<char>,
    m: MountsModel,
    env_passthrough: Seq<Seq<char>>,
    extra_env: Seq<(Seq<char>, Seq<char>)>,
    network: NetworkMode,
    name: Seq<char>,
    dc: DevcontainerRuntimeModel,
    host: HostModel,
)
    ensures
        ({
            let cmd = run_command(runtime, image, m, env_passthrough, extra_env, network, name, dc, host);
            &&& m.ssh_agent_sock matches Some(sock) ==> host.existing.contains(sock) ==> has_flag(
                cmd,
                "-v"@,
                sock + ":"@ + sock + ":rw"@,
            ) && has_flag(cmd, "-e"@, "SSH_AUTH_SOCK="@ + sock)
            &&& m.ssh_agent_sock is None ==> agent_volume(m, host).len() == 0
            &&& m.ssh_agent_sock matches Some(sock) ==> !host.existing.contains(sock) ==> agent_volume(m, host).len()
                == 0
        }),
{
    lemma_parts(runtime, image, m, env_passthrough, extra_env, network, name, dc, host);
    let cmd = run_command(runtime, image, m, env_passthrough, extra_env, network, name, dc, host);
    let labels = container::selinux(runtime.kind, host.linux);
    lemma_agent(m, host);
    lemma_flags_of_part(cmd, agent_volume(m, host));
}

proof fn lemma_agent(m: MountsModel, host: HostModel)
    ensures
        m.ssh_agent_sock matches Some(sock) ==> host.existing.contains(sock) ==> has_flag(
            agent_volume(m, host),
            "-v"@,
            sock + ":"@ + sock + ":rw"@,
        ) && has_flag(agent_volume(m, host), "-e"@, "SSH_AUTH_SOCK="@ + sock),
        m.ssh_agent_sock is None ==> agent_volume(m, host).len() == 0,
        m.ssh_agent_sock matches Some(sock) ==> !host.existing.contains(sock) ==> agent_volume(m, host).len() == 0,
{
    match m.ssh_agent_sock {
        Some(sock) => {
            if host.existing.contains(sock) {
                let a = agent_volume(m, host);
                lemma_mode_text(sock, sock, false);
                reveal_strlit("");
                assert(sock + ":"@ + sock + ":rw"@ + ""@ =~= sock + ":"@ + sock + ":rw"@);
                assert(a[0] == "-v"@ && a[1] == sock + ":"@ + sock + ":rw"@);
                assert(a[2] == "-e"@ && a[3] == "SSH_AUTH_SOCK="@ + sock);
            }
        },
        None => {},
    }
}

/// Each credential of the agent that exists on the host is mounted where the agent looks for it, in the
/// mode it asks for. Each mount of the config that has a source is mounted too, and only a bind mount is
/// relabelled.
#[verifier::rlimit(40)]
pub proof fn law_credentials_and_config_mounts_are_mounted(
    runtime: RuntimeModel,
    image: Seq<char>,
    m: MountsModel,
    env_passthrough: Seq<Seq<char>>,
    extra_env: Seq<(Seq<char>, Seq<char>)>,
    network: NetworkMode,
    name: Seq<char>,
    dc: DevcontainerRuntimeModel,
    host: HostModel,
)
    ensures
        ({
            let cmd = run_command(runtime, image, m, env_passthrough, extra_env, network, name, dc, host);
            let labels = runtime.kind == RuntimeKind::Podman && host.linux;
            &&& forall|k: int|
                0 <= k < m.agent_auth.len() && host.existing.contains((#[trigger] m.agent_auth[k]).host_path)
                    ==> has_flag(
                    cmd,
                    "-v"@,
                    written_mount(
                        m.agent_auth[k].host_path,
                        m.agent_auth[k].container_path,
                        m.agent_auth[k].mode == MountMode::ReadOnly,
                        labels,
                    ),
                )
            &&& forall|k: int|
                0 <= k < dc.mounts.len() && (#[trigger] dc.mounts[k]).source is Some ==> has_flag(
                    cmd,
                    "-v"@,
                    written_mount(
                        dc.mounts[k].source->0,
                        dc.mounts[k].target,
                        dc.mounts[k].read_only,
                        labels && dc.mounts[k].kind == "bind"@,
                    ),
                )
        }),
{
    lemma_parts(runtime, image, m, env_passthrough, extra_env, network, name, dc, host);
    let cmd = run_command(runtime, image, m, env_passthrough, extra_env, network, name, dc, host);
    let labels = container::selinux(runtime.kind, host.linux);
    lemma_auth_flags(m.agent_auth, host, labels);
    lemma_config_flags(dc.mounts, labels);
    lemma_flags_of_part(cmd, auth_volumes(m.agent_auth, host, labels));
    lemma_flags_of_part(cmd, config_volumes(dc.mounts, labels));
}

proof fn lemma_auth_flags(auth: Seq<AuthMountModel>, host: HostModel, labels: bool)
    ensures
        forall|k: int|
            0 <= k < auth.len() && host.existing.contains((#[trigger] auth[k]).host_path) ==> has_flag(
                auth_volumes(auth, host, labels),
                "-v"@,
                written_mount(
                    auth[k].host_path,
                    auth[k].container_path,
                    auth[k].mode == MountMode::ReadOnly,
                    labels,
                ),
            ),
    decreases auth.len(),
{
    if auth.len() > 0 {
        let front = auth.drop_last();
        let rest = auth_volumes(front, host, labels);
        lemma_auth_flags(front, host, labels);
        assert forall|k: int|
            0 <= k < auth.len() && host.existing.contains((#[trigger] auth[k]).host_path) implies has_flag(
            auth_volumes(auth, host, labels),
            "-v"@,
            written_mount(auth[k].host_path, auth[k].container_path, auth[k].mode == MountMode::ReadOnly, labels),
        ) by {
            let a = auth[k];
            let w = written_mount(a.host_path, a.container_path, a.mode == MountMode::ReadOnly, labels);
            lemma_mode_text(a.host_path, a.container_path, labels);
            if k < front.len() {
                assert(front[k] == a);
                if host.has_path(auth.last().host_path) {
                    let l = auth.last();
                    lemma_flag_left(
                        rest,
                        super::volume(l.host_path, l.container_path, l.mode, labels),
                        "-v"@,
                        w,
                    );
                } else {
                    assert(auth_volumes(auth, host, labels) =~= rest);
                }
            } else {
                lemma_one_flag("-v"@, w);
                lemma_flag_right(rest, flag("-v"@, w), "-v"@, w);
            }
        }
    }
}

proof fn lemma_config_flags(ms: Seq<NormalizedMountModel>, labels: bool)
    ensures
        forall|k: int|
            0 <= k < ms.len() && (#[trigger] ms[k]).source is Some ==> has_flag(
                config_volumes(ms, labels),
                "-v"@,
                written_mount(ms[k].source->0, ms[k].target, ms[k].read_only, labels && ms[k].kind == "bind"@),
            ),
    decreases ms.len(),
{
    if ms.len() > 0 {
        let front = ms.drop_last();
        let rest = config_volumes(front, labels);
        lemma_config_flags(front, labels);
        assert forall|k: int| 0 <= k < ms.len() && (#[trigger] ms[k]).source is Some implies has_flag(
            config_volumes(ms, labels),
            "-v"@,
            written_mount(ms[k].source->0, ms[k].target, ms[k].read_only, labels && ms[k].kind == "bind"@),
        ) by {
            let c = ms[k];
            let w = written_mount(c.source->0, c.target, c.read_only, labels && c.kind == "bind"@);
            lemma_mode_text(c.source->0, c.target, labels && c.kind == "bind"@);
            if k < front.len() {
                assert(front[k] == c);
                lemma_flag_left(rest, config_volume(ms.last(), labels), "-v"@, w);
            } else {
                lemma_one_flag("-v"@, w);
                lemma_flag_right(rest, flag("-v"@, w), "-v"@, w);
            }
        }
    }
}

/// What a variable that is set reads on the command line.
pub open spec fn assignments(env: Seq<(Seq<char>, Seq<char>)>) -> Seq<Seq<char>> {
    Seq::new(env.len(), |k: int| env[k].0 + "="@ + env[k].1)
}

/// Every variable is passed with its value: the host's identity, then what the session adds, then what
/// the config sets, and after them the variables to pass through, as they are written. Where two name
/// the same variable the later one is the later flag.
#[verifier::rlimit(40)]
pub proof fn law_variables_are_passed_in_order(
    runtime: RuntimeModel,
    image: Seq<char>,
    m: MountsModel,
    env_passthrough: Seq<Seq<char>>,
    extra_env: Seq<(Seq<char>, Seq<char>)>,
    network: NetworkMode,
    name: Seq<char>,
    dc: DevcontainerRuntimeModel,
    host: HostModel,
)
    ensures
        ({
            let cmd = run_command(runtime, image, m, env_passthrough, extra_env, network, name, dc, host);
            exists|i: int|
                flags_at(
                    cmd,
                    i,
                    "-e"@,
                    assignments(host.identity) + assignments(extra_env) + assignments(dc.env) + env_passthrough,
                )
        }),
{
    lemma_parts(runtime, image, m, env_passthrough, extra_env, network, name, dc, host);
    let cmd = run_command(runtime, image, m, env_passthrough, extra_env, network, name, dc, host);
    let labels = container::selinux(runtime.kind, host.linux);
    let e = env_args(host.identity) + env_args(extra_env) + env_args(dc.env) + each("-e"@, env_passthrough);
    let i = choose|i: int| stands_at(cmd, i, e);
    let all = assignments(host.identity) + assignments(extra_env) + assignments(dc.env) + env_passthrough;
    lemma_env_is_each(host.identity);
    lemma_env_is_each(extra_env);
    lemma_env_is_each(dc.env);
    let a = assignments(host.identity);
    let b = assignments(extra_env);
    let c = assignments(dc.env);
    lemma_each_of_concat("-e"@, a, b);
    lemma_each_of_concat("-e"@, a + b, c);
    lemma_each_of_concat("-e"@, a + b + c, env_passthrough);
    lemma_each_at("-e"@, all);
    lemma_flags_within(cmd, i, e, 0, "-e"@, all);
    assert(flags_at(cmd, i + 0, "-e"@, all));
}

proof fn lemma_env_is_each(env: Seq<(Seq<char>, Seq<char>)>)
    ensures
        env_args(env) == each("-e"@, assignments(env)),
    decreases env.len(),
{
    if env.len() > 0 {
        lemma_env_is_each(env.drop_last());
        assert(assignments(env).drop_last() =~= assignments(env.drop_last()));
    }
}

proof fn lemma_each_of_concat(name: Seq<char>, a: Seq<Seq<char>>, b: Seq<Seq<char>>)
    ensures
        each(name, a + b) == each(name, a) + each(name, b),
    decreases b.len(),
{
    if b.len() == 0 {
        assert(a + b =~= a);
        assert(each(name, a) =~= each(name, a) + each(name, b));
    } else {
        assert((a + b).drop_last() =~= a + b.drop_last());
        lemma_each_of_concat(name, a, b.drop_last());
        assert(each(name, a + b) =~= each(name, a) + each(name, b));
    }
}

/// What was granted is asked of the runtime: an init process, privileges, each capability and each
/// security option, and nothing that was not.
#[verifier::rlimit(40)]
pub proof fn law_what_is_granted_is_asked_for(
    runtime: RuntimeModel,
    image: Seq<char>,
    m: MountsModel,
    env_passthrough: Seq<Seq<char>>,
    extra_env: Seq<(Seq<char>, Seq<char>)>,
    network: NetworkMode,
    name: Seq<char>,
    dc: DevcontainerRuntimeModel,
    host: HostModel,
)
    ensures
        ({
            let cmd = run_command(runtime, image, m, env_passthrough, extra_env, network, name, dc, host);
            &&& dc.init ==> cmd.contains("--init"@)
            &&& dc.privileged ==> cmd.contains("--privileged"@)
            &&& forall|k: int|
                0 <= k < dc.cap_add.len() ==> has_flag(cmd, "--cap-add"@, #[trigger] dc.cap_add[k])
            &&& forall|k: int|
                0 <= k < dc.security_opt.len() ==> has_flag(cmd, "--security-opt"@, #[trigger] dc.security_opt[k])
            &&& granted_args(dc).len() == 2 * dc.cap_add.len() + 2 * dc.security_opt.len() + (if dc.init {
                1int
            } else {
                0
            }) + (if dc.privileged {
                1int
            } else {
                0
            })
        }),
{
    lemma_parts(runtime, image, m, env_passthrough, extra_env, network, name, dc, host);
    let cmd = run_command(runtime, image, m, env_passthrough, extra_env, network, name, dc, host);
    let labels = container::selinux(runtime.kind, host.linux);
    lemma_granted(dc);
    lemma_flags_of_part(cmd, granted_args(dc));
    lemma_words_of_part(cmd, granted_args(dc));
}

proof fn lemma_granted(dc: DevcontainerRuntimeModel)
    ensures
        ({
            let g = granted_args(dc);
            &&& dc.init ==> g.contains("--init"@)
            &&& dc.privileged ==> g.contains("--privileged"@)
            &&& forall|k: int| 0 <= k < dc.cap_add.len() ==> has_flag(g, "--cap-add"@, #[trigger] dc.cap_add[k])
            &&& forall|k: int|
                0 <= k < dc.security_opt.len() ==> has_flag(g, "--security-opt"@, #[trigger] dc.security_opt[k])
            &&& g.len() == 2 * dc.cap_add.len() + 2 * dc.security_opt.len() + (if dc.init {
                1int
            } else {
                0
            }) + (if dc.privileged {
                1int
            } else {
                0
            })
        }),
{
    let g = granted_args(dc);
    let caps = each("--cap-add"@, dc.cap_add);
    let opts = each("--security-opt"@, dc.security_opt);
    lemma_each_at("--cap-add"@, dc.cap_add);
    lemma_each_at("--security-opt"@, dc.security_opt);
    let i = if dc.init {
        seq!["--init"@]
    } else {
        Seq::empty()
    };
    let p = if dc.privileged {
        seq!["--privileged"@]
    } else {
        Seq::empty()
    };
    assert(g == i + p + caps + opts);
    if dc.init {
        assert(g[0] == "--init"@);
    }
    if dc.privileged {
        assert(g[i.len() as int] == "--privileged"@);
    }
    assert forall|k: int| 0 <= k < dc.cap_add.len() implies has_flag(g, "--cap-add"@, #[trigger] dc.cap_add[k]) by {
        lemma_flag_of_flags(caps, 0, "--cap-add"@, dc.cap_add, k);
        lemma_flag_right(i + p, caps, "--cap-add"@, dc.cap_add[k]);
        lemma_flag_left(i + p + caps, opts, "--cap-add"@, dc.cap_add[k]);
    }
    assert forall|k: int| 0 <= k < dc.security_opt.len() implies has_flag(
        g,
        "--security-opt"@,
        #[trigger] dc.security_opt[k],
    ) by {
        lemma_flag_of_flags(opts, 0, "--security-opt"@, dc.security_opt, k);
        lemma_flag_right(i + p + caps, opts, "--security-opt"@, dc.security_opt[k]);
    }
}

/// Each port of the session's own container is published, on the loopback address and under its own
/// number, and each complete publish specification is handed on as it is written. A port of another
/// service is not published here.
#[verifier::rlimit(40)]
pub proof fn law_own_ports_are_published(
    runtime: RuntimeModel,
    image: Seq<char>,
    m: MountsModel,
    env_passthrough: Seq<Seq<char>>,
    extra_env: Seq<(Seq<char>, Seq<char>)>,
    network: NetworkMode,
    name: Seq<char>,
    dc: DevcontainerRuntimeModel,
    host: HostModel,
)
    ensures
        ({
            let cmd = run_command(runtime, image, m, env_passthrough, extra_env, network, name, dc, host);
            &&& forall|k: int|
                0 <= k < dc.ports.len() ==> match #[trigger] dc.ports[k] {
                    ForwardedPortModel::Own(p) => has_flag(
                        cmd,
                        "-p"@,
                        "127.0.0.1:"@ + text::decimal(p as nat) + ":"@ + text::decimal(p as nat),
                    ),
                    ForwardedPortModel::Published(s) => has_flag(cmd, "-p"@, s),
                    ForwardedPortModel::Service { .. } => true,
                }
            &&& (forall|k: int| 0 <= k < dc.ports.len() ==> #[trigger] dc.ports[k] is Service) ==> port_args(
                dc.ports,
            ).len() == 0
        }),
{
    lemma_parts(runtime, image, m, env_passthrough, extra_env, network, name, dc, host);
    let cmd = run_command(runtime, image, m, env_passthrough, extra_env, network, name, dc, host);
    let labels = container::selinux(runtime.kind, host.linux);
    lemma_port_flags(dc.ports);
    lemma_flags_of_part(cmd, port_args(dc.ports));
}

proof fn lemma_port_flags(ports: Seq<ForwardedPortModel>)
    ensures
        forall|k: int|
            0 <= k < ports.len() ==> match #[trigger] ports[k] {
                ForwardedPortModel::Own(p) => has_flag(
                    port_args(ports),
                    "-p"@,
                    "127.0.0.1:"@ + text::decimal(p as nat) + ":"@ + text::decimal(p as nat),
                ),
                ForwardedPortModel::Published(s) => has_flag(port_args(ports), "-p"@, s),
                ForwardedPortModel::Service { .. } => true,
            },
        (forall|k: int| 0 <= k < ports.len() ==> #[trigger] ports[k] is Service) ==> port_args(ports).len() == 0,
    decreases ports.len(),
{
    if ports.len() > 0 {
        let front = ports.drop_last();
        let rest = port_args(front);
        let last = match ports.last().spec_text() {
            Some(s) => flag("-p"@, s),
            None => Seq::empty(),
        };
        lemma_port_flags(front);
        assert(port_args(ports) == rest + last);
        assert forall|k: int| 0 <= k < ports.len() implies match #[trigger] ports[k] {
            ForwardedPortModel::Own(p) => has_flag(
                port_args(ports),
                "-p"@,
                "127.0.0.1:"@ + text::decimal(p as nat) + ":"@ + text::decimal(p as nat),
            ),
            ForwardedPortModel::Published(s) => has_flag(port_args(ports), "-p"@, s),
            ForwardedPortModel::Service { .. } => true,
        } by {
            match ports[k].spec_text() {
                Some(s) => {
                    if k < front.len() {
                        assert(front[k] == ports[k]);
                        lemma_flag_left(rest, last, "-p"@, s);
                    } else {
                        lemma_one_flag("-p"@, s);
                        lemma_flag_right(rest, last, "-p"@, s);
                    }
                },
                None => {},
            }
        }
        if forall|k: int| 0 <= k < ports.len() ==> #[trigger] ports[k] is Service {
            assert forall|k: int| 0 <= k < front.len() implies #[trigger] front[k] is Service by {
                assert(ports[k] is Service);
            }
            assert(ports[ports.len() - 1] is Service);
        }
    }
}

/// The command ends in the working directory and the image: the directory that the config names, or the
/// worktree. Before them stand the raw flags of the config, and between the two the network is switched
/// off where that is asked for.
#[verifier::rlimit(40)]
pub proof fn law_the_image_comes_last(
    runtime: RuntimeModel,
    image: Seq<char>,
    m: MountsModel,
    env_passthrough: Seq<Seq<char>>,
    extra_env: Seq<(Seq<char>, Seq<char>)>,
    network: NetworkMode,
    name: Seq<char>,
    dc: DevcontainerRuntimeModel,
    host: HostModel,
)
    ensures
        ({
            let cmd = run_command(runtime, image, m, env_passthrough, extra_env, network, name, dc, host);
            let n = cmd.len() as int;
            let off = twice(network == NetworkMode::Off);
            &&& n >= 3 + off + dc.run_args.len()
            &&& cmd[n - 1] == image
            &&& cmd[n - 3] == "--workdir"@
            &&& dc.workdir matches Some(dir) ==> cmd[n - 2] == dir
            &&& dc.workdir is None ==> cmd[n - 2] == m.worktree_host
            &&& network == NetworkMode::Off ==> cmd[n - 5] == "--network"@ && cmd[n - 4] == "none"@
            &&& cmd.subrange(n - 3 - off - dc.run_args.len(), n - 3 - off) == dc.run_args
        }),
{
    let t = tail_args(m, dc, image);
    let h = super::head_args(runtime, m, env_passthrough, extra_env, name, dc, host);
    lemma_tail(h, dc.run_args, network_args(network), t);
}

proof fn lemma_tail(h: Seq<Seq<char>>, raw: Seq<Seq<char>>, net: Seq<Seq<char>>, t: Seq<Seq<char>>)
    ensures
        ({
            let cmd = h + raw + net + t;
            let n = cmd.len() as int;
            let b = n - t.len() - net.len();
            &&& cmd.subrange(b - raw.len(), b) == raw
            &&& forall|k: int| 0 <= k < net.len() ==> cmd[b + k] == #[trigger] net[k]
            &&& forall|k: int| 0 <= k < t.len() ==> cmd[n - t.len() + k] == #[trigger] t[k]
        }),
{
    let cmd = h + raw + net + t;
    let b = cmd.len() - t.len() - net.len();
    assert(cmd.subrange(b - raw.len(), b) =~= raw);
}

/// The host's user is mapped: Podman maps it into the user namespace, and Docker runs as its numbers
/// where the config names no user, or names one that is to take the host's numbers. A user that the
/// config names is otherwise run as by name. Under the host's numbers the container's home is named
/// instead.
#[verifier::rlimit(40)]
pub proof fn law_the_session_runs_as_its_user(
    runtime: RuntimeModel,
    image: Seq<char>,
    m: MountsModel,
    env_passthrough: Seq<Seq<char>>,
    extra_env: Seq<(Seq<char>, Seq<char>)>,
    network: NetworkMode,
    name: Seq<char>,
    dc: DevcontainerRuntimeModel,
    host: HostModel,
)
    ensures
        ({
            let cmd = run_command(runtime, image, m, env_passthrough, extra_env, network, name, dc, host);
            let numbers_of = |id: (u32, u32)| text::decimal(id.0 as nat) + ":"@ + text::decimal(id.1 as nat);
            &&& runtime.kind == RuntimeKind::Podman ==> (host.uid_gid matches Some(id) ==> cmd.contains(
                "--userns=keep-id:uid="@ + text::decimal(id.0 as nat) + ",gid="@ + text::decimal(id.1 as nat),
            ))
            &&& runtime.kind == RuntimeKind::Docker && dc.drop_to is None && dc.user is None ==> (
            host.uid_gid matches Some(id) ==> has_flag(cmd, "--user"@, numbers_of(id)))
            &&& runtime.kind == RuntimeKind::Docker && dc.drop_to is None && dc.update_remote_user_uid ==> (
            host.uid_gid matches Some(id) ==> has_flag(cmd, "--user"@, numbers_of(id)) && (dc.user is Some ==> has_flag(
                cmd,
                "-e"@,
                "HOME="@ + m.container_home,
            )))
            &&& dc.user matches Some(user) ==> (runtime.kind == RuntimeKind::Podman || dc.drop_to is Some
                || !dc.update_remote_user_uid || host.uid_gid is None) ==> has_flag(cmd, "--user"@, user)
            &&& dc.user is None && host.uid_gid is None ==> mapping_args(runtime.kind, dc, host.uid_gid).len() == 0
                && named_user_args(runtime.kind, dc, host.uid_gid, m.container_home).len() == 0
        }),
{
    lemma_parts(runtime, image, m, env_passthrough, extra_env, network, name, dc, host);
    let cmd = run_command(runtime, image, m, env_passthrough, extra_env, network, name, dc, host);
    let labels = container::selinux(runtime.kind, host.linux);
    let map_part = mapping_args(runtime.kind, dc, host.uid_gid);
    let named = named_user_args(runtime.kind, dc, host.uid_gid, m.container_home);
    lemma_flags_of_part(cmd, map_part);
    lemma_flags_of_part(cmd, named);
    lemma_words_of_part(cmd, map_part);
    match host.uid_gid {
        Some(id) => {
            let numbers = text::decimal(id.0 as nat) + ":"@ + text::decimal(id.1 as nat);
            lemma_one_flag("--user"@, numbers);
            if map_part.len() > 0 {
                assert(map_part.contains(map_part[0]));
            }
        },
        None => {},
    }
    match dc.user {
        Some(user) => {
            lemma_one_flag("--user"@, user);
        },
        None => {},
    }
    lemma_one_flag("-e"@, "HOME="@ + m.container_home);
}

// ----------------------------------------------------------------------------------------------
// Ports
// ----------------------------------------------------------------------------------------------

/// What a publish specification binds on the host: the address and the port that it names, every address
/// where it names a port alone, and nothing where the runtime picks the port.
pub proof fn law_a_specification_binds_what_it_names(address: Seq<char>, host: u16, inner: Seq<char>)
    requires
        !inner.contains(':'),
    ensures
        super::binding(address + ":"@ + text::decimal(host as nat) + ":"@ + inner) == Some((address, host)),
        super::binding(text::decimal(host as nat) + ":"@ + inner) == Some(("0.0.0.0"@, host)),
        super::binding(inner) is None,
{
    reveal_strlit(":");
    let d = text::decimal(host as nat);
    text::law_decimals_are_read_back(host as nat);
    assert(text::is_digit(d[0]));
    let rest = address + ":"@ + d;
    lemma_last_colon(rest, inner);
    lemma_last_colon(d, inner);
    assert forall|j: int| 0 <= j < d.len() implies d[j] != ':' by {
        assert(text::is_digit(d[j]));
    }
    assert(!d.contains(':'));
    lemma_last_colon(address, d);
    text::lemma_last_end_is(d, ':', 0);
    assert forall|j: int| 0 <= j < inner.len() implies inner[j] != ':' by {
        assert(inner.contains(inner[j]));
    }
    text::lemma_last_end_is(inner, ':', 0);
}

proof fn lemma_last_colon(front: Seq<char>, back: Seq<char>)
    requires
        !back.contains(':'),
    ensures
        text::split_last(front + ":"@ + back, ':') == Some((front, back)),
{
    reveal_strlit(":");
    let s = front + ":"@ + back;
    assert forall|j: int| front.len() + 1 <= j < s.len() implies s[j] != ':' by {
        assert(s[j] == back[j - front.len() - 1]);
        assert(back.contains(back[j - front.len() - 1]));
    }
    text::lemma_last_end_is(s, ':', front.len() as int + 1);
    assert(s.subrange(0, front.len() as int) =~= front);
    assert(s.subrange(front.len() as int + 1, s.len() as int) =~= back);
}

/// Whether a port binds something on the host that is taken.
pub open spec fn is_busy(p: ForwardedPortModel, taken: Seq<(Seq<char>, u16)>) -> bool {
    match p.spec_text() {
        Some(s) => match super::binding(s) {
            Some(b) => taken.contains(b),
            None => false,
        },
        None => false,
    }
}

/// Of some ports exactly those are dropped whose place on the host is taken, and the number of each is
/// reported. The others stay, in order.
pub proof fn law_taken_ports_are_dropped(ports: Seq<ForwardedPortModel>, taken: Seq<(Seq<char>, u16)>)
    ensures
        super::free_ports(ports, taken) == ports.filter(|p: ForwardedPortModel| !is_busy(p, taken)),
        super::taken_ports(ports, taken) == ports.filter(|p: ForwardedPortModel| is_busy(p, taken)).map_values(
            |p: ForwardedPortModel| (super::binding(p.spec_text()->0)->0).1,
        ),
    decreases ports.len(),
{
    reveal(Seq::filter);
    let number = |p: ForwardedPortModel| (super::binding(p.spec_text()->0)->0).1;
    let busy = |p: ForwardedPortModel| is_busy(p, taken);
    if ports.len() > 0 {
        law_taken_ports_are_dropped(ports.drop_last(), taken);
        let front = ports.drop_last().filter(busy);
        assert(front.push(ports.last()).map_values(number) =~= front.map_values(number).push(number(ports.last())));
    }
    assert(super::taken_ports(ports, taken) =~= ports.filter(busy).map_values(number));
}

// ----------------------------------------------------------------------------------------------
// Nothing else
// ----------------------------------------------------------------------------------------------

/// The credentials that exist on the host.
pub open spec fn existing_credentials(m: MountsModel, host: HostModel) -> Seq<AuthMountModel> {
    m.agent_auth.filter(|a: AuthMountModel| host.existing.contains(a.host_path))
}

/// The mounts that have a source.
pub open spec fn sourced_mounts(dc: DevcontainerRuntimeModel) -> Seq<NormalizedMountModel> {
    dc.mounts.filter(|m: NormalizedMountModel| m.source is Some)
}

/// The ports that are not another service's.
pub open spec fn ports_here(dc: DevcontainerRuntimeModel) -> Seq<ForwardedPortModel> {
    dc.ports.filter(|p: ForwardedPortModel| !(p is Service))
}

proof fn lemma_auth_len(auth: Seq<AuthMountModel>, host: HostModel, labels: bool)
    ensures
        auth_volumes(auth, host, labels).len() == 2 * auth.filter(
            |a: AuthMountModel| host.existing.contains(a.host_path),
        ).len(),
    decreases auth.len(),
{
    reveal(Seq::filter);
    if auth.len() > 0 {
        lemma_auth_len(auth.drop_last(), host, labels);
    }
}

proof fn lemma_config_len(ms: Seq<NormalizedMountModel>, labels: bool)
    ensures
        config_volumes(ms, labels).len() == 2 * ms.filter(|m: NormalizedMountModel| m.source is Some).len(),
    decreases ms.len(),
{
    reveal(Seq::filter);
    if ms.len() > 0 {
        lemma_config_len(ms.drop_last(), labels);
    }
}

proof fn lemma_port_len(ports: Seq<ForwardedPortModel>)
    ensures
        port_args(ports).len() == 2 * ports.filter(|p: ForwardedPortModel| !(p is Service)).len(),
    decreases ports.len(),
{
    reveal(Seq::filter);
    if ports.len() > 0 {
        lemma_port_len(ports.drop_last());
    }
}

proof fn lemma_env_len(env: Seq<(Seq<char>, Seq<char>)>)
    ensures
        env_args(env).len() == 2 * env.len(),
    decreases env.len(),
{
    if env.len() > 0 {
        lemma_env_len(env.drop_last());
    }
}

proof fn lemma_each_len(name: Seq<char>, values: Seq<Seq<char>>)
    ensures
        each(name, values).len() == 2 * values.len(),
    decreases values.len(),
{
    if values.len() > 0 {
        lemma_each_len(name, values.drop_last());
    }
}

/// The words that say as whom the container runs: one where Podman maps the host's user, two where Docker
/// runs as its numbers, and two for a user that the config names.
pub open spec fn user_words(runtime: RuntimeModel, dc: DevcontainerRuntimeModel, host: HostModel) -> int {
    (if host.uid_gid is None {
        0int
    } else if runtime.kind == RuntimeKind::Podman {
        1
    } else if dc.drop_to is None && (dc.user is None || dc.update_remote_user_uid) {
        2
    } else {
        0
    }) + twice(dc.user is Some)
}

/// One word where there is one, none where there is not.
pub open spec fn once(present: bool) -> int {
    if present {
        1
    } else {
        0
    }
}

proof fn lemma_user_words(runtime: RuntimeModel, dc: DevcontainerRuntimeModel, host: HostModel, home: Seq<char>)
    ensures
        mapping_args(runtime.kind, dc, host.uid_gid).len() + named_user_args(
            runtime.kind,
            dc,
            host.uid_gid,
            home,
        ).len() == user_words(runtime, dc, host),
{
}

proof fn lemma_own_len(m: MountsModel, host: HostModel, labels: bool)
    ensures
        own_volumes(m, host, labels).len() == 4 + twice(m.colocated_git_host is Some) + twice(
            host.existing.contains(m.gitconfig_host),
        ) + twice(host.existing.contains(m.ssh_host)),
        agent_volume(m, host).len() == 2 * twice(
            m.ssh_agent_sock is Some && host.existing.contains(m.ssh_agent_sock->0),
        ),
{
}

proof fn lemma_granted_len(dc: DevcontainerRuntimeModel)
    ensures
        granted_args(dc).len() == once(dc.init) + once(dc.privileged) + 2 * dc.cap_add.len() + 2 * dc.security_opt.len(),
{
    lemma_each_len("--cap-add"@, dc.cap_add);
    lemma_each_len("--security-opt"@, dc.security_opt);
}

/// The run command holds two words for each mount, each variable, each port and each option that there is,
/// the raw flags of the config, and nothing else.
#[verifier::rlimit(60)]
#[verifier::spinoff_prover]
pub proof fn law_nothing_else_is_asked_for(
    runtime: RuntimeModel,
    image: Seq<char>,
    m: MountsModel,
    env_passthrough: Seq<Seq<char>>,
    extra_env: Seq<(Seq<char>, Seq<char>)>,
    network: NetworkMode,
    name: Seq<char>,
    dc: DevcontainerRuntimeModel,
    host: HostModel,
)
    ensures
        ({
            let cmd = run_command(runtime, image, m, env_passthrough, extra_env, network, name, dc, host);
            let sock = m.ssh_agent_sock is Some && host.existing.contains(m.ssh_agent_sock->0);
            let own = 4 + twice(m.colocated_git_host is Some) + twice(host.existing.contains(m.gitconfig_host)) + twice(
                host.existing.contains(m.ssh_host),
            ) + 2 * twice(sock);
            let mounts = existing_credentials(m, host).len() + sourced_mounts(dc).len();
            let variables = host.identity.len() + extra_env.len() + dc.env.len() + env_passthrough.len();
            let options = dc.cap_add.len() + dc.security_opt.len() + ports_here(dc).len();
            cmd.len() == 9 + user_words(runtime, dc, host) + own + 2 * mounts + 2 * variables + 2 * options + once(
                dc.init,
            ) + once(dc.privileged) + dc.run_args.len() + twice(network == NetworkMode::Off)
        }),
{
    let labels = container::selinux(runtime.kind, host.linux);
    let a = mapping_args(runtime.kind, dc, host.uid_gid);
    let b = named_user_args(runtime.kind, dc, host.uid_gid, m.container_home);
    let c = own_volumes(m, host, labels);
    let d = agent_volume(m, host);
    let e = auth_volumes(m.agent_auth, host, labels);
    let f = config_volumes(dc.mounts, labels);
    let g = env_args(host.identity);
    let h = env_args(extra_env);
    let i = env_args(dc.env);
    let j = each("-e"@, env_passthrough);
    let k = granted_args(dc);
    let l = port_args(dc.ports);
    let first = seq![runtime.bin, "run"@, "--rm"@, "-it"@, "--name"@, name];
    lemma_user_words(runtime, dc, host, m.container_home);
    lemma_own_len(m, host, labels);
    lemma_auth_len(m.agent_auth, host, labels);
    lemma_config_len(dc.mounts, labels);
    lemma_env_len(host.identity);
    lemma_env_len(extra_env);
    lemma_env_len(dc.env);
    lemma_each_len("-e"@, env_passthrough);
    lemma_granted_len(dc);
    lemma_port_len(dc.ports);
    let head = super::head_args(runtime, m, env_passthrough, extra_env, name, dc, host);
    assert(first.len() == 6);
    assert(head == first + a + b + c + d + e + f + g + h + i + j + k + l);
    assert(tail_args(m, dc, image).len() == 3);
    assert(network_args(network).len() == twice(network == NetworkMode::Off));
}

} // verus!
