//! Session containers: what is mounted, and the command that starts one.

pub mod auth;
pub mod entrypoint;
pub mod lifetime;
pub mod protection;
pub mod run;

pub use auth::{credentials_hint, preflight_agent_auth, resolve_credential_mounts, validate_agent_credentials};
pub use entrypoint::compose_entrypoint_command;
pub use lifetime::{
    exec_script, get_gh_token, inspect_container, read_gitconfig_value, remove_container, stop_container, GhOutput,
};
pub use protection::protected_env_names;
pub use run::{build_run_command, drop_busy_ports, host_binding, jj_identity_env};

use vstd::prelude::*;

use crate::config::{RuntimePreference, Vcs};
use crate::devcontainer::mount::{NormalizedMount, NormalizedMountModel};
use crate::devcontainer::port::{ForwardedPort, ForwardedPortModel};
use crate::devcontainer::snippet::UserEnvProbe;
use crate::duplicate::Duplicate;
use crate::error::{AmError, AmErrorModel};
use crate::path;
use crate::text;

verus! {

#[derive(Debug, Clone, Copy, PartialEq, Eq, Structural)]
pub enum RuntimeKind {
    Podman,
    Docker,
}

impl RuntimeKind {
    pub open spec fn name(self) -> Seq<char> {
        match self {
            RuntimeKind::Podman => "podman"@,
            RuntimeKind::Docker => "docker"@,
        }
    }

    pub fn to_string(&self) -> (r: String)
        ensures
            r@ == self.name(),
    {
        match self {
            RuntimeKind::Podman => "podman".to_owned(),
            RuntimeKind::Docker => "docker".to_owned(),
        }
    }
}

/// A container runtime and where it is installed.
#[derive(Debug, PartialEq)]
pub struct ContainerRuntime {
    pub kind: RuntimeKind,
    pub bin: String,
}

/// What a [`ContainerRuntime`] stands for.
pub struct RuntimeModel {
    pub kind: RuntimeKind,
    pub bin: Seq<char>,
}

impl DeepView for ContainerRuntime {
    type V = RuntimeModel;

    open spec fn deep_view(&self) -> RuntimeModel {
        RuntimeModel {
            kind: self.kind,
            bin: self.bin.deep_view(),
        }
    }
}

#[derive(Debug, Clone, Copy, PartialEq, Eq, Structural)]
pub enum MountMode {
    ReadOnly,
    ReadWrite,
}

/// A mount that carries an agent's credentials.
#[derive(Debug, PartialEq)]
pub struct AgentAuthMount {
    pub host_path: String,
    pub container_path: String,
    pub mode: MountMode,
}

/// What a [`AgentAuthMount`] stands for.
pub struct AuthMountModel {
    pub host_path: Seq<char>,
    pub container_path: Seq<char>,
    pub mode: MountMode,
}

impl DeepView for AgentAuthMount {
    type V = AuthMountModel;

    open spec fn deep_view(&self) -> AuthMountModel {
        AuthMountModel {
            host_path: self.host_path.deep_view(),
            container_path: self.container_path.deep_view(),
            mode: self.mode,
        }
    }
}

/// What an agent needs to authenticate inside the container.
#[derive(Debug, PartialEq)]
pub struct AgentAuth {
    pub mounts: Vec<AgentAuthMount>,
    pub env: Vec<(String, String)>,
}

/// What a [`AgentAuth`] stands for.
pub struct AuthModel {
    pub mounts: Seq<AuthMountModel>,
    pub env: Seq<(Seq<char>, Seq<char>)>,
}

impl DeepView for AgentAuth {
    type V = AuthModel;

    open spec fn deep_view(&self) -> AuthModel {
        AuthModel {
            mounts: self.mounts.deep_view(),
            env: self.env.deep_view(),
        }
    }
}

/// The host paths a session sees.
#[derive(Debug, PartialEq)]
pub struct ContainerMounts {
    pub worktree_host: String,
    /// The `.git` or `.jj` directory.
    pub vcs_host: String,
    /// The `.git` directory of a repository that has both.
    pub colocated_git_host: Option<String>,
    pub gitconfig_host: String,
    pub ssh_host: String,
    /// The host's SSH agent socket; `None` disables forwarding.
    pub ssh_agent_sock: Option<String>,
    pub agent_auth: Vec<AgentAuthMount>,
    /// The home directory inside the container.
    pub container_home: String,
}

/// What a [`ContainerMounts`] stands for.
pub struct MountsModel {
    pub worktree_host: Seq<char>,
    pub vcs_host: Seq<char>,
    pub colocated_git_host: Option<Seq<char>>,
    pub gitconfig_host: Seq<char>,
    pub ssh_host: Seq<char>,
    pub ssh_agent_sock: Option<Seq<char>>,
    pub agent_auth: Seq<AuthMountModel>,
    pub container_home: Seq<char>,
}

impl DeepView for ContainerMounts {
    type V = MountsModel;

    open spec fn deep_view(&self) -> MountsModel {
        MountsModel {
            worktree_host: self.worktree_host.deep_view(),
            vcs_host: self.vcs_host.deep_view(),
            colocated_git_host: self.colocated_git_host.deep_view(),
            gitconfig_host: self.gitconfig_host.deep_view(),
            ssh_host: self.ssh_host.deep_view(),
            ssh_agent_sock: self.ssh_agent_sock.deep_view(),
            agent_auth: self.agent_auth.deep_view(),
            container_home: self.container_home.deep_view(),
        }
    }
}

/// What a devcontainer config adds to the command line. Everything here has passed the trust gate.
#[derive(Debug, PartialEq)]
pub struct DevcontainerRuntime {
    pub env: Vec<(String, String)>,
    pub mounts: Vec<NormalizedMount>,
    pub init: bool,
    pub privileged: bool,
    pub cap_add: Vec<String>,
    pub security_opt: Vec<String>,
    pub run_args: Vec<String>,
    /// The working directory, where it is not the worktree.
    pub workdir: Option<String>,
    /// Feature entrypoint scripts, which run before the agent.
    pub entrypoints: Vec<String>,
    /// The user to become for the agent, where the container starts as another.
    pub drop_to: Option<String>,
    /// Whether to map the container user onto the host's.
    pub update_remote_user_uid: bool,
    pub user_env_probe: UserEnvProbe,
    pub ports: Vec<ForwardedPort>,
    /// The user to run as.
    pub user: Option<String>,
}

/// What a [`DevcontainerRuntime`] stands for.
pub struct DevcontainerRuntimeModel {
    pub env: Seq<(Seq<char>, Seq<char>)>,
    pub mounts: Seq<NormalizedMountModel>,
    pub init: bool,
    pub privileged: bool,
    pub cap_add: Seq<Seq<char>>,
    pub security_opt: Seq<Seq<char>>,
    pub run_args: Seq<Seq<char>>,
    pub workdir: Option<Seq<char>>,
    pub entrypoints: Seq<Seq<char>>,
    pub drop_to: Option<Seq<char>>,
    pub update_remote_user_uid: bool,
    pub user_env_probe: UserEnvProbe,
    pub ports: Seq<ForwardedPortModel>,
    pub user: Option<Seq<char>>,
}

impl DeepView for DevcontainerRuntime {
    type V = DevcontainerRuntimeModel;

    open spec fn deep_view(&self) -> DevcontainerRuntimeModel {
        DevcontainerRuntimeModel {
            env: self.env.deep_view(),
            mounts: self.mounts.deep_view(),
            init: self.init,
            privileged: self.privileged,
            cap_add: self.cap_add.deep_view(),
            security_opt: self.security_opt.deep_view(),
            run_args: self.run_args.deep_view(),
            workdir: self.workdir.deep_view(),
            entrypoints: self.entrypoints.deep_view(),
            drop_to: self.drop_to.deep_view(),
            update_remote_user_uid: self.update_remote_user_uid,
            user_env_probe: self.user_env_probe,
            ports: self.ports.deep_view(),
            user: self.user.deep_view(),
        }
    }
}

/// What is known of the host a session starts on.
#[derive(Debug, PartialEq)]
pub struct HostFacts {
    pub linux: bool,
    /// The user and group that `am` runs as.
    pub uid_gid: Option<(u32, u32)>,
    /// Host paths that exist.
    pub existing: Vec<String>,
    /// The jj identity, as [`run::jj_identity_env`] gives it.
    pub identity: Vec<(String, String)>,
}

/// What a [`HostFacts`] stands for.
pub struct HostModel {
    pub linux: bool,
    pub uid_gid: Option<(u32, u32)>,
    pub existing: Seq<Seq<char>>,
    pub identity: Seq<(Seq<char>, Seq<char>)>,
}

impl DeepView for HostFacts {
    type V = HostModel;

    open spec fn deep_view(&self) -> HostModel {
        HostModel {
            linux: self.linux,
            uid_gid: self.uid_gid,
            existing: self.existing.deep_view(),
            identity: self.identity.deep_view(),
        }
    }
}

impl Default for DevcontainerRuntime {
    fn default() -> (r: Self)
        ensures
            r.deep_view() == plain_runtime(),
    {
        let r = DevcontainerRuntime {
            env: Vec::new(),
            mounts: Vec::new(),
            init: false,
            privileged: false,
            cap_add: Vec::new(),
            security_opt: Vec::new(),
            run_args: Vec::new(),
            workdir: None,
            entrypoints: Vec::new(),
            drop_to: None,
            update_remote_user_uid: false,
            user_env_probe: UserEnvProbe::Off,
            ports: Vec::new(),
            user: None,
        };
        assert(r.deep_view().env =~= plain_runtime().env);
        assert(r.deep_view().mounts =~= plain_runtime().mounts);
        assert(r.deep_view().cap_add =~= plain_runtime().cap_add);
        assert(r.deep_view().security_opt =~= plain_runtime().security_opt);
        assert(r.deep_view().run_args =~= plain_runtime().run_args);
        assert(r.deep_view().entrypoints =~= plain_runtime().entrypoints);
        assert(r.deep_view().ports =~= plain_runtime().ports);
        r
    }
}

/// A runtime that adds nothing.
pub open spec fn plain_runtime() -> DevcontainerRuntimeModel {
    DevcontainerRuntimeModel {
        env: Seq::empty(),
        mounts: Seq::empty(),
        init: false,
        privileged: false,
        cap_add: Seq::empty(),
        security_opt: Seq::empty(),
        run_args: Seq::empty(),
        workdir: None,
        entrypoints: Seq::empty(),
        drop_to: None,
        update_remote_user_uid: false,
        user_env_probe: UserEnvProbe::Off,
        ports: Seq::empty(),
        user: None,
    }
}

impl DevcontainerRuntime {
    /// The settings where there is no devcontainer config: an init process reaps what the agent leaves
    /// behind, and nothing else is added.
    pub fn image_mode() -> (r: Self)
        ensures
            r.deep_view() == (DevcontainerRuntimeModel { init: true, ..plain_runtime() }),
    {
        let mut r = DevcontainerRuntime::default();
        r.init = true;
        r
    }
}

impl HostModel {
    pub open spec fn has_path(self, p: Seq<char>) -> bool {
        self.existing.contains(p)
    }
}

impl HostFacts {
    /// Whether a host path exists.
    pub fn has_path(&self, p: &str) -> (r: bool)
        ensures
            r == self.deep_view().has_path(p@),
    {
        crate::devcontainer::merge::contains_text(&self.existing, p)
    }
}

impl Duplicate for AgentAuthMount {
    fn duplicate(&self) -> (r: Self) {
        AgentAuthMount {
            host_path: self.host_path.clone(),
            container_path: self.container_path.clone(),
            mode: self.mode,
        }
    }
}

/// The home directory of a user inside a container.
pub open spec fn home_of(user: Seq<char>, override_home: Option<Seq<char>>) -> Seq<char> {
    match override_home {
        Some(p) => p,
        None => if user == "root"@ {
            "/root"@
        } else {
            "/home/"@ + user
        },
    }
}

/// Derives the home directory of a user inside a container. The root user has one of its own.
pub fn container_home(user: &str, override_home: Option<&str>) -> (r: String)
    ensures
        r@ == home_of(user@, override_home.deep_view()),
{
    match override_home {
        Some(p) => p.to_owned(),
        None => if text::eq(user, "root") {
            "/root".to_owned()
        } else {
            text::cat2("/home/", user)
        },
    }
}

// ----------------------------------------------------------------------------------------------
// Choosing a runtime
// ----------------------------------------------------------------------------------------------

/// The runtime for a preference, given where each is installed.
pub open spec fn runtime_for(
    preference: RuntimePreference,
    podman: Option<Seq<char>>,
    docker: Option<Seq<char>>,
) -> Result<RuntimeModel, AmErrorModel> {
    match preference {
        RuntimePreference::Auto => match (podman, docker) {
            (Some(bin), _) => Ok(RuntimeModel { kind: RuntimeKind::Podman, bin }),
            (None, Some(bin)) => Ok(RuntimeModel { kind: RuntimeKind::Docker, bin }),
            (None, None) => Err(AmErrorModel::ContainerRuntimeNotFound),
        },
        RuntimePreference::Podman => match podman {
            Some(bin) => Ok(RuntimeModel { kind: RuntimeKind::Podman, bin }),
            None => Err(AmErrorModel::RequestedContainerRuntimeNotFound("podman"@)),
        },
        RuntimePreference::Docker => match docker {
            Some(bin) => Ok(RuntimeModel { kind: RuntimeKind::Docker, bin }),
            None => Err(AmErrorModel::RequestedContainerRuntimeNotFound("docker"@)),
        },
    }
}

/// Picks the runtime: the one asked for, or Podman before Docker.
pub fn detect_runtime(preference: RuntimePreference, podman: Option<String>, docker: Option<String>) -> (r: Result<
    ContainerRuntime,
    AmError,
>)
    ensures
        crate::error::outcome(r) == runtime_for(preference, podman.deep_view(), docker.deep_view()),
{
    match preference {
        RuntimePreference::Auto => match (podman, docker) {
            (Some(bin), _) => Ok(ContainerRuntime { kind: RuntimeKind::Podman, bin }),
            (None, Some(bin)) => Ok(ContainerRuntime { kind: RuntimeKind::Docker, bin }),
            (None, None) => Err(AmError::ContainerRuntimeNotFound),
        },
        RuntimePreference::Podman => match podman {
            Some(bin) => Ok(ContainerRuntime { kind: RuntimeKind::Podman, bin }),
            None => Err(AmError::RequestedContainerRuntimeNotFound("podman".to_owned())),
        },
        RuntimePreference::Docker => match docker {
            Some(bin) => Ok(ContainerRuntime { kind: RuntimeKind::Docker, bin }),
            None => Err(AmError::RequestedContainerRuntimeNotFound("docker".to_owned())),
        },
    }
}

/// The binary for a program: the one a variable names, where it is set, and otherwise the one on the
/// search path. A variable that names nothing that exists hides the search path.
pub fn find_bin(named: Option<(String, bool)>, on_path: Option<String>) -> (r: Option<String>)
    ensures
        r == (match named {
            Some((p, found)) => if found {
                Some(p)
            } else {
                None
            },
            None => on_path,
        }),
{
    match named {
        Some((p, found)) => if found {
            Some(p)
        } else {
            None
        },
        None => on_path,
    }
}

// ----------------------------------------------------------------------------------------------
// Mounts
// ----------------------------------------------------------------------------------------------

/// Whether bind mounts are relabelled for SELinux.
pub open spec fn selinux(kind: RuntimeKind, linux: bool) -> bool {
    linux && kind == RuntimeKind::Podman
}

/// Whether bind mounts are relabelled for SELinux.
pub fn use_selinux_labels(runtime: &ContainerRuntime, linux: bool) -> (r: bool)
    ensures
        r == selinux(runtime.kind, linux),
{
    linux && runtime.kind == RuntimeKind::Podman
}

/// A mount in the `-v` syntax.
pub open spec fn mount_text(host: Seq<char>, container: Seq<char>, mode: MountMode, selinux: bool) -> Seq<char> {
    host + ":"@ + container + ":"@ + (match mode {
        MountMode::ReadOnly => "ro"@,
        MountMode::ReadWrite => "rw"@,
    }) + (if selinux {
        ",z"@
    } else {
        ""@
    })
}

/// Writes a mount in the `-v` syntax.
pub fn mount_str(host: &str, container: &str, mode: MountMode, selinux: bool) -> (r: String)
    ensures
        r@ == mount_text(host@, container@, mode, selinux),
{
    let m = match mode {
        MountMode::ReadOnly => "ro",
        MountMode::ReadWrite => "rw",
    };
    let z = if selinux {
        ",z"
    } else {
        ""
    };
    text::cat6(host, ":", container, ":", m, z)
}

/// The worktree of a session.
pub open spec fn worktree_of(repo_root: Seq<char>, slug: Seq<char>) -> Seq<char> {
    path::joined(path::joined(path::joined(repo_root, ".am"@), "worktrees"@), slug)
}

/// The mounts of a session.
pub open spec fn mounts_for(
    slug: Seq<char>,
    repo_root: Seq<char>,
    vcs: Vcs,
    agent_auth: Seq<AuthMountModel>,
    gitconfig: Option<Seq<char>>,
    ssh: Option<Seq<char>>,
    ssh_auth_sock: Option<Seq<char>>,
    user: Seq<char>,
    home_override: Option<Seq<char>>,
    home: Seq<char>,
    state_dir: Option<Seq<char>>,
    git_is_dir: bool,
) -> MountsModel {
    MountsModel {
        worktree_host: worktree_of(repo_root, slug),
        vcs_host: path::joined(
            repo_root,
            match vcs {
                Vcs::Git => ".git"@,
                Vcs::Jj => ".jj"@,
            },
        ),
        colocated_git_host: if vcs == Vcs::Jj && git_is_dir {
            Some(path::joined(repo_root, ".git"@))
        } else {
            None
        },
        gitconfig_host: match (gitconfig, state_dir) {
            (Some(p), _) => p,
            (None, Some(d)) => path::joined(d, "gitconfig"@),
            (None, None) => path::joined(path::joined(repo_root, ".am"@), "gitconfig"@),
        },
        ssh_host: match ssh {
            Some(p) => p,
            None => path::joined(home, ".ssh"@),
        },
        ssh_agent_sock: crate::config::nonempty(ssh_auth_sock),
        agent_auth,
        container_home: home_of(user, home_override),
    }
}

/// What [`resolve_mounts`] needs to know of the host.
#[derive(Debug, PartialEq)]
pub struct MountFacts {
    /// `$HOME`.
    pub home: Option<String>,
    /// `$SSH_AUTH_SOCK`.
    pub ssh_auth_sock: Option<String>,
    /// The global state directory.
    pub state_dir: Option<String>,
    /// Whether the repository has a `.git` directory.
    pub git_is_dir: bool,
}

pub open spec fn no_home() -> AmErrorModel {
    AmErrorModel::ContainerError(
        "HOME environment variable not set — cannot resolve user home directory for mounts"@,
    )
}

/// Resolves the mounts of a session. Without a home directory there is nowhere to look.
pub fn resolve_mounts(
    slug: &str,
    repo_root: &str,
    vcs: &Vcs,
    agent_auth: Vec<AgentAuthMount>,
    gitconfig: Option<&str>,
    ssh: Option<&str>,
    ssh_agent: bool,
    container_user: &str,
    home_override: Option<&str>,
    facts: &MountFacts,
) -> (r: Result<ContainerMounts, AmError>)
    ensures
        crate::error::outcome(r) == (match facts.home.deep_view() {
            None => Err::<MountsModel, AmErrorModel>(no_home()),
            Some(home) => Ok(
                mounts_for(
                    slug@,
                    repo_root@,
                    *vcs,
                    agent_auth.deep_view(),
                    gitconfig.deep_view(),
                    ssh.deep_view(),
                    if ssh_agent {
                        facts.ssh_auth_sock.deep_view()
                    } else {
                        None
                    },
                    container_user@,
                    home_override.deep_view(),
                    home,
                    facts.state_dir.deep_view(),
                    facts.git_is_dir,
                ),
            ),
        }),
{
    let home = match &facts.home {
        Some(h) => h.as_str(),
        None => {
            return Err(
                AmError::ContainerError(
                    "HOME environment variable not set — cannot resolve user home directory for mounts".to_owned(),
                ),
            );
        },
    };
    let am = path::join(repo_root, ".am");
    let worktrees = path::join(am.as_str(), "worktrees");
    let vcs_dir = match vcs {
        Vcs::Git => ".git",
        Vcs::Jj => ".jj",
    };
    let colocated_git_host = if *vcs == Vcs::Jj && facts.git_is_dir {
        Some(path::join(repo_root, ".git"))
    } else {
        None
    };
    let gitconfig_host = match (gitconfig, &facts.state_dir) {
        (Some(p), _) => p.to_owned(),
        (None, Some(d)) => path::join(d.as_str(), "gitconfig"),
        (None, None) => path::join(am.as_str(), "gitconfig"),
    };
    let ssh_host = match ssh {
        Some(p) => p.to_owned(),
        None => path::join(home, ".ssh"),
    };
    let ssh_agent_sock = if ssh_agent {
        match &facts.ssh_auth_sock {
            Some(s) => if s.as_str().is_empty() {
                None
            } else {
                Some(s.clone())
            },
            None => None,
        }
    } else {
        None
    };
    Ok(
        ContainerMounts {
            worktree_host: path::join(worktrees.as_str(), slug),
            vcs_host: path::join(repo_root, vcs_dir),
            colocated_git_host,
            gitconfig_host,
            ssh_host,
            ssh_agent_sock,
            agent_auth,
            container_home: container_home(container_user, home_override),
        },
    )
}

// ----------------------------------------------------------------------------------------------
// What holds of every session
// ----------------------------------------------------------------------------------------------

/// A runtime that is asked for is the one that is used, and where it is not installed that is an error.
/// Where none is asked for, Podman is preferred to Docker.
pub proof fn law_the_runtime_asked_for_is_used(
    preference: RuntimePreference,
    podman: Option<Seq<char>>,
    docker: Option<Seq<char>>,
)
    ensures
        ({
            let r = runtime_for(preference, podman, docker);
            let with_podman = preference == RuntimePreference::Podman || preference == RuntimePreference::Auto
                && podman is Some;
            let with_docker = preference == RuntimePreference::Docker || preference == RuntimePreference::Auto
                && podman is None;
            &&& with_podman && podman is Some ==> r is Ok && r->Ok_0.kind == RuntimeKind::Podman && r->Ok_0.bin
                == podman->0
            &&& with_podman && podman is None ==> r is Err
            &&& with_docker && docker is Some ==> r is Ok && r->Ok_0.kind == RuntimeKind::Docker && r->Ok_0.bin
                == docker->0
            &&& with_docker && docker is None ==> r is Err
        }),
{
}

/// A user's home is the one that is given, or else root's own or the one below `/home` that has the user's
/// name.
pub proof fn law_every_user_has_a_home(user: Seq<char>, given: Option<Seq<char>>)
    ensures
        given matches Some(p) ==> home_of(user, given) == p,
        given is None && user == "root"@ ==> home_of(user, given) == "/root"@,
        given is None && user != "root"@ ==> home_of(user, given) == "/home/"@ + user,
{
}

/// What a session mounts: its worktree below `.am/worktrees`, the directory of its version control, and
/// with it a colocated git directory; the git configuration that is named, or the one of the state
/// directory, or that of the repository; the SSH directory that is named, or the user's own; the agent's
/// socket where it is named; and the agent's credentials.
pub proof fn law_a_session_mounts_its_own(
    slug: Seq<char>,
    repo_root: Seq<char>,
    vcs: Vcs,
    agent_auth: Seq<AuthMountModel>,
    gitconfig: Option<Seq<char>>,
    ssh: Option<Seq<char>>,
    ssh_auth_sock: Option<Seq<char>>,
    user: Seq<char>,
    home_override: Option<Seq<char>>,
    home: Seq<char>,
    state_dir: Option<Seq<char>>,
    git_is_dir: bool,
)
    requires
        repo_root.len() > 0,
        repo_root.last() != '/',
        home.len() > 0,
        home.last() != '/',
        state_dir matches Some(d) ==> d.len() > 0 && d.last() != '/',
        slug.len() > 0,
        slug[0] != '/',
    ensures
        ({
            let m = mounts_for(
                slug,
                repo_root,
                vcs,
                agent_auth,
                gitconfig,
                ssh,
                ssh_auth_sock,
                user,
                home_override,
                home,
                state_dir,
                git_is_dir,
            );
            &&& m.worktree_host == repo_root + "/.am/worktrees/"@ + slug
            &&& vcs == Vcs::Git ==> m.vcs_host == repo_root + "/.git"@ && m.colocated_git_host is None
            &&& vcs == Vcs::Jj ==> m.vcs_host == repo_root + "/.jj"@
            &&& vcs == Vcs::Jj && git_is_dir ==> m.colocated_git_host == Some(repo_root + "/.git"@)
            &&& vcs == Vcs::Jj && !git_is_dir ==> m.colocated_git_host is None
            &&& gitconfig matches Some(p) ==> m.gitconfig_host == p
            &&& gitconfig is None ==> (state_dir matches Some(d) ==> m.gitconfig_host == d + "/gitconfig"@)
            &&& gitconfig is None && state_dir is None ==> m.gitconfig_host == repo_root + "/.am/gitconfig"@
            &&& ssh matches Some(p) ==> m.ssh_host == p
            &&& ssh is None ==> m.ssh_host == home + "/.ssh"@
            &&& ssh_auth_sock matches Some(s) ==> s.len() > 0 ==> m.ssh_agent_sock == Some(s)
            &&& ssh_auth_sock is None || ssh_auth_sock->0.len() == 0 ==> m.ssh_agent_sock is None
            &&& m.agent_auth == agent_auth
            &&& home_override matches Some(p) ==> m.container_home == p
            &&& home_override is None && user != "root"@ ==> m.container_home == "/home/"@ + user
        }),
{
    reveal_strlit("/");
    reveal_strlit(".am");
    reveal_strlit("worktrees");
    reveal_strlit("/.am/worktrees/");
    reveal_strlit(".git");
    reveal_strlit("/.git");
    reveal_strlit(".jj");
    reveal_strlit("/.jj");
    reveal_strlit("gitconfig");
    reveal_strlit("/gitconfig");
    reveal_strlit("/.am/gitconfig");
    reveal_strlit(".ssh");
    reveal_strlit("/.ssh");
    let a = repo_root + "/"@ + ".am"@;
    assert(a.last() == 'm');
    let w = a + "/"@ + "worktrees"@;
    assert(w.last() == 's');
    assert(w + "/"@ + slug =~= repo_root + "/.am/worktrees/"@ + slug);
    assert(repo_root + "/"@ + ".git"@ =~= repo_root + "/.git"@);
    assert(repo_root + "/"@ + ".jj"@ =~= repo_root + "/.jj"@);
    assert(a + "/"@ + "gitconfig"@ =~= repo_root + "/.am/gitconfig"@);
    assert(home + "/"@ + ".ssh"@ =~= home + "/.ssh"@);
    match state_dir {
        Some(d) => {
            assert(d + "/"@ + "gitconfig"@ =~= d + "/gitconfig"@);
        },
        None => {},
    }
}

} // verus!
