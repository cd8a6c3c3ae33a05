use am::config::{Config, NetworkMode, RuntimePreference, Vcs};
use am::container::{
    build_run_command, compose_entrypoint_command, container_home, credentials_hint, detect_runtime, drop_busy_ports,
    exec_script, get_gh_token, host_binding, inspect_container, jj_identity_env, preflight_agent_auth,
    protected_env_names, read_gitconfig_value, remove_container, resolve_credential_mounts, resolve_mounts,
    stop_container, validate_agent_credentials, AgentAuthMount, ContainerMounts, ContainerRuntime,
    DevcontainerRuntime, GhOutput, HostFacts, MountFacts, MountMode, RuntimeKind,
};
use am::container::lifetime::{command_failure, removed_note};
use am::devcontainer::{apply_trust, ForwardedPort, NormalizedMount, ResolvedConfig, UserEnvProbe};
use am::error::AmError;
use am::harness::{CredentialMount, EnvSource, Harness, Integration};
use am::strmap::StrMap;

const TMP: &str = "/tmp/t";

fn strings(items: &[&str]) -> Vec<String> {
    items.iter().map(|s| s.to_string()).collect()
}

fn pairs(items: &[(&str, &str)]) -> Vec<(String, String)> {
    items.iter().map(|(k, v)| (k.to_string(), v.to_string())).collect()
}

fn at(rel: &str) -> String {
    format!("{TMP}/{rel}")
}

fn make_mounts() -> ContainerMounts {
    ContainerMounts {
        worktree_host: at("worktrees/feat"),
        vcs_host: at(".git"),
        colocated_git_host: None,
        gitconfig_host: at(".gitconfig"),
        ssh_host: at(".ssh"),
        ssh_agent_sock: None,
        agent_auth: vec![],
        container_home: "/home/am".to_string(),
    }
}

fn host() -> HostFacts {
    HostFacts { linux: true, uid_gid: Some((1001, 1002)), existing: vec![], identity: vec![] }
}

fn host_with(existing: &[String]) -> HostFacts {
    HostFacts { existing: existing.to_vec(), ..host() }
}

fn host_known_as(name: &str, email: &str) -> HostFacts {
    HostFacts {
        existing: vec![at(".gitconfig")],
        identity: jj_identity_env(Some(name.to_string()), Some(email.to_string())),
        ..host()
    }
}

fn podman_runtime() -> ContainerRuntime {
    ContainerRuntime { kind: RuntimeKind::Podman, bin: "/usr/bin/podman".to_string() }
}

fn docker_runtime() -> ContainerRuntime {
    ContainerRuntime { kind: RuntimeKind::Docker, bin: "/usr/bin/docker".to_string() }
}

fn run(runtime: &ContainerRuntime, mounts: &ContainerMounts, dc: &DevcontainerRuntime, host: &HostFacts) -> Vec<String> {
    build_run_command(runtime, "ubuntu:25.10", mounts, &vec![], &vec![], &NetworkMode::Full, "am-feat", dc, host)
}

// Runtimes.

#[test]
fn detect_runtime_auto_finds_podman() {
    let rt = detect_runtime(RuntimePreference::Auto, Some(at("podman")), None).unwrap();
    assert_eq!(rt.kind, RuntimeKind::Podman);
    assert_eq!(rt.bin, at("podman"));
}

#[test]
fn detect_runtime_auto_falls_back_to_docker() {
    let rt = detect_runtime(RuntimePreference::Auto, None, Some(at("docker"))).unwrap();
    assert_eq!(rt.kind, RuntimeKind::Docker);
}

#[test]
fn detect_runtime_auto_errors_when_neither_found() {
    let err = detect_runtime(RuntimePreference::Auto, None, None).unwrap_err();
    assert_eq!(err, AmError::ContainerRuntimeNotFound);
    assert!(err.to_string().contains("Podman"));
}

#[test]
fn detect_runtime_explicit_podman_errors_when_not_found() {
    let err = detect_runtime(RuntimePreference::Podman, None, Some(at("docker"))).unwrap_err();
    assert!(err.to_string().to_lowercase().contains("podman"));
}

#[test]
fn detect_runtime_explicit_docker_errors_when_not_found() {
    let err = detect_runtime(RuntimePreference::Docker, Some(at("podman")), None).unwrap_err();
    assert!(err.to_string().to_lowercase().contains("docker"));
}

#[test]
fn detect_runtime_explicit_docker_finds_docker() {
    let rt = detect_runtime(RuntimePreference::Docker, None, Some(at("docker"))).unwrap();
    assert_eq!(rt.kind, RuntimeKind::Docker);
    assert_eq!(rt.bin, at("docker"));
}

#[test]
fn a_runtime_prints_as_its_command() {
    assert_eq!(RuntimeKind::Podman.to_string(), "podman");
    assert_eq!(RuntimeKind::Docker.to_string(), "docker");
}

// Mounts.

fn facts() -> MountFacts {
    MountFacts {
        home: Some(TMP.to_string()),
        ssh_auth_sock: None,
        state_dir: Some(at(".local/state/am")),
        git_is_dir: false,
    }
}

fn repo_mounts(vcs: Vcs, ssh_agent: bool, facts: &MountFacts) -> ContainerMounts {
    resolve_mounts("feat", &at("repo"), &vcs, vec![], None, None, ssh_agent, "am", None, facts).unwrap()
}

#[test]
fn resolve_mounts_git_paths() {
    let mounts = repo_mounts(Vcs::Git, false, &facts());
    assert_eq!(mounts.worktree_host, at("repo/.am/worktrees/feat"));
    assert_eq!(mounts.vcs_host, at("repo/.git"));
    assert_eq!(mounts.gitconfig_host, at(".local/state/am/gitconfig"));
    assert_eq!(mounts.ssh_host, at(".ssh"));
    assert!(mounts.agent_auth.is_empty());
}

#[test]
fn resolve_mounts_jj_colocated_sets_git_host() {
    let mounts = repo_mounts(Vcs::Jj, false, &MountFacts { git_is_dir: true, ..facts() });
    assert_eq!(mounts.colocated_git_host, Some(at("repo/.git")));
}

#[test]
fn resolve_mounts_jj_non_colocated_no_git_host() {
    let mounts = repo_mounts(Vcs::Jj, false, &facts());
    assert_eq!(mounts.colocated_git_host, None);
}

#[test]
fn resolve_mounts_picks_up_the_host_ssh_agent_socket() {
    let f = MountFacts { ssh_auth_sock: Some("/run/user/1000/keyring/ssh".to_string()), ..facts() };
    let mounts = repo_mounts(Vcs::Git, true, &f);
    assert_eq!(mounts.ssh_agent_sock, Some("/run/user/1000/keyring/ssh".to_string()));
}

#[test]
fn resolve_mounts_skips_the_ssh_agent_when_disabled() {
    let f = MountFacts { ssh_auth_sock: Some("/run/user/1000/keyring/ssh".to_string()), ..facts() };
    assert_eq!(repo_mounts(Vcs::Git, false, &f).ssh_agent_sock, None);
}

#[test]
fn resolve_mounts_tolerates_a_host_with_no_agent() {
    let f = MountFacts { ssh_auth_sock: Some(String::new()), ..facts() };
    assert_eq!(repo_mounts(Vcs::Git, true, &f).ssh_agent_sock, None);
}

#[test]
fn resolve_mounts_needs_a_home_directory() {
    let f = MountFacts { home: None, ..facts() };
    let err = resolve_mounts("feat", &at("repo"), &Vcs::Git, vec![], None, None, false, "am", None, &f).unwrap_err();
    assert_eq!(
        err,
        AmError::ContainerError(
            "HOME environment variable not set — cannot resolve user home directory for mounts".to_string()
        )
    );
}

#[test]
fn container_home_uses_root_for_the_root_user() {
    assert_eq!(container_home("root", None), "/root");
    assert_eq!(container_home("vscode", None), "/home/vscode");
    assert_eq!(container_home("vscode", Some("/custom")), "/custom");
}

// Ports.

#[test]
fn build_run_command_publishes_forwarded_ports_on_loopback() {
    let dc = DevcontainerRuntime {
        ports: vec![ForwardedPort::Own(3000), ForwardedPort::Service { service: "db".into(), port: 5432 }],
        ..DevcontainerRuntime::default()
    };
    let joined = run(&docker_runtime(), &make_mounts(), &dc, &host()).join(" ");
    assert!(joined.contains("-p 127.0.0.1:3000:3000"), "got: {joined}");
    assert!(!joined.contains("5432"), "a service port cannot be published here: {joined}");
}

#[test]
fn a_port_already_in_use_is_dropped_rather_than_failing_the_session() {
    let taken: u16 = 41000;
    let free: u16 = 41001;
    let mut ports = vec![
        ForwardedPort::Own(taken),
        ForwardedPort::Own(free),
        ForwardedPort::Published("9999".to_string()),
        ForwardedPort::Service { service: "db".into(), port: taken },
    ];
    let dropped = drop_busy_ports(&mut ports, &vec![("127.0.0.1".to_string(), taken)]);
    assert_eq!(dropped, vec![taken]);
    assert_eq!(
        ports,
        vec![
            ForwardedPort::Own(free),
            ForwardedPort::Published("9999".to_string()),
            ForwardedPort::Service { service: "db".into(), port: taken },
        ],
        "only the colliding published port should have been dropped"
    );
}

#[test]
fn the_host_half_of_a_publish_spec_is_read_the_way_the_runtime_reads_it() {
    assert_eq!(host_binding("127.0.0.1:3000:3000"), Some(("127.0.0.1".to_string(), 3000)));
    assert_eq!(host_binding("8080:80"), Some(("0.0.0.0".to_string(), 8080)));
    assert_eq!(host_binding("80"), None);
    assert_eq!(host_binding("8000-8010:8000-8010"), None);
}

// The command that starts a container.

#[test]
fn docker_maps_the_host_uid_even_when_a_user_is_named() {
    let dc = DevcontainerRuntime {
        user: Some("vscode".to_string()),
        update_remote_user_uid: true,
        ..DevcontainerRuntime::default()
    };
    let joined = run(&docker_runtime(), &make_mounts(), &dc, &host()).join(" ");
    assert!(joined.contains("--user 1001:1002"), "got: {joined}");
    assert!(joined.contains("-e HOME=/home/am"), "got: {joined}");
    assert!(!joined.contains("--user vscode"), "the two would contradict: {joined}");
}

#[test]
fn update_remote_user_uid_false_keeps_the_named_user() {
    let dc = DevcontainerRuntime {
        user: Some("vscode".to_string()),
        update_remote_user_uid: false,
        ..DevcontainerRuntime::default()
    };
    assert!(run(&docker_runtime(), &make_mounts(), &dc, &host()).join(" ").contains("--user vscode"));
}

#[test]
fn build_run_command_mounts_colocated_git_when_set() {
    let main_git = at("main/.git");
    let mut mounts = make_mounts();
    mounts.colocated_git_host = Some(main_git.clone());
    let joined =
        run(&docker_runtime(), &mounts, &DevcontainerRuntime::default(), &host_with(&[main_git.clone()])).join(" ");
    assert!(joined.contains(&main_git), "expected colocated git mount, got: {joined}");
}

#[test]
fn build_run_command_forwards_the_ssh_agent_at_the_host_path() {
    let sock = at("agent.sock");
    let mut mounts = make_mounts();
    mounts.ssh_agent_sock = Some(sock.clone());
    let joined =
        run(&podman_runtime(), &mounts, &DevcontainerRuntime::default(), &host_with(&[sock.clone()])).join(" ");
    assert!(joined.contains(&format!("{sock}:{sock}:rw")), "expected a read-write mount, got: {joined}");
    assert!(joined.contains(&format!("-e SSH_AUTH_SOCK={sock}")), "expected SSH_AUTH_SOCK, got: {joined}");
    assert!(!joined.contains(&format!("{sock}:rw,z")), "the agent socket must not be relabelled, got: {joined}");
}

#[test]
fn build_run_command_skips_a_stale_ssh_agent_socket() {
    let mut mounts = make_mounts();
    mounts.ssh_agent_sock = Some(at("gone.sock"));
    let cmd = run(&podman_runtime(), &mounts, &DevcontainerRuntime::default(), &host());
    assert!(!cmd.join(" ").contains("SSH_AUTH_SOCK"), "a missing socket must not be forwarded");
}

#[test]
fn build_run_command_includes_required_flags() {
    let worktree = at("worktrees/feat");
    let joined = run(&podman_runtime(), &make_mounts(), &DevcontainerRuntime::default(), &host()).join(" ");
    assert!(joined.contains("run"), "missing 'run'");
    assert!(joined.contains("--rm"));
    assert!(joined.contains("-it"));
    assert!(joined.contains("--name am-feat"));
    assert!(joined.contains(&worktree));
    assert!(joined.contains(&format!("--workdir {worktree}")));
    assert!(joined.contains("ubuntu:25.10"));
    assert!(!joined.contains("GIT_DIR"), "GIT_DIR should not be set");
    assert!(!joined.contains("GIT_WORK_TREE"), "GIT_WORK_TREE should not be set");
}

#[test]
fn build_run_command_includes_all_mounts() {
    let joined = run(
        &docker_runtime(),
        &make_mounts(),
        &DevcontainerRuntime::default(),
        &host_with(&[at(".gitconfig"), at(".ssh")]),
    )
    .join(" ");
    assert!(joined.contains(&at("worktrees/feat")), "missing worktree mount");
    assert!(joined.contains(&at(".git")), "missing vcs mount");
    assert!(joined.contains("/home/am/.gitconfig"));
    assert!(joined.contains("/home/am/.ssh"));
}

fn bind_mount(source: Option<&str>, target: &str, read_only: bool) -> NormalizedMount {
    NormalizedMount {
        source: source.map(|s| s.to_string()),
        target: target.to_string(),
        kind: "bind".to_string(),
        read_only,
    }
}

#[test]
fn build_run_command_drops_an_untrusted_devcontainer_bind_mount() {
    let mounts = make_mounts();
    let outside = at("outside");
    let resolved =
        ResolvedConfig { mounts: vec![bind_mount(Some(&outside), "/host-secret", false)], ..Default::default() };
    let dc = apply_trust(&resolved, &Config::default(), &mounts.worktree_host);
    let joined = run(&docker_runtime(), &mounts, &dc, &host()).join(" ");
    assert!(
        !joined.contains("/host-secret") && !joined.contains(&outside),
        "untrusted bind mount must not reach the run command: {joined}"
    );
}

#[test]
fn build_run_command_keeps_a_worktree_internal_devcontainer_bind_mount() {
    let mounts = make_mounts();
    let sub = format!("{}/data", mounts.worktree_host);
    let resolved = ResolvedConfig { mounts: vec![bind_mount(Some(&sub), "/data", false)], ..Default::default() };
    let dc = apply_trust(&resolved, &Config::default(), &mounts.worktree_host);
    let joined = run(&docker_runtime(), &mounts, &dc, &host()).join(" ");
    assert!(
        joined.contains(&format!("{sub}:/data")),
        "worktree-internal bind mount should reach the run command: {joined}"
    );
}

#[test]
fn build_run_command_mounts_use_host_paths() {
    let worktree = at("worktrees/feat");
    let git = at(".git");
    let joined = run(&podman_runtime(), &make_mounts(), &DevcontainerRuntime::default(), &host()).join(" ");
    assert!(joined.contains(&format!("{worktree}:{worktree}")), "worktree mount should use host path: {joined}");
    assert!(joined.contains(&format!("{git}:{git}")), "vcs mount should use host path: {joined}");
    assert!(joined.contains(&format!("--workdir {worktree}")), "workdir should be worktree path: {joined}");
}

#[test]
fn build_run_command_selinux_z_on_linux_podman() {
    let on = run(&podman_runtime(), &make_mounts(), &DevcontainerRuntime::default(), &host()).join(" ");
    assert!(on.contains(",z"), "expected ,z on Linux+Podman, got: {on}");
    let elsewhere = HostFacts { linux: false, ..host() };
    let off = run(&podman_runtime(), &make_mounts(), &DevcontainerRuntime::default(), &elsewhere).join(" ");
    assert!(!off.contains(",z"), "unexpected ,z on non-Linux, got: {off}");
}

#[test]
fn build_run_command_no_selinux_z_for_docker() {
    let joined = run(&docker_runtime(), &make_mounts(), &DevcontainerRuntime::default(), &host()).join(" ");
    assert!(!joined.contains(",z"), "Docker should never have ,z: {joined}");
}

fn dc_run(dc: &DevcontainerRuntime) -> String {
    build_run_command(
        &podman_runtime(),
        "am-dc-abc",
        &make_mounts(),
        &vec![],
        &vec![],
        &NetworkMode::Full,
        "am-feat",
        dc,
        &host(),
    )
    .join(" ")
}

#[test]
fn devcontainer_env_becomes_e_flags() {
    let dc = DevcontainerRuntime { env: pairs(&[("FOO", "bar")]), ..Default::default() };
    assert!(dc_run(&dc).contains("-e FOO=bar"));
}

#[test]
fn devcontainer_bind_mounts_get_am_selinux_labelling() {
    let dc = DevcontainerRuntime {
        mounts: vec![bind_mount(Some("/var/run/docker.sock"), "/var/run/docker-host.sock", false)],
        ..Default::default()
    };
    let joined = dc_run(&dc);
    assert!(joined.contains("/var/run/docker.sock:/var/run/docker-host.sock:rw"));
    assert!(joined.contains("/var/run/docker-host.sock:rw,z"));
}

#[test]
fn devcontainer_volume_mounts_are_not_relabelled() {
    let dc = DevcontainerRuntime {
        mounts: vec![NormalizedMount {
            source: Some("my-volume".to_string()),
            target: "/data".to_string(),
            kind: "volume".to_string(),
            read_only: false,
        }],
        ..Default::default()
    };
    let joined = dc_run(&dc);
    assert!(joined.contains("my-volume:/data:rw"));
    assert!(!joined.contains("my-volume:/data:rw,z"));
}

#[test]
fn devcontainer_read_only_mount_is_marked_ro() {
    let dc = DevcontainerRuntime { mounts: vec![bind_mount(Some("/host"), "/ro", true)], ..Default::default() };
    assert!(dc_run(&dc).contains("/host:/ro:ro"));
}

#[test]
fn devcontainer_mount_without_a_source_is_skipped() {
    let dc = DevcontainerRuntime { mounts: vec![bind_mount(None, "/nowhere", false)], ..Default::default() };
    assert!(!dc_run(&dc).contains("/nowhere"));
}

#[test]
fn devcontainer_escalating_options_are_applied_when_granted() {
    let dc = DevcontainerRuntime {
        init: true,
        privileged: true,
        cap_add: strings(&["SYS_PTRACE"]),
        security_opt: strings(&["label=disable"]),
        ..Default::default()
    };
    let joined = dc_run(&dc);
    assert!(joined.contains("--init"));
    assert!(joined.contains("--privileged"));
    assert!(joined.contains("--cap-add SYS_PTRACE"));
    assert!(joined.contains("--security-opt label=disable"));
}

#[test]
fn escalating_options_are_absent_by_default() {
    let joined = dc_run(&DevcontainerRuntime::default());
    assert!(!joined.contains("--privileged"));
    assert!(!joined.contains("--cap-add"));
    assert!(!joined.contains("--security-opt"));
    assert!(!joined.contains("--init"));
}

#[test]
fn workspace_folder_overrides_the_mirrored_workdir() {
    let dc = DevcontainerRuntime { workdir: Some("/workspaces/custom".to_string()), ..Default::default() };
    assert!(dc_run(&dc).contains("--workdir /workspaces/custom"));
}

#[test]
fn am_network_setting_wins_over_run_args() {
    let cmd = build_run_command(
        &podman_runtime(),
        "am-dc-abc",
        &make_mounts(),
        &vec![],
        &vec![],
        &NetworkMode::Off,
        "am-feat",
        &DevcontainerRuntime { run_args: strings(&["--network=host"]), ..Default::default() },
        &host(),
    );
    let wanted = cmd.iter().position(|a| a == "--network=host").unwrap();
    let none = cmd.iter().position(|a| a == "--network").unwrap();
    assert!(none > wanted, "am's --network none must come last");
}

#[test]
fn devcontainer_remote_user_becomes_the_container_user() {
    let dc = DevcontainerRuntime { user: Some("vscode".to_string()), ..Default::default() };
    assert!(dc_run(&dc).contains("--user vscode"));
}

#[test]
fn image_mode_keeps_the_numeric_user_mapping() {
    assert!(!dc_run(&DevcontainerRuntime::default()).contains("--user vscode"));
    let joined = run(&docker_runtime(), &make_mounts(), &DevcontainerRuntime::default(), &host()).join(" ");
    assert!(joined.contains("--user 1001:1002"), "got: {joined}");
}

#[test]
fn docker_prefers_the_named_user_over_the_numeric_mapping() {
    let cmd = build_run_command(
        &docker_runtime(),
        "am-dc-abc",
        &make_mounts(),
        &vec![],
        &vec![],
        &NetworkMode::Full,
        "am-feat",
        &DevcontainerRuntime { user: Some("vscode".to_string()), ..Default::default() },
        &host(),
    );
    assert_eq!(cmd.iter().filter(|a| *a == "--user").count(), 1);
    assert!(cmd.contains(&"vscode".to_string()));
}

#[test]
fn gitconfig_and_ssh_follow_the_derived_home() {
    let mut mounts = make_mounts();
    mounts.container_home = container_home("root", None);
    let joined = run(
        &podman_runtime(),
        &mounts,
        &DevcontainerRuntime::default(),
        &host_with(&[at(".gitconfig"), at(".ssh")]),
    )
    .join(" ");
    assert!(joined.contains("/root/.gitconfig"));
    assert!(joined.contains("/root/.ssh"));
}

#[test]
fn dropping_privileges_and_the_uid_mapping_do_not_contradict_each_other() {
    let dc = DevcontainerRuntime {
        user: None,
        drop_to: Some("vscode".to_string()),
        update_remote_user_uid: true,
        entrypoints: strings(&["/init.sh"]),
        ..DevcontainerRuntime::default()
    };
    let joined = run(&docker_runtime(), &make_mounts(), &dc, &host()).join(" ");
    assert!(!joined.contains("--user"), "must start as the image's own user: {joined}");
}

#[test]
fn image_mode_runs_an_init_process() {
    let cmd = run(&podman_runtime(), &make_mounts(), &DevcontainerRuntime::image_mode(), &host());
    assert!(cmd.contains(&"--init".to_string()));
}

#[test]
fn devcontainer_mode_leaves_init_to_the_config() {
    let without = run(&podman_runtime(), &make_mounts(), &DevcontainerRuntime::default(), &host());
    assert!(!without.contains(&"--init".to_string()));
    let dc = DevcontainerRuntime { init: true, ..DevcontainerRuntime::default() };
    let with = run(&podman_runtime(), &make_mounts(), &dc, &host());
    assert!(with.contains(&"--init".to_string()));
}

#[test]
fn build_run_command_network_none() {
    let cmd = build_run_command(
        &podman_runtime(),
        "ubuntu:25.10",
        &make_mounts(),
        &vec![],
        &vec![],
        &NetworkMode::Off,
        "am-feat",
        &DevcontainerRuntime::default(),
        &host(),
    );
    assert!(cmd.contains(&"--network".to_string()));
    assert!(cmd.contains(&"none".to_string()));
}

#[test]
fn build_run_command_env_passthrough() {
    let joined = build_run_command(
        &podman_runtime(),
        "ubuntu:25.10",
        &make_mounts(),
        &strings(&["ANTHROPIC_API_KEY"]),
        &vec![],
        &NetworkMode::Full,
        "am-feat",
        &DevcontainerRuntime::default(),
        &host(),
    )
    .join(" ");
    assert!(joined.contains("ANTHROPIC_API_KEY"));
}

#[test]
fn build_run_command_includes_codex_api_key_env() {
    let joined = build_run_command(
        &podman_runtime(),
        "ubuntu:25.10",
        &make_mounts(),
        &vec![],
        &pairs(&[("OPENAI_API_KEY", "sk-test-key")]),
        &NetworkMode::Full,
        "am-feat",
        &DevcontainerRuntime::default(),
        &host(),
    )
    .join(" ");
    assert!(joined.contains("-e OPENAI_API_KEY=sk-test-key"));
}

#[test]
fn a_credential_mount_reaches_the_run_command_where_the_host_has_it() {
    let mut mounts = make_mounts();
    mounts.agent_auth = vec![AgentAuthMount {
        host_path: at(".codex"),
        container_path: "/home/am/.codex".to_string(),
        mode: MountMode::ReadWrite,
    }];
    let with = run(&podman_runtime(), &mounts, &DevcontainerRuntime::default(), &host_with(&[at(".codex")])).join(" ");
    assert!(with.contains("/home/am/.codex"), "expected the mount, got: {with}");
    let without = run(&podman_runtime(), &mounts, &DevcontainerRuntime::default(), &host()).join(" ");
    assert!(!without.contains("/home/am/.codex"), "got: {without}");
}

#[test]
fn the_whole_command_line() {
    let cmd = run(&docker_runtime(), &make_mounts(), &DevcontainerRuntime::default(), &host());
    assert_eq!(cmd[0], "/usr/bin/docker");
    assert_eq!(cmd[1..4].join(" "), "run --rm -it");
    assert_eq!(cmd[cmd.len() - 1], "ubuntu:25.10");
}

// Entrypoints.

fn compose_entrypoint(
    entrypoints: &[&str],
    hooks: &[&str],
    agent: &[&str],
    probe: UserEnvProbe,
    protected: &[&str],
    drop_to: Option<&str>,
) -> Vec<String> {
    compose_entrypoint_command(
        &strings(entrypoints),
        &strings(hooks),
        &strings(agent),
        probe,
        &strings(protected),
        drop_to,
        Some((1001, 1002)),
    )
}

#[test]
fn no_entrypoints_leaves_the_agent_command_alone() {
    assert_eq!(compose_entrypoint(&[], &[], &["codex"], UserEnvProbe::Off, &[], None), strings(&["codex"]));
}

#[test]
fn entrypoints_are_chained_before_the_agent() {
    let cmd = compose_entrypoint(
        &["/usr/local/share/docker-init.sh", "/usr/local/share/ssh-init.sh"],
        &[],
        &["codex"],
        UserEnvProbe::Off,
        &[],
        None,
    );
    assert_eq!(cmd[0], "sh");
    assert_eq!(cmd[1], "-c");
    assert_eq!(cmd[2], "/usr/local/share/docker-init.sh && /usr/local/share/ssh-init.sh && exec codex");
}

#[test]
fn entrypoints_run_even_without_an_agent_command() {
    let cmd = compose_entrypoint(&["/init.sh"], &[], &[], UserEnvProbe::Off, &[], None);
    assert_eq!(cmd[2], "/init.sh");
}

#[test]
fn entrypoints_run_as_the_container_user_and_the_agent_is_dropped_to_the_remote_one() {
    let cmd = compose_entrypoint(
        &["/usr/local/share/docker-init.sh"],
        &["echo hook"],
        &["codex"],
        UserEnvProbe::Off,
        &[],
        Some("vscode"),
    );
    let script = &cmd[2];
    let entry_at = script.find("/usr/local/share/docker-init.sh").unwrap();
    let drop_at = script.find("exec su ").unwrap();
    assert!(entry_at < drop_at, "got: {script}");
    assert!(script.contains("exec su vscode -s /bin/sh -c "), "got: {script}");
    let dropped = script.split("-c ").nth(1).unwrap();
    assert!(dropped.contains("echo hook"), "hooks belong to the remote user: {script}");
    assert!(dropped.contains("exec codex"), "got: {script}");
}

#[test]
fn dropping_privileges_realigns_the_users_uid_with_the_hosts() {
    let cmd = compose_entrypoint(&["/init.sh"], &[], &["codex"], UserEnvProbe::Off, &[], Some("vscode"));
    let script = &cmd[2];
    assert!(script.contains("usermod -u 1001"), "got: {script}");
    assert!(script.contains(r#"[ "$(id -u vscode 2>/dev/null)" = 1001 ]"#));
    assert!(script.contains("|| true"), "got: {script}");
    let align_at = script.find("usermod").unwrap();
    let drop_at = script.find("exec su ").unwrap();
    assert!(align_at < drop_at, "alignment must precede the drop: {script}");
}

#[test]
fn nothing_is_realigned_without_a_drop() {
    let cmd = compose_entrypoint(&[], &[], &["codex"], UserEnvProbe::Off, &[], None);
    assert!(!cmd.join(" ").contains("usermod"));
}

#[test]
fn without_an_entrypoint_nothing_is_dropped() {
    let cmd = compose_entrypoint(&[], &["echo hook"], &["codex"], UserEnvProbe::Off, &[], None);
    assert_eq!(cmd[2], "echo hook && exec codex");
}

#[test]
fn a_failed_entrypoint_stops_the_session_before_the_drop() {
    let cmd = compose_entrypoint(&["/init.sh"], &[], &["codex"], UserEnvProbe::Off, &[], Some("vscode"));
    assert!(cmd[2].contains("/init.sh && exec su "), "got: {}", cmd[2]);
}

#[test]
fn the_dropped_script_is_quoted_as_one_argument() {
    let cmd = compose_entrypoint(&["/init.sh"], &["echo 'it works'"], &["codex"], UserEnvProbe::Off, &[], Some("vscode"));
    let expected = r"'echo '\''it works'\'' && exec codex'";
    assert!(cmd[2].contains(expected), "got: {}", cmd[2]);
}

#[test]
fn a_probe_runs_before_the_agent_and_does_not_gate_it() {
    let cmd = compose_entrypoint(&[], &[], &["codex"], UserEnvProbe::LoginInteractiveShell, &[], None);
    let script = &cmd[2];
    assert!(script.contains("-lic 'cat /proc/self/environ'"), "got: {script}");
    assert!(script.contains("\nexec codex"), "got: {script}");
    assert!(!script.contains("&& exec codex"), "got: {script}");
}

#[test]
fn a_failing_entrypoint_still_gates_the_agent_when_probing() {
    let cmd = compose_entrypoint(&[], &["/hook.sh"], &["codex"], UserEnvProbe::LoginShell, &[], None);
    assert!(cmd[2].contains("/hook.sh && exec codex"), "got: {}", cmd[2]);
}

#[test]
fn each_probe_mode_maps_to_the_shell_flags_the_cli_uses() {
    let flags = |p: UserEnvProbe| compose_entrypoint(&[], &[], &["a"], p, &[], None).join(" ");
    assert!(flags(UserEnvProbe::LoginInteractiveShell).contains(" -lic "));
    assert!(flags(UserEnvProbe::LoginShell).contains(" -lc "));
    assert!(flags(UserEnvProbe::InteractiveShell).contains(" -ic "));
    assert_eq!(compose_entrypoint(&[], &[], &["a"], UserEnvProbe::Off, &[], None), strings(&["a"]));
}

#[test]
fn the_probe_names_what_it_must_leave_alone() {
    let cmd = compose_entrypoint(&[], &[], &["env"], UserEnvProbe::LoginShell, &["AM_KEEP"], None);
    assert!(cmd[2].contains("AM_KEEP"), "got: {}", cmd[2]);
}

#[test]
fn protected_names_cover_every_source_the_run_command_sets() {
    let sock = at("agent.sock");
    let mut mounts = make_mounts();
    mounts.ssh_agent_sock = Some(sock.clone());
    let mut facts = host_known_as("T", "t@e.com");
    facts.existing.push(sock);
    let dc = DevcontainerRuntime { env: pairs(&[("FROM_CONFIG", "1")]), ..DevcontainerRuntime::default() };
    let names = protected_env_names(
        &docker_runtime(),
        &mounts,
        &strings(&["PASSED_THROUGH", "WITH=value"]),
        &pairs(&[("AGENT_TOKEN", "x")]),
        &dc,
        &facts,
    );
    for expected in ["SSH_AUTH_SOCK", "JJ_USER", "JJ_EMAIL", "AGENT_TOKEN", "FROM_CONFIG", "PASSED_THROUGH", "WITH"] {
        assert!(names.iter().any(|n| n == expected), "{expected} missing from {names:?}");
    }
}

#[test]
fn every_variable_of_the_run_command_is_protected() {
    let sock = at("agent.sock");
    let mut mounts = make_mounts();
    mounts.ssh_agent_sock = Some(sock.clone());
    let mut facts = host_known_as("T", "t@e.com");
    facts.existing.push(sock);
    facts.uid_gid = Some((1001, 1001));
    let dc = DevcontainerRuntime {
        env: pairs(&[("FROM_CONFIG", "1"), ("HOME", "/elsewhere")]),
        user: Some("vscode".to_string()),
        update_remote_user_uid: true,
        ..DevcontainerRuntime::default()
    };
    let passed = strings(&["PASSED_THROUGH", "WITH=value"]);
    let extra = pairs(&[("AGENT_TOKEN", "x")]);
    for runtime in [docker_runtime(), podman_runtime()] {
        let cmd =
            build_run_command(&runtime, "img", &mounts, &passed, &extra, &NetworkMode::Full, "am-s", &dc, &facts);
        let names = protected_env_names(&runtime, &mounts, &passed, &extra, &dc, &facts);
        let mut set = 0;
        for (flag, value) in cmd.iter().zip(cmd.iter().skip(1)) {
            if flag == "-e" {
                let name = value.split('=').next().unwrap();
                assert!(names.iter().any(|n| n == name), "{name} missing from {names:?}");
                set += 1;
            }
        }
        assert!(set >= 8, "{cmd:?}");
        for (i, n) in names.iter().enumerate() {
            assert!(!names[..i].contains(n), "{n} twice in {names:?}");
        }
    }
}

#[test]
fn home_is_protected_where_a_named_user_is_mapped() {
    let mut facts = host();
    facts.uid_gid = Some((1001, 1001));
    let named = |drop_to: Option<&str>, update: bool| DevcontainerRuntime {
        user: Some("vscode".to_string()),
        update_remote_user_uid: update,
        drop_to: drop_to.map(str::to_string),
        ..DevcontainerRuntime::default()
    };
    let home = |runtime: &ContainerRuntime, dc: &DevcontainerRuntime, facts: &HostFacts| {
        protected_env_names(runtime, &make_mounts(), &vec![], &vec![], dc, facts).contains(&"HOME".to_string())
    };
    assert!(home(&docker_runtime(), &named(None, true), &facts));
    assert!(!home(&podman_runtime(), &named(None, true), &facts));
    assert!(!home(&docker_runtime(), &named(None, false), &facts));
    assert!(!home(&docker_runtime(), &named(Some("vscode"), true), &facts));
    assert!(!home(&docker_runtime(), &DevcontainerRuntime::default(), &facts));
}

#[test]
fn agent_flags_are_quoted_in_the_composed_script() {
    let cmd = compose_entrypoint(
        &["/init.sh"],
        &[],
        &["codex", "--dangerously-skip-permissions", "it's"],
        UserEnvProbe::Off,
        &[],
        None,
    );
    assert!(cmd[2].contains("exec codex --dangerously-skip-permissions 'it'\\''s'"));
}

// The jj identity.

#[test]
fn jj_identity_env_derives_both_values_from_gitconfig() {
    let name = read_gitconfig_value(true, b"Ada Lovelace\n".to_vec());
    let email = read_gitconfig_value(true, b"ada@example.com\n".to_vec());
    assert_eq!(jj_identity_env(name, email), pairs(&[("JJ_USER", "Ada Lovelace"), ("JJ_EMAIL", "ada@example.com")]));
}

#[test]
fn jj_identity_env_empty_when_gitconfig_missing() {
    assert!(jj_identity_env(None, None).is_empty());
}

#[test]
fn jj_identity_env_empty_when_identity_incomplete() {
    assert!(jj_identity_env(Some("Ada Lovelace".to_string()), None).is_empty());
    assert!(jj_identity_env(None, Some("ada@example.com".to_string())).is_empty());
}

#[test]
fn a_gitconfig_value_is_trimmed_and_must_say_something() {
    assert_eq!(read_gitconfig_value(true, b"  Ada  \n".to_vec()), Some("Ada".to_string()));
    assert_eq!(read_gitconfig_value(true, b" \n".to_vec()), None);
    assert_eq!(read_gitconfig_value(false, b"Ada\n".to_vec()), None);
    assert_eq!(read_gitconfig_value(true, vec![0xff, 0xfe]), None);
}

#[test]
fn build_run_command_injects_jj_identity() {
    let cmd = run(
        &podman_runtime(),
        &make_mounts(),
        &DevcontainerRuntime::default(),
        &host_known_as("Ada Lovelace", "ada@example.com"),
    );
    assert!(cmd.contains(&"JJ_USER=Ada Lovelace".to_string()));
    assert!(cmd.contains(&"JJ_EMAIL=ada@example.com".to_string()));
}

#[test]
fn build_run_command_jj_identity_yields_to_explicit_env() {
    let cmd = build_run_command(
        &podman_runtime(),
        "ubuntu:25.10",
        &make_mounts(),
        &vec![],
        &pairs(&[("JJ_EMAIL", "override@example.com")]),
        &NetworkMode::Full,
        "am-feat",
        &DevcontainerRuntime::default(),
        &host_known_as("Ada Lovelace", "ada@example.com"),
    );
    let derived = cmd.iter().position(|a| a == "JJ_EMAIL=ada@example.com").expect("derived identity missing");
    let explicit = cmd.iter().position(|a| a == "JJ_EMAIL=override@example.com").expect("explicit override missing");
    assert!(derived < explicit, "derived identity must come first so the later -e wins");
}

#[test]
fn build_run_command_omits_jj_identity_without_gitconfig() {
    let cmd = run(&podman_runtime(), &make_mounts(), &DevcontainerRuntime::default(), &host());
    assert!(!cmd.iter().any(|a| a.starts_with("JJ_USER=")));
    assert!(!cmd.iter().any(|a| a.starts_with("JJ_EMAIL=")));
}

// Ending a session.

#[test]
fn stop_container_sends_stop_command() {
    assert_eq!(stop_container("am-feat"), strings(&["stop", "am-feat"]));
}

#[test]
fn remove_container_sends_rm_command() {
    assert_eq!(remove_container("am-feat"), strings(&["rm", "-f", "am-feat"]));
}

#[test]
fn a_running_container_is_inspected_and_entered_by_name() {
    assert_eq!(inspect_container("am-feat"), strings(&["container", "inspect", "am-feat"]));
    assert_eq!(exec_script("am-feat", "echo hi"), strings(&["exec", "am-feat", "sh", "-c", "echo hi"]));
    assert_eq!(
        removed_note("am-feat"),
        "removed existing container 'am-feat' from a previous unclean run"
    );
}

#[test]
fn a_failed_command_says_why_or_at_least_how() {
    assert_eq!(command_failure(" no such container\n", "exit status: 1").to_string(), "no such container");
    assert_eq!(
        command_failure("\n", "exit status: 125").to_string(),
        "container command exited with status exit status: 125"
    );
}

// Credentials.

fn env(entries: &[(&str, &str)]) -> StrMap<String> {
    let mut m = StrMap::new();
    for (k, v) in entries {
        m.insert(k.to_string(), v.to_string());
    }
    m
}

fn no_token() -> Result<String, AmError> {
    Err(AmError::ContainerError("no token".to_string()))
}

fn credential(rel: &str, found: bool, mode: MountMode, required: bool, only_if_exists: bool) -> CredentialMount {
    CredentialMount { host: Ok(at(rel)), found, container: rel.to_string(), mode, required, only_if_exists }
}

fn copilot(found: bool) -> Harness {
    Harness {
        name: "copilot".to_string(),
        integration: Some(Integration {
            mounts: vec![
                credential(".config/gh", found, MountMode::ReadOnly, true, false),
                credential(".config/github-copilot", found, MountMode::ReadOnly, false, false),
            ],
            env: vec![EnvSource::GhToken],
            home_optional: false,
            alternatives_message: None,
            hint: "run 'gh auth login' — see https://dstanek.github.io/agent-manager/guides/github-copilot/#prerequisites"
                .to_string(),
            satisfied: found,
            unsatisfied_path: if found { None } else { Some(at(".config/gh")) },
        }),
    }
}

fn gemini(found: bool) -> Harness {
    Harness {
        name: "gemini".to_string(),
        integration: Some(Integration {
            mounts: vec![credential(".gemini", found, MountMode::ReadOnly, true, false)],
            env: vec![],
            home_optional: false,
            alternatives_message: None,
            hint: "sign in with the Gemini CLI — see https://dstanek.github.io/agent-manager/guides/gemini/#prerequisites"
                .to_string(),
            satisfied: found,
            unsatisfied_path: if found { None } else { Some(at(".gemini")) },
        }),
    }
}

fn codex(found: bool) -> Harness {
    Harness {
        name: "codex".to_string(),
        integration: Some(Integration {
            mounts: vec![credential(".codex", found, MountMode::ReadWrite, false, true)],
            env: vec![EnvSource::Passthrough("OPENAI_API_KEY".to_string())],
            home_optional: true,
            alternatives_message: Some("sign in with codex or set OPENAI_API_KEY".to_string()),
            hint: "run 'codex login' or set OPENAI_API_KEY — see https://dstanek.github.io/agent-manager/guides/codex/#prerequisites"
                .to_string(),
            satisfied: found,
            unsatisfied_path: None,
        }),
    }
}

#[test]
fn preflight_agent_auth_copilot_returns_mounts_and_env() {
    let token = get_gh_token(&GhOutput::Printed(b"gh-test-token\n".to_vec()));
    let auth = preflight_agent_auth(&copilot(true), "/home/am", &env(&[]), token).unwrap();
    assert_eq!(auth.env, pairs(&[("GH_TOKEN", "gh-test-token")]));
    assert_eq!(auth.mounts.len(), 2);
}

#[test]
fn preflight_agent_auth_copilot_fails_when_gh_dir_missing() {
    let token = Ok("t".to_string());
    assert!(preflight_agent_auth(&copilot(false), "/home/am", &env(&[]), token).is_err());
}

#[test]
fn preflight_agent_auth_copilot_fails_without_a_token() {
    let err = preflight_agent_auth(&copilot(true), "/home/am", &env(&[]), no_token()).unwrap_err();
    assert_eq!(err, AmError::ContainerError("no token".to_string()));
}

#[test]
fn preflight_agent_auth_gemini_ok_when_dir_exists() {
    assert!(preflight_agent_auth(&gemini(true), "/home/am", &env(&[]), no_token()).is_ok());
}

#[test]
fn preflight_agent_auth_gemini_fails_when_dir_missing() {
    assert!(preflight_agent_auth(&gemini(false), "/home/am", &env(&[]), no_token()).is_err());
}

#[test]
fn preflight_agent_auth_codex_ok_when_key_set() {
    let auth = preflight_agent_auth(&codex(false), "/home/am", &env(&[("OPENAI_API_KEY", "sk-test")]), no_token()).unwrap();
    assert_eq!(auth.env, pairs(&[("OPENAI_API_KEY", "sk-test")]));
    assert!(auth.mounts.is_empty());
}

#[test]
fn preflight_agent_auth_codex_fails_when_key_missing() {
    let err = preflight_agent_auth(&codex(false), "/home/am", &env(&[]), no_token()).unwrap_err();
    assert!(err.to_string().contains("OPENAI_API_KEY"));
}

#[test]
fn preflight_agent_auth_codex_fails_when_key_empty() {
    let err = preflight_agent_auth(&codex(false), "/home/am", &env(&[("OPENAI_API_KEY", "")]), no_token()).unwrap_err();
    assert!(err.to_string().contains("OPENAI_API_KEY"));
}

#[test]
fn preflight_agent_auth_codex_accepts_an_interactive_signin() {
    let auth = preflight_agent_auth(&codex(true), "/home/am", &env(&[]), no_token()).unwrap();
    assert!(auth.env.is_empty());
    assert_eq!(auth.mounts.len(), 1);
}

#[test]
fn an_agent_without_an_integration_needs_nothing() {
    let plain = Harness { name: "mine".to_string(), integration: None };
    let auth = preflight_agent_auth(&plain, "/home/am", &env(&[]), no_token()).unwrap();
    assert!(auth.env.is_empty());
    assert!(auth.mounts.is_empty());
    assert!(validate_agent_credentials(&plain).is_ok());
    assert_eq!(credentials_hint(&plain), "");
}

#[test]
fn credentials_hint_names_a_concrete_command_per_agent() {
    assert!(credentials_hint(&copilot(true)).contains("gh auth login"));
    assert!(credentials_hint(&copilot(true))
        .contains("https://dstanek.github.io/agent-manager/guides/github-copilot/#prerequisites"));

    assert!(credentials_hint(&gemini(true)).contains("Gemini CLI"));
    assert!(credentials_hint(&gemini(true))
        .contains("https://dstanek.github.io/agent-manager/guides/gemini/#prerequisites"));

    assert!(credentials_hint(&codex(true)).contains("codex"));
    assert!(credentials_hint(&codex(true)).contains("OPENAI_API_KEY"));
    assert!(credentials_hint(&codex(true))
        .contains("https://dstanek.github.io/agent-manager/guides/codex/#prerequisites"));
}

#[test]
fn missing_credentials_name_the_agent_and_the_path() {
    let err = validate_agent_credentials(&gemini(false)).unwrap_err().to_string();
    assert!(err.contains("gemini") && err.contains(&at(".gemini")), "got: {err}");
    assert!(validate_agent_credentials(&gemini(true)).is_ok());
    let err = validate_agent_credentials(&codex(false)).unwrap_err().to_string();
    assert_eq!(err, "agent 'codex' has no credentials: sign in with codex or set OPENAI_API_KEY");
}

#[test]
fn codex_mounts_the_config_dir_read_write_when_present() {
    let mounts = resolve_credential_mounts(&codex(true), "/home/am").unwrap();
    assert_eq!(mounts.len(), 1);
    assert_eq!(mounts[0].host_path, at(".codex"));
    assert_eq!(mounts[0].container_path, "/home/am/.codex");
    assert_eq!(mounts[0].mode, MountMode::ReadWrite);
}

#[test]
fn codex_returns_no_mount_when_never_signed_in() {
    assert!(resolve_credential_mounts(&codex(false), "/home/am").unwrap().is_empty());
}

#[test]
fn resolve_agent_auth_copilot_returns_both_dirs() {
    let auth_mounts = resolve_credential_mounts(&copilot(true), "/home/am").unwrap();
    assert_eq!(auth_mounts.len(), 2);
    let paths: Vec<_> = auth_mounts.iter().map(|m| m.host_path.clone()).collect();
    assert!(paths.contains(&at(".config/gh")), "missing gh config");
    assert!(paths.contains(&at(".config/github-copilot")), "missing github-copilot config");
    for m in &auth_mounts {
        assert_eq!(m.mode, MountMode::ReadOnly, "copilot mounts should be read-only");
    }
}

#[test]
fn resolve_agent_auth_copilot_container_paths_match() {
    let auth_mounts = resolve_credential_mounts(&copilot(true), "/home/am").unwrap();
    let container_paths: Vec<_> = auth_mounts.iter().map(|m| m.container_path.clone()).collect();
    assert!(container_paths.contains(&"/home/am/.config/gh".to_string()));
    assert!(container_paths.contains(&"/home/am/.config/github-copilot".to_string()));
}

#[test]
fn resolve_agent_auth_gemini_returns_dot_gemini() {
    let auth_mounts = resolve_credential_mounts(&gemini(true), "/home/am").unwrap();
    assert_eq!(auth_mounts.len(), 1);
    assert_eq!(auth_mounts[0].host_path, at(".gemini"));
    assert_eq!(auth_mounts[0].container_path, "/home/am/.gemini");
    assert_eq!(auth_mounts[0].mode, MountMode::ReadOnly);
}

#[test]
fn an_unknown_home_is_an_error_for_a_mount_below_it() {
    let mut h = gemini(true);
    if let Some(i) = &mut h.integration {
        i.mounts[0].host = Err("HOME environment variable not set".to_string());
    }
    let err = resolve_credential_mounts(&h, "/home/am").unwrap_err();
    assert!(err.to_string().contains("HOME environment variable not set"));
}

#[test]
fn resolve_mounts_carries_the_agents_credentials() {
    let auth = preflight_agent_auth(&codex(true), "/home/am", &env(&[]), no_token()).unwrap();
    let mounts =
        resolve_mounts("feat", TMP, &Vcs::Git, auth.mounts, None, None, false, "am", None, &facts()).unwrap();
    assert_eq!(mounts.agent_auth.len(), 1);
    assert_eq!(mounts.agent_auth[0].host_path, at(".codex"));
    assert_eq!(mounts.agent_auth[0].container_path, "/home/am/.codex");
}

#[test]
fn the_gh_token_is_what_the_cli_printed() {
    assert_eq!(
        get_gh_token(&GhOutput::Missing).unwrap_err().to_string(),
        "failed to execute 'gh auth token' — is GitHub CLI installed?"
    );
    let err = get_gh_token(&GhOutput::Failed(b"not logged in\n".to_vec())).unwrap_err().to_string();
    assert!(err.ends_with("Error: not logged in"), "got: {err}");
    assert_eq!(get_gh_token(&GhOutput::Printed(b"t\xff\n".to_vec())).unwrap(), "t\u{fffd}");
}
