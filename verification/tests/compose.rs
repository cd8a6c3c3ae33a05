use am::compose::{
    all_files, check_network, compose_args, down, exec_command, exec_script, no_provider, override_document,
    override_path, override_text, podman_socket, project_name, resolve_provider, resolved_config, service_definition,
    services_to_start, stop_command, up, Provider, SessionCompose,
};
use am::config::{Config, NetworkMode};
use am::container::{ContainerMounts, ContainerRuntime, DevcontainerRuntime, HostFacts, RuntimeKind};
use am::devcontainer::{apply_trust, ForwardedPort, NormalizedMount, ResolvedConfig};
use am::json::{parse_strict, Json};

fn subcommand_provider() -> Provider {
    Provider {
        argv: vec!["/usr/bin/docker".to_string(), "compose".to_string()],
        env: Vec::new(),
    }
}

fn runtime() -> ContainerRuntime {
    ContainerRuntime { kind: RuntimeKind::Docker, bin: "/usr/bin/docker".to_string() }
}

fn compose() -> SessionCompose {
    SessionCompose {
        project: "am-feat".to_string(),
        service: "app".to_string(),
        files: vec!["/repo/.devcontainer/docker-compose.yml".to_string()],
        override_path: "/state/compose-override.yml".to_string(),
        run_services: Vec::new(),
    }
}

fn host() -> HostFacts {
    HostFacts { linux: true, uid_gid: None, existing: Vec::new(), identity: Vec::new() }
}

fn mounts(worktree: &str) -> ContainerMounts {
    ContainerMounts {
        worktree_host: worktree.to_string(),
        vcs_host: format!("{worktree}/.git"),
        colocated_git_host: None,
        gitconfig_host: "/tmp/t/gitconfig".to_string(),
        ssh_host: "/tmp/t/ssh".to_string(),
        ssh_agent_sock: None,
        agent_auth: Vec::new(),
        container_home: "/home/vscode".to_string(),
    }
}

fn json(text: &str) -> Json {
    parse_strict(text).unwrap()
}

fn service<'a>(doc: &'a Json, name: &str) -> &'a Json {
    doc.get("services").and_then(|s| s.get(name)).expect("the service")
}

fn member(j: &Json, key: &str) -> Option<String> {
    j.get(key).map(|v| v.to_text())
}

#[test]
fn a_runtime_with_a_compose_subcommand_is_used_directly() {
    let bin = "/tmp/t/docker-ok";
    let found = resolve_provider(bin, true, false, None).expect("a provider");
    assert_eq!(found.argv, vec![bin.to_string(), "compose".to_string()]);
    assert!(found.env.is_empty());
}

#[test]
fn a_podman_without_compose_reports_what_to_install() {
    let bin = "/tmp/t/podman-old";
    assert!(resolve_provider(bin, false, false, None).is_none());
    let err = no_provider(bin).to_string();
    assert!(err.contains("podman only grew it in 4.7"), "must explain why: {err}");
    assert!(err.contains("Docker Compose v2"), "must say what to install: {err}");
    assert!(err.contains("podman-compose will not do"), "must rule out the wrong fix: {err}");
}

#[test]
fn a_standalone_compose_is_the_fallback() {
    let resolved = resolve_provider("/tmp/t/docker-old", false, true, None);
    assert_eq!(resolved.expect("a provider").argv, vec!["docker-compose".to_string()]);
}

#[test]
fn a_standalone_compose_under_podman_is_pointed_at_podmans_socket() {
    let socket = podman_socket(false, true, "/run/user/1000/podman/podman.sock\n");
    let resolved = resolve_provider("/tmp/t/podman", false, true, socket.as_deref()).expect("a provider");
    assert_eq!(
        resolved.env,
        vec![(
            "DOCKER_HOST".to_string(),
            "unix:///run/user/1000/podman/podman.sock".to_string()
        )]
    );
    assert_eq!(podman_socket(true, true, "/run/x.sock"), None);
    assert_eq!(podman_socket(false, false, "/run/x.sock"), None);
    assert_eq!(podman_socket(false, true, " \n"), None);
}

#[test]
fn run_services_narrows_what_starts_and_always_keeps_the_agents_own() {
    let mut compose = compose();
    compose.run_services = vec!["db".to_string()];
    assert_eq!(services_to_start(&compose), ["db", "app"]);

    compose.run_services = vec!["app".to_string(), "db".to_string()];
    assert_eq!(services_to_start(&compose), ["app", "db"], "no duplicate");
}

#[test]
fn no_run_services_starts_everything() {
    assert!(services_to_start(&compose()).is_empty());
}

#[test]
fn project_names_are_prefixed_and_compose_safe() {
    assert_eq!(project_name("my-feature"), "am-my-feature");
    assert_eq!(project_name("Feat/One"), "am-feat-one");
}

#[test]
fn the_override_is_layered_last() {
    let args = compose_args(&subcommand_provider(), &all_files(&compose()), "am-feat");
    let joined = args.join(" ");
    let repo = joined.find("docker-compose.yml").unwrap();
    let ours = joined.find("compose-override.yml").unwrap();
    assert!(repo < ours, "am's override must be the last -f");
    assert!(joined.contains("-p am-feat"));
}

#[test]
fn a_missing_service_names_what_the_compose_file_does_define() {
    let config = json(r#"{"services": {"web": {"image": "nginx"}, "db": {"image": "postgres"}}}"#);
    let err = service_definition(&config, "app").err().unwrap().to_string();
    assert!(err.contains("app"), "must name the service that is missing: {err}");
    assert!(err.contains("web") && err.contains("db"), "must list what exists: {err}");
}

#[test]
fn a_service_with_neither_image_nor_build_is_an_error() {
    let config = json(r#"{"services": {"app": {"command": "sleep infinity"}}}"#);
    let err = service_definition(&config, "app").err().unwrap().to_string();
    assert!(err.contains("neither an image nor a build"), "got: {err}");
}

#[test]
fn a_built_service_reports_its_context_and_dockerfile() {
    let config = json(
        r#"{"services": {"app": {
            "build": {"context": "/repo", "dockerfile": "Dockerfile.dev"}
        }}}"#,
    );
    let def = service_definition(&config, "app").ok().unwrap();
    assert!(def.image.is_none());
    let (context, dockerfile) = def.build.unwrap();
    assert_eq!(context, "/repo");
    assert_eq!(dockerfile, Some("Dockerfile.dev".to_string()));
}

#[test]
fn network_none_is_refused_rather_than_ignored() {
    let err = check_network(&NetworkMode::Off).unwrap_err().to_string();
    assert!(err.contains("compose network"), "must explain why: {err}");
    assert!(err.contains("container.mode"), "must offer a way forward: {err}");
    assert!(check_network(&NetworkMode::Full).is_ok());
}

#[test]
fn the_override_is_valid_json_so_compose_can_read_it_as_yaml() {
    let doc = json(r#"{"services": {"app": {"image": "am-dc-abc"}}}"#);
    assert_eq!(override_path("/tmp/t"), "/tmp/t/compose-override.yml");
    let text = override_text(&doc);
    assert_eq!(parse_strict(&text).unwrap().to_text(), doc.to_text());
}

#[test]
fn forwarded_ports_are_published_on_the_right_service() {
    let dc = DevcontainerRuntime {
        ports: vec![
            ForwardedPort::Own(3000),
            ForwardedPort::Service { service: "db".into(), port: 5432 },
        ],
        ..DevcontainerRuntime::default()
    };
    let doc =
        override_document(&runtime(), "app", "img", &mounts("/tmp/t"), &vec![], &vec![], &dc, &host());
    assert_eq!(member(service(&doc, "app"), "ports").unwrap(), r#"["127.0.0.1:3000:3000"]"#);
    assert_eq!(service(&doc, "db").to_text(), r#"{"ports":["127.0.0.1:5432:5432"]}"#);
}

#[test]
fn a_service_with_no_forwarded_ports_gets_no_ports_key() {
    let doc = override_document(
        &runtime(),
        "app",
        "img",
        &mounts("/tmp/t"),
        &vec![],
        &vec![],
        &DevcontainerRuntime::default(),
        &host(),
    );
    assert!(service(&doc, "app").get("ports").is_none());
}

#[test]
fn security_opt_is_written_only_when_present() {
    let doc = override_document(
        &runtime(),
        "app",
        "img",
        &mounts("/tmp/t"),
        &vec![],
        &vec![],
        &DevcontainerRuntime::default(),
        &host(),
    );
    assert!(service(&doc, "app").get("security_opt").is_none());

    let dc = DevcontainerRuntime {
        security_opt: vec!["label=disable".to_string()],
        ..DevcontainerRuntime::default()
    };
    let doc =
        override_document(&runtime(), "app", "img", &mounts("/tmp/t"), &vec![], &vec![], &dc, &host());
    assert_eq!(member(service(&doc, "app"), "security_opt").unwrap(), r#"["label=disable"]"#);
}

fn bound(source: &str, target: &str) -> ResolvedConfig {
    let mut resolved = ResolvedConfig::default();
    resolved.mounts = vec![NormalizedMount {
        source: Some(source.to_string()),
        target: target.to_string(),
        kind: "bind".to_string(),
        read_only: false,
    }];
    resolved
}

#[test]
fn override_document_drops_an_untrusted_devcontainer_bind_mount() {
    let worktree = "/tmp/t/worktree";
    let dc = apply_trust(&bound("/tmp/t/outside", "/host-secret"), &Config::default(), worktree);
    let doc =
        override_document(&runtime(), "app", "img", &mounts(worktree), &vec![], &vec![], &dc, &host());
    let volumes = member(service(&doc, "app"), "volumes").unwrap();
    assert!(
        !volumes.contains("/host-secret"),
        "untrusted bind mount must not reach the compose override: {volumes:?}"
    );
}

#[test]
fn override_document_keeps_a_worktree_internal_devcontainer_bind_mount() {
    let worktree = "/tmp/t/worktree";
    let dc = apply_trust(&bound("/tmp/t/worktree/data", "/data"), &Config::default(), worktree);
    let doc =
        override_document(&runtime(), "app", "img", &mounts(worktree), &vec![], &vec![], &dc, &host());
    let volumes = member(service(&doc, "app"), "volumes").unwrap();
    assert!(
        volumes.contains("\"/tmp/t/worktree/data:/data"),
        "worktree-internal bind mount should reach the compose override: {volumes:?}"
    );
}

#[test]
fn exec_runs_the_agent_in_the_named_service() {
    let mut args = compose_args(&subcommand_provider(), &all_files(&compose()), "am-feat");
    args.push("exec".to_string());
    args.push("app".to_string());
    args.extend(["codex".to_string(), "--continue".to_string()]);
    let joined = args.join(" ");
    assert!(joined.contains("compose"));
    assert!(joined.ends_with("exec app codex --continue"), "got: {joined}");
}

#[test]
fn a_session_starts_stops_and_is_entered_by_exact_command_lines() {
    let p = subcommand_provider();
    let mut c = compose();
    c.run_services = vec!["db".to_string()];
    let head = "/usr/bin/docker compose -f /repo/.devcontainer/docker-compose.yml \
                -f /state/compose-override.yml -p am-feat";
    assert_eq!(up(&p, &c).join(" "), format!("{head} up -d db app"));
    assert_eq!(stop_command(&p, &c).join(" "), format!("{head} stop"));
    assert_eq!(down(&p, &c).join(" "), format!("{head} down"));
    assert_eq!(
        exec_script(&p, &c, "echo hi").join("|"),
        format!("{}|exec|app|sh|-c|echo hi", head.replace(' ', "|"))
    );
    let agent = vec!["codex".to_string(), "--continue".to_string()];
    assert_eq!(exec_command(&p, &c, &agent).join(" "), format!("{head} exec app codex --continue"));
}

#[test]
fn compose_output_that_is_not_json_is_an_error() {
    assert!(resolved_config("not json").is_err());
    assert_eq!(resolved_config(r#"{"services":{}}"#).ok().unwrap().to_text(), r#"{"services":{}}"#);
}
