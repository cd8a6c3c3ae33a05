use am::config::Config;
use am::devcontainer::image::{inspect_command, local_feature_ids, Tree, LABEL_FORMAT};
use am::devcontainer::lock::{load, Lockfile};
use am::devcontainer::{
    apply_trust, attach_commands, check_host_commands, check_supported, compose_files, config_hash, finalize,
    find_config, image_exists, image_name, merge, parse_config_str, parse_metadata_label, read_image_metadata,
    startup_commands, trust_notes, Command, DevcontainerJson, ForwardedPort, InjectedFeature, MetadataSnippet, Mount,
    NormalizedMount, ResolvedConfig, SubstitutionContext, UserEnvProbe,
};
use am::error::AmError;
use am::json::parse_strict;
use am::strmap::StrMap;

fn strings(items: &[&str]) -> Vec<String> {
    items.iter().map(|s| s.to_string()).collect()
}

fn ctx() -> SubstitutionContext {
    SubstitutionContext::new("/home/dev/.am/worktrees/feat", "/workspaces/feat")
}

fn label(text: &str) -> Vec<MetadataSnippet> {
    parse_metadata_label(text).unwrap()
}

fn merged(text: &str) -> ResolvedConfig {
    merge(&label(text)).unwrap()
}

/// The kind of label that an image built with several Features carries.
const FEATURES_LABEL: &str = r#"[
    {"id":"ghcr.io/devcontainers/features/common-utils:2"},
    {"id":"ghcr.io/devcontainers/features/docker-outside-of-docker:1",
     "entrypoint":"/usr/local/share/docker-init.sh",
     "mounts":[{"source":"/var/run/docker.sock","target":"/var/run/docker-host.sock","type":"bind"}],
     "securityOpt":["label=disable"],
     "customizations":{"vscode":{"extensions":["a.b"]}}},
    {"id":"ghcr.io/devcontainers/features/sshd:1","entrypoint":"/usr/local/share/ssh-init.sh"},
    {"remoteUser":"root","waitFor":"onCreateCommand"},
    {"mounts":["source=${localWorkspaceFolder}/.data,target=/mnt/data,type=bind"],
     "remoteUser":"vscode","waitFor":"postCreateCommand"}
]"#;

// Mounts.

#[test]
fn normalizes_string_mount() {
    let m = Mount::Str("source=/host/path,target=/mnt/x,type=bind,consistency=cached".to_string());
    let n = m.normalize().unwrap();
    assert_eq!(n.source.as_deref(), Some("/host/path"));
    assert_eq!(n.target, "/mnt/x");
    assert_eq!(n.kind, "bind");
    assert!(!n.read_only);
}

#[test]
fn normalizes_object_mount() {
    let r = merged(
        r#"[{"mounts":[{"source":"/var/run/docker.sock","target":"/var/run/docker-host.sock","type":"bind"}]}]"#,
    );
    assert_eq!(r.mounts[0].source.as_deref(), Some("/var/run/docker.sock"));
    assert_eq!(r.mounts[0].target, "/var/run/docker-host.sock");
}

#[test]
fn accepts_docker_mount_aliases() {
    let n = Mount::Str("src=/a,dst=/b,ro".to_string()).normalize().unwrap();
    assert_eq!(n.source.as_deref(), Some("/a"));
    assert_eq!(n.target, "/b");
    assert!(n.read_only);
}

#[test]
fn mount_without_target_is_an_error() {
    let err = Mount::Str("source=/a,type=bind".to_string()).normalize().unwrap_err();
    assert!(err.to_string().contains("no target"));
}

#[test]
fn mount_defaults_to_bind_when_type_omitted() {
    let n = Mount::Str("source=/a,target=/b".to_string()).normalize().unwrap();
    assert_eq!(n.kind, "bind");
}

#[test]
fn both_mount_forms_accept_the_same_field_names() {
    let obj = merged(r#"[{"mounts":[{"type":"volume","src":"v","dst":"/v"}]}]"#);
    let string = merged(r#"[{"mounts":["type=volume,src=v,dst=/v"]}]"#);
    assert_eq!(obj.mounts, string.mounts);
}

#[test]
fn an_object_mount_accepts_the_short_spellings() {
    let m = merged(r#"[{"mounts":[{"type":"bind","src":"/host","dst":"/in"}]}]"#);
    assert_eq!(m.mounts.len(), 1);
    assert_eq!(m.mounts[0].source.as_deref(), Some("/host"));
    assert_eq!(m.mounts[0].target, "/in");
}

// Labels.

#[test]
fn a_label_of_several_features_is_read() {
    let snippets = label(FEATURES_LABEL);
    assert_eq!(snippets.len(), 5);
    let ids: Vec<_> = snippets.iter().filter_map(|s| s.id.as_deref()).collect();
    assert!(ids.contains(&"ghcr.io/devcontainers/features/docker-outside-of-docker:1"));
    assert!(ids.contains(&"ghcr.io/devcontainers/features/sshd:1"));
}

#[test]
fn accepts_bare_object_label() {
    let snippets = label(r#"{"remoteUser":"vscode"}"#);
    assert_eq!(snippets.len(), 1);
    assert_eq!(snippets[0].remote_user.as_deref(), Some("vscode"));
}

#[test]
fn empty_label_is_not_an_error() {
    assert!(label("   ").is_empty());
}

#[test]
fn ignores_unknown_label_properties() {
    assert_eq!(label(r#"[{"customizations":{"vscode":{"extensions":["a.b"]}}}]"#).len(), 1);
}

#[test]
fn a_label_that_is_no_json_is_an_error() {
    assert!(matches!(parse_metadata_label("[{"), Err(AmError::ContainerError(_)) | Err(AmError::ConfigError(_))));
    assert!(parse_metadata_label("[3]").is_err());
}

// Merging.

#[test]
fn a_merge_keeps_what_every_feature_adds() {
    let r = merged(FEATURES_LABEL);
    assert_eq!(
        r.entrypoints,
        strings(&["/usr/local/share/docker-init.sh", "/usr/local/share/ssh-init.sh"])
    );
    let targets: Vec<_> = r.mounts.iter().map(|m| m.target.as_str()).collect();
    assert_eq!(targets, vec!["/var/run/docker-host.sock", "/mnt/data"]);
    assert_eq!(r.security_opt, strings(&["label=disable"]));
}

#[test]
fn a_merge_takes_the_last_word_for_scalars() {
    let r = merged(FEATURES_LABEL);
    assert_eq!(r.remote_user.as_deref(), Some("vscode"));
    assert_eq!(r.wait_for.as_deref(), Some("postCreateCommand"));
}

#[test]
fn one_contributor_is_enough_for_init_and_privileged() {
    let r = merged(r#"[{"init":true},{"init":false,"privileged":true,"capAdd":["SYS_ADMIN"]},{}]"#);
    assert!(r.init);
    assert!(r.privileged);
    assert_eq!(r.cap_add, strings(&["SYS_ADMIN"]));
}

#[test]
fn merge_unions_lists_without_duplicating() {
    let r = merged(r#"[{"capAdd":["SYS_PTRACE"]},{"capAdd":["SYS_PTRACE","SYS_ADMIN"]}]"#);
    assert_eq!(r.cap_add, vec!["SYS_PTRACE", "SYS_ADMIN"]);
}

#[test]
fn later_mount_on_same_target_replaces_earlier() {
    let r = merged(r#"[{"mounts":["source=/a,target=/same"]},{"mounts":["source=/b,target=/same"]}]"#);
    assert_eq!(r.mounts.len(), 1);
    assert_eq!(r.mounts[0].source.as_deref(), Some("/b"));
}

#[test]
fn lifecycle_commands_are_collected_in_every_shape() {
    let r = merged(
        r#"[{"postCreateCommand":["echo","array-form"],
             "postAttachCommand":{"first":"echo named-form"},
             "onCreateCommand":"echo on-create"}]"#,
    );
    assert_eq!(r.post_create, vec![Command::Argv(strings(&["echo", "array-form"]))]);
    assert_eq!(r.post_attach, vec![Command::Shell("echo named-form".to_string())]);
    assert_eq!(r.on_create, vec![Command::Shell("echo on-create".to_string())]);
}

// The config file.

#[test]
fn a_config_says_what_no_label_does() {
    let json = parse_config_str(
        r#"{
            // Comments are allowed,
            "runArgs": ["--network=host", "--cap-add=SYS_PTRACE"],
            "workspaceFolder": "/workspaces/custom",
            "initializeCommand": "echo host",
        }"#,
    )
    .unwrap();
    assert_eq!(json.run_args, vec!["--network=host", "--cap-add=SYS_PTRACE"]);
    assert_eq!(json.workspace_folder.as_deref(), Some("/workspaces/custom"));
    assert!(json.initialize_command.is_some());
}

#[test]
fn comments_and_trailing_commas_are_allowed_in_a_config() {
    let json = parse_config_str("{\n  // a comment\n  \"name\": \"am-spike\",\n}").unwrap();
    assert_eq!(json.name.as_deref(), Some("am-spike"));
}

#[test]
fn a_broken_config_is_an_error() {
    assert!(parse_config_str("{").is_err());
    assert!(parse_config_str(r#"{"runArgs":"not a list"}"#).is_err());
}

#[test]
fn build_options_and_cache_from_are_parsed() {
    let json = parse_config_str(
        r#"{"build":{"dockerfile":"Dockerfile","options":["--pull"],
                "cacheFrom":"ghcr.io/x/cache"}}"#,
    )
    .unwrap();
    let build = json.build.unwrap();
    assert_eq!(build.options, vec!["--pull"]);
    assert_eq!(build.cache_from.images(), vec!["ghcr.io/x/cache"]);
}

#[test]
fn cache_from_accepts_an_array_too() {
    let json = parse_config_str(r#"{"build":{"dockerfile":"Dockerfile","cacheFrom":["a","b"]}}"#).unwrap();
    assert_eq!(json.build.unwrap().cache_from.images(), vec!["a", "b"]);
}

// Substitution.

#[test]
fn substitutes_workspace_variables() {
    let c = ctx();
    assert_eq!(c.substitute("${localWorkspaceFolder}/x"), "/home/dev/.am/worktrees/feat/x");
    assert_eq!(c.substitute("${localWorkspaceFolderBasename}"), "feat");
    assert_eq!(c.substitute("${containerWorkspaceFolder}"), "/workspaces/feat");
}

#[test]
fn substitutes_local_env() {
    let mut c = ctx();
    c.local_env.insert("AM_TEST_SUBST".to_string(), "hello".to_string());
    assert_eq!(c.substitute("${localEnv:AM_TEST_SUBST}"), "hello");
}

#[test]
fn unknown_variable_becomes_empty() {
    assert_eq!(ctx().substitute("a${nope}b"), "ab");
}

#[test]
fn unterminated_variable_is_left_alone() {
    assert_eq!(ctx().substitute("echo ${incomplete"), "echo ${incomplete");
}

#[test]
fn substitution_leaves_plain_text_untouched() {
    assert_eq!(ctx().substitute("no variables here"), "no variables here");
}

#[test]
fn finalize_substitutes_in_the_mounts_of_a_label() {
    let out = finalize(merged(FEATURES_LABEL), &DevcontainerJson::default(), &ctx());
    let mount = out.mounts.iter().find(|m| m.target == "/mnt/data").unwrap();
    assert_eq!(mount.source.as_deref(), Some("/home/dev/.am/worktrees/feat/.data"));
}

#[test]
fn finalize_resolves_container_env_references_after_merging() {
    let resolved =
        merged(r#"[{"containerEnv":{"BASE":"/opt"}},{"containerEnv":{"DERIVED":"${containerEnv:BASE}/bin"}}]"#);
    let out = finalize(resolved, &DevcontainerJson::default(), &ctx());
    assert_eq!(out.container_env.get("DERIVED").unwrap(), "/opt/bin");
}

// Discovery.

const WT: &str = "/tmp/wt";

fn find(override_path: Option<&str>, files: &[&str], folders: Option<&[&str]>) -> Result<Option<String>, AmError> {
    let files: Vec<String> = files.iter().map(|f| format!("{WT}/{f}")).collect();
    let folders = folders.map(strings);
    find_config(WT, override_path, &files, folders.as_ref())
}

#[test]
fn finds_primary_config() {
    let expected = format!("{WT}/.devcontainer/devcontainer.json");
    assert_eq!(find(None, &[".devcontainer/devcontainer.json"], Some(&[])).unwrap(), Some(expected));
}

#[test]
fn primary_config_wins_over_dotfile() {
    let primary = format!("{WT}/.devcontainer/devcontainer.json");
    assert_eq!(
        find(None, &[".devcontainer/devcontainer.json", ".devcontainer.json"], Some(&[])).unwrap(),
        Some(primary)
    );
}

#[test]
fn finds_dotfile_config() {
    let expected = format!("{WT}/.devcontainer.json");
    assert_eq!(find(None, &[".devcontainer.json"], None).unwrap(), Some(expected));
}

#[test]
fn finds_single_subfolder_config() {
    let expected = format!("{WT}/.devcontainer/backend/devcontainer.json");
    assert_eq!(
        find(None, &[".devcontainer/backend/devcontainer.json"], Some(&["backend", "empty"])).unwrap(),
        Some(expected)
    );
}

#[test]
fn several_subfolder_configs_error_and_list_them() {
    let err = find(None, &[".devcontainer/a/devcontainer.json", ".devcontainer/b/devcontainer.json"], Some(&["b", "a"]))
        .unwrap_err()
        .to_string();
    assert!(err.contains("several devcontainer configs"));
    assert!(err.contains("devcontainer.path"));
}

#[test]
fn no_config_is_not_an_error() {
    assert_eq!(find(None, &[], None).unwrap(), None);
}

#[test]
fn explicit_override_is_used() {
    assert_eq!(
        find(Some("custom/dc.json"), &["custom/dc.json"], None).unwrap(),
        Some(format!("{WT}/custom/dc.json"))
    );
}

#[test]
fn missing_override_errors_rather_than_falling_back() {
    let err = find(Some("nope.json"), &[".devcontainer/devcontainer.json"], Some(&[])).unwrap_err().to_string();
    assert!(err.contains("devcontainer.path"));
}

// Image names.

const CONFIG: &str = "/repo/.devcontainer/devcontainer.json";

fn hash(config: &str, trees: &StrMap<Tree>, lock: &Lockfile) -> String {
    config_hash(CONFIG, &config.as_bytes().to_vec(), None, trees, lock, &vec![]).unwrap()
}

fn name(config: &str, dockerfile: Option<&str>, injected: &[InjectedFeature]) -> String {
    let dockerfile = dockerfile.map(|d| d.as_bytes().to_vec());
    let injected = injected.iter().map(|f| InjectedFeature::new(&f.id, &f.options)).collect();
    image_name(CONFIG, &config.as_bytes().to_vec(), dockerfile.as_ref(), &StrMap::new(), &Lockfile::default(), &injected)
        .unwrap()
}

fn vendored(files: &[(&str, &str)]) -> StrMap<Tree> {
    let entries = files.iter().map(|(n, c)| (n.to_string(), Tree::File(Some(c.as_bytes().to_vec())))).collect();
    let mut trees = StrMap::new();
    trees.insert("./vendored".to_string(), Tree::Folder(entries));
    trees
}

const VENDORED_CONFIG: &str = r#"{"image":"debian","features":{"./vendored":{}}}"#;

#[test]
fn editing_a_vendored_feature_changes_the_image_name() {
    let meta = ("devcontainer-feature.json", r#"{"id":"vendored","version":"1.0.0"}"#);
    let before = vendored(&[meta, ("install.sh", "#!/bin/sh\necho one\n")]);
    let after = vendored(&[meta, ("install.sh", "#!/bin/sh\necho two\n")]);
    assert_ne!(
        hash(VENDORED_CONFIG, &before, &Lockfile::default()),
        hash(VENDORED_CONFIG, &after, &Lockfile::default())
    );
}

#[test]
fn adding_a_file_to_a_vendored_feature_changes_the_image_name() {
    let before = vendored(&[("install.sh", "#!/bin/sh\n")]);
    let after = vendored(&[("install.sh", "#!/bin/sh\n"), ("helper.sh", "#!/bin/sh\n")]);
    assert_ne!(
        hash(VENDORED_CONFIG, &before, &Lockfile::default()),
        hash(VENDORED_CONFIG, &after, &Lockfile::default()),
        "file names count too"
    );
}

#[test]
fn the_order_in_which_a_directory_is_listed_does_not_matter() {
    let one = vendored(&[("install.sh", "a"), ("helper.sh", "b")]);
    let other = vendored(&[("helper.sh", "b"), ("install.sh", "a")]);
    assert_eq!(
        hash(VENDORED_CONFIG, &one, &Lockfile::default()),
        hash(VENDORED_CONFIG, &other, &Lockfile::default())
    );
}

#[test]
fn only_local_features_are_vendored() {
    let ids = local_feature_ids(r#"{"features":{"./a":{},"ghcr.io/devcontainers/features/git:1":{},"../b":{}}}"#);
    assert!(ids.contains(&"./a".to_string()));
    assert!(!ids.contains(&"ghcr.io/devcontainers/features/git:1".to_string()));
}

const GIT_CONFIG: &str = r#"{"image":"debian","features":{"ghcr.io/devcontainers/features/git:1":{}}}"#;

fn git_lock(digest: &str) -> Lockfile {
    let text = format!(
        r#"{{"features":{{"ghcr.io/devcontainers/features/git:1":{{
                        "version":"1.3.8",
                        "resolved":"ghcr.io/devcontainers/features/git@{digest}",
                        "integrity":"{digest}"}}}}}}"#
    );
    load(Some(&text))
}

#[test]
fn a_moved_lockfile_entry_changes_the_image_name() {
    let pinned_old = hash(GIT_CONFIG, &StrMap::new(), &git_lock("sha256:aaa"));
    let pinned_new = hash(GIT_CONFIG, &StrMap::new(), &git_lock("sha256:bbb"));
    assert_ne!(pinned_old, pinned_new, "a moved pin must produce a new image name");
}

#[test]
fn adopting_a_lockfile_changes_the_image_name_once() {
    let config = r#"{"image":"debian","features":{}}"#;
    let unlocked = hash(config, &StrMap::new(), &Lockfile::default());
    let lock = load(Some(r#"{"features":{"a":{"resolved":"a@sha256:1","integrity":"sha256:1"}}}"#));
    assert_ne!(unlocked, hash(config, &StrMap::new(), &lock));
}

#[test]
fn a_registry_feature_does_not_make_the_hash_unstable() {
    let lock = Lockfile::default();
    assert_eq!(hash(GIT_CONFIG, &StrMap::new(), &lock), hash(GIT_CONFIG, &StrMap::new(), &lock));
}

#[test]
fn image_name_is_stable_for_identical_config() {
    let a = name(r#"{"image":"debian"}"#, None, &[]);
    let b = name(r#"{"image":"debian"}"#, None, &[]);
    assert_eq!(a, b);
    assert!(a.starts_with("am-dc-"));
    assert_eq!(a.len(), "am-dc-".len() + 12);
}

#[test]
fn image_name_changes_when_config_changes() {
    assert_ne!(name(r#"{"image":"debian"}"#, None, &[]), name(r#"{"image":"ubuntu"}"#, None, &[]));
}

#[test]
fn image_name_changes_when_injected_features_change() {
    let plain = name(r#"{"image":"debian"}"#, None, &[]);
    let with = name(r#"{"image":"debian"}"#, None, &[InjectedFeature::with_defaults("ghcr.io/x/cc:1")]);
    assert_ne!(plain, with);
}

#[test]
fn image_name_changes_when_feature_options_change() {
    let a = name(r#"{"image":"debian"}"#, None, &[InjectedFeature::new("f", "{}")]);
    let b = name(r#"{"image":"debian"}"#, None, &[InjectedFeature::new("f", r#"{"version":"2"}"#)]);
    assert_ne!(a, b);
}

#[test]
fn injected_feature_order_does_not_affect_the_hash() {
    let a = name(
        r#"{"image":"debian"}"#,
        None,
        &[InjectedFeature::with_defaults("a"), InjectedFeature::with_defaults("b")],
    );
    let b = name(
        r#"{"image":"debian"}"#,
        None,
        &[InjectedFeature::with_defaults("b"), InjectedFeature::with_defaults("a")],
    );
    assert_eq!(a, b);
}

#[test]
fn image_name_changes_when_the_dockerfile_changes() {
    let config = r#"{"build":{"dockerfile":"Dockerfile"}}"#;
    assert_ne!(name(config, Some("FROM debian\n"), &[]), name(config, Some("FROM ubuntu\n"), &[]));
}

#[test]
fn a_config_that_cannot_be_read_has_no_image_name() {
    let lock = Lockfile::default();
    assert!(image_name(CONFIG, &b"{".to_vec(), None, &StrMap::new(), &lock, &vec![]).is_err());
}

// What an image says.

#[test]
fn reads_metadata_label_from_the_runtime() {
    let stdout = b"[{\"remoteUser\":\"vscode\"},{\"entrypoint\":\"/x.sh\"}]\n".to_vec();
    let snippets = read_image_metadata("am-dc-abc", true, &stdout, &vec![]).unwrap();
    assert_eq!(snippets.len(), 2);
    assert_eq!(snippets[1].entrypoint.as_deref(), Some("/x.sh"));
}

#[test]
fn missing_label_is_empty_not_an_error() {
    assert!(read_image_metadata("am-dc-abc", true, &b"<no value>\n".to_vec(), &vec![]).unwrap().is_empty());
}

#[test]
fn inspect_failure_is_reported() {
    let err =
        read_image_metadata("am-dc-abc", false, &vec![], &b"no such image\n".to_vec()).unwrap_err().to_string();
    assert!(err.contains("no such image"));
}

#[test]
fn an_image_is_inspected_by_name() {
    let argv = image_exists("am-dc-abc");
    assert_eq!(argv[argv.len() - 1], "am-dc-abc");
    assert!(argv.contains(&"inspect".to_string()));
    let argv = inspect_command("am-dc-abc", LABEL_FORMAT);
    assert!(argv.contains(&LABEL_FORMAT.to_string()));
    assert!(argv.contains(&"am-dc-abc".to_string()));
}

// Ports.

fn port(text: &str) -> Option<ForwardedPort> {
    ForwardedPort::parse(&parse_strict(text).unwrap())
}

#[test]
fn forward_ports_accepts_every_form_the_spec_allows() {
    assert_eq!(port("3000"), Some(ForwardedPort::Own(3000)));
    assert_eq!(port("\"3000\""), Some(ForwardedPort::Own(3000)));
    assert_eq!(port("\"db:5432\""), Some(ForwardedPort::Service { service: "db".into(), port: 5432 }));
    assert_eq!(port("\"not-a-port\""), None);
    assert_eq!(port("99999"), None, "outside the u16 range");
    assert_eq!(port("true"), None);
}

#[test]
fn forwarded_ports_publish_on_loopback() {
    assert_eq!(ForwardedPort::publish_spec(3000), "127.0.0.1:3000:3000");
}

#[test]
fn forward_ports_merge_as_a_union_across_snippets() {
    let m = merged(r#"[{"forwardPorts":[3000,"db:5432"]},{"forwardPorts":[3000,8080]}]"#);
    assert_eq!(
        m.forward_ports,
        vec![
            ForwardedPort::Own(3000),
            ForwardedPort::Service { service: "db".into(), port: 5432 },
            ForwardedPort::Own(8080),
        ]
    );
}

// What is supported.

#[test]
fn a_compose_config_naming_its_service_is_supported() {
    let json = parse_config_str(r#"{"dockerComposeFile":"docker-compose.yml","service":"app"}"#).unwrap();
    assert!(check_supported(&json).is_ok());
}

#[test]
fn a_compose_config_without_a_service_says_what_to_add() {
    let json = parse_config_str(r#"{"dockerComposeFile":"docker-compose.yml"}"#).unwrap();
    let err = check_supported(&json).unwrap_err().to_string();
    assert!(err.contains("service"), "must name the missing key: {err}");
}

#[test]
fn compose_files_resolve_against_the_config_directory() {
    let json = parse_config_str(r#"{"dockerComposeFile":["a.yml","b.yml"],"service":"app"}"#).unwrap();
    let files = compose_files("/repo/.devcontainer/devcontainer.json", &json);
    assert_eq!(files, strings(&["/repo/.devcontainer/a.yml", "/repo/.devcontainer/b.yml"]));
}

#[test]
fn a_config_with_no_compose_file_yields_no_compose_files() {
    let json = parse_config_str(r#"{"image":"debian"}"#).unwrap();
    assert!(compose_files("/repo/.devcontainer/devcontainer.json", &json).is_empty());
}

#[test]
fn plain_image_config_is_supported() {
    let json = parse_config_str(r#"{"image":"debian"}"#).unwrap();
    assert!(check_supported(&json).is_ok());
}

#[test]
fn initialize_command_is_refused_by_default() {
    let json = parse_config_str(r#"{"initializeCommand":"./setup.sh"}"#).unwrap();
    let err = check_host_commands(&json, false).unwrap_err().to_string();
    assert!(err.contains("runs on your host"));
    assert!(err.contains("allow_host_commands"));
}

#[test]
fn initialize_command_is_allowed_when_opted_in() {
    let json = parse_config_str(r#"{"initializeCommand":"./setup.sh"}"#).unwrap();
    assert!(check_host_commands(&json, true).is_ok());
}

#[test]
fn config_without_initialize_command_passes_either_way() {
    let json = parse_config_str(r#"{"image":"debian"}"#).unwrap();
    assert!(check_host_commands(&json, false).is_ok());
}

// Trust.

fn escalating() -> ResolvedConfig {
    ResolvedConfig {
        init: true,
        privileged: true,
        cap_add: strings(&["SYS_ADMIN"]),
        security_opt: strings(&["label=disable"]),
        run_args: strings(&["--network=host"]),
        ..Default::default()
    }
}

fn cfg_with(allow: bool) -> Config {
    let mut cfg = Config::default();
    cfg.devcontainer.allow_host_commands = allow;
    cfg
}

#[test]
fn trust_gate_drops_escalating_options_by_default() {
    let runtime = apply_trust(&escalating(), &cfg_with(false), "/work/tree");
    assert!(!runtime.privileged);
    assert!(runtime.cap_add.is_empty());
    assert!(runtime.run_args.is_empty());
}

#[test]
fn trust_gate_grants_escalating_options_when_opted_in() {
    let runtime = apply_trust(&escalating(), &cfg_with(true), "/work/tree");
    assert!(runtime.privileged);
    assert_eq!(runtime.cap_add, strings(&["SYS_ADMIN"]));
    assert_eq!(runtime.run_args, strings(&["--network=host"]));
}

#[test]
fn trust_gate_keeps_non_escalating_settings_either_way() {
    let runtime = apply_trust(&escalating(), &cfg_with(false), "/work/tree");
    assert!(runtime.init);
    assert_eq!(runtime.security_opt, strings(&["label=disable"]));
}

#[test]
fn trust_gate_merges_container_and_remote_env() {
    let mut resolved = ResolvedConfig::default();
    resolved.container_env.insert("A".to_string(), "1".to_string());
    resolved.remote_env.insert("B".to_string(), Some("2".to_string()));
    let runtime = apply_trust(&resolved, &cfg_with(false), "/work/tree");
    assert!(runtime.env.contains(&("A".to_string(), "1".to_string())));
    assert!(runtime.env.contains(&("B".to_string(), "2".to_string())));
}

#[test]
fn trust_gate_keeps_bind_mounts_within_the_worktree() {
    let mount = |kind: &str, source: Option<&str>| NormalizedMount {
        source: source.map(str::to_string),
        target: "/data".to_string(),
        kind: kind.to_string(),
        read_only: false,
    };
    let kept = |m: NormalizedMount, allow: bool| {
        let resolved = ResolvedConfig { mounts: vec![m], ..Default::default() };
        apply_trust(&resolved, &cfg_with(allow), "/work/tree").mounts.len() == 1
    };
    assert!(kept(mount("bind", Some("/work/tree")), false));
    assert!(kept(mount("bind", Some("/work/tree/data")), false));
    assert!(!kept(mount("bind", Some("/work/tree2/data")), false));
    assert!(!kept(mount("bind", Some("/work/tree/../secret")), false));
    assert!(!kept(mount("bind", Some("/etc")), false));
    assert!(kept(mount("bind", Some("/etc")), true));
    assert!(kept(mount("volume", Some("cache")), false));
    assert!(kept(mount("bind", None), false));
}

#[test]
fn finalize_substitutes_in_entrypoints() {
    let out = finalize(
        merged(r#"[{"entrypoint":"${containerWorkspaceFolder}/init.sh"},{"entrypoint":"/plain.sh"}]"#),
        &DevcontainerJson::default(),
        &ctx(),
    );
    assert_eq!(out.entrypoints, vec![ctx().substitute("${containerWorkspaceFolder}/init.sh"), "/plain.sh".to_string()]);
    assert_ne!(out.entrypoints[0], "${containerWorkspaceFolder}/init.sh");
}

#[test]
fn finalize_substitutes_in_every_text() {
    let resolved = merged(
        r#"[{"containerEnv":{"WHO":"dev"},"containerUser":"c-${containerEnv:WHO}","remoteUser":"${containerEnv:WHO}",
            "capAdd":["${containerEnv:WHO}"],"securityOpt":["label=${containerEnv:WHO}"]}]"#,
    );
    let json = parse_config_str(r#"{"name":"of ${containerEnv:WHO}"}"#).unwrap();
    let out = finalize(resolved, &json, &ctx());
    assert_eq!(out.container_user.as_deref(), Some("c-dev"));
    assert_eq!(out.remote_user.as_deref(), Some("dev"));
    assert_eq!(out.cap_add, strings(&["dev"]));
    assert_eq!(out.security_opt, strings(&["label=dev"]));
    assert_eq!(out.name.as_deref(), Some("of dev"));
}

#[test]
fn an_image_name_is_a_prefix_and_twelve_digits_whatever_the_order_of_injection() {
    let (a, b) = (InjectedFeature::new("a", "{}"), InjectedFeature::new("b", "{}"));
    let (c, d) = (InjectedFeature::new("a", "{}"), InjectedFeature::new("b", "{}"));
    let one = name(r#"{"image":"debian"}"#, None, &[a, b]);
    let other = name(r#"{"image":"debian"}"#, None, &[d, c]);
    assert_eq!(one, other);
    let digits = one.strip_prefix("am-dc-").unwrap();
    assert_eq!(digits.len(), 12);
    assert!(digits.chars().all(|c| c.is_ascii_digit() || ('a'..='f').contains(&c)));
}

#[test]
fn what_is_not_granted_is_said() {
    assert_eq!(
        trust_notes(&escalating(), &cfg_with(false)),
        strings(&[
            "this devcontainer asks for --privileged; am is not granting it. Set devcontainer.allow_host_commands = true to allow it.",
            "not granting capabilities requested by this devcontainer: SYS_ADMIN",
            "ignoring runArgs from this devcontainer: --network=host",
        ])
    );
    assert!(trust_notes(&escalating(), &cfg_with(true)).is_empty());
}

// Lifecycle hooks.

fn with_hooks() -> ResolvedConfig {
    ResolvedConfig {
        on_create: vec![Command::Shell("echo on-create".to_string())],
        update_content: vec![Command::Shell("echo update".to_string())],
        post_create: vec![Command::Argv(strings(&["npm", "install"]))],
        post_start: vec![Command::Shell("echo start".to_string())],
        post_attach: vec![Command::Shell("echo attach".to_string())],
        ..Default::default()
    }
}

#[test]
fn hooks_run_in_spec_order() {
    let (snippets, _) = startup_commands(&with_hooks(), false);
    assert_eq!(snippets, vec!["echo on-create", "echo update", "npm install", "echo start"]);
}

#[test]
fn post_attach_is_kept_out_of_the_startup_hooks() {
    let (snippets, names) = startup_commands(&with_hooks(), false);
    assert!(!snippets.iter().any(|s| s.contains("attach")));
    assert!(!names.iter().any(|n| n == "postAttachCommand"));
}

#[test]
fn attach_commands_are_the_post_attach_hook() {
    assert_eq!(attach_commands(&with_hooks(), false), vec!["echo attach"]);
}

#[test]
fn skip_lifecycle_suppresses_the_attach_hook_too() {
    assert!(attach_commands(&with_hooks(), true).is_empty());
}

#[test]
fn a_config_with_no_post_attach_has_nothing_to_run() {
    assert!(attach_commands(&ResolvedConfig::default(), false).is_empty());
}

#[test]
fn every_post_attach_contributor_runs_in_order() {
    let m = merged(
        r#"[{"postAttachCommand":"echo from-feature"},{"postAttachCommand":["echo","from-config"]}]"#,
    );
    assert_eq!(attach_commands(&m, false), vec!["echo from-feature", "echo from-config"]);
}

#[test]
fn hooks_are_recorded_by_name() {
    let (_, names) = startup_commands(&with_hooks(), false);
    assert_eq!(names, vec!["onCreateCommand", "updateContentCommand", "postCreateCommand", "postStartCommand"]);
}

#[test]
fn skip_lifecycle_suppresses_every_hook() {
    let (snippets, names) = startup_commands(&with_hooks(), true);
    assert!(snippets.is_empty());
    assert!(names.is_empty());
}

#[test]
fn a_stage_with_no_commands_is_not_recorded() {
    let resolved =
        ResolvedConfig { post_create: vec![Command::Shell("echo only".to_string())], ..Default::default() };
    let (_, names) = startup_commands(&resolved, false);
    assert_eq!(names, vec!["postCreateCommand"]);
}

#[test]
fn shell_hooks_keep_their_shell_syntax() {
    let cmd = Command::Shell("apt-get update && apt-get install -y jq".to_string());
    assert_eq!(cmd.to_shell(), "apt-get update && apt-get install -y jq");
}

#[test]
fn argv_hooks_are_quoted_rather_than_interpreted() {
    let cmd = Command::Argv(strings(&["echo", "two words"]));
    assert_eq!(cmd.to_shell(), "echo 'two words'");
}

#[test]
fn the_env_probe_defaults_and_maps_to_flags() {
    assert_eq!(UserEnvProbe::parse(Some("none")), UserEnvProbe::Off);
    assert_eq!(UserEnvProbe::parse(Some("loginShell")), UserEnvProbe::LoginShell);
    assert_eq!(UserEnvProbe::parse(Some("interactiveShell")), UserEnvProbe::InteractiveShell);
    assert_eq!(UserEnvProbe::parse(None), UserEnvProbe::LoginInteractiveShell);
    assert_eq!(UserEnvProbe::LoginShell.shell_flags(), Some("-lc"));
}

#[test]
fn a_config_that_cannot_be_read_names_the_property() {
    let why = |text: &str| parse_config_str(text).unwrap_err().to_string();
    assert!(why(r#"{"runArgs":"--init"}"#).contains("the devcontainer.json property 'runArgs' has the wrong type"));
    assert!(why(r#"{"image":3,"build":4}"#).contains("'image'"));
    assert!(why(r#"{"build":4}"#).contains("'build'"));
    assert!(why(r#"{"build":{"dockerfile":"D","target":1}}"#).contains("'build.target'"));
    assert!(why(r#"{"build":{"cacheFrom":1}}"#).contains("'build.cacheFrom'"));
    assert!(why("3").contains("a devcontainer.json must hold an object"));
    assert!(image_name(CONFIG, &br#"{"service":1}"#.to_vec(), None, &StrMap::new(), &Lockfile::default(), &vec![])
        .unwrap_err()
        .to_string()
        .contains("'service'"));
}

#[test]
fn a_record_may_be_spelled_by_position() {
    let resolved = merged(r#"[{"mounts":[["src","/target"],["s","/t","volume",true],[null,"/u"]]}]"#);
    let seen: Vec<_> =
        resolved.mounts.iter().map(|m| (m.source.as_deref(), m.target.as_str(), m.kind.as_str(), m.read_only)).collect();
    assert_eq!(
        seen,
        vec![
            (Some("src"), "/target", "bind", false),
            (Some("s"), "/t", "volume", true),
            (None, "/u", "bind", false),
        ]
    );
    assert!(parse_metadata_label(r#"[{"mounts":[["src"]]}]"#).is_err());
    assert!(parse_metadata_label(r#"[{"mounts":[["s","/t","bind",true,1]]}]"#).is_err());

    let json = parse_config_str(r#"["n",[],null,null,null,null,null,"debian",["D",null,{},"t"]]"#).unwrap();
    assert_eq!(json.name.as_deref(), Some("n"));
    assert_eq!(json.image.as_deref(), Some("debian"));
    assert_eq!(json.build.unwrap().target.as_deref(), Some("t"));
    assert!(parse_config_str(r#"["n",[]]"#).is_err());

    let whole = r#"["i","/e.sh",[],true,null,[],[],{},{},null,"dev",null,null,null,null,null,null,null,null]"#;
    let one = parse_metadata_label(whole).unwrap();
    assert_eq!(one.len(), 1);
    assert_eq!(one[0].id.as_deref(), Some("i"));
    assert_eq!(one[0].remote_user.as_deref(), Some("dev"));
    assert_eq!(parse_metadata_label(&format!("[{whole}]")).unwrap().len(), 1);

    assert_eq!(load(Some("[]")), Lockfile::default());
    let lock = load(Some(r#"[{"a:1":["1.0","a@sha256:1","sha256:1"]}]"#));
    assert_eq!(lock.digest_for("a:1"), Some("sha256:1"));
}
