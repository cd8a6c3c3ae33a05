use am::config::{
    global_config_path, global_config_template, global_state_dir, load_with_global, render_project_config_skeleton,
    resolve_agent_feature, resolve_image, validate_container_user, validate_env_passthrough, AgentInstall, Config,
    ConfigText, ContainerMode, RuntimePreference,
};
use am::error::AmError;
use am::strmap::StrMap;
use am::toml_text::parse_toml;

fn file(name: &str, text: &str) -> Option<ConfigText> {
    Some(ConfigText { path: format!("/tmp/t/{name}"), text: text.to_string() })
}

fn env(entries: &[(&str, &str)]) -> StrMap<String> {
    let mut m = StrMap::new();
    for (k, v) in entries {
        m.insert(k.to_string(), v.to_string());
    }
    m
}

fn load(global: Option<ConfigText>, project: Option<ConfigText>, vars: &[(&str, &str)]) -> Result<Config, AmError> {
    load_with_global(global, project, &env(vars))
}

fn image_of<'a>(config: &'a Config, agent: &str) -> Option<&'a str> {
    config.agents.get(agent).and_then(|a| a.image.as_deref())
}

#[test]
fn unknown_keys_are_collected_not_rejected() {
    let project = file(
        "project.toml",
        r#"
typo_at_top = 1

[defaults]
agent = "codex"
agnet = "copilot"

[tmux]
splt_percent = 30

[container]
agent = "copilot"

[devcontainer]
skip_lifecyle = true

[agents.codex]
imag = "nope:latest"
"#,
    );

    let config = load(None, project, &[]).unwrap();

    assert_eq!(config.agent.as_deref(), Some("codex"));

    let keys: Vec<&str> = config.unknown_keys.iter().map(|u| u.key.as_str()).collect();
    assert_eq!(
        keys,
        vec![
            "agents.codex.imag",
            "container.agent",
            "defaults.agnet",
            "devcontainer.skip_lifecyle",
            "tmux.splt_percent",
            "typo_at_top",
        ]
    );
    assert!(config.unknown_keys.iter().all(|u| u.file == "/tmp/t/project.toml"));
}

#[test]
fn a_clean_config_reports_no_unknown_keys() {
    let project = file("project.toml", "[defaults]\nagent = \"codex\"\n\n[container]\nenabled = true\n");
    let config = load(None, project, &[]).unwrap();
    assert!(config.unknown_keys.is_empty(), "{:?}", config.unknown_keys);
}

#[test]
fn unknown_keys_name_the_file_they_came_from() {
    let global = file("global.toml", "[tmux]\nwrong_one = 1\n");
    let project = file("project.toml", "[tmux]\nother_one = 2\n");

    let config = load(global, project, &[]).unwrap();

    let found: Vec<(String, String)> =
        config.unknown_keys.iter().map(|u| (u.key.clone(), u.file.clone())).collect();
    assert_eq!(
        found,
        vec![
            ("tmux.wrong_one".to_string(), "/tmp/t/global.toml".to_string()),
            ("tmux.other_one".to_string(), "/tmp/t/project.toml".to_string()),
        ]
    );
}

#[test]
fn project_agent_beats_global_agent() {
    let global = file("global.toml", "[defaults]\nagent = \"copilot\"\n");
    let project = file("project.toml", "[defaults]\nagent = \"codex\"\n");
    let config = load(global, project, &[]).unwrap();
    assert_eq!(config.agent.as_deref(), Some("codex"));
}

#[test]
fn env_agent_beats_both_config_files() {
    let global = file("global.toml", "[defaults]\nagent = \"copilot\"\n");
    let project = file("project.toml", "[defaults]\nagent = \"codex\"\n");
    let config = load(global, project, &[("AM_AGENT", "gemini")]).unwrap();
    assert_eq!(config.agent.as_deref(), Some("gemini"));
}

#[test]
fn container_agent_is_no_longer_a_way_to_set_the_agent() {
    let project = file("project.toml", "[container]\nagent = \"copilot\"\n");
    let config = load(None, project, &[("AM_CONTAINER_AGENT", "copilot")]).unwrap();
    assert_eq!(config.agent, None);
}

#[test]
fn defaults_when_no_config_files() {
    let config = load(None, None, &[]).unwrap();

    assert!(config.agent.is_none());
    assert_eq!(config.tmux.split_percent, 50);
    assert!(config.container.enabled);
    assert_eq!(config.container.runtime, RuntimePreference::Auto);
    assert!(config.container.image.is_none());
    assert_eq!(image_of(&config, "copilot"), Some("ghcr.io/dstanek/am-copilot-minimal:latest"));
}

#[test]
fn project_config_overrides_global() {
    let global = file(
        "global.toml",
        r#"
[defaults]
agent = "codex"
[container]
image = "global-image"
"#,
    );
    let project = file(
        "project.toml",
        r#"
[defaults]
agent = "gemini"
[container]
image = "project-image"
"#,
    );

    let config = load(global, project, &[]).unwrap();

    assert_eq!(config.agent.as_deref(), Some("gemini"));
    assert_eq!(config.container.image.as_deref(), Some("project-image"));
}

#[test]
fn project_config_inherits_unset_global_fields() {
    let global = file(
        "global.toml",
        r#"
[defaults]
agent = "codex"
[tmux]
split_percent = 70
"#,
    );
    let project = file(
        "project.toml",
        r#"
[container]
image = "myimage"
"#,
    );

    let config = load(global, project, &[]).unwrap();

    assert_eq!(config.agent.as_deref(), Some("codex"));
    assert_eq!(config.tmux.split_percent, 70);
    assert_eq!(config.container.image.as_deref(), Some("myimage"));
}

#[test]
fn write_defaults_content_is_valid_toml() {
    let content = render_project_config_skeleton();
    assert!(parse_toml(content).is_ok(), "default config is not valid TOML");
    assert!(content.contains("[defaults]"));
    assert!(content.contains("[tmux]"));
    assert!(content.contains("[container]"));
}

#[test]
fn env_vars_override_project_config() {
    let project = file(
        "project.toml",
        r#"
[defaults]
agent = "gemini"
[container]
image = "project-image"
"#,
    );

    let config =
        load(None, project, &[("AM_AGENT", "codex"), ("AM_CONTAINER_IMAGE", "env-image")]).unwrap();

    assert_eq!(config.agent.as_deref(), Some("codex"));
    assert_eq!(config.container.image.as_deref(), Some("env-image"));
}

#[test]
fn resolve_image_uses_agent_mapping() {
    let config = Config::default();
    assert_eq!(
        resolve_image(Some("copilot"), &config),
        Some("ghcr.io/dstanek/am-copilot-minimal:latest")
    );
}

#[test]
fn resolve_image_container_image_overrides_agent() {
    let mut config = Config::default();
    config.container.image = Some("custom-image:v1".to_string());
    assert_eq!(resolve_image(Some("copilot"), &config), Some("custom-image:v1"));
}

#[test]
fn resolve_image_returns_none_for_unknown_agent() {
    let config = Config::default();
    assert_eq!(resolve_image(Some("unknown-agent"), &config), None);
    assert_eq!(resolve_image(None, &config), None);
}

#[test]
fn agent_image_overridden_in_project_config() {
    let project = file(
        "project.toml",
        r#"
[agents.copilot]
image = "myorg/am-copilot:custom"
"#,
    );

    let config = load(None, project, &[]).unwrap();

    assert_eq!(image_of(&config, "copilot"), Some("myorg/am-copilot:custom"));
    assert_eq!(config.agents.len(), Config::default().agents.len());
}

#[test]
fn agent_images_merged_across_global_and_project() {
    let global = file(
        "global.toml",
        r#"
[agents.gemini]
image = "myorg/am-gemini:latest"
"#,
    );
    let project = file(
        "project.toml",
        r#"
[agents.codex]
image = "myorg/am-codex:project"
"#,
    );

    let config = load(global, project, &[]).unwrap();

    assert_eq!(image_of(&config, "gemini"), Some("myorg/am-gemini:latest"));
    assert_eq!(image_of(&config, "codex"), Some("myorg/am-codex:project"));
    assert_eq!(image_of(&config, "copilot"), Some("ghcr.io/dstanek/am-copilot-minimal:latest"));
}

#[test]
fn global_state_dir_uses_xdg_state_home() {
    assert_eq!(global_state_dir(Some("/tmp/t/xdg_state"), None), Some("/tmp/t/xdg_state/am".to_string()));
}

#[test]
fn global_state_dir_falls_back_to_home_local_state() {
    assert_eq!(global_state_dir(None, Some("/tmp/t")), Some("/tmp/t/.local/state/am".to_string()));
}

#[test]
fn global_state_dir_returns_none_without_home_or_xdg() {
    assert_eq!(global_state_dir(None, None), None);
}

#[test]
fn global_config_path_uses_xdg_config_home() {
    assert_eq!(global_config_path(Some("/tmp/t/xdg"), None), Some("/tmp/t/xdg/am/config.toml".to_string()));
}

#[test]
fn global_config_path_falls_back_to_home_dot_config() {
    assert_eq!(global_config_path(None, Some("/tmp/t")), Some("/tmp/t/.config/am/config.toml".to_string()));
}

fn owned(entries: &[&str]) -> Vec<String> {
    entries.iter().map(|e| e.to_string()).collect()
}

#[test]
fn valid_env_entries_accepted() {
    assert!(validate_env_passthrough(&owned(&[
        "ANTHROPIC_API_KEY",
        "FOO=bar",
        "_UNDERSCORE_START",
        "LOWER_case=value",
    ]))
    .is_ok());
}

#[test]
fn env_entry_starting_with_dash_rejected() {
    let err = validate_env_passthrough(&owned(&["--rm"])).unwrap_err();
    assert!(err.to_string().contains("--rm"));
}

#[test]
fn env_entry_with_space_in_name_rejected() {
    let err = validate_env_passthrough(&owned(&["FOO BAR=val"])).unwrap_err();
    assert!(err.to_string().contains("FOO BAR=val"));
}

#[test]
fn env_entry_starting_with_digit_rejected() {
    let err = validate_env_passthrough(&owned(&["1INVALID"])).unwrap_err();
    assert!(err.to_string().contains("1INVALID"));
}

#[test]
fn load_with_global_errors_on_bad_env_entry() {
    let project = file(
        "config.toml",
        r#"
[container]
env = ["--rm"]
"#,
    );
    let err = load(None, project, &[]).unwrap_err();
    assert!(err.to_string().contains("--rm"));
}

#[test]
fn split_percent_out_of_range_in_toml_fails() {
    let project = file(
        "config.toml",
        r#"
[tmux]
split_percent = 100
"#,
    );
    let err = load(None, project, &[]).unwrap_err();
    assert!(err.to_string().contains("split_percent"), "expected split_percent error");
}

#[test]
fn split_percent_zero_in_toml_fails() {
    let project = file(
        "config.toml",
        r#"
[tmux]
split_percent = 0
"#,
    );
    assert!(load(None, project, &[]).is_err());
}

#[test]
fn split_percent_env_var_out_of_range_errors() {
    let err = load(None, None, &[("AM_TMUX_SPLIT_PERCENT", "0")]).unwrap_err();
    assert!(err.to_string().contains("AM_TMUX_SPLIT_PERCENT"), "expected AM_TMUX_SPLIT_PERCENT error");
}

#[test]
fn split_percent_env_var_over_max_errors() {
    let err = load(None, None, &[("AM_TMUX_SPLIT_PERCENT", "100")]).unwrap_err();
    assert!(err.to_string().contains("AM_TMUX_SPLIT_PERCENT"));
}

#[test]
fn split_percent_env_var_non_numeric_errors() {
    let err = load(None, None, &[("AM_TMUX_SPLIT_PERCENT", "fifty")]).unwrap_err();
    assert!(err.to_string().contains("AM_TMUX_SPLIT_PERCENT"));
}

#[test]
fn split_percent_env_var_valid_value_applied() {
    let config = load(None, None, &[("AM_TMUX_SPLIT_PERCENT", "30")]).unwrap();
    assert_eq!(config.tmux.split_percent, 30);
}

#[test]
fn valid_container_users_accepted() {
    assert!(validate_container_user("am").is_ok());
    assert!(validate_container_user("_svc").is_ok());
    assert!(validate_container_user("dev-user1").is_ok());
}

#[test]
fn container_user_with_path_traversal_rejected() {
    let err = validate_container_user("../root").unwrap_err();
    assert!(err.to_string().contains("../root"));
}

#[test]
fn load_with_global_errors_on_invalid_container_user_in_file() {
    let project = file(
        "config.toml",
        r#"
[container]
user = "../root"
"#,
    );
    let err = load(None, project, &[]).unwrap_err();
    assert!(err.to_string().contains("../root"));
}

#[test]
fn env_var_can_override_container_user() {
    let config = load(None, None, &[("AM_CONTAINER_USER", "dev-user1")]).unwrap();
    assert_eq!(config.container.user, "dev-user1");
}

#[test]
fn load_with_global_errors_on_invalid_container_user_in_env() {
    let err = load(None, None, &[("AM_CONTAINER_USER", "../root")]).unwrap_err();
    assert!(err.to_string().contains("../root"));
}

#[test]
fn container_mode_defaults_to_auto() {
    let config = load(None, None, &[]).unwrap();
    assert_eq!(config.container.mode, ContainerMode::Auto);
}

#[test]
fn explicit_image_mode_still_overrides_the_default() {
    let config = load(None, file("project.toml", "[container]\nmode = \"image\"\n"), &[]).unwrap();
    assert_eq!(config.container.mode, ContainerMode::Image);
}

#[test]
fn container_mode_reads_from_file() {
    let config = load(None, file("project.toml", "[container]\nmode = \"devcontainer\"\n"), &[]).unwrap();
    assert_eq!(config.container.mode, ContainerMode::Devcontainer);
}

#[test]
fn container_mode_env_overrides_file() {
    let config = load(
        None,
        file("project.toml", "[container]\nmode = \"image\"\n"),
        &[("AM_CONTAINER_MODE", "auto")],
    )
    .unwrap();
    assert_eq!(config.container.mode, ContainerMode::Auto);
}

#[test]
fn devcontainer_defaults_are_conservative() {
    let config = load(None, None, &[]).unwrap();
    assert!(!config.devcontainer.allow_host_commands);
    assert!(!config.devcontainer.skip_lifecycle);
    assert_eq!(config.devcontainer.agent_install, AgentInstall::Auto);
    assert_eq!(config.devcontainer.cli, "devcontainer");
}

#[test]
fn devcontainer_section_reads_from_file() {
    let config = load(
        None,
        file(
            "project.toml",
            "[devcontainer]\n\
             path = \".devcontainer/custom.json\"\n\
             agent_install = \"bootstrap\"\n\
             allow_host_commands = true\n",
        ),
        &[],
    )
    .unwrap();

    assert_eq!(config.devcontainer.path.as_deref(), Some(".devcontainer/custom.json"));
    assert_eq!(config.devcontainer.agent_install, AgentInstall::Bootstrap);
    assert!(config.devcontainer.allow_host_commands);
}

#[test]
fn extra_features_merge_rather_than_replace() {
    let global = file("global.toml", "[devcontainer.extra_features]\n\"ghcr.io/x/a:1\" = \"{}\"\n");
    let project = file("project.toml", "[devcontainer.extra_features]\n\"ghcr.io/x/b:1\" = \"{}\"\n");
    let config = load(global, project, &[]).unwrap();
    assert_eq!(config.devcontainer.extra_features.len(), 2);
}

#[test]
fn agents_without_a_published_feature_map_to_none() {
    let config = load(None, None, &[]).unwrap();
    assert_eq!(resolve_agent_feature(Some("copilot"), &config), None);
    assert_eq!(resolve_agent_feature(Some("gemini"), &config), None);
    assert_eq!(resolve_agent_feature(None, &config), None);
}

#[test]
fn devcontainer_feature_can_be_overridden_per_agent() {
    let config = load(
        None,
        file("project.toml", "[agents.gemini]\ndevcontainer_feature = \"ghcr.io/me/gemini:1\"\n"),
        &[],
    )
    .unwrap();
    assert_eq!(resolve_agent_feature(Some("gemini"), &config), Some("ghcr.io/me/gemini:1"));
}

#[test]
fn a_file_that_is_not_toml_names_itself() {
    let err = load(file("global.toml", "[defaults"), None, &[]).unwrap_err();
    assert!(err.to_string().contains("/tmp/t/global.toml"), "got: {}", err.to_string());
}

#[test]
fn a_value_of_the_wrong_type_is_an_error() {
    assert!(load(None, file("project.toml", "[container]\nenabled = \"yes\"\n"), &[]).is_err());
    assert!(load(None, file("project.toml", "[container]\nmode = \"sometimes\"\n"), &[]).is_err());
}

#[test]
fn the_global_template_sets_the_defaults() {
    let plain = load(None, None, &[]).unwrap();
    let config = load(file("global.toml", global_config_template()), None, &[]).unwrap();
    assert_eq!(config.tmux, plain.tmux);
    assert_eq!(config.container, plain.container);
    assert_eq!(config.devcontainer, plain.devcontainer);
    assert_eq!(config.agents, plain.agents);
    assert_eq!(config.agent.as_deref(), Some("copilot"));
    assert!(config.unknown_keys.is_empty());
}

#[test]
fn environment_flags_and_choices_that_mean_nothing_are_refused_or_ignored_alike() {
    for (name, bad) in [("AM_CONTAINER_MODE", "sometimes"), ("AM_CONTAINER_NETWORK", "half")] {
        let with = load(None, None, &[(name, bad)]).map(|c| c.container);
        let without = load(None, None, &[]).map(|c| c.container);
        assert_eq!(with.ok(), without.ok(), "{name}");
    }
    let config = load(None, None, &[("AM_CONTAINER_ENABLED", "false"), ("AM_CONTAINER_NETWORK", "none")]).unwrap();
    assert!(!config.container.enabled);
}

#[test]
fn the_project_skeleton_activates_nothing() {
    let global = || file("global.toml", "odd = 1\n[defaults]\nagent = \"codex\"\n[tmux]\nsplit_percent = 30\n");
    let vars = [("AM_CONTAINER_NETWORK", "none")];
    let without = load(global(), None, &vars).unwrap();
    let with = load(global(), file("project.toml", render_project_config_skeleton()), &vars).unwrap();
    assert_eq!(with, without);
    assert_eq!(with.unknown_keys.len(), 1);
}

#[test]
fn a_file_applied_twice_is_applied_once() {
    let text = "odd = 1\n[defaults]\nagent = \"codex\"\n[agents.copilot]\nimage = \"x:1\"\n[agents.codex]\ndevcontainer_feature = \"f:1\"\n[devcontainer.extra_features]\n\"a/b\" = \"{}\"\n";
    let once = load(file("f.toml", text), None, &[]).unwrap();
    let twice = load(file("f.toml", text), file("f.toml", text), &[]).unwrap();
    assert_eq!(twice.agent, once.agent);
    assert_eq!(twice.agents, once.agents);
    assert_eq!(twice.devcontainer, once.devcontainer);
    assert_eq!(twice.container, once.container);
}

#[test]
fn an_empty_entry_leaves_its_setting() {
    let global = file(
        "global.toml",
        "[defaults]\nagent = \"codex\"\n[container]\nimage = \"x:1\"\nuser = \"dev\"\n[devcontainer]\ncli = \"/opt/dc\"\n",
    );
    let project = file(
        "project.toml",
        "[defaults]\nagent = \"\"\n[container]\nimage = \"\"\nuser = \"\"\n[devcontainer]\ncli = \"\"\n[agents.copilot]\nimage = \"\"\n",
    );
    let config = load(global, project, &[]).unwrap();
    assert_eq!(config.agent.as_deref(), Some("codex"));
    assert_eq!(config.container.image.as_deref(), Some("x:1"));
    assert_eq!(config.container.user, "dev");
    assert_eq!(config.devcontainer.cli, "/opt/dc");
    assert_eq!(image_of(&config, "copilot"), Some("ghcr.io/dstanek/am-copilot-minimal:latest"));
}

#[test]
fn the_devcontainer_cli_comes_from_its_variable() {
    let project = || file("project.toml", "[devcontainer]\ncli = \"/opt/dc\"\n");
    let cli = |vars: &[(&str, &str)]| load(None, project(), vars).unwrap().devcontainer.cli;
    assert_eq!(cli(&[]), "/opt/dc");
    assert_eq!(cli(&[("AM_DEVCONTAINER_BIN", "/usr/local/bin/dc")]), "/usr/local/bin/dc");
    assert_eq!(cli(&[("AM_DEVCONTAINER_BIN", "")]), "/opt/dc");
    assert_eq!(load(None, None, &[]).unwrap().devcontainer.cli, "devcontainer");
}

#[test]
fn every_variable_beats_the_files() {
    let text = "[defaults]\nagent = \"copilot\"\n[tmux]\nagent_pane = \"left\"\nsplit = \"horizontal\"\nsplit_percent = 20\n[container]\nenabled = true\nmode = \"image\"\nruntime = \"podman\"\nimage = \"f:1\"\nnetwork = \"full\"\ngitconfig = \"/f/g\"\nssh = \"/f/s\"\nssh_agent = true\nuser = \"fileuser\"\n[devcontainer]\npath = \"f.json\"\ncli = \"/f/dc\"\nagent_install = \"none\"\nallow_host_commands = false\n";
    let vars = [
        ("AM_AGENT", "codex"),
        ("AM_TMUX_AGENT_PANE", "right"),
        ("AM_TMUX_SPLIT", "vertical"),
        ("AM_TMUX_SPLIT_PERCENT", "70"),
        ("AM_CONTAINER_ENABLED", "no"),
        ("AM_CONTAINER_MODE", "devcontainer"),
        ("AM_CONTAINER_RUNTIME", "docker"),
        ("AM_CONTAINER_IMAGE", "e:1"),
        ("AM_CONTAINER_NETWORK", "none"),
        ("AM_CONTAINER_GITCONFIG", "/e/g"),
        ("AM_CONTAINER_SSH", "/e/s"),
        ("AM_CONTAINER_SSH_AGENT", "0"),
        ("AM_CONTAINER_USER", "envuser"),
        ("AM_DEVCONTAINER_PATH", "e.json"),
        ("AM_DEVCONTAINER_BIN", "/e/dc"),
        ("AM_DEVCONTAINER_AGENT_INSTALL", "bootstrap"),
        ("AM_DEVCONTAINER_ALLOW_HOST_COMMANDS", "yes"),
    ];
    let both = load(file("global.toml", text), file("project.toml", text), &vars).unwrap();
    let alone = load(None, None, &vars).unwrap();
    assert_eq!(both, alone);
    assert_eq!(both.agent.as_deref(), Some("codex"));
    assert_eq!(both.tmux.split_percent, 70);
    assert!(!both.container.enabled && !both.container.ssh_agent && both.devcontainer.allow_host_commands);
    assert_eq!(both.container.mode, ContainerMode::Devcontainer);
    assert_eq!(both.container.runtime, RuntimePreference::Docker);
    assert_eq!(both.devcontainer.agent_install, AgentInstall::Bootstrap);
}

#[test]
fn a_date_is_no_text_and_no_flag() {
    assert!(load(None, file("project.toml", "[container]\nuser = 2020-01-01\n"), &[]).is_err());
    assert!(load(None, file("project.toml", "[container]\nenabled = 2020-01-01\n"), &[]).is_err());
    let config = load(None, file("project.toml", "tmux = 2020-01-01\n"), &[]).unwrap();
    let keys: Vec<&str> = config.unknown_keys.iter().map(|u| u.key.as_str()).collect();
    assert_eq!(keys, vec!["tmux.$__toml_private_datetime"]);
}

#[test]
fn overriding_one_agent_leaves_the_others_alone() {
    let global = file("global.toml", "[agents.gemini]\nimage = \"g:1\"\ndevcontainer_feature = \"f:1\"\n");
    let project = file("project.toml", "[agents.gemini]\nimage = \"g:2\"\n");
    let config = load(global, project, &[]).unwrap();
    assert_eq!(image_of(&config, "gemini"), Some("g:2"));
    assert_eq!(resolve_agent_feature(Some("gemini"), &config), Some("f:1"));
    assert_eq!(config.agents.get("copilot"), Config::default().agents.get("copilot"));
    assert_eq!(resolve_agent_feature(Some("copilot"), &config), None);
    assert_eq!(resolve_agent_feature(None, &config), None);
}
