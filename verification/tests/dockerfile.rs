use am::devcontainer::native::dockerfile::{
    builtin_env, context_files, escape_label, home_probe, install_wrapper, options_env, render,
};
use am::devcontainer::native::feature::{parse_metadata, resolve_options, ResolvedFeature};
use am::devcontainer::native::oci::parse_ref;
use am::json::parse_lenient;
use am::strmap::StrMap;

const GIT: &str = r#"{
    "id": "git",
    "version": "1.3.4",
    "name": "Git (from source)",
    "documentationUrl": "https://github.com/devcontainers/features/tree/main/src/git",
    "options": {
        "version": {"type": "string", "default": "os-provided"},
        "ppa": {"type": "boolean", "default": true}
    }
}"#;

fn resolved(id: &str, text: &str) -> ResolvedFeature {
    let (metadata, raw) = parse_metadata(text).unwrap();
    let options = resolve_options(&metadata, &StrMap::new());
    ResolvedFeature {
        reference: parse_ref(id),
        metadata,
        raw,
        options,
        supplied: StrMap::new(),
        digest: "sha256:test".to_string(),
        hard_deps: Vec::new(),
    }
}

fn git_feature() -> ResolvedFeature {
    resolved("ghcr.io/devcontainers/features/git:1", GIT)
}

#[test]
fn options_env_matches_the_cli_output() {
    assert_eq!(options_env(&git_feature()), "PPA=\"true\"\nVERSION=\"os-provided\"\n");
}

#[test]
fn awkward_option_names_are_valid_in_the_env_file() {
    let feature = resolved(
        "./awkward",
        r#"{"id":"awkward","options":{"my-option":{"default":"a"},"2fa":{"default":"b"},"dotted.name":{"default":"c"}}}"#,
    );
    assert_eq!(options_env(&feature), "DOTTED_NAME=\"c\"\nMY_OPTION=\"a\"\n_FA=\"b\"\n");
}

#[test]
fn install_wrapper_sources_both_env_files_in_contract_order() {
    let wrapper = install_wrapper(&git_feature());
    let builtin = wrapper.find(". ../devcontainer-features.builtin.env").unwrap();
    let own = wrapper.find(". ./devcontainer-features.env").unwrap();
    assert!(builtin < own);
    assert!(wrapper.contains("set -a"));
    assert!(wrapper.contains("./install.sh"));
}

#[test]
fn install_wrapper_names_the_feature_and_where_to_read_about_it() {
    let wrapper = install_wrapper(&git_feature());
    assert!(wrapper.contains(
        "echo 'ERROR: Feature \"Git (from source)\" (ghcr.io/devcontainers/features/git:1) failed to install! Look at the documentation at https://github.com/devcontainers/features/tree/main/src/git for help troubleshooting this error.'"
    ));
    assert!(wrapper.contains("echo 'Version       : 1.3.4'"));
    assert!(wrapper.contains("echo '    PPA=\"true\"\n    VERSION=\"os-provided\"\n'"));
    let bare = install_wrapper(&resolved("./bare", "{}"));
    assert!(bare.contains("echo 'ERROR: Feature \"./bare\" (./bare) failed to install!'"));
    assert!(bare.contains("echo 'Version       : unknown'"));
}

#[test]
fn dockerfile_installs_features_in_the_given_order() {
    let mut second = git_feature();
    second.reference.raw = "ghcr.io/devcontainers/features/node:1".to_string();
    second.reference.repository = "devcontainers/features/node".to_string();
    second.metadata.id = Some("node".to_string());
    let rendered = render(&vec![git_feature(), second], "[]", "root", "root");
    let git = rendered.find("dev-container-features/git_0").unwrap();
    let node = rendered.find("dev-container-features/node_1").unwrap();
    assert!(git < node, "index order must follow install order");
}

#[test]
fn a_features_container_env_becomes_env_before_its_install_step() {
    let mut feature = git_feature();
    feature.raw = parse_lenient(
        r#"{"containerEnv":{"GOROOT":"/usr/local/go","PATH":"/usr/local/go/bin:${PATH}"}}"#,
    )
    .unwrap();
    let rendered = render(&vec![feature], "[]", "root", "root");
    assert!(rendered.contains(r#"ENV GOROOT="/usr/local/go""#), "got: {rendered}");
    assert!(rendered.contains(r#"ENV PATH="/usr/local/go/bin:${PATH}""#), "got: {rendered}");
    let env_at = rendered.find("ENV GOROOT").unwrap();
    let install_at = rendered.find("devcontainer-features-install.sh").unwrap();
    assert!(env_at < install_at, "ENV must precede the install step so later Features see it");
}

#[test]
fn a_feature_with_no_container_env_adds_no_env_instructions() {
    let rendered = render(&vec![git_feature()], "[]", "root", "root");
    assert!(!rendered.contains("\nENV "), "got: {rendered}");
}

#[test]
fn a_container_env_value_cannot_terminate_its_own_instruction() {
    let mut feature = git_feature();
    feature.raw = parse_lenient(r#"{"containerEnv":{"Q":"a\"b","B":"c\\d"}}"#).unwrap();
    let rendered = render(&vec![feature], "[]", "root", "root");
    assert!(rendered.contains(r#"ENV Q="a\"b""#), "got: {rendered}");
    assert!(rendered.contains(r#"ENV B="c\\d""#), "got: {rendered}");
}

#[test]
fn dockerfile_without_features_still_stamps_the_label() {
    let rendered = render(&vec![], r#"[ {"remoteUser":"root"} ]"#, "root", "root");
    assert!(rendered.contains("LABEL devcontainer.metadata="));
    assert!(!rendered.contains("COPY"));
    assert!(!rendered.contains("mkdir -p /tmp/dev-container-features"));
}

#[test]
fn the_whole_dockerfile() {
    let probe = |var: &str, user: &str| {
        format!(
            "echo \"{var}=$( (command -v getent >/dev/null 2>&1 && getent passwd '{user}' || grep -E '^{user}|^[^:]*:[^:]*:{user}:' /etc/passwd || true) | cut -d: -f6)\" >> /tmp/dev-container-features/devcontainer-features.builtin.env "
        )
    };
    assert_eq!(home_probe("_REMOTE_USER_HOME", "vscode"), probe("_REMOTE_USER_HOME", "vscode"));
    let expected = format!(
        "ARG _DEV_CONTAINERS_BASE_IMAGE=placeholder\n\n\
         FROM $_DEV_CONTAINERS_BASE_IMAGE AS dev_containers_target_stage\n\n\
         USER root\n\n\
         RUN mkdir -p /tmp/dev-container-features\n\
         COPY --chown=root:root . /tmp/dev-container-features\n\n\
         RUN \\\n{}\\\n{}\n\n\
         # ghcr.io/devcontainers/features/git:1\n\
         RUN chmod -R 0755 /tmp/dev-container-features/git_0 \\\n\
         && cd /tmp/dev-container-features/git_0 \\\n\
         && chmod +x ./devcontainer-features-install.sh \\\n\
         && ./devcontainer-features-install.sh\n\n\
         ARG _DEV_CONTAINERS_IMAGE_USER=root\n\
         USER $_DEV_CONTAINERS_IMAGE_USER\n\n\
         LABEL devcontainer.metadata=\"[]\"\n",
        probe("_CONTAINER_USER_HOME", "root"),
        probe("_REMOTE_USER_HOME", "vscode"),
    );
    assert_eq!(render(&vec![git_feature()], "[]", "root", "vscode"), expected);
}

#[test]
fn label_quotes_are_escaped() {
    assert_eq!(escape_label(r#"[ {"remoteUser":"root"} ]"#), r#"[ {\"remoteUser\":\"root\"} ]"#);
}

#[test]
fn label_dollar_signs_are_escaped_so_docker_does_not_expand_them() {
    let escaped = escape_label(r#"{"source":"${localWorkspaceFolder}"}"#);
    assert!(escaped.contains(r"\$\{localWorkspaceFolder\}") || escaped.contains(r"\${localWorkspaceFolder}"));
    assert!(!escaped.contains("\"${localWorkspaceFolder}\""));
}

#[test]
fn label_newlines_are_flattened() {
    assert!(!escape_label("[\n{}\n]").contains('\n'));
}

#[test]
fn option_values_containing_quotes_are_escaped() {
    let mut feature = git_feature();
    feature.options.insert("MSG".to_string(), r#"say "hi""#.to_string());
    let env = options_env(&feature);
    assert!(env.contains(r#"MSG="say \"hi\"""#));
}

#[test]
fn context_layout_matches_the_install_contract() {
    let files = context_files(&vec![git_feature()], "root", "vscode");
    let at = |name: &str| files.iter().find(|(n, _)| n == name).map(|(_, c)| c.as_str());
    assert_eq!(at("devcontainer-features.builtin.env"), Some("_CONTAINER_USER=root\n_REMOTE_USER=vscode\n"));
    assert_eq!(builtin_env("root", "vscode"), "_CONTAINER_USER=root\n_REMOTE_USER=vscode\n");
    assert_eq!(at("git_0/devcontainer-features.env"), Some("PPA=\"true\"\nVERSION=\"os-provided\"\n"));
    assert!(at("git_0/devcontainer-features-install.sh").is_some());
    assert_eq!(files.len(), 3);
}
