use std::cmp::Ordering;

use am::devcontainer::native::feature::{
    canonical_options, compare_versions, config_label_snippet, config_metadata_keys, feature_metadata_keys,
    install_order, metadata_properties, option_env_name, parse_metadata, request_key, resolve_options,
    unmatched_override_entries, FeatureMetadata, OptionDef, ResolvedFeature,
};
use am::devcontainer::native::oci::parse_ref;
use am::devcontainer::native::order::{round_priority, round_stable_sort, Rank};
use am::error::AmError;
use am::json::{parse_lenient, parse_strict, Json};
use am::strmap::StrMap;

const GIT: &str = r#"{
    "id": "git",
    "version": "1.3.4",
    "name": "Git (from source)",
    "documentationURL": "https://github.com/devcontainers/features/tree/main/src/git",
    "description": "Install an up-to-date version of Git, built from source as needed.",
    "options": {
        "version": {
            "type": "string",
            "proposals": ["latest", "system", "os-provided"],
            "default": "os-provided",
            "description": "Select or enter a Git version."
        },
        "ppa": {
            "type": "boolean",
            "default": true,
            "description": "Install Git from PPA if available"
        }
    },
    "customizations": {"vscode": {"settings": {}}},
    "installsAfter": ["ghcr.io/devcontainers/features/common-utils"]
}"#;

fn text(s: &str) -> Json {
    Json::Str(s.to_string())
}

fn supplied(entries: &[(&str, Json)]) -> StrMap<Json> {
    let mut m = StrMap::new();
    for (k, v) in entries {
        m.insert(k.to_string(), v.copy());
    }
    m
}

fn feature(id: &str, installs_after: &[&str]) -> ResolvedFeature {
    ResolvedFeature {
        reference: parse_ref(id),
        metadata: FeatureMetadata {
            installs_after: installs_after.iter().map(|s| s.to_string()).collect(),
            ..Default::default()
        },
        raw: Json::Object(vec![]),
        options: StrMap::new(),
        supplied: StrMap::new(),
        digest: format!("sha256:{id}"),
        hard_deps: Vec::new(),
    }
}

fn feature_depending_on(id: &str, hard: &[&str]) -> ResolvedFeature {
    let mut f = feature(id, &[]);
    f.hard_deps = hard.iter().map(|dep| feature(dep, &[]).key()).collect();
    f
}

fn ids(features: &[ResolvedFeature]) -> Vec<String> {
    features.iter().map(|f| f.reference.raw.clone()).collect()
}

fn ordered(features: Vec<ResolvedFeature>) -> Result<Vec<ResolvedFeature>, AmError> {
    install_order(features, &vec![])
}

fn overridden(features: Vec<ResolvedFeature>, order: &[&str]) -> Vec<String> {
    let order = order.iter().map(|s| s.to_string()).collect();
    ids(&install_order(features, &order).unwrap())
}

// Metadata and options.

#[test]
fn parses_the_captured_feature_json() {
    let (metadata, _raw) = parse_metadata(GIT).unwrap();
    assert_eq!(metadata.id.as_deref(), Some("git"));
    assert_eq!(metadata.installs_after, vec!["ghcr.io/devcontainers/features/common-utils"]);
    assert!(metadata.options.contains_key("version"));
    assert!(metadata.depends_on.is_none());
}

#[test]
fn metadata_that_cannot_be_read_is_an_error() {
    assert!(parse_metadata("{").is_err());
    assert!(parse_metadata(r#"{"id":3}"#).is_err());
    assert!(parse_metadata("[]").is_err());
}

#[test]
fn option_defaults_match_the_cli_env_file() {
    let (metadata, _) = parse_metadata(GIT).unwrap();
    let options = resolve_options(&metadata, &StrMap::new());
    assert_eq!(options.get("VERSION").map(String::as_str), Some("os-provided"));
    assert_eq!(options.get("PPA").map(String::as_str), Some("true"));
}

#[test]
fn supplied_options_override_defaults() {
    let (metadata, _) = parse_metadata(GIT).unwrap();
    let options = resolve_options(&metadata, &supplied(&[("version", text("latest"))]));
    assert_eq!(options.get("VERSION").map(String::as_str), Some("latest"));
    assert_eq!(options.get("PPA").map(String::as_str), Some("true"));
}

#[test]
fn option_names_become_valid_shell_variables() {
    for (option, expected) in [
        ("plain", "PLAIN"),
        ("my-option", "MY_OPTION"),
        ("dotted.name", "DOTTED_NAME"),
        ("with space", "WITH_SPACE"),
        ("a--b", "A__B"),
        ("2fa", "_FA"),
        ("12ab", "_AB"),
        ("__dunder", "_DUNDER"),
        ("_1mixed", "_MIXED"),
        ("_leading", "_LEADING"),
    ] {
        assert_eq!(option_env_name(option), expected, "for option {option}");
    }
}

#[test]
fn a_supplied_option_is_normalised_the_same_way_as_a_default() {
    let mut options = StrMap::new();
    options.insert("my-option".to_string(), OptionDef { default: Some(text("a")) });
    let metadata = FeatureMetadata { options, ..Default::default() };
    let resolved = resolve_options(&metadata, &supplied(&[("other-one", text("b"))]));
    assert_eq!(resolved.get("MY_OPTION").map(String::as_str), Some("a"));
    assert_eq!(resolved.get("OTHER_ONE").map(String::as_str), Some("b"));
}

#[test]
fn booleans_and_numbers_are_stringified_not_json_encoded() {
    let options = resolve_options(
        &FeatureMetadata::default(),
        &supplied(&[("flag", Json::Bool(false)), ("count", Json::Number("3".to_string()))]),
    );
    assert_eq!(options.get("FLAG").map(String::as_str), Some("false"));
    assert_eq!(options.get("COUNT").map(String::as_str), Some("3"));
    assert_eq!(am::devcontainer::native::feature::stringify(&text("as is")), "as is");
}

// Labels.

fn keys(properties: Vec<(String, Json)>) -> Vec<String> {
    properties.into_iter().map(|(k, _)| k).collect()
}

#[test]
fn label_snippet_keeps_only_metadata_properties() {
    let (metadata, raw) = parse_metadata(GIT).unwrap();
    let resolved = ResolvedFeature {
        reference: parse_ref("ghcr.io/devcontainers/features/git:1"),
        metadata,
        raw,
        options: StrMap::new(),
        supplied: StrMap::new(),
        digest: "sha256:test".to_string(),
        hard_deps: Vec::new(),
    };
    let snippet = resolved.label_snippet();
    assert_eq!(snippet.get("id").and_then(Json::as_str), Some("ghcr.io/devcontainers/features/git:1"));
    assert!(snippet.get("customizations").is_some());
    for dropped in ["options", "installsAfter", "version", "name", "description"] {
        assert!(snippet.get(dropped).is_none(), "{dropped} should not reach the label");
    }
}

#[test]
fn the_key_lists_match_the_reference_implementation() {
    assert_eq!(
        config_metadata_keys(),
        [
            "onCreateCommand",
            "updateContentCommand",
            "postCreateCommand",
            "postStartCommand",
            "postAttachCommand",
            "waitFor",
            "customizations",
            "mounts",
            "containerEnv",
            "containerUser",
            "init",
            "privileged",
            "capAdd",
            "securityOpt",
            "remoteUser",
            "userEnvProbe",
            "remoteEnv",
            "overrideCommand",
            "portsAttributes",
            "otherPortsAttributes",
            "forwardPorts",
            "shutdownAction",
            "updateRemoteUserUID",
            "hostRequirements",
        ]
    );
    assert_eq!(
        feature_metadata_keys(),
        [
            "onCreateCommand",
            "updateContentCommand",
            "postCreateCommand",
            "postStartCommand",
            "postAttachCommand",
            "init",
            "privileged",
            "capAdd",
            "securityOpt",
            "entrypoint",
            "mounts",
            "customizations",
        ]
    );
}

#[test]
fn a_features_lifecycle_hooks_reach_the_label() {
    let raw = parse_lenient(
        r#"{"postCreateCommand":"/usr/local/share/pull-git-lfs-artifacts.sh",
                "customizations":{"vscode":{}},"init":true}"#,
    )
    .unwrap();
    assert_eq!(
        keys(metadata_properties(&raw, &feature_metadata_keys())),
        ["postCreateCommand", "init", "customizations"]
    );
}

#[test]
fn a_config_emits_metadata_in_the_config_schema_order() {
    let raw = parse_lenient(
        r#"{"init":true,"customizations":{"vscode":{}},"forwardPorts":[3000],
                "mounts":[],"remoteUser":"root","postCreateCommand":"echo hi"}"#,
    )
    .unwrap();
    match config_label_snippet(&raw) {
        Json::Object(members) => assert_eq!(
            keys(members),
            ["postCreateCommand", "customizations", "mounts", "init", "remoteUser", "forwardPorts"]
        ),
        other => panic!("got {other:?}"),
    }
}

#[test]
fn a_feature_emits_metadata_in_the_feature_schema_order() {
    let raw = parse_lenient(
        r#"{"customizations":{"vscode":{}},"mounts":[],"entrypoint":"/e.sh",
                "capAdd":["SYS_PTRACE"],"init":true,"containerEnv":{"A":"1"},
                "forwardPorts":[3000]}"#,
    )
    .unwrap();
    assert_eq!(
        keys(metadata_properties(&raw, &feature_metadata_keys())),
        ["init", "capAdd", "entrypoint", "mounts", "customizations"]
    );
}

#[test]
fn config_snippet_drops_build_inputs() {
    let raw =
        parse_lenient(r#"{"image":"debian","features":{"x":{}},"remoteUser":"root","name":"demo"}"#).unwrap();
    assert_eq!(
        config_label_snippet(&raw),
        parse_strict(r#"{"remoteUser": "root"}"#).unwrap(),
        "only remoteUser is an image-metadata property"
    );
}

// The order in which Features are installed.

#[test]
fn install_order_is_alphabetical_without_constraints() {
    let o = ordered(vec![feature("ghcr.io/x/features/zebra:1", &[]), feature("ghcr.io/x/features/apple:1", &[])])
        .unwrap();
    assert_eq!(ids(&o), vec!["ghcr.io/x/features/apple:1", "ghcr.io/x/features/zebra:1"]);
}

#[test]
fn installs_after_overrides_alphabetical_order() {
    let o = ordered(vec![
        feature("ghcr.io/x/features/apple:1", &["ghcr.io/x/features/zebra"]),
        feature("ghcr.io/x/features/zebra:1", &[]),
    ])
    .unwrap();
    assert_eq!(ids(&o), vec!["ghcr.io/x/features/zebra:1", "ghcr.io/x/features/apple:1"]);
}

#[test]
fn installs_after_an_absent_feature_is_ignored() {
    let o = ordered(vec![feature(
        "ghcr.io/devcontainers/features/git:1",
        &["ghcr.io/devcontainers/features/common-utils"],
    )])
    .unwrap();
    assert_eq!(ids(&o), vec!["ghcr.io/devcontainers/features/git:1"]);
}

#[test]
fn a_cycle_is_reported_rather_than_looping_forever() {
    let err = ordered(vec![
        feature("ghcr.io/x/features/a:1", &["ghcr.io/x/features/b"]),
        feature("ghcr.io/x/features/b:1", &["ghcr.io/x/features/a"]),
    ])
    .unwrap_err();
    assert!(err.to_string().contains("circular"), "got: {}", err.to_string());
}

fn two_chains() -> Vec<ResolvedFeature> {
    vec![
        feature(
            "ghcr.io/devcontainers-extra/features/act:1",
            &["ghcr.io/devcontainers-extra/features/gh-release"],
        ),
        feature("ghcr.io/devcontainers-extra/features/gh-release:1", &[]),
        feature("ghcr.io/devcontainers/features/git:1", &["ghcr.io/devcontainers/features/common-utils"]),
        feature("ghcr.io/devcontainers/features/common-utils:2", &[]),
    ]
}

#[test]
fn independent_chains_interleave_by_round_not_one_at_a_time() {
    assert_eq!(
        ids(&ordered(two_chains()).unwrap()),
        vec![
            "ghcr.io/devcontainers-extra/features/gh-release:1",
            "ghcr.io/devcontainers/features/common-utils:2",
            "ghcr.io/devcontainers-extra/features/act:1",
            "ghcr.io/devcontainers/features/git:1",
        ]
    );
}

#[test]
fn an_override_reorders_within_a_round_but_cannot_jump_a_dependency() {
    assert_eq!(
        overridden(two_chains(), &["ghcr.io/devcontainers/features/git"]),
        vec![
            "ghcr.io/devcontainers-extra/features/gh-release:1",
            "ghcr.io/devcontainers/features/common-utils:2",
            "ghcr.io/devcontainers/features/git:1",
            "ghcr.io/devcontainers-extra/features/act:1",
        ]
    );
}

#[test]
fn an_override_can_split_a_round_and_defer_the_rest() {
    assert_eq!(
        overridden(two_chains(), &["ghcr.io/devcontainers/features/common-utils"]),
        vec![
            "ghcr.io/devcontainers/features/common-utils:2",
            "ghcr.io/devcontainers-extra/features/gh-release:1",
            "ghcr.io/devcontainers/features/git:1",
            "ghcr.io/devcontainers-extra/features/act:1",
        ]
    );
}

#[test]
fn an_override_entry_may_be_the_short_alias() {
    assert_eq!(
        overridden(two_chains(), &["ghcr.io/devcontainers/features/git"]),
        overridden(two_chains(), &["git"])
    );
}

#[test]
fn an_override_entry_matching_nothing_changes_no_order() {
    assert_eq!(
        ids(&ordered(two_chains()).unwrap()),
        overridden(two_chains(), &["ghcr.io/nobody/features/absent"])
    );
    let order = vec!["ghcr.io/nobody/features/absent".to_string(), "git".to_string()];
    assert_eq!(unmatched_override_entries(&two_chains(), &order), vec!["ghcr.io/nobody/features/absent"]);
}

#[test]
fn earlier_override_entries_outrank_later_ones() {
    let features = || vec![feature("ghcr.io/x/features/apple:1", &[]), feature("ghcr.io/x/features/zebra:1", &[])];
    assert_eq!(
        overridden(features(), &["ghcr.io/x/features/zebra", "ghcr.io/x/features/apple"]),
        vec!["ghcr.io/x/features/zebra:1", "ghcr.io/x/features/apple:1"]
    );
    let order = vec!["ghcr.io/x/features/zebra".to_string(), "ghcr.io/x/features/apple".to_string()];
    assert_eq!(round_priority(&features()[0], &order), 1);
    assert_eq!(round_priority(&features()[1], &order), 2);
}

#[test]
fn a_hard_dependency_installs_before_its_dependent() {
    let o = ordered(vec![
        feature_depending_on("ghcr.io/x/features/apple:1", &["ghcr.io/x/features/zebra:1"]),
        feature("ghcr.io/x/features/zebra:1", &[]),
    ])
    .unwrap();
    assert_eq!(ids(&o), vec!["ghcr.io/x/features/zebra:1", "ghcr.io/x/features/apple:1"]);
}

#[test]
fn a_hard_dependency_cycle_is_reported() {
    let err = ordered(vec![
        feature_depending_on("ghcr.io/x/features/a:1", &["ghcr.io/x/features/b:1"]),
        feature_depending_on("ghcr.io/x/features/b:1", &["ghcr.io/x/features/a:1"]),
    ])
    .unwrap_err()
    .to_string();
    assert!(err.contains("circularly"), "got: {err}");
    assert!(err.contains("a:1") && err.contains("b:1"), "got: {err}");
}

#[test]
fn the_same_feature_at_two_versions_sorts_oldest_first() {
    let o = ordered(vec![feature("ghcr.io/x/features/node:10", &[]), feature("ghcr.io/x/features/node:2", &[])])
        .unwrap();
    assert_eq!(
        ids(&o),
        vec!["ghcr.io/x/features/node:2", "ghcr.io/x/features/node:10"],
        "version tags compare numerically, not as strings"
    );
}

#[test]
fn more_user_defined_options_sorts_first() {
    let mut bare = feature("ghcr.io/x/features/node:1", &[]);
    bare.digest = "sha256:bare".to_string();
    let mut configured = feature("ghcr.io/x/features/node:1", &[]);
    configured.digest = "sha256:configured".to_string();
    configured.supplied = supplied(&[("version", text("20"))]);
    assert_eq!(round_stable_sort(&bare, &configured), Rank::After);
    let o = ordered(vec![bare, configured]).unwrap();
    assert_eq!(
        o.iter().map(|f| f.digest.as_str()).collect::<Vec<_>>(),
        vec!["sha256:configured", "sha256:bare"]
    );
}

#[test]
fn version_comparison_is_numeric_per_segment() {
    assert_eq!(compare_versions("1", "2"), Ordering::Less);
    assert_eq!(compare_versions("2", "10"), Ordering::Less);
    assert_eq!(compare_versions("1.2.3", "1.10.0"), Ordering::Less);
    assert_eq!(compare_versions("1.2", "1.2"), Ordering::Equal);
    assert_eq!(compare_versions("1", "1.0"), Ordering::Less);
    assert_eq!(compare_versions("latest", "latest"), Ordering::Equal);
}

#[test]
fn identity_is_contents_plus_options_not_the_written_id() {
    let mut moving = feature("ghcr.io/x/features/node:1", &[]);
    moving.digest = "sha256:same".to_string();
    let mut pinned = feature("ghcr.io/x/features/node:1.2.3", &[]);
    pinned.digest = "sha256:same".to_string();
    assert_eq!(moving.key(), pinned.key());

    let mut configured = feature("ghcr.io/x/features/node:1.2.3", &[]);
    configured.digest = "sha256:same".to_string();
    configured.supplied = supplied(&[("version", text("20"))]);
    assert_ne!(pinned.key(), configured.key());
}

#[test]
fn options_are_keyed_however_they_are_ordered() {
    let a = supplied(&[("x", text("1")), ("y", Json::Bool(true))]);
    let b = supplied(&[("y", Json::Bool(true)), ("x", text("1"))]);
    assert_eq!(canonical_options(&a), canonical_options(&b));
    assert_eq!(request_key("id", &a), request_key("id", &b));
    assert_ne!(request_key("id", &a), request_key("id", &StrMap::new()));
}

#[test]
fn a_separator_in_a_value_does_not_make_two_options() {
    let one = supplied(&[("a", text("1,b=2"))]);
    let two = supplied(&[("a", text("1")), ("b", text("2"))]);
    assert_ne!(canonical_options(&one), canonical_options(&two));
    assert_ne!(request_key("id", &one), request_key("id", &two));
    let spaced = supplied(&[("a", text("1 b 2"))]);
    assert_ne!(request_key("id", &spaced), request_key("id", &two));
    let quoted = supplied(&[("a", text("it's"))]);
    assert_ne!(request_key("id", &quoted), request_key("id", &supplied(&[("a", text("its"))])));
    assert_ne!(request_key("id a", &StrMap::new()), request_key("id", &supplied(&[("a", text(""))])));
}

#[test]
fn installs_after_keeps_the_port_of_a_registry() {
    let out = ordered(vec![
        feature("localhost:5000/x/apple:1", &["localhost:5000/x/zebra"]),
        feature("localhost:5000/x/zebra:1", &[]),
    ])
    .unwrap();
    assert_eq!(ids(&out), vec!["localhost:5000/x/zebra:1", "localhost:5000/x/apple:1"]);
    let tagged = ordered(vec![
        feature("localhost:5000/x/apple:1", &["localhost:5000/x/zebra:2"]),
        feature("localhost:5000/x/zebra:1", &[]),
    ])
    .unwrap();
    assert_eq!(ids(&tagged), vec!["localhost:5000/x/zebra:1", "localhost:5000/x/apple:1"]);
}

#[test]
fn an_entry_names_a_feature_whatever_its_case_and_pin() {
    for entry in ["GHCR.io/X/Zebra", "ghcr.io/x/zebra:2", "ghcr.io/x/zebra@sha256:abc", "ghcr.io/x/zebra:2@sha256:abc"] {
        let out = ordered(vec![feature("ghcr.io/x/apple:1", &[entry]), feature("ghcr.io/x/zebra:1", &[])]).unwrap();
        assert_eq!(ids(&out), vec!["ghcr.io/x/zebra:1", "ghcr.io/x/apple:1"], "{entry}");
        let out = overridden(vec![feature("ghcr.io/x/apple:1", &[]), feature("ghcr.io/x/zebra:1", &[])], &[entry]);
        assert_eq!(out, vec!["ghcr.io/x/zebra:1", "ghcr.io/x/apple:1"], "{entry}");
    }
    let url = "https://example.com/f.tgz";
    let out = ordered(vec![feature("ghcr.io/x/apple:1", &[url]), feature(url, &[])]).unwrap();
    assert_eq!(ids(&out), vec![url, "ghcr.io/x/apple:1"]);
}

#[test]
fn install_order_is_stable_regardless_of_input_order() {
    let forward = ordered(vec![
        feature("ghcr.io/x/features/a:1", &[]),
        feature("ghcr.io/x/features/b:1", &[]),
        feature("ghcr.io/x/features/c:1", &[]),
    ])
    .unwrap();
    let reversed = ordered(vec![
        feature("ghcr.io/x/features/c:1", &[]),
        feature("ghcr.io/x/features/b:1", &[]),
        feature("ghcr.io/x/features/a:1", &[]),
    ])
    .unwrap();
    assert_eq!(ids(&forward), ids(&reversed));
}

#[test]
fn metadata_may_be_spelled_by_position() {
    let (m, _) = parse_metadata(r#"["git","1.0",null,null,null,{"v":["x"],"w":[]},["a/b"]]"#).unwrap();
    assert_eq!(m.id.as_deref(), Some("git"));
    assert_eq!(m.options.get("v").unwrap().default, Some(text("x")));
    assert_eq!(m.options.get("w").unwrap().default, None);
    assert_eq!(m.installs_after, vec!["a/b"]);
    assert!(parse_metadata(r#"["git","1.0"]"#).is_err());
}
