use am::compose::override_document;
use am::config::NetworkMode;
use am::container::{
    build_run_command, AgentAuthMount, ContainerMounts, ContainerRuntime, DevcontainerRuntime, HostFacts, MountMode,
    RuntimeKind,
};
use am::devcontainer::native::dockerfile::{escape_label, options_env};
use am::devcontainer::native::feature::{option_env_name, FeatureMetadata, ResolvedFeature};
use am::devcontainer::native::oci::parse_ref;
use am::devcontainer::native::order::{round_stable_sort, Rank};
use am::devcontainer::native::plan::{compose_label, staging_dir};
use am::devcontainer::{merge, parse_metadata_label, read_image_metadata, ForwardedPort, NormalizedMount};
use am::json::{parse_lenient, parse_strict, parse_strict_bytes, Json};
use am::shell::{quote_all, shell_quote};
use am::sort::sort_values;
use am::strmap::StrMap;

fn strings(items: &[&str]) -> Vec<String> {
    items.iter().map(|s| s.to_string()).collect()
}

/// Takes backslashes off, as a double-quoted value is read.
fn unquoted(s: &str) -> String {
    let mut out = String::new();
    let mut chars = s.chars();
    while let Some(c) = chars.next() {
        if c == '\\' {
            out.extend(chars.next());
        } else {
            out.push(c);
        }
    }
    out
}

#[test]
fn sorting_orders_and_ignores_where_things_came_from() {
    let a = sort_values(strings(&["b", "a", "c", "a"]));
    assert_eq!(a, strings(&["a", "a", "b", "c"]));
    assert_eq!(a, sort_values(strings(&["c", "a", "a", "b"])));
}

#[test]
fn a_label_comes_out_of_the_build_in_one_line() {
    let label = "[ {\"a\":\"${x} \\\\ \\\"q\\\"\"},\n{} ]";
    assert_eq!(unquoted(&escape_label(label)), label.replace('\n', " "));
}

fn feature(id: &str) -> ResolvedFeature {
    ResolvedFeature {
        reference: parse_ref(id),
        metadata: FeatureMetadata::default(),
        raw: Json::Object(vec![]),
        options: StrMap::new(),
        supplied: StrMap::new(),
        digest: format!("sha256:{id}"),
        hard_deps: vec![],
    }
}

#[test]
fn a_quoted_option_reads_as_it_was() {
    let value = "say \"hi\" \\ there";
    let mut f = feature("./f");
    f.options.insert("MSG".to_string(), value.to_string());
    let line = options_env(&f);
    let inner = line.strip_prefix("MSG=\"").unwrap().strip_suffix("\"\n").unwrap();
    assert_eq!(unquoted(inner), value);
}

#[test]
fn turning_two_features_round_turns_their_rank_round() {
    let a = feature("ghcr.io/x/node:2");
    let b = feature("ghcr.io/x/node:10");
    assert_eq!(round_stable_sort(&a, &b), Rank::Before);
    assert_eq!(round_stable_sort(&b, &a), Rank::After);
    assert_eq!(round_stable_sort(&a, &a), Rank::Same);
}

#[test]
fn a_composed_label_is_read_as_it_was_composed() {
    let base = vec![parse_strict(r#"{"remoteUser":"vscode","forwardPorts":[3000]}"#).unwrap()];
    let mut f = feature("./f");
    f.raw = parse_strict(r#"{"entrypoint":"/a b.sh","containerEnv":{"X":"1"}}"#).unwrap();
    let config = parse_lenient(r#"{"image":"debian","forwardPorts":[8080],"remoteUser":"dev"}"#).unwrap();
    let label = compose_label(&base, &vec![f], &config);
    let snippets = parse_metadata_label(&label).unwrap();
    assert_eq!(snippets.len(), 3);
    assert_eq!(snippets[0].remote_user.as_deref(), Some("vscode"));
    assert_eq!(snippets[1].entrypoint.as_deref(), Some("/a b.sh"));
    assert_eq!(snippets[2].remote_user.as_deref(), Some("dev"));
    let merged = merge(&snippets).unwrap();
    assert_eq!(merged.forward_ports, vec![ForwardedPort::Own(3000), ForwardedPort::Own(8080)]);
    let printed = format!("{label}\n").into_bytes();
    assert_eq!(read_image_metadata("img", true, &printed, &vec![]).unwrap(), snippets);
}

#[test]
fn both_kinds_of_session_mount_the_same() {
    let mounts = ContainerMounts {
        worktree_host: "/w".to_string(),
        vcs_host: "/r/.git".to_string(),
        colocated_git_host: None,
        gitconfig_host: "/h/.gitconfig".to_string(),
        ssh_host: "/h/.ssh".to_string(),
        ssh_agent_sock: Some("/run/agent".to_string()),
        agent_auth: vec![AgentAuthMount {
            host_path: "/h/.codex".to_string(),
            container_path: "/home/am/.codex".to_string(),
            mode: MountMode::ReadWrite,
        }],
        container_home: "/home/am".to_string(),
    };
    let dc = DevcontainerRuntime {
        mounts: vec![NormalizedMount {
            source: Some("/w/data".to_string()),
            target: "/data".to_string(),
            kind: "bind".to_string(),
            read_only: true,
        }],
        ..DevcontainerRuntime::default()
    };
    let host = HostFacts {
        linux: true,
        uid_gid: None,
        existing: strings(&["/h/.gitconfig", "/run/agent", "/h/.codex"]),
        identity: vec![],
    };
    let runtime = ContainerRuntime { kind: RuntimeKind::Podman, bin: "/usr/bin/podman".to_string() };
    let cmd =
        build_run_command(&runtime, "img", &mounts, &vec![], &vec![], &NetworkMode::Full, "am-feat", &dc, &host);
    let mut flags: Vec<String> = cmd.windows(2).filter(|w| w[0] == "-v").map(|w| w[1].clone()).collect();
    let doc = override_document(&runtime, "app", "img", &mounts, &vec![], &vec![], &dc, &host);
    let service = doc.get("services").unwrap().get("app").unwrap();
    let mut volumes: Vec<String> = match service.get("volumes").unwrap() {
        Json::Array(a) => a.iter().map(|v| v.as_str().unwrap().to_string()).collect(),
        other => panic!("got {other:?}"),
    };
    flags.sort();
    volumes.sort();
    assert_eq!(flags, volumes);
    assert_eq!(flags.len(), 6);
}

#[test]
fn words_are_quoted_for_the_shell() {
    assert_eq!(shell_quote("plain-word"), "plain-word");
    assert_eq!(shell_quote("two words"), "'two words'");
    assert_eq!(shell_quote("it's"), "'it'\\''s'");
    assert_eq!(quote_all(&strings(&["echo", "two words", ""])), "echo 'two words' ''");
}

#[test]
fn letters_are_letters_beyond_ascii() {
    assert_eq!(parse_ref("GHCR.io/ÄB:1").repository, "äb");
    assert_eq!(option_env_name("abc"), "ABC");
    assert_eq!(staging_dir("/c/features", "a/b:1é"), "/c/build/a_b_1é");
}

#[test]
fn json_is_read_and_written() {
    let text = r#"{"b":[1,-2,true,null],"a":"q\"\\\n\u0001é"}"#;
    assert_eq!(parse_strict(text).unwrap().to_text(), text);
    assert_eq!(parse_strict_bytes(&text.as_bytes().to_vec()).unwrap().to_text(), text);
    assert!(parse_strict("[1,]").is_err());
    assert_eq!(parse_lenient("[1, /* one */ 2,]").unwrap().to_text(), "[1,2]");
    let pretty = parse_strict(r#"{"a":[],"b":{"c":"d"}}"#).unwrap().to_pretty();
    assert_eq!(pretty, "{\n  \"a\": [],\n  \"b\": {\n    \"c\": \"d\"\n  }\n}");
    assert_eq!(parse_strict(&pretty).unwrap().to_pretty(), pretty);
}
