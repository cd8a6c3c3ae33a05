use am::devcontainer::lock::{load, path, save, LockEntry, Lockfile};
use am::json::parse_strict;

fn entry(resolved: &str, integrity: &str) -> LockEntry {
    LockEntry {
        version: Some("1.2.3".to_string()),
        resolved: resolved.to_string(),
        integrity: integrity.to_string(),
        depends_on: Vec::new(),
    }
}

#[test]
fn a_pinned_id_resolves_to_its_digest() {
    let mut lock = Lockfile::default();
    lock.insert(
        "ghcr.io/devcontainers/features/git:1",
        entry("ghcr.io/devcontainers/features/git@sha256:abc", "sha256:abc"),
    );
    assert_eq!(lock.digest_for("ghcr.io/devcontainers/features/git:1"), Some("sha256:abc"));
    assert_eq!(lock.digest_for("ghcr.io/devcontainers/features/node:1"), None);
}

#[test]
fn ids_are_compared_without_regard_to_case() {
    let mut lock = Lockfile::default();
    lock.insert("GHCR.io/Devcontainers/Features/Git:1", entry("x@sha256:abc", "sha256:abc"));
    assert!(lock.features.contains_key("ghcr.io/devcontainers/features/git:1"));
    assert_eq!(lock.digest_for("ghcr.io/devcontainers/features/GIT:1"), Some("sha256:abc"));
}

#[test]
fn a_tarball_entry_has_no_digest_to_pin_but_still_has_integrity() {
    let mut lock = Lockfile::default();
    lock.insert("https://example.com/f.tgz", entry("https://example.com/f.tgz", "sha256:def"));
    assert_eq!(lock.digest_for("https://example.com/f.tgz"), None);
    assert_eq!(lock.integrity_for("https://example.com/f.tgz"), Some("sha256:def"));
}

#[test]
fn the_rendering_is_stable_regardless_of_insertion_order() {
    let mut one = Lockfile::default();
    one.insert("b", entry("b@sha256:2", "sha256:2"));
    one.insert("a", entry("a@sha256:1", "sha256:1"));
    let mut two = Lockfile::default();
    two.insert("a", entry("a@sha256:1", "sha256:1"));
    two.insert("b", entry("b@sha256:2", "sha256:2"));
    assert_eq!(one.canonical(), two.canonical());
}

#[test]
fn a_malformed_lockfile_reads_as_absent() {
    assert!(load(Some("{ not json")).features.is_empty());
    assert!(load(Some(r#"{"features":{"a":{"resolved":1,"integrity":"x"}}}"#)).features.is_empty());
    assert!(load(None).features.is_empty());
}

#[test]
fn saving_the_same_content_twice_does_not_touch_the_file() {
    let mut lock = Lockfile::default();
    lock.insert("a", entry("a@sha256:1", "sha256:1"));

    let first = save(None, &lock).expect("there is something to write");
    assert_eq!(save(Some(&first), &lock), None, "an unchanged lockfile must not be rewritten");
    assert_eq!(save(Some("something else"), &lock), Some(first));
    assert_eq!(save(None, &Lockfile::default()), None);
}

#[test]
fn the_shape_matches_the_reference_implementation() {
    let mut lock = Lockfile::default();
    lock.insert(
        "ghcr.io/devcontainers/features/git:1",
        LockEntry {
            version: Some("1.3.8".to_string()),
            resolved: "ghcr.io/devcontainers/features/git@sha256:fd75".to_string(),
            integrity: "sha256:fd75".to_string(),
            depends_on: Vec::new(),
        },
    );
    let parsed = parse_strict(&lock.canonical()).unwrap();
    let entry = parsed
        .get("features")
        .and_then(|f| f.get("ghcr.io/devcontainers/features/git:1"))
        .expect("the entry");
    assert_eq!(entry.get("version").and_then(|v| v.as_str()), Some("1.3.8"));
    assert_eq!(
        entry.get("resolved").and_then(|v| v.as_str()),
        Some("ghcr.io/devcontainers/features/git@sha256:fd75")
    );
    assert_eq!(entry.get("integrity").and_then(|v| v.as_str()), Some("sha256:fd75"));
    assert!(entry.get("dependsOn").is_none());
    assert_eq!(
        lock.canonical(),
        r#"{
  "features": {
    "ghcr.io/devcontainers/features/git:1": {
      "version": "1.3.8",
      "resolved": "ghcr.io/devcontainers/features/git@sha256:fd75",
      "integrity": "sha256:fd75"
    }
  }
}"#
    );
}

#[test]
fn a_lockfile_written_by_the_reference_implementation_round_trips() {
    let text = r#"{
  "features": {
    "ghcr.io/devcontainers/features/git:1": {
      "version": "1.3.8",
      "resolved": "ghcr.io/devcontainers/features/git@sha256:fd75",
      "integrity": "sha256:fd75"
    }
  }
}"#;
    let lock = load(Some(text));
    assert_eq!(lock.digest_for("ghcr.io/devcontainers/features/git:1"), Some("sha256:fd75"));
    assert_eq!(lock.canonical(), text);
}

#[test]
fn what_was_saved_is_loaded_again() {
    let mut lock = Lockfile::default();
    lock.insert("https://Example.com/\"quoted\".tgz", entry("https://example.com/f.tgz", "sha256:1"));
    lock.insert(
        "b",
        LockEntry {
            version: None,
            resolved: "b@sha256:2".to_string(),
            integrity: "sha256:2".to_string(),
            depends_on: vec!["c".to_string(), "d\n\u{1}é".to_string()],
        },
    );
    let written = save(None, &lock).unwrap();
    let read = load(Some(&written));
    assert_eq!(read.canonical(), lock.canonical());
    assert_eq!(read.features.len(), 2);
    assert_eq!(read.features.get("b").unwrap().depends_on, ["c", "d\n\u{1}é"]);
    assert_eq!(save(Some(&written), &read), None);
}

#[test]
fn the_lockfile_lives_beside_its_config() {
    assert_eq!(path("/repo/.devcontainer/devcontainer.json"), "/repo/.devcontainer/devcontainer-lock.json");
}
