use std::io::Write;

use am::devcontainer::native::oci::{
    accept_layer, accept_manifest, archive_bytes, cache_entry, cache_root, check_tarball, host_of, is_gzip, layer_url,
    manifest_url, parse_ref, scheme, verify_digest, FeatureKind, Layer,
};
use am::digest::{digest_of, short_digest};

#[test]
fn parses_a_tagged_registry_ref() {
    let r = parse_ref("ghcr.io/devcontainers/features/git:1");
    assert_eq!(r.kind, FeatureKind::Registry);
    assert_eq!(r.registry, "ghcr.io");
    assert_eq!(r.repository, "devcontainers/features/git");
    assert_eq!(r.tag, "1");
    assert_eq!(r.name(), "git");
    assert_eq!(r.untagged(), "ghcr.io/devcontainers/features/git");
}

#[test]
fn untagged_ref_defaults_to_latest() {
    let r = parse_ref("ghcr.io/devcontainers/features/git");
    assert_eq!(r.tag, "latest");
    assert_eq!(r.raw, "ghcr.io/devcontainers/features/git");
}

#[test]
fn registry_port_is_not_mistaken_for_a_tag() {
    let r = parse_ref("localhost:5000/my/feature:2");
    assert_eq!(r.registry, "localhost:5000");
    assert_eq!(r.repository, "my/feature");
    assert_eq!(r.tag, "2");
}

#[test]
fn recognises_local_and_tarball_sources() {
    let local = parse_ref("./my-feature");
    assert_eq!(local.kind, FeatureKind::Local);
    assert_eq!(local.untagged(), "./my-feature");
    assert_eq!(local.name(), "my-feature");

    let tarball = parse_ref("https://example.com/devcontainer-feature-f.tgz");
    assert_eq!(tarball.kind, FeatureKind::Tarball);
    assert_eq!(tarball.untagged(), "https://example.com/devcontainer-feature-f.tgz");
    assert_eq!(tarball.name(), "");
}

#[test]
fn a_loopback_registry_is_plain_http() {
    assert_eq!(scheme("localhost:5000"), "http");
    assert_eq!(scheme("127.0.0.1:5000"), "http");
    assert_eq!(scheme("ghcr.io"), "https");
    assert_eq!(scheme("registry.example.com:5000"), "https");
}

#[test]
fn an_ipv6_loopback_registry_is_plain_http() {
    assert_eq!(scheme("::1"), "http");
    assert_eq!(scheme("[::1]"), "http");
    assert_eq!(scheme("[::1]:5000"), "http");
    assert_eq!(scheme("[2001:db8::1]:5000"), "https");
    assert_eq!(scheme("[::1"), "https");
    assert_eq!(scheme(""), "https");
    assert_eq!(parse_ref("[::1]:5000/x/y:1").registry, "[::1]:5000");
}

#[test]
fn a_digest_takes_the_place_of_a_tag() {
    let r = parse_ref("ghcr.io/devcontainers/features/git:1@sha256:abc123");
    assert_eq!(r.kind, FeatureKind::Registry);
    assert_eq!(r.repository, "devcontainers/features/git");
    assert_eq!(r.tag, "");
    assert_eq!(r.digest.as_deref(), Some("sha256:abc123"));
    assert_eq!(r.untagged(), "ghcr.io/devcontainers/features/git");
    let port = parse_ref("localhost:5000/x/y@sha256:abc123");
    assert_eq!(port.registry, "localhost:5000");
    assert_eq!(port.repository, "x/y");
}

#[test]
fn a_feature_id_is_case_insensitive() {
    let r = parse_ref("GHCR.io/Devcontainers/Features/Git:1");
    assert_eq!(r.registry, "ghcr.io");
    assert_eq!(r.repository, "devcontainers/features/git");
    assert_eq!(r.raw, "GHCR.io/Devcontainers/Features/Git:1");
}

#[test]
fn a_digest_pinned_reference_keeps_its_digest() {
    let r = parse_ref("ghcr.io/devcontainers/features/git@sha256:abc123");
    assert_eq!(r.kind, FeatureKind::Registry);
    assert_eq!(r.repository, "devcontainers/features/git");
    assert_eq!(r.digest.as_deref(), Some("sha256:abc123"));
    assert_eq!(r.reference(), "sha256:abc123", "the registry is asked for the digest");
    assert_eq!(r.untagged(), "ghcr.io/devcontainers/features/git");
}

#[test]
fn a_tagged_reference_asks_for_its_tag() {
    let r = parse_ref("ghcr.io/devcontainers/features/git:1");
    assert_eq!(r.digest, None);
    assert_eq!(r.reference(), "1");
}

#[test]
fn an_http_tarball_is_refused_with_a_message_about_https() {
    let feature = parse_ref("http://example.com/f.tgz");
    assert_eq!(feature.kind, FeatureKind::Tarball);
    let err = check_tarball(&feature).unwrap_err().to_string();
    assert!(err.contains("https"), "must say what is required: {err}");
    assert!(err.contains("example.com"), "must name the offending id: {err}");
    assert!(check_tarball(&parse_ref("https://example.com/f.tgz")).is_ok());
}

#[test]
fn a_bare_name_is_not_treated_as_docker_hub() {
    assert_eq!(parse_ref("some/feature").kind, FeatureKind::Local);
}

#[test]
fn a_manifest_names_its_layer_and_carries_the_metadata() {
    let body = br#"{
        "schemaVersion": 2,
        "layers": [
            {"mediaType": "application/vnd.other", "digest": "sha256:1", "size": 1},
            {"mediaType": "application/vnd.devcontainers.layer.v1+tar", "digest": "sha256:2", "size": 2}
        ],
        "annotations": {"dev.containers.metadata": "{\"id\":\"git\",\"installsAfter\":[]}"}
    }"#
    .to_vec();
    let feature = parse_ref("ghcr.io/devcontainers/features/git:1");
    let manifest = accept_manifest(&feature, &body).unwrap();
    let layer = manifest.feature_layer().expect("has a feature layer");
    assert_eq!(layer.media_type, "application/vnd.devcontainers.layer.v1+tar");
    assert_eq!(layer.digest, "sha256:2");
    assert!(manifest.feature_metadata().unwrap().contains("\"installsAfter\""));
    assert_eq!(manifest.digest, digest_of(&body));
}

#[test]
fn a_manifest_that_cannot_be_read_is_an_error() {
    let feature = parse_ref("ghcr.io/x/y:1");
    let err = accept_manifest(&feature, &b"nope".to_vec()).unwrap_err().to_string();
    assert!(err.contains("parsing the OCI manifest for ghcr.io/x/y:1"), "got: {err}");
}

fn archive(body: &[u8]) -> Vec<u8> {
    let mut builder = tar::Builder::new(Vec::new());
    let mut header = tar::Header::new_gnu();
    header.set_size(body.len() as u64);
    header.set_mode(0o644);
    header.set_cksum();
    builder.append_data(&mut header, "install.sh", body).unwrap();
    builder.into_inner().unwrap()
}

#[test]
fn a_plain_tar_is_unpacked_as_it_is() {
    let plain = archive(b"echo hi");
    assert!(!is_gzip(&plain));
    assert_eq!(archive_bytes(plain.clone()), (plain, None));
}

#[test]
fn a_gzipped_tar_is_decompressed_first() {
    let plain = archive(b"echo gz");
    let mut encoder = flate2::write::GzEncoder::new(Vec::new(), flate2::Compression::default());
    encoder.write_all(&plain).unwrap();
    let gzipped = encoder.finish().unwrap();
    assert!(gzipped.starts_with(&[0x1f, 0x8b]));
    assert!(is_gzip(&gzipped));
    let cut = gzipped[..gzipped.len() / 2].to_vec();
    assert_eq!(archive_bytes(gzipped), (plain.clone(), None));
    let (bytes, error) = archive_bytes(cut);
    assert!(bytes.len() < plain.len() && error.is_some(), "a broken stream says so");
}

#[test]
fn verify_digest_accepts_a_match() {
    let sum = digest_of(&b"install.sh".to_vec());
    assert!(verify_digest("layer", "some/feature:1", &sum, &sum).is_ok());
}

#[test]
fn verify_digest_rejects_a_mismatch_naming_both_digests() {
    let expected = digest_of(&b"what the lockfile pinned".to_vec());
    let actual = digest_of(&b"what the registry actually sent".to_vec());
    let err = verify_digest("layer", "some/feature:1", &expected, &actual).unwrap_err().to_string();
    assert!(err.contains("failed integrity verification"), "got: {err}");
    assert!(err.contains("some/feature:1"), "must name the Feature: {err}");
    assert!(err.contains(&expected), "must show the expected digest: {err}");
    assert!(err.contains(&actual), "must show the actual digest: {err}");
}

#[test]
fn a_manifest_that_does_not_match_its_pinned_digest_is_rejected() {
    let zeros = "0".repeat(64);
    let feature = parse_ref(&format!("127.0.0.1:5000/some/feature@sha256:{zeros}"));
    assert!(feature.digest.is_some(), "must be read as digest-pinned");
    let err = accept_manifest(&feature, &br#"{"layers":[],"annotations":{}}"#.to_vec()).unwrap_err().to_string();
    assert!(err.contains("failed integrity verification"), "got: {err}");
    assert!(err.contains(&format!("sha256:{zeros}")), "got: {err}");
}

#[test]
fn a_layer_that_does_not_match_its_digest_is_rejected() {
    let feature = parse_ref("127.0.0.1:5000/some/feature:1");
    let layer = Layer {
        media_type: "application/vnd.devcontainers.layer.v1+tar".to_string(),
        digest: format!("sha256:{}", "0".repeat(64)),
    };
    let blob = b"not the bytes the manifest promised".to_vec();
    let err = accept_layer(&feature, &layer, &blob).unwrap_err().to_string();
    assert!(err.contains("failed integrity verification"), "got: {err}");
    let good = Layer { digest: digest_of(&blob), ..layer };
    assert!(accept_layer(&feature, &good, &blob).is_ok());
}

#[test]
fn the_digest_of_nothing_is_the_published_one() {
    let empty: Vec<u8> = Vec::new();
    assert_eq!(
        digest_of(&empty),
        "sha256:e3b0c44298fc1c149afbf4c8996fb92427ae41e4649b934ca495991b7852b855"
    );
    assert_eq!(short_digest(&empty), "e3b0c44298fc");
}

#[test]
fn addresses_are_built_from_the_reference() {
    let f = parse_ref("ghcr.io/devcontainers/features/git:1");
    assert_eq!(manifest_url(&f), "https://ghcr.io/v2/devcontainers/features/git/manifests/1");
    let layer = Layer { media_type: String::new(), digest: "sha256:abc".to_string() };
    assert_eq!(layer_url(&f, &layer), "https://ghcr.io/v2/devcontainers/features/git/blobs/sha256:abc");
    assert_eq!(host_of("https://ghcr.io/v2/x"), Some("ghcr.io".to_string()));
    assert_eq!(host_of("ftp://ghcr.io/v2/x"), None);
}

#[test]
fn features_are_cached_under_their_digest() {
    assert_eq!(cache_entry("/c", "sha256:abc"), "/c/sha256-abc");
    assert_eq!(cache_root(Some("/given"), Some("/xdg"), Some("/home/u")), "/given");
    assert_eq!(cache_root(None, Some("/xdg"), Some("/home/u")), "/xdg/am/features");
    assert_eq!(cache_root(None, None, Some("/home/u")), "/home/u/.cache/am/features");
    assert_eq!(cache_root(None, None, None), ".am-cache/am/features");
}
