use am::compose::ServiceDefinition;
use am::devcontainer::lock::{LockEntry, Lockfile};
use am::devcontainer::native::feature::{install_order, ResolvedFeature};
use am::devcontainer::native::fetch::{
    check_integrity, collect_features, fetch_feature, metadata_path, pin, record_in_lock, take_directory,
    take_manifest, take_tarball, Content, Fetched, RequestedFeature, Step,
};
use am::devcontainer::native::graph::Graph;
use am::devcontainer::native::oci::{parse_ref, FeatureKind, FeatureRef};
use am::devcontainer::native::plan::{
    arrange, arrangement_note, base_image_user, base_label_elements, base_tag, build_failed, check_static,
    compose_base, compose_label, content_for, dockerfile_build_args, effective_user, install_users,
    override_install_order, prepare, pull_command, pull_failed, resolve_base, staging_dir, BaseSource, BuildRequest,
    ServiceBase,
};
use am::devcontainer::{merge, parse_config_str, parse_metadata_label, DevcontainerJson, InjectedFeature};
use am::digest::digest_of;
use am::error::AmError;
use am::json::{parse_lenient, parse_strict, Json};
use am::strmap::StrMap;

fn json(text: &str) -> (DevcontainerJson, Json) {
    (parse_config_str(text).unwrap(), parse_lenient(text).unwrap())
}

fn value(text: &str) -> Json {
    parse_strict(text).unwrap()
}

// What can be built.

#[test]
fn a_plain_image_config_is_supported() {
    let (typed, _) = json(r#"{"image":"debian:bookworm-slim"}"#);
    assert!(check_static(&typed).is_ok());
}

#[test]
fn a_registry_feature_config_is_supported() {
    let (typed, _) = json(r#"{"image":"debian","features":{"ghcr.io/devcontainers/features/git:1":{}}}"#);
    assert!(check_static(&typed).is_ok());
}

#[test]
fn a_compose_config_is_a_base_the_builder_accepts() {
    let (typed, _) = json(r#"{"dockerComposeFile":"docker-compose.yml","service":"app"}"#);
    assert!(check_static(&typed).is_ok());
}

#[test]
fn a_config_with_nothing_to_build_from_is_an_error_naming_what_to_add() {
    let (typed, _) = json(r#"{"name":"nothing"}"#);
    let err = check_static(&typed).unwrap_err().to_string();
    assert!(err.contains("nothing to build from"), "got: {err}");
    for suggestion in ["image", "dockerfile", "dockerComposeFile"] {
        assert!(err.contains(suggestion), "must name {suggestion}: {err}");
    }
}

#[test]
fn a_build_section_without_a_dockerfile_is_not_a_base() {
    let (typed, _) = json(r#"{"build":{"context":"."}}"#);
    assert!(check_static(&typed).is_err());
}

#[test]
fn override_install_order_is_supported() {
    let (typed, raw) = json(
        r#"{"image":"debian","overrideFeatureInstallOrder":["ghcr.io/devcontainers/features/git"]}"#,
    );
    assert!(check_static(&typed).is_ok());
    assert_eq!(override_install_order(&raw), vec!["ghcr.io/devcontainers/features/git"]);
}

#[test]
fn a_config_without_an_override_list_yields_no_priorities() {
    let (_, raw) = json(r#"{"image":"debian"}"#);
    assert!(override_install_order(&raw).is_empty());
}

#[test]
fn local_and_tarball_features_are_supported() {
    let (local, _) = json(r#"{"image":"debian","features":{"./local-feature":{}}}"#);
    assert!(check_static(&local).is_ok());
    let (tarball, _) =
        json(r#"{"image":"debian","features":{"https://example.com/devcontainer-feature-f.tgz":{}}}"#);
    assert!(check_static(&tarball).is_ok());
}

// Which Features are asked for.

#[test]
fn every_kind_of_feature_reference_is_collected() {
    let (_, raw) = json(
        r#"{"image":"debian","features":{
                "ghcr.io/devcontainers/features/git:1":{},
                "./vendored":{},
                "https://example.com/devcontainer-feature-f.tgz":{}
            }}"#,
    );
    let kinds: Vec<_> = collect_features(&raw, &vec![]).into_iter().map(|f| f.reference.kind).collect();
    assert_eq!(kinds.len(), 3);
    assert!(kinds.contains(&FeatureKind::Registry));
    assert!(kinds.contains(&FeatureKind::Local));
    assert!(kinds.contains(&FeatureKind::Tarball));
}

#[test]
fn injected_features_are_added_to_the_config_s_own() {
    let (_, raw) = json(r#"{"image":"debian","features":{"ghcr.io/a/b/git:1":{}}}"#);
    let injected = vec![InjectedFeature::with_defaults("ghcr.io/openai/devcontainer-features/codex:1")];
    assert_eq!(collect_features(&raw, &injected).len(), 2);
}

#[test]
fn two_tags_of_one_feature_are_two_features() {
    let (_, raw) = json(
        r#"{"image":"debian","features":{
                "ghcr.io/devcontainers/features/node:18":{},
                "ghcr.io/devcontainers/features/node:20":{}
            }}"#,
    );
    assert_eq!(collect_features(&raw, &vec![]).len(), 2, "both tags were asked for");
}

#[test]
fn an_injected_feature_the_config_already_pins_is_not_duplicated() {
    let (_, raw) = json(
        r#"{"image":"debian","features":{"ghcr.io/openai/devcontainer-features/codex:1":{"version":"pinned"}}}"#,
    );
    let injected = vec![InjectedFeature::with_defaults("ghcr.io/openai/devcontainer-features/codex:1")];
    let collected = collect_features(&raw, &injected);
    assert_eq!(collected.len(), 1);
    assert_eq!(collected[0].options.get("version").and_then(Json::as_str), Some("pinned"));
}

#[test]
fn the_version_shorthand_becomes_a_version_option() {
    let (_, raw) = json(r#"{"image":"debian","features":{"ghcr.io/a/b/node:1":"20"}}"#);
    let collected = collect_features(&raw, &vec![]);
    assert_eq!(collected[0].options.get("version").and_then(Json::as_str), Some("20"));
}

// The graph of Features.

/// Local Features by name, each with what it depends on.
fn local_feature(name: &str, depends_on: &[&str]) -> (String, String) {
    let deps: Vec<String> = depends_on.iter().map(|d| format!("\"./{d}\":{{}}")).collect();
    let depends =
        if deps.is_empty() { String::new() } else { format!(",\"dependsOn\":{{{}}}", deps.join(",")) };
    (format!("/repo/{name}"), format!("{{\"id\":\"{name}\",\"version\":\"1.0.0\"{depends}}}"))
}

fn fetch_local(reference: &FeatureRef, there: &[(String, String)]) -> Result<Fetched, AmError> {
    match fetch_feature(reference, "/repo", &Lockfile::default())? {
        Step::Directory(dir) => {
            let canonical = dir.replace("/./", "/");
            let text = match there.iter().find(|(d, _)| *d == canonical) {
                Some((_, t)) => Ok(t.clone()),
                None => Err("no such file".to_string()),
            };
            take_directory(reference, &dir, Some(&canonical), text)
        }
        other => panic!("got {other:?}"),
    }
}

fn resolve_with(
    requested: Vec<RequestedFeature>,
    fetch: &dyn Fn(&FeatureRef) -> Result<Fetched, AmError>,
) -> Result<(Vec<(ResolvedFeature, Content)>, Lockfile), AmError> {
    let mut graph = Graph::new(requested);
    loop {
        let (g, item) = graph.next();
        match item {
            None => return Ok(g.finish()),
            Some(item) => {
                let fetched = fetch(&item.reference)?;
                graph = g.supply(item, fetched);
            }
        }
    }
}

fn resolve_local(config: &str, there: &[(String, String)]) -> Result<Vec<ResolvedFeature>, AmError> {
    let raw = parse_lenient(config).unwrap();
    let (nodes, _) = resolve_with(collect_features(&raw, &vec![]), &|r| fetch_local(r, there))?;
    Ok(nodes.into_iter().map(|(f, _)| f).collect())
}

#[test]
fn depends_on_pulls_in_features_the_config_never_named() {
    let there = [local_feature("top", &["middle"]), local_feature("middle", &["bottom"]), local_feature("bottom", &[])];
    let resolved = resolve_local(r#"{"image":"debian","features":{"./top":{}}}"#, &there).unwrap();
    assert_eq!(resolved.len(), 3, "transitive dependencies must be pulled in");
    let ordered = install_order(resolved, &vec![]).unwrap();
    assert_eq!(
        ordered.iter().map(|f| f.reference.raw.as_str()).collect::<Vec<_>>(),
        vec!["./bottom", "./middle", "./top"],
        "a hard dependency installs before whatever depends on it"
    );
}

#[test]
fn a_diamond_installs_the_shared_dependency_once() {
    let there =
        [local_feature("left", &["shared"]), local_feature("right", &["shared"]), local_feature("shared", &[])];
    let resolved =
        resolve_local(r#"{"image":"debian","features":{"./left":{},"./right":{}}}"#, &there).unwrap();
    assert_eq!(resolved.len(), 3, "the shared dependency must not be installed twice");
}

#[test]
fn a_depends_on_cycle_terminates_rather_than_looping() {
    let there = [local_feature("a", &["b"]), local_feature("b", &["a"])];
    let resolved = resolve_local(r#"{"image":"debian","features":{"./a":{}}}"#, &there).unwrap();
    assert_eq!(resolved.len(), 2);
    let err = install_order(resolved, &vec![]).unwrap_err().to_string();
    assert!(err.contains("circularly"), "got: {err}");
}

#[test]
fn a_local_feature_that_is_not_there_is_an_error_not_a_fallback() {
    let err = resolve_local(r#"{"image":"debian","features":{"./missing":{}}}"#, &[]).unwrap_err().to_string();
    assert!(err.contains("./missing"), "got: {err}");
    assert_eq!(metadata_path("/repo/missing"), "/repo/missing/devcontainer-feature.json");
}

// Features of a registry.

fn manifest_body(metadata: &str) -> Vec<u8> {
    let quoted = metadata.replace('"', "\\\"");
    format!(
        "{{\"layers\":[{{\"mediaType\":\"application/vnd.devcontainers.layer.v1+tar\",\"digest\":\"sha256:layer\"}}],\
         \"annotations\":{{\"dev.containers.metadata\":\"{quoted}\"}}}}"
    )
    .into_bytes()
}

fn fetch_registry(reference: &FeatureRef, lock: &Lockfile, there: &[(&str, Vec<u8>)]) -> Result<Fetched, AmError> {
    match fetch_feature(reference, "/repo", lock)? {
        Step::Manifest(pinned, _) => {
            let body = &there.iter().find(|(id, _)| *id == reference.raw).expect("published").1;
            take_manifest(&pinned, body)
        }
        other => panic!("got {other:?}"),
    }
}

fn asked_for(id: &str, lock: &Lockfile) -> String {
    match fetch_feature(&parse_ref(id), "/repo", lock).unwrap() {
        Step::Manifest(_, url) => url,
        other => panic!("got {other:?}"),
    }
}

const BASE: &str = "ghcr.io/amtest/base:1.0.0";
const NEEDS_BASE: &str = "ghcr.io/amtest/needs-base:1.0.0";

fn request(id: &str) -> Vec<RequestedFeature> {
    vec![RequestedFeature { reference: parse_ref(id), options: StrMap::new() }]
}

#[test]
fn resolving_records_the_fetched_digest_in_the_lockfile() {
    let body = manifest_body(r#"{"id":"base","version":"1.0.0"}"#);
    let digest = digest_of(&body);
    let empty = Lockfile::default();
    let there = [(BASE, body)];
    let (_, written) = resolve_with(request(BASE), &|r| fetch_registry(r, &empty, &there)).unwrap();
    assert_eq!(written.digest_for(BASE), Some(digest.as_str()));
    assert_eq!(written.integrity_for(BASE), Some(digest.as_str()));
    assert_eq!(
        asked_for(BASE, &empty),
        "https://ghcr.io/v2/amtest/base/manifests/1.0.0",
        "an unpinned build asks for the tag"
    );
}

#[test]
fn a_locked_build_requests_the_pinned_digest_rather_than_the_tag() {
    let body = manifest_body(r#"{"id":"base","version":"1.0.0"}"#);
    let digest = digest_of(&body);
    let mut lock = Lockfile::default();
    lock.insert(
        BASE,
        LockEntry {
            version: Some("1.0.0".to_string()),
            resolved: format!("ghcr.io/amtest/base@{digest}"),
            integrity: digest.clone(),
            depends_on: Vec::new(),
        },
    );
    assert_eq!(pin(&parse_ref(BASE), &lock).reference(), digest);
    assert_eq!(asked_for(BASE, &lock), format!("https://ghcr.io/v2/amtest/base/manifests/{digest}"));
    let there = [(BASE, body)];
    assert!(resolve_with(request(BASE), &|r| fetch_registry(r, &lock, &there)).is_ok());
    let moved = [(BASE, manifest_body(r#"{"id":"base","version":"1.0.1"}"#))];
    let err = resolve_with(request(BASE), &|r| fetch_registry(r, &lock, &moved)).unwrap_err().to_string();
    assert!(err.contains("failed integrity verification"), "got: {err}");
}

#[test]
fn depends_on_over_a_registry_pulls_in_a_feature_the_config_never_named() {
    let there = [
        (BASE, manifest_body(r#"{"id":"base","version":"1.0.0"}"#)),
        (
            NEEDS_BASE,
            manifest_body(&format!(r#"{{"id":"needs-base","version":"1.0.0","dependsOn":{{"{BASE}":{{}}}}}}"#)),
        ),
    ];
    let empty = Lockfile::default();
    let (nodes, written) = resolve_with(request(NEEDS_BASE), &|r| fetch_registry(r, &empty, &there)).unwrap();
    let ids: Vec<String> = nodes.iter().map(|(f, _)| f.reference.raw.clone()).collect();
    assert_eq!(ids.len(), 2, "the dependency should have been pulled in: {ids:?}");
    assert!(ids.iter().any(|i| i.contains("needs-base")), "{ids:?}");
    assert!(ids.iter().any(|i| i.ends_with("amtest/base:1.0.0")), "{ids:?}");
    assert!(written.digest_for(BASE).is_some() && written.digest_for(NEEDS_BASE).is_some());
}

#[test]
fn what_is_recorded_is_what_is_pinned() {
    let mut lock = Lockfile::default();
    let reference = parse_ref(BASE);
    let body = manifest_body(r#"{"id":"base","version":"1.0.0"}"#);
    let fetched = take_manifest(&reference, &body).unwrap();
    record_in_lock(&mut lock, &reference, &fetched.metadata, &fetched.digest);
    assert_eq!(pin(&reference, &lock).digest, Some(digest_of(&body)));
}

#[test]
fn a_tarball_that_changed_is_refused() {
    let id = "https://example.com/f.tgz";
    let reference = parse_ref(id);
    let mut lock = Lockfile::default();
    lock.insert(
        id,
        LockEntry {
            version: None,
            resolved: id.to_string(),
            integrity: "sha256:old".to_string(),
            depends_on: Vec::new(),
        },
    );
    assert_eq!(fetch_feature(&reference, "/repo", &lock).unwrap(), Step::Tarball(id.to_string()));
    assert!(check_integrity(&reference, &lock, "sha256:old").is_ok());
    let text = || Ok(r#"{"id":"f"}"#.to_string());
    assert_eq!(take_tarball(&reference, &lock, "/c/f", "sha256:old", text()).unwrap().digest, "sha256:old");
    assert!(take_tarball(&reference, &lock, "/c/f", "sha256:new", text()).is_err());
    let err = check_integrity(&reference, &lock, "sha256:new").unwrap_err().to_string();
    assert!(err.contains("does not match the lockfile"), "got: {err}");
    assert!(err.contains("sha256:old") && err.contains("sha256:new"), "got: {err}");
    assert!(check_integrity(&reference, &Lockfile::default(), "sha256:new").is_ok());
}

#[test]
fn a_manifest_must_be_a_features() {
    let reference = parse_ref(BASE);
    let err = take_manifest(&reference, &b"{\"layers\":[]}".to_vec()).unwrap_err().to_string();
    assert!(err.contains("is not a devcontainer Feature"), "got: {err}");
    let body = b"{\"layers\":[],\"annotations\":{\"dev.containers.metadata\":\"{}\"}}".to_vec();
    let err = take_manifest(&reference, &body).unwrap_err().to_string();
    assert!(err.contains("has no layer to install"), "got: {err}");
}

#[test]
fn a_tarball_is_only_fetched_over_https() {
    let err = fetch_feature(&parse_ref("http://example.com/f.tgz"), "/repo", &Lockfile::default()).unwrap_err();
    assert!(err.to_string().contains("https"), "got: {}", err.to_string());
}

// The label.

#[test]
fn label_precedence_runs_base_then_features_then_config() {
    let base = vec![value(r#"{"remoteUser": "vscode"}"#)];
    let (_, raw) = json(r#"{"image":"debian","remoteUser":"root"}"#);
    let label = compose_label(&base, &vec![], &raw);
    match parse_strict(&label).unwrap() {
        Json::Array(parsed) => {
            assert_eq!(parsed.len(), 2);
            assert_eq!(parsed[0].get("remoteUser").and_then(Json::as_str), Some("vscode"));
            assert_eq!(parsed[1].get("remoteUser").and_then(Json::as_str), Some("root"));
        }
        other => panic!("got {other:?}"),
    }
}

#[test]
fn a_config_contributing_nothing_adds_no_element() {
    let (_, raw) = json(r#"{"image":"debian","name":"demo"}"#);
    assert_eq!(compose_label(&vec![], &vec![], &raw), "[  ]");
}

#[test]
fn composed_label_round_trips_through_the_shared_parser() {
    let base = vec![value(r#"{"remoteUser": "vscode", "init": true}"#)];
    let (_, raw) = json(r#"{"image":"debian","containerEnv":{"FOO":"bar"}}"#);
    let label = compose_label(&base, &vec![], &raw);
    let merged = merge(&parse_metadata_label(&label).unwrap()).unwrap();
    assert!(merged.init);
    assert_eq!(merged.remote_user.as_deref(), Some("vscode"));
    assert_eq!(merged.container_env.get("FOO").map(String::as_str), Some("bar"));
}

#[test]
fn effective_user_prefers_the_config_over_the_base_image() {
    let base = vec![value(r#"{"remoteUser": "vscode"}"#)];
    let (_, raw) = json(r#"{"image":"debian","remoteUser":"root"}"#);
    assert_eq!(effective_user(&base, &raw, "remoteUser"), Some("root".to_string()));
}

#[test]
fn effective_user_falls_through_to_the_base_image() {
    let base = vec![value(r#"{"remoteUser": "vscode"}"#)];
    let (_, raw) = json(r#"{"image":"debian"}"#);
    assert_eq!(effective_user(&base, &raw, "remoteUser"), Some("vscode".to_string()));
}

#[test]
fn features_install_as_the_users_the_image_will_run_with() {
    let (_, raw) = json(r#"{"image":"debian","remoteUser":"dev"}"#);
    assert_eq!(install_users(&vec![], &raw, "node"), ("node".to_string(), "dev".to_string()));
    let (_, plain) = json(r#"{"image":"debian"}"#);
    assert_eq!(install_users(&vec![], &plain, "node"), ("node".to_string(), "node".to_string()));
}

#[test]
fn what_the_runtime_says_of_the_base_image() {
    assert_eq!(base_label_elements(true, &b"[{\"init\":true}]\n".to_vec()).len(), 1);
    assert_eq!(base_label_elements(true, &b"{\"init\":true}\n".to_vec()).len(), 1);
    assert!(base_label_elements(true, &b"<no value>\n".to_vec()).is_empty());
    assert!(base_label_elements(false, &b"[{}]".to_vec()).is_empty());
    assert_eq!(base_image_user(true, &b"node\n".to_vec()), "node");
    assert_eq!(base_image_user(true, &b"\n".to_vec()), "root");
    assert_eq!(base_image_user(false, &b"node\n".to_vec()), "root");
}

// Commands of a build.

fn build_request<'a>(json: &'a DevcontainerJson, injected: &'a Vec<InjectedFeature>) -> BuildRequest<'a> {
    BuildRequest {
        worktree: "/repo",
        config_path: "/repo/.devcontainer/devcontainer.json",
        json,
        image: "am-dc-abc",
        injected,
        no_cache: false,
    }
}

#[test]
fn the_base_is_an_image_a_service_or_a_dockerfile() {
    let path = "/repo/.devcontainer/devcontainer.json";
    let (image, _) = json(r#"{"image":"debian"}"#);
    assert_eq!(resolve_base(path, &image).unwrap(), BaseSource::Image("debian".to_string()));
    let (service, _) = json(r#"{"dockerComposeFile":"c.yml","service":"app"}"#);
    assert_eq!(resolve_base(path, &service).unwrap(), BaseSource::Service("app".to_string()));
    let (dockerfile, _) = json(r#"{"build":{"dockerfile":"Dockerfile"}}"#);
    assert_eq!(
        resolve_base(path, &dockerfile).unwrap(),
        BaseSource::Dockerfile("/repo/.devcontainer/Dockerfile".to_string())
    );
    let (nothing, _) = json("{}");
    assert!(resolve_base(path, &nothing).is_err());
    assert_eq!(base_tag("am-dc-abc"), "am-dc-abc-base");
}

#[test]
fn a_dockerfile_is_built_with_everything_its_section_says() {
    let (typed, _) = json(
        r#"{"build":{"dockerfile":"Dockerfile","target":"dev","args":{"A":"${localWorkspaceFolder}","N":3},
            "options":["--pull"],"cacheFrom":"ghcr.io/x/cache"}}"#,
    );
    let injected = vec![];
    let args = dockerfile_build_args(
        &build_request(&typed, &injected),
        "/repo/.devcontainer/Dockerfile",
        &StrMap::new(),
    );
    let joined = args.join(" ");
    assert!(joined.starts_with("build -f /repo/.devcontainer/Dockerfile -t am-dc-abc-base"), "got: {joined}");
    for part in ["--target dev", "--build-arg A=/repo", "--build-arg N=3", "--cache-from ghcr.io/x/cache", "--pull"] {
        assert!(joined.contains(part), "{part} missing: {joined}");
    }
    assert!(joined.ends_with("/repo/.devcontainer"), "the context comes last: {joined}");
}

#[test]
fn a_service_is_taken_as_it_is_or_built() {
    let image = ServiceDefinition { image: Some("postgres".to_string()), build: None };
    assert_eq!(compose_base(&image, "am-dc-abc", false), ServiceBase::Image("postgres".to_string()));
    let built =
        ServiceDefinition { image: None, build: Some(("/repo/app".to_string(), Some("Dockerfile".to_string()))) };
    match compose_base(&built, "am-dc-abc", true) {
        ServiceBase::Build(args) => {
            assert_eq!(args.join(" "), "build -t am-dc-abc-base -f /repo/app/Dockerfile --no-cache /repo/app")
        }
        other => panic!("got {other:?}"),
    }
}

#[test]
fn failures_of_the_runtime_are_reported() {
    assert_eq!(pull_command("debian"), vec!["pull", "debian"]);
    assert_eq!(pull_failed("debian", None).to_string(), "could not pull base image debian");
    assert_eq!(pull_failed("debian", Some("gone")).to_string(), "failed to run pull: gone");
    assert_eq!(
        build_failed("feature install", "docker", Ok("exit status: 1".to_string())).to_string(),
        "feature install failed (exit status: 1) — see the output above"
    );
    assert_eq!(
        build_failed("feature install", "docker", Err("gone".to_string())).to_string(),
        "failed to run docker: gone"
    );
}

#[test]
fn features_are_arranged_and_installed() {
    let there = [local_feature("top", &["bottom"]), local_feature("bottom", &[])];
    let text = r#"{"image":"debian","remoteUser":"dev","features":{"./top":{}},"overrideFeatureInstallOrder":["absent"]}"#;
    let (typed, raw) = json(text);
    let (nodes, _) = resolve_with(collect_features(&raw, &vec![]), &|r| fetch_local(r, &there)).unwrap();
    let note = arrangement_note(&raw, &nodes).unwrap();
    assert!(note.contains("absent"), "got: {note}");
    let arrangement = arrange(&raw, &nodes).unwrap();
    let ids: Vec<_> = arrangement.features.iter().map(|f| f.reference.raw.as_str()).collect();
    assert_eq!(ids, vec!["./bottom", "./top"]);
    assert_eq!(
        content_for(&arrangement.contents, &arrangement.features[0]).unwrap(),
        &Content::Directory("/repo/./bottom".to_string())
    );

    let injected = vec![];
    let plan =
        prepare(&build_request(&typed, &injected), &raw, &arrangement.features, "debian", &vec![], "root", "/c/features");
    assert_eq!(plan.staging, staging_dir("/c/features", "am-dc-abc"));
    assert_eq!(plan.context, format!("{}/context", plan.staging));
    assert_eq!(plan.dockerfile_path, format!("{}/Dockerfile", plan.staging));
    assert!(plan.dockerfile.contains("remoteUser"), "got: {}", plan.dockerfile);
    assert_eq!(
        plan.args.join(" "),
        format!(
            "build --build-arg _DEV_CONTAINERS_BASE_IMAGE=debian --build-arg _DEV_CONTAINERS_IMAGE_USER=root \
             --target dev_containers_target_stage -f {} -t am-dc-abc {}",
            plan.dockerfile_path, plan.context
        )
    );
    assert_eq!(plan.files[0].0, "devcontainer-features.builtin.env");
    assert_eq!(plan.files.len(), 5);
}

#[test]
fn every_feature_asked_for_is_there_and_each_request_is_made_once() {
    let there = [local_feature("a", &["b"]), local_feature("b", &["c", "a"]), local_feature("c", &["a"])];
    let raw = parse_lenient(r#"{"image":"debian","features":{"./a":{},"./c":{"x":"1"},"./b":{}}}"#).unwrap();
    let asked = std::cell::Cell::new(0);
    let (nodes, _) = resolve_with(collect_features(&raw, &vec![]), &|r| {
        asked.set(asked.get() + 1);
        fetch_local(r, &there)
    })
    .unwrap();
    let found: Vec<(&str, usize)> =
        nodes.iter().map(|(f, _)| (f.reference.raw.as_str(), f.supplied.len())).collect();
    assert_eq!(found, vec![("./a", 0), ("./c", 1), ("./b", 0), ("./c", 0)]);
    assert_eq!(asked.get(), 4);
}
