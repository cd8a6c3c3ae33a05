use am::devcontainer::native::auth::{
    auth_file_paths, credential_sources, for_registry, from_helper, look_up, parse_auth_file, remember, split_pair,
    AuthFile, Credentials, Progress, Source,
};
use am::devcontainer::native::challenge::{
    bearer_header, enrich_unauthorized, http_error, next_request, parse_challenge, read_token, token_request,
    unauthorized, FirstReply, HttpFailure, NextRequest,
};
use am::error::AmError;
use am::strmap::StrMap;

fn pair(username: &str, secret: &str) -> Credentials {
    Credentials { username: username.to_string(), secret: secret.to_string() }
}

fn files(text: &str) -> Vec<AuthFile> {
    parse_auth_file(text).into_iter().collect()
}

/// Looks a registry up in one auth file, answering every helper by `answer`.
fn find(text: &str, registry: &str, answer: &dyn Fn(&str) -> Option<Credentials>) -> Option<Credentials> {
    let sources = credential_sources(&files(text), registry);
    let mut answers: Vec<Option<Credentials>> = Vec::new();
    loop {
        match look_up(&sources, &answers) {
            Progress::Done(found) => return found,
            Progress::Ask(i) => {
                while answers.len() < i {
                    answers.push(None);
                }
                match &sources[i] {
                    Source::Helper(name) => answers.push(answer(name)),
                    Source::Known(_) => panic!("only a helper is asked"),
                }
            }
        }
    }
}

fn found(text: &str, registry: &str) -> Option<Credentials> {
    find(text, registry, &|name| panic!("no helper to ask: {name}"))
}

#[test]
fn reads_the_base64_form_docker_login_writes() {
    let c = found(r#"{"auths":{"ghcr.io":{"auth":"dXNlcjpwYTpzcw=="}}}"#, "ghcr.io").expect("credentials");
    assert_eq!(c.username, "user");
    assert_eq!(c.secret, "pa:ss");
}

#[test]
fn reads_the_plain_username_and_password_form() {
    assert_eq!(
        found(r#"{"auths":{"ghcr.io":{"username":"u","password":"p"}}}"#, "ghcr.io"),
        Some(pair("u", "p"))
    );
}

#[test]
fn matches_however_the_registry_is_spelled() {
    let text = r#"{"auths":{"https://ghcr.io/":{"auth":"dTpw"}}}"#;
    assert!(found(text, "ghcr.io").is_some(), "scheme and trailing slash must not matter");
}

#[test]
fn the_three_spellings_of_docker_hub_are_one_registry() {
    let text = r#"{"auths":{"https://index.docker.io/v1/":{"auth":"dTpw"}}}"#;
    assert!(found(text, "docker.io").is_some());
    assert!(found(text, "registry-1.docker.io").is_some());
}

#[test]
fn an_unknown_registry_stays_anonymous() {
    assert_eq!(found(r#"{"auths":{"ghcr.io":{"auth":"dTpw"}}}"#, "registry.example.com"), None);
}

#[test]
fn an_entry_with_an_empty_secret_is_not_credentials() {
    assert_eq!(found(r#"{"auths":{"ghcr.io":{"auth":"dXNlcjo="}}}"#, "ghcr.io"), None);
}

#[test]
fn a_malformed_auth_file_is_ignored_rather_than_fatal() {
    assert_eq!(found("{ not json", "ghcr.io"), None);
}

#[test]
fn an_entry_that_is_no_base64_is_not_credentials() {
    assert_eq!(found(r#"{"auths":{"ghcr.io":{"auth":"!!!"}}}"#, "ghcr.io"), None);
}

#[test]
fn a_credential_helper_is_asked_for_the_registry() {
    let reply = b"{\"ServerURL\":\"ghcr.io\",\"Username\":\"u\",\"Secret\":\"s\"}\n".to_vec();
    let c = find(r#"{"credHelpers":{"ghcr.io":"test"}}"#, "ghcr.io", &|name| {
        assert_eq!(name, "test");
        from_helper(true, &reply)
    });
    assert_eq!(c, Some(pair("u", "s")));
}

#[test]
fn a_helper_that_knows_nothing_leaves_the_pull_anonymous() {
    let c = find(r#"{"credsStore":"test"}"#, "ghcr.io", &|_| from_helper(false, &vec![]));
    assert_eq!(c, None);
}

#[test]
fn a_per_registry_helper_wins_over_the_default_store() {
    let c = find(r#"{"credsStore":"missing-helper","credHelpers":{"ghcr.io":"specific"}}"#, "ghcr.io", &|name| {
        if name == "specific" {
            from_helper(true, &b"{\"Username\":\"right\",\"Secret\":\"s\"}\n".to_vec())
        } else {
            None
        }
    });
    assert_eq!(c.unwrap().username, "right");
}

#[test]
fn a_helpers_reply_must_be_json_with_both_halves() {
    assert_eq!(from_helper(true, &b"not json".to_vec()), None);
    assert_eq!(from_helper(true, &b"{\"Username\":\"u\"}".to_vec()), None);
    assert_eq!(from_helper(true, &vec![0xff]), None);
}

#[test]
fn credentials_are_looked_up_once_per_registry() {
    let mut known: StrMap<Option<Credentials>> = StrMap::new();
    let mut invocations = 0;
    for _ in 0..2 {
        let found = match for_registry(&known, "memo.example.com") {
            Some(found) => found,
            None => {
                let found = find(r#"{"credHelpers":{"memo.example.com":"counting"}}"#, "memo.example.com", &|name| {
                    assert_eq!(name, "counting");
                    Some(pair("u", "s"))
                });
                invocations += 1;
                remember(&mut known, "https://memo.example.com/", found);
                for_registry(&known, "memo.example.com").expect("just remembered")
            }
        };
        assert!(found.is_some());
    }
    assert_eq!(invocations, 1, "the helper must be asked once, not once per Feature");
    assert_eq!(for_registry(&known, "ghcr.io"), None);
}

#[test]
fn the_basic_header_is_the_encoded_pair() {
    assert_eq!(pair("user", "pass").basic_header(), "Basic dXNlcjpwYXNz");
}

#[test]
fn a_pair_splits_at_its_first_colon() {
    assert_eq!(split_pair("user:pa:ss"), Some(pair("user", "pa:ss")));
    assert_eq!(split_pair("user"), None);
    assert_eq!(split_pair("user:"), None);
}

#[test]
fn auth_files_are_looked_for_in_this_order() {
    assert_eq!(
        auth_file_paths(Some("/a.json"), Some("/dc"), Some("/home/u"), Some("/run/user/1")),
        vec![
            "/a.json",
            "/dc/config.json",
            "/home/u/.docker/config.json",
            "/run/user/1/containers/auth.json",
            "/home/u/.config/containers/auth.json",
        ]
    );
    assert_eq!(auth_file_paths(None, None, None, Some("/run/user/1")), vec!["/run/user/1/containers/auth.json"]);
    assert!(auth_file_paths(None, None, None, None).is_empty());
}

// Challenges.

const BEARER: &str = r#"Bearer realm="https://ghcr.io/token",service="ghcr.io",scope="repository:x:pull""#;

#[test]
fn a_challenge_names_the_realm_and_what_to_ask_for() {
    let c = parse_challenge(BEARER);
    assert_eq!(c.realm.as_deref(), Some("https://ghcr.io/token"));
    assert_eq!(
        c.params,
        vec![
            ("service".to_string(), "ghcr.io".to_string()),
            ("scope".to_string(), "repository:x:pull".to_string()),
        ]
    );
}

#[test]
fn a_challenge_without_a_realm_cannot_be_followed() {
    let err = token_request("Bearer service=\"x\"", None).unwrap_err();
    assert_eq!(
        err,
        AmError::DevcontainerBuildFailed(
            "registry returned 401 with no token realm to follow: Bearer service=\"x\"".to_string()
        )
    );
}

#[test]
fn credentials_go_along_with_the_request_for_a_token() {
    let with = token_request(BEARER, Some(&pair("user", "pass"))).unwrap();
    assert_eq!(with.authorization.as_deref(), Some("Basic dXNlcjpwYXNz"));
    assert_eq!(token_request(BEARER, None).unwrap().authorization, None);
}

#[test]
fn either_name_for_a_token_will_do() {
    assert_eq!(read_token("r", r#"{"token":"a","access_token":"b"}"#).unwrap(), "a");
    assert_eq!(read_token("r", r#"{"access_token":"b"}"#).unwrap(), "b");
    assert_eq!(
        read_token("r", "{}").unwrap_err(),
        AmError::DevcontainerBuildFailed("no token in r response".to_string())
    );
    assert_eq!(
        read_token("r", "nope").unwrap_err(),
        AmError::DevcontainerBuildFailed("parsing token response from r".to_string())
    );
    assert_eq!(bearer_header("t"), "Bearer t");
}

#[test]
fn what_comes_after_the_first_reply() {
    let url = "https://ghcr.io/v2/x/manifests/1";
    let creds = pair("user", "pass");
    assert_eq!(
        next_request(url, FirstReply::Content(vec![1, 2]), None).unwrap(),
        NextRequest::Done(vec![1, 2])
    );
    assert_eq!(
        next_request(url, FirstReply::Challenged("Basic realm=\"x\"".to_string()), Some(&creds)).unwrap(),
        NextRequest::Repeat("Basic dXNlcjpwYXNz".to_string())
    );
    assert_eq!(
        next_request(url, FirstReply::Challenged("Basic realm=\"x\"".to_string()), None).unwrap_err(),
        unauthorized(url)
    );
    match next_request(url, FirstReply::Challenged(BEARER.to_string()), None).unwrap() {
        NextRequest::Redeem(t) => assert_eq!(t.realm, "https://ghcr.io/token"),
        other => panic!("got {other:?}"),
    }
    let failed = FirstReply::Failed(HttpFailure::Status { code: 404, body: "gone\n".to_string() });
    assert_eq!(
        next_request(url, failed, None).unwrap_err(),
        AmError::DevcontainerBuildFailed(format!("fetching {url}: HTTP 404: gone"))
    );
}

#[test]
fn http_failures_say_what_happened() {
    let f = HttpFailure::Status { code: 500, body: " ".to_string() };
    assert_eq!(http_error("u", &f), AmError::DevcontainerBuildFailed("fetching u: HTTP 500".to_string()));
    let f = HttpFailure::Transport("no route".to_string());
    assert_eq!(http_error("u", &f), AmError::DevcontainerBuildFailed("fetching u: no route".to_string()));
}

#[test]
fn a_refusal_says_whether_credentials_were_used() {
    let url = "https://ghcr.io/v2/x";
    let refused = HttpFailure::Status { code: 401, body: String::new() };
    let with = enrich_unauthorized(url, &refused, true).to_string();
    assert!(with.contains("am used the credentials it found for ghcr.io"), "got: {with}");
    let without = enrich_unauthorized(url, &refused, false).to_string();
    assert!(without.contains("docker login ghcr.io"), "got: {without}");
    let gone = HttpFailure::Status { code: 404, body: String::new() };
    assert_eq!(enrich_unauthorized(url, &gone, true), http_error(url, &gone));
}

#[test]
fn replies_and_files_may_be_spelled_by_position() {
    assert_eq!(read_token("r", r#"["a",null]"#).unwrap(), "a");
    assert!(read_token("r", r#"["a"]"#).is_err());
    assert_eq!(from_helper(true, &br#"["me","s3"]"#.to_vec()), Some(pair("me", "s3")));
    assert_eq!(from_helper(true, &br#"["me"]"#.to_vec()), None);
    assert!(parse_auth_file("[]").is_some());
    let found = find(r#"[{"ghcr.io":[null,"me","s3"]}]"#, "ghcr.io", &|_| None);
    assert_eq!(found, Some(pair("me", "s3")));
}
