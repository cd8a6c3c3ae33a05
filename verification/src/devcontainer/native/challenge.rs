//! Answering a registry that asks who is there.

use vstd::prelude::*;

use super::auth::{Credentials, CredentialsModel};
use super::oci;
use crate::decode;
use crate::error::{AmError, AmErrorModel};
use crate::json::{self, Json, JsonModel};
use crate::text;

verus! {

// ----------------------------------------------------------------------------------------------
// Challenges
// ----------------------------------------------------------------------------------------------

/// What a `Bearer` challenge asks for.
#[derive(Debug, PartialEq)]
pub struct Challenge {
    /// Where a token is handed out.
    pub realm: Option<String>,
    /// The other parameters, which go into the query.
    pub params: Vec<(String, String)>,
}

/// What a [`Challenge`] stands for.
pub struct ChallengeModel {
    pub realm: Option<Seq<char>>,
    pub params: Seq<(Seq<char>, Seq<char>)>,
}

impl DeepView for Challenge {
    type V = ChallengeModel;

    open spec fn deep_view(&self) -> ChallengeModel {
        ChallengeModel { realm: self.realm.deep_view(), params: self.params.deep_view() }
    }
}

/// A text without the quotes at its ends.
pub open spec fn unquoted(s: Seq<char>) -> Seq<char> {
    text::trimmed_end_char(text::trimmed_start_char(s, '"'), '"')
}

/// A challenge with one more parameter; what is no `name=value` pair is passed over, and the last realm
/// counts.
pub open spec fn with_part(c: ChallengeModel, part: Seq<char>) -> ChallengeModel {
    match text::split_first(part, '=') {
        None => c,
        Some((k, v)) => {
            let name = text::trimmed(k);
            let value = unquoted(text::trimmed(v));
            if name == "realm"@ {
                ChallengeModel { realm: Some(value), ..c }
            } else {
                ChallengeModel { params: c.params.push((name, value)), ..c }
            }
        },
    }
}

/// A challenge from its parts.
pub open spec fn of_parts(parts: Seq<Seq<char>>) -> ChallengeModel
    decreases parts.len(),
{
    if parts.len() == 0 {
        ChallengeModel { realm: None, params: Seq::empty() }
    } else {
        with_part(of_parts(parts.drop_last()), parts.last())
    }
}

/// What a `Bearer realm="…",service="…",scope="…"` header says.
pub open spec fn challenge_of(header: Seq<char>) -> ChallengeModel {
    of_parts(text::split_at(text::trimmed_prefixes(header, "Bearer "@), ','))
}

/// Reads a `Bearer` challenge.
pub fn parse_challenge(header: &str) -> (r: Challenge)
    ensures
        r.deep_view() == challenge_of(header@),
{
    proof {
        reveal_strlit("Bearer ");
    }
    let parts = text::split(text::trim_prefixes(header, "Bearer "), ',');
    let ghost all = parts.deep_view();
    let mut realm: Option<String> = None;
    let mut params: Vec<(String, String)> = Vec::new();
    assert(params.deep_view() =~= of_parts(all.subrange(0, 0)).params);
    let mut i: usize = 0;
    while i < parts.len()
        invariant
            all == parts.deep_view(),
            i <= parts.len(),
            realm.deep_view() == of_parts(all.subrange(0, i as int)).realm,
            params.deep_view() == of_parts(all.subrange(0, i as int)).params,
        decreases parts.len() - i,
    {
        assert(all.subrange(0, i + 1).drop_last() =~= all.subrange(0, i as int));
        assert(all[i as int] == parts@[i as int]@);
        let ghost before = params.deep_view();
        match text::split_once(parts[i].as_str(), '=') {
            None => {},
            Some((k, v)) => {
                let name = text::trim(k);
                let value = text::trim_end_char(text::trim_start_char(text::trim(v), '"'), '"');
                if text::eq(name, "realm") {
                    realm = Some(value.to_owned());
                } else {
                    params.push((name.to_owned(), value.to_owned()));
                    assert(params.deep_view() =~= before.push((name@, value@)));
                }
            },
        }
        i = i + 1;
    }
    assert(all.subrange(0, all.len() as int) =~= all);
    Challenge { realm, params }
}

/// A request for a token.
#[derive(Debug, PartialEq)]
pub struct TokenRequest {
    pub realm: String,
    pub params: Vec<(String, String)>,
    /// The `Authorization` header, where there are credentials to present.
    pub authorization: Option<String>,
}

/// What a [`TokenRequest`] stands for.
pub struct TokenRequestModel {
    pub realm: Seq<char>,
    pub params: Seq<(Seq<char>, Seq<char>)>,
    pub authorization: Option<Seq<char>>,
}

impl DeepView for TokenRequest {
    type V = TokenRequestModel;

    open spec fn deep_view(&self) -> TokenRequestModel {
        TokenRequestModel {
            realm: self.realm@,
            params: self.params.deep_view(),
            authorization: self.authorization.deep_view(),
        }
    }
}

/// The header that presents some credentials.
pub open spec fn presented(credentials: Option<CredentialsModel>) -> Option<Seq<char>> {
    match credentials {
        Some(c) => Some(c.basic()),
        None => None,
    }
}

/// The request for a token that answers a challenge.
pub open spec fn token_request_of(header: Seq<char>, credentials: Option<CredentialsModel>) -> Result<
    TokenRequestModel,
    AmErrorModel,
> {
    match challenge_of(header).realm {
        Some(realm) => Ok(
            TokenRequestModel {
                realm,
                params: challenge_of(header).params,
                authorization: presented(credentials),
            },
        ),
        None => Err(
            AmErrorModel::DevcontainerBuildFailed(
                "registry returned 401 with no token realm to follow: "@ + header,
            ),
        ),
    }
}

/// Turns a challenge into the request for a token. Credentials go to the token's realm.
pub fn token_request(header: &str, credentials: Option<&Credentials>) -> (r: Result<TokenRequest, AmError>)
    ensures
        crate::error::outcome(r) == token_request_of(header@, credentials.deep_view()),
{
    let c = parse_challenge(header);
    match c.realm {
        Some(realm) => Ok(
            TokenRequest {
                realm,
                params: c.params,
                authorization: match credentials {
                    Some(c) => Some(c.basic_header()),
                    None => None,
                },
            },
        ),
        None => Err(
            AmError::DevcontainerBuildFailed(
                text::cat2("registry returned 401 with no token realm to follow: ", header),
            ),
        ),
    }
}

/// The fields of a realm's reply.
pub open spec fn token_fields() -> Seq<Seq<char>> {
    seq!["token"@, "access_token"@]
}

/// The token in a realm's reply; `parsed` is what the JSON reader made of it.
pub open spec fn token_of(realm: Seq<char>, parsed: Result<JsonModel, Seq<char>>) -> Result<Seq<char>, AmErrorModel> {
    let unreadable = AmErrorModel::DevcontainerBuildFailed("parsing token response from "@ + realm);
    match parsed {
        Err(_) => Err(unreadable),
        Ok(j) => {
            let j = decode::named(j, token_fields(), 2);
            let token = decode::opt_text_of(j.member("token"@));
            let access = decode::opt_text_of(j.member("access_token"@));
            if !(j is Object) || token is None || access is None {
                Err(unreadable)
            } else {
                match (token->0, access->0) {
                    (Some(t), _) => Ok(t),
                    (None, Some(t)) => Ok(t),
                    (None, None) => Err(
                        AmErrorModel::DevcontainerBuildFailed("no token in "@ + realm + " response"@),
                    ),
                }
            }
        },
    }
}

/// Takes the token out of a realm's reply that is already JSON.
pub fn token_in(realm: &str, reply: Result<Json, String>) -> (r: Result<String, AmError>)
    ensures
        crate::error::outcome(r) == token_of(realm@, match reply {
            Ok(j) => Ok::<JsonModel, Seq<char>>(j@),
            Err(e) => Err(e@),
        }),
{
    let reply = match reply {
        Ok(j) => j,
        Err(_) => {
            return Err(AmError::DevcontainerBuildFailed(text::cat2("parsing token response from ", realm)));
        },
    };
    let names: Vec<&str> = vec!["token", "access_token"];
    assert(names.deep_view() =~= token_fields());
    let held = decode::by_position(&reply, &names, 2);
    let j: &Json = match &held {
        Some(o) => o,
        None => &reply,
    };
    let is_object = match j {
        Json::Object(_) => true,
        _ => false,
    };
    let token = decode::opt_text(j.get("token"));
    let access = decode::opt_text(j.get("access_token"));
    if !is_object || token.is_none() || access.is_none() {
        return Err(AmError::DevcontainerBuildFailed(text::cat2("parsing token response from ", realm)));
    }
    match (token.unwrap(), access.unwrap()) {
        (Some(t), _) => Ok(t),
        (None, Some(t)) => Ok(t),
        (None, None) => Err(AmError::DevcontainerBuildFailed(text::cat3("no token in ", realm, " response"))),
    }
}

/// Takes the token out of a realm's reply.
pub fn read_token(realm: &str, body: &str) -> (r: Result<String, AmError>)
    ensures
        crate::error::outcome(r) == token_of(realm@, json::strict(body@)),
{
    token_in(realm, json::parse_strict(body))
}

// ----------------------------------------------------------------------------------------------
// Failures
// ----------------------------------------------------------------------------------------------

/// How a request failed.
#[derive(Debug, PartialEq)]
pub enum HttpFailure {
    /// The server answered with an error.
    Status { code: u16, body: String },
    /// There was no answer.
    Transport(String),
}

/// What an [`HttpFailure`] stands for.
pub enum FailureModel {
    Status { code: nat, body: Seq<char> },
    Transport(Seq<char>),
}

impl DeepView for HttpFailure {
    type V = FailureModel;

    open spec fn deep_view(&self) -> FailureModel {
        match self {
            HttpFailure::Status { code, body } => FailureModel::Status { code: *code as nat, body: body@ },
            HttpFailure::Transport(s) => FailureModel::Transport(s@),
        }
    }
}

impl FailureModel {
    /// The failure in words: a registry's own text where it gave one.
    pub open spec fn detail(self) -> Seq<char> {
        match self {
            FailureModel::Transport(s) => s,
            FailureModel::Status { code, body } => if text::trimmed(body).len() == 0 {
                "HTTP "@ + text::decimal(code)
            } else {
                "HTTP "@ + text::decimal(code) + ": "@ + text::trimmed(body)
            },
        }
    }

    /// Whether credentials decide about the failure.
    pub open spec fn is_refusal(self) -> bool {
        self matches FailureModel::Status { code, .. } && (code == 401 || code == 403)
    }
}

/// A failed request for a URL.
pub open spec fn fetch_failed(url: Seq<char>, f: FailureModel) -> Seq<char> {
    "fetching "@ + url + ": "@ + f.detail()
}

/// The error for a failed request.
pub fn http_error(url: &str, failure: &HttpFailure) -> (r: AmError)
    ensures
        r.deep_view() == AmErrorModel::DevcontainerBuildFailed(fetch_failed(url@, failure.deep_view())),
{
    let detail = match failure {
        HttpFailure::Transport(s) => s.clone(),
        HttpFailure::Status { code, body } => {
            let trimmed = text::trim(body.as_str());
            let number = text::decimal_of(*code as u64);
            if trimmed.is_empty() {
                text::cat2("HTTP ", number.as_str())
            } else {
                text::cat4("HTTP ", number.as_str(), ": ", trimmed)
            }
        },
    };
    AmError::DevcontainerBuildFailed(text::cat4("fetching ", url, ": ", detail.as_str()))
}

/// The registry behind a URL, for a message.
pub open spec fn registry_in(url: Seq<char>) -> Seq<char> {
    match oci::url_host(url) {
        Some(h) => h,
        None => "the registry"@,
    }
}

fn registry_name(url: &str) -> (r: String)
    ensures
        r@ == registry_in(url@),
{
    match oci::host_of(url) {
        Some(h) => h,
        None => "the registry".to_owned(),
    }
}

/// A refusal that credentials could mend.
pub open spec fn anonymous_refused(url: Seq<char>) -> AmErrorModel {
    AmErrorModel::DevcontainerBuildFailed(
        registry_in(url) + " refused an anonymous pull and no credentials were found for it\nRun `docker login "@
            + registry_in(url) + "` (or `podman login "@ + registry_in(url) + "`) — am reads the same files"@,
    )
}

/// The error for a refusal that credentials could mend.
pub fn unauthorized(url: &str) -> (r: AmError)
    ensures
        r.deep_view() == anonymous_refused(url@),
{
    let host = registry_name(url);
    AmError::DevcontainerBuildFailed(
        text::cat6(
            host.as_str(),
            " refused an anonymous pull and no credentials were found for it\nRun `docker login ",
            host.as_str(),
            "` (or `podman login ",
            host.as_str(),
            "`) — am reads the same files",
        ),
    )
}

/// What is said of a request that failed although a challenge had been answered.
pub open spec fn refused(url: Seq<char>, f: FailureModel, had_credentials: bool) -> AmErrorModel {
    if !f.is_refusal() {
        AmErrorModel::DevcontainerBuildFailed(fetch_failed(url, f))
    } else if !had_credentials {
        anonymous_refused(url)
    } else {
        AmErrorModel::DevcontainerBuildFailed(
            fetch_failed(url, f) + "\nam used the credentials it found for "@ + registry_in(url)
                + ". They may be expired, or may not grant access to this Feature."@,
        )
    }
}

/// The error for a request that failed although a challenge had been answered.
pub fn enrich_unauthorized(url: &str, failure: &HttpFailure, had_credentials: bool) -> (r: AmError)
    ensures
        r.deep_view() == refused(url@, failure.deep_view(), had_credentials),
{
    let refusal = match failure {
        HttpFailure::Status { code, .. } => *code == 401 || *code == 403,
        HttpFailure::Transport(_) => false,
    };
    if !refusal {
        return http_error(url, failure);
    }
    if !had_credentials {
        return unauthorized(url);
    }
    let detail = http_error(url, failure).to_string();
    let host = registry_name(url);
    AmError::DevcontainerBuildFailed(
        text::cat4(
            detail.as_str(),
            "\nam used the credentials it found for ",
            host.as_str(),
            ". They may be expired, or may not grant access to this Feature.",
        ),
    )
}

// ----------------------------------------------------------------------------------------------
// The conversation
// ----------------------------------------------------------------------------------------------

/// What came back from the first request, which goes out without credentials.
#[derive(Debug, PartialEq)]
pub enum FirstReply {
    /// The content.
    Content(Vec<u8>),
    /// A 401, with its `WWW-Authenticate` header, empty where it had none.
    Challenged(String),
    /// Anything else.
    Failed(HttpFailure),
}

/// What a [`FirstReply`] stands for.
pub enum FirstReplyModel {
    Content(Seq<u8>),
    Challenged(Seq<char>),
    Failed(FailureModel),
}

impl DeepView for FirstReply {
    type V = FirstReplyModel;

    open spec fn deep_view(&self) -> FirstReplyModel {
        match self {
            FirstReply::Content(b) => FirstReplyModel::Content(b@),
            FirstReply::Challenged(h) => FirstReplyModel::Challenged(h@),
            FirstReply::Failed(f) => FirstReplyModel::Failed(f.deep_view()),
        }
    }
}

/// How to go on after the first request.
#[derive(Debug, PartialEq)]
pub enum NextRequest {
    /// There is nothing more to ask.
    Done(Vec<u8>),
    /// Ask again with this `Authorization` header.
    Repeat(String),
    /// Get a token, then ask again with it.
    Redeem(TokenRequest),
}

/// What a [`NextRequest`] stands for.
pub enum NextModel {
    Done(Seq<u8>),
    Repeat(Seq<char>),
    Redeem(TokenRequestModel),
}

impl DeepView for NextRequest {
    type V = NextModel;

    open spec fn deep_view(&self) -> NextModel {
        match self {
            NextRequest::Done(b) => NextModel::Done(b@),
            NextRequest::Repeat(h) => NextModel::Repeat(h@),
            NextRequest::Redeem(t) => NextModel::Redeem(t.deep_view()),
        }
    }
}

/// How to go on after the first request. A registry that wants `Basic` gets the credentials at once;
/// every other challenge is redeemed for a token.
pub open spec fn next_of(url: Seq<char>, reply: FirstReplyModel, credentials: Option<CredentialsModel>) -> Result<
    NextModel,
    AmErrorModel,
> {
    match reply {
        FirstReplyModel::Content(b) => Ok(NextModel::Done(b)),
        FirstReplyModel::Failed(f) => Err(AmErrorModel::DevcontainerBuildFailed(fetch_failed(url, f))),
        FirstReplyModel::Challenged(header) => if text::has_prefix(text::trimmed_start(header), "Basic"@) {
            match credentials {
                Some(c) => Ok(NextModel::Repeat(c.basic())),
                None => Err(anonymous_refused(url)),
            }
        } else {
            match token_request_of(header, credentials) {
                Ok(t) => Ok(NextModel::Redeem(t)),
                Err(e) => Err(e),
            }
        },
    }
}

/// Decides how to go on after the first request.
pub fn next_request(url: &str, reply: FirstReply, credentials: Option<&Credentials>) -> (r: Result<NextRequest, AmError>)
    ensures
        crate::error::outcome(r) == next_of(url@, reply.deep_view(), credentials.deep_view()),
{
    match reply {
        FirstReply::Content(b) => Ok(NextRequest::Done(b)),
        FirstReply::Failed(f) => Err(http_error(url, &f)),
        FirstReply::Challenged(header) => {
            if text::starts_with(text::trim_start(header.as_str()), "Basic") {
                match credentials {
                    Some(c) => Ok(NextRequest::Repeat(c.basic_header())),
                    None => Err(unauthorized(url)),
                }
            } else {
                match token_request(header.as_str(), credentials) {
                    Ok(t) => Ok(NextRequest::Redeem(t)),
                    Err(e) => Err(e),
                }
            }
        },
    }
}

/// The `Authorization` header for a token.
pub fn bearer_header(token: &str) -> (r: String)
    ensures
        r@ == "Bearer "@ + token@,
{
    text::cat2("Bearer ", token)
}

/// Credentials are presented only to a registry that has asked who is there, and only in answer to that.
pub proof fn law_credentials_answer_a_challenge(
    url: Seq<char>,
    reply: FirstReplyModel,
    one: Option<CredentialsModel>,
    other: Option<CredentialsModel>,
)
    requires
        !(reply is Challenged),
    ensures
        next_of(url, reply, one) == next_of(url, reply, other),
{
}

// ----------------------------------------------------------------------------------------------
// How a challenge is answered
// ----------------------------------------------------------------------------------------------

/// The name and the value that a part of a challenge gives, where it gives any: the value without the
/// quotes around it.
pub open spec fn given_by(part: Seq<char>) -> Option<(Seq<char>, Seq<char>)> {
    match text::split_first(part, '=') {
        Some((k, v)) => Some((text::trimmed(k), unquoted(text::trimmed(v)))),
        None => None,
    }
}

/// Whether a part of a challenge names the realm.
pub open spec fn names_realm(part: Seq<char>) -> bool {
    given_by(part) matches Some((k, _)) && k == "realm"@
}

/// A challenge names the realm that its last part about it names. Every other pair is a parameter, and the
/// parameters are in order.
pub proof fn law_a_challenge_names_its_realm(header: Seq<char>, i: int)
    ensures
        ({
            let parts = text::split_at(text::trimmed_prefixes(header, "Bearer "@), ',');
            let c = challenge_of(header);
            &&& c.realm is Some <==> exists|k: int| 0 <= k < parts.len() && names_realm(#[trigger] parts[k])
            &&& 0 <= i < parts.len() && names_realm(parts[i]) && (forall|k: int|
                i < k < parts.len() ==> !names_realm(#[trigger] parts[k])) ==> (given_by(parts[i]) matches Some((_, v))
                && c.realm == Some(v))
            &&& 0 <= i < parts.len() && !names_realm(parts[i]) ==> (given_by(parts[i]) matches Some(p) ==> {
                let n = of_parts(parts.take(i)).params.len() as int;
                n < c.params.len() && c.params[n] == p
            })
        }),
{
    lemma_parts(text::split_at(text::trimmed_prefixes(header, "Bearer "@), ','), i);
}

proof fn lemma_parts(parts: Seq<Seq<char>>, i: int)
    ensures
        ({
            let c = of_parts(parts);
            &&& c.realm is Some <==> exists|k: int| 0 <= k < parts.len() && names_realm(#[trigger] parts[k])
            &&& 0 <= i < parts.len() && names_realm(parts[i]) && (forall|k: int|
                i < k < parts.len() ==> !names_realm(#[trigger] parts[k])) ==> (given_by(parts[i]) matches Some((_, v))
                && c.realm == Some(v))
            &&& 0 <= i < parts.len() && !names_realm(parts[i]) ==> (given_by(parts[i]) matches Some(p) ==> {
                let n = of_parts(parts.take(i)).params.len() as int;
                n < c.params.len() && c.params[n] == p
            })
        }),
    decreases parts.len(),
{
    if parts.len() > 0 {
        let front = parts.drop_last();
        let last = parts.len() - 1;
        lemma_parts(front, i);
        assert(parts[last] == parts.last());
        assert(forall|k: int| 0 <= k < front.len() ==> #[trigger] front[k] == parts[k]);
        assert(forall|k: int| 0 <= k < front.len() ==> #[trigger] parts[k] == front[k]);
        if names_realm(parts.last()) {
            assert(names_realm(parts[last]));
        } else {
            if exists|k: int| 0 <= k < parts.len() && names_realm(#[trigger] parts[k]) {
                let k = choose|k: int| 0 <= k < parts.len() && names_realm(#[trigger] parts[k]);
                assert(names_realm(front[k]));
            }
            if exists|k: int| 0 <= k < front.len() && names_realm(#[trigger] front[k]) {
                let k = choose|k: int| 0 <= k < front.len() && names_realm(#[trigger] front[k]);
                assert(names_realm(parts[k]));
            }
        }
        if 0 <= i < last {
            assert(front.take(i) =~= parts.take(i));
        } else if i == last {
            assert(parts.take(i) =~= front);
        }
    }
}

/// A registry that wants the credentials themselves gets them, and where there are none that is the error.
/// Any other challenge is redeemed at the realm it names, with its parameters, and with the credentials
/// where there are any. A challenge without a realm cannot be answered.
pub proof fn law_a_challenge_is_answered(url: Seq<char>, header: Seq<char>, credentials: Option<CredentialsModel>)
    ensures
        ({
            let basic = text::has_prefix(text::trimmed_start(header), "Basic"@);
            let n = next_of(url, FirstReplyModel::Challenged(header), credentials);
            let c = challenge_of(header);
            &&& basic ==> (credentials matches Some(who) ==> n == Ok::<NextModel, AmErrorModel>(
                NextModel::Repeat(who.basic()),
            ))
            &&& basic && credentials is None ==> n is Err
            &&& !basic && c.realm is None ==> n is Err
            &&& !basic && c.realm is Some ==> {
                &&& n is Ok
                &&& n->Ok_0 is Redeem
                &&& n->Ok_0->Redeem_0.realm == c.realm->0
                &&& n->Ok_0->Redeem_0.params == c.params
                &&& credentials matches Some(who) ==> n->Ok_0->Redeem_0.authorization == Some(who.basic())
                &&& credentials is None ==> n->Ok_0->Redeem_0.authorization is None
            }
        }),
{
}

/// What was served is handed on as it is, and a failure is an error that names what was asked for.
pub proof fn law_content_is_handed_on(
    url: Seq<char>,
    content: Seq<u8>,
    failure: FailureModel,
    credentials: Option<CredentialsModel>,
)
    ensures
        next_of(url, FirstReplyModel::Content(content), credentials) == Ok::<NextModel, AmErrorModel>(
            NextModel::Done(content),
        ),
        next_of(url, FirstReplyModel::Failed(failure), credentials) matches Err(
            AmErrorModel::DevcontainerBuildFailed(m),
        ) && text::has_prefix(m, "fetching "@ + url + ": "@),
{
    let m = fetch_failed(url, failure);
    let start = "fetching "@ + url + ": "@;
    assert(m.subrange(0, start.len() as int) =~= start);
}

/// A realm's token is the text under `token`, or where that is not there the one under `access_token`. A
/// reply without either has none.
pub proof fn law_a_token_is_found(realm: Seq<char>, j: JsonModel, t: Seq<char>)
    requires
        j is Object,
    ensures
        j.member("token"@) == Some(JsonModel::Str(t)) && (j.member("access_token"@) is None || j.member(
            "access_token"@,
        )->0 is Str) ==> token_of(realm, Ok(j)) == Ok::<Seq<char>, AmErrorModel>(t),
        j.member("token"@) is None && j.member("access_token"@) == Some(JsonModel::Str(t)) ==> token_of(realm, Ok(j))
            == Ok::<Seq<char>, AmErrorModel>(t),
        j.member("token"@) is None && j.member("access_token"@) is None ==> token_of(realm, Ok(j)) is Err,
{
}

/// What is said of a request that failed names what was asked for and what went wrong. Only a refusal sends
/// the user to log in, and only where there were no credentials.
pub proof fn law_a_refusal_is_explained(url: Seq<char>, f: FailureModel, code: nat, body: Seq<char>)
    ensures
        ({
            let refusal = (f matches FailureModel::Status { code, .. } && (code == 401 || code == 403));
            let said = "fetching "@ + url + ": "@ + f.detail();
            &&& !refusal ==> refused(url, f, true) == AmErrorModel::DevcontainerBuildFailed(said) && refused(
                url,
                f,
                false,
            ) == AmErrorModel::DevcontainerBuildFailed(said)
            &&& refusal ==> (refused(url, f, true) matches AmErrorModel::DevcontainerBuildFailed(m) && text::has_prefix(
                m,
                said,
            ) && m.len() > said.len())
            &&& refusal ==> (refused(url, f, false) matches AmErrorModel::DevcontainerBuildFailed(m) && text::holds(
                m,
                "\nRun `docker login "@ + registry_in(url) + "` "@,
            ))
        }),
        f matches FailureModel::Transport(s) ==> f.detail() == s,
        text::has_prefix((FailureModel::Status { code, body }).detail(), "HTTP "@ + text::decimal(code)),
        text::has_suffix((FailureModel::Status { code, body }).detail(), text::trimmed(body)),
{
    let said = "fetching "@ + url + ": "@ + f.detail();
    reveal_strlit("\nam used the credentials it found for ");
    let more = "\nam used the credentials it found for "@ + registry_in(url)
        + ". They may be expired, or may not grant access to this Feature."@;
    let m = said + "\nam used the credentials it found for "@ + registry_in(url)
        + ". They may be expired, or may not grant access to this Feature."@;
    assert(m =~= said + more);
    assert(m.subrange(0, said.len() as int) =~= said);
    let who = registry_in(url);
    let head = " refused an anonymous pull and no credentials were found for it\nRun `docker login "@;
    let cut = " refused an anonymous pull and no credentials were found for it"@;
    let run = "\nRun `docker login "@;
    let tail = "` (or `podman login "@;
    reveal_strlit(" refused an anonymous pull and no credentials were found for it\nRun `docker login ");
    reveal_strlit(" refused an anonymous pull and no credentials were found for it");
    reveal_strlit("\nRun `docker login ");
    reveal_strlit("` (or `podman login ");
    reveal_strlit("` ");
    let rest = "(or `podman login "@;
    reveal_strlit("(or `podman login ");
    assert(head =~= cut + run);
    assert(tail =~= "` "@ + rest);
    let part = run + who + "` "@;
    let front = who + head + who + tail;
    assert(front =~= (who + cut) + part + rest);
    text::lemma_holds_middle(who + cut, part, rest);
    text::lemma_holds_after(front, part, who);
    text::lemma_holds_after(front + who, part, "`) — am reads the same files"@);
    let d = (FailureModel::Status { code, body }).detail();
    let t = "HTTP "@ + text::decimal(code);
    assert(d.subrange(0, t.len() as int) =~= t);
    let b = text::trimmed(body);
    assert(d.subrange(d.len() - b.len(), d.len() as int) =~= b);
}

} // verus!
