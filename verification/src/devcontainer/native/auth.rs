//! Registry credentials, from the files that the container runtimes keep.

use vstd::prelude::*;

use crate::decode;
use crate::digest;
use crate::duplicate::Duplicate;
use crate::json::{self, Json, JsonModel};
use crate::path;
use crate::strmap::{self, StrMap};
use crate::text;

verus! {

/// A user name and a secret for one registry.
#[derive(Debug, PartialEq, Eq)]
pub struct Credentials {
    pub username: String,
    pub secret: String,
}

/// What [`Credentials`] stand for.
pub struct CredentialsModel {
    pub username: Seq<char>,
    pub secret: Seq<char>,
}

impl DeepView for Credentials {
    type V = CredentialsModel;

    open spec fn deep_view(&self) -> CredentialsModel {
        CredentialsModel { username: self.username@, secret: self.secret@ }
    }
}

impl Duplicate for Credentials {
    fn duplicate(&self) -> (r: Self) {
        Credentials { username: self.username.clone(), secret: self.secret.clone() }
    }
}

// ----------------------------------------------------------------------------------------------
// Base64
// ----------------------------------------------------------------------------------------------

/// Some bytes in standard base64.
pub uninterp spec fn base64_text(bytes: Seq<u8>) -> Seq<char>;

/// The bytes that a standard base64 text spells.
pub uninterp spec fn base64_bytes(s: Seq<char>) -> Option<Seq<u8>>;

/// `base64::engine::general_purpose::STANDARD.encode`: named; the text holds no whitespace at either
/// end, and decoding it gives the bytes back.
#[verifier::external_body]
fn encode_base64(bytes: &Vec<u8>) -> (r: String)
    ensures
        r@ == base64_text(bytes@),
        text::trimmed(r@) == r@,
        base64_bytes(r@) == Some(bytes@),
{
    base64::Engine::encode(&base64::engine::general_purpose::STANDARD, bytes)
}

/// `base64::engine::general_purpose::STANDARD.decode`: named.
#[verifier::external_body]
fn decode_base64(s: &str) -> (r: Option<Vec<u8>>)
    ensures
        r.deep_view() == base64_bytes(s@),
{
    base64::Engine::decode(&base64::engine::general_purpose::STANDARD, s).ok()
}

impl CredentialsModel {
    /// The value of a `Basic` authorization header.
    pub open spec fn basic(self) -> Seq<char> {
        "Basic "@ + base64_text(vstd::utf8::encode_utf8(self.username + ":"@ + self.secret))
    }
}

impl Credentials {
    /// The value of a `Basic` authorization header. A file that holds its encoded part gives the
    /// credentials back, unless the user name holds a colon or the secret is empty.
    pub fn basic_header(&self) -> (r: String)
        ensures
            r@ == self.deep_view().basic(),
            !self.username@.contains(':') && self.secret@.len() > 0 ==> entry_credentials(
                encoded_entry(text::without_prefix(r@, "Basic "@)->0),
                entry_bytes(encoded_entry(text::without_prefix(r@, "Basic "@)->0)),
            ) == Some(self.deep_view()),
    {
        let pair = text::cat3(self.username.as_str(), ":", self.secret.as_str());
        let bytes = pair.as_str().as_bytes_vec();
        let encoded = encode_base64(&bytes);
        let r = text::cat2("Basic ", encoded.as_str());
        proof {
            assert(r@.subrange("Basic "@.len() as int, r@.len() as int) =~= encoded@);
            assert(r@.subrange(0, "Basic "@.len() as int) =~= "Basic "@);
            vstd::utf8::encode_utf8_valid_utf8(pair@);
            vstd::utf8::encode_utf8_decode_utf8(pair@);
            if !self.username@.contains(':') {
                reveal_strlit(":");
                let n = self.username@.len() as int;
                assert(pair@[n] == ':');
                assert forall|j: int| 0 <= j < n implies pair@[j] != ':' by {
                    assert(pair@[j] == self.username@[j]);
                }
                text::lemma_position_is(pair@, ':', n);
                assert(pair@.subrange(0, n) =~= self.username@);
                assert(pair@.subrange(n + 1, pair@.len() as int) =~= self.secret@);
            }
        }
        r
    }
}

// ----------------------------------------------------------------------------------------------
// Entries
// ----------------------------------------------------------------------------------------------

/// One registry's entry in a credentials file.
#[derive(Debug, PartialEq)]
pub struct AuthEntry {
    /// `username:secret` in base64.
    pub auth: Option<String>,
    pub username: Option<String>,
    pub password: Option<String>,
}

/// What an [`AuthEntry`] stands for.
pub struct EntryModel {
    pub auth: Option<Seq<char>>,
    pub username: Option<Seq<char>>,
    pub password: Option<Seq<char>>,
}

impl DeepView for AuthEntry {
    type V = EntryModel;

    open spec fn deep_view(&self) -> EntryModel {
        EntryModel {
            auth: self.auth.deep_view(),
            username: self.username.deep_view(),
            password: self.password.deep_view(),
        }
    }
}

/// An entry with nothing but an encoded pair.
pub open spec fn encoded_entry(encoded: Seq<char>) -> EntryModel {
    EntryModel { auth: Some(encoded), username: None, password: None }
}

/// The credentials in a decoded pair. The first colon separates: a secret may hold one, a user name may
/// not.
pub open spec fn pair_of(pair: Seq<char>) -> Option<CredentialsModel> {
    match text::split_first(pair, ':') {
        Some((username, secret)) if secret.len() > 0 => Some(CredentialsModel { username, secret }),
        _ => None,
    }
}

/// The credentials of an entry: written out, or encoded. `decoded` is what the base64 reader makes of
/// the encoded form.
pub open spec fn entry_credentials(e: EntryModel, decoded: Option<Seq<u8>>) -> Option<CredentialsModel> {
    match (e.username, e.password) {
        (Some(username), Some(secret)) => Some(CredentialsModel { username, secret }),
        _ => match (e.auth, digest::utf8_of(decoded)) {
            (Some(_), Some(pair)) => pair_of(pair),
            _ => None,
        },
    }
}

/// What the base64 reader makes of an entry's encoded form.
pub open spec fn entry_bytes(e: EntryModel) -> Option<Seq<u8>> {
    match e.auth {
        Some(a) => base64_bytes(text::trimmed(a)),
        None => None,
    }
}

/// Splits a decoded pair.
pub fn split_pair(pair: &str) -> (r: Option<Credentials>)
    ensures
        r.deep_view() == pair_of(pair@),
{
    match text::split_once(pair, ':') {
        Some((u, s)) => if s.is_empty() {
            None
        } else {
            Some(Credentials { username: u.to_owned(), secret: s.to_owned() })
        },
        None => None,
    }
}

/// The credentials of an entry.
pub fn from_entry(entry: &AuthEntry) -> (r: Option<Credentials>)
    ensures
        r.deep_view() == entry_credentials(entry.deep_view(), entry_bytes(entry.deep_view())),
{
    match (&entry.username, &entry.password) {
        (Some(u), Some(p)) => {
            return Some(Credentials { username: u.clone(), secret: p.clone() });
        },
        _ => {},
    }
    match &entry.auth {
        None => None,
        Some(a) => match decode_base64(text::trim(a.as_str())) {
            None => None,
            Some(bytes) => {
                assert(bytes.deep_view() =~= bytes@);
                match digest::utf8_text(bytes) {
                    None => None,
                    Some(pair) => split_pair(pair.as_str()),
                }
            },
        },
    }
}

// ----------------------------------------------------------------------------------------------
// Hosts
// ----------------------------------------------------------------------------------------------

/// The three names of Docker Hub.
pub open spec fn is_docker_hub(host: Seq<char>) -> bool {
    host == "index.docker.io"@ || host == "registry-1.docker.io"@ || host == "docker.io"@
}

/// The host part of a key: without scheme, trailing slashes and path.
pub open spec fn bare_host(key: Seq<char>) -> Seq<char> {
    let s = text::trimmed_end_char(
        text::trimmed_prefixes(text::trimmed_prefixes(key, "https://"@), "http://"@),
        '/',
    );
    s.subrange(0, text::position(s, '/') as int)
}

/// A registry however its key is written.
pub open spec fn host_key(key: Seq<char>) -> Seq<char> {
    if is_docker_hub(bare_host(key)) {
        "docker.io"@
    } else {
        text::lowercase(bare_host(key))
    }
}

/// A registry however its key is written.
pub fn normalize_host(key: &str) -> (r: String)
    ensures
        r@ == host_key(key@),
{
    proof {
        reveal_strlit("https://");
        reveal_strlit("http://");
    }
    let s = text::trim_end_char(text::trim_prefixes(text::trim_prefixes(key, "https://"), "http://"), '/');
    let cs = text::chars(s);
    let n: usize = text::find(&cs, 0, '/');
    assert(cs@.subrange(0, cs@.len() as int) =~= cs@);
    let host = s.substring_char(0, n);
    if text::eq(host, "index.docker.io") || text::eq(host, "registry-1.docker.io") || text::eq(host, "docker.io") {
        "docker.io".to_owned()
    } else {
        text::to_lowercase(host)
    }
}

/// The value of the first key that names a registry.
pub open spec fn registry_value<V>(m: Seq<(Seq<char>, V)>, registry: Seq<char>) -> Option<V>
    decreases m.len(),
{
    if m.len() == 0 {
        None
    } else if host_key(m[0].0) == host_key(registry) {
        Some(m[0].1)
    } else {
        registry_value(m.drop_first(), registry)
    }
}

/// Finds a registry in a map, however the keys are written.
pub fn lookup<'a, T: DeepView>(map: &'a StrMap<T>, registry: &str) -> (r: Option<&'a T>)
    ensures
        r.deep_view() == registry_value(map.deep_view(), registry@),
{
    let wanted = normalize_host(registry);
    let ghost s = map.deep_view();
    let n: usize = map.len();
    let mut i: usize = 0;
    assert(s.subrange(0, s.len() as int) =~= s);
    while i < n
        invariant
            wanted@ == host_key(registry@),
            s == map.deep_view(),
            n == s.len(),
            i <= n,
            registry_value(s, registry@) == registry_value(s.subrange(i as int, s.len() as int), registry@),
        decreases n - i,
    {
        let ghost rest = s.subrange(i as int, s.len() as int);
        let (k, v) = map.at(i);
        assert(rest[0] == (k@, v.deep_view()));
        assert(rest.drop_first() =~= s.subrange(i + 1, s.len() as int));
        let key = normalize_host(k);
        if text::eq(key.as_str(), wanted.as_str()) {
            return Some(v);
        }
        i = i + 1;
    }
    None
}

/// Whatever spelling of a registry a file uses, the same value is found for it.
pub proof fn law_spelling_does_not_matter<V>(m: Seq<(Seq<char>, V)>, a: Seq<char>, b: Seq<char>)
    requires
        host_key(a) == host_key(b),
    ensures
        registry_value(m, a) == registry_value(m, b),
    decreases m.len(),
{
    if m.len() > 0 {
        law_spelling_does_not_matter(m.drop_first(), a, b);
    }
}

// ----------------------------------------------------------------------------------------------
// Files
// ----------------------------------------------------------------------------------------------

/// A credentials file.
#[derive(Debug, PartialEq)]
pub struct AuthFile {
    pub auths: StrMap<AuthEntry>,
    /// A helper for every registry without one of its own.
    pub creds_store: Option<String>,
    /// Helpers for single registries.
    pub cred_helpers: StrMap<String>,
}

/// What an [`AuthFile`] stands for.
pub struct AuthFileModel {
    pub auths: Seq<(Seq<char>, EntryModel)>,
    pub creds_store: Option<Seq<char>>,
    pub cred_helpers: Seq<(Seq<char>, Seq<char>)>,
}

impl DeepView for AuthFile {
    type V = AuthFileModel;

    open spec fn deep_view(&self) -> AuthFileModel {
        AuthFileModel {
            auths: self.auths.deep_view(),
            creds_store: self.creds_store.deep_view(),
            cred_helpers: self.cred_helpers.deep_view(),
        }
    }
}

/// The fields of an entry.
pub open spec fn entry_fields() -> Seq<Seq<char>> {
    seq!["auth"@, "username"@, "password"@]
}

/// One entry as JSON spells it.
pub open spec fn entry_of(j: JsonModel) -> Option<EntryModel> {
    let j = decode::named(j, entry_fields(), 0);
    let auth = decode::opt_text_of(j.member("auth"@));
    let username = decode::opt_text_of(j.member("username"@));
    let password = decode::opt_text_of(j.member("password"@));
    if j is Object && auth is Some && username is Some && password is Some {
        Some(EntryModel { auth: auth->0, username: username->0, password: password->0 })
    } else {
        None
    }
}

/// The entries of a file, none where it has none.
pub open spec fn entries_of(j: Option<JsonModel>) -> Option<Seq<(Seq<char>, EntryModel)>> {
    match j {
        None => Some(Seq::empty()),
        Some(JsonModel::Object(o)) => if forall|i: int|
            0 <= i < o.len() ==> entry_of((#[trigger] o[i]).1) is Some {
            Some(decode::collected(o.map_values(|m: (Seq<char>, JsonModel)| (m.0, entry_of(m.1)->0))))
        } else {
            None
        },
        _ => None,
    }
}

/// The fields of a credentials file.
pub open spec fn file_fields() -> Seq<Seq<char>> {
    seq!["auths"@, "credsStore"@, "credHelpers"@]
}

/// The credentials file that JSON spells.
pub open spec fn auth_file_of(j: JsonModel) -> Option<AuthFileModel> {
    let j = decode::named(j, file_fields(), 0);
    let auths = entries_of(j.member("auths"@));
    let creds_store = decode::opt_text_of(j.member("credsStore"@));
    let cred_helpers = decode::text_map_of(j.member("credHelpers"@));
    if j is Object && auths is Some && creds_store is Some && cred_helpers is Some {
        Some(AuthFileModel { auths: auths->0, creds_store: creds_store->0, cred_helpers: cred_helpers->0 })
    } else {
        None
    }
}

fn read_entry(j: &Json) -> (r: Option<AuthEntry>)
    ensures
        r.deep_view() == entry_of(j@),
{
    let names: Vec<&str> = vec!["auth", "username", "password"];
    assert(names.deep_view() =~= entry_fields());
    let held = decode::by_position(j, &names, 0);
    let j: &Json = match &held {
        Some(o) => o,
        None => j,
    };
    let is_object = match j {
        Json::Object(_) => true,
        _ => false,
    };
    let auth = decode::opt_text(j.get("auth"));
    let username = decode::opt_text(j.get("username"));
    let password = decode::opt_text(j.get("password"));
    if !is_object || auth.is_none() || username.is_none() || password.is_none() {
        return None;
    }
    Some(AuthEntry { auth: auth.unwrap(), username: username.unwrap(), password: password.unwrap() })
}

fn read_entries(j: Option<&Json>) -> (r: Option<StrMap<AuthEntry>>)
    ensures
        r.deep_view() == entries_of(j.deep_view()),
{
    broadcast use crate::json::lemma_object_view;

    let mut out: StrMap<AuthEntry> = StrMap::new();
    match j {
        None => Some(out),
        Some(Json::Object(o)) => {
            let ghost m = json::members_model(o@);
            let ghost t = m.map_values(|e: (Seq<char>, JsonModel)| (e.0, entry_of(e.1)->0));
            let mut i: usize = 0;
            assert(t.subrange(0, 0) =~= Seq::empty());
            while i < o.len()
                invariant
                    j.deep_view() == Some(JsonModel::Object(m)),
                    m == json::members_model(o@),
                    t == m.map_values(|e: (Seq<char>, JsonModel)| (e.0, entry_of(e.1)->0)),
                    i <= o.len(),
                    forall|k: int| 0 <= k < i ==> entry_of((#[trigger] m[k]).1) is Some,
                    out.deep_view() == decode::collected(t.subrange(0, i as int)),
                decreases o.len() - i,
            {
                assert(m[i as int] == (o@[i as int].0@, o@[i as int].1@));
                match read_entry(&o[i].1) {
                    Some(e) => {
                        out.insert(o[i].0.clone(), e);
                    },
                    None => {
                        return None;
                    },
                }
                i = i + 1;
                assert(t.subrange(0, i as int).drop_last() =~= t.subrange(0, i - 1));
            }
            assert(t.subrange(0, t.len() as int) =~= t);
            Some(out)
        },
        _ => None,
    }
}

/// Reads a credentials file that is already JSON.
pub fn read_auth_file(j: &Json) -> (r: Option<AuthFile>)
    ensures
        r.deep_view() == auth_file_of(j@),
{
    let names: Vec<&str> = vec!["auths", "credsStore", "credHelpers"];
    assert(names.deep_view() =~= file_fields());
    let held = decode::by_position(j, &names, 0);
    let j: &Json = match &held {
        Some(o) => o,
        None => j,
    };
    let is_object = match j {
        Json::Object(_) => true,
        _ => false,
    };
    let auths = read_entries(j.get("auths"));
    let creds_store = decode::opt_text(j.get("credsStore"));
    let cred_helpers = decode::text_map(j.get("credHelpers"));
    if !is_object || auths.is_none() || creds_store.is_none() || cred_helpers.is_none() {
        return None;
    }
    Some(
        AuthFile {
            auths: auths.unwrap(),
            creds_store: creds_store.unwrap(),
            cred_helpers: cred_helpers.unwrap(),
        },
    )
}

/// The credentials file in a text; `parsed` is what the JSON reader made of it. A file that cannot be
/// read is ignored.
pub open spec fn auth_file_in(parsed: Result<JsonModel, Seq<char>>) -> Option<AuthFileModel> {
    match parsed {
        Ok(j) => auth_file_of(j),
        Err(_) => None,
    }
}

/// Reads the text of a credentials file.
pub fn parse_auth_file(text: &str) -> (r: Option<AuthFile>)
    ensures
        r.deep_view() == auth_file_in(json::strict(text@)),
{
    match json::parse_strict(text) {
        Ok(j) => read_auth_file(&j),
        Err(_) => None,
    }
}

/// The credentials files to consult, the most specific first.
pub open spec fn auth_paths(
    registry_auth_file: Option<Seq<char>>,
    docker_config: Option<Seq<char>>,
    home: Option<Seq<char>>,
    xdg_runtime_dir: Option<Seq<char>>,
) -> Seq<Seq<char>> {
    (match registry_auth_file {
        Some(p) => seq![p],
        None => Seq::empty(),
    }) + (match docker_config {
        Some(d) => seq![path::joined(d, "config.json"@)],
        None => Seq::empty(),
    }) + (match home {
        Some(h) => seq![path::joined(h, ".docker/config.json"@)],
        None => Seq::empty(),
    }) + (match xdg_runtime_dir {
        Some(d) => seq![path::joined(d, "containers/auth.json"@)],
        None => Seq::empty(),
    }) + (match home {
        Some(h) => seq![path::joined(h, ".config/containers/auth.json"@)],
        None => Seq::empty(),
    })
}

/// The credentials files to consult, in order.
pub fn auth_file_paths(
    registry_auth_file: Option<&str>,
    docker_config: Option<&str>,
    home: Option<&str>,
    xdg_runtime_dir: Option<&str>,
) -> (r: Vec<String>)
    ensures
        r.deep_view() == auth_paths(
            registry_auth_file.deep_view(),
            docker_config.deep_view(),
            home.deep_view(),
            xdg_runtime_dir.deep_view(),
        ),
{
    let mut out: Vec<String> = Vec::new();
    match registry_auth_file {
        Some(p) => {
            text::push_str(&mut out, p);
        },
        None => {},
    }
    match docker_config {
        Some(d) => {
            text::push(&mut out, path::join(d, "config.json"));
        },
        None => {},
    }
    match home {
        Some(h) => {
            text::push(&mut out, path::join(h, ".docker/config.json"));
        },
        None => {},
    }
    match xdg_runtime_dir {
        Some(d) => {
            text::push(&mut out, path::join(d, "containers/auth.json"));
        },
        None => {},
    }
    match home {
        Some(h) => {
            text::push(&mut out, path::join(h, ".config/containers/auth.json"));
        },
        None => {},
    }
    assert(out.deep_view() =~= auth_paths(
        registry_auth_file.deep_view(),
        docker_config.deep_view(),
        home.deep_view(),
        xdg_runtime_dir.deep_view(),
    ));
    out
}

// ----------------------------------------------------------------------------------------------
// Looking credentials up
// ----------------------------------------------------------------------------------------------

/// Something that may have credentials.
#[derive(Debug, PartialEq)]
pub enum Source {
    /// A credential helper, to be asked.
    Helper(String),
    /// Credentials that a file holds.
    Known(Credentials),
}

/// What a [`Source`] stands for.
pub enum SourceModel {
    Helper(Seq<char>),
    Known(CredentialsModel),
}

impl DeepView for Source {
    type V = SourceModel;

    open spec fn deep_view(&self) -> SourceModel {
        match self {
            Source::Helper(h) => SourceModel::Helper(h@),
            Source::Known(c) => SourceModel::Known(c.deep_view()),
        }
    }
}

/// A helper, where one is named.
pub open spec fn helper_source(name: Option<Seq<char>>) -> Seq<SourceModel> {
    match name {
        Some(h) => seq![SourceModel::Helper(h)],
        None => Seq::empty(),
    }
}

/// The credentials of an entry, where it has any.
pub open spec fn entry_source(e: Option<EntryModel>) -> Seq<SourceModel> {
    match e {
        Some(e) => match entry_credentials(e, entry_bytes(e)) {
            Some(c) => seq![SourceModel::Known(c)],
            None => Seq::empty(),
        },
        None => Seq::empty(),
    }
}

/// The sources of one file, the most specific first: the registry's helper, its entry, the helper for
/// all.
pub open spec fn file_sources(f: AuthFileModel, registry: Seq<char>) -> Seq<SourceModel> {
    helper_source(registry_value(f.cred_helpers, registry)) + entry_source(registry_value(f.auths, registry))
        + helper_source(f.creds_store)
}

/// The sources of all files, in order.
pub open spec fn all_sources(fs: Seq<AuthFileModel>, registry: Seq<char>) -> Seq<SourceModel>
    decreases fs.len(),
{
    if fs.len() == 0 {
        Seq::empty()
    } else {
        all_sources(fs.drop_last(), registry) + file_sources(fs.last(), registry)
    }
}

/// Lists what may have credentials for a registry, in the order to consult it.
pub fn credential_sources(files: &Vec<AuthFile>, registry: &str) -> (r: Vec<Source>)
    ensures
        r.deep_view() == all_sources(files.deep_view(), registry@),
{
    let ghost all = files.deep_view();
    let mut out: Vec<Source> = Vec::new();
    let mut i: usize = 0;
    assert(out.deep_view() =~= all_sources(all.subrange(0, 0), registry@));
    while i < files.len()
        invariant
            all == files.deep_view(),
            i <= files.len(),
            out.deep_view() == all_sources(all.subrange(0, i as int), registry@),
        decreases files.len() - i,
    {
        assert(all.subrange(0, i + 1).drop_last() =~= all.subrange(0, i as int));
        assert(all[i as int] == files@[i as int].deep_view());
        let ghost s0 = out.deep_view();
        match lookup(&files[i].cred_helpers, registry) {
            Some(h) => {
                out.push(Source::Helper(h.clone()));
            },
            None => {},
        }
        let ghost f = all[i as int];
        assert(out.deep_view() =~= s0 + helper_source(registry_value(f.cred_helpers, registry@)));
        let ghost s1 = out.deep_view();
        match lookup(&files[i].auths, registry) {
            Some(e) => match from_entry(e) {
                Some(c) => {
                    out.push(Source::Known(c));
                },
                None => {},
            },
            None => {},
        }
        assert(out.deep_view() =~= s1 + entry_source(registry_value(f.auths, registry@)));
        let ghost s2 = out.deep_view();
        match &files[i].creds_store {
            Some(h) => {
                out.push(Source::Helper(h.clone()));
            },
            None => {},
        }
        assert(out.deep_view() =~= s2 + helper_source(f.creds_store));
        i = i + 1;
        assert(out.deep_view() =~= all_sources(all.subrange(0, i as int), registry@));
    }
    assert(all.subrange(0, all.len() as int) =~= all);
    out
}

/// How far a lookup has come.
#[derive(Debug, PartialEq)]
pub enum Progress {
    /// The helper at this place in the list is to be asked next.
    Ask(usize),
    /// The lookup is over.
    Done(Option<Credentials>),
}

/// What [`Progress`] stands for.
pub enum ProgressModel {
    Ask(nat),
    Done(Option<CredentialsModel>),
}

impl DeepView for Progress {
    type V = ProgressModel;

    open spec fn deep_view(&self) -> ProgressModel {
        match self {
            Progress::Ask(i) => ProgressModel::Ask(*i as nat),
            Progress::Done(c) => ProgressModel::Done(c.deep_view()),
        }
    }
}

/// The state of a lookup from place `i` on: what a file holds is taken at once, and a helper that has
/// been asked without success is passed over.
pub open spec fn progress_from(sources: Seq<SourceModel>, answers: Seq<Option<CredentialsModel>>, i: nat) -> ProgressModel
    decreases sources.len() - i,
{
    if i >= sources.len() {
        ProgressModel::Done(None)
    } else {
        match sources[i as int] {
            SourceModel::Known(c) => ProgressModel::Done(Some(c)),
            SourceModel::Helper(_) => if i >= answers.len() {
                ProgressModel::Ask(i)
            } else if answers[i as int] is Some {
                ProgressModel::Done(answers[i as int])
            } else {
                progress_from(sources, answers, i + 1)
            },
        }
    }
}

/// Decides how to go on, given the answers so far: one for each source before the next one to ask.
pub fn look_up(sources: &Vec<Source>, answers: &Vec<Option<Credentials>>) -> (r: Progress)
    ensures
        r.deep_view() == progress_from(sources.deep_view(), answers.deep_view(), 0),
{
    let ghost ss = sources.deep_view();
    let ghost aa = answers.deep_view();
    let mut i: usize = 0;
    while i < sources.len()
        invariant
            ss == sources.deep_view(),
            aa == answers.deep_view(),
            i <= sources.len(),
            progress_from(ss, aa, 0) == progress_from(ss, aa, i as nat),
        decreases sources.len() - i,
    {
        assert(ss[i as int] == sources@[i as int].deep_view());
        match &sources[i] {
            Source::Known(c) => {
                return Progress::Done(Some(c.duplicate()));
            },
            Source::Helper(_) => {
                if i >= answers.len() {
                    return Progress::Ask(i);
                }
                assert(aa[i as int] == answers@[i as int].deep_view());
                match &answers[i] {
                    Some(c) => {
                        return Progress::Done(Some(c.duplicate()));
                    },
                    None => {},
                }
            },
        }
        i = i + 1;
    }
    Progress::Done(None)
}

/// The fields of a helper's reply.
pub open spec fn reply_fields() -> Seq<Seq<char>> {
    seq!["Username"@, "Secret"@]
}

/// What a helper's reply says: nothing where it has no secret.
pub open spec fn reply_of(parsed: Result<JsonModel, Seq<char>>) -> Option<CredentialsModel> {
    match parsed {
        Err(_) => None,
        Ok(j) => {
            let j = decode::named(j, reply_fields(), 2);
            let username = decode::opt_text_of(j.member("Username"@));
            let secret = decode::opt_text_of(j.member("Secret"@));
            if j is Object && username is Some && secret is Some && secret->0 is Some && (secret->0)->0.len() > 0 {
                Some(
                    CredentialsModel {
                        username: match username->0 {
                            Some(u) => u,
                            None => Seq::empty(),
                        },
                        secret: (secret->0)->0,
                    },
                )
            } else {
                None
            }
        },
    }
}

/// Reads what a credential helper printed. A helper that failed has no credentials.
pub fn from_helper(success: bool, stdout: &Vec<u8>) -> (r: Option<Credentials>)
    ensures
        r.deep_view() == (if success {
            reply_of(json::strict_bytes(stdout@))
        } else {
            None
        }),
{
    if !success {
        return None;
    }
    let reply = match json::parse_strict_bytes(stdout) {
        Ok(j) => j,
        Err(_) => {
            return None;
        },
    };
    let names: Vec<&str> = vec!["Username", "Secret"];
    assert(names.deep_view() =~= reply_fields());
    let held = decode::by_position(&reply, &names, 2);
    let j: &Json = match &held {
        Some(o) => o,
        None => &reply,
    };
    let is_object = match j {
        Json::Object(_) => true,
        _ => false,
    };
    let username = decode::opt_text(j.get("Username"));
    let secret = decode::opt_text(j.get("Secret"));
    if !is_object || username.is_none() {
        return None;
    }
    match secret {
        Some(Some(s)) => if s.as_str().is_empty() {
            None
        } else {
            Some(
                Credentials {
                    username: match username.unwrap() {
                        Some(u) => u,
                        None => String::new(),
                    },
                    secret: s,
                },
            )
        },
        _ => None,
    }
}

// ----------------------------------------------------------------------------------------------
// Remembering
// ----------------------------------------------------------------------------------------------

/// Recalls what an earlier lookup of a registry found, credentials or none; nothing where it was never
/// looked up. A helper may stand before a keychain that prompts, so no registry is looked up twice.
pub fn for_registry(known: &StrMap<Option<Credentials>>, registry: &str) -> (r: Option<Option<Credentials>>)
    ensures
        r.deep_view() == strmap::get(known.deep_view(), host_key(registry@)),
{
    let key = normalize_host(registry);
    match known.get(key.as_str()) {
        Some(found) => Some(found.duplicate()),
        None => None,
    }
}

/// Remembers what a lookup found.
pub fn remember(known: &mut StrMap<Option<Credentials>>, registry: &str, found: Option<Credentials>)
    ensures
        final(known).deep_view() == strmap::insert(
            old(known).deep_view(),
            host_key(registry@),
            found.deep_view(),
        ),
        strmap::sorted(old(known).deep_view()),
        strmap::sorted(final(known).deep_view()),
{
    known.insert(normalize_host(registry), found);
}

/// What was remembered of a registry is recalled under each of its spellings, and what is recalled of the
/// others does not change.
pub proof fn law_a_registry_is_looked_up_once(
    known: Seq<(Seq<char>, Option<CredentialsModel>)>,
    registry: Seq<char>,
    found: Option<CredentialsModel>,
    other: Seq<char>,
)
    requires
        strmap::sorted(known),
    ensures
        strmap::get(strmap::insert(known, host_key(registry), found), host_key(other)) == (if host_key(other)
            == host_key(registry) {
            Some(found)
        } else {
            strmap::get(known, host_key(other))
        }),
{
    strmap::lemma_get_after_insert(known, host_key(registry), found, host_key(other));
}

// ----------------------------------------------------------------------------------------------
// Whose credentials are used
// ----------------------------------------------------------------------------------------------

/// The credentials files are consulted in this order: the one that is named, Docker's where it is
/// configured to be, Docker's in the home, Podman's for the session, Podman's in the home.
pub proof fn law_files_are_consulted_in_order(
    named: Seq<char>,
    docker_config: Seq<char>,
    home: Seq<char>,
    runtime_dir: Seq<char>,
)
    requires
        docker_config.len() > 0 && docker_config.last() != '/',
        home.len() > 0 && home.last() != '/',
        runtime_dir.len() > 0 && runtime_dir.last() != '/',
    ensures
        auth_paths(Some(named), Some(docker_config), Some(home), Some(runtime_dir)) == seq![
            named,
            docker_config + "/config.json"@,
            home + "/.docker/config.json"@,
            runtime_dir + "/containers/auth.json"@,
            home + "/.config/containers/auth.json"@,
        ],
        auth_paths(None, None, Some(home), None) == seq![
            home + "/.docker/config.json"@,
            home + "/.config/containers/auth.json"@,
        ],
        auth_paths(Some(named), None, None, None) == seq![named],
        auth_paths(None, Some(docker_config), None, None) == seq![docker_config + "/config.json"@],
        auth_paths(None, None, None, Some(runtime_dir)) == seq![runtime_dir + "/containers/auth.json"@],
        auth_paths(None, None, None, None).len() == 0,
{
    reveal_strlit("/");
    reveal_strlit("config.json");
    reveal_strlit("/config.json");
    reveal_strlit(".docker/config.json");
    reveal_strlit("/.docker/config.json");
    reveal_strlit("containers/auth.json");
    reveal_strlit("/containers/auth.json");
    reveal_strlit(".config/containers/auth.json");
    reveal_strlit("/.config/containers/auth.json");
    assert(docker_config + "/"@ + "config.json"@ =~= docker_config + "/config.json"@);
    assert(home + "/"@ + ".docker/config.json"@ =~= home + "/.docker/config.json"@);
    assert(runtime_dir + "/"@ + "containers/auth.json"@ =~= runtime_dir + "/containers/auth.json"@);
    assert(home + "/"@ + ".config/containers/auth.json"@ =~= home + "/.config/containers/auth.json"@);
    let all = auth_paths(Some(named), Some(docker_config), Some(home), Some(runtime_dir));
    assert(all =~= seq![
        named,
        docker_config + "/config.json"@,
        home + "/.docker/config.json"@,
        runtime_dir + "/containers/auth.json"@,
        home + "/.config/containers/auth.json"@,
    ]);
    assert(auth_paths(None, None, Some(home), None) =~= seq![
        home + "/.docker/config.json"@,
        home + "/.config/containers/auth.json"@,
    ]);
    assert(auth_paths(Some(named), None, None, None) =~= seq![named]);
    assert(auth_paths(None, Some(docker_config), None, None) =~= seq![docker_config + "/config.json"@]);
    assert(auth_paths(None, None, None, Some(runtime_dir)) =~= seq![runtime_dir + "/containers/auth.json"@]);
}

/// An encoded pair is a user name and a secret with a colon between them. The first colon separates them,
/// and a pair without a secret is none.
pub proof fn law_a_pair_is_split_at_its_first_colon(username: Seq<char>, secret: Seq<char>, plain: Seq<char>)
    requires
        !username.contains(':'),
        !plain.contains(':'),
    ensures
        secret.len() > 0 ==> pair_of(username + ":"@ + secret) == Some(CredentialsModel { username, secret }),
        secret.len() == 0 ==> pair_of(username + ":"@ + secret) is None,
        pair_of(plain) is None,
{
    reveal_strlit(":");
    let p = username + ":"@ + secret;
    let n = username.len() as int;
    assert(p[n] == ':');
    assert forall|j: int| 0 <= j < n implies p[j] != ':' by {
        assert(username.contains(username[j]));
    }
    text::lemma_position_is(p, ':', n);
    assert(p.subrange(0, n) =~= username);
    assert(p.subrange(n + 1, p.len() as int) =~= secret);
    assert forall|j: int| 0 <= j < plain.len() implies plain[j] != ':' by {
        assert(plain.contains(plain[j]));
    }
    text::lemma_position_is(plain, ':', plain.len() as int);
}

/// Credentials that are written out are used before those that are encoded, and an entry with half of
/// the one and nothing of the other has none.
pub proof fn law_written_credentials_come_first(e: EntryModel, decoded: Option<Seq<u8>>)
    ensures
        e.username is Some && e.password is Some ==> entry_credentials(e, decoded) == Some(
            CredentialsModel { username: e.username->0, secret: e.password->0 },
        ),
        (e.username is None || e.password is None) && e.auth is None ==> entry_credentials(e, decoded) is None,
        (e.username is None || e.password is None) && e.auth is Some ==> (digest::utf8_of(
            decoded,
        ) matches Some(pair) ==> entry_credentials(e, decoded) == pair_of(pair)),
{
}

/// In one file the registry's own helper is asked first, then its entry is used, and the helper for all is
/// asked last.
pub proof fn law_the_most_specific_source_comes_first(f: AuthFileModel, registry: Seq<char>, more: Seq<AuthFileModel>)
    ensures
        ({
            let own = registry_value(f.cred_helpers, registry);
            let entry = registry_value(f.auths, registry);
            let known = match entry {
                Some(e) => entry_credentials(e, entry_bytes(e)),
                None => None,
            };
            let s = file_sources(f, registry);
            let a = if own is Some {
                1int
            } else {
                0int
            };
            let b = if known is Some {
                a + 1
            } else {
                a
            };
            &&& own matches Some(h) ==> s[0] == SourceModel::Helper(h)
            &&& known matches Some(c) ==> s[a] == SourceModel::Known(c)
            &&& f.creds_store matches Some(h) ==> s[b] == SourceModel::Helper(h) && s.len() == b + 1
            &&& f.creds_store is None ==> s.len() == b
        }),
        all_sources(more.push(f), registry) == all_sources(more, registry) + file_sources(f, registry),
{
    assert(more.push(f).drop_last() =~= more);
}

/// A lookup goes through the sources in order. It takes the first credentials that a file holds or a helper
/// answers with, and every helper before them was asked and had none. Where it asks, it asks the first
/// helper that was not asked yet. It ends without credentials only after every source was a helper that
/// had none.
pub proof fn law_sources_are_consulted_in_order(
    sources: Seq<SourceModel>,
    answers: Seq<Option<CredentialsModel>>,
    i: nat,
)
    ensures
        match progress_from(sources, answers, i) {
            ProgressModel::Ask(k) => {
                &&& i <= k < sources.len()
                &&& k >= answers.len()
                &&& sources[k as int] is Helper
                &&& passed_over(sources, answers, i as int, k as int)
            },
            ProgressModel::Done(Some(c)) => exists|k: int|
                {
                    &&& i <= k < sources.len()
                    &&& #[trigger] sources[k] == SourceModel::Known(c) || k < answers.len() && sources[k] is Helper
                        && answers[k] == Some(c)
                    &&& passed_over(sources, answers, i as int, k)
                },
            ProgressModel::Done(None) => passed_over(sources, answers, i as int, sources.len() as int),
        },
    decreases sources.len() - i,
{
    if i < sources.len() {
        match sources[i as int] {
            SourceModel::Known(c) => {
                assert(passed_over(sources, answers, i as int, i as int));
            },
            SourceModel::Helper(_) => {
                if i < answers.len() && answers[i as int] is None {
                    law_sources_are_consulted_in_order(sources, answers, i + 1);
                } else {
                    assert(passed_over(sources, answers, i as int, i as int));
                    assert(sources[i as int] is Helper);
                }
            },
        }
    }
}

/// Whether every source from `i` up to `k` is a helper that was asked and had no credentials.
pub open spec fn passed_over(
    sources: Seq<SourceModel>,
    answers: Seq<Option<CredentialsModel>>,
    i: int,
    k: int,
) -> bool {
    forall|j: int| i <= j < k ==> (#[trigger] sources[j]) is Helper && j < answers.len() && answers[j] is None
}

/// A registry is known by its host in lower case, whatever scheme, path and slashes its key is written
/// with. Docker Hub goes by one name under all of its own.
pub proof fn law_a_registry_is_known_by_its_host(host: Seq<char>, path: Seq<char>)
    requires
        host.len() > 0,
        !host.contains('/'),
        !host.contains(':'),
    ensures
        ({
            let hub = host == "index.docker.io"@ || host == "registry-1.docker.io"@ || host == "docker.io"@;
            let key = if hub {
                "docker.io"@
            } else {
                text::lowercase(host)
            };
            &&& host_key(host) == key
            &&& host_key("https://"@ + host) == key
            &&& host_key("http://"@ + host) == key
            &&& path.len() > 0 && path[0] != '/' && path.last() != '/' ==> host_key("https://"@ + host + "/"@ + path) == key
            &&& host_key(host + "/"@) == key
        }),
{
    reveal_strlit("https://");
    reveal_strlit("http://");
    reveal_strlit("/");
    assert forall|j: int| 0 <= j < host.len() implies host[j] != '/' && host[j] != ':' by {
        assert(host.contains(host[j]));
    }
    let none = Seq::<char>::empty();
    assert(host + none =~= host);
    lemma_no_scheme(host, none);
    lemma_scheme_goes(host);
    lemma_host_is_left(host, none);
    lemma_no_scheme(host, "/"@);
    lemma_host_is_left(host, "/"@);
    if path.len() > 0 && path[0] != '/' && path.last() != '/' {
        let tail = "/"@ + path;
        lemma_no_scheme(host, tail);
        lemma_scheme_goes(host + tail);
        lemma_host_is_left(host, tail);
        assert("https://"@ + host + "/"@ + path =~= "https://"@ + (host + tail));
    }
}

proof fn lemma_no_scheme(host: Seq<char>, tail: Seq<char>)
    requires
        host.len() > 0,
        forall|j: int| 0 <= j < host.len() ==> #[trigger] host[j] != '/' && host[j] != ':',
        tail.len() > 0 ==> tail[0] == '/',
    ensures
        text::trimmed_prefixes(host + tail, "https://"@) == host + tail,
        text::trimmed_prefixes(host + tail, "http://"@) == host + tail,
{
    reveal_strlit("https://");
    reveal_strlit("http://");
    let h = host + tail;
    let n = host.len() as int;
    if text::has_prefix(h, "https://"@) {
        let s = h.subrange(0, 8);
        assert(s[5] == ':');
        if n <= 5 {
            assert(s[n] == h[n] && h[n] == '/');
            assert("https://"@[n] != '/');
        } else {
            assert(s[5] == host[5]);
        }
    }
    if text::has_prefix(h, "http://"@) {
        let s = h.subrange(0, 7);
        assert(s[4] == ':');
        if n <= 4 {
            assert(s[n] == h[n] && h[n] == '/');
            assert("http://"@[n] != '/');
        } else {
            assert(s[4] == host[4]);
        }
    }
}

proof fn lemma_scheme_goes(h: Seq<char>)
    requires
        text::trimmed_prefixes(h, "https://"@) == h,
        text::trimmed_prefixes(h, "http://"@) == h,
    ensures
        text::trimmed_prefixes(text::trimmed_prefixes("https://"@ + h, "https://"@), "http://"@) == h,
        text::trimmed_prefixes(text::trimmed_prefixes("http://"@ + h, "https://"@), "http://"@) == h,
{
    reveal_strlit("https://");
    reveal_strlit("http://");
    let a = "https://"@ + h;
    let b = "http://"@ + h;
    assert(a.subrange(0, 8) =~= "https://"@);
    assert(a.subrange(8, a.len() as int) =~= h);
    assert(b.subrange(0, 7) =~= "http://"@);
    assert(b.subrange(7, b.len() as int) =~= h);
    if text::has_prefix(b, "https://"@) {
        assert(b.subrange(0, 8)[4] == b[4]);
        assert(b[4] == ':');
    }
}

proof fn lemma_host_is_left(host: Seq<char>, tail: Seq<char>)
    requires
        host.len() > 0,
        forall|j: int| 0 <= j < host.len() ==> #[trigger] host[j] != '/' && host[j] != ':',
        tail.len() == 0 || tail == "/"@ || (tail[0] == '/' && tail.last() != '/'),
    ensures
        ({
            let s = text::trimmed_end_char(host + tail, '/');
            s.subrange(0, text::position(s, '/') as int) == host
        }),
{
    reveal_strlit("/");
    let h = host + tail;
    let n = host.len() as int;
    assert(host.last() == host[n - 1]);
    if tail == "/"@ {
        assert(h.drop_last() =~= host);
        reveal_with_fuel(text::trimmed_end_char, 2);
    } else if tail.len() == 0 {
        assert(h =~= host);
    } else {
        assert(h.last() == tail.last());
    }
    let s = text::trimmed_end_char(h, '/');
    assert forall|j: int| 0 <= j < n implies s[j] != '/' by {
        assert(s[j] == host[j]);
    }
    text::lemma_position_is(s, '/', n);
    assert(s.subrange(0, n) =~= host);
}

/// What a credential helper printed: the secret, and the name where it printed one. Without a secret it has
/// nothing to offer.
pub proof fn law_a_helpers_reply_is_read(j: JsonModel, name: Seq<char>, secret: Seq<char>)
    requires
        j is Object,
    ensures
        j.member("Secret"@) == Some(JsonModel::Str(secret)) && secret.len() > 0 ==> {
            &&& j.member("Username"@) == Some(JsonModel::Str(name)) ==> reply_of(Ok(j)) == Some(
                (CredentialsModel { username: name, secret }),
            )
            &&& j.member("Username"@) is None ==> reply_of(Ok(j)) == Some(
                (CredentialsModel { username: Seq::empty(), secret }),
            )
        },
        j.member("Secret"@) is None || j.member("Secret"@) == Some(JsonModel::Str(Seq::empty())) ==> reply_of(Ok(j)) is None,
{
}

/// Everything in a credentials file is what the object says under its own name: the entries by registry, the
/// helper for all and the helpers by registry. An entry says its own in the same way.
pub proof fn law_a_credentials_file_says_what_it_spells(o: Seq<(Seq<char>, JsonModel)>)
    ensures
        auth_file_of(JsonModel::Object(o)) matches Some(f) ==> {
            &&& decode::spells_map(json::lookup(o, "auths"@), f.auths, |v: JsonModel| entry_of(v))
            &&& decode::spells_text(json::lookup(o, "credsStore"@), f.creds_store)
            &&& decode::spells_map(json::lookup(o, "credHelpers"@), f.cred_helpers, |v: JsonModel| v.text())
        },
        entry_of(JsonModel::Object(o)) matches Some(e) ==> {
            &&& decode::spells_text(json::lookup(o, "auth"@), e.auth)
            &&& decode::spells_text(json::lookup(o, "username"@), e.username)
            &&& decode::spells_text(json::lookup(o, "password"@), e.password)
        },
{
    decode::law_what_is_read_is_what_is_there(json::lookup(o, "credsStore"@));
    decode::law_what_is_read_is_what_is_there(json::lookup(o, "credHelpers"@));
    decode::law_what_is_read_is_what_is_there(json::lookup(o, "auth"@));
    decode::law_what_is_read_is_what_is_there(json::lookup(o, "username"@));
    decode::law_what_is_read_is_what_is_there(json::lookup(o, "password"@));
    match json::lookup(o, "auths"@) {
        Some(JsonModel::Object(a)) => {
            if entries_of(Some(JsonModel::Object(a))) is Some {
                let p = a.map_values(|m: (Seq<char>, JsonModel)| (m.0, entry_of(m.1)->0));
                decode::lemma_spells_map(a, p, |v: JsonModel| entry_of(v));
            }
        },
        _ => {},
    }
}

} // verus!
