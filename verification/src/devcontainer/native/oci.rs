//! Features in OCI registries.
//!
//! A Feature is published as an artifact of one layer, and its manifest carries the whole
//! `devcontainer-feature.json`. What to ask a registry for, and what to accept of its answers, is
//! decided here.

use vstd::prelude::*;

use crate::decode;
use crate::digest;
use crate::duplicate::Duplicate;
use crate::error::{AmError, AmErrorModel};
use crate::json::{self, Json, JsonModel};
use crate::strmap::{self, StrMap};
use crate::text;

verus! {

/// The media types a manifest may come under.
pub const MANIFEST_ACCEPT: &'static str = "application/vnd.oci.image.manifest.v1+json, application/vnd.docker.distribution.manifest.v2+json";

/// Where a Feature's files come from.
#[derive(Debug, Clone, Copy, PartialEq, Eq, Structural)]
pub enum FeatureKind {
    Registry,
    /// A path in the repository.
    Local,
    /// A tarball at a URL.
    Tarball,
}

/// A reference to a Feature.
#[derive(Debug, PartialEq, Eq)]
pub struct FeatureRef {
    pub kind: FeatureKind,
    /// The registry host; empty for a path or a URL.
    pub registry: String,
    /// Everything between the host and the tag, or the path or URL as written.
    pub repository: String,
    /// Empty for a path or a URL, and where a digest pins the reference.
    pub tag: String,
    /// The digest that pins the reference.
    pub digest: Option<String>,
    /// The reference as it was written.
    pub raw: String,
}

/// What a [`FeatureRef`] stands for.
pub struct RefModel {
    pub kind: FeatureKind,
    pub registry: Seq<char>,
    pub repository: Seq<char>,
    pub tag: Seq<char>,
    pub digest: Option<Seq<char>>,
    pub raw: Seq<char>,
}

impl DeepView for FeatureRef {
    type V = RefModel;

    open spec fn deep_view(&self) -> RefModel {
        RefModel {
            kind: self.kind,
            registry: self.registry@,
            repository: self.repository@,
            tag: self.tag@,
            digest: self.digest.deep_view(),
            raw: self.raw@,
        }
    }
}

impl Duplicate for FeatureRef {
    fn duplicate(&self) -> (r: Self) {
        FeatureRef {
            kind: self.kind,
            registry: self.registry.clone(),
            repository: self.repository.clone(),
            tag: self.tag.clone(),
            digest: self.digest.duplicate(),
            raw: self.raw.clone(),
        }
    }
}

/// What stands after the last `/`.
pub open spec fn last_segment(s: Seq<char>) -> Seq<char> {
    match text::split_last(s, '/') {
        Some((_, name)) => name,
        None => s,
    }
}

impl RefModel {
    /// What to ask the registry for: the digest where there is one, the tag otherwise.
    pub open spec fn reference(self) -> Seq<char> {
        match self.digest {
            Some(d) => d,
            None => self.tag,
        }
    }

    /// The Feature's short alias; a tarball has none.
    pub open spec fn name(self) -> Seq<char> {
        match self.kind {
            FeatureKind::Tarball => Seq::empty(),
            _ => last_segment(self.repository),
        }
    }

    /// The identity that ordering hints name: a registry Feature without its tag, anything else as
    /// written.
    pub open spec fn untagged(self) -> Seq<char> {
        match self.kind {
            FeatureKind::Registry => self.registry + "/"@ + self.repository,
            _ => self.raw,
        }
    }
}

impl FeatureRef {
    /// What to ask the registry for.
    pub fn reference(&self) -> (r: &str)
        ensures
            r@ == self.deep_view().reference(),
    {
        match &self.digest {
            Some(d) => d.as_str(),
            None => self.tag.as_str(),
        }
    }

    /// The Feature's short alias.
    pub fn name(&self) -> (r: &str)
        ensures
            r@ == self.deep_view().name(),
    {
        match self.kind {
            FeatureKind::Tarball => {
                let e = self.raw.as_str().substring_char(0, 0);
                assert(e@ =~= Seq::empty());
                e
            },
            _ => match text::rsplit_once(self.repository.as_str(), '/') {
                Some((_, name)) => name,
                None => self.repository.as_str(),
            },
        }
    }

    /// The identity that ordering hints name.
    pub fn untagged(&self) -> (r: String)
        ensures
            r@ == self.deep_view().untagged(),
    {
        match self.kind {
            FeatureKind::Registry => text::cat3(self.registry.as_str(), "/", self.repository.as_str()),
            _ => self.raw.clone(),
        }
    }
}

// ----------------------------------------------------------------------------------------------
// References
// ----------------------------------------------------------------------------------------------

/// A reference that is not a registry's: a path or a URL as written.
pub open spec fn plain_ref(kind: FeatureKind, id: Seq<char>) -> RefModel {
    RefModel {
        kind,
        registry: Seq::empty(),
        repository: id,
        tag: Seq::empty(),
        digest: None,
        raw: id,
    }
}

/// A reference without a digest, as its path and its tag. A colon separates a tag only behind the last
/// slash: the one before it belongs to a port.
pub open spec fn tagged(id: Seq<char>) -> (Seq<char>, Option<Seq<char>>) {
    match text::split_last(id, ':') {
        Some((p, t)) if !t.contains('/') => (p, Some(t)),
        _ => (id, None),
    }
}

/// The path, the tag and the digest of a reference. A digest says more than a tag, so the tag before
/// one is dropped.
pub open spec fn pinned(id: Seq<char>) -> (Seq<char>, Seq<char>, Option<Seq<char>>) {
    match text::split_first(id, '@') {
        Some((p, d)) => (tagged(p).0, Seq::empty(), Some(d)),
        None => match tagged(id) {
            (p, Some(t)) => (p, t, None),
            (p, None) => (p, "latest"@, None),
        },
    }
}

/// A first segment that can be a registry's host.
pub open spec fn registry_host(host: Seq<char>) -> bool {
    host.contains('.') || host.contains(':') || host == "localhost"@
}

/// The reference that an id spells. An id without a registry is a path.
pub open spec fn ref_of(id: Seq<char>) -> RefModel {
    if text::has_prefix(id, "./"@) || text::has_prefix(id, "../"@) {
        plain_ref(FeatureKind::Local, id)
    } else if text::has_prefix(id, "https://"@) || text::has_prefix(id, "http://"@) {
        plain_ref(FeatureKind::Tarball, id)
    } else {
        let (path, tag, digest) = pinned(id);
        match text::split_first(path, '/') {
            Some((host, rest)) if registry_host(host) => RefModel {
                kind: FeatureKind::Registry,
                registry: text::lowercase(host),
                repository: text::lowercase(rest),
                tag,
                digest,
                raw: id,
            },
            _ => plain_ref(FeatureKind::Local, id),
        }
    }
}

fn plain(kind: FeatureKind, id: &str) -> (r: FeatureRef)
    ensures
        r.deep_view() == plain_ref(kind, id@),
{
    FeatureRef {
        kind,
        registry: String::new(),
        repository: id.to_owned(),
        tag: String::new(),
        digest: None,
        raw: id.to_owned(),
    }
}

pub(crate) fn split_tag(id: &str) -> (r: (&str, Option<&str>))
    ensures
        (r.0@, r.1.deep_view()) == tagged(id@),
{
    match text::rsplit_once(id, ':') {
        Some((p, t)) => if !text::contains(t, '/') {
            (p, Some(t))
        } else {
            (id, None)
        },
        None => (id, None),
    }
}

fn split_pin(id: &str) -> (r: (&str, String, Option<String>))
    ensures
        (r.0@, r.1@, r.2.deep_view()) == pinned(id@),
{
    match text::split_once(id, '@') {
        Some((p, d)) => (split_tag(p).0, String::new(), Some(d.to_owned())),
        None => match split_tag(id) {
            (p, Some(t)) => (p, t.to_owned(), None),
            (p, None) => (p, "latest".to_owned(), None),
        },
    }
}

/// Parses a Feature id.
pub fn parse_ref(id: &str) -> (r: FeatureRef)
    ensures
        r.deep_view() == ref_of(id@),
{
    if text::starts_with(id, "./") || text::starts_with(id, "../") {
        return plain(FeatureKind::Local, id);
    }
    if text::starts_with(id, "https://") || text::starts_with(id, "http://") {
        return plain(FeatureKind::Tarball, id);
    }
    let (path, tag, digest) = split_pin(id);
    match text::split_once(path, '/') {
        Some((host, rest)) => {
            if text::contains(host, '.') || text::contains(host, ':') || text::eq(host, "localhost") {
                return FeatureRef {
                    kind: FeatureKind::Registry,
                    registry: text::to_lowercase(host),
                    repository: text::to_lowercase(rest),
                    tag,
                    digest,
                    raw: id.to_owned(),
                };
            }
        },
        None => {},
    }
    plain(FeatureKind::Local, id)
}

/// A reference always keeps what was written, and only a registry's has a host, a tag or a digest.
pub proof fn law_references_keep_their_spelling(id: Seq<char>)
    ensures
        ref_of(id).raw == id,
        ref_of(id).kind != FeatureKind::Registry ==> ref_of(id).untagged() == id && ref_of(id).registry.len() == 0
            && ref_of(id).tag.len() == 0 && ref_of(id).digest is None,
        ref_of(id).digest is Some ==> ref_of(id).tag.len() == 0,
{
}

/// A tag is what stands behind the last colon of the last segment, and a digest what stands behind an
/// `@`. A digest says more, so a tag before it is dropped: with or without one the reference names the
/// same repository.
pub proof fn law_a_digest_takes_the_place_of_a_tag(path: Seq<char>, tag: Seq<char>, digest: Seq<char>)
    requires
        !path.contains('@'),
        !tag.contains('@') && !tag.contains('/') && !tag.contains(':'),
    ensures
        pinned(path + ":"@ + tag) == (path, tag, None::<Seq<char>>),
        pinned(path + ":"@ + tag + "@"@ + digest) == (path, Seq::<char>::empty(), Some(digest)),
        tagged(path).1 is None ==> pinned(path + "@"@ + digest) == (path, Seq::<char>::empty(), Some(digest)),
{
    reveal_strlit(":");
    reveal_strlit("@");
    let a = path + ":"@ + tag;
    let n = path.len() as int;
    assert(a[n] == ':');
    assert forall|j: int| n + 1 <= j < a.len() implies a[j] != ':' by {
        assert(a[j] == tag[j - n - 1]);
        assert(tag.contains(tag[j - n - 1]));
    }
    text::lemma_last_end_is(a, ':', n + 1);
    assert(a.subrange(0, n) =~= path);
    assert(a.subrange(n + 1, a.len() as int) =~= tag);
    assert forall|j: int| 0 <= j < a.len() implies a[j] != '@' by {
        if j < n {
            assert(path.contains(path[j]));
            assert(a[j] == path[j]);
        } else if j > n {
            assert(a[j] == tag[j - n - 1]);
            assert(tag.contains(tag[j - n - 1]));
        }
    }
    text::lemma_position_is(a, '@', a.len() as int);
    let b = a + "@"@ + digest;
    assert forall|j: int| 0 <= j < a.len() implies b[j] != '@' by {
        assert(b[j] == a[j]);
    }
    text::lemma_position_is(b, '@', a.len() as int);
    assert(b.subrange(0, a.len() as int) =~= a);
    assert(b.subrange(a.len() as int + 1, b.len() as int) =~= digest);
    let c = path + "@"@ + digest;
    assert forall|j: int| 0 <= j < n implies c[j] != '@' by {
        assert(path.contains(path[j]));
        assert(c[j] == path[j]);
    }
    text::lemma_position_is(c, '@', n);
    assert(c.subrange(0, n) =~= path);
    assert(c.subrange(n + 1, c.len() as int) =~= digest);
}

// ----------------------------------------------------------------------------------------------
// Manifests
// ----------------------------------------------------------------------------------------------

#[derive(Debug, PartialEq)]
pub struct Layer {
    pub media_type: String,
    pub digest: String,
}

/// What a [`Layer`] stands for.
pub struct LayerModel {
    pub media_type: Seq<char>,
    pub digest: Seq<char>,
}

impl DeepView for Layer {
    type V = LayerModel;

    open spec fn deep_view(&self) -> LayerModel {
        LayerModel { media_type: self.media_type@, digest: self.digest@ }
    }
}

impl Duplicate for Layer {
    fn duplicate(&self) -> (r: Self) {
        Layer { media_type: self.media_type.clone(), digest: self.digest.clone() }
    }
}

/// A Feature's manifest.
#[derive(Debug, PartialEq)]
pub struct Manifest {
    pub layers: Vec<Layer>,
    pub annotations: StrMap<String>,
    /// The digest of the manifest's bytes.
    pub digest: String,
}

/// What a [`Manifest`] stands for.
pub struct ManifestModel {
    pub layers: Seq<LayerModel>,
    pub annotations: Seq<(Seq<char>, Seq<char>)>,
    pub digest: Seq<char>,
}

impl DeepView for Manifest {
    type V = ManifestModel;

    open spec fn deep_view(&self) -> ManifestModel {
        ManifestModel {
            layers: self.layers.deep_view(),
            annotations: self.annotations.deep_view(),
            digest: self.digest@,
        }
    }
}

/// A layer that holds a Feature's files, by its media type.
pub open spec fn is_feature_layer(l: LayerModel) -> bool {
    text::has_prefix(l.media_type, "application/vnd.devcontainers.layer"@)
}

/// The first layer of a Feature's media type.
pub open spec fn typed_layer(layers: Seq<LayerModel>) -> Option<LayerModel>
    decreases layers.len(),
{
    if layers.len() == 0 {
        None
    } else if is_feature_layer(layers[0]) {
        Some(layers[0])
    } else {
        typed_layer(layers.drop_first())
    }
}

impl ManifestModel {
    /// The Feature's own `devcontainer-feature.json`, which the manifest echoes.
    pub open spec fn feature_metadata(self) -> Option<Seq<char>> {
        strmap::get(self.annotations, "dev.containers.metadata"@)
    }

    /// The layer that holds the Feature's files: the first of its media type, or the first at all.
    pub open spec fn feature_layer(self) -> Option<LayerModel> {
        match typed_layer(self.layers) {
            Some(l) => Some(l),
            None => if self.layers.len() > 0 {
                Some(self.layers[0])
            } else {
                None
            },
        }
    }
}

impl Manifest {
    /// The Feature's own `devcontainer-feature.json`, which the manifest echoes.
    pub fn feature_metadata(&self) -> (r: Option<&str>)
        ensures
            r.deep_view() == self.deep_view().feature_metadata(),
    {
        match self.annotations.get("dev.containers.metadata") {
            Some(s) => Some(s.as_str()),
            None => None,
        }
    }

    /// The layer that holds the Feature's files.
    pub fn feature_layer(&self) -> (r: Option<&Layer>)
        ensures
            r.deep_view() == self.deep_view().feature_layer(),
    {
        let ghost all = self.layers.deep_view();
        let mut i: usize = 0;
        assert(all.subrange(0, all.len() as int) =~= all);
        while i < self.layers.len()
            invariant
                all == self.layers.deep_view(),
                i <= self.layers.len(),
                typed_layer(all) == typed_layer(all.subrange(i as int, all.len() as int)),
            decreases self.layers.len() - i,
        {
            let ghost rest = all.subrange(i as int, all.len() as int);
            assert(rest[0] == self.layers@[i as int].deep_view());
            assert(rest.drop_first() =~= all.subrange(i + 1, all.len() as int));
            if text::starts_with(self.layers[i].media_type.as_str(), "application/vnd.devcontainers.layer") {
                return Some(&self.layers[i]);
            }
            i = i + 1;
        }
        if self.layers.len() > 0 {
            assert(all[0] == self.layers@[0].deep_view());
            Some(&self.layers[0])
        } else {
            None
        }
    }
}

/// The fields of a layer.
pub open spec fn layer_fields() -> Seq<Seq<char>> {
    seq!["mediaType"@, "digest"@]
}

/// The fields of a manifest.
pub open spec fn manifest_fields() -> Seq<Seq<char>> {
    seq!["layers"@, "annotations"@]
}

/// One layer as a manifest spells it.
pub open spec fn layer_of(j: JsonModel) -> Option<LayerModel> {
    let j = decode::named(j, layer_fields(), 2);
    match (j.member("mediaType"@), j.member("digest"@)) {
        (Some(JsonModel::Str(media_type)), Some(JsonModel::Str(digest))) => Some(LayerModel { media_type, digest }),
        _ => None,
    }
}

/// The layers of a manifest, none where it lists none.
pub open spec fn layers_of(j: Option<JsonModel>) -> Option<Seq<LayerModel>> {
    match j {
        None => Some(Seq::empty()),
        Some(JsonModel::Array(a)) => if forall|i: int| 0 <= i < a.len() ==> layer_of(#[trigger] a[i]) is Some {
            Some(a.map_values(|e: JsonModel| layer_of(e)->0))
        } else {
            None
        },
        _ => None,
    }
}

/// The manifest that a JSON object spells.
pub open spec fn manifest_of(j: JsonModel, digest: Seq<char>) -> Option<ManifestModel> {
    let j = decode::named(j, manifest_fields(), 0);
    let layers = layers_of(j.member("layers"@));
    let annotations = decode::text_map_of(j.member("annotations"@));
    if j is Object && layers is Some && annotations is Some {
        Some(ManifestModel { layers: layers->0, annotations: annotations->0, digest })
    } else {
        None
    }
}

fn read_layer(j: &Json) -> (r: Option<Layer>)
    ensures
        r.deep_view() == layer_of(j@),
{
    let names: Vec<&str> = vec!["mediaType", "digest"];
    assert(names.deep_view() =~= layer_fields());
    let held = decode::by_position(j, &names, 2);
    let j: &Json = match &held {
        Some(o) => o,
        None => j,
    };
    match (j.get("mediaType"), j.get("digest")) {
        (Some(Json::Str(t)), Some(Json::Str(d))) => Some(Layer { media_type: t.clone(), digest: d.clone() }),
        _ => None,
    }
}

fn read_layers(j: Option<&Json>) -> (r: Option<Vec<Layer>>)
    ensures
        r.deep_view() == layers_of(j.deep_view()),
{
    broadcast use crate::json::lemma_object_view;

    let mut out: Vec<Layer> = Vec::new();
    match j {
        None => {
            assert(out.deep_view() =~= Seq::<LayerModel>::empty());
            Some(out)
        },
        Some(Json::Array(a)) => {
            let ghost m = json::elements_model(a@);
            let mut i: usize = 0;
            while i < a.len()
                invariant
                    j.deep_view() == Some(JsonModel::Array(m)),
                    m == json::elements_model(a@),
                    i <= a.len(),
                    out.len() == i,
                    forall|k: int| 0 <= k < i ==> layer_of(#[trigger] m[k]) == Some(out@[k].deep_view()),
                decreases a.len() - i,
            {
                assert(m[i as int] == a@[i as int]@);
                match read_layer(&a[i]) {
                    Some(l) => {
                        out.push(l);
                    },
                    None => {
                        return None;
                    },
                }
                i = i + 1;
            }
            assert(out.deep_view() =~= m.map_values(|e: JsonModel| layer_of(e)->0));
            Some(out)
        },
        _ => None,
    }
}

/// Reads a manifest that is already JSON.
pub fn read_manifest(j: &Json, digest: &str) -> (r: Option<Manifest>)
    ensures
        r.deep_view() == manifest_of(j@, digest@),
{
    let names: Vec<&str> = vec!["layers", "annotations"];
    assert(names.deep_view() =~= manifest_fields());
    let held = decode::by_position(j, &names, 0);
    let j: &Json = match &held {
        Some(o) => o,
        None => j,
    };
    let is_object = match j {
        Json::Object(_) => true,
        _ => false,
    };
    let layers = read_layers(j.get("layers"));
    let annotations = decode::text_map(j.get("annotations"));
    if !is_object || layers.is_none() || annotations.is_none() {
        return None;
    }
    Some(Manifest { layers: layers.unwrap(), annotations: annotations.unwrap(), digest: digest.to_owned() })
}

// ----------------------------------------------------------------------------------------------
// Integrity
// ----------------------------------------------------------------------------------------------

pub open spec fn mismatch(what: Seq<char>, feature: Seq<char>, expected: Seq<char>, actual: Seq<char>) -> AmErrorModel {
    AmErrorModel::DevcontainerBuildFailed(
        what + " for '"@ + feature + "' failed integrity verification\nexpected "@ + expected + ", got "@ + actual
            + "\nThe registry returned different content than the digest it was asked for."@,
    )
}

/// Accepts a digest only where it is the one that was asked for.
pub fn verify_digest(what: &str, feature_raw: &str, expected: &str, actual: &str) -> (r: Result<(), AmError>)
    ensures
        crate::error::outcome(r) == (if expected@ == actual@ {
            Ok::<(), AmErrorModel>(())
        } else {
            Err(mismatch(what@, feature_raw@, expected@, actual@))
        }),
{
    if text::eq(expected, actual) {
        return Ok(());
    }
    let mut s = text::cat7(
        what,
        " for '",
        feature_raw,
        "' failed integrity verification\nexpected ",
        expected,
        ", got ",
        actual,
    );
    s.append("\nThe registry returned different content than the digest it was asked for.");
    Err(AmError::DevcontainerBuildFailed(s))
}

/// What is accepted of the bytes that a registry served as a manifest: nothing whose digest is not the
/// pinned one, and only what reads as a manifest. `parsed` is what the JSON reader made of the bytes.
pub open spec fn accepted_manifest(f: RefModel, body: Seq<u8>, parsed: Result<JsonModel, Seq<char>>) -> Result<
    ManifestModel,
    AmErrorModel,
> {
    let digest = digest::digest_text(body);
    let unreadable = AmErrorModel::DevcontainerBuildFailed("parsing the OCI manifest for "@ + f.raw);
    if f.digest is Some && f.digest->0 != digest {
        Err(mismatch("manifest"@, f.raw, f.digest->0, digest))
    } else {
        match parsed {
            Err(_) => Err(unreadable),
            Ok(j) => match manifest_of(j, digest) {
                Some(m) => Ok(m),
                None => Err(unreadable),
            },
        }
    }
}

/// Accepts the bytes that a registry served as a Feature's manifest.
pub fn accept_manifest(feature: &FeatureRef, body: &Vec<u8>) -> (r: Result<Manifest, AmError>)
    ensures
        crate::error::outcome(r) == accepted_manifest(
            feature.deep_view(),
            body@,
            json::strict_bytes(body@),
        ),
{
    let d = digest::digest_of(body);
    match &feature.digest {
        Some(expected) => match verify_digest("manifest", feature.raw.as_str(), expected.as_str(), d.as_str()) {
            Ok(()) => {},
            Err(e) => {
                return Err(e);
            },
        },
        None => {},
    }
    match json::parse_strict_bytes(body) {
        Ok(j) => match read_manifest(&j, d.as_str()) {
            Some(m) => Ok(m),
            None => Err(
                AmError::DevcontainerBuildFailed(
                    text::cat2("parsing the OCI manifest for ", feature.raw.as_str()),
                ),
            ),
        },
        Err(_) => Err(
            AmError::DevcontainerBuildFailed(text::cat2("parsing the OCI manifest for ", feature.raw.as_str())),
        ),
    }
}

/// Accepts the bytes that a registry served as a layer, before anything is written to disk.
pub fn accept_layer(feature: &FeatureRef, layer: &Layer, blob: &Vec<u8>) -> (r: Result<(), AmError>)
    ensures
        crate::error::outcome(r) == (if layer.digest@ == digest::digest_text(blob@) {
            Ok::<(), AmErrorModel>(())
        } else {
            Err(mismatch("layer"@, feature.raw@, layer.digest@, digest::digest_text(blob@)))
        }),
{
    let d = digest::digest_of(blob);
    verify_digest("layer", feature.raw.as_str(), layer.digest.as_str(), d.as_str())
}

/// A pinned reference accepts no manifest but the one it pins.
pub proof fn law_a_pin_admits_one_manifest(f: RefModel, body: Seq<u8>, parsed: Result<JsonModel, Seq<char>>)
    requires
        f.digest is Some,
        accepted_manifest(f, body, parsed) is Ok,
    ensures
        digest::digest_text(body) == f.digest->0,
        accepted_manifest(f, body, parsed)->Ok_0.digest == f.digest->0,
{
}

// ----------------------------------------------------------------------------------------------
// Requests
// ----------------------------------------------------------------------------------------------

/// The host of a registry, without its port. An IPv6 address holds colons of its own, so it stands
/// in brackets where a port follows.
pub open spec fn bare_host(registry: Seq<char>) -> Seq<char> {
    let close = text::position(registry, ']');
    if text::has_prefix(registry, "["@) && close < registry.len() {
        registry.subrange(1, close as int)
    } else if registry == "::1"@ {
        registry
    } else {
        registry.subrange(0, text::position(registry, ':') as int)
    }
}

/// The scheme to speak to a registry: plain HTTP on loopback alone.
pub open spec fn scheme_of(registry: Seq<char>) -> Seq<char> {
    let host = bare_host(registry);
    if host == "localhost"@ || host == "127.0.0.1"@ || host == "::1"@ {
        "http"@
    } else {
        "https"@
    }
}

fn without_port(registry: &str) -> (r: &str)
    ensures
        r@ == bare_host(registry@),
{
    let cs = text::chars(registry);
    assert(cs@.subrange(0, cs@.len() as int) =~= cs@);
    let close: usize = text::find(&cs, 0, ']');
    proof {
        reveal_strlit("[");
    }
    if text::starts_with(registry, "[") && close < cs.len() {
        registry.substring_char(1, close)
    } else if text::eq(registry, "::1") {
        registry
    } else {
        registry.substring_char(0, text::find(&cs, 0, ':'))
    }
}

/// The scheme to speak to a registry.
pub fn scheme(registry: &str) -> (r: &'static str)
    ensures
        r@ == scheme_of(registry@),
{
    let host = without_port(registry);
    if text::eq(host, "localhost") || text::eq(host, "127.0.0.1") || text::eq(host, "::1") {
        "http"
    } else {
        "https"
    }
}

/// What stands before the first `/`.
pub open spec fn first_segment(s: Seq<char>) -> Seq<char> {
    s.subrange(0, text::position(s, '/') as int)
}

/// The host that a URL addresses.
pub open spec fn url_host(url: Seq<char>) -> Option<Seq<char>> {
    match text::without_prefix(url, "https://"@) {
        Some(rest) => Some(first_segment(rest)),
        None => match text::without_prefix(url, "http://"@) {
            Some(rest) => Some(first_segment(rest)),
            None => None,
        },
    }
}

fn first(s: &str) -> (r: &str)
    ensures
        r@ == first_segment(s@),
{
    let cs = text::chars(s);
    let n: usize = text::find(&cs, 0, '/');
    assert(cs@.subrange(0, cs@.len() as int) =~= cs@);
    s.substring_char(0, n)
}

/// The host that a URL addresses.
pub fn host_of(url: &str) -> (r: Option<String>)
    ensures
        r.deep_view() == url_host(url@),
{
    match text::strip_prefix(url, "https://") {
        Some(rest) => Some(first(rest).to_owned()),
        None => match text::strip_prefix(url, "http://") {
            Some(rest) => Some(first(rest).to_owned()),
            None => None,
        },
    }
}

/// The URL of something in a Feature's repository.
pub open spec fn repository_url(f: RefModel, what: Seq<char>, id: Seq<char>) -> Seq<char> {
    scheme_of(f.registry) + "://"@ + f.registry + "/v2/"@ + f.repository + what + id
}

/// The URL of a Feature's manifest.
pub fn manifest_url(feature: &FeatureRef) -> (r: String)
    ensures
        r@ == repository_url(feature.deep_view(), "/manifests/"@, feature.deep_view().reference()),
{
    text::cat7(
        scheme(feature.registry.as_str()),
        "://",
        feature.registry.as_str(),
        "/v2/",
        feature.repository.as_str(),
        "/manifests/",
        feature.reference(),
    )
}

/// The URL of a Feature's layer.
pub fn layer_url(feature: &FeatureRef, layer: &Layer) -> (r: String)
    ensures
        r@ == repository_url(feature.deep_view(), "/blobs/"@, layer.digest@),
{
    text::cat7(
        scheme(feature.registry.as_str()),
        "://",
        feature.registry.as_str(),
        "/v2/",
        feature.repository.as_str(),
        "/blobs/",
        layer.digest.as_str(),
    )
}

/// The directory in the cache for content with some digest.
pub fn cache_entry(cache_root: &str, digest: &str) -> (r: String)
    ensures
        r@ == crate::path::joined(cache_root@, text::replaced(digest@, ':', "-"@)),
{
    let name = text::replace(digest, ':', "-");
    crate::path::join(cache_root, name.as_str())
}

pub open spec fn not_https(raw: Seq<char>) -> AmErrorModel {
    AmErrorModel::DevcontainerBuildFailed(
        "Feature '"@ + raw
            + "' is not an https:// URL — a Feature tarball must be served over HTTPS, since it runs as root while the image is built"@,
    )
}

/// Refuses a tarball that is not served over HTTPS.
pub fn check_tarball(feature: &FeatureRef) -> (r: Result<(), AmError>)
    ensures
        crate::error::outcome(r) == (if text::has_prefix(feature.raw@, "https://"@) {
            Ok::<(), AmErrorModel>(())
        } else {
            Err(not_https(feature.raw@))
        }),
{
    if text::starts_with(feature.raw.as_str(), "https://") {
        Ok(())
    } else {
        Err(
            AmError::DevcontainerBuildFailed(
                text::cat3(
                    "Feature '",
                    feature.raw.as_str(),
                    "' is not an https:// URL — a Feature tarball must be served over HTTPS, since it runs as root while the image is built",
                ),
            ),
        )
    }
}

/// Whether a layer is compressed, by its first bytes: the name it was published under is not reliable.
pub fn is_gzip(blob: &Vec<u8>) -> (r: bool)
    ensures
        r == has_gzip_magic(blob@),
{
    blob.len() >= 2 && blob[0] == 0x1f && blob[1] == 0x8b
}

/// Whether bytes begin as gzip does.
pub open spec fn has_gzip_magic(blob: Seq<u8>) -> bool {
    blob.len() >= 2 && blob[0] == 0x1f && blob[1] == 0x8b
}

/// What a gzip decoder makes of some bytes: what it decodes, and the text of the error that ends it where
/// one does.
pub uninterp spec fn gunzipped(blob: Seq<u8>) -> (Seq<u8>, Option<Seq<char>>);

/// `flate2::read::GzDecoder`, read to its end or to its first error: named.
#[verifier::external_body]
fn gunzip(blob: &Vec<u8>) -> (r: (Vec<u8>, Option<String>))
    ensures
        (r.0@, r.1.deep_view()) == gunzipped(blob@),
{
    let mut out: Vec<u8> = Vec::new();
    match std::io::Read::read_to_end(&mut flate2::read::GzDecoder::new(blob.as_slice()), &mut out) {
        Ok(_) => (out, None),
        Err(e) => (out, Some(e.to_string())),
    }
}

/// The tar archive in a layer, which may or may not be compressed, and the error that cuts it short where
/// one does. An archive says itself where it ends, so an error behind that point is no harm.
pub fn archive_bytes(blob: Vec<u8>) -> (r: (Vec<u8>, Option<String>))
    ensures
        (r.0@, r.1.deep_view()) == (if has_gzip_magic(blob@) {
            gunzipped(blob@)
        } else {
            (blob@, None::<Seq<char>>)
        }),
{
    if is_gzip(&blob) {
        gunzip(&blob)
    } else {
        (blob, None)
    }
}

/// Where downloaded layers live.
pub open spec fn cache_root_of(given: Option<Seq<char>>, xdg: Option<Seq<char>>, home: Option<Seq<char>>) -> Seq<char> {
    match given {
        Some(d) => d,
        None => {
            let base = match (xdg, home) {
                (Some(x), _) => x,
                (None, Some(h)) => crate::path::joined(h, ".cache"@),
                (None, None) => ".am-cache"@,
            };
            crate::path::joined(crate::path::joined(base, "am"@), "features"@)
        },
    }
}

/// Where downloaded layers live: where the user says, or below the cache directory.
pub fn cache_root(given: Option<&str>, xdg_cache_home: Option<&str>, home: Option<&str>) -> (r: String)
    ensures
        r@ == cache_root_of(given.deep_view(), xdg_cache_home.deep_view(), home.deep_view()),
{
    match given {
        Some(d) => d.to_owned(),
        None => {
            let base = match (xdg_cache_home, home) {
                (Some(x), _) => x.to_owned(),
                (None, Some(h)) => crate::path::join(h, ".cache"),
                (None, None) => ".am-cache".to_owned(),
            };
            let am = crate::path::join(base.as_str(), "am");
            crate::path::join(am.as_str(), "features")
        },
    }
}

// ----------------------------------------------------------------------------------------------
// What a reference says
// ----------------------------------------------------------------------------------------------

/// Whether `host/rest` is a registry's: a host with a dot or a port, or `localhost`.
pub open spec fn addresses_a_registry(host: Seq<char>, rest: Seq<char>) -> bool {
    &&& host.len() > 0
    &&& host[0] != '.'
    &&& !host.contains('/')
    &&& !host.contains('@')
    &&& host.contains('.') || host.contains(':') || host == "localhost"@
    &&& rest.len() > 0
    &&& rest[0] != '/'
    &&& !rest.contains('@')
}

/// An id below a registry's host is that registry's: the host and the repository in lower case, and the
/// tag or the digest that it names. Where it names neither, the tag is `latest`. The registry is asked for
/// the digest where there is one, and otherwise for the tag.
pub proof fn law_a_registry_reference_is_read(
    host: Seq<char>,
    rest: Seq<char>,
    tag: Seq<char>,
    digest: Seq<char>,
)
    requires
        addresses_a_registry(host, rest),
        !tag.contains('@') && !tag.contains('/') && !tag.contains(':'),
    ensures
        ({
            let r = ref_of(host + "/"@ + rest + ":"@ + tag);
            &&& r.kind == FeatureKind::Registry
            &&& r.registry == text::lowercase(host)
            &&& r.repository == text::lowercase(rest)
            &&& r.tag == tag
            &&& r.digest is None
            &&& r.reference() == tag
            &&& r.untagged() == text::lowercase(host) + "/"@ + text::lowercase(rest)
        }),
        !rest.contains(':') ==> {
            let r = ref_of(host + "/"@ + rest);
            let p = ref_of(host + "/"@ + rest + "@"@ + digest);
            &&& r.kind == FeatureKind::Registry && r.registry == text::lowercase(host) && r.repository
                == text::lowercase(rest)
            &&& r.reference() == "latest"@
            &&& p.kind == FeatureKind::Registry && p.registry == text::lowercase(host) && p.repository
                == text::lowercase(rest)
            &&& p.digest == Some(digest)
            &&& p.reference() == digest
        },
{
    reveal_strlit("/");
    reveal_strlit(":");
    let path = host + "/"@ + rest;
    lemma_no_at(host, rest);
    law_a_digest_takes_the_place_of_a_tag(path, tag, digest);
    assert(path[host.len() as int] == '/');
    assert forall|j: int| 0 <= j < host.len() implies path[j] != '/' by {
        assert(host.contains(host[j]));
        assert(path[j] == host[j]);
    }
    text::lemma_position_is(path, '/', host.len() as int);
    assert(path.subrange(0, host.len() as int) =~= host);
    assert(path.subrange(host.len() as int + 1, path.len() as int) =~= rest);
    let one = path + ":"@ + tag;
    assert(one.subrange(0, path.len() as int) =~= path);
    lemma_not_special(host, rest, one);
    if !rest.contains(':') {
        text::lemma_last_end(path, ':');
        let e = text::last_end(path, ':') as int;
        if e > 0 {
            let t = path.subrange(e, path.len() as int);
            if e > host.len() {
                assert(path[e - 1] == rest[e - 1 - host.len() - 1]);
                assert(rest.contains(':'));
            }
            assert(t[host.len() - e] == path[host.len() as int]);
            assert(t.contains('/'));
        }
        assert(tagged(path).1 is None);
        assert(path.subrange(0, path.len() as int) =~= path);
        lemma_not_special(host, rest, path);
        assert(!path.contains('@'));
        text::lemma_position(path, '@');
        if text::position(path, '@') < path.len() {
            assert(path.contains(path[text::position(path, '@') as int]));
        }
        assert((path + "@"@ + digest).subrange(0, path.len() as int) =~= path);
        lemma_not_special(host, rest, path + "@"@ + digest);
    }
}

proof fn lemma_no_at(host: Seq<char>, rest: Seq<char>)
    requires
        !host.contains('@'),
        !rest.contains('@'),
    ensures
        !(host + "/"@ + rest).contains('@'),
{
    reveal_strlit("/");
    let p = host + "/"@ + rest;
    assert forall|j: int| 0 <= j < p.len() implies p[j] != '@' by {
        if j < host.len() {
            assert(host.contains(host[j]));
        } else if j > host.len() {
            assert(rest.contains(rest[j - host.len() - 1]));
        }
    }
}

proof fn lemma_not_special(host: Seq<char>, rest: Seq<char>, id: Seq<char>)
    requires
        addresses_a_registry(host, rest),
        id.len() >= host.len() + 1 + rest.len(),
        id.subrange(0, (host.len() + 1 + rest.len()) as int) == host + "/"@ + rest,
    ensures
        !text::has_prefix(id, "./"@),
        !text::has_prefix(id, "../"@),
        !text::has_prefix(id, "https://"@),
        !text::has_prefix(id, "http://"@),
{
    reveal_strlit("/");
    reveal_strlit("./");
    reveal_strlit("../");
    reveal_strlit("https://");
    reveal_strlit("http://");
    let n = host.len() as int;
    let path = host + "/"@ + rest;
    assert(id[0] == path[0] && path[0] == host[0]);
    assert(id[n] == path[n] && path[n] == '/');
    assert(id[n + 1] == path[n + 1] && path[n + 1] == rest[0]);
    assert forall|j: int| 0 <= j < n implies id[j] != '/' by {
        assert(id[j] == path[j] && path[j] == host[j]);
        assert(host.contains(host[j]));
    }
    if text::has_prefix(id, "./"@) {
        assert(id.subrange(0, 2)[0] == '.');
    }
    if text::has_prefix(id, "../"@) {
        assert(id.subrange(0, 3)[0] == '.');
    }
    if text::has_prefix(id, "https://"@) {
        let s = id.subrange(0, 8);
        assert(s[6] == '/' && s[7] == '/' && s[0] == 'h' && s[5] == ':');
        assert forall|j: int| 0 <= j < 6 implies id[j] != '/' by {
            assert(s[j] == id[j]);
        }
        assert(id[6] == '/' && id[7] == '/');
        assert(n == 6);
    }
    if text::has_prefix(id, "http://"@) {
        let s = id.subrange(0, 7);
        assert(s[5] == '/' && s[6] == '/');
        assert forall|j: int| 0 <= j < 5 implies id[j] != '/' by {
            assert(s[j] == id[j]);
        }
        assert(id[5] == '/' && id[6] == '/');
        assert(n == 5);
    }
}

/// An id that is written as a path is a Feature in the repository, and one that is written as a URL is a
/// tarball. An id without a slash names no registry, so it is a path as well.
pub proof fn law_paths_and_urls_are_told_apart(id: Seq<char>)
    ensures
        text::has_prefix(id, "./"@) || text::has_prefix(id, "../"@) ==> ref_of(id).kind == FeatureKind::Local,
        text::has_prefix(id, "https://"@) || text::has_prefix(id, "http://"@) ==> ref_of(id).kind
            == FeatureKind::Tarball,
        ref_of(id).kind != FeatureKind::Registry ==> ref_of(id).repository == id && ref_of(id).raw == id,
{
    reveal_strlit("./");
    reveal_strlit("../");
    reveal_strlit("https://");
    reveal_strlit("http://");
    if text::has_prefix(id, "https://"@) {
        assert(id.subrange(0, 8)[0] == id[0]);
    }
    if text::has_prefix(id, "http://"@) {
        assert(id.subrange(0, 7)[0] == id[0]);
    }
    if text::has_prefix(id, "./"@) {
        assert(id.subrange(0, 2)[0] == id[0]);
    }
    if text::has_prefix(id, "../"@) {
        assert(id.subrange(0, 3)[0] == id[0]);
    }
}

/// Plain HTTP is spoken to the machine itself and to nobody else, whatever the port.
pub proof fn law_only_loopback_is_spoken_to_in_the_clear(host: Seq<char>, port: Seq<char>)
    requires
        host.len() > 0,
        host[0] != '[',
        !host.contains(':'),
    ensures
        ({
            let near = host == "localhost"@ || host == "127.0.0.1"@;
            &&& near ==> scheme_of(host) == "http"@ && scheme_of(host + ":"@ + port) == "http"@
            &&& !near ==> scheme_of(host) == "https"@ && scheme_of(host + ":"@ + port) == "https"@
        }),
        scheme_of("::1"@) == "http"@,
        scheme_of("[::1]"@ + port) == "http"@,
{
    reveal_strlit("[");
    reveal_strlit(":");
    reveal_strlit("::1");
    reveal_strlit("[::1]");
    reveal_strlit("localhost");
    reveal_strlit("127.0.0.1");
    assert forall|j: int| 0 <= j < host.len() implies host[j] != ':' by {
        assert(host.contains(host[j]));
    }
    text::lemma_position_is(host, ':', host.len() as int);
    assert(host.subrange(0, host.len() as int) =~= host);
    let long = host + ":"@ + port;
    assert(long[host.len() as int] == ':');
    text::lemma_position_is(long, ':', host.len() as int);
    assert(long.subrange(0, host.len() as int) =~= host);
    if text::has_prefix(host, "["@) {
        assert(host.subrange(0, 1)[0] == host[0]);
    }
    if text::has_prefix(long, "["@) {
        assert(long.subrange(0, 1)[0] == long[0]);
    }
    assert("::1"@[0] == ':' && host[0] != ':' && long[0] == host[0]);
    let six = "[::1]"@ + port;
    assert(six.subrange(0, 1) =~= "["@);
    assert(six[4] == ']');
    text::lemma_position_is(six, ']', 4);
    assert(six.subrange(1, 4) =~= "::1"@);
    if text::has_prefix("::1"@, "["@) {
        assert("::1"@.subrange(0, 1)[0] == '[');
    }
}

/// What is fetched of a Feature is fetched from its own registry and its own repository.
pub proof fn law_content_comes_from_its_own_repository(f: RefModel, what: Seq<char>, id: Seq<char>)
    ensures
        scheme_of(f.registry) == "https"@ ==> repository_url(f, what, id) == "https://"@ + f.registry + "/v2/"@
            + f.repository + what + id && url_host(repository_url(f, what, id)) == Some(
            first_segment(f.registry + "/v2/"@ + f.repository + what + id),
        ),
        scheme_of(f.registry) == "http"@ ==> repository_url(f, what, id) == "http://"@ + f.registry + "/v2/"@
            + f.repository + what + id,
{
    reveal_strlit("https");
    reveal_strlit("http");
    reveal_strlit("://");
    reveal_strlit("https://");
    reveal_strlit("http://");
    let u = repository_url(f, what, id);
    let rest = f.registry + "/v2/"@ + f.repository + what + id;
    assert("https://"@ =~= "https"@ + "://"@);
    assert("http://"@ =~= "http"@ + "://"@);
    if scheme_of(f.registry) == "https"@ {
        assert(u =~= "https://"@ + rest);
        assert(u =~= "https://"@ + f.registry + "/v2/"@ + f.repository + what + id);
        assert(u.subrange(0, "https://"@.len() as int) =~= "https://"@);
        assert(u.subrange("https://"@.len() as int, u.len() as int) =~= rest);
    }
}

/// The layer that is unpacked is the first of a Feature's media type. Where none is of that type it is the
/// first of all, and only a manifest without layers has none.
pub proof fn law_the_features_layer_is_unpacked(m: ManifestModel, k: int)
    ensures
        m.feature_layer() is None <==> m.layers.len() == 0,
        0 <= k < m.layers.len() && text::has_prefix(m.layers[k].media_type, "application/vnd.devcontainers.layer"@) && (
        forall|j: int|
            0 <= j < k ==> !text::has_prefix(
                (#[trigger] m.layers[j]).media_type,
                "application/vnd.devcontainers.layer"@,
            )) ==> m.feature_layer() == Some(m.layers[k]),
        m.layers.len() > 0 && (forall|j: int|
            0 <= j < m.layers.len() ==> !text::has_prefix(
                (#[trigger] m.layers[j]).media_type,
                "application/vnd.devcontainers.layer"@,
            )) ==> m.feature_layer() == Some(m.layers[0]),
{
    lemma_typed_layer(m.layers, k);
}

proof fn lemma_typed_layer(layers: Seq<LayerModel>, k: int)
    ensures
        0 <= k < layers.len() && is_feature_layer(layers[k]) && (forall|j: int|
            0 <= j < k ==> !is_feature_layer(#[trigger] layers[j])) ==> typed_layer(layers) == Some(layers[k]),
        (forall|j: int| 0 <= j < layers.len() ==> !is_feature_layer(#[trigger] layers[j])) ==> typed_layer(layers) is None,
    decreases layers.len(),
{
    if layers.len() > 0 {
        let rest = layers.drop_first();
        lemma_typed_layer(rest, k - 1);
        assert(forall|j: int| 0 <= j < rest.len() ==> #[trigger] rest[j] == layers[j + 1]);
        if k > 0 && k < layers.len() && (forall|j: int| 0 <= j < k ==> !is_feature_layer(#[trigger] layers[j])) {
            assert(!is_feature_layer(layers[0]));
            assert forall|j: int| 0 <= j < k - 1 implies !is_feature_layer(#[trigger] rest[j]) by {
                assert(!is_feature_layer(layers[j + 1]));
            }
            assert(rest[k - 1] == layers[k]);
        }
        if forall|j: int| 0 <= j < layers.len() ==> !is_feature_layer(#[trigger] layers[j]) {
            assert(!is_feature_layer(layers[0]));
            assert forall|j: int| 0 <= j < rest.len() implies !is_feature_layer(#[trigger] rest[j]) by {
                assert(!is_feature_layer(layers[j + 1]));
            }
        }
    }
}

/// The cache is where the user says, and otherwise below the cache directory: the one that is set, or
/// `.cache` in the home.
pub proof fn law_the_cache_is_below_its_directory(xdg: Option<Seq<char>>, home: Option<Seq<char>>, given: Seq<char>)
    requires
        xdg matches Some(x) ==> x.len() > 0 && x.last() != '/',
        home matches Some(h) ==> h.len() > 0 && h.last() != '/',
    ensures
        cache_root_of(Some(given), xdg, home) == given,
        xdg matches Some(x) ==> cache_root_of(None, xdg, home) == x + "/am/features"@,
        xdg is None ==> (home matches Some(h) ==> cache_root_of(None, xdg, home) == h + "/.cache/am/features"@),
{
    reveal_strlit("/");
    reveal_strlit("am");
    reveal_strlit("features");
    reveal_strlit(".cache");
    reveal_strlit("/am/features");
    reveal_strlit("/.cache/am/features");
    match xdg {
        Some(x) => {
            let a = x + "/"@ + "am"@;
            assert(a.last() == 'm');
            assert(a + "/"@ + "features"@ =~= x + "/am/features"@);
        },
        None => match home {
            Some(h) => {
                let c = h + "/"@ + ".cache"@;
                assert(c.last() == 'e');
                let a = c + "/"@ + "am"@;
                assert(a.last() == 'm');
                assert(a + "/"@ + "features"@ =~= h + "/.cache/am/features"@);
            },
            None => {},
        },
    }
}

/// A manifest lists every layer that it spells, in order, each with its media type and its digest. It is
/// accepted where it was asked for by no digest, or by its own.
pub proof fn law_a_manifest_is_read(
    f: RefModel,
    body: Seq<u8>,
    j: JsonModel,
    a: Seq<JsonModel>,
    i: int,
    media_type: Seq<char>,
    digest: Seq<char>,
)
    requires
        j is Object,
        j.member("layers"@) == Some(JsonModel::Array(a)),
        f.digest is None || f.digest == Some(digest::digest_text(body)),
        accepted_manifest(f, body, Ok(j)) is Ok,
        0 <= i < a.len(),
        a[i] is Object,
    ensures
        ({
            let m = accepted_manifest(f, body, Ok(j))->Ok_0;
            &&& m.digest == digest::digest_text(body)
            &&& m.layers.len() == a.len()
            &&& a[i].member("mediaType"@) == Some(JsonModel::Str(media_type)) ==> m.layers[i].media_type == media_type
            &&& a[i].member("digest"@) == Some(JsonModel::Str(digest)) ==> m.layers[i].digest == digest
            &&& a[i].member("mediaType"@) is Some && a[i].member("digest"@) is Some
            &&& decode::text_map_of(j.member("annotations"@)) == Some(m.annotations)
        }),
{
    assert(layer_of(a[i]) is Some);
}

/// Bytes that were asked for by a digest that is not theirs are refused, as is what does not read as a
/// manifest; anything else is accepted.
pub proof fn law_a_manifest_is_accepted_or_refused(f: RefModel, body: Seq<u8>, parsed: Result<JsonModel, Seq<char>>)
    ensures
        accepted_manifest(f, body, parsed) is Ok <==> (f.digest matches Some(d) ==> d == digest::digest_text(body)) && (
        parsed matches Ok(j) && manifest_of(j, digest::digest_text(body)) is Some),
{
}

} // verus!
