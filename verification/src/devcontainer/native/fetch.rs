//! What is asked for, and what is known of it once it has been fetched.

use vstd::prelude::*;

use super::feature::{self, FeatureMetadata, MetadataModel};
use super::oci::{self, FeatureKind, FeatureRef, Layer, LayerModel, Manifest, ManifestModel, RefModel};
use crate::decode;
use crate::devcontainer::image::{InjectedFeature, InjectedModel};
use crate::devcontainer::lock::{LockEntry, LockEntryModel, LockModel, Lockfile};
use crate::duplicate::Duplicate;
use crate::error::{AmError, AmErrorModel};
use crate::json::{self, Json, JsonModel};
use crate::sort;
use crate::strmap::{self, StrMap};
use crate::text;

verus! {

// ----------------------------------------------------------------------------------------------
// Requests
// ----------------------------------------------------------------------------------------------

/// A Feature that is asked for.
#[derive(Debug, PartialEq)]
pub struct RequestedFeature {
    pub reference: FeatureRef,
    pub options: StrMap<Json>,
}

/// What a [`RequestedFeature`] stands for.
pub struct RequestModel {
    pub reference: RefModel,
    pub options: Seq<(Seq<char>, JsonModel)>,
}

impl DeepView for RequestedFeature {
    type V = RequestModel;

    open spec fn deep_view(&self) -> RequestModel {
        RequestModel { reference: self.reference.deep_view(), options: self.options.deep_view() }
    }
}

impl Duplicate for RequestedFeature {
    fn duplicate(&self) -> (r: Self) {
        RequestedFeature { reference: self.reference.duplicate(), options: self.options.duplicate() }
    }
}

impl RequestModel {
    /// What the request is known by.
    pub open spec fn key(self) -> Seq<char> {
        feature::keyed(self.reference.raw, self.options)
    }
}

/// The options that a value spells: an object's members, or a text as the version.
pub open spec fn options_of(j: JsonModel) -> Seq<(Seq<char>, JsonModel)> {
    match j {
        JsonModel::Object(o) => decode::collected(o),
        JsonModel::Str(s) => seq![("version"@, JsonModel::Str(s))],
        _ => Seq::empty(),
    }
}

/// Reads a Feature's options.
pub fn as_option_map(value: &Json) -> (r: StrMap<Json>)
    ensures
        r.deep_view() == options_of(value@),
{
    broadcast use crate::json::lemma_object_view;

    match value {
        Json::Object(o) => decode::object_map(o),
        Json::Str(s) => {
            let mut m: StrMap<Json> = StrMap::new();
            m.insert("version".to_owned(), Json::Str(s.clone()));
            m
        },
        _ => StrMap::new(),
    }
}

/// A request for a Feature by its id.
pub open spec fn request_of(id: Seq<char>, options: JsonModel) -> RequestModel {
    RequestModel { reference: oci::ref_of(id), options: options_of(options) }
}

fn request(id: &str, options: &Json) -> (r: RequestedFeature)
    ensures
        r.deep_view() == request_of(id@, options@),
{
    RequestedFeature { reference: oci::parse_ref(id), options: as_option_map(options) }
}

/// The requests for the members of an object, the first of each name.
pub open spec fn own_requests(o: Seq<(Seq<char>, JsonModel)>) -> Seq<RequestModel>
    decreases o.len(),
{
    if o.len() == 0 {
        Seq::empty()
    } else {
        let rest = own_requests(o.drop_last());
        if named_before(o, o.len() - 1) {
            rest
        } else {
            rest.push(request_of(o.last().0, o.last().1))
        }
    }
}

/// Whether a member shares its name with an earlier one.
pub open spec fn named_before(o: Seq<(Seq<char>, JsonModel)>, i: int) -> bool {
    exists|k: int| 0 <= k < i && (#[trigger] o[k]).0 == o[i].0
}

/// Whether one of some requests is for a Feature, whatever its tag.
pub open spec fn asks_for(rs: Seq<RequestModel>, untagged: Seq<char>) -> bool {
    exists|i: int| 0 <= i < rs.len() && (#[trigger] rs[i]).reference.untagged() == untagged
}

/// The options of an injected Feature; `parsed` is what the JSON reader made of their text.
pub open spec fn injected_options(parsed: Result<JsonModel, Seq<char>>) -> JsonModel {
    match parsed {
        Ok(j) => j,
        Err(_) => JsonModel::Null,
    }
}

/// Requests, with those for injected Features that they do not already ask for.
pub open spec fn with_injected(own: Seq<RequestModel>, injected: Seq<InjectedModel>) -> Seq<RequestModel>
    decreases injected.len(),
{
    if injected.len() == 0 {
        own
    } else {
        let rest = with_injected(own, injected.drop_last());
        let f = injected.last();
        if asks_for(rest, oci::ref_of(f.id).untagged()) {
            rest
        } else {
            rest.push(request_of(f.id, injected_options(json::lenient(f.options))))
        }
    }
}

/// The requests that a config makes.
pub open spec fn config_requests(raw: JsonModel) -> Seq<RequestModel> {
    match raw.member("features"@) {
        Some(JsonModel::Object(o)) => own_requests(o),
        _ => Seq::empty(),
    }
}

fn has_name_before(o: &Vec<(String, Json)>, i: usize) -> (r: bool)
    requires
        i < o.len(),
    ensures
        r == named_before(json::members_model(o@), i as int),
{
    let ghost m = json::members_model(o@);
    let mut k: usize = 0;
    while k < i
        invariant
            m == json::members_model(o@),
            k <= i < o.len(),
            forall|j: int| 0 <= j < k ==> (#[trigger] m[j]).0 != m[i as int].0,
        decreases i - k,
    {
        assert(m[k as int].0 == o@[k as int].0@);
        if text::eq(o[k].0.as_str(), o[i].0.as_str()) {
            return true;
        }
        k = k + 1;
    }
    false
}

fn asks_for_name(rs: &Vec<RequestedFeature>, untagged: &str) -> (r: bool)
    ensures
        r == asks_for(rs.deep_view(), untagged@),
{
    let ghost s = rs.deep_view();
    let mut i: usize = 0;
    while i < rs.len()
        invariant
            s == rs.deep_view(),
            i <= rs.len(),
            forall|j: int| 0 <= j < i ==> (#[trigger] s[j]).reference.untagged() != untagged@,
        decreases rs.len() - i,
    {
        assert(s[i as int] == rs@[i as int].deep_view());
        let u = rs[i].reference.untagged();
        if text::eq(u.as_str(), untagged) {
            return true;
        }
        i = i + 1;
    }
    false
}

fn collect_own(o: &Vec<(String, Json)>) -> (r: Vec<RequestedFeature>)
    ensures
        r.deep_view() == own_requests(json::members_model(o@)),
{
    let ghost m = json::members_model(o@);
    let mut out: Vec<RequestedFeature> = Vec::new();
    let mut i: usize = 0;
    assert(out.deep_view() =~= own_requests(m.subrange(0, 0)));
    while i < o.len()
        invariant
            m == json::members_model(o@),
            i <= o.len(),
            out.deep_view() == own_requests(m.subrange(0, i as int)),
        decreases o.len() - i,
    {
        let ghost s = m.subrange(0, i + 1);
        assert(s.drop_last() =~= m.subrange(0, i as int));
        assert(m[i as int] == (o@[i as int].0@, o@[i as int].1@));
        proof {
            if named_before(m, i as int) {
                let k = choose|k: int| 0 <= k < i && (#[trigger] m[k]).0 == m[i as int].0;
                assert(s[k].0 == s[i as int].0);
            }
            if named_before(s, i as int) {
                let k = choose|k: int| 0 <= k < i && (#[trigger] s[k]).0 == s[i as int].0;
                assert(m[k].0 == m[i as int].0);
            }
        }
        let ghost before = out.deep_view();
        if !has_name_before(o, i) {
            out.push(request(o[i].0.as_str(), &o[i].1));
            assert(out.deep_view() =~= before.push(request_of(m[i as int].0, m[i as int].1)));
        }
        i = i + 1;
    }
    assert(m.subrange(0, m.len() as int) =~= m);
    out
}

/// Collects the Features to install: the config's own, and those that are injected. An injected Feature
/// that the config asks for itself, with whatever tag and options, is left to the config.
pub fn collect_features(raw: &Json, injected: &Vec<InjectedFeature>) -> (r: Vec<RequestedFeature>)
    ensures
        r.deep_view() == with_injected(config_requests(raw@), injected.deep_view()),
{
    broadcast use crate::json::lemma_object_view;

    let mut out: Vec<RequestedFeature> = Vec::new();
    assert(out.deep_view() =~= Seq::empty());
    match raw.get("features") {
        Some(Json::Object(o)) => {
            out = collect_own(o);
        },
        _ => {},
    }
    let ghost own = out.deep_view();
    let ghost all = injected.deep_view();
    let mut i: usize = 0;
    assert(own == with_injected(own, all.subrange(0, 0)));
    while i < injected.len()
        invariant
            all == injected.deep_view(),
            i <= injected.len(),
            out.deep_view() == with_injected(own, all.subrange(0, i as int)),
        decreases injected.len() - i,
    {
        assert(all.subrange(0, i + 1).drop_last() =~= all.subrange(0, i as int));
        assert(all[i as int] == injected@[i as int].deep_view());
        let ghost before = out.deep_view();
        let reference = oci::parse_ref(injected[i].id.as_str());
        let untagged = reference.untagged();
        if !asks_for_name(&out, untagged.as_str()) {
            let parsed = match json::parse_lenient(injected[i].options.as_str()) {
                Ok(j) => j,
                Err(_) => Json::Null,
            };
            let one = RequestedFeature { reference, options: as_option_map(&parsed) };
            out.push(one);
            assert(out.deep_view() =~= before.push(
                request_of(all[i as int].id, injected_options(json::lenient(all[i as int].options))),
            ));
        }
        i = i + 1;
    }
    assert(all.subrange(0, all.len() as int) =~= all);
    out
}

/// An injected Feature never stands beside one that the config asks for.
pub proof fn law_the_config_wins_over_injection(own: Seq<RequestModel>, injected: Seq<InjectedModel>)
    ensures
        with_injected(own, injected).len() >= own.len(),
        with_injected(own, injected).subrange(0, own.len() as int) == own,
        forall|i: int, j: int|
            0 <= i < own.len() <= j < with_injected(own, injected).len() ==> (#[trigger] own[i]).reference.untagged()
                != (#[trigger] with_injected(own, injected)[j]).reference.untagged(),
    decreases injected.len(),
{
    let all = with_injected(own, injected);
    if injected.len() == 0 {
        assert(own.subrange(0, own.len() as int) =~= own);
    } else {
        law_the_config_wins_over_injection(own, injected.drop_last());
        let rest = with_injected(own, injected.drop_last());
        assert(all.subrange(0, own.len() as int) =~= own);
        assert forall|i: int, j: int| 0 <= i < own.len() <= j < all.len() implies (#[trigger] own[i]).reference.untagged()
            != (#[trigger] all[j]).reference.untagged() by {
            if j < rest.len() {
                assert(all[j] == rest[j]);
            } else {
                assert(rest[i] == own[i]) by {
                    assert(rest.subrange(0, own.len() as int)[i] == own[i]);
                }
                assert(all[j].reference == oci::ref_of(injected.last().id));
            }
        }
    }
}

/// What a Feature depends on.
pub open spec fn dependencies(m: MetadataModel) -> Seq<(Seq<char>, Seq<(Seq<char>, JsonModel)>)> {
    match m.depends_on {
        Some(JsonModel::Object(o)) => o.map_values(|e: (Seq<char>, JsonModel)| (e.0, options_of(e.1))),
        _ => Seq::empty(),
    }
}

/// Lists what a Feature depends on, with the options for each.
pub fn depends_on_entries(metadata: &FeatureMetadata) -> (r: Vec<(String, StrMap<Json>)>)
    ensures
        r.deep_view() == dependencies(metadata.deep_view()),
{
    broadcast use crate::json::lemma_object_view;

    let mut out: Vec<(String, StrMap<Json>)> = Vec::new();
    match &metadata.depends_on {
        Some(Json::Object(o)) => {
            let ghost m = json::members_model(o@);
            let ghost t = m.map_values(|e: (Seq<char>, JsonModel)| (e.0, options_of(e.1)));
            let mut i: usize = 0;
            assert(out.deep_view() =~= t.subrange(0, 0));
            while i < o.len()
                invariant
                    m == json::members_model(o@),
                    t == m.map_values(|e: (Seq<char>, JsonModel)| (e.0, options_of(e.1))),
                    i <= o.len(),
                    out.deep_view() == t.subrange(0, i as int),
                decreases o.len() - i,
            {
                let ghost before = out.deep_view();
                let options = as_option_map(&o[i].1);
                out.push((o[i].0.clone(), options));
                assert(out.deep_view() =~= before.push(t[i as int]));
                assert(t.subrange(0, i + 1) =~= t.subrange(0, i as int).push(t[i as int]));
                i = i + 1;
            }
            assert(t.subrange(0, t.len() as int) =~= t);
        },
        _ => {
            assert(out.deep_view() =~= Seq::empty());
        },
    }
    out
}

// ----------------------------------------------------------------------------------------------
// What was fetched
// ----------------------------------------------------------------------------------------------

/// Where a Feature's files come from. A layer is not downloaded before the order is settled: its manifest
/// says all that is needed until then.
#[derive(Debug, PartialEq)]
pub enum Content {
    Layer(Layer),
    Directory(String),
}

/// What [`Content`] stands for.
pub enum ContentModel {
    Layer(LayerModel),
    Directory(Seq<char>),
}

impl DeepView for Content {
    type V = ContentModel;

    open spec fn deep_view(&self) -> ContentModel {
        match self {
            Content::Layer(l) => ContentModel::Layer(l.deep_view()),
            Content::Directory(d) => ContentModel::Directory(d@),
        }
    }
}

impl Duplicate for Content {
    fn duplicate(&self) -> (r: Self) {
        match self {
            Content::Layer(l) => Content::Layer(l.duplicate()),
            Content::Directory(d) => Content::Directory(d.clone()),
        }
    }
}

/// What is known of a Feature once it has been fetched.
#[derive(Debug, PartialEq)]
pub struct Fetched {
    pub metadata: FeatureMetadata,
    /// The whole `devcontainer-feature.json`.
    pub raw: Json,
    /// What the contents are known by.
    pub digest: String,
    pub content: Content,
}

/// What [`Fetched`] stands for.
pub struct FetchedModel {
    pub metadata: MetadataModel,
    pub raw: JsonModel,
    pub digest: Seq<char>,
    pub content: ContentModel,
}

impl DeepView for Fetched {
    type V = FetchedModel;

    open spec fn deep_view(&self) -> FetchedModel {
        FetchedModel {
            metadata: self.metadata.deep_view(),
            raw: self.raw@,
            digest: self.digest@,
            content: self.content.deep_view(),
        }
    }
}

/// The reference to fetch: pinned, where the lockfile pins it.
pub open spec fn pinned_ref(f: RefModel, lock: LockModel) -> RefModel {
    match lock.digest_for(f.raw) {
        Some(d) => RefModel { digest: Some(d), ..f },
        None => f,
    }
}

/// Says what to ask a registry for. A pinned digest wins over the tag that was written.
pub fn pin(reference: &FeatureRef, lock: &Lockfile) -> (r: FeatureRef)
    ensures
        r.deep_view() == pinned_ref(reference.deep_view(), lock.deep_view()),
{
    let mut r = reference.duplicate();
    match lock.digest_for(reference.raw.as_str()) {
        Some(d) => {
            r.digest = Some(d.to_owned());
        },
        None => {},
    }
    r
}

/// What is known of a registry Feature from its manifest; `parsed` is what the JSON reader made of the
/// metadata in it.
pub open spec fn from_manifest_of(
    raw: Seq<char>,
    m: ManifestModel,
    parsed: Result<JsonModel, Seq<char>>,
) -> Result<FetchedModel, AmErrorModel> {
    if m.feature_metadata() is None {
        Err(
            AmErrorModel::DevcontainerBuildFailed(
                raw + " is not a devcontainer Feature (its manifest carries no metadata)"@,
            ),
        )
    } else {
        match feature::metadata_in(parsed) {
            Err(e) => Err(e),
            Ok((metadata, json)) => match m.feature_layer() {
                None => Err(AmErrorModel::DevcontainerBuildFailed(raw + " has no layer to install"@)),
                Some(l) => Ok(
                    FetchedModel { metadata, raw: json, digest: m.digest, content: ContentModel::Layer(l) },
                ),
            },
        }
    }
}

/// Takes what is known of a registry Feature out of its manifest.
pub fn from_manifest(reference: &FeatureRef, manifest: &Manifest) -> (r: Result<Fetched, AmError>)
    ensures
        crate::error::outcome(r) == from_manifest_of(
            reference.raw@,
            manifest.deep_view(),
            json::lenient(manifest.deep_view().feature_metadata()->0),
        ),
{
    let t = match manifest.feature_metadata() {
        None => {
            return Err(
                AmError::DevcontainerBuildFailed(
                    text::cat2(
                        reference.raw.as_str(),
                        " is not a devcontainer Feature (its manifest carries no metadata)",
                    ),
                ),
            );
        },
        Some(t) => t,
    };
    match feature::parse_metadata(t) {
        Err(e) => Err(e),
        Ok((metadata, raw)) => match manifest.feature_layer() {
            None => Err(
                AmError::DevcontainerBuildFailed(
                    text::cat2(reference.raw.as_str(), " has no layer to install"),
                ),
            ),
            Some(l) => Ok(
                Fetched {
                    metadata,
                    raw,
                    digest: manifest.digest.clone(),
                    content: Content::Layer(l.duplicate()),
                },
            ),
        },
    }
}

/// Where a local Feature's directory is.
pub fn local_directory(config_dir: &str, reference: &FeatureRef) -> (r: String)
    ensures
        r@ == crate::path::joined(config_dir@, reference.raw@),
{
    crate::path::join(config_dir, reference.raw.as_str())
}

/// What a local Feature is known by: where it is, links resolved.
pub fn local_digest(canonical: &str) -> (r: String)
    ensures
        r@ == "local:"@ + canonical@,
{
    text::cat2("local:", canonical)
}

/// Where the metadata in a Feature's directory is.
pub fn metadata_path(dir: &str) -> (r: String)
    ensures
        r@ == crate::path::joined(dir@, "devcontainer-feature.json"@),
{
    crate::path::join(dir, "devcontainer-feature.json")
}

/// What is known of a Feature from its directory. `text` is the metadata's text or the error in reading
/// it, and `parsed` is what the JSON reader made of the text.
pub open spec fn from_directory_of(
    id: Seq<char>,
    dir: Seq<char>,
    digest: Seq<char>,
    text: Result<Seq<char>, Seq<char>>,
    parsed: Result<JsonModel, Seq<char>>,
) -> Result<FetchedModel, AmErrorModel> {
    match text {
        Err(e) => Err(
            AmErrorModel::DevcontainerBuildFailed(
                id + " has no devcontainer-feature.json at "@ + crate::path::joined(dir, "devcontainer-feature.json"@)
                    + ": "@ + e,
            ),
        ),
        Ok(_) => match feature::metadata_in(parsed) {
            Err(e) => Err(e),
            Ok((metadata, raw)) => Ok(
                FetchedModel { metadata, raw, digest, content: ContentModel::Directory(dir) },
            ),
        },
    }
}

/// Takes what is known of a Feature out of its directory.
pub fn read_feature_dir(id: &str, dir: &str, digest: &str, text: Result<String, String>) -> (r: Result<Fetched, AmError>)
    ensures
        crate::error::outcome(r) == from_directory_of(
            id@,
            dir@,
            digest@,
            match text {
                Ok(t) => Ok::<Seq<char>, Seq<char>>(t@),
                Err(e) => Err(e@),
            },
            json::lenient(text->Ok_0@),
        ),
{
    match text {
        Err(e) => {
            let p = metadata_path(dir);
            Err(
                AmError::DevcontainerBuildFailed(
                    text::cat5(id, " has no devcontainer-feature.json at ", p.as_str(), ": ", e.as_str()),
                ),
            )
        },
        Ok(t) => match feature::parse_metadata(t.as_str()) {
            Err(e) => Err(e),
            Ok((metadata, raw)) => Ok(
                Fetched { metadata, raw, digest: digest.to_owned(), content: Content::Directory(dir.to_owned()) },
            ),
        },
    }
}

/// The error for a tarball that is not the one in the lockfile.
pub open spec fn tarball_changed(raw: Seq<char>, expected: Seq<char>, actual: Seq<char>) -> AmErrorModel {
    AmErrorModel::DevcontainerBuildFailed(
        "Feature '"@ + raw + "' does not match the lockfile\nexpected "@ + expected + ", got "@ + actual
            + "\nThe tarball changed at its URL. Delete its devcontainer-lock.json entry to accept the new contents."@,
    )
}

/// Refuses a tarball that is not the one in the lockfile.
pub fn check_integrity(reference: &FeatureRef, lock: &Lockfile, digest: &str) -> (r: Result<(), AmError>)
    ensures
        crate::error::outcome(r) == (match lock.deep_view().integrity_for(reference.raw@) {
            Some(expected) => if expected == digest@ {
                Ok::<(), AmErrorModel>(())
            } else {
                Err(tarball_changed(reference.raw@, expected, digest@))
            },
            None => Ok(()),
        }),
{
    match lock.integrity_for(reference.raw.as_str()) {
        Some(expected) => if text::eq(expected, digest) {
            Ok(())
        } else {
            Err(
                AmError::DevcontainerBuildFailed(
                    text::cat7(
                        "Feature '",
                        reference.raw.as_str(),
                        "' does not match the lockfile\nexpected ",
                        expected,
                        ", got ",
                        digest,
                        "\nThe tarball changed at its URL. Delete its devcontainer-lock.json entry to accept the new contents.",
                    ),
                ),
            )
        },
        None => Ok(()),
    }
}

// ----------------------------------------------------------------------------------------------
// Fetching, step by step
// ----------------------------------------------------------------------------------------------

/// What has to be done to fetch a Feature.
#[derive(Debug, PartialEq)]
pub enum Step {
    /// Get the manifest of this reference, which is at this URL.
    Manifest(FeatureRef, String),
    /// Read the metadata in this directory.
    Directory(String),
    /// Get the tarball at this URL and unpack it.
    Tarball(String),
}

/// What a [`Step`] stands for.
pub enum StepModel {
    Manifest(RefModel, Seq<char>),
    Directory(Seq<char>),
    Tarball(Seq<char>),
}

impl DeepView for Step {
    type V = StepModel;

    open spec fn deep_view(&self) -> StepModel {
        match self {
            Step::Manifest(f, u) => StepModel::Manifest(f.deep_view(), u@),
            Step::Directory(d) => StepModel::Directory(d@),
            Step::Tarball(u) => StepModel::Tarball(u@),
        }
    }
}

/// How a Feature is fetched. A local one is where its path leads from the directory of the config, also
/// where another Feature depends on it.
pub open spec fn step_for(f: RefModel, config_dir: Seq<char>, lock: LockModel) -> Result<StepModel, AmErrorModel> {
    match f.kind {
        FeatureKind::Registry => {
            let p = pinned_ref(f, lock);
            Ok(StepModel::Manifest(p, oci::repository_url(p, "/manifests/"@, p.reference())))
        },
        FeatureKind::Local => Ok(StepModel::Directory(crate::path::joined(config_dir, f.raw))),
        FeatureKind::Tarball => if text::has_prefix(f.raw, "https://"@) {
            Ok(StepModel::Tarball(f.raw))
        } else {
            Err(oci::not_https(f.raw))
        },
    }
}

/// Says how a Feature is fetched.
pub fn fetch_feature(reference: &FeatureRef, config_dir: &str, lock: &Lockfile) -> (r: Result<Step, AmError>)
    ensures
        crate::error::outcome(r) == step_for(reference.deep_view(), config_dir@, lock.deep_view()),
{
    match reference.kind {
        FeatureKind::Registry => {
            let p = pin(reference, lock);
            let url = oci::manifest_url(&p);
            Ok(Step::Manifest(p, url))
        },
        FeatureKind::Local => Ok(Step::Directory(local_directory(config_dir, reference))),
        FeatureKind::Tarball => match oci::check_tarball(reference) {
            Ok(()) => Ok(Step::Tarball(reference.raw.clone())),
            Err(e) => Err(e),
        },
    }
}

/// Takes what a registry served as the manifest of a Feature.
pub fn take_manifest(reference: &FeatureRef, body: &Vec<u8>) -> (r: Result<Fetched, AmError>)
    ensures
        crate::error::outcome(r) == (match oci::accepted_manifest(
            reference.deep_view(),
            body@,
            json::strict_bytes(body@),
        ) {
            Err(e) => Err::<FetchedModel, AmErrorModel>(e),
            Ok(m) => from_manifest_of(reference.raw@, m, json::lenient(m.feature_metadata()->0)),
        }),
{
    match oci::accept_manifest(reference, body) {
        Ok(m) => from_manifest(reference, &m),
        Err(e) => Err(e),
    }
}

/// Takes what was read of a local Feature. `canonical` is its directory with all links resolved, where
/// they could be.
pub fn take_directory(reference: &FeatureRef, dir: &str, canonical: Option<&str>, text: Result<String, String>) -> (r:
    Result<Fetched, AmError>)
    ensures
        crate::error::outcome(r) == from_directory_of(
            reference.raw@,
            dir@,
            "local:"@ + (match canonical {
                Some(c) => c@,
                None => dir@,
            }),
            match text {
                Ok(t) => Ok::<Seq<char>, Seq<char>>(t@),
                Err(e) => Err(e@),
            },
            json::lenient(text->Ok_0@),
        ),
{
    let digest = local_digest(
        match canonical {
            Some(c) => c,
            None => dir,
        },
    );
    read_feature_dir(reference.raw.as_str(), dir, digest.as_str(), text)
}

/// Takes a tarball that was unpacked, unless the lockfile has another one.
pub fn take_tarball(
    reference: &FeatureRef,
    lock: &Lockfile,
    dir: &str,
    digest: &str,
    text: Result<String, String>,
) -> (r: Result<Fetched, AmError>)
    ensures
        crate::error::outcome(r) == (match lock.deep_view().integrity_for(reference.raw@) {
            Some(expected) if expected != digest@ => Err::<FetchedModel, AmErrorModel>(
                tarball_changed(reference.raw@, expected, digest@),
            ),
            _ => from_directory_of(
                reference.raw@,
                dir@,
                digest@,
                match text {
                    Ok(t) => Ok::<Seq<char>, Seq<char>>(t@),
                    Err(e) => Err(e@),
                },
                json::lenient(text->Ok_0@),
            ),
        }),
{
    match check_integrity(reference, lock, digest) {
        Ok(()) => read_feature_dir(reference.raw.as_str(), dir, digest, text),
        Err(e) => Err(e),
    }
}

/// A Feature that the lockfile pins is asked for by its digest, and what is taken has that digest.
pub proof fn law_a_pinned_feature_is_the_one_installed(
    f: RefModel,
    config_dir: Seq<char>,
    lock: LockModel,
    body: Seq<u8>,
    parsed: Result<JsonModel, Seq<char>>,
)
    requires
        f.kind == FeatureKind::Registry,
        lock.digest_for(f.raw) is Some,
    ensures
        step_for(f, config_dir, lock) matches Ok(StepModel::Manifest(p, url)) && p.digest == lock.digest_for(f.raw)
            && url == oci::repository_url(f, "/manifests/"@, lock.digest_for(f.raw)->0) && (oci::accepted_manifest(
            p,
            body,
            parsed,
        ) matches Ok(m) ==> m.digest == lock.digest_for(f.raw)->0 && crate::digest::digest_text(body) == m.digest),
{
}

/// What a Feature resolved to.
pub open spec fn lock_entry(f: RefModel, m: MetadataModel, digest: Seq<char>) -> LockEntryModel {
    LockEntryModel {
        version: m.version,
        resolved: if f.kind == FeatureKind::Registry {
            f.untagged() + "@"@ + digest
        } else {
            f.raw
        },
        integrity: digest,
        depends_on: sort::sorted::<String>(
            dependencies(m).map_values(|d: (Seq<char>, Seq<(Seq<char>, JsonModel)>)| d.0),
        ),
    }
}

/// The lockfile with what a Feature resolved to; a local one is left out.
pub open spec fn recorded(lock: LockModel, f: RefModel, m: MetadataModel, digest: Seq<char>) -> LockModel {
    if f.kind == FeatureKind::Local {
        lock
    } else {
        lock.with(f.raw, lock_entry(f, m, digest))
    }
}

fn dependency_ids(metadata: &FeatureMetadata) -> (r: Vec<String>)
    ensures
        r.deep_view() == dependencies(metadata.deep_view()).map_values(
            |d: (Seq<char>, Seq<(Seq<char>, JsonModel)>)| d.0,
        ),
{
    let deps = depends_on_entries(metadata);
    let ghost all = dependencies(metadata.deep_view()).map_values(|d: (Seq<char>, Seq<(Seq<char>, JsonModel)>)| d.0);
    let mut out: Vec<String> = Vec::new();
    let mut i: usize = 0;
    assert(out.deep_view() =~= all.subrange(0, 0));
    while i < deps.len()
        invariant
            deps.deep_view() == dependencies(metadata.deep_view()),
            all == dependencies(metadata.deep_view()).map_values(|d: (Seq<char>, Seq<(Seq<char>, JsonModel)>)| d.0),
            i <= deps.len(),
            out.deep_view() == all.subrange(0, i as int),
        decreases deps.len() - i,
    {
        assert(deps.deep_view()[i as int] == deps@[i as int].deep_view());
        text::push_str(&mut out, deps[i].0.as_str());
        assert(all.subrange(0, i + 1) =~= all.subrange(0, i as int).push(all[i as int]));
        i = i + 1;
    }
    assert(all.subrange(0, all.len() as int) =~= all);
    out
}

/// Records what a Feature resolved to.
pub fn record_in_lock(lock: &mut Lockfile, reference: &FeatureRef, metadata: &FeatureMetadata, digest: &str)
    ensures
        final(lock).deep_view() == recorded(
            old(lock).deep_view(),
            reference.deep_view(),
            metadata.deep_view(),
            digest@,
        ),
{
    let resolved = match reference.kind {
        FeatureKind::Local => {
            return ;
        },
        FeatureKind::Registry => {
            let u = reference.untagged();
            text::cat3(u.as_str(), "@", digest)
        },
        FeatureKind::Tarball => reference.raw.clone(),
    };
    let ids = dependency_ids(metadata);
    lock.insert(
        reference.raw.as_str(),
        LockEntry {
            version: metadata.version.duplicate(),
            resolved,
            integrity: digest.to_owned(),
            depends_on: sort::sort_values(ids),
        },
    );
}

/// A registry Feature that has been recorded is pinned from then on: the next build asks for exactly what
/// this one got.
pub proof fn law_what_is_recorded_is_pinned(lock: LockModel, f: RefModel, m: MetadataModel, digest: Seq<char>)
    requires
        strmap::sorted(lock.features),
        f.kind == FeatureKind::Registry,
        !digest.contains('@'),
    ensures
        pinned_ref(f, recorded(lock, f, m, digest)).digest == Some(digest),
        recorded(lock, f, m, digest).integrity_for(f.raw) == Some(digest),
{
    crate::devcontainer::lock::law_a_record_is_found_again(lock, f.raw, lock_entry(f, m, digest), f.raw);
    reveal_strlit("@");
    let s = f.untagged() + "@"@ + digest;
    let n = f.untagged().len() as int;
    assert(s[n] == '@');
    assert forall|j: int| n < j < s.len() implies s[j] != '@' by {
        assert(s[j] == digest[j - n - 1]);
    }
    text::lemma_last_end_is(s, '@', n + 1);
    assert(s.subrange(n + 1, s.len() as int) =~= digest);
}

// ----------------------------------------------------------------------------------------------
// What is asked for
// ----------------------------------------------------------------------------------------------

/// A Feature's options are the members of its object, the last of each name, and a text in place of the
/// object is its version. Any other value gives none.
pub proof fn law_options_are_read_as_written(j: JsonModel)
    ensures
        j matches JsonModel::Object(o) ==> decode::spells_map(Some(j), options_of(j), |v: JsonModel| Some(v)),
        j matches JsonModel::Str(s) ==> options_of(j) == seq![("version"@, JsonModel::Str(s))],
        !(j is Object) && !(j is Str) ==> options_of(j).len() == 0,
{
    decode::law_what_is_read_is_what_is_there(Some(j));
}

/// Every Feature that a config lists is asked for, by its id and with its options, and nothing else is.
pub proof fn law_every_listed_feature_is_asked_for(raw: JsonModel, o: Seq<(Seq<char>, JsonModel)>, k: int)
    requires
        raw.member("features"@) == Some(JsonModel::Object(o)),
    ensures
        0 <= k < o.len() && !named_before(o, k) ==> exists|i: int|
            0 <= i < config_requests(raw).len() && (#[trigger] config_requests(raw)[i]).reference == oci::ref_of(o[k].0)
                && config_requests(raw)[i].options == options_of(o[k].1),
        forall|i: int|
            0 <= i < config_requests(raw).len() ==> exists|j: int|
                0 <= j < o.len() && (#[trigger] config_requests(raw)[i]).reference == oci::ref_of((#[trigger] o[j]).0)
                    && config_requests(raw)[i].options == options_of(o[j].1),
{
    lemma_own_requests(o, k);
}

proof fn lemma_own_requests(o: Seq<(Seq<char>, JsonModel)>, k: int)
    ensures
        ({
            let rs = own_requests(o);
            &&& 0 <= k < o.len() && !named_before(o, k) ==> exists|i: int|
                0 <= i < rs.len() && (#[trigger] rs[i]).reference == oci::ref_of(o[k].0) && rs[i].options
                    == options_of(o[k].1)
            &&& forall|i: int|
                0 <= i < rs.len() ==> exists|j: int|
                    0 <= j < o.len() && (#[trigger] rs[i]).reference == oci::ref_of((#[trigger] o[j]).0) && rs[i].options
                        == options_of(o[j].1)
        }),
    decreases o.len(),
{
    if o.len() > 0 {
        let front = o.drop_last();
        let last = o.len() - 1;
        let rest = own_requests(front);
        let rs = own_requests(o);
        lemma_own_requests(front, k);
        assert(o[last] == o.last());
        if 0 <= k < last && !named_before(o, k) {
            assert(!named_before(front, k)) by {
                if named_before(front, k) {
                    let j = choose|j: int| 0 <= j < k && (#[trigger] front[j]).0 == front[k].0;
                    assert(o[j].0 == o[k].0);
                }
            }
            assert(front[k] == o[k]);
            let i = choose|i: int|
                0 <= i < rest.len() && (#[trigger] rest[i]).reference == oci::ref_of(o[k].0) && rest[i].options
                    == options_of(o[k].1);
            assert(rs[i] == rest[i]);
        }
        if k == last && !named_before(o, k) {
            assert(rs[rest.len() as int].reference == oci::ref_of(o[k].0));
        }
        assert forall|i: int| 0 <= i < rs.len() implies exists|j: int|
            0 <= j < o.len() && (#[trigger] rs[i]).reference == oci::ref_of((#[trigger] o[j]).0) && rs[i].options
                == options_of(o[j].1) by {
            if i < rest.len() {
                assert(rs[i] == rest[i]);
                let j = choose|j: int|
                    0 <= j < front.len() && rest[i].reference == oci::ref_of((#[trigger] front[j]).0)
                        && rest[i].options == options_of(front[j].1);
                assert(o[j] == front[j]);
            } else {
                assert(rs[i].reference == oci::ref_of(o[last].0));
            }
        }
    }
}

/// Every Feature that is injected is installed: it is asked for, or the config asks for it itself.
pub proof fn law_every_injected_feature_is_asked_for(own: Seq<RequestModel>, injected: Seq<InjectedModel>, k: int)
    requires
        0 <= k < injected.len(),
    ensures
        exists|i: int|
            0 <= i < with_injected(own, injected).len() && (
            #[trigger] with_injected(own, injected)[i]).reference.untagged() == oci::ref_of(injected[k].id).untagged(),
    decreases injected.len(),
{
    let front = injected.drop_last();
    let rest = with_injected(own, front);
    let all = with_injected(own, injected);
    if k < front.len() {
        law_every_injected_feature_is_asked_for(own, front, k);
        let i = choose|i: int|
            0 <= i < rest.len() && (#[trigger] rest[i]).reference.untagged() == oci::ref_of(
                injected[k].id,
            ).untagged();
        assert(all[i] == rest[i]);
    } else if asks_for(rest, oci::ref_of(injected.last().id).untagged()) {
        let i = choose|i: int|
            0 <= i < rest.len() && (#[trigger] rest[i]).reference.untagged() == oci::ref_of(
                injected.last().id,
            ).untagged();
        assert(all[i] == rest[i]);
    } else {
        assert(all[rest.len() as int].reference.untagged() == oci::ref_of(injected[k].id).untagged());
    }
}

/// What a Feature depends on is every member of its `dependsOn`, with that member's options.
pub proof fn law_every_dependency_is_listed(m: MetadataModel, k: int)
    ensures
        m.depends_on matches Some(JsonModel::Object(o)) ==> dependencies(m).len() == o.len() && (0 <= k < o.len()
            ==> dependencies(m)[k] == (o[k].0, options_of(o[k].1))),
        !(m.depends_on matches Some(JsonModel::Object(_))) ==> dependencies(m).len() == 0,
{
}

/// Where a Feature is fetched from: a registry's from its manifest's URL, a local one from its path below
/// the config, and a tarball from its own URL, which must be an HTTPS one.
pub proof fn law_each_kind_is_fetched_its_own_way(f: RefModel, config_dir: Seq<char>, lock: LockModel)
    ensures
        f.kind == FeatureKind::Local ==> step_for(f, config_dir, lock) == Ok::<StepModel, AmErrorModel>(
            StepModel::Directory(crate::path::joined(config_dir, f.raw)),
        ),
        f.kind == FeatureKind::Tarball && text::has_prefix(f.raw, "https://"@) ==> step_for(f, config_dir, lock) == Ok::<
            StepModel,
            AmErrorModel,
        >(StepModel::Tarball(f.raw)),
        f.kind == FeatureKind::Tarball && !text::has_prefix(f.raw, "https://"@) ==> step_for(f, config_dir, lock) is Err,
        f.kind == FeatureKind::Registry && lock.digest_for(f.raw) is None ==> step_for(f, config_dir, lock) == Ok::<
            StepModel,
            AmErrorModel,
        >(StepModel::Manifest(f, oci::repository_url(f, "/manifests/"@, f.reference()))),
{
}

/// What is known of a Feature: from a manifest its digest and the layer to unpack, from a directory the
/// directory itself, and from both the metadata that they hold. A manifest without metadata or without a
/// layer is no Feature's.
pub proof fn law_a_feature_is_what_was_fetched(
    id: Seq<char>,
    m: ManifestModel,
    dir: Seq<char>,
    digest: Seq<char>,
    text: Result<Seq<char>, Seq<char>>,
    parsed: Result<JsonModel, Seq<char>>,
)
    ensures
        from_manifest_of(id, m, parsed) is Ok <==> m.feature_metadata() is Some && m.feature_layer() is Some
            && feature::metadata_in(parsed) is Ok,
        from_manifest_of(id, m, parsed) matches Ok(f) ==> {
            &&& f.digest == m.digest
            &&& m.feature_layer() matches Some(l) && f.content == ContentModel::Layer(l)
            &&& parsed == Ok::<JsonModel, Seq<char>>(f.raw)
            &&& feature::metadata_of(f.raw) == Some(f.metadata)
        },
        from_directory_of(id, dir, digest, text, parsed) is Ok <==> text is Ok && feature::metadata_in(parsed) is Ok,
        from_directory_of(id, dir, digest, text, parsed) matches Ok(f) ==> {
            &&& f.digest == digest
            &&& f.content == ContentModel::Directory(dir)
            &&& parsed == Ok::<JsonModel, Seq<char>>(f.raw)
            &&& feature::metadata_of(f.raw) == Some(f.metadata)
        },
{
}

/// What is recorded of a Feature: its version, its digest, everything it depends on, and what it resolved
/// to, which for a registry's is the repository at that digest. A local Feature is not recorded.
pub proof fn law_a_record_says_what_was_resolved(
    lock: LockModel,
    f: RefModel,
    m: MetadataModel,
    digest: Seq<char>,
    k: int,
)
    ensures
        ({
            let e = lock_entry(f, m, digest);
            &&& e.version == m.version
            &&& e.integrity == digest
            &&& f.kind == FeatureKind::Registry ==> e.resolved == f.registry + "/"@ + f.repository + "@"@ + digest
            &&& f.kind != FeatureKind::Registry ==> e.resolved == f.raw
            &&& e.depends_on.len() == dependencies(m).len()
            &&& 0 <= k < dependencies(m).len() ==> e.depends_on.contains(dependencies(m)[k].0)
        }),
        f.kind == FeatureKind::Local ==> recorded(lock, f, m, digest) == lock,
        f.kind != FeatureKind::Local && strmap::sorted(lock.features) ==> recorded(lock, f, m, digest).entry(f.raw)
            == Some(lock_entry(f, m, digest)),
{
    broadcast use vstd::seq_lib::group_to_multiset_ensures;

    let names = dependencies(m).map_values(|d: (Seq<char>, Seq<(Seq<char>, JsonModel)>)| d.0);
    sort::law_sorted::<String>(names);
    let s = sort::sorted::<String>(names);
    if 0 <= k < names.len() {
        assert(names[k] == dependencies(m)[k].0);
        assert(names.contains(names[k]));
        assert(s.to_multiset().count(names[k]) > 0);
    }
    if f.kind != FeatureKind::Local && strmap::sorted(lock.features) {
        strmap::lemma_get_after_insert(
            lock.features,
            text::lowercase(f.raw),
            lock_entry(f, m, digest),
            text::lowercase(f.raw),
        );
    }
}

} // verus!
