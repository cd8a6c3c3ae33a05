//! What is built, from what, and with which command lines.

use vstd::prelude::*;

use super::dockerfile;
use super::feature::{self, ResolvedFeature, ResolvedModel};
use super::fetch::{Content, ContentModel};
use crate::compose::document::{ServiceDefinition, ServiceModel};
use crate::container::run::laws as run_laws;
use crate::decode;
use crate::devcontainer::document::{self, BuildModel, BuildSection, DevcontainerJson, DocumentModel};
use crate::devcontainer::image::{self, InjectedFeature};
use crate::devcontainer::snippet::{self, SnippetModel};
use crate::devcontainer::substitution::{ContextModel, SubstitutionContext};
use crate::digest;
use crate::duplicate::Duplicate;
use crate::error::{AmError, AmErrorModel};
use crate::json::{self, Json, JsonModel};
use crate::path;
use crate::strmap::{self, StrMap};
use crate::text;

verus! {

/// A request to build an image.
#[derive(Debug, PartialEq)]
pub struct BuildRequest<'a> {
    pub worktree: &'a str,
    pub config_path: &'a str,
    pub json: &'a DevcontainerJson,
    /// The name of the image.
    pub image: &'a str,
    pub injected: &'a Vec<InjectedFeature>,
    pub no_cache: bool,
}

// ----------------------------------------------------------------------------------------------
// The config
// ----------------------------------------------------------------------------------------------

/// Whether a config says what to build from. What a compose service builds from, only the runtime knows.
pub open spec fn has_base(d: DocumentModel) -> bool {
    d.image is Some || d.dockerfile() is Some || d.docker_compose_file is Some
}

/// The error where a config does not say what to build from.
pub open spec fn nothing_to_build_from() -> AmErrorModel {
    AmErrorModel::ConfigError(
        "this devcontainer.json has nothing to build from\nAdd an \"image\", a \"build\" with a \"dockerfile\", or a \"dockerComposeFile\""@,
    )
}

/// Refuses a config that does not say what to build from.
pub fn check_static(json: &DevcontainerJson) -> (r: Result<(), AmError>)
    ensures
        crate::error::outcome(r) == (if has_base(json.deep_view()) {
            Ok::<(), AmErrorModel>(())
        } else {
            Err(nothing_to_build_from())
        }),
{
    let dockerfile = match &json.build {
        Some(b) => b.dockerfile.is_some(),
        None => false,
    };
    if json.image.is_some() || dockerfile || json.docker_compose_file.is_some() {
        return Ok(());
    }
    Err(
        AmError::ConfigError(
            "this devcontainer.json has nothing to build from\nAdd an \"image\", a \"build\" with a \"dockerfile\", or a \"dockerComposeFile\"".to_owned(),
        ),
    )
}

/// The texts among some values.
pub open spec fn texts_among(a: Seq<JsonModel>) -> Seq<Seq<char>>
    decreases a.len(),
{
    if a.len() == 0 {
        Seq::empty()
    } else {
        match a.last() {
            JsonModel::Str(s) => texts_among(a.drop_last()).push(s),
            _ => texts_among(a.drop_last()),
        }
    }
}

/// The order that a config asks for; what is no text is passed over.
pub open spec fn asked_order(raw: JsonModel) -> Seq<Seq<char>> {
    match raw.member("overrideFeatureInstallOrder"@) {
        Some(JsonModel::Array(a)) => texts_among(a),
        _ => Seq::empty(),
    }
}

/// Reads the order that a config asks for.
pub fn override_install_order(raw: &Json) -> (r: Vec<String>)
    ensures
        r.deep_view() == asked_order(raw@),
{
    broadcast use crate::json::lemma_object_view;

    let mut out: Vec<String> = Vec::new();
    match raw.get("overrideFeatureInstallOrder") {
        Some(Json::Array(a)) => {
            let ghost m = json::elements_model(a@);
            let mut i: usize = 0;
            assert(out.deep_view() =~= texts_among(m.subrange(0, 0)));
            while i < a.len()
                invariant
                    m == json::elements_model(a@),
                    i <= a.len(),
                    out.deep_view() == texts_among(m.subrange(0, i as int)),
                decreases a.len() - i,
            {
                assert(m.subrange(0, i + 1).drop_last() =~= m.subrange(0, i as int));
                assert(m[i as int] == a@[i as int]@);
                match a[i].as_str() {
                    Some(s) => {
                        text::push_str(&mut out, s);
                    },
                    None => {},
                }
                i = i + 1;
            }
            assert(m.subrange(0, m.len() as int) =~= m);
        },
        _ => {
            assert(out.deep_view() =~= Seq::empty());
        },
    }
    out
}

/// What is said where entries of the order name no Feature.
pub fn override_note(unmatched: &Vec<String>, features: &Vec<ResolvedFeature>) -> (r: String)
    ensures
        r@ == "overrideFeatureInstallOrder names "@ + text::joined(unmatched.deep_view(), ", "@)
            + " which no Feature in this config matches — the entry has no effect. Installed: "@ + text::joined(
            features.deep_view().map_values(|f: ResolvedModel| f.reference.untagged()),
            ", "@,
        ),
{
    let ghost all = features.deep_view().map_values(|f: ResolvedModel| f.reference.untagged());
    let mut names: Vec<String> = Vec::new();
    let mut i: usize = 0;
    assert(names.deep_view() =~= all.subrange(0, 0));
    while i < features.len()
        invariant
            all == features.deep_view().map_values(|f: ResolvedModel| f.reference.untagged()),
            i <= features.len(),
            names.deep_view() == all.subrange(0, i as int),
        decreases features.len() - i,
    {
        text::push(&mut names, features[i].reference.untagged());
        assert(all.subrange(0, i + 1) =~= all.subrange(0, i as int).push(all[i as int]));
        i = i + 1;
    }
    assert(all.subrange(0, all.len() as int) =~= all);
    let listed = text::join(unmatched, ", ");
    let installed = text::join(&names, ", ");
    text::cat4(
        "overrideFeatureInstallOrder names ",
        listed.as_str(),
        " which no Feature in this config matches — the entry has no effect. Installed: ",
        installed.as_str(),
    )
}

// ----------------------------------------------------------------------------------------------
// The base image
// ----------------------------------------------------------------------------------------------

/// Where the base image comes from.
#[derive(Debug, PartialEq)]
pub enum BaseSource {
    /// An image, to be pulled where it is not there.
    Image(String),
    /// A compose service.
    Service(String),
    /// A Dockerfile, to be built first.
    Dockerfile(String),
}

/// What a [`BaseSource`] stands for.
pub enum BaseModel {
    Image(Seq<char>),
    Service(Seq<char>),
    Dockerfile(Seq<char>),
}

impl DeepView for BaseSource {
    type V = BaseModel;

    open spec fn deep_view(&self) -> BaseModel {
        match self {
            BaseSource::Image(s) => BaseModel::Image(s@),
            BaseSource::Service(s) => BaseModel::Service(s@),
            BaseSource::Dockerfile(s) => BaseModel::Dockerfile(s@),
        }
    }
}

/// Where the base image of a config comes from: an image before a compose service before a Dockerfile.
pub open spec fn base_of(config_path: Seq<char>, d: DocumentModel) -> Result<BaseModel, AmErrorModel> {
    match (d.image, d.docker_compose_file, d.service, document::dockerfile_at(config_path, d)) {
        (Some(i), _, _, _) => Ok(BaseModel::Image(i)),
        (None, Some(_), Some(s), _) => Ok(BaseModel::Service(s)),
        (None, Some(_), None, _) => Err(
            AmErrorModel::DevcontainerBuildFailed("a compose devcontainer must name the service to build"@),
        ),
        (None, None, _, Some(f)) => Ok(BaseModel::Dockerfile(f)),
        (None, None, _, None) => Err(AmErrorModel::DevcontainerBuildFailed("no Dockerfile to build"@)),
    }
}

/// Says where the base image of a config comes from.
pub fn resolve_base(config_path: &str, json: &DevcontainerJson) -> (r: Result<BaseSource, AmError>)
    ensures
        crate::error::outcome(r) == base_of(config_path@, json.deep_view()),
{
    match &json.image {
        Some(i) => {
            return Ok(BaseSource::Image(i.clone()));
        },
        None => {},
    }
    if json.docker_compose_file.is_some() {
        return match &json.service {
            Some(s) => Ok(BaseSource::Service(s.clone())),
            None => Err(
                AmError::DevcontainerBuildFailed("a compose devcontainer must name the service to build".to_owned()),
            ),
        };
    }
    match document::dockerfile_path(config_path, json) {
        Some(f) => Ok(BaseSource::Dockerfile(f)),
        None => Err(AmError::DevcontainerBuildFailed("no Dockerfile to build".to_owned())),
    }
}

/// Names the base image that is built first.
pub fn base_tag(image: &str) -> (r: String)
    ensures
        r@ == image@ + "-base"@,
{
    text::cat2(image, "-base")
}

/// A build argument as text.
pub open spec fn build_arg_text(j: JsonModel) -> Seq<char> {
    match j {
        JsonModel::Str(s) => s,
        other => json::compact(other),
    }
}

/// Renders a build argument.
pub fn render_build_arg(value: &Json) -> (r: String)
    ensures
        r@ == build_arg_text(value@),
{
    match value {
        Json::Str(s) => s.clone(),
        other => other.to_text(),
    }
}

/// What `${…}` stands for in a build argument.
pub open spec fn build_context(worktree: Seq<char>, d: DocumentModel, env: Seq<(Seq<char>, Seq<char>)>) -> ContextModel {
    ContextModel {
        local_workspace_folder: worktree,
        container_workspace_folder: match d.workspace_folder {
            Some(f) => f,
            None => worktree,
        },
        container_env: Seq::empty(),
        local_env: env,
    }
}

/// The build arguments on a command line.
pub open spec fn build_arg_flags(args: Seq<(Seq<char>, JsonModel)>, ctx: ContextModel) -> Seq<Seq<char>>
    decreases args.len(),
{
    if args.len() == 0 {
        Seq::empty()
    } else {
        build_arg_flags(args.drop_last(), ctx) + seq![
            "--build-arg"@,
            args.last().0 + "="@ + ctx.substituted(build_arg_text(args.last().1)),
        ]
    }
}

/// The cache sources on a command line.
pub open spec fn cache_flags(images: Seq<Seq<char>>) -> Seq<Seq<char>>
    decreases images.len(),
{
    if images.len() == 0 {
        Seq::empty()
    } else {
        cache_flags(images.drop_last()) + seq!["--cache-from"@, images.last()]
    }
}

/// What a config's `build` adds to the command line. Its options go through as they are.
pub open spec fn section_flags(b: Option<BuildModel>, ctx: ContextModel) -> Seq<Seq<char>> {
    match b {
        None => Seq::empty(),
        Some(b) => build_arg_flags(b.args, ctx) + (match b.target {
            Some(t) => seq!["--target"@, t],
            None => Seq::empty(),
        }) + cache_flags(b.cache_from.images()) + b.options,
    }
}

/// The flag that leaves the cache alone.
pub open spec fn no_cache_flag(no_cache: bool) -> Seq<Seq<char>> {
    if no_cache {
        seq!["--no-cache"@]
    } else {
        Seq::empty()
    }
}

/// The directory that a Dockerfile is built in: the one that the config names, or the Dockerfile's own.
pub open spec fn context_dir(config_path: Seq<char>, d: DocumentModel, dockerfile: Seq<char>, worktree: Seq<char>) -> Seq<
    char,
> {
    match d.build {
        Some(BuildModel { context: Some(c), .. }) => path::joined(document::config_dir(config_path), c),
        _ => match path::parent(dockerfile) {
            Some(p) => p,
            None => worktree,
        },
    }
}

fn push_build_args(out: &mut Vec<String>, args: &StrMap<Json>, ctx: &SubstitutionContext)
    ensures
        final(out).deep_view() == old(out).deep_view() + build_arg_flags(args.deep_view(), ctx.deep_view()),
{
    let ghost base = out.deep_view();
    let ghost all = args.deep_view();
    let ghost c = ctx.deep_view();
    let n: usize = args.len();
    let mut i: usize = 0;
    assert(base + build_arg_flags(all.subrange(0, 0), c) =~= base);
    while i < n
        invariant
            all == args.deep_view(),
            c == ctx.deep_view(),
            n == all.len(),
            i <= n,
            out.deep_view() == base + build_arg_flags(all.subrange(0, i as int), c),
        decreases n - i,
    {
        assert(all.subrange(0, i + 1).drop_last() =~= all.subrange(0, i as int));
        let (k, v) = args.at(i);
        let raw = render_build_arg(v);
        let value = ctx.substitute(raw.as_str());
        text::push_str(out, "--build-arg");
        text::push(out, text::cat3(k, "=", value.as_str()));
        i = i + 1;
        assert(out.deep_view() =~= base + build_arg_flags(all.subrange(0, i as int), c));
    }
    assert(all.subrange(0, all.len() as int) =~= all);
}

fn push_cache(out: &mut Vec<String>, images: &Vec<String>)
    ensures
        final(out).deep_view() == old(out).deep_view() + cache_flags(images.deep_view()),
{
    let ghost base = out.deep_view();
    let ghost all = images.deep_view();
    let mut i: usize = 0;
    assert(base + cache_flags(all.subrange(0, 0)) =~= base);
    while i < images.len()
        invariant
            all == images.deep_view(),
            i <= images.len(),
            out.deep_view() == base + cache_flags(all.subrange(0, i as int)),
        decreases images.len() - i,
    {
        assert(all.subrange(0, i + 1).drop_last() =~= all.subrange(0, i as int));
        assert(all[i as int] == images@[i as int]@);
        text::push_str(out, "--cache-from");
        text::push_str(out, images[i].as_str());
        i = i + 1;
        assert(out.deep_view() =~= base + cache_flags(all.subrange(0, i as int)));
    }
    assert(all.subrange(0, all.len() as int) =~= all);
}

fn push_texts(out: &mut Vec<String>, more: &Vec<String>)
    ensures
        final(out).deep_view() == old(out).deep_view() + more.deep_view(),
{
    let ghost base = out.deep_view();
    let mut copy = more.duplicate();
    out.append(&mut copy);
    assert(out.deep_view() =~= base + more.deep_view());
}

fn push_section(out: &mut Vec<String>, build: &Option<BuildSection>, ctx: &SubstitutionContext)
    ensures
        final(out).deep_view() == old(out).deep_view() + section_flags(build.deep_view(), ctx.deep_view()),
{
    let ghost base = out.deep_view();
    match build {
        None => {
            assert(base + section_flags(None, ctx.deep_view()) =~= base);
        },
        Some(b) => {
            push_build_args(out, &b.args, ctx);
            match &b.target {
                Some(t) => {
                    text::push_str(out, "--target");
                    text::push_str(out, t.as_str());
                },
                None => {},
            }
            let images = b.cache_from.images();
            push_cache(out, &images);
            push_texts(out, &b.options);
            assert(out.deep_view() =~= base + section_flags(build.deep_view(), ctx.deep_view()));
        },
    }
}

fn push_no_cache(out: &mut Vec<String>, no_cache: bool)
    ensures
        final(out).deep_view() == old(out).deep_view() + no_cache_flag(no_cache),
{
    let ghost base = out.deep_view();
    if no_cache {
        text::push_str(out, "--no-cache");
    }
    assert(out.deep_view() =~= base + no_cache_flag(no_cache));
}

/// Makes the command line, without the runtime, that builds a config's Dockerfile.
pub fn dockerfile_build_args(req: &BuildRequest, dockerfile: &str, env: &StrMap<String>) -> (r: Vec<String>)
    ensures
        r.deep_view() == seq!["build"@, "-f"@, dockerfile@, "-t"@, req.image@ + "-base"@] + section_flags(
            req.json.deep_view().build,
            build_context(req.worktree@, req.json.deep_view(), env.deep_view()),
        ) + no_cache_flag(req.no_cache) + seq![
            context_dir(req.config_path@, req.json.deep_view(), dockerfile@, req.worktree@),
        ],
{
    let folder = match &req.json.workspace_folder {
        Some(f) => f.as_str(),
        None => req.worktree,
    };
    let mut ctx = SubstitutionContext::new(req.worktree, folder);
    ctx.local_env = env.duplicate();
    let mut out: Vec<String> = Vec::new();
    text::push_str(&mut out, "build");
    text::push_str(&mut out, "-f");
    text::push_str(&mut out, dockerfile);
    text::push_str(&mut out, "-t");
    text::push(&mut out, base_tag(req.image));
    assert(out.deep_view() =~= seq!["build"@, "-f"@, dockerfile@, "-t"@, req.image@ + "-base"@]);
    push_section(&mut out, &req.json.build, &ctx);
    push_no_cache(&mut out, req.no_cache);
    let named = match &req.json.build {
        Some(b) => match &b.context {
            Some(c) => Some(path::join(document::config_directory(req.config_path), c.as_str())),
            None => None,
        },
        None => None,
    };
    let dir = match named {
        Some(d) => d,
        None => match path::parent_of(dockerfile) {
            Some(p) => p.to_owned(),
            None => req.worktree.to_owned(),
        },
    };
    let ghost before = out.deep_view();
    text::push(&mut out, dir);
    assert(out.deep_view() =~= before + seq![
        context_dir(req.config_path@, req.json.deep_view(), dockerfile@, req.worktree@),
    ]);
    out
}

/// How a compose service gets its image.
#[derive(Debug, PartialEq)]
pub enum ServiceBase {
    Image(String),
    /// The command line, without the runtime, that builds it.
    Build(Vec<String>),
}

/// What a [`ServiceBase`] stands for.
pub enum ServiceBaseModel {
    Image(Seq<char>),
    Build(Seq<Seq<char>>),
}

impl DeepView for ServiceBase {
    type V = ServiceBaseModel;

    open spec fn deep_view(&self) -> ServiceBaseModel {
        match self {
            ServiceBase::Image(s) => ServiceBaseModel::Image(s@),
            ServiceBase::Build(v) => ServiceBaseModel::Build(v.deep_view()),
        }
    }
}

/// How a compose service gets its image: it has one, or it is built.
pub open spec fn service_base_of(s: ServiceModel, image: Seq<char>, no_cache: bool) -> ServiceBaseModel {
    match (s.image, s.build) {
        (Some(i), _) => ServiceBaseModel::Image(i),
        (None, Some((context, dockerfile))) => ServiceBaseModel::Build(
            seq!["build"@, "-t"@, image + "-base"@] + (match dockerfile {
                Some(f) => seq!["-f"@, path::joined(context, f)],
                None => Seq::empty(),
            }) + no_cache_flag(no_cache) + seq![context],
        ),
        (None, None) => arbitrary(),
    }
}

/// Says how the agent's compose service gets its image. Nothing else of the project is built.
pub fn compose_base(definition: &ServiceDefinition, image: &str, no_cache: bool) -> (r: ServiceBase)
    requires
        definition.image is Some || definition.build is Some,
    ensures
        r.deep_view() == service_base_of(definition.deep_view(), image@, no_cache),
{
    match &definition.image {
        Some(i) => {
            return ServiceBase::Image(i.clone());
        },
        None => {},
    }
    let mut out: Vec<String> = Vec::new();
    text::push_str(&mut out, "build");
    text::push_str(&mut out, "-t");
    text::push(&mut out, base_tag(image));
    match &definition.build {
        Some((context, dockerfile)) => {
            match dockerfile {
                Some(f) => {
                    text::push_str(&mut out, "-f");
                    text::push(&mut out, path::join(context.as_str(), f.as_str()));
                },
                None => {},
            }
            push_no_cache(&mut out, no_cache);
            text::push_str(&mut out, context.as_str());
        },
        None => {},
    }
    let ghost wanted = service_base_of(definition.deep_view(), image@, no_cache);
    assert(wanted is Build && out.deep_view() =~= wanted->Build_0);
    ServiceBase::Build(out)
}

/// Makes the command line, without the runtime, that pulls an image.
pub fn pull_command(image: &str) -> (r: Vec<String>)
    ensures
        r.deep_view() == seq!["pull"@, image@],
{
    let mut v: Vec<String> = Vec::new();
    text::push_str(&mut v, "pull");
    text::push_str(&mut v, image);
    assert(v.deep_view() =~= seq!["pull"@, image@]);
    v
}

/// The error for an image that cannot be pulled. `failure` says why the command could not be run, where
/// it could not.
pub fn pull_failed(image: &str, failure: Option<&str>) -> (r: AmError)
    ensures
        r.deep_view() == AmErrorModel::DevcontainerBuildFailed(
            match failure {
                Some(e) => "failed to run pull: "@ + e@,
                None => "could not pull base image "@ + image@,
            },
        ),
{
    match failure {
        Some(e) => AmError::DevcontainerBuildFailed(text::cat2("failed to run pull: ", e)),
        None => AmError::DevcontainerBuildFailed(text::cat2("could not pull base image ", image)),
    }
}

/// The error for a build that ended badly, or that could not be run.
pub fn build_failed(what: &str, runtime: &str, status: Result<String, String>) -> (r: AmError)
    ensures
        r.deep_view() == AmErrorModel::DevcontainerBuildFailed(
            match status {
                Ok(s) => what@ + " failed ("@ + s@ + ") — see the output above"@,
                Err(e) => "failed to run "@ + runtime@ + ": "@ + e@,
            },
        ),
{
    match status {
        Ok(s) => AmError::DevcontainerBuildFailed(
            text::cat4(what, " failed (", s.as_str(), ") — see the output above"),
        ),
        Err(e) => AmError::DevcontainerBuildFailed(text::cat4("failed to run ", runtime, ": ", e.as_str())),
    }
}

/// The elements of a label; what is neither a list nor an object has none. `parsed` is what the JSON
/// reader made of its text.
pub open spec fn elements_in(trimmed: Seq<char>, parsed: Result<JsonModel, Seq<char>>) -> Seq<JsonModel> {
    if image::says_nothing(trimmed) {
        Seq::empty()
    } else {
        match parsed {
            Ok(JsonModel::Array(a)) => a,
            Ok(JsonModel::Object(o)) => seq![JsonModel::Object(o)],
            _ => Seq::empty(),
        }
    }
}

/// Reads the elements of the base image's label out of what the runtime printed. They are kept as they
/// are: what nobody here has heard of must not get lost.
pub fn base_label_elements(success: bool, stdout: &Vec<u8>) -> (r: Vec<Json>)
    ensures
        r.deep_view() == (if success {
            elements_in(
                text::trimmed(digest::lossy(stdout@)),
                json::lenient(text::trimmed(digest::lossy(stdout@))),
            )
        } else {
            Seq::empty()
        }),
{
    broadcast use crate::json::lemma_object_view;

    let mut out: Vec<Json> = Vec::new();
    assert(out.deep_view() =~= Seq::empty());
    if !success {
        return out;
    }
    let t = digest::text_of_bytes(stdout);
    let trimmed = text::trim(t.as_str());
    if trimmed.is_empty() || text::eq(trimmed, "<no value>") {
        return out;
    }
    match json::parse_lenient(trimmed) {
        Ok(j) => match j {
            Json::Array(a) => {
                assert(a.deep_view() =~= json::elements_model(a@));
                a
            },
            Json::Object(o) => {
                let ghost m = Json::Object(o)@;
                out.push(Json::Object(o));
                assert(out.deep_view() =~= seq![m]);
                out
            },
            _ => out,
        },
        Err(_) => out,
    }
}

/// The user that an image runs as.
pub open spec fn user_in(trimmed: Seq<char>) -> Seq<char> {
    if image::says_nothing(trimmed) {
        "root"@
    } else {
        trimmed
    }
}

/// Reads the user that the base image runs as out of what the runtime printed, `root` where it printed
/// nothing.
pub fn base_image_user(success: bool, stdout: &Vec<u8>) -> (r: String)
    ensures
        r@ == (if success {
            user_in(text::trimmed(digest::lossy(stdout@)))
        } else {
            "root"@
        }),
{
    if !success {
        return "root".to_owned();
    }
    let t = digest::text_of_bytes(stdout);
    let trimmed = text::trim(t.as_str());
    if trimmed.is_empty() || text::eq(trimmed, "<no value>") {
        "root".to_owned()
    } else {
        trimmed.to_owned()
    }
}

// ----------------------------------------------------------------------------------------------
// The label
// ----------------------------------------------------------------------------------------------

/// What a config leaves in the label: nothing where that would say nothing.
pub open spec fn config_element(config: JsonModel) -> Seq<JsonModel> {
    let p = feature::properties(config, feature::config_keys());
    if p.len() == 0 {
        Seq::empty()
    } else {
        seq![JsonModel::Object(p)]
    }
}

/// The elements of the label, the later ones winning over the earlier: the base image's, the Features' in
/// the order of their installation, the config's.
pub open spec fn label_elements(base: Seq<JsonModel>, fs: Seq<ResolvedModel>, config: JsonModel) -> Seq<JsonModel> {
    base + fs.map_values(|f: ResolvedModel| f.label_snippet()) + config_element(config)
}

fn snippet_texts(features: &Vec<ResolvedFeature>) -> (r: Vec<String>)
    ensures
        r.deep_view() == features.deep_view().map_values(|f: ResolvedModel| json::compact(f.label_snippet())),
{
    let ghost all = features.deep_view().map_values(|f: ResolvedModel| json::compact(f.label_snippet()));
    let mut out: Vec<String> = Vec::new();
    let mut i: usize = 0;
    assert(out.deep_view() =~= all.subrange(0, 0));
    while i < features.len()
        invariant
            all == features.deep_view().map_values(|f: ResolvedModel| json::compact(f.label_snippet())),
            i <= features.len(),
            out.deep_view() == all.subrange(0, i as int),
        decreases features.len() - i,
    {
        let one = features[i].label_snippet();
        text::push(&mut out, one.to_text());
        assert(all.subrange(0, i + 1) =~= all.subrange(0, i as int).push(all[i as int]));
        i = i + 1;
    }
    assert(all.subrange(0, all.len() as int) =~= all);
    out
}

fn element_texts(base: &Vec<Json>) -> (r: Vec<String>)
    ensures
        r.deep_view() == base.deep_view().map_values(|e: JsonModel| json::compact(e)),
{
    let ghost all = base.deep_view().map_values(|e: JsonModel| json::compact(e));
    let mut out: Vec<String> = Vec::new();
    let mut i: usize = 0;
    assert(out.deep_view() =~= all.subrange(0, 0));
    while i < base.len()
        invariant
            all == base.deep_view().map_values(|e: JsonModel| json::compact(e)),
            i <= base.len(),
            out.deep_view() == all.subrange(0, i as int),
        decreases base.len() - i,
    {
        text::push(&mut out, base[i].to_text());
        assert(all.subrange(0, i + 1) =~= all.subrange(0, i as int).push(all[i as int]));
        i = i + 1;
    }
    assert(all.subrange(0, all.len() as int) =~= all);
    out
}

/// Assembles the `devcontainer.metadata` label.
pub fn compose_label(base: &Vec<Json>, features: &Vec<ResolvedFeature>, config: &Json) -> (r: String)
    ensures
        r@ == json::spaced(label_elements(base.deep_view(), features.deep_view(), config@)),
{
    broadcast use crate::json::lemma_object_view;

    let ghost b = base.deep_view();
    let ghost fs = features.deep_view();
    let mut parts = element_texts(base);
    let more = snippet_texts(features);
    push_texts(&mut parts, &more);
    let own = feature::config_label_snippet(config);
    let ghost p = feature::properties(config@, feature::config_keys());
    match &own {
        Json::Object(o) => {
            assert(json::members_model(o@).len() == p.len());
            if o.len() > 0 {
                text::push(&mut parts, own.to_text());
            }
        },
        _ => {},
    }
    let ghost whole = label_elements(b, fs, config@);
    assert(parts.deep_view() =~= whole.map_values(|e: JsonModel| json::compact(e)));
    let body = text::join(&parts, ", ");
    text::cat3("[ ", body.as_str(), " ]")
}

/// The label begins with everything that the base image's label held, in its order.
pub proof fn law_the_base_label_is_kept(base: Seq<JsonModel>, fs: Seq<ResolvedModel>, config: JsonModel)
    ensures
        label_elements(base, fs, config).len() >= base.len() + fs.len(),
        label_elements(base, fs, config).subrange(0, base.len() as int) == base,
        forall|i: int|
            0 <= i < fs.len() ==> label_elements(base, fs, config)[base.len() + i] == (
            #[trigger] fs[i]).label_snippet(),
{
    assert(label_elements(base, fs, config).subrange(0, base.len() as int) =~= base);
}

/// What is read of a composed label is what the base image said, then what each Feature says, then what the
/// config says.
pub proof fn law_the_label_is_read_as_composed(base: Seq<JsonModel>, fs: Seq<ResolvedModel>, config: JsonModel)
    requires
        snippet::snippet_list(base) is Some,
        forall|i: int| 0 <= i < fs.len() ==> snippet::snippet_of((#[trigger] fs[i]).label_snippet()) is Some,
        snippet::snippet_list(config_element(config)) is Some,
    ensures
        snippet::read_back(label_elements(base, fs, config)) == Ok::<Seq<SnippetModel>, AmErrorModel>(
            snippet::snippet_list(base)->0 + fs.map_values(
                |f: ResolvedModel| snippet::snippet_of(f.label_snippet())->0,
            ) + snippet::snippet_list(config_element(config))->0,
        ),
{
    let all = label_elements(base, fs, config);
    let own = config_element(config);
    let (b, f) = (base.len() as int, fs.len() as int);
    assert forall|i: int| 0 <= i < all.len() implies snippet::snippet_of(#[trigger] all[i]) is Some by {
        if i < b {
            assert(all[i] == base[i]);
        } else if i < b + f {
            assert(all[i] == fs[i - b].label_snippet());
        } else {
            assert(all[i] == own[i - b - f]);
        }
    }
    assert(snippet::snippet_list(all)->0 =~= snippet::snippet_list(base)->0 + fs.map_values(
        |f: ResolvedModel| snippet::snippet_of(f.label_snippet())->0,
    ) + snippet::snippet_list(own)->0);
}

// ----------------------------------------------------------------------------------------------
// Users
// ----------------------------------------------------------------------------------------------

/// The text under a key.
pub open spec fn text_under(j: JsonModel, key: Seq<char>) -> Option<Seq<char>> {
    match j.member(key) {
        Some(v) => v.text(),
        None => None,
    }
}

/// The text under a key in the last element that has one.
pub open spec fn last_text_under(base: Seq<JsonModel>, key: Seq<char>) -> Option<Seq<char>>
    decreases base.len(),
{
    if base.len() == 0 {
        None
    } else {
        match text_under(base.last(), key) {
            Some(s) => Some(s),
            None => last_text_under(base.drop_last(), key),
        }
    }
}

/// A user property: the config's, or else the base image's.
pub open spec fn user_of(base: Seq<JsonModel>, config: JsonModel, key: Seq<char>) -> Option<Seq<char>> {
    match text_under(config, key) {
        Some(s) => Some(s),
        None => last_text_under(base, key),
    }
}

fn get_text(j: &Json, key: &str) -> (r: Option<String>)
    ensures
        r.deep_view() == text_under(j@, key@),
{
    match j.get(key) {
        Some(v) => match v.as_str() {
            Some(s) => Some(s.to_owned()),
            None => None,
        },
        None => None,
    }
}

/// Finds a user property: the config's, or else the base image's.
pub fn effective_user(base: &Vec<Json>, config: &Json, key: &str) -> (r: Option<String>)
    ensures
        r.deep_view() == user_of(base.deep_view(), config@, key@),
{
    match get_text(config, key) {
        Some(s) => {
            return Some(s);
        },
        None => {},
    }
    let ghost all = base.deep_view();
    let mut i: usize = base.len();
    assert(all.subrange(0, all.len() as int) =~= all);
    while i > 0
        invariant
            all == base.deep_view(),
            i <= base.len(),
            text_under(config@, key@) is None,
            last_text_under(all, key@) == last_text_under(all.subrange(0, i as int), key@),
        decreases i,
    {
        assert(all.subrange(0, i as int).drop_last() =~= all.subrange(0, i - 1));
        assert(all[i - 1] == base@[i - 1]@);
        match get_text(&base[i - 1], key) {
            Some(s) => {
                return Some(s);
            },
            None => {},
        }
        i = i - 1;
    }
    None
}

/// The users that a Feature is installed for: the container's, by default the image's own, and the remote
/// one, by default the container's.
pub open spec fn users_of(base: Seq<JsonModel>, config: JsonModel, image_user: Seq<char>) -> (Seq<char>, Seq<char>) {
    let container = match user_of(base, config, "containerUser"@) {
        Some(u) => u,
        None => image_user,
    };
    let remote = match user_of(base, config, "remoteUser"@) {
        Some(u) => u,
        None => container,
    };
    (container, remote)
}

/// Finds the users that Features are installed for.
pub fn install_users(base: &Vec<Json>, config: &Json, image_user: &str) -> (r: (String, String))
    ensures
        (r.0@, r.1@) == users_of(base.deep_view(), config@, image_user@),
{
    let container = match effective_user(base, config, "containerUser") {
        Some(u) => u,
        None => image_user.to_owned(),
    };
    let remote = match effective_user(base, config, "remoteUser") {
        Some(u) => u,
        None => container.clone(),
    };
    (container, remote)
}

// ----------------------------------------------------------------------------------------------
// The build
// ----------------------------------------------------------------------------------------------

/// Makes the command line, without the runtime, that installs the Features.
pub fn feature_build_args(
    base: &str,
    image_user: &str,
    dockerfile: &str,
    image: &str,
    no_cache: bool,
    context: &str,
) -> (r: Vec<String>)
    ensures
        r.deep_view() == install_args(base@, image_user@, dockerfile@, image@, no_cache, context@),
{
    let mut out: Vec<String> = Vec::new();
    text::push_str(&mut out, "build");
    text::push_str(&mut out, "--build-arg");
    text::push(&mut out, text::cat2("_DEV_CONTAINERS_BASE_IMAGE=", base));
    text::push_str(&mut out, "--build-arg");
    text::push(&mut out, text::cat2("_DEV_CONTAINERS_IMAGE_USER=", image_user));
    text::push_str(&mut out, "--target");
    text::push_str(&mut out, "dev_containers_target_stage");
    text::push_str(&mut out, "-f");
    text::push_str(&mut out, dockerfile);
    text::push_str(&mut out, "-t");
    text::push_str(&mut out, image);
    let ghost head = out.deep_view();
    push_no_cache(&mut out, no_cache);
    text::push_str(&mut out, context);
    assert(head =~= seq![
        "build"@,
        "--build-arg"@,
        "_DEV_CONTAINERS_BASE_IMAGE="@ + base@,
        "--build-arg"@,
        "_DEV_CONTAINERS_IMAGE_USER="@ + image_user@,
        "--target"@,
        "dev_containers_target_stage"@,
        "-f"@,
        dockerfile@,
        "-t"@,
        image@,
    ]);
    assert(out.deep_view() =~= install_args(base@, image_user@, dockerfile@, image@, no_cache, context@));
    out
}

/// A name as a directory in the staging area.
pub open spec fn staging_name(image: Seq<char>) -> Seq<char> {
    image.map_values(
        |c: char|
            if text::alphanumeric(c) || c == '-' {
                c
            } else {
                '_'
            },
    )
}

/// The staging area of an image: beside the cache.
pub open spec fn staging_of(cache_root: Seq<char>, image: Seq<char>) -> Seq<char> {
    path::joined(
        match path::parent(cache_root) {
            Some(p) => path::joined(p, "build"@),
            None => ".am-build"@,
        },
        staging_name(image),
    )
}

/// Says where the files of a build are staged.
pub fn staging_dir(cache_root: &str, image: &str) -> (r: String)
    ensures
        r@ == staging_of(cache_root@, image@),
{
    let cs = text::chars(image);
    let mut out: Vec<char> = Vec::new();
    let mut i: usize = 0;
    while i < cs.len()
        invariant
            i <= cs.len(),
            out@ == staging_name(cs@.subrange(0, i as int)),
        decreases cs.len() - i,
    {
        let c = cs[i];
        if text::is_alphanumeric(c) || c == '-' {
            out.push(c);
        } else {
            out.push('_');
        }
        i = i + 1;
        assert(out@ =~= staging_name(cs@.subrange(0, i as int)));
    }
    assert(cs@.subrange(0, cs@.len() as int) =~= cs@);
    let name = text::from_chars(&out);
    let base = match path::parent_of(cache_root) {
        Some(p) => path::join(p, "build"),
        None => ".am-build".to_owned(),
    };
    path::join(base.as_str(), name.as_str())
}

/// The contents of Features by the ids that they were written as.
pub open spec fn contents_of(nodes: Seq<(ResolvedModel, ContentModel)>) -> Seq<(Seq<char>, ContentModel)> {
    decode::collected(nodes.map_values(|n: (ResolvedModel, ContentModel)| (n.0.reference.raw, n.1)))
}

/// Collects the contents of Features by their ids, before they are put in order.
pub fn contents_by_id(nodes: &Vec<(ResolvedFeature, Content)>) -> (r: StrMap<Content>)
    ensures
        r.deep_view() == contents_of(nodes.deep_view()),
{
    let ghost t = nodes.deep_view().map_values(|n: (ResolvedModel, ContentModel)| (n.0.reference.raw, n.1));
    let mut out: StrMap<Content> = StrMap::new();
    let mut i: usize = 0;
    assert(t.subrange(0, 0) =~= Seq::empty());
    while i < nodes.len()
        invariant
            t == nodes.deep_view().map_values(|n: (ResolvedModel, ContentModel)| (n.0.reference.raw, n.1)),
            i <= nodes.len(),
            out.deep_view() == decode::collected(t.subrange(0, i as int)),
        decreases nodes.len() - i,
    {
        assert(t.subrange(0, i + 1).drop_last() =~= t.subrange(0, i as int));
        assert(nodes.deep_view()[i as int] == nodes@[i as int].deep_view());
        out.insert(nodes[i].0.reference.raw.clone(), nodes[i].1.duplicate());
        i = i + 1;
    }
    assert(t.subrange(0, t.len() as int) =~= t);
    out
}

/// Finds the content of a Feature.
pub fn content_for<'a>(contents: &'a StrMap<Content>, f: &ResolvedFeature) -> (r: Result<&'a Content, AmError>)
    ensures
        crate::error::outcome(r) == (match strmap::get(contents.deep_view(), f.reference.raw@) {
            Some(c) => Ok::<ContentModel, AmErrorModel>(c),
            None => Err(AmErrorModel::DevcontainerBuildFailed("lost the content for "@ + f.reference.raw@)),
        }),
{
    match contents.get(f.reference.raw.as_str()) {
        Some(c) => Ok(c),
        None => Err(
            AmError::DevcontainerBuildFailed(text::cat2("lost the content for ", f.reference.raw.as_str())),
        ),
    }
}

proof fn lemma_collected_has(t: Seq<(Seq<char>, ContentModel)>, i: int)
    requires
        0 <= i < t.len(),
    ensures
        strmap::get(decode::collected(t), t[i].0) is Some,
        strmap::sorted(decode::collected(t)),
    decreases t.len(),
{
    let r = t.drop_last();
    lemma_collected_in_order(r);
    strmap::lemma_insert_sorted(decode::collected(r), t.last().0, t.last().1);
    strmap::lemma_get_after_insert(decode::collected(r), t.last().0, t.last().1, t[i].0);
    if i < t.len() - 1 {
        lemma_collected_has(r, i);
        assert(r[i] == t[i]);
    }
}

proof fn lemma_collected_in_order(t: Seq<(Seq<char>, ContentModel)>)
    ensures
        strmap::sorted(decode::collected(t)),
    decreases t.len(),
{
    if t.len() > 0 {
        lemma_collected_in_order(t.drop_last());
        strmap::lemma_insert_sorted(decode::collected(t.drop_last()), t.last().0, t.last().1);
    }
}

/// Putting Features in order loses the content of none.
pub proof fn law_no_content_is_lost(
    nodes: Seq<(ResolvedModel, ContentModel)>,
    order: Seq<Seq<char>>,
    i: int,
)
    requires
        super::order::installed(features_of(nodes), order) is Ok,
        0 <= i < super::order::installed(
            features_of(nodes),
            order,
        )->Ok_0.len(),
    ensures
        strmap::get(
            contents_of(nodes),
            super::order::installed(
                features_of(nodes),
                order,
            )->Ok_0[i].reference.raw,
        ) is Some,
{
    broadcast use vstd::seq_lib::group_to_multiset_ensures;

    let fs = features_of(nodes);
    let out = super::order::installed(fs, order)->Ok_0;
    super::order::laws::law_nothing_is_lost(fs, order);
    assert(out.contains(out[i]));
    assert(fs.to_multiset().count(out[i]) > 0);
    assert(fs.contains(out[i]));
    let k = choose|k: int| 0 <= k < fs.len() && fs[k] == out[i];
    let t = nodes.map_values(|n: (ResolvedModel, ContentModel)| (n.0.reference.raw, n.1));
    assert(t[k].0 == out[i].reference.raw);
    lemma_collected_has(t, k);
}

// ----------------------------------------------------------------------------------------------
// The whole build
// ----------------------------------------------------------------------------------------------

/// Features in order, with their contents.
#[derive(Debug, PartialEq)]
pub struct Arrangement {
    /// The Features in the order of their installation.
    pub features: Vec<ResolvedFeature>,
    /// Their contents, by the ids that they were written as.
    pub contents: StrMap<Content>,
}

/// What an [`Arrangement`] stands for.
pub struct ArrangementModel {
    pub features: Seq<ResolvedModel>,
    pub contents: Seq<(Seq<char>, ContentModel)>,
}

impl DeepView for Arrangement {
    type V = ArrangementModel;

    open spec fn deep_view(&self) -> ArrangementModel {
        ArrangementModel { features: self.features.deep_view(), contents: self.contents.deep_view() }
    }
}

/// The Features without their contents.
pub open spec fn features_of(nodes: Seq<(ResolvedModel, ContentModel)>) -> Seq<ResolvedModel> {
    nodes.map_values(|n: (ResolvedModel, ContentModel)| n.0)
}

/// Features in the order that a config leads to.
pub open spec fn arranged(raw: JsonModel, nodes: Seq<(ResolvedModel, ContentModel)>) -> Result<
    ArrangementModel,
    AmErrorModel,
> {
    match super::order::installed(features_of(nodes), asked_order(raw)) {
        Ok(features) => Ok(ArrangementModel { features, contents: contents_of(nodes) }),
        Err(e) => Err(e),
    }
}

fn features_in(nodes: &Vec<(ResolvedFeature, Content)>) -> (r: Vec<ResolvedFeature>)
    ensures
        r.deep_view() == features_of(nodes.deep_view()),
{
    let ghost all = features_of(nodes.deep_view());
    let mut out: Vec<ResolvedFeature> = Vec::new();
    let mut i: usize = 0;
    assert(out.deep_view() =~= all.subrange(0, 0));
    while i < nodes.len()
        invariant
            all == features_of(nodes.deep_view()),
            i <= nodes.len(),
            out.deep_view() == all.subrange(0, i as int),
        decreases nodes.len() - i,
    {
        assert(nodes.deep_view()[i as int] == nodes@[i as int].deep_view());
        let ghost before = out.deep_view();
        out.push(nodes[i].0.duplicate());
        assert(out.deep_view() =~= before.push(all[i as int]));
        assert(all.subrange(0, i + 1) =~= all.subrange(0, i as int).push(all[i as int]));
        i = i + 1;
    }
    assert(all.subrange(0, all.len() as int) =~= all);
    out
}

/// What to warn of before Features are put in order: entries of the order that name none of them.
pub fn arrangement_note(raw: &Json, nodes: &Vec<(ResolvedFeature, Content)>) -> (r: Option<String>)
    ensures
        r.deep_view() == ({
            let fs = features_of(nodes.deep_view());
            let unmatched = asked_order(raw@).filter(|e: Seq<char>| !super::order::names_any(e, fs));
            if unmatched.len() == 0 {
                None
            } else {
                Some(
                    "overrideFeatureInstallOrder names "@ + text::joined(unmatched, ", "@)
                        + " which no Feature in this config matches — the entry has no effect. Installed: "@
                        + text::joined(fs.map_values(|f: ResolvedModel| f.reference.untagged()), ", "@),
                )
            }
        }),
{
    let order = override_install_order(raw);
    let features = features_in(nodes);
    let unmatched = super::order::unmatched_override_entries(&features, &order);
    assert(unmatched.deep_view().len() == unmatched@.len());
    if unmatched.len() == 0 {
        None
    } else {
        Some(override_note(&unmatched, &features))
    }
}

/// Puts Features in order, and keeps their contents at hand.
pub fn arrange(raw: &Json, nodes: &Vec<(ResolvedFeature, Content)>) -> (r: Result<Arrangement, AmError>)
    ensures
        crate::error::outcome(r) == arranged(raw@, nodes.deep_view()),
{
    let order = override_install_order(raw);
    let contents = contents_by_id(nodes);
    match super::order::install_order(features_in(nodes), &order) {
        Ok(features) => Ok(Arrangement { features, contents }),
        Err(e) => Err(e),
    }
}

/// Everything that installing Features takes.
#[derive(Debug, PartialEq)]
pub struct Installation {
    /// The directory to stage the build in.
    pub staging: String,
    /// The build context, in the staging directory.
    pub context: String,
    /// The files to write into the build context, beside the Features' own.
    pub files: Vec<(String, String)>,
    /// Where the Dockerfile goes: beside the context, so that it is not copied into the image.
    pub dockerfile_path: String,
    pub dockerfile: String,
    /// The command line, without the runtime.
    pub args: Vec<String>,
}

/// What an [`Installation`] stands for.
pub struct InstallationModel {
    pub staging: Seq<char>,
    pub context: Seq<char>,
    pub files: Seq<(Seq<char>, Seq<char>)>,
    pub dockerfile_path: Seq<char>,
    pub dockerfile: Seq<char>,
    pub args: Seq<Seq<char>>,
}

impl DeepView for Installation {
    type V = InstallationModel;

    open spec fn deep_view(&self) -> InstallationModel {
        InstallationModel {
            staging: self.staging@,
            context: self.context@,
            files: self.files.deep_view(),
            dockerfile_path: self.dockerfile_path@,
            dockerfile: self.dockerfile@,
            args: self.args.deep_view(),
        }
    }
}

/// The command line that installs Features.
pub open spec fn install_args(
    base: Seq<char>,
    image_user: Seq<char>,
    dockerfile: Seq<char>,
    image: Seq<char>,
    no_cache: bool,
    context: Seq<char>,
) -> Seq<Seq<char>> {
    seq![
        "build"@,
        "--build-arg"@,
        "_DEV_CONTAINERS_BASE_IMAGE="@ + base,
        "--build-arg"@,
        "_DEV_CONTAINERS_IMAGE_USER="@ + image_user,
        "--target"@,
        "dev_containers_target_stage"@,
        "-f"@,
        dockerfile,
        "-t"@,
        image,
    ] + no_cache_flag(no_cache) + seq![context]
}

/// Everything that installing Features on a base image takes.
pub open spec fn installation_of(
    image: Seq<char>,
    no_cache: bool,
    raw: JsonModel,
    features: Seq<ResolvedModel>,
    base: Seq<char>,
    base_elements: Seq<JsonModel>,
    image_user: Seq<char>,
    cache_root: Seq<char>,
) -> InstallationModel {
    let users = users_of(base_elements, raw, image_user);
    let label = json::spaced(label_elements(base_elements, features, raw));
    let staging = staging_of(cache_root, image);
    let context = path::joined(staging, "context"@);
    let dockerfile_path = path::joined(staging, "Dockerfile"@);
    InstallationModel {
        staging,
        context,
        files: dockerfile::files_of(features, users.0, users.1),
        dockerfile_path,
        dockerfile: dockerfile::dockerfile_of(features, label, users.0, users.1),
        args: install_args(base, image_user, dockerfile_path, image, no_cache, context),
    }
}

/// Prepares the installation of Features on a base image: `base_elements` and `image_user` are the base
/// image's label and user.
pub fn prepare(
    req: &BuildRequest,
    raw: &Json,
    features: &Vec<ResolvedFeature>,
    base: &str,
    base_elements: &Vec<Json>,
    image_user: &str,
    cache_root: &str,
) -> (r: Installation)
    ensures
        r.deep_view() == installation_of(
            req.image@,
            req.no_cache,
            raw@,
            features.deep_view(),
            base@,
            base_elements.deep_view(),
            image_user@,
            cache_root@,
        ),
{
    let (container_user, remote_user) = install_users(base_elements, raw, image_user);
    let label = compose_label(base_elements, features, raw);
    let staging = staging_dir(cache_root, req.image);
    let context = path::join(staging.as_str(), "context");
    let dockerfile_path = path::join(staging.as_str(), "Dockerfile");
    let files = dockerfile::context_files(features, container_user.as_str(), remote_user.as_str());
    let text = dockerfile::render(features, label.as_str(), container_user.as_str(), remote_user.as_str());
    let args = feature_build_args(
        base,
        image_user,
        dockerfile_path.as_str(),
        req.image,
        req.no_cache,
        context.as_str(),
    );
    Installation { staging, context, files, dockerfile_path, dockerfile: text, args }
}

// ----------------------------------------------------------------------------------------------
// What holds of every build
// ----------------------------------------------------------------------------------------------

/// The order that a config asks for holds every text of its list, in the list's order, and nothing else.
pub proof fn law_the_order_asked_for_is_read(a: Seq<JsonModel>, k: int)
    requires
        0 <= k < a.len(),
    ensures
        a[k] matches JsonModel::Str(s) ==> {
            let n = texts_among(a.take(k)).len() as int;
            &&& n < texts_among(a).len()
            &&& texts_among(a)[n] == s
            &&& texts_among(a.take(k + 1)).len() == n + 1
        },
        a[k] !is Str ==> texts_among(a.take(k + 1)).len() == texts_among(a.take(k)).len(),
    decreases a.len(),
{
    let upto = a.take(k + 1);
    assert(upto.drop_last() =~= a.take(k));
    let front = a.drop_last();
    if k < front.len() {
        law_the_order_asked_for_is_read(front, k);
        assert(front.take(k) =~= a.take(k));
        assert(front.take(k + 1) =~= a.take(k + 1));
    } else {
        assert(a.take(k) =~= front);
        assert(a.take(k + 1) =~= a);
    }
}

/// A config is built from its image where it names one, else from its compose service, else from its
/// Dockerfile, and otherwise from nothing, which is an error.
pub proof fn law_an_image_comes_before_a_build(config_path: Seq<char>, d: DocumentModel)
    ensures
        ({
            let b = base_of(config_path, d);
            let composed = d.docker_compose_file is Some;
            let file = document::dockerfile_at(config_path, d);
            &&& d.image matches Some(i) ==> b == Ok::<BaseModel, AmErrorModel>(BaseModel::Image(i))
            &&& d.image is None && composed ==> (d.service matches Some(s) ==> b == Ok::<BaseModel, AmErrorModel>(
                BaseModel::Service(s),
            ))
            &&& d.image is None && composed && d.service is None ==> b is Err
            &&& d.image is None && !composed ==> (file matches Some(f) ==> b == Ok::<BaseModel, AmErrorModel>(
                BaseModel::Dockerfile(f),
            ))
            &&& d.image is None && !composed && file is None ==> b is Err
        }),
{
}

/// What a config's `build` asks for is asked of the runtime: each argument with its value, variables
/// replaced, the target, each cache source, and at the end its own options as they are.
pub proof fn law_the_build_section_is_passed_on(b: BuildModel, ctx: ContextModel, k: int)
    ensures
        ({
            let f = section_flags(Some(b), ctx);
            let n = b.options.len() as int;
            &&& 0 <= k < b.args.len() ==> (b.args[k].1 matches JsonModel::Str(v) ==> run_laws::has_flag(
                f,
                "--build-arg"@,
                b.args[k].0 + "="@ + ctx.substituted(v),
            ))
            &&& 0 <= k < b.args.len() && b.args[k].1 !is Str ==> run_laws::has_flag(
                f,
                "--build-arg"@,
                b.args[k].0 + "="@ + ctx.substituted(json::compact(b.args[k].1)),
            )
            &&& b.target matches Some(t) ==> run_laws::has_flag(f, "--target"@, t)
            &&& 0 <= k < b.cache_from.images().len() ==> run_laws::has_flag(
                f,
                "--cache-from"@,
                b.cache_from.images()[k],
            )
            &&& f.len() == 2 * b.args.len() + (if b.target is Some {
                2int
            } else {
                0
            }) + 2 * b.cache_from.images().len() + n
            &&& f.subrange(f.len() - n, f.len() as int) == b.options
        }),
        section_flags(None, ctx).len() == 0,
{
    let f = section_flags(Some(b), ctx);
    let a = build_arg_flags(b.args, ctx);
    let values = Seq::new(b.args.len(), |i: int| b.args[i].0 + "="@ + ctx.substituted(build_arg_text(b.args[i].1)));
    lemma_args_are_flags(b.args, ctx);
    run_laws::lemma_each_at("--build-arg"@, values);
    let t = match b.target {
        Some(t) => seq!["--target"@, t],
        None => Seq::empty(),
    };
    let c = cache_flags(b.cache_from.images());
    lemma_caches_are_flags(b.cache_from.images());
    run_laws::lemma_each_at("--cache-from"@, b.cache_from.images());
    assert(f == a + t + c + b.options);
    assert(f.subrange(f.len() - b.options.len(), f.len() as int) =~= b.options);
    assert(f.subrange(0, a.len() as int) =~= a);
    assert(f.subrange((a.len() + t.len()) as int, (a.len() + t.len()) as int + c.len()) =~= c);
    if 0 <= k < b.args.len() {
        run_laws::lemma_flag_of_flags(a, 0, "--build-arg"@, values, k);
        run_laws::lemma_flag_within(f, 0, a, "--build-arg"@, values[k]);
    }
    if b.target is Some {
        assert(f[a.len() as int] == "--target"@ && f[a.len() as int + 1] == b.target->0);
    }
    if 0 <= k < b.cache_from.images().len() {
        run_laws::lemma_flag_of_flags(c, 0, "--cache-from"@, b.cache_from.images(), k);
        run_laws::lemma_flag_within(
            f,
            (a.len() + t.len()) as int,
            c,
            "--cache-from"@,
            b.cache_from.images()[k],
        );
    }
}

proof fn lemma_args_are_flags(args: Seq<(Seq<char>, JsonModel)>, ctx: ContextModel)
    ensures
        build_arg_flags(args, ctx) == crate::container::run::each(
            "--build-arg"@,
            Seq::new(args.len(), |i: int| args[i].0 + "="@ + ctx.substituted(build_arg_text(args[i].1))),
        ),
    decreases args.len(),
{
    let v = Seq::new(args.len(), |i: int| args[i].0 + "="@ + ctx.substituted(build_arg_text(args[i].1)));
    if args.len() > 0 {
        let front = args.drop_last();
        lemma_args_are_flags(front, ctx);
        let w = Seq::new(front.len(), |i: int| front[i].0 + "="@ + ctx.substituted(build_arg_text(front[i].1)));
        assert(v.drop_last() =~= w);
    }
}

proof fn lemma_caches_are_flags(images: Seq<Seq<char>>)
    ensures
        cache_flags(images) == crate::container::run::each("--cache-from"@, images),
    decreases images.len(),
{
    if images.len() > 0 {
        lemma_caches_are_flags(images.drop_last());
    }
}

/// The directory that a Dockerfile is built in is the one the config names, below the config's own, and
/// otherwise the Dockerfile's.
pub proof fn law_the_build_directory(config_path: Seq<char>, d: DocumentModel, file: Seq<char>, worktree: Seq<char>)
    ensures
        d.build matches Some(b) ==> (b.context matches Some(c) ==> context_dir(config_path, d, file, worktree)
            == path::joined(document::config_dir(config_path), c)),
        d.build is None || d.build->0.context is None ==> (path::parent(file) matches Some(p) ==> context_dir(
            config_path,
            d,
            file,
            worktree,
        ) == p),
        (d.build is None || d.build->0.context is None) && path::parent(file) is None ==> context_dir(
            config_path,
            d,
            file,
            worktree,
        ) == worktree,
{
}

/// A compose service that has an image runs it. Otherwise it is built into the base image's name, from its
/// own Dockerfile where it names one, without the cache where that is asked for, and in its own context.
pub proof fn law_a_service_is_built_from_its_own(s: ServiceModel, image: Seq<char>, no_cache: bool)
    ensures
        s.image matches Some(i) ==> service_base_of(s, image, no_cache) == ServiceBaseModel::Image(i),
        s.image is None ==> (s.build matches Some((context, file)) ==> {
            &&& service_base_of(s, image, no_cache) is Build
            &&& ({
                let args = service_base_of(s, image, no_cache)->Build_0;
                &&& args[0] == "build"@
                &&& run_laws::has_flag(args, "-t"@, image + "-base"@)
                &&& args.last() == context
                &&& file matches Some(f) ==> run_laws::has_flag(args, "-f"@, path::joined(context, f))
                &&& no_cache ==> args.contains("--no-cache"@)
                &&& args.len() == 4 + (if file is Some {
                    2int
                } else {
                    0
                }) + (if no_cache {
                    1int
                } else {
                    0
                })
            })
        }),
{
    if s.image is None {
        match s.build {
            Some((context, file)) => {
                let args = service_base_of(s, image, no_cache)->Build_0;
                assert(args[1] == "-t"@ && args[2] == image + "-base"@);
                match file {
                    Some(f) => {
                        assert(args[3] == "-f"@ && args[4] == path::joined(context, f));
                    },
                    None => {},
                }
                if no_cache {
                    assert(args[args.len() - 2] == "--no-cache"@);
                }
            },
            None => {},
        }
    }
}

/// The installation starts from the base image and its user, builds the stage that the Dockerfile ends
/// in, and tags the image. The cache is left alone where that is asked for, and the context comes last.
pub proof fn law_the_installation_command(
    base: Seq<char>,
    image_user: Seq<char>,
    dockerfile: Seq<char>,
    image: Seq<char>,
    no_cache: bool,
    context: Seq<char>,
)
    ensures
        ({
            let args = install_args(base, image_user, dockerfile, image, no_cache, context);
            &&& args[0] == "build"@
            &&& run_laws::has_flag(args, "--build-arg"@, "_DEV_CONTAINERS_BASE_IMAGE="@ + base)
            &&& run_laws::has_flag(args, "--build-arg"@, "_DEV_CONTAINERS_IMAGE_USER="@ + image_user)
            &&& run_laws::has_flag(args, "--target"@, "dev_containers_target_stage"@)
            &&& run_laws::has_flag(args, "-f"@, dockerfile)
            &&& run_laws::has_flag(args, "-t"@, image)
            &&& no_cache ==> args.len() == 13 && args.contains("--no-cache"@)
            &&& !no_cache ==> args.len() == 12
            &&& args.last() == context
        }),
{
    let args = install_args(base, image_user, dockerfile, image, no_cache, context);
    assert(args[1] == "--build-arg"@ && args[2] == "_DEV_CONTAINERS_BASE_IMAGE="@ + base);
    assert(args[3] == "--build-arg"@ && args[4] == "_DEV_CONTAINERS_IMAGE_USER="@ + image_user);
    assert(args[5] == "--target"@ && args[6] == "dev_containers_target_stage"@);
    assert(args[7] == "-f"@ && args[8] == dockerfile);
    assert(args[9] == "-t"@ && args[10] == image);
    if no_cache {
        assert(args[11] == "--no-cache"@);
    }
}

/// Whether the element at `k` is the last to give a text under a key.
pub open spec fn last_to_say(base: Seq<JsonModel>, k: int, key: Seq<char>, s: Seq<char>) -> bool {
    &&& 0 <= k < base.len()
    &&& base[k].member(key) == Some(JsonModel::Str(s))
    &&& forall|j: int| k < j < base.len() ==> !says(#[trigger] base[j], key)
}

/// Whether an element gives a text under a key.
pub open spec fn says(j: JsonModel, key: Seq<char>) -> bool {
    j.member(key) matches Some(JsonModel::Str(_))
}

/// A user that the config names is the one that is used. Otherwise it is the one that the base image's
/// label named last, and otherwise there is none.
pub proof fn law_the_config_names_the_user(
    base: Seq<JsonModel>,
    config: JsonModel,
    key: Seq<char>,
    k: int,
    s: Seq<char>,
)
    ensures
        config.member(key) matches Some(JsonModel::Str(u)) ==> user_of(base, config, key) == Some(u),
        !says(config, key) && last_to_say(base, k, key, s) ==> user_of(base, config, key) == Some(s),
        !says(config, key) && (forall|j: int| 0 <= j < base.len() ==> !says(#[trigger] base[j], key)) ==> user_of(
            base,
            config,
            key,
        ) is None,
{
    lemma_last_text(base, key, k, s);
}

proof fn lemma_last_text(base: Seq<JsonModel>, key: Seq<char>, k: int, s: Seq<char>)
    ensures
        last_to_say(base, k, key, s) ==> last_text_under(base, key) == Some(s),
        (forall|j: int| 0 <= j < base.len() ==> !says(#[trigger] base[j], key)) ==> last_text_under(base, key) is None,
    decreases base.len(),
{
    if base.len() > 0 {
        let front = base.drop_last();
        let last = base.len() - 1;
        lemma_last_text(front, key, k, s);
        assert(base[last] == base.last());
        assert(forall|j: int| 0 <= j < front.len() ==> #[trigger] front[j] == base[j]);
        if last_to_say(base, k, key, s) && k < last {
            assert(!says(base[last], key));
            assert(front[k] == base[k]);
            assert forall|j: int| k < j < front.len() implies !says(#[trigger] front[j], key) by {
                assert(!says(base[j], key));
            }
        }
        if forall|j: int| 0 <= j < base.len() ==> !says(#[trigger] base[j], key) {
            assert(!says(base[last], key));
            assert forall|j: int| 0 <= j < front.len() implies !says(#[trigger] front[j], key) by {
                assert(!says(base[j], key));
            }
        }
    }
}

/// Features are installed for the container's user, by default the image's own, and for the remote user,
/// by default the container's.
pub proof fn law_features_are_installed_for_both_users(base: Seq<JsonModel>, config: JsonModel, image_user: Seq<char>)
    ensures
        ({
            let (container, remote) = users_of(base, config, image_user);
            &&& user_of(base, config, "containerUser"@) matches Some(u) ==> container == u
            &&& user_of(base, config, "containerUser"@) is None ==> container == image_user
            &&& user_of(base, config, "remoteUser"@) matches Some(u) ==> remote == u
            &&& user_of(base, config, "remoteUser"@) is None ==> remote == container
        }),
{
}

/// An installation hangs together: the command line builds the Dockerfile that is written, in the context
/// that is staged, and both are made for the same Features and the same users.
pub proof fn law_an_installation_hangs_together(
    image: Seq<char>,
    no_cache: bool,
    raw: JsonModel,
    features: Seq<ResolvedModel>,
    base: Seq<char>,
    base_elements: Seq<JsonModel>,
    image_user: Seq<char>,
    cache_root: Seq<char>,
)
    ensures
        ({
            let i = installation_of(image, no_cache, raw, features, base, base_elements, image_user, cache_root);
            let (container, remote) = users_of(base_elements, raw, image_user);
            &&& run_laws::has_flag(i.args, "-f"@, i.dockerfile_path)
            &&& run_laws::has_flag(i.args, "-t"@, image)
            &&& run_laws::has_flag(i.args, "--build-arg"@, "_DEV_CONTAINERS_BASE_IMAGE="@ + base)
            &&& run_laws::has_flag(i.args, "--build-arg"@, "_DEV_CONTAINERS_IMAGE_USER="@ + image_user)
            &&& i.args.last() == i.context
            &&& i.context == path::joined(i.staging, "context"@)
            &&& i.dockerfile_path == path::joined(i.staging, "Dockerfile"@)
            &&& i.files == dockerfile::files_of(features, container, remote)
            &&& text::has_suffix(
                i.dockerfile,
                "LABEL devcontainer.metadata=\""@ + dockerfile::labelled(
                    json::spaced(label_elements(base_elements, features, raw)),
                ) + "\"\n"@,
            )
        }),
{
    let i = installation_of(image, no_cache, raw, features, base, base_elements, image_user, cache_root);
    let users = users_of(base_elements, raw, image_user);
    let label = json::spaced(label_elements(base_elements, features, raw));
    law_the_installation_command(base, image_user, i.dockerfile_path, image, no_cache, i.context);
    dockerfile::laws::law_the_image_carries_the_label(features, label, users.0, users.1);
    let l = dockerfile::labelled(label);
    let user = "USER $_DEV_CONTAINERS_IMAGE_USER\n\n"@;
    let start = "LABEL devcontainer.metadata=\""@;
    reveal_strlit("USER $_DEV_CONTAINERS_IMAGE_USER\n\nLABEL devcontainer.metadata=\"");
    reveal_strlit("USER $_DEV_CONTAINERS_IMAGE_USER\n\n");
    reveal_strlit("LABEL devcontainer.metadata=\"");
    assert("USER $_DEV_CONTAINERS_IMAGE_USER\n\nLABEL devcontainer.metadata=\""@ =~= user + start);
    let long = "USER $_DEV_CONTAINERS_IMAGE_USER\n\nLABEL devcontainer.metadata=\""@ + l + "\"\n"@;
    let short = start + l + "\"\n"@;
    assert(long =~= user + short);
    let d = i.dockerfile;
    assert(d.subrange(d.len() - short.len(), d.len() as int) =~= long.subrange(user.len() as int, long.len() as int));
    assert(long.subrange(user.len() as int, long.len() as int) =~= short);
}

/// The config has the last word in the label, where it says anything.
pub proof fn law_the_config_comes_last_in_the_label(base: Seq<JsonModel>, fs: Seq<ResolvedModel>, config: JsonModel)
    ensures
        ({
            let p = feature::properties(config, feature::config_keys());
            let e = label_elements(base, fs, config);
            &&& p.len() > 0 ==> e.len() == base.len() + fs.len() + 1 && e.last() == JsonModel::Object(p)
            &&& p.len() == 0 ==> e.len() == base.len() + fs.len()
        }),
{
}

/// The staging directory is named after the image, so that what no directory's name should hold becomes an
/// underscore.
pub proof fn law_staging_is_named_after_the_image(cache_root: Seq<char>, image: Seq<char>, i: int)
    requires
        0 <= i < image.len(),
    ensures
        staging_name(image).len() == image.len(),
        text::alphanumeric(image[i]) || image[i] == '-' ==> staging_name(image)[i] == image[i],
        !(text::alphanumeric(image[i]) || image[i] == '-') ==> staging_name(image)[i] == '_',
        path::parent(cache_root) matches Some(p) ==> staging_of(cache_root, image) == path::joined(
            path::joined(p, "build"@),
            staging_name(image),
        ),
{
}

} // verus!
