//! `devcontainer.json`: the properties that the image label does not carry.

use vstd::prelude::*;

use crate::decode;
use crate::devcontainer::lifecycle::{self, LifecycleCommand, LifecycleCommandModel};
use crate::duplicate::Duplicate;
use crate::error::{AmError, AmErrorModel};
use crate::json::{self, Json, JsonModel};
use crate::path;
use crate::strmap::StrMap;
use crate::text;

verus! {

/// `dockerComposeFile`: one file, or several.
#[derive(Debug, PartialEq)]
pub enum ComposeFile {
    One(String),
    Many(Vec<String>),
}

/// `cacheFrom`: nothing, one image, or several.
#[derive(Debug, PartialEq)]
pub enum CacheFrom {
    Nothing,
    One(String),
    Many(Vec<String>),
}

#[derive(Debug, PartialEq)]
pub struct BuildSection {
    pub dockerfile: Option<String>,
    /// Build context, relative to the config file.
    pub context: Option<String>,
    pub args: StrMap<Json>,
    pub target: Option<String>,
    /// Extra flags for the build command.
    pub options: Vec<String>,
    /// Images to consider as cache sources.
    pub cache_from: CacheFrom,
}

/// The part of a `devcontainer.json` that does not survive into the image label.
#[derive(Debug, PartialEq)]
pub struct DevcontainerJson {
    pub name: Option<String>,
    pub run_args: Vec<String>,
    pub workspace_folder: Option<String>,
    pub workspace_mount: Option<String>,
    pub initialize_command: Option<LifecycleCommand>,
    pub docker_compose_file: Option<ComposeFile>,
    /// The compose service the agent runs in.
    pub service: Option<String>,
    pub image: Option<String>,
    pub build: Option<BuildSection>,
}

/// What a [`ComposeFile`] stands for.
pub enum ComposeFileModel {
    One(Seq<char>),
    Many(Seq<Seq<char>>),
}

/// What a [`CacheFrom`] stands for.
pub enum CacheFromModel {
    Nothing,
    One(Seq<char>),
    Many(Seq<Seq<char>>),
}

/// What a [`BuildSection`] stands for.
pub struct BuildModel {
    pub dockerfile: Option<Seq<char>>,
    pub context: Option<Seq<char>>,
    pub args: Seq<(Seq<char>, JsonModel)>,
    pub target: Option<Seq<char>>,
    pub options: Seq<Seq<char>>,
    pub cache_from: CacheFromModel,
}

/// What a [`DevcontainerJson`] stands for.
pub struct DocumentModel {
    pub name: Option<Seq<char>>,
    pub run_args: Seq<Seq<char>>,
    pub workspace_folder: Option<Seq<char>>,
    pub workspace_mount: Option<Seq<char>>,
    pub initialize_command: Option<LifecycleCommandModel>,
    pub docker_compose_file: Option<ComposeFileModel>,
    pub service: Option<Seq<char>>,
    pub image: Option<Seq<char>>,
    pub build: Option<BuildModel>,
}

impl DeepView for ComposeFile {
    type V = ComposeFileModel;

    open spec fn deep_view(&self) -> ComposeFileModel {
        match self {
            ComposeFile::One(s) => ComposeFileModel::One(s@),
            ComposeFile::Many(v) => ComposeFileModel::Many(v.deep_view()),
        }
    }
}

impl DeepView for CacheFrom {
    type V = CacheFromModel;

    open spec fn deep_view(&self) -> CacheFromModel {
        match self {
            CacheFrom::Nothing => CacheFromModel::Nothing,
            CacheFrom::One(s) => CacheFromModel::One(s@),
            CacheFrom::Many(v) => CacheFromModel::Many(v.deep_view()),
        }
    }
}

impl DeepView for BuildSection {
    type V = BuildModel;

    open spec fn deep_view(&self) -> BuildModel {
        BuildModel {
            dockerfile: self.dockerfile.deep_view(),
            context: self.context.deep_view(),
            args: self.args.deep_view(),
            target: self.target.deep_view(),
            options: self.options.deep_view(),
            cache_from: self.cache_from.deep_view(),
        }
    }
}

impl DeepView for DevcontainerJson {
    type V = DocumentModel;

    open spec fn deep_view(&self) -> DocumentModel {
        DocumentModel {
            name: self.name.deep_view(),
            run_args: self.run_args.deep_view(),
            workspace_folder: self.workspace_folder.deep_view(),
            workspace_mount: self.workspace_mount.deep_view(),
            initialize_command: self.initialize_command.deep_view(),
            docker_compose_file: self.docker_compose_file.deep_view(),
            service: self.service.deep_view(),
            image: self.image.deep_view(),
            build: self.build.deep_view(),
        }
    }
}

impl Default for DevcontainerJson {
    /// A document that sets nothing.
    fn default() -> (r: Self)
        ensures
            r.deep_view() == empty_document(),
    {
        let r = DevcontainerJson {
            name: None,
            run_args: Vec::new(),
            workspace_folder: None,
            workspace_mount: None,
            initialize_command: None,
            docker_compose_file: None,
            service: None,
            image: None,
            build: None,
        };
        assert(r.run_args.deep_view() =~= Seq::<Seq<char>>::empty());
        r
    }
}

/// The document that sets nothing.
pub open spec fn empty_document() -> DocumentModel {
    DocumentModel {
        name: None,
        run_args: Seq::empty(),
        workspace_folder: None,
        workspace_mount: None,
        initialize_command: None,
        docker_compose_file: None,
        service: None,
        image: None,
        build: None,
    }
}

impl CacheFromModel {
    pub open spec fn images(self) -> Seq<Seq<char>> {
        match self {
            CacheFromModel::Nothing => Seq::empty(),
            CacheFromModel::One(s) => seq![s],
            CacheFromModel::Many(v) => v,
        }
    }
}

impl CacheFrom {
    /// The images named.
    pub fn images(&self) -> (r: Vec<String>)
        ensures
            r.deep_view() == self.deep_view().images(),
    {
        match self {
            CacheFrom::Nothing => {
                let v: Vec<String> = Vec::new();
                assert(v.deep_view() =~= Seq::<Seq<char>>::empty());
                v
            },
            CacheFrom::One(s) => {
                let mut v: Vec<String> = Vec::new();
                v.push(s.clone());
                assert(v.deep_view() =~= seq![s@]);
                v
            },
            CacheFrom::Many(v) => v.duplicate(),
        }
    }
}

// ----------------------------------------------------------------------------------------------
// Reading
// ----------------------------------------------------------------------------------------------

pub open spec fn compose_file_of(j: Option<JsonModel>) -> Option<Option<ComposeFileModel>> {
    match j {
        None => Some(None),
        Some(JsonModel::Null) => Some(None),
        Some(JsonModel::Str(s)) => Some(Some(ComposeFileModel::One(s))),
        Some(JsonModel::Array(a)) => match decode::text_list(a) {
            Some(t) => Some(Some(ComposeFileModel::Many(t))),
            None => None,
        },
        _ => None,
    }
}

pub open spec fn cache_from_of(j: Option<JsonModel>) -> Option<CacheFromModel> {
    match j {
        None => Some(CacheFromModel::Nothing),
        Some(JsonModel::Null) => Some(CacheFromModel::Nothing),
        Some(JsonModel::Str(s)) => Some(CacheFromModel::One(s)),
        Some(JsonModel::Array(a)) => match decode::text_list(a) {
            Some(t) => Some(CacheFromModel::Many(t)),
            None => None,
        },
        _ => None,
    }
}

/// The fields of a build section.
pub open spec fn build_fields() -> Seq<Seq<char>> {
    seq!["dockerfile"@, "context"@, "args"@, "target"@, "options"@, "cacheFrom"@]
}

pub open spec fn build_section_of(j: JsonModel) -> Option<BuildModel> {
    let j = decode::named(j, build_fields(), 4);
    let dockerfile = decode::opt_text_of(j.member("dockerfile"@));
    let context = decode::opt_text_of(j.member("context"@));
    let args = decode::value_map_of(j.member("args"@));
    let target = decode::opt_text_of(j.member("target"@));
    let options = decode::texts_of(j.member("options"@));
    let cache_from = cache_from_of(j.member("cacheFrom"@));
    if j is Object && dockerfile is Some && context is Some && args is Some && target is Some && options is Some
        && cache_from is Some {
        Some(
            BuildModel {
                dockerfile: dockerfile->0,
                context: context->0,
                args: args->0,
                target: target->0,
                options: options->0,
                cache_from: cache_from->0,
            },
        )
    } else {
        None
    }
}

pub open spec fn build_of(j: Option<JsonModel>) -> Option<Option<BuildModel>> {
    match j {
        None => Some(None),
        Some(JsonModel::Null) => Some(None),
        Some(v) => match build_section_of(v) {
            Some(b) => Some(Some(b)),
            None => None,
        },
    }
}

/// The fields of a document.
pub open spec fn document_fields() -> Seq<Seq<char>> {
    seq![
        "name"@,
        "runArgs"@,
        "workspaceFolder"@,
        "workspaceMount"@,
        "initializeCommand"@,
        "dockerComposeFile"@,
        "service"@,
        "image"@,
        "build"@,
    ]
}

/// The document that JSON spells.
pub open spec fn document_of(j: JsonModel) -> Option<DocumentModel> {
    let j = decode::named(j, document_fields(), 9);
    let name = decode::opt_text_of(j.member("name"@));
    let run_args = decode::texts_of(j.member("runArgs"@));
    let workspace_folder = decode::opt_text_of(j.member("workspaceFolder"@));
    let workspace_mount = decode::opt_text_of(j.member("workspaceMount"@));
    let initialize_command = lifecycle::hook_of(j.member("initializeCommand"@));
    let docker_compose_file = compose_file_of(j.member("dockerComposeFile"@));
    let service = decode::opt_text_of(j.member("service"@));
    let image = decode::opt_text_of(j.member("image"@));
    let build = build_of(j.member("build"@));
    if j is Object && name is Some && run_args is Some && workspace_folder is Some && workspace_mount is Some
        && initialize_command is Some && docker_compose_file is Some && service is Some && image is Some
        && build is Some {
        Some(
            DocumentModel {
                name: name->0,
                run_args: run_args->0,
                workspace_folder: workspace_folder->0,
                workspace_mount: workspace_mount->0,
                initialize_command: initialize_command->0,
                docker_compose_file: docker_compose_file->0,
                service: service->0,
                image: image->0,
                build: build->0,
            },
        )
    } else {
        None
    }
}

/// The first field of a build section that is not of its type.
pub open spec fn wrong_in_build(j: JsonModel) -> Seq<char> {
    if decode::opt_text_of(j.member("dockerfile"@)) is None {
        "dockerfile"@
    } else if decode::opt_text_of(j.member("context"@)) is None {
        "context"@
    } else if decode::value_map_of(j.member("args"@)) is None {
        "args"@
    } else if decode::opt_text_of(j.member("target"@)) is None {
        "target"@
    } else if decode::texts_of(j.member("options"@)) is None {
        "options"@
    } else {
        "cacheFrom"@
    }
}

/// The first field of a document that is not of its type.
pub open spec fn wrong_in_document(j: JsonModel) -> Seq<char> {
    if decode::opt_text_of(j.member("name"@)) is None {
        "name"@
    } else if decode::texts_of(j.member("runArgs"@)) is None {
        "runArgs"@
    } else if decode::opt_text_of(j.member("workspaceFolder"@)) is None {
        "workspaceFolder"@
    } else if decode::opt_text_of(j.member("workspaceMount"@)) is None {
        "workspaceMount"@
    } else if lifecycle::hook_of(j.member("initializeCommand"@)) is None {
        "initializeCommand"@
    } else if compose_file_of(j.member("dockerComposeFile"@)) is None {
        "dockerComposeFile"@
    } else if decode::opt_text_of(j.member("service"@)) is None {
        "service"@
    } else if decode::opt_text_of(j.member("image"@)) is None {
        "image"@
    } else {
        match j.member("build"@) {
            Some(b) => {
                let b = decode::named(b, build_fields(), 4);
                if b is Object {
                    "build."@ + wrong_in_build(b)
                } else {
                    "build"@
                }
            },
            None => "build"@,
        }
    }
}

/// Why a document cannot be read.
pub open spec fn misread_document(j: JsonModel) -> AmErrorModel {
    let j = decode::named(j, document_fields(), 9);
    AmErrorModel::ConfigError(
        if j is Object {
            "the devcontainer.json property '"@ + wrong_in_document(j) + "' has the wrong type"@
        } else {
            "a devcontainer.json must hold an object"@
        },
    )
}

/// What a `devcontainer.json` says; `parsed` is what the JSON reader made of its text.
pub open spec fn config_of(parsed: Result<JsonModel, Seq<char>>) -> Result<DocumentModel, AmErrorModel> {
    match parsed {
        Err(e) => Err(AmErrorModel::ConfigError(e)),
        Ok(j) => match document_of(j) {
            Some(d) => Ok(d),
            None => Err(misread_document(j)),
        },
    }
}

fn read_compose_file(j: Option<&Json>) -> (r: Option<Option<ComposeFile>>)
    ensures
        r.deep_view() == compose_file_of(j.deep_view()),
{
    broadcast use crate::json::lemma_object_view;

    match j {
        None => Some(None),
        Some(Json::Null) => Some(None),
        Some(Json::Str(s)) => Some(Some(ComposeFile::One(s.clone()))),
        Some(Json::Array(a)) => match decode::text_array(a) {
            Some(t) => Some(Some(ComposeFile::Many(t))),
            None => None,
        },
        _ => None,
    }
}

fn read_cache_from(j: Option<&Json>) -> (r: Option<CacheFrom>)
    ensures
        r.deep_view() == cache_from_of(j.deep_view()),
{
    broadcast use crate::json::lemma_object_view;

    match j {
        None => Some(CacheFrom::Nothing),
        Some(Json::Null) => Some(CacheFrom::Nothing),
        Some(Json::Str(s)) => Some(CacheFrom::One(s.clone())),
        Some(Json::Array(a)) => match decode::text_array(a) {
            Some(t) => Some(CacheFrom::Many(t)),
            None => None,
        },
        _ => None,
    }
}

fn read_build_section(j: &Json) -> (r: Option<BuildSection>)
    ensures
        r.deep_view() == build_section_of(j@),
{
    let names: Vec<&str> = vec!["dockerfile", "context", "args", "target", "options", "cacheFrom"];
    assert(names.deep_view() =~= build_fields());
    let held = decode::by_position(j, &names, 4);
    let j: &Json = match &held {
        Some(o) => o,
        None => j,
    };
    let is_object = match j {
        Json::Object(_) => true,
        _ => false,
    };
    let dockerfile = decode::opt_text(j.get("dockerfile"));
    let context = decode::opt_text(j.get("context"));
    let args = decode::value_map(j.get("args"));
    let target = decode::opt_text(j.get("target"));
    let options = decode::texts(j.get("options"));
    let cache_from = read_cache_from(j.get("cacheFrom"));
    if !is_object || dockerfile.is_none() || context.is_none() || args.is_none() || target.is_none()
        || options.is_none() || cache_from.is_none() {
        return None;
    }
    Some(
        BuildSection {
            dockerfile: dockerfile.unwrap(),
            context: context.unwrap(),
            args: args.unwrap(),
            target: target.unwrap(),
            options: options.unwrap(),
            cache_from: cache_from.unwrap(),
        },
    )
}

fn read_build(j: Option<&Json>) -> (r: Option<Option<BuildSection>>)
    ensures
        r.deep_view() == build_of(j.deep_view()),
{
    match j {
        None => Some(None),
        Some(Json::Null) => Some(None),
        Some(v) => match read_build_section(v) {
            Some(b) => Some(Some(b)),
            None => None,
        },
    }
}

/// Reads a `devcontainer.json` that is already JSON.
pub fn read_document(j: &Json) -> (r: Option<DevcontainerJson>)
    ensures
        r.deep_view() == document_of(j@),
{
    let names: Vec<&str> = vec![
        "name",
        "runArgs",
        "workspaceFolder",
        "workspaceMount",
        "initializeCommand",
        "dockerComposeFile",
        "service",
        "image",
        "build",
    ];
    assert(names.deep_view() =~= document_fields());
    let held = decode::by_position(j, &names, 9);
    let j: &Json = match &held {
        Some(o) => o,
        None => j,
    };
    let is_object = match j {
        Json::Object(_) => true,
        _ => false,
    };
    let name = decode::opt_text(j.get("name"));
    let run_args = decode::texts(j.get("runArgs"));
    let workspace_folder = decode::opt_text(j.get("workspaceFolder"));
    let workspace_mount = decode::opt_text(j.get("workspaceMount"));
    let initialize_command = lifecycle::read_hook(j.get("initializeCommand"));
    let docker_compose_file = read_compose_file(j.get("dockerComposeFile"));
    let service = decode::opt_text(j.get("service"));
    let image = decode::opt_text(j.get("image"));
    let build = read_build(j.get("build"));
    if !is_object || name.is_none() || run_args.is_none() || workspace_folder.is_none() || workspace_mount.is_none()
        || initialize_command.is_none() || docker_compose_file.is_none() || service.is_none() || image.is_none()
        || build.is_none() {
        return None;
    }
    Some(
        DevcontainerJson {
            name: name.unwrap(),
            run_args: run_args.unwrap(),
            workspace_folder: workspace_folder.unwrap(),
            workspace_mount: workspace_mount.unwrap(),
            initialize_command: initialize_command.unwrap(),
            docker_compose_file: docker_compose_file.unwrap(),
            service: service.unwrap(),
            image: image.unwrap(),
            build: build.unwrap(),
        },
    )
}

fn wrong_build_field(j: &Json) -> (r: String)
    ensures
        r@ == wrong_in_build(j@),
{
    if decode::opt_text(j.get("dockerfile")).is_none() {
        "dockerfile".to_owned()
    } else if decode::opt_text(j.get("context")).is_none() {
        "context".to_owned()
    } else if decode::value_map(j.get("args")).is_none() {
        "args".to_owned()
    } else if decode::opt_text(j.get("target")).is_none() {
        "target".to_owned()
    } else if decode::texts(j.get("options")).is_none() {
        "options".to_owned()
    } else {
        "cacheFrom".to_owned()
    }
}

fn wrong_field(j: &Json) -> (r: String)
    ensures
        r@ == wrong_in_document(j@),
{
    if decode::opt_text(j.get("name")).is_none() {
        "name".to_owned()
    } else if decode::texts(j.get("runArgs")).is_none() {
        "runArgs".to_owned()
    } else if decode::opt_text(j.get("workspaceFolder")).is_none() {
        "workspaceFolder".to_owned()
    } else if decode::opt_text(j.get("workspaceMount")).is_none() {
        "workspaceMount".to_owned()
    } else if lifecycle::read_hook(j.get("initializeCommand")).is_none() {
        "initializeCommand".to_owned()
    } else if read_compose_file(j.get("dockerComposeFile")).is_none() {
        "dockerComposeFile".to_owned()
    } else if decode::opt_text(j.get("service")).is_none() {
        "service".to_owned()
    } else if decode::opt_text(j.get("image")).is_none() {
        "image".to_owned()
    } else {
        match j.get("build") {
            Some(b) => {
                let names: Vec<&str> = vec!["dockerfile", "context", "args", "target", "options", "cacheFrom"];
                assert(names.deep_view() =~= build_fields());
                let held = decode::by_position(b, &names, 4);
                let b: &Json = match &held {
                    Some(o) => o,
                    None => b,
                };
                match b {
                    Json::Object(_) => {
                        let inner = wrong_build_field(b);
                        text::cat2("build.", inner.as_str())
                    },
                    _ => "build".to_owned(),
                }
            },
            None => "build".to_owned(),
        }
    }
}

/// Says why a document cannot be read.
pub fn misread(j: &Json) -> (r: AmError)
    ensures
        r.deep_view() == misread_document(j@),
{
    let names: Vec<&str> = vec![
        "name",
        "runArgs",
        "workspaceFolder",
        "workspaceMount",
        "initializeCommand",
        "dockerComposeFile",
        "service",
        "image",
        "build",
    ];
    assert(names.deep_view() =~= document_fields());
    let held = decode::by_position(j, &names, 9);
    let j: &Json = match &held {
        Some(o) => o,
        None => j,
    };
    match j {
        Json::Object(_) => {
            let wrong = wrong_field(j);
            AmError::ConfigError(
                text::cat3("the devcontainer.json property '", wrong.as_str(), "' has the wrong type"),
            )
        },
        _ => AmError::ConfigError("a devcontainer.json must hold an object".to_owned()),
    }
}

/// Parses the text of a `devcontainer.json`, which may hold comments and trailing commas.
pub fn parse_config_str(source: &str) -> (r: Result<DevcontainerJson, AmError>)
    ensures
        crate::error::outcome(r) == config_of(json::lenient(source@)),
{
    match json::parse_lenient(source) {
        Err(e) => Err(AmError::ConfigError(e)),
        Ok(j) => match read_document(&j) {
            Some(d) => Ok(d),
            None => Err(misread(&j)),
        },
    }
}

// ----------------------------------------------------------------------------------------------
// What a document asks for
// ----------------------------------------------------------------------------------------------

impl DocumentModel {
    /// The Dockerfile that the document names.
    pub open spec fn dockerfile(self) -> Option<Seq<char>> {
        match self.build {
            Some(b) => b.dockerfile,
            None => None,
        }
    }
}

/// The Dockerfile below the directory of the config file.
pub open spec fn dockerfile_at(config_path: Seq<char>, d: DocumentModel) -> Option<Seq<char>> {
    match (d.dockerfile(), path::parent(config_path)) {
        (Some(f), Some(base)) => Some(path::joined(base, f)),
        _ => None,
    }
}

/// The directory of the config file, or the current one.
pub open spec fn config_dir(config_path: Seq<char>) -> Seq<char> {
    match path::parent(config_path) {
        Some(base) => base,
        None => "."@,
    }
}

/// The compose files of a document, below the directory of the config file.
pub open spec fn compose_files_at(config_path: Seq<char>, d: DocumentModel) -> Seq<Seq<char>> {
    match d.docker_compose_file {
        Some(ComposeFileModel::One(one)) => seq![path::joined(config_dir(config_path), one)],
        Some(ComposeFileModel::Many(many)) => many.map_values(
            |f: Seq<char>| path::joined(config_dir(config_path), f),
        ),
        None => Seq::empty(),
    }
}

/// Resolves `build.dockerfile` against the directory of the config file.
pub fn dockerfile_path(config_path: &str, json: &DevcontainerJson) -> (r: Option<String>)
    ensures
        r.deep_view() == dockerfile_at(config_path@, json.deep_view()),
{
    let base = path::parent_of(config_path);
    match (&json.build, base) {
        (Some(b), Some(base)) => match &b.dockerfile {
            Some(f) => Some(path::join(base, f.as_str())),
            None => None,
        },
        _ => None,
    }
}

/// The directory of the config file.
pub fn config_directory(config_path: &str) -> (r: &str)
    ensures
        r@ == config_dir(config_path@),
{
    match path::parent_of(config_path) {
        Some(base) => base,
        None => ".",
    }
}

/// The compose files that a config names, in order.
pub fn compose_files(config_path: &str, json: &DevcontainerJson) -> (r: Vec<String>)
    ensures
        r.deep_view() == compose_files_at(config_path@, json.deep_view()),
{
    let base = config_directory(config_path);
    let mut out: Vec<String> = Vec::new();
    match &json.docker_compose_file {
        Some(ComposeFile::One(one)) => {
            out.push(path::join(base, one.as_str()));
            assert(out.deep_view() =~= compose_files_at(config_path@, json.deep_view()));
        },
        Some(ComposeFile::Many(many)) => {
            let mut i: usize = 0;
            while i < many.len()
                invariant
                    i <= many.len(),
                    out.len() == i,
                    forall|k: int| 0 <= k < i ==> (#[trigger] out@[k])@ == path::joined(base@, many@[k]@),
                decreases many.len() - i,
            {
                out.push(path::join(base, many[i].as_str()));
                i = i + 1;
            }
            assert(out.deep_view() =~= compose_files_at(config_path@, json.deep_view()));
        },
        None => {
            assert(out.deep_view() =~= Seq::<Seq<char>>::empty());
        },
    }
    out
}

pub open spec fn no_service() -> Seq<char> {
    "this devcontainer sets dockerComposeFile but no service, so am cannot tell which container the agent belongs in\nAdd \"service\": \"<name>\" to the devcontainer.json"@
}

/// What is said of a config that names compose files without the service the agent belongs in.
pub open spec fn supported(d: DocumentModel) -> Result<(), AmErrorModel> {
    if d.docker_compose_file is Some && d.service is None {
        Err(AmErrorModel::ConfigError(no_service()))
    } else {
        Ok(())
    }
}

/// Rejects a config that names compose files without the service the agent belongs in.
pub fn check_supported(json: &DevcontainerJson) -> (r: Result<(), AmError>)
    ensures
        crate::error::outcome(r) == supported(json.deep_view()),
{
    if json.docker_compose_file.is_some() && json.service.is_none() {
        return Err(
            AmError::ConfigError(
                "this devcontainer sets dockerComposeFile but no service, so am cannot tell which container the agent belongs in\nAdd \"service\": \"<name>\" to the devcontainer.json".to_owned(),
            ),
        );
    }
    Ok(())
}

pub open spec fn host_command_refused() -> Seq<char> {
    "this devcontainer defines initializeCommand, which runs on your host rather than inside the container\nam does not run it by default. Set devcontainer.allow_host_commands = true in .am/config.toml if you have read the command and trust it."@
}

/// What is said of a config with an `initializeCommand`, which would run on the host.
pub open spec fn host_commands(d: DocumentModel, allowed: bool) -> Result<(), AmErrorModel> {
    if d.initialize_command is Some && !allowed {
        Err(AmErrorModel::ConfigError(host_command_refused()))
    } else {
        Ok(())
    }
}

/// Refuses a config with an `initializeCommand`, which would run on the host, unless that is
/// allowed.
pub fn check_host_commands(json: &DevcontainerJson, allowed: bool) -> (r: Result<(), AmError>)
    ensures
        crate::error::outcome(r) == host_commands(json.deep_view(), allowed),
{
    if json.initialize_command.is_some() && !allowed {
        return Err(
            AmError::ConfigError(
                "this devcontainer defines initializeCommand, which runs on your host rather than inside the container\nam does not run it by default. Set devcontainer.allow_host_commands = true in .am/config.toml if you have read the command and trust it.".to_owned(),
            ),
        );
    }
    Ok(())
}

// ----------------------------------------------------------------------------------------------
// What a document says
// ----------------------------------------------------------------------------------------------

/// Everything in a document is what the object says under its own name.
pub proof fn law_a_document_says_what_it_spells(o: Seq<(Seq<char>, JsonModel)>)
    ensures
        document_of(JsonModel::Object(o)) matches Some(s) ==> {
            &&& decode::spells_text(json::lookup(o, "name"@), s.name)
            &&& decode::spells_texts(json::lookup(o, "runArgs"@), s.run_args)
            &&& decode::spells_text(json::lookup(o, "workspaceFolder"@), s.workspace_folder)
            &&& decode::spells_text(json::lookup(o, "workspaceMount"@), s.workspace_mount)
            &&& lifecycle::spells_hook(json::lookup(o, "initializeCommand"@), s.initialize_command)
            &&& decode::spells_text(json::lookup(o, "service"@), s.service)
            &&& decode::spells_text(json::lookup(o, "image"@), s.image)
            &&& json::lookup(o, "dockerComposeFile"@) is None ==> s.docker_compose_file is None
            &&& json::lookup(o, "dockerComposeFile"@) matches Some(JsonModel::Str(f)) ==> s.docker_compose_file == Some(
                ComposeFileModel::One(f),
            )
            &&& json::lookup(o, "dockerComposeFile"@) matches Some(JsonModel::Array(_)) ==> (
            s.docker_compose_file matches Some(ComposeFileModel::Many(fs)) && decode::spells_texts(
                json::lookup(o, "dockerComposeFile"@),
                fs,
            ))
            &&& json::lookup(o, "build"@) is None ==> s.build is None
            &&& json::lookup(o, "build"@) matches Some(JsonModel::Object(b)) ==> s.build is Some && s.build
                == build_section_of(JsonModel::Object(b))
        },
{
    decode::law_what_is_read_is_what_is_there(json::lookup(o, "name"@));
    decode::law_what_is_read_is_what_is_there(json::lookup(o, "runArgs"@));
    decode::law_what_is_read_is_what_is_there(json::lookup(o, "workspaceFolder"@));
    decode::law_what_is_read_is_what_is_there(json::lookup(o, "workspaceMount"@));
    lifecycle::law_a_hook_is_read_as_written(json::lookup(o, "initializeCommand"@));
    decode::law_what_is_read_is_what_is_there(json::lookup(o, "service"@));
    decode::law_what_is_read_is_what_is_there(json::lookup(o, "image"@));
    decode::law_what_is_read_is_what_is_there(json::lookup(o, "dockerComposeFile"@));
}

/// Everything in a build section is what the object says under its own name.
pub proof fn law_a_build_section_says_what_it_spells(o: Seq<(Seq<char>, JsonModel)>)
    ensures
        build_section_of(JsonModel::Object(o)) matches Some(s) ==> {
            &&& decode::spells_text(json::lookup(o, "dockerfile"@), s.dockerfile)
            &&& decode::spells_text(json::lookup(o, "context"@), s.context)
            &&& decode::spells_map(json::lookup(o, "args"@), s.args, |v: JsonModel| Some(v))
            &&& decode::spells_text(json::lookup(o, "target"@), s.target)
            &&& decode::spells_texts(json::lookup(o, "options"@), s.options)
            &&& json::lookup(o, "cacheFrom"@) is None ==> s.cache_from.images().len() == 0
            &&& json::lookup(o, "cacheFrom"@) matches Some(JsonModel::Str(i)) ==> s.cache_from.images() == seq![i]
            &&& json::lookup(o, "cacheFrom"@) matches Some(JsonModel::Array(_)) ==> decode::spells_texts(
                json::lookup(o, "cacheFrom"@),
                s.cache_from.images(),
            )
        },
{
    decode::law_what_is_read_is_what_is_there(json::lookup(o, "dockerfile"@));
    decode::law_what_is_read_is_what_is_there(json::lookup(o, "context"@));
    decode::law_what_is_read_is_what_is_there(json::lookup(o, "args"@));
    decode::law_what_is_read_is_what_is_there(json::lookup(o, "target"@));
    decode::law_what_is_read_is_what_is_there(json::lookup(o, "options"@));
    decode::law_what_is_read_is_what_is_there(json::lookup(o, "cacheFrom"@));
}

/// The files that a document names are found beside it: its Dockerfile and its compose files, those in
/// their order.
pub proof fn law_files_are_beside_their_config(dir: Seq<char>, d: DocumentModel, config_path: Seq<char>, k: int)
    requires
        path::parent(config_path) == Some(dir),
        dir.len() > 0,
        dir.last() != '/',
    ensures
        d.build matches Some(b) ==> (b.dockerfile matches Some(f) ==> !path::is_absolute(f) ==> dockerfile_at(
            config_path,
            d,
        ) == Some(dir + "/"@ + f)),
        d.build is None || d.build->0.dockerfile is None ==> dockerfile_at(config_path, d) is None,
        d.docker_compose_file is None ==> compose_files_at(config_path, d).len() == 0,
        d.docker_compose_file matches Some(ComposeFileModel::One(f)) ==> !path::is_absolute(f) ==> compose_files_at(
            config_path,
            d,
        ) == seq![dir + "/"@ + f],
        d.docker_compose_file matches Some(ComposeFileModel::Many(fs)) ==> compose_files_at(config_path, d).len()
            == fs.len() && (0 <= k < fs.len() && !path::is_absolute(fs[k]) ==> compose_files_at(config_path, d)[k] == dir
            + "/"@ + fs[k]),
{
}

/// A config is refused exactly where it has a command for the host and none is allowed, or where it names
/// compose files and no service of theirs.
pub proof fn law_a_config_is_refused_for_two_reasons(d: DocumentModel, allowed: bool)
    ensures
        host_commands(d, allowed) is Err <==> d.initialize_command is Some && !allowed,
        host_commands(d, true) is Ok,
        supported(d) is Err <==> d.docker_compose_file is Some && d.service is None,
{
}

} // verus!
