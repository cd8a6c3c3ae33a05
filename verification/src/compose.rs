//! Sessions backed by a compose project.
//!
//! A config that names compose files describes several containers. `am` brings the project up with an
//! override of its own layered last, runs the agent inside the named service, and takes the project
//! down again. It never edits the project's own files.

pub mod document;

pub use document::{
    override_document, override_path, override_text, resolved_config, service_definition, ServiceDefinition,
};

use vstd::prelude::*;

use crate::config::NetworkMode;
use crate::container::run::laws as run_laws;
use crate::duplicate::Duplicate;
use crate::error::{AmError, AmErrorModel};
use crate::path;
use crate::text;

verus! {

/// Everything needed to address a session's compose project again later.
#[derive(Debug, PartialEq)]
pub struct SessionCompose {
    pub project: String,
    pub service: String,
    /// The project's own compose files, in order.
    pub files: Vec<String>,
    /// The override, layered after `files`.
    pub override_path: String,
    /// The services to start, or none for all of them.
    pub run_services: Vec<String>,
}

/// What a [`SessionCompose`] stands for.
pub struct ComposeModel {
    pub project: Seq<char>,
    pub service: Seq<char>,
    pub files: Seq<Seq<char>>,
    pub override_path: Seq<char>,
    pub run_services: Seq<Seq<char>>,
}

impl DeepView for SessionCompose {
    type V = ComposeModel;

    open spec fn deep_view(&self) -> ComposeModel {
        ComposeModel {
            project: self.project@,
            service: self.service@,
            files: self.files.deep_view(),
            override_path: self.override_path@,
            run_services: self.run_services.deep_view(),
        }
    }
}

/// How to invoke Compose.
#[derive(Debug, PartialEq, Eq)]
pub struct Provider {
    /// The beginning of the command line.
    pub argv: Vec<String>,
    /// Environment it needs.
    pub env: Vec<(String, String)>,
}

/// What a [`Provider`] stands for.
pub struct ProviderModel {
    pub argv: Seq<Seq<char>>,
    pub env: Seq<(Seq<char>, Seq<char>)>,
}

impl DeepView for Provider {
    type V = ProviderModel;

    open spec fn deep_view(&self) -> ProviderModel {
        ProviderModel { argv: self.argv.deep_view(), env: self.env.deep_view() }
    }
}

// ----------------------------------------------------------------------------------------------
// The project's name
// ----------------------------------------------------------------------------------------------

/// A character that a project name may hold, before letter case.
pub open spec fn project_char(c: char) -> bool {
    text::is_word(c) || c == '-' || c == '_'
}

/// `slug` with a dash for every character that a project name may not hold.
pub open spec fn sanitized(slug: Seq<char>) -> Seq<char> {
    slug.map_values(
        |c: char|
            if project_char(c) {
                c
            } else {
                '-'
            },
    )
}

/// The compose project name of a session.
pub open spec fn project_of(slug: Seq<char>) -> Seq<char> {
    "am-"@ + sanitized(slug).map_values(|c: char| text::ascii_lower(c))
}

/// The compose project name of a session.
pub fn project_name(slug: &str) -> (r: String)
    ensures
        r@ == project_of(slug@),
{
    let cs = text::chars(slug);
    let mut out = String::new();
    let mut i: usize = 0;
    while i < cs.len()
        invariant
            cs@ == slug@,
            i <= cs.len(),
            out@ == sanitized(slug@).subrange(0, i as int),
        decreases cs.len() - i,
    {
        let c = cs[i];
        if text::is_ascii_word(c) || c == '-' || c == '_' {
            out.push(c);
        } else {
            out.push('-');
        }
        i = i + 1;
        assert(out@ =~= sanitized(slug@).subrange(0, i as int));
    }
    assert(out@ =~= sanitized(slug@));
    assert(text::all_ascii(out@));
    let lower = text::to_lowercase(out.as_str());
    text::cat2("am-", lower.as_str())
}

/// A project name holds nothing but lower-case letters, digits, dashes and underscores, whatever the
/// slug.
pub proof fn law_project_names_are_compose_safe(slug: Seq<char>)
    ensures
        forall|i: int|
            0 <= i < project_of(slug).len() ==> {
                let c = #[trigger] project_of(slug)[i];
                text::is_lower(c) || text::is_digit(c) || c == '-' || c == '_'
            },
        project_of(slug).len() == slug.len() + 3,
{
    reveal_strlit("am-");
    let p = project_of(slug);
    assert forall|i: int| 0 <= i < p.len() implies {
        let c = #[trigger] p[i];
        text::is_lower(c) || text::is_digit(c) || c == '-' || c == '_'
    } by {
        if i >= 3 {
            let s = sanitized(slug)[i - 3];
            assert(p[i] == text::ascii_lower(s));
        }
    }
}

// ----------------------------------------------------------------------------------------------
// Finding Compose
// ----------------------------------------------------------------------------------------------

/// Whether a runtime binary is Podman's, by its name.
pub open spec fn podman_binary(runtime_bin: Seq<char>) -> bool {
    match path::file_stem(runtime_bin) {
        Some(s) => text::holds(s, "podman"@),
        None => false,
    }
}

/// Whether a runtime binary is Podman's.
pub fn is_podman(runtime_bin: &str) -> (r: bool)
    ensures
        r == podman_binary(runtime_bin@),
{
    match path::stem(runtime_bin) {
        Some(s) => text::contains_str(s, "podman"),
        None => false,
    }
}

/// Where Podman's API socket is, from what it answered; nothing where the user already points
/// elsewhere.
pub fn podman_socket(docker_host_set: bool, success: bool, stdout: &str) -> (r: Option<String>)
    ensures
        r.deep_view() == (if !docker_host_set && success && text::trimmed(stdout@).len() > 0 {
            Some(text::trimmed(stdout@))
        } else {
            None
        }),
{
    let path = text::trim(stdout);
    if !docker_host_set && success && !path.is_empty() {
        Some(path.to_owned())
    } else {
        None
    }
}

/// The Compose to use: the runtime's own subcommand, or the standalone binary, which under Podman is
/// pointed at Podman's socket.
pub open spec fn provider_for(
    runtime_bin: Seq<char>,
    subcommand: bool,
    standalone: bool,
    socket: Option<Seq<char>>,
) -> Option<ProviderModel> {
    if subcommand {
        Some(ProviderModel { argv: seq![runtime_bin, "compose"@], env: Seq::empty() })
    } else if standalone {
        Some(
            ProviderModel {
                argv: seq!["docker-compose"@],
                env: match socket {
                    Some(s) if podman_binary(runtime_bin) => seq![("DOCKER_HOST"@, "unix://"@ + s)],
                    _ => Seq::empty(),
                },
            },
        )
    } else {
        None
    }
}

/// Picks a Compose, given which ones answer.
pub fn resolve_provider(runtime_bin: &str, subcommand: bool, standalone: bool, socket: Option<&str>) -> (r: Option<
    Provider,
>)
    ensures
        r.deep_view() == provider_for(runtime_bin@, subcommand, standalone, socket.deep_view()),
{
    let mut argv: Vec<String> = Vec::new();
    let mut env: Vec<(String, String)> = Vec::new();
    if subcommand {
        text::push_str(&mut argv, runtime_bin);
        text::push_str(&mut argv, "compose");
        assert(argv.deep_view() =~= seq![runtime_bin@, "compose"@]);
        assert(env.deep_view() =~= Seq::<(Seq<char>, Seq<char>)>::empty());
        return Some(Provider { argv, env });
    }
    if standalone {
        text::push_str(&mut argv, "docker-compose");
        assert(argv.deep_view() =~= seq!["docker-compose"@]);
        if is_podman(runtime_bin) {
            match socket {
                Some(s) => {
                    let url = text::cat2("unix://", s);
                    env.push(("DOCKER_HOST".to_owned(), url));
                    assert(env.deep_view() =~= seq![("DOCKER_HOST"@, "unix://"@ + s@)]);
                },
                None => {
                    assert(env.deep_view() =~= Seq::<(Seq<char>, Seq<char>)>::empty());
                },
            }
        } else {
            assert(env.deep_view() =~= Seq::<(Seq<char>, Seq<char>)>::empty());
        }
        return Some(Provider { argv, env });
    }
    None
}

pub open spec fn no_provider_message(runtime_bin: Seq<char>) -> Seq<char> {
    "this devcontainer uses dockerComposeFile, but no Docker Compose was found\n`"@ + (match path::file_stem(
        runtime_bin,
    ) {
        Some(s) => s,
        None => Seq::empty(),
    })
        + " compose` is unavailable — podman only grew it in 4.7 — and there is no `docker-compose` on PATH either\nInstall Docker Compose v2. podman-compose will not do: it has no `config` command, which am needs to read the compose file"@
}

/// The error where no Compose answers.
pub fn no_provider(runtime_bin: &str) -> (r: AmError)
    ensures
        r.deep_view() == AmErrorModel::ContainerError(no_provider_message(runtime_bin@)),
{
    let name = match path::stem(runtime_bin) {
        Some(s) => s.to_owned(),
        None => String::new(),
    };
    AmError::ContainerError(
        text::cat3(
            "this devcontainer uses dockerComposeFile, but no Docker Compose was found\n`",
            name.as_str(),
            " compose` is unavailable — podman only grew it in 4.7 — and there is no `docker-compose` on PATH either\nInstall Docker Compose v2. podman-compose will not do: it has no `config` command, which am needs to read the compose file",
        ),
    )
}

/// Finds a usable Compose, given which ones answer.
pub fn provider(runtime_bin: &str, subcommand: bool, standalone: bool, socket: Option<&str>) -> (r: Result<
    Provider,
    AmError,
>)
    ensures
        crate::error::outcome(r) == (match provider_for(runtime_bin@, subcommand, standalone, socket.deep_view()) {
            Some(p) => Ok::<ProviderModel, AmErrorModel>(p),
            None => Err(AmErrorModel::ContainerError(no_provider_message(runtime_bin@))),
        }),
{
    match resolve_provider(runtime_bin, subcommand, standalone, socket) {
        Some(p) => Ok(p),
        None => Err(no_provider(runtime_bin)),
    }
}

// ----------------------------------------------------------------------------------------------
// Command lines
// ----------------------------------------------------------------------------------------------

/// A `-f` flag for each file.
pub open spec fn file_args(files: Seq<Seq<char>>) -> Seq<Seq<char>>
    decreases files.len(),
{
    if files.len() == 0 {
        Seq::empty()
    } else {
        file_args(files.drop_last()) + seq!["-f"@, files.last()]
    }
}

/// The beginning of a Compose command line.
pub open spec fn compose_line(p: ProviderModel, files: Seq<Seq<char>>, project: Seq<char>) -> Seq<Seq<char>> {
    p.argv + file_args(files) + seq!["-p"@, project]
}

/// The beginning of a Compose command line.
pub fn compose_args(provider: &Provider, files: &Vec<String>, project: &str) -> (r: Vec<String>)
    ensures
        r.deep_view() == compose_line(provider.deep_view(), files.deep_view(), project@),
{
    let mut args: Vec<String> = provider.argv.duplicate();
    let ghost base = args.deep_view();
    let ghost all = files.deep_view();
    let mut i: usize = 0;
    assert(base =~= base + file_args(all.subrange(0, 0)));
    while i < files.len()
        invariant
            all == files.deep_view(),
            i <= files.len(),
            args.deep_view() == base + file_args(all.subrange(0, i as int)),
        decreases files.len() - i,
    {
        assert(all.subrange(0, i + 1).drop_last() =~= all.subrange(0, i as int));
        text::push_str(&mut args, "-f");
        text::push_str(&mut args, files[i].as_str());
        i = i + 1;
        assert(args.deep_view() =~= base + file_args(all.subrange(0, i as int)));
    }
    assert(all.subrange(0, all.len() as int) =~= all);
    text::push_str(&mut args, "-p");
    text::push_str(&mut args, project);
    assert(args.deep_view() =~= compose_line(provider.deep_view(), all, project@));
    args
}

/// Every compose file of a session: the project's own, then the override.
pub open spec fn layered_files(c: ComposeModel) -> Seq<Seq<char>> {
    c.files.push(c.override_path)
}

/// Every compose file of a session, the override last.
pub fn all_files(compose: &SessionCompose) -> (r: Vec<String>)
    ensures
        r.deep_view() == layered_files(compose.deep_view()),
{
    let mut files: Vec<String> = compose.files.duplicate();
    text::push_str(&mut files, compose.override_path.as_str());
    files
}

/// The beginning of a command line for a session's project.
pub open spec fn session_line(p: ProviderModel, c: ComposeModel) -> Seq<Seq<char>> {
    compose_line(p, layered_files(c), c.project)
}

fn session_args(provider: &Provider, compose: &SessionCompose) -> (r: Vec<String>)
    ensures
        r.deep_view() == session_line(provider.deep_view(), compose.deep_view()),
{
    let files = all_files(compose);
    compose_args(provider, &files, compose.project.as_str())
}

/// The services to start: all of them where none are named, and otherwise those named together with
/// the agent's own.
pub open spec fn started(c: ComposeModel) -> Seq<Seq<char>> {
    if c.run_services.len() == 0 || c.run_services.contains(c.service) {
        c.run_services
    } else {
        c.run_services.push(c.service)
    }
}

/// The services that [`up`] starts.
pub fn services_to_start(compose: &SessionCompose) -> (r: Vec<String>)
    ensures
        r.deep_view() == started(compose.deep_view()),
{
    let mut services: Vec<String> = compose.run_services.duplicate();
    if services.len() > 0 && !crate::devcontainer::merge::contains_text(&services, compose.service.as_str()) {
        text::push_str(&mut services, compose.service.as_str());
    }
    services
}

/// A list of services to start that is not empty always holds the agent's own.
pub proof fn law_the_agents_service_starts(c: ComposeModel)
    ensures
        started(c).len() == 0 <==> c.run_services.len() == 0,
        started(c).len() > 0 ==> started(c).contains(c.service),
        forall|i: int| 0 <= i < c.run_services.len() ==> started(c).contains(#[trigger] c.run_services[i]),
{
    let s = started(c);
    if c.run_services.len() > 0 && !c.run_services.contains(c.service) {
        assert(s[s.len() - 1] == c.service);
    }
    assert forall|i: int| 0 <= i < c.run_services.len() implies s.contains(#[trigger] c.run_services[i]) by {
        assert(s[i] == c.run_services[i]);
    }
}

/// The override is the last file of every command line for a session.
pub proof fn law_the_override_is_layered_last(p: ProviderModel, c: ComposeModel)
    ensures
        ({
            let line = session_line(p, c);
            let n = line.len() as int;
            &&& n >= 4
            &&& line[n - 4] == "-f"@
            &&& line[n - 3] == c.override_path
            &&& line[n - 2] == "-p"@
            &&& line[n - 1] == c.project
        }),
{
    let files = layered_files(c);
    assert(files.drop_last() =~= c.files);
    assert(file_args(files) == file_args(c.files) + seq!["-f"@, c.override_path]);
}

/// The command line that asks Compose for the resolved model of some files.
pub open spec fn config_line(p: ProviderModel, files: Seq<Seq<char>>) -> Seq<Seq<char>> {
    compose_line(p, files, "am-config-probe"@) + seq!["config"@, "--format"@, "json"@]
}

/// The command line that asks Compose for the resolved model of some files.
pub fn config_command(provider: &Provider, files: &Vec<String>) -> (r: Vec<String>)
    ensures
        r.deep_view() == config_line(provider.deep_view(), files.deep_view()),
{
    let mut args = compose_args(provider, files, "am-config-probe");
    let ghost base = args.deep_view();
    text::push_str(&mut args, "config");
    text::push_str(&mut args, "--format");
    text::push_str(&mut args, "json");
    assert(args.deep_view() =~= base + seq!["config"@, "--format"@, "json"@]);
    args
}

/// The command line that brings a project up in the background.
pub open spec fn up_line(p: ProviderModel, c: ComposeModel) -> Seq<Seq<char>> {
    session_line(p, c) + seq!["up"@, "-d"@] + started(c)
}

/// The command line that brings a project up in the background.
pub fn up(provider: &Provider, compose: &SessionCompose) -> (r: Vec<String>)
    ensures
        r.deep_view() == up_line(provider.deep_view(), compose.deep_view()),
{
    let mut args = session_args(provider, compose);
    let ghost base = args.deep_view();
    text::push_str(&mut args, "up");
    text::push_str(&mut args, "-d");
    let mut services = services_to_start(compose);
    let ghost s = services.deep_view();
    let ghost a = args.deep_view();
    args.append(&mut services);
    assert(args.deep_view() =~= a + s);
    assert(a =~= base + seq!["up"@, "-d"@]);
    args
}

/// The command line that takes a project down.
pub open spec fn down_line(p: ProviderModel, c: ComposeModel) -> Seq<Seq<char>> {
    session_line(p, c).push("down"@)
}

/// The command line that takes a project down. Named volumes are the project's data and stay.
pub fn down(provider: &Provider, compose: &SessionCompose) -> (r: Vec<String>)
    ensures
        r.deep_view() == down_line(provider.deep_view(), compose.deep_view()),
{
    let mut args = session_args(provider, compose);
    text::push_str(&mut args, "down");
    args
}

/// The command with the provider's environment in front of it, for a shell that does not have it.
pub open spec fn with_env(p: ProviderModel, args: Seq<Seq<char>>) -> Seq<Seq<char>> {
    if p.env.len() == 0 {
        args
    } else {
        seq!["env"@] + p.env.map_values(|e: (Seq<char>, Seq<char>)| e.0 + "="@ + e.1) + args
    }
}

fn prefix_env(provider: &Provider, args: Vec<String>) -> (r: Vec<String>)
    ensures
        r.deep_view() == with_env(provider.deep_view(), args.deep_view()),
{
    if provider.env.len() == 0 {
        return args;
    }
    let ghost all = provider.env.deep_view().map_values(|e: (Seq<char>, Seq<char>)| e.0 + "="@ + e.1);
    let ghost a = args.deep_view();
    let mut rest = args;
    let mut out: Vec<String> = Vec::new();
    text::push_str(&mut out, "env");
    let mut i: usize = 0;
    assert(out.deep_view() =~= seq!["env"@] + all.subrange(0, 0));
    while i < provider.env.len()
        invariant
            all == provider.env.deep_view().map_values(|e: (Seq<char>, Seq<char>)| e.0 + "="@ + e.1),
            i <= provider.env.len(),
            out.deep_view() == seq!["env"@] + all.subrange(0, i as int),
        decreases provider.env.len() - i,
    {
        let e = text::cat3(provider.env[i].0.as_str(), "=", provider.env[i].1.as_str());
        text::push(&mut out, e);
        i = i + 1;
        assert(out.deep_view() =~= seq!["env"@] + all.subrange(0, i as int));
    }
    assert(all.subrange(0, all.len() as int) =~= all);
    let ghost o = out.deep_view();
    out.append(&mut rest);
    assert(out.deep_view() =~= o + a);
    out
}

/// The command that stops the project.
pub open spec fn stop_line(p: ProviderModel, c: ComposeModel) -> Seq<Seq<char>> {
    with_env(p, session_line(p, c).push("stop"@))
}

/// The command that stops the project when the session ends. Nothing is removed.
pub fn stop_command(provider: &Provider, compose: &SessionCompose) -> (r: Vec<String>)
    ensures
        r.deep_view() == stop_line(provider.deep_view(), compose.deep_view()),
{
    let mut args = session_args(provider, compose);
    text::push_str(&mut args, "stop");
    prefix_env(provider, args)
}

/// The command line that runs a shell snippet inside the agent's service.
pub open spec fn script_line(p: ProviderModel, c: ComposeModel, script: Seq<char>) -> Seq<Seq<char>> {
    session_line(p, c) + seq!["exec"@, c.service, "sh"@, "-c"@, script]
}

/// The command line that runs a shell snippet inside the agent's service.
pub fn exec_script(provider: &Provider, compose: &SessionCompose, script: &str) -> (r: Vec<String>)
    ensures
        r.deep_view() == script_line(provider.deep_view(), compose.deep_view(), script@),
{
    let mut args = session_args(provider, compose);
    let ghost base = args.deep_view();
    text::push_str(&mut args, "exec");
    text::push_str(&mut args, compose.service.as_str());
    text::push_str(&mut args, "sh");
    text::push_str(&mut args, "-c");
    text::push_str(&mut args, script);
    assert(args.deep_view() =~= base + seq!["exec"@, compose.service@, "sh"@, "-c"@, script@]);
    args
}

/// The command that runs the agent inside its service.
pub open spec fn agent_line(p: ProviderModel, c: ComposeModel, agent: Seq<Seq<char>>) -> Seq<Seq<char>> {
    with_env(p, session_line(p, c) + seq!["exec"@, c.service] + agent)
}

/// The command that runs the agent inside its service.
pub fn exec_command(provider: &Provider, compose: &SessionCompose, agent_cmd: &Vec<String>) -> (r: Vec<String>)
    ensures
        r.deep_view() == agent_line(provider.deep_view(), compose.deep_view(), agent_cmd.deep_view()),
{
    let mut args = session_args(provider, compose);
    let ghost base = args.deep_view();
    text::push_str(&mut args, "exec");
    text::push_str(&mut args, compose.service.as_str());
    let ghost a = args.deep_view();
    let mut agent: Vec<String> = agent_cmd.duplicate();
    let ghost g = agent.deep_view();
    args.append(&mut agent);
    assert(args.deep_view() =~= a + g);
    assert(a =~= base + seq!["exec"@, compose.service@]);
    prefix_env(provider, args)
}

pub open spec fn network_refused() -> Seq<char> {
    "container.network = \"none\" cannot be applied to a compose devcontainer, because its services reach each other over the compose network\nLeave container.network at its default, or use container.mode = \"image\" for an isolated single-container session"@
}

/// Refuses a session without a network: the services of a project reach each other over one.
pub fn check_network(network: &NetworkMode) -> (r: Result<(), AmError>)
    ensures
        crate::error::outcome(r) == (match *network {
            NetworkMode::Off => Err::<(), AmErrorModel>(AmErrorModel::ConfigError(network_refused())),
            NetworkMode::Full => Ok(()),
        }),
{
    match network {
        NetworkMode::Off => Err(
            AmError::ConfigError(
                "container.network = \"none\" cannot be applied to a compose devcontainer, because its services reach each other over the compose network\nLeave container.network at its default, or use container.mode = \"image\" for an isolated single-container session".to_owned(),
            ),
        ),
        NetworkMode::Full => Ok(()),
    }
}

// ----------------------------------------------------------------------------------------------
// What holds of every project
// ----------------------------------------------------------------------------------------------

/// A project is named after its session: each letter of the slug in lower case, each digit, dash and
/// underscore as it is, and a dash for anything else.
pub proof fn law_a_project_is_named_after_its_session(slug: Seq<char>, i: int)
    requires
        0 <= i < slug.len(),
    ensures
        ({
            let c = slug[i];
            let d = project_of(slug)[3 + i];
            &&& text::has_prefix(project_of(slug), "am-"@)
            &&& 'a' <= c <= 'z' || '0' <= c <= '9' || c == '-' || c == '_' ==> d == c
            &&& 'A' <= c <= 'Z' ==> d as int == c as int + 32
            &&& !('a' <= c <= 'z' || 'A' <= c <= 'Z' || '0' <= c <= '9' || c == '-' || c == '_') ==> d == '-'
        }),
{
    reveal_strlit("am-");
    let p = project_of(slug);
    assert(p.subrange(0, 3) =~= "am-"@);
    let t = sanitized(slug).map_values(|c: char| text::ascii_lower(c));
    assert(p[3 + i] == t[i]);
}

/// The runtime's own Compose is preferred to the standalone one. The standalone one is told where Podman's
/// socket is, where the runtime is Podman and there is one, and is told nothing otherwise.
pub proof fn law_the_runtimes_compose_is_preferred(
    runtime_bin: Seq<char>,
    subcommand: bool,
    standalone: bool,
    socket: Option<Seq<char>>,
)
    ensures
        ({
            let p = provider_for(runtime_bin, subcommand, standalone, socket);
            &&& p is Some <==> subcommand || standalone
            &&& subcommand ==> p->0.argv == seq![runtime_bin, "compose"@] && p->0.env.len() == 0
            &&& !subcommand && standalone ==> p->0.argv == seq!["docker-compose"@]
            &&& !subcommand && standalone && podman_binary(runtime_bin) ==> (socket matches Some(s) ==> p->0.env == seq![
                ("DOCKER_HOST"@, "unix://"@ + s),
            ])
            &&& !subcommand && standalone && (!podman_binary(runtime_bin) || socket is None) ==> p->0.env.len() == 0
        }),
{
}

/// Every command line for a session's project begins with Compose itself, then names every file in order,
/// the project's own first, and then the project.
pub proof fn law_every_file_is_named(p: ProviderModel, c: ComposeModel)
    ensures
        ({
            let line = session_line(p, c);
            let n = p.argv.len() as int;
            &&& line.len() == n + 2 * c.files.len() + 4
            &&& line.subrange(0, n) == p.argv
            &&& run_laws::flags_at(line, n, "-f"@, c.files)
            &&& line[n + 2 * c.files.len()] == "-f"@
            &&& line[n + 2 * c.files.len() + 1] == c.override_path
            &&& line[line.len() - 2] == "-p"@
            &&& line[line.len() - 1] == c.project
        }),
{
    let line = session_line(p, c);
    let n = p.argv.len() as int;
    let files = layered_files(c);
    assert(files.drop_last() =~= c.files);
    lemma_files_are_flags(c.files);
    run_laws::lemma_each_at("-f"@, c.files);
    let a = file_args(c.files);
    assert(line =~= p.argv + a + seq!["-f"@, c.override_path, "-p"@, c.project]);
    assert(line.subrange(0, n) =~= p.argv);
    assert(line.subrange(n, n + a.len()) =~= a);
    run_laws::lemma_flags_within(line, n, a, 0, "-f"@, c.files);
}

proof fn lemma_files_are_flags(files: Seq<Seq<char>>)
    ensures
        file_args(files) == crate::container::run::each("-f"@, files),
    decreases files.len(),
{
    if files.len() > 0 {
        lemma_files_are_flags(files.drop_last());
    }
}

/// A command that is run elsewhere sets the provider's variables first, each with its value, and is
/// otherwise the command as it is.
pub proof fn law_the_environment_goes_in_front(p: ProviderModel, args: Seq<Seq<char>>)
    ensures
        p.env.len() == 0 ==> with_env(p, args) == args,
        p.env.len() > 0 ==> {
            let line = with_env(p, args);
            &&& line.len() == 1 + p.env.len() + args.len()
            &&& line[0] == "env"@
            &&& forall|i: int| 0 <= i < p.env.len() ==> line[1 + i] == (#[trigger] p.env[i]).0 + "="@ + p.env[i].1
            &&& line.subrange(1 + p.env.len() as int, line.len() as int) == args
        },
{
    if p.env.len() > 0 {
        let line = with_env(p, args);
        assert(line.subrange(1 + p.env.len() as int, line.len() as int) =~= args);
    }
}

/// What is done with a session's project. It is brought up in the background, all that is to start and no more.
/// It is taken down with its volumes left alone, and stopped with nothing removed. A script and the agent run
/// in the agent's own service, the agent's words as they are. What is run elsewhere has the provider's
/// environment in front of it.
pub proof fn law_what_is_done_with_a_project(
    p: ProviderModel,
    c: ComposeModel,
    script: Seq<char>,
    agent: Seq<Seq<char>>,
) -> (r: (Seq<Seq<char>>, Seq<Seq<char>>))
    ensures
        stop_line(p, c) == with_env(p, r.0),
        agent_line(p, c, agent) == with_env(p, r.1),
        ({
            let line = session_line(p, c);
            let n = line.len() as int;
            let up = up_line(p, c);
            let down = down_line(p, c);
            let stop = r.0;
            let run = script_line(p, c, script);
            let go = r.1;
            &&& up.subrange(0, n) == line && up[n] == "up"@ && up[n + 1] == "-d"@
            &&& up.subrange(n + 2, up.len() as int) == started(c)
            &&& down.len() == n + 1 && down.subrange(0, n) == line && down[n] == "down"@
            &&& stop.len() == n + 1 && stop.subrange(0, n) == line && stop[n] == "stop"@
            &&& run.len() == n + 5 && run.subrange(0, n) == line && run[n] == "exec"@ && run[n + 1] == c.service
            &&& run[n + 2] == "sh"@ && run[n + 3] == "-c"@ && run[n + 4] == script
            &&& go.subrange(0, n) == line && go[n] == "exec"@ && go[n + 1] == c.service
            &&& go.subrange(n + 2, go.len() as int) == agent
        }),
{
    let line = session_line(p, c);
    let n = line.len() as int;
    let up = up_line(p, c);
    let stop = line.push("stop"@);
    let go = line + seq!["exec"@, c.service] + agent;
    assert(up.subrange(0, n) =~= line);
    assert(up.subrange(n + 2, up.len() as int) =~= started(c));
    assert(down_line(p, c).subrange(0, n) =~= line);
    assert(stop.subrange(0, n) =~= line);
    assert(script_line(p, c, script).subrange(0, n) =~= line);
    assert(go.subrange(0, n) =~= line);
    assert(go.subrange(n + 2, go.len() as int) =~= agent);
    (stop, go)
}

/// Compose is asked for the resolved model of exactly the files that are named, as JSON.
pub proof fn law_the_files_that_are_named_are_read(p: ProviderModel, files: Seq<Seq<char>>)
    ensures
        ({
            let line = config_line(p, files);
            let n = p.argv.len() as int;
            &&& line.len() == n + 2 * files.len() + 5
            &&& line.subrange(0, n) == p.argv
            &&& run_laws::flags_at(line, n, "-f"@, files)
            &&& line[line.len() - 5] == "-p"@
            &&& line[line.len() - 4] == "am-config-probe"@
            &&& line[line.len() - 3] == "config"@
            &&& line[line.len() - 2] == "--format"@
            &&& line[line.len() - 1] == "json"@
        }),
{
    let line = config_line(p, files);
    let n = p.argv.len() as int;
    lemma_files_are_flags(files);
    run_laws::lemma_each_at("-f"@, files);
    let f = file_args(files);
    assert(line.subrange(0, n) =~= p.argv);
    assert(line.subrange(n, n + f.len()) =~= f);
    run_laws::lemma_flags_within(line, n, f, 0, "-f"@, files);
}

} // verus!
