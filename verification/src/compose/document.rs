//! The compose documents: reading the resolved model, writing the override.

use vstd::prelude::*;

use crate::container::run;
use crate::container::{
    self, AuthMountModel, ContainerMounts, ContainerRuntime, DevcontainerRuntime, DevcontainerRuntimeModel,
    HostFacts, HostModel, MountMode, MountsModel, RuntimeModel,
};
use crate::devcontainer::mount::NormalizedMountModel;
use crate::devcontainer::port::{self, ForwardedPort, ForwardedPortModel};
use crate::duplicate::Duplicate;
use crate::error::{AmError, AmErrorModel};
use crate::json::{self, Json, JsonModel};
use crate::strmap::{self, StrMap};
use crate::text;

pub mod laws;

verus! {

// ----------------------------------------------------------------------------------------------
// The resolved model
// ----------------------------------------------------------------------------------------------

/// The service the agent runs in, and what it is made from.
#[derive(Debug, PartialEq)]
pub struct ServiceDefinition {
    pub image: Option<String>,
    /// The build context and the Dockerfile.
    pub build: Option<(String, Option<String>)>,
}

/// What a [`ServiceDefinition`] stands for.
pub struct ServiceModel {
    pub image: Option<Seq<char>>,
    pub build: Option<(Seq<char>, Option<Seq<char>>)>,
}

impl DeepView for ServiceDefinition {
    type V = ServiceModel;

    open spec fn deep_view(&self) -> ServiceModel {
        ServiceModel { image: self.image.deep_view(), build: self.build.deep_view() }
    }
}

/// The member of an optional value.
pub open spec fn member_of(j: Option<JsonModel>, k: Seq<char>) -> Option<JsonModel> {
    match j {
        Some(v) => v.member(k),
        None => None,
    }
}

/// The text of an optional value.
pub open spec fn text_of(j: Option<JsonModel>) -> Option<Seq<char>> {
    match j {
        Some(v) => v.text(),
        None => None,
    }
}

/// The names of the members of an object, none of any other value.
pub open spec fn member_names(j: Option<JsonModel>) -> Seq<Seq<char>> {
    match j {
        Some(JsonModel::Object(o)) => o.map_values(|m: (Seq<char>, JsonModel)| m.0),
        _ => Seq::empty(),
    }
}

/// The build section of a service.
pub open spec fn build_of(j: Option<JsonModel>) -> Option<(Seq<char>, Option<Seq<char>>)> {
    match j {
        Some(JsonModel::Object(o)) => Some(
            (
                match text_of(json::lookup(o, "context"@)) {
                    Some(c) => c,
                    None => "."@,
                },
                text_of(json::lookup(o, "dockerfile"@)),
            ),
        ),
        _ => None,
    }
}

/// One service of a resolved model. A service that is not there, or that is made from nothing, is an
/// error.
pub open spec fn service_of(config: JsonModel, service: Seq<char>) -> Result<ServiceModel, AmErrorModel> {
    match member_of(config.member("services"@), service) {
        None => Err(
            AmErrorModel::ConfigError(
                "the devcontainer names service '"@ + service + "', which the compose file does not define (it defines: "@
                    + text::joined(member_names(config.member("services"@)), ", "@) + ")"@,
            ),
        ),
        Some(svc) => {
            let image = text_of(svc.member("image"@));
            let build = build_of(svc.member("build"@));
            if image is None && build is None {
                Err(
                    AmErrorModel::ConfigError(
                        "compose service '"@ + service + "' has neither an image nor a build section"@,
                    ),
                )
            } else {
                Ok(ServiceModel { image, build })
            }
        },
    }
}

fn member<'a>(j: Option<&'a Json>, k: &str) -> (r: Option<&'a Json>)
    ensures
        r.deep_view() == member_of(j.deep_view(), k@),
{
    match j {
        Some(v) => v.get(k),
        None => None,
    }
}

fn owned_text(j: Option<&Json>) -> (r: Option<String>)
    ensures
        r.deep_view() == text_of(j.deep_view()),
{
    match j {
        Some(v) => match v.as_str() {
            Some(s) => Some(s.to_owned()),
            None => None,
        },
        None => None,
    }
}

fn names(j: Option<&Json>) -> (r: Vec<String>)
    ensures
        r.deep_view() == member_names(j.deep_view()),
{
    broadcast use crate::json::lemma_object_view;

    let mut out: Vec<String> = Vec::new();
    match j {
        Some(Json::Object(o)) => {
            let ghost all = member_names(j.deep_view());
            let mut i: usize = 0;
            while i < o.len()
                invariant
                    all == json::members_model(o@).map_values(|m: (Seq<char>, JsonModel)| m.0),
                    i <= o.len(),
                    out.deep_view() == all.subrange(0, i as int),
                decreases o.len() - i,
            {
                text::push_str(&mut out, o[i].0.as_str());
                i = i + 1;
                assert(out.deep_view() =~= all.subrange(0, i as int));
            }
            assert(all.subrange(0, all.len() as int) =~= all);
        },
        _ => {
            assert(out.deep_view() =~= Seq::<Seq<char>>::empty());
        },
    }
    out
}

fn read_build(j: Option<&Json>) -> (r: Option<(String, Option<String>)>)
    ensures
        r.deep_view() == build_of(j.deep_view()),
{
    broadcast use crate::json::lemma_object_view;

    match j {
        Some(Json::Object(o)) => {
            let context = match owned_text(json::find_member(o, "context")) {
                Some(c) => c,
                None => ".".to_owned(),
            };
            Some((context, owned_text(json::find_member(o, "dockerfile"))))
        },
        _ => None,
    }
}

/// Reads one service out of a resolved model.
pub fn service_definition(config: &Json, service: &str) -> (r: Result<ServiceDefinition, AmError>)
    ensures
        crate::error::outcome(r) == service_of(config@, service@),
{
    let services = config.get("services");
    match member(services, service) {
        None => {
            let known = text::join(&names(services), ", ");
            Err(
                AmError::ConfigError(
                    text::cat5(
                        "the devcontainer names service '",
                        service,
                        "', which the compose file does not define (it defines: ",
                        known.as_str(),
                        ")",
                    ),
                ),
            )
        },
        Some(svc) => {
            let image = owned_text(svc.get("image"));
            let build = read_build(svc.get("build"));
            if image.is_none() && build.is_none() {
                Err(
                    AmError::ConfigError(
                        text::cat3("compose service '", service, "' has neither an image nor a build section"),
                    ),
                )
            } else {
                Ok(ServiceDefinition { image, build })
            }
        },
    }
}

/// Reads what Compose printed as the resolved model.
pub fn resolved_config(output: &str) -> (r: Result<Json, AmError>)
    ensures
        crate::error::outcome(r) == (match json::strict(output@) {
            Ok(j) => Ok::<JsonModel, AmErrorModel>(j),
            Err(_) => Err(AmErrorModel::ContainerError("parsing the resolved compose config"@)),
        }),
{
    match json::parse_strict(output) {
        Ok(j) => Ok(j),
        Err(_) => Err(AmError::ContainerError("parsing the resolved compose config".to_owned())),
    }
}

// ----------------------------------------------------------------------------------------------
// Volumes
// ----------------------------------------------------------------------------------------------

/// The mounts that every session has.
pub open spec fn own_texts(m: MountsModel, host: HostModel, selinux: bool) -> Seq<Seq<char>> {
    seq![
        container::mount_text(m.worktree_host, m.worktree_host, MountMode::ReadWrite, selinux),
        container::mount_text(m.vcs_host, m.vcs_host, MountMode::ReadWrite, selinux),
    ] + (match m.colocated_git_host {
        Some(git) => seq![container::mount_text(git, git, MountMode::ReadWrite, selinux)],
        None => Seq::empty(),
    }) + (if host.has_path(m.gitconfig_host) {
        seq![
            container::mount_text(
                m.gitconfig_host,
                m.container_home + "/.gitconfig"@,
                MountMode::ReadOnly,
                selinux,
            ),
        ]
    } else {
        Seq::empty()
    }) + (if host.has_path(m.ssh_host) {
        seq![container::mount_text(m.ssh_host, m.container_home + "/.ssh"@, MountMode::ReadOnly, selinux)]
    } else {
        Seq::empty()
    })
}

/// The SSH agent socket, never relabelled.
pub open spec fn sock_texts(m: MountsModel, host: HostModel) -> Seq<Seq<char>> {
    match run::forwarded_sock(m, host) {
        Some(sock) => seq![container::mount_text(sock, sock, MountMode::ReadWrite, false)],
        None => Seq::empty(),
    }
}

/// The credential mounts whose host path exists.
pub open spec fn auth_texts(auth: Seq<AuthMountModel>, host: HostModel, selinux: bool) -> Seq<Seq<char>>
    decreases auth.len(),
{
    if auth.len() == 0 {
        Seq::empty()
    } else {
        let a = auth.last();
        let rest = auth_texts(auth.drop_last(), host, selinux);
        if host.has_path(a.host_path) {
            rest.push(container::mount_text(a.host_path, a.container_path, a.mode, selinux))
        } else {
            rest
        }
    }
}

/// The devcontainer mounts that have a source.
pub open spec fn config_texts(ms: Seq<NormalizedMountModel>, selinux: bool) -> Seq<Seq<char>>
    decreases ms.len(),
{
    if ms.len() == 0 {
        Seq::empty()
    } else {
        let m = ms.last();
        let rest = config_texts(ms.drop_last(), selinux);
        match m.source {
            Some(source) => rest.push(
                container::mount_text(source, m.target, run::mode_of(m), selinux && m.kind == "bind"@),
            ),
            None => rest,
        }
    }
}

/// The volumes of the agent's service.
pub open spec fn volumes_of(m: MountsModel, dc: DevcontainerRuntimeModel, host: HostModel, selinux: bool) -> Seq<
    Seq<char>,
> {
    own_texts(m, host, selinux) + sock_texts(m, host) + auth_texts(m.agent_auth, host, selinux) + config_texts(
        dc.mounts,
        selinux,
    )
}

proof fn lemma_each_concat(name: Seq<char>, a: Seq<Seq<char>>, b: Seq<Seq<char>>)
    ensures
        run::each(name, a + b) == run::each(name, a) + run::each(name, b),
    decreases b.len(),
{
    if b.len() == 0 {
        assert(a + b =~= a);
        assert(run::each(name, a) =~= run::each(name, a) + run::each(name, b));
    } else {
        assert((a + b).drop_last() =~= a + b.drop_last());
        lemma_each_concat(name, a, b.drop_last());
        assert(run::each(name, a + b) =~= run::each(name, a) + run::each(name, b));
    }
}

proof fn lemma_each_one(name: Seq<char>, v: Seq<char>)
    ensures
        run::each(name, seq![v]) == run::flag(name, v),
{
    reveal_with_fuel(run::each, 2);
    assert(seq![v].drop_last() =~= Seq::<Seq<char>>::empty());
    assert(run::each(name, seq![v]) =~= run::flag(name, v));
}

/// A compose session and a plain one mount the same things: each volume of the one is a `-v` flag of
/// the other, in the same order.
pub proof fn law_both_paths_mount_the_same(m: MountsModel, dc: DevcontainerRuntimeModel, host: HostModel, selinux: bool)
    ensures
        run::own_volumes(m, host, selinux) == run::each("-v"@, own_texts(m, host, selinux)),
        run::agent_volume(m, host) == (match run::forwarded_sock(m, host) {
            Some(sock) => run::each("-v"@, sock_texts(m, host)) + run::flag("-e"@, "SSH_AUTH_SOCK="@ + sock),
            None => Seq::empty(),
        }),
        run::auth_volumes(m.agent_auth, host, selinux) == run::each("-v"@, auth_texts(m.agent_auth, host, selinux)),
        run::config_volumes(dc.mounts, selinux) == run::each("-v"@, config_texts(dc.mounts, selinux)),
{
    let w = container::mount_text(m.worktree_host, m.worktree_host, MountMode::ReadWrite, selinux);
    let v = container::mount_text(m.vcs_host, m.vcs_host, MountMode::ReadWrite, selinux);
    let a = seq![w] + seq![v];
    assert(seq![w, v] =~= a);
    lemma_each_concat("-v"@, seq![w], seq![v]);
    lemma_each_one("-v"@, w);
    lemma_each_one("-v"@, v);
    let git = match m.colocated_git_host {
        Some(git) => seq![container::mount_text(git, git, MountMode::ReadWrite, selinux)],
        None => Seq::empty(),
    };
    let config = if host.has_path(m.gitconfig_host) {
        seq![
            container::mount_text(
                m.gitconfig_host,
                m.container_home + "/.gitconfig"@,
                MountMode::ReadOnly,
                selinux,
            ),
        ]
    } else {
        Seq::empty()
    };
    let ssh = if host.has_path(m.ssh_host) {
        seq![container::mount_text(m.ssh_host, m.container_home + "/.ssh"@, MountMode::ReadOnly, selinux)]
    } else {
        Seq::empty()
    };
    lemma_each_concat("-v"@, a, git);
    lemma_each_concat("-v"@, a + git, config);
    lemma_each_concat("-v"@, a + git + config, ssh);
    if git.len() > 0 {
        lemma_each_one("-v"@, git[0]);
        assert(git =~= seq![git[0]]);
    }
    if config.len() > 0 {
        lemma_each_one("-v"@, config[0]);
        assert(config =~= seq![config[0]]);
    }
    if ssh.len() > 0 {
        lemma_each_one("-v"@, ssh[0]);
        assert(ssh =~= seq![ssh[0]]);
    }
    assert(run::own_volumes(m, host, selinux) =~= run::each("-v"@, own_texts(m, host, selinux)));
    match run::forwarded_sock(m, host) {
        Some(sock) => {
            lemma_each_one("-v"@, container::mount_text(sock, sock, MountMode::ReadWrite, false));
        },
        None => {},
    }
    lemma_auth(m.agent_auth, host, selinux);
    lemma_config(dc.mounts, selinux);
}

proof fn lemma_auth(auth: Seq<AuthMountModel>, host: HostModel, selinux: bool)
    ensures
        run::auth_volumes(auth, host, selinux) == run::each("-v"@, auth_texts(auth, host, selinux)),
    decreases auth.len(),
{
    if auth.len() > 0 {
        lemma_auth(auth.drop_last(), host, selinux);
        let t = auth_texts(auth, host, selinux);
        if host.has_path(auth.last().host_path) {
            assert(t.drop_last() =~= auth_texts(auth.drop_last(), host, selinux));
        }
        assert(run::auth_volumes(auth, host, selinux) =~= run::each("-v"@, t));
    }
}

proof fn lemma_config(ms: Seq<NormalizedMountModel>, selinux: bool)
    ensures
        run::config_volumes(ms, selinux) == run::each("-v"@, config_texts(ms, selinux)),
    decreases ms.len(),
{
    if ms.len() > 0 {
        lemma_config(ms.drop_last(), selinux);
        let t = config_texts(ms, selinux);
        if ms.last().source is Some {
            assert(t.drop_last() =~= config_texts(ms.drop_last(), selinux));
        }
        assert(run::config_volumes(ms, selinux) =~= run::each("-v"@, t));
    }
}

fn volumes(m: &ContainerMounts, dc: &DevcontainerRuntime, host: &HostFacts, selinux: bool) -> (r: Vec<String>)
    ensures
        r.deep_view() == volumes_of(m.deep_view(), dc.deep_view(), host.deep_view(), selinux),
{
    let ghost mm = m.deep_view();
    let ghost h = host.deep_view();
    let mut out: Vec<String> = Vec::new();
    text::push(
        &mut out,
        container::mount_str(m.worktree_host.as_str(), m.worktree_host.as_str(), MountMode::ReadWrite, selinux),
    );
    text::push(
        &mut out,
        container::mount_str(m.vcs_host.as_str(), m.vcs_host.as_str(), MountMode::ReadWrite, selinux),
    );
    match &m.colocated_git_host {
        Some(git) => {
            text::push(&mut out, container::mount_str(git.as_str(), git.as_str(), MountMode::ReadWrite, selinux));
        },
        None => {},
    }
    if host.has_path(m.gitconfig_host.as_str()) {
        let target = text::cat2(m.container_home.as_str(), "/.gitconfig");
        text::push(
            &mut out,
            container::mount_str(m.gitconfig_host.as_str(), target.as_str(), MountMode::ReadOnly, selinux),
        );
    }
    if host.has_path(m.ssh_host.as_str()) {
        let target = text::cat2(m.container_home.as_str(), "/.ssh");
        text::push(
            &mut out,
            container::mount_str(m.ssh_host.as_str(), target.as_str(), MountMode::ReadOnly, selinux),
        );
    }
    assert(out.deep_view() =~= own_texts(mm, h, selinux));
    match &m.ssh_agent_sock {
        Some(sock) => {
            if host.has_path(sock.as_str()) {
                text::push(&mut out, container::mount_str(sock.as_str(), sock.as_str(), MountMode::ReadWrite, false));
            }
        },
        None => {},
    }
    assert(out.deep_view() =~= own_texts(mm, h, selinux) + sock_texts(mm, h));
    let ghost base = out.deep_view();
    let ghost auth = m.agent_auth.deep_view();
    let mut i: usize = 0;
    assert(base =~= base + auth_texts(auth.subrange(0, 0), h, selinux));
    while i < m.agent_auth.len()
        invariant
            h == host.deep_view(),
            auth == m.agent_auth.deep_view(),
            i <= m.agent_auth.len(),
            out.deep_view() == base + auth_texts(auth.subrange(0, i as int), h, selinux),
        decreases m.agent_auth.len() - i,
    {
        assert(auth.subrange(0, i + 1).drop_last() =~= auth.subrange(0, i as int));
        assert(auth[i as int] == m.agent_auth@[i as int].deep_view());
        let a = &m.agent_auth[i];
        if host.has_path(a.host_path.as_str()) {
            text::push(
                &mut out,
                container::mount_str(a.host_path.as_str(), a.container_path.as_str(), a.mode, selinux),
            );
        }
        i = i + 1;
        assert(out.deep_view() =~= base + auth_texts(auth.subrange(0, i as int), h, selinux));
    }
    assert(auth.subrange(0, auth.len() as int) =~= auth);
    let ghost base = out.deep_view();
    let ghost ms = dc.mounts.deep_view();
    let mut i: usize = 0;
    assert(base =~= base + config_texts(ms.subrange(0, 0), selinux));
    while i < dc.mounts.len()
        invariant
            ms == dc.mounts.deep_view(),
            i <= dc.mounts.len(),
            out.deep_view() == base + config_texts(ms.subrange(0, i as int), selinux),
        decreases dc.mounts.len() - i,
    {
        assert(ms.subrange(0, i + 1).drop_last() =~= ms.subrange(0, i as int));
        assert(ms[i as int] == dc.mounts@[i as int].deep_view());
        let m = &dc.mounts[i];
        match &m.source {
            Some(source) => {
                let mode = if m.read_only {
                    MountMode::ReadOnly
                } else {
                    MountMode::ReadWrite
                };
                let label = selinux && text::eq(m.kind.as_str(), "bind");
                text::push(&mut out, container::mount_str(source.as_str(), m.target.as_str(), mode, label));
            },
            None => {},
        }
        i = i + 1;
        assert(out.deep_view() =~= base + config_texts(ms.subrange(0, i as int), selinux));
    }
    assert(ms.subrange(0, ms.len() as int) =~= ms);
    out
}

// ----------------------------------------------------------------------------------------------
// The environment
// ----------------------------------------------------------------------------------------------

/// The variables that are set explicitly. Later sources win, as they do in the run command.
pub open spec fn explicit_env(
    m: MountsModel,
    extra_env: Seq<(Seq<char>, Seq<char>)>,
    dc: DevcontainerRuntimeModel,
    host: HostModel,
) -> Seq<(Seq<char>, Seq<char>)> {
    let sock = match run::forwarded_sock(m, host) {
        Some(sock) => strmap::insert(Seq::empty(), "SSH_AUTH_SOCK"@, sock),
        None => Seq::empty(),
    };
    strmap::extended(strmap::extended(strmap::extended(sock, host.identity), extra_env), dc.env)
}

/// The members of an environment object.
pub open spec fn env_members(env: Seq<(Seq<char>, Seq<char>)>) -> Seq<(Seq<char>, JsonModel)> {
    env.map_values(|e: (Seq<char>, Seq<char>)| (e.0, JsonModel::Str(e.1)))
}

/// The members for variables passed through: a value where one is given, and null for a variable that
/// takes the host's.
pub open spec fn passthrough_members(env: Seq<Seq<char>>) -> Seq<(Seq<char>, JsonModel)>
    decreases env.len(),
{
    if env.len() == 0 {
        Seq::empty()
    } else {
        let rest = passthrough_members(env.drop_last());
        match text::split_first(env.last(), '=') {
            Some((k, v)) => json::put(rest, k, JsonModel::Str(v)),
            None => json::put(rest, env.last(), JsonModel::Null),
        }
    }
}

/// `base` with every member of `more` set.
pub open spec fn all_put(base: Seq<(Seq<char>, JsonModel)>, more: Seq<(Seq<char>, JsonModel)>) -> Seq<
    (Seq<char>, JsonModel),
>
    decreases more.len(),
{
    if more.len() == 0 {
        base
    } else {
        json::put(all_put(base, more.drop_last()), more.last().0, more.last().1)
    }
}

/// The environment of the agent's service: what is passed through, under what is set explicitly.
pub open spec fn environment_of(passthrough: Seq<Seq<char>>, explicit: Seq<(Seq<char>, Seq<char>)>) -> JsonModel {
    JsonModel::Object(
        if passthrough.len() == 0 {
            env_members(explicit)
        } else {
            all_put(passthrough_members(passthrough), env_members(explicit))
        },
    )
}

fn insert_pairs(m: &mut StrMap<String>, pairs: &Vec<(String, String)>)
    ensures
        final(m).deep_view() == strmap::extended(old(m).deep_view(), pairs.deep_view()),
{
    let ghost base = m.deep_view();
    let ghost all = pairs.deep_view();
    let mut i: usize = 0;
    while i < pairs.len()
        invariant
            all == pairs.deep_view(),
            i <= pairs.len(),
            m.deep_view() == strmap::extended(base, all.subrange(0, i as int)),
        decreases pairs.len() - i,
    {
        assert(all.subrange(0, i + 1).drop_last() =~= all.subrange(0, i as int));
        assert(all[i as int] == pairs@[i as int].deep_view());
        m.insert(pairs[i].0.clone(), pairs[i].1.clone());
        i = i + 1;
    }
    assert(all.subrange(0, all.len() as int) =~= all);
}

fn environment(
    mounts: &ContainerMounts,
    env_passthrough: &Vec<String>,
    extra_env: &Vec<(String, String)>,
    dc: &DevcontainerRuntime,
    host: &HostFacts,
) -> (r: Json)
    ensures
        r@ == environment_of(
            env_passthrough.deep_view(),
            explicit_env(mounts.deep_view(), extra_env.deep_view(), dc.deep_view(), host.deep_view()),
        ),
{
    broadcast use crate::json::lemma_object_view;

    let mut explicit: StrMap<String> = StrMap::new();
    match &mounts.ssh_agent_sock {
        Some(sock) => {
            if host.has_path(sock.as_str()) {
                explicit.insert("SSH_AUTH_SOCK".to_owned(), sock.clone());
            }
        },
        None => {},
    }
    insert_pairs(&mut explicit, &host.identity);
    insert_pairs(&mut explicit, extra_env);
    insert_pairs(&mut explicit, &dc.env);
    let ghost e = explicit.deep_view();
    let ghost em = env_members(e);
    let n: usize = explicit.len();
    let mut o: Vec<(String, Json)> = Vec::new();
    if env_passthrough.len() == 0 {
        let mut i: usize = 0;
        assert(json::members_model(o@) =~= em.subrange(0, 0));
        while i < n
            invariant
                e == explicit.deep_view(),
                em == env_members(e),
                n == e.len(),
                i <= n,
                json::members_model(o@) == em.subrange(0, i as int),
            decreases n - i,
        {
            let (k, v) = explicit.at(i);
            json::push_member(&mut o, k, Json::Str(v.clone()));
            i = i + 1;
            assert(json::members_model(o@) =~= em.subrange(0, i as int));
        }
        assert(em.subrange(0, n as int) =~= em);
        return Json::Object(o);
    }
    let ghost p = env_passthrough.deep_view();
    let mut i: usize = 0;
    assert(json::members_model(o@) =~= passthrough_members(p.subrange(0, 0)));
    while i < env_passthrough.len()
        invariant
            p == env_passthrough.deep_view(),
            i <= env_passthrough.len(),
            json::members_model(o@) == passthrough_members(p.subrange(0, i as int)),
        decreases env_passthrough.len() - i,
    {
        assert(p.subrange(0, i + 1).drop_last() =~= p.subrange(0, i as int));
        assert(p[i as int] == env_passthrough@[i as int]@);
        match text::split_once(env_passthrough[i].as_str(), '=') {
            Some((k, v)) => {
                json::put_member(&mut o, k, Json::Str(v.to_owned()));
            },
            None => {
                json::put_member(&mut o, env_passthrough[i].as_str(), Json::Null);
            },
        }
        i = i + 1;
    }
    assert(p.subrange(0, p.len() as int) =~= p);
    let ghost base = json::members_model(o@);
    let mut i: usize = 0;
    while i < n
        invariant
            e == explicit.deep_view(),
            em == env_members(e),
            n == e.len(),
            i <= n,
            json::members_model(o@) == all_put(base, em.subrange(0, i as int)),
        decreases n - i,
    {
        assert(em.subrange(0, i + 1).drop_last() =~= em.subrange(0, i as int));
        let (k, v) = explicit.at(i);
        json::put_member(&mut o, k, Json::Str(v.clone()));
        i = i + 1;
    }
    assert(em.subrange(0, n as int) =~= em);
    Json::Object(o)
}

// ----------------------------------------------------------------------------------------------
// Ports
// ----------------------------------------------------------------------------------------------

/// The publish specifications for the agent's own service.
pub open spec fn own_ports(ports: Seq<ForwardedPortModel>) -> Seq<Seq<char>>
    decreases ports.len(),
{
    if ports.len() == 0 {
        Seq::empty()
    } else {
        let rest = own_ports(ports.drop_last());
        match ports.last().spec_text() {
            Some(s) => rest.push(s),
            None => rest,
        }
    }
}

/// `o` with one more port published by a service.
pub open spec fn with_service_port(o: Seq<(Seq<char>, Seq<Seq<char>>)>, service: Seq<char>, spec: Seq<char>) -> Seq<
    (Seq<char>, Seq<Seq<char>>),
>
    decreases o.len(),
{
    if o.len() == 0 {
        seq![(service, seq![spec])]
    } else if o[0].0 == service {
        seq![(service, o[0].1.push(spec))] + o.drop_first()
    } else {
        seq![o[0]] + with_service_port(o.drop_first(), service, spec)
    }
}

/// The publish specifications for other services, in the order the services are first named.
pub open spec fn other_ports(ports: Seq<ForwardedPortModel>) -> Seq<(Seq<char>, Seq<Seq<char>>)>
    decreases ports.len(),
{
    if ports.len() == 0 {
        Seq::empty()
    } else {
        let rest = other_ports(ports.drop_last());
        match ports.last() {
            ForwardedPortModel::Service { service, port } => with_service_port(
                rest,
                service,
                port::published(port),
            ),
            _ => rest,
        }
    }
}

proof fn lemma_service_port_at(o: Seq<(Seq<char>, Seq<Seq<char>>)>, service: Seq<char>, spec: Seq<char>, i: int)
    requires
        0 <= i <= o.len(),
        i < o.len() ==> o[i].0 == service,
        forall|j: int| 0 <= j < i ==> (#[trigger] o[j]).0 != service,
    ensures
        with_service_port(o, service, spec) == (if i < o.len() {
            o.update(i, (service, o[i].1.push(spec)))
        } else {
            o.push((service, seq![spec]))
        }),
    decreases o.len(),
{
    if o.len() == 0 {
        assert(seq![(service, seq![spec])] =~= o.push((service, seq![spec])));
    } else if i == 0 {
        assert(seq![(service, o[0].1.push(spec))] + o.drop_first() =~= o.update(0, (service, o[0].1.push(spec))));
    } else {
        let t = o.drop_first();
        assert forall|j: int| 0 <= j < i - 1 implies (#[trigger] t[j]).0 != service by {
            assert(t[j] == o[j + 1]);
        }
        assert(o[0].0 != service);
        lemma_service_port_at(t, service, spec, i - 1);
        if i < o.len() {
            assert(seq![o[0]] + t.update(i - 1, (service, t[i - 1].1.push(spec))) =~= o.update(
                i,
                (service, o[i].1.push(spec)),
            ));
        } else {
            assert(seq![o[0]] + t.push((service, seq![spec])) =~= o.push((service, seq![spec])));
        }
    }
}

fn add_service_port(o: &mut Vec<(String, Vec<String>)>, service: &str, spec: String)
    ensures
        final(o).deep_view() == with_service_port(old(o).deep_view(), service@, spec@),
{
    let ghost m = o.deep_view();
    let mut i: usize = 0;
    while i < o.len() && !text::eq(o[i].0.as_str(), service)
        invariant
            m == o.deep_view(),
            i <= o.len(),
            forall|j: int| 0 <= j < i ==> (#[trigger] m[j]).0 != service@,
        decreases o.len() - i,
    {
        assert(m[i as int] == o@[i as int].deep_view());
        i = i + 1;
    }
    proof {
        if i < o.len() {
            assert(m[i as int] == o@[i as int].deep_view());
        }
        lemma_service_port_at(m, service@, spec@, i as int);
    }
    if i < o.len() {
        let mut list: Vec<String> = o[i].1.duplicate();
        text::push(&mut list, spec);
        o.set(i, (service.to_owned(), list));
        assert(o.deep_view() =~= m.update(i as int, (service@, m[i as int].1.push(spec@))));
    } else {
        let mut list: Vec<String> = Vec::new();
        text::push(&mut list, spec);
        assert(list.deep_view() =~= seq![spec@]);
        o.push((service.to_owned(), list));
        assert(o.deep_view() =~= m.push((service@, seq![spec@])));
    }
}

fn split_ports(ports: &Vec<ForwardedPort>) -> (r: (Vec<String>, Vec<(String, Vec<String>)>))
    ensures
        r.0.deep_view() == own_ports(ports.deep_view()),
        r.1.deep_view() == other_ports(ports.deep_view()),
{
    let ghost all = ports.deep_view();
    let mut own: Vec<String> = Vec::new();
    let mut others: Vec<(String, Vec<String>)> = Vec::new();
    let mut i: usize = 0;
    assert(own.deep_view() =~= own_ports(all.subrange(0, 0)));
    assert(others.deep_view() =~= other_ports(all.subrange(0, 0)));
    while i < ports.len()
        invariant
            all == ports.deep_view(),
            i <= ports.len(),
            own.deep_view() == own_ports(all.subrange(0, i as int)),
            others.deep_view() == other_ports(all.subrange(0, i as int)),
        decreases ports.len() - i,
    {
        assert(all.subrange(0, i + 1).drop_last() =~= all.subrange(0, i as int));
        assert(all[i as int] == ports@[i as int].deep_view());
        match &ports[i] {
            ForwardedPort::Own(p) => {
                text::push(&mut own, ForwardedPort::publish_spec(*p));
            },
            ForwardedPort::Published(s) => {
                text::push_str(&mut own, s.as_str());
            },
            ForwardedPort::Service { service, port } => {
                add_service_port(&mut others, service.as_str(), ForwardedPort::publish_spec(*port));
            },
        }
        i = i + 1;
    }
    assert(all.subrange(0, all.len() as int) =~= all);
    (own, others)
}

// ----------------------------------------------------------------------------------------------
// The override
// ----------------------------------------------------------------------------------------------

/// The user the service runs as: the one the config names, or the host's own.
pub open spec fn service_user(dc: DevcontainerRuntimeModel, host: HostModel) -> Option<Seq<char>> {
    match (dc.user, host.uid_gid) {
        (Some(u), _) => Some(u),
        (None, Some(id)) => Some(run::numeric_user(id)),
        (None, None) => None,
    }
}

/// A member, where there is a value for it.
pub open spec fn optional_member(present: bool, k: Seq<char>, v: JsonModel) -> Seq<(Seq<char>, JsonModel)> {
    if present {
        seq![(k, v)]
    } else {
        Seq::empty()
    }
}

/// The member that names a user, where there is one.
pub open spec fn user_member(user: Option<Seq<char>>) -> Seq<(Seq<char>, JsonModel)> {
    match user {
        Some(u) => seq![("user"@, JsonModel::Str(u))],
        None => Seq::empty(),
    }
}

/// What the override says of the agent's service. Its command is left alone.
pub open spec fn service_members(
    runtime: RuntimeModel,
    image: Seq<char>,
    m: MountsModel,
    env_passthrough: Seq<Seq<char>>,
    extra_env: Seq<(Seq<char>, Seq<char>)>,
    dc: DevcontainerRuntimeModel,
    host: HostModel,
) -> Seq<(Seq<char>, JsonModel)> {
    let user = service_user(dc, host);
    let ports = own_ports(dc.ports);
    seq![
        ("image"@, JsonModel::Str(image)),
        ("volumes"@, json::texts_model(volumes_of(m, dc, host, container::selinux(runtime.kind, host.linux)))),
        ("environment"@, environment_of(env_passthrough, explicit_env(m, extra_env, dc, host))),
    ] + user_member(user) + optional_member(dc.init, "init"@, JsonModel::Bool(true)) + optional_member(
        dc.privileged,
        "privileged"@,
        JsonModel::Bool(true),
    ) + optional_member(dc.cap_add.len() > 0, "cap_add"@, json::texts_model(dc.cap_add)) + optional_member(
        dc.security_opt.len() > 0,
        "security_opt"@,
        json::texts_model(dc.security_opt),
    ) + seq![
        (
            "working_dir"@,
            JsonModel::Str(
                match dc.workdir {
                    Some(dir) => dir,
                    None => m.worktree_host,
                },
            ),
        ),
    ] + optional_member(ports.len() > 0, "ports"@, json::texts_model(ports))
}

/// What the override says of the other services: the ports they publish.
pub open spec fn other_members(ports: Seq<ForwardedPortModel>) -> Seq<(Seq<char>, JsonModel)> {
    other_ports(ports).map_values(
        |e: (Seq<char>, Seq<Seq<char>>)| (e.0, JsonModel::Object(seq![("ports"@, json::texts_model(e.1))])),
    )
}

/// The override document.
pub open spec fn override_of(
    runtime: RuntimeModel,
    service: Seq<char>,
    image: Seq<char>,
    m: MountsModel,
    env_passthrough: Seq<Seq<char>>,
    extra_env: Seq<(Seq<char>, Seq<char>)>,
    dc: DevcontainerRuntimeModel,
    host: HostModel,
) -> JsonModel {
    JsonModel::Object(
        seq![
            (
                "services"@,
                JsonModel::Object(
                    json::put(
                        other_members(dc.ports),
                        service,
                        JsonModel::Object(
                            service_members(runtime, image, m, env_passthrough, extra_env, dc, host),
                        ),
                    ),
                ),
            ),
        ],
    )
}

fn ports_object(list: &Vec<String>) -> (r: Json)
    ensures
        r@ == JsonModel::Object(seq![("ports"@, json::texts_model(list.deep_view()))]),
{
    broadcast use crate::json::lemma_object_view;

    let mut o: Vec<(String, Json)> = Vec::new();
    json::push_member(&mut o, "ports", json::texts_json(list));
    assert(json::members_model(o@) =~= seq![("ports"@, json::texts_model(list.deep_view()))]);
    Json::Object(o)
}

fn push_if(o: &mut Vec<(String, Json)>, present: bool, k: &str, v: Json)
    ensures
        json::members_model(final(o)@) == json::members_model(old(o)@) + optional_member(present, k@, v@),
{
    if present {
        json::push_member(o, k, v);
    }
    assert(json::members_model(o@) =~= json::members_model(old(o)@) + optional_member(present, k@, v@));
}

fn push_user(o: &mut Vec<(String, Json)>, dc: &DevcontainerRuntime, host: &HostFacts)
    ensures
        json::members_model(final(o)@) == json::members_model(old(o)@) + user_member(
            service_user(dc.deep_view(), host.deep_view()),
        ),
{
    match &dc.user {
        Some(u) => {
            json::push_member(o, "user", Json::Str(u.clone()));
        },
        None => match host.uid_gid {
            Some((uid, gid)) => {
                let u = text::decimal_of(uid as u64);
                let g = text::decimal_of(gid as u64);
                json::push_member(o, "user", Json::Str(text::cat3(u.as_str(), ":", g.as_str())));
            },
            None => {},
        },
    }
    assert(json::members_model(o@) =~= json::members_model(old(o)@) + user_member(
        service_user(dc.deep_view(), host.deep_view()),
    ));
}

fn service_document(
    runtime: &ContainerRuntime,
    image: &str,
    mounts: &ContainerMounts,
    env_passthrough: &Vec<String>,
    extra_env: &Vec<(String, String)>,
    dc: &DevcontainerRuntime,
    host: &HostFacts,
    own: &Vec<String>,
) -> (r: Vec<(String, Json)>)
    requires
        own.deep_view() == own_ports(dc.ports.deep_view()),
    ensures
        json::members_model(r@) == service_members(
            runtime.deep_view(),
            image@,
            mounts.deep_view(),
            env_passthrough.deep_view(),
            extra_env.deep_view(),
            dc.deep_view(),
            host.deep_view(),
        ),
{
    let labels = container::use_selinux_labels(runtime, host.linux);
    let mut doc: Vec<(String, Json)> = Vec::new();
    json::push_member(&mut doc, "image", Json::Str(image.to_owned()));
    let v = volumes(mounts, dc, host, labels);
    json::push_member(&mut doc, "volumes", json::texts_json(&v));
    json::push_member(&mut doc, "environment", environment(mounts, env_passthrough, extra_env, dc, host));
    assert(json::members_model(doc@) =~= seq![
        ("image"@, JsonModel::Str(image@)),
        ("volumes"@, json::texts_model(v.deep_view())),
        (
            "environment"@,
            environment_of(
                env_passthrough.deep_view(),
                explicit_env(mounts.deep_view(), extra_env.deep_view(), dc.deep_view(), host.deep_view()),
            ),
        ),
    ]);
    push_user(&mut doc, dc, host);
    push_if(&mut doc, dc.init, "init", Json::Bool(true));
    push_if(&mut doc, dc.privileged, "privileged", Json::Bool(true));
    push_if(&mut doc, dc.cap_add.len() > 0, "cap_add", json::texts_json(&dc.cap_add));
    push_if(&mut doc, dc.security_opt.len() > 0, "security_opt", json::texts_json(&dc.security_opt));
    let dir = match &dc.workdir {
        Some(dir) => dir.clone(),
        None => mounts.worktree_host.clone(),
    };
    let ghost before = json::members_model(doc@);
    json::push_member(&mut doc, "working_dir", Json::Str(dir));
    assert(json::members_model(doc@) =~= before + seq![("working_dir"@, JsonModel::Str(dir@))]);
    push_if(&mut doc, own.len() > 0, "ports", json::texts_json(own));
    doc
}

fn other_services(ports: &Vec<ForwardedPort>, others: &Vec<(String, Vec<String>)>) -> (r: Vec<(String, Json)>)
    requires
        others.deep_view() == other_ports(ports.deep_view()),
    ensures
        json::members_model(r@) == other_members(ports.deep_view()),
{
    let ghost om = other_members(ports.deep_view());
    let mut services: Vec<(String, Json)> = Vec::new();
    let mut i: usize = 0;
    assert(json::members_model(services@) =~= om.subrange(0, 0));
    while i < others.len()
        invariant
            others.deep_view() == other_ports(ports.deep_view()),
            om == other_members(ports.deep_view()),
            i <= others.len(),
            json::members_model(services@) == om.subrange(0, i as int),
        decreases others.len() - i,
    {
        assert(other_ports(ports.deep_view())[i as int] == others@[i as int].deep_view());
        json::push_member(&mut services, others[i].0.as_str(), ports_object(&others[i].1));
        i = i + 1;
        assert(json::members_model(services@) =~= om.subrange(0, i as int));
    }
    assert(om.subrange(0, om.len() as int) =~= om);
    services
}

/// Builds the override document: `am`'s own contribution to the agent's service, and the ports that
/// other services are asked to publish.
pub fn override_document(
    runtime: &ContainerRuntime,
    service: &str,
    image: &str,
    mounts: &ContainerMounts,
    env_passthrough: &Vec<String>,
    extra_env: &Vec<(String, String)>,
    dc: &DevcontainerRuntime,
    host: &HostFacts,
) -> (r: Json)
    ensures
        r@ == override_of(
            runtime.deep_view(),
            service@,
            image@,
            mounts.deep_view(),
            env_passthrough.deep_view(),
            extra_env.deep_view(),
            dc.deep_view(),
            host.deep_view(),
        ),
{
    broadcast use crate::json::lemma_object_view;

    let (own, others) = split_ports(&dc.ports);
    let doc = service_document(runtime, image, mounts, env_passthrough, extra_env, dc, host, &own);
    let mut services = other_services(&dc.ports, &others);
    json::put_member(&mut services, service, Json::Object(doc));
    let ghost inner = json::members_model(services@);
    let mut root: Vec<(String, Json)> = Vec::new();
    json::push_member(&mut root, "services", Json::Object(services));
    assert(json::members_model(root@) =~= seq![("services"@, JsonModel::Object(inner))]);
    Json::Object(root)
}

/// The text of the override file. JSON is valid YAML, so values need no other quoting.
pub fn override_text(document: &Json) -> (r: String)
    ensures
        r@ == json::pretty(document@, 0) + "\n"@,
{
    let body = document.to_pretty();
    text::cat2(body.as_str(), "\n")
}

/// The override's place below a session's state directory.
pub fn override_path(dir: &str) -> (r: String)
    ensures
        r@ == crate::path::joined(dir@, "compose-override.yml"@),
{
    crate::path::join(dir, "compose-override.yml")
}

} // verus!
