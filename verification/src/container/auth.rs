//! What an agent needs to authenticate inside a session container.

use vstd::prelude::*;

use crate::container::{AgentAuth, AgentAuthMount, AuthModel, AuthMountModel};
use crate::error::{AmError, AmErrorModel};
use crate::harness::{
    CredentialModel, EnvSource, EnvSourceModel, Harness, HarnessModel, Integration, IntegrationModel,
};
use crate::path;
use crate::strmap::{self, StrMap};
use crate::text;

verus! {

/// Where a credential goes inside the container.
pub open spec fn credential_target(home: Seq<char>, target: Seq<char>) -> Seq<char> {
    if path::is_absolute(target) {
        target
    } else {
        home + "/"@ + target
    }
}

/// One credential mount; none where it is left out.
pub open spec fn credential_mount(m: CredentialModel, host: Seq<char>, home: Seq<char>) -> Seq<AuthMountModel> {
    if m.only_if_exists && !m.found {
        Seq::empty()
    } else {
        seq![AuthMountModel { host_path: host, container_path: credential_target(home, m.container), mode: m.mode }]
    }
}

/// The credential mounts in order, or why the first unknown host path is unknown.
pub open spec fn all_credentials(ms: Seq<CredentialModel>, home: Seq<char>) -> Result<Seq<AuthMountModel>, Seq<char>>
    decreases ms.len(),
{
    if ms.len() == 0 {
        Ok(Seq::empty())
    } else {
        match all_credentials(ms.drop_last(), home) {
            Err(e) => Err(e),
            Ok(before) => match ms.last().host {
                Err(e) => Err(e),
                Ok(host) => Ok(before + credential_mount(ms.last(), host, home)),
            },
        }
    }
}

/// Where an agent's credentials land inside the container. An agent that can do without a home
/// directory gets no mounts where there is none.
pub open spec fn credentials(h: HarnessModel, home: Seq<char>) -> Result<Seq<AuthMountModel>, AmErrorModel> {
    match h.integration {
        None => Ok(Seq::empty()),
        Some(i) => match all_credentials(i.mounts, home) {
            Ok(ms) => Ok(ms),
            Err(e) => if i.home_optional {
                Ok(Seq::empty())
            } else {
                Err(AmErrorModel::ContainerError(e))
            },
        },
    }
}

proof fn lemma_credentials_error(ms: Seq<CredentialModel>, home: Seq<char>, n: int)
    requires
        0 <= n <= ms.len(),
        all_credentials(ms.subrange(0, n), home) is Err,
    ensures
        all_credentials(ms, home) == all_credentials(ms.subrange(0, n), home),
    decreases ms.len() - n,
{
    if n < ms.len() {
        assert(ms.subrange(0, n + 1).drop_last() =~= ms.subrange(0, n));
        lemma_credentials_error(ms, home, n + 1);
    } else {
        assert(ms.subrange(0, n) =~= ms);
    }
}

/// Resolves where an agent's credentials land inside the container.
pub fn resolve_credential_mounts(harness: &Harness, home_in_container: &str) -> (r: Result<Vec<AgentAuthMount>, AmError>)
    ensures
        crate::error::outcome(r) == credentials(harness.deep_view(), home_in_container@),
{
    let mut out: Vec<AgentAuthMount> = Vec::new();
    let integration = match &harness.integration {
        Some(i) => i,
        None => {
            assert(out.deep_view() =~= Seq::<AuthMountModel>::empty());
            return Ok(out);
        },
    };
    let ghost all = integration.mounts.deep_view();
    let mut i: usize = 0;
    assert(out.deep_view() =~= Seq::<AuthMountModel>::empty());
    while i < integration.mounts.len()
        invariant
            harness.integration == Some(*integration),
            all == integration.mounts.deep_view(),
            i <= integration.mounts.len(),
            all_credentials(all.subrange(0, i as int), home_in_container@) == Ok::<Seq<AuthMountModel>, Seq<char>>(
                out.deep_view(),
            ),
        decreases integration.mounts.len() - i,
    {
        assert(all.subrange(0, i + 1).drop_last() =~= all.subrange(0, i as int));
        assert(all[i as int] == integration.mounts@[i as int].deep_view());
        let m = &integration.mounts[i];
        let ghost before = out.deep_view();
        match &m.host {
            Ok(host) => {
                if !(m.only_if_exists && !m.found) {
                    let container_path = if path::absolute(m.container.as_str()) {
                        m.container.clone()
                    } else {
                        text::cat3(home_in_container, "/", m.container.as_str())
                    };
                    out.push(AgentAuthMount { host_path: host.clone(), container_path, mode: m.mode });
                }
                assert(out.deep_view() =~= before + credential_mount(m.deep_view(), host@, home_in_container@));
            },
            Err(e) => {
                proof {
                    lemma_credentials_error(all, home_in_container@, i + 1);
                }
                if integration.home_optional {
                    let none: Vec<AgentAuthMount> = Vec::new();
                    assert(none.deep_view() =~= Seq::<AuthMountModel>::empty());
                    return Ok(none);
                }
                return Err(AmError::ContainerError(e.clone()));
            },
        }
        i = i + 1;
    }
    assert(all.subrange(0, all.len() as int) =~= all);
    Ok(out)
}

/// The error for an agent whose requirements are not met. A single missing path is named; with several
/// ways to authenticate, none of them is.
pub open spec fn unmet(name: Seq<char>, i: IntegrationModel) -> AmErrorModel {
    AmErrorModel::ContainerError(
        match (i.alternatives_message, i.unsatisfied_path) {
            (Some(message), _) => "agent '"@ + name + "' has no credentials: "@ + message,
            (None, Some(p)) => "checking agent credentials for '"@ + name + "' at "@ + p + ": agent '"@ + name
                + "' requires path to exist: "@ + p + "\nMake sure "@ + name
                + " is installed and authenticated on this system"@,
            (None, None) => "agent '"@ + name + "' has no credentials"@,
        },
    )
}

/// Makes the error for an agent whose requirements are not met.
pub fn unsatisfied(name: &str, integration: &Integration) -> (r: AmError)
    ensures
        r.deep_view() == unmet(name@, integration.deep_view()),
{
    match (&integration.alternatives_message, &integration.unsatisfied_path) {
        (Some(message), _) => AmError::ContainerError(
            text::cat4("agent '", name, "' has no credentials: ", message.as_str()),
        ),
        (None, Some(p)) => {
            let mut s = text::cat6(
                "checking agent credentials for '",
                name,
                "' at ",
                p.as_str(),
                ": agent '",
                name,
            );
            s.append("' requires path to exist: ");
            s.append(p.as_str());
            s.append("\nMake sure ");
            s.append(name);
            s.append(" is installed and authenticated on this system");
            AmError::ContainerError(s)
        },
        (None, None) => AmError::ContainerError(text::cat3("agent '", name, "' has no credentials")),
    }
}

/// The first required credential that keeps a session from starting: one whose path is unknown, or
/// missing.
pub open spec fn missing_requirement(name: Seq<char>, i: IntegrationModel, ms: Seq<CredentialModel>) -> Option<
    AmErrorModel,
>
    decreases ms.len(),
{
    if ms.len() == 0 {
        None
    } else if !ms[0].required {
        missing_requirement(name, i, ms.drop_first())
    } else {
        match ms[0].host {
            Err(e) => Some(AmErrorModel::ContainerError(e)),
            Ok(_) => if ms[0].found {
                missing_requirement(name, i, ms.drop_first())
            } else {
                Some(unmet(name, i))
            },
        }
    }
}

fn check_required(name: &str, integration: &Integration) -> (r: Result<(), AmError>)
    ensures
        crate::error::outcome(r) == (match missing_requirement(
            name@,
            integration.deep_view(),
            integration.deep_view().mounts,
        ) {
            Some(e) => Err::<(), AmErrorModel>(e),
            None => Ok(()),
        }),
{
    let ghost i0 = integration.deep_view();
    let ghost all = i0.mounts;
    let mut i: usize = 0;
    assert(all.subrange(0, all.len() as int) =~= all);
    while i < integration.mounts.len()
        invariant
            i0 == integration.deep_view(),
            all == i0.mounts,
            i <= integration.mounts.len(),
            missing_requirement(name@, i0, all) == missing_requirement(
                name@,
                i0,
                all.subrange(i as int, all.len() as int),
            ),
        decreases integration.mounts.len() - i,
    {
        let ghost rest = all.subrange(i as int, all.len() as int);
        assert(rest[0] == integration.mounts@[i as int].deep_view());
        assert(rest.drop_first() =~= all.subrange(i + 1, all.len() as int));
        let m = &integration.mounts[i];
        if m.required {
            match &m.host {
                Err(e) => {
                    return Err(AmError::ContainerError(e.clone()));
                },
                Ok(_) => {
                    if !m.found {
                        return Err(unsatisfied(name, integration));
                    }
                },
            }
        }
        i = i + 1;
    }
    Ok(())
}

/// The variables an agent gets: those of the host that hold more than whitespace, and the GitHub token
/// where it is asked for.
pub open spec fn auth_env(
    sources: Seq<EnvSourceModel>,
    env: Seq<(Seq<char>, Seq<char>)>,
    token: Result<Seq<char>, AmErrorModel>,
) -> Result<Seq<(Seq<char>, Seq<char>)>, AmErrorModel>
    decreases sources.len(),
{
    if sources.len() == 0 {
        Ok(Seq::empty())
    } else {
        match auth_env(sources.drop_last(), env, token) {
            Err(e) => Err(e),
            Ok(before) => match sources.last() {
                EnvSourceModel::Passthrough(var) => match strmap::get(env, var) {
                    Some(v) if text::trimmed(v).len() > 0 => Ok(before.push((var, v))),
                    _ => Ok(before),
                },
                EnvSourceModel::GhToken => match token {
                    Ok(t) => Ok(before.push(("GH_TOKEN"@, t))),
                    Err(e) => Err(e),
                },
            },
        }
    }
}

proof fn lemma_auth_env_error(
    sources: Seq<EnvSourceModel>,
    env: Seq<(Seq<char>, Seq<char>)>,
    token: Result<Seq<char>, AmErrorModel>,
    n: int,
)
    requires
        0 <= n <= sources.len(),
        auth_env(sources.subrange(0, n), env, token) is Err,
    ensures
        auth_env(sources, env, token) == auth_env(sources.subrange(0, n), env, token),
    decreases sources.len() - n,
{
    if n < sources.len() {
        assert(sources.subrange(0, n + 1).drop_last() =~= sources.subrange(0, n));
        lemma_auth_env_error(sources, env, token, n + 1);
    } else {
        assert(sources.subrange(0, n) =~= sources);
    }
}

fn collect_env(sources: &Vec<EnvSource>, env: &StrMap<String>, token: Result<String, AmError>) -> (r: Result<
    Vec<(String, String)>,
    AmError,
>)
    ensures
        crate::error::outcome(r) == auth_env(sources.deep_view(), env.deep_view(), crate::error::outcome(token)),
{
    let ghost all = sources.deep_view();
    let ghost e0 = env.deep_view();
    let ghost t0 = crate::error::outcome(token);
    let mut out: Vec<(String, String)> = Vec::new();
    let mut i: usize = 0;
    assert(out.deep_view() =~= Seq::<(Seq<char>, Seq<char>)>::empty());
    while i < sources.len()
        invariant
            all == sources.deep_view(),
            e0 == env.deep_view(),
            t0 == crate::error::outcome(token),
            i <= sources.len(),
            auth_env(all.subrange(0, i as int), e0, t0) == Ok::<Seq<(Seq<char>, Seq<char>)>, AmErrorModel>(
                out.deep_view(),
            ),
        decreases sources.len() - i,
    {
        assert(all.subrange(0, i + 1).drop_last() =~= all.subrange(0, i as int));
        assert(all[i as int] == sources@[i as int].deep_view());
        let ghost before = out.deep_view();
        match &sources[i] {
            EnvSource::Passthrough(var) => match env.get(var.as_str()) {
                Some(v) => {
                    if !text::trim(v.as_str()).is_empty() {
                        out.push((var.clone(), v.clone()));
                        assert(out.deep_view() =~= before.push((var@, v@)));
                    }
                },
                None => {},
            },
            EnvSource::GhToken => match &token {
                Ok(t) => {
                    out.push(("GH_TOKEN".to_owned(), t.clone()));
                    assert(out.deep_view() =~= before.push(("GH_TOKEN"@, t@)));
                },
                Err(_) => {
                    proof {
                        lemma_auth_env_error(all, e0, t0, i + 1);
                    }
                    return match token {
                        Ok(_) => Ok(out),
                        Err(e) => Err(e),
                    };
                },
            },
        }
        i = i + 1;
    }
    assert(all.subrange(0, all.len() as int) =~= all);
    Ok(out)
}

/// What an agent needs to authenticate, or why it cannot.
pub open spec fn auth_of(
    h: HarnessModel,
    home: Seq<char>,
    env: Seq<(Seq<char>, Seq<char>)>,
    token: Result<Seq<char>, AmErrorModel>,
) -> Result<AuthModel, AmErrorModel> {
    match h.integration {
        None => Ok(AuthModel { mounts: Seq::empty(), env: Seq::empty() }),
        Some(i) => match credentials(h, home) {
            Err(e) => Err(e),
            Ok(mounts) => match missing_requirement(h.name, i, i.mounts) {
                Some(e) => Err(e),
                None => match auth_env(i.env, env, token) {
                    Err(e) => Err(e),
                    Ok(env) => if mounts.len() == 0 && env.len() == 0 {
                        Err(unmet(h.name, i))
                    } else {
                        Ok(AuthModel { mounts, env })
                    },
                },
            },
        },
    }
}

/// Resolves and validates what an agent needs to authenticate, before a container is started. `token`
/// is what the GitHub CLI answered; it matters only to an agent that asks for it.
pub fn preflight_agent_auth(
    harness: &Harness,
    home_in_container: &str,
    env: &StrMap<String>,
    token: Result<String, AmError>,
) -> (r: Result<AgentAuth, AmError>)
    ensures
        crate::error::outcome(r) == auth_of(
            harness.deep_view(),
            home_in_container@,
            env.deep_view(),
            crate::error::outcome(token),
        ),
{
    let integration = match &harness.integration {
        Some(i) => i,
        None => {
            let r = AgentAuth { mounts: Vec::new(), env: Vec::new() };
            assert(r.mounts.deep_view() =~= Seq::<AuthMountModel>::empty());
            assert(r.env.deep_view() =~= Seq::<(Seq<char>, Seq<char>)>::empty());
            return Ok(r);
        },
    };
    let mounts = match resolve_credential_mounts(harness, home_in_container) {
        Ok(m) => m,
        Err(e) => {
            return Err(e);
        },
    };
    match check_required(harness.name.as_str(), integration) {
        Ok(()) => {},
        Err(e) => {
            return Err(e);
        },
    }
    let env = match collect_env(&integration.env, env, token) {
        Ok(e) => e,
        Err(e) => {
            return Err(e);
        },
    };
    if mounts.len() == 0 && env.len() == 0 {
        return Err(unsatisfied(harness.name.as_str(), integration));
    }
    Ok(AgentAuth { mounts, env })
}

/// Checks that an agent's credentials exist on the host, wherever they will be mounted.
pub fn validate_agent_credentials(harness: &Harness) -> (r: Result<(), AmError>)
    ensures
        crate::error::outcome(r) == (match harness.deep_view().integration {
            Some(i) if !i.satisfied => Err::<(), AmErrorModel>(unmet(harness.deep_view().name, i)),
            _ => Ok(()),
        }),
{
    match &harness.integration {
        Some(i) => if i.satisfied {
            Ok(())
        } else {
            Err(unsatisfied(harness.name.as_str(), i))
        },
        None => Ok(()),
    }
}

/// How to obtain an agent's credentials; nothing for an agent that needs none.
pub fn credentials_hint(harness: &Harness) -> (r: &str)
    ensures
        r@ == (match harness.deep_view().integration {
            Some(i) => i.hint,
            None => Seq::empty(),
        }),
{
    match &harness.integration {
        Some(i) => i.hint.as_str(),
        None => {
            proof {
                reveal_strlit("");
                assert(""@ =~= Seq::empty());
            }
            ""
        },
    }
}

// ----------------------------------------------------------------------------------------------
// What an agent is given
// ----------------------------------------------------------------------------------------------

/// Where a credential is mounted: at its own path where that is absolute, and otherwise in the home.
pub open spec fn lands_at(home: Seq<char>, target: Seq<char>) -> Seq<char> {
    if target.len() > 0 && target[0] == '/' {
        target
    } else {
        home + "/"@ + target
    }
}

/// Every credential of an agent is mounted where the agent looks for it and in the mode it asks for,
/// except one that is only wanted where it exists and does not. Nothing else is mounted. Where a host path
/// is unknown, an agent that can do without a home gets none, and any other is an error.
pub proof fn law_credentials_are_mounted(h: HarnessModel, home: Seq<char>, k: int)
    ensures
        h.integration is None ==> credentials(h, home) == Ok::<Seq<AuthMountModel>, AmErrorModel>(Seq::empty()),
        h.integration matches Some(i) ==> {
            let known = forall|j: int| 0 <= j < i.mounts.len() ==> (#[trigger] i.mounts[j]).host is Ok;
            &&& known ==> credentials(h, home) is Ok
            &&& !known && i.home_optional ==> credentials(h, home) == Ok::<Seq<AuthMountModel>, AmErrorModel>(
                Seq::empty(),
            )
            &&& !known && !i.home_optional ==> credentials(h, home) is Err
            &&& known && 0 <= k < i.mounts.len() && !(i.mounts[k].only_if_exists && !i.mounts[k].found) ==> credentials(
                h,
                home,
            )->Ok_0.contains(
                (AuthMountModel {
                    host_path: i.mounts[k].host->Ok_0,
                    container_path: lands_at(home, i.mounts[k].container),
                    mode: i.mounts[k].mode,
                }),
            )
            &&& known ==> forall|a: AuthMountModel| #[trigger]
                credentials(h, home)->Ok_0.contains(a) ==> exists|j: int|
                    0 <= j < i.mounts.len() && (#[trigger] i.mounts[j]).host == Ok::<Seq<char>, Seq<char>>(
                        a.host_path,
                    ) && a.container_path == lands_at(home, i.mounts[j].container) && a.mode == i.mounts[j].mode && !(
                    i.mounts[j].only_if_exists && !i.mounts[j].found)
        },
{
    match h.integration {
        Some(i) => {
            lemma_all_credentials(i.mounts, home, k);
        },
        None => {},
    }
}

proof fn lemma_all_credentials(ms: Seq<CredentialModel>, home: Seq<char>, k: int)
    ensures
        ({
            let known = forall|j: int| 0 <= j < ms.len() ==> (#[trigger] ms[j]).host is Ok;
            let r = all_credentials(ms, home);
            &&& r is Ok <==> known
            &&& known && 0 <= k < ms.len() && !(ms[k].only_if_exists && !ms[k].found) ==> r->Ok_0.contains(
                (AuthMountModel {
                    host_path: ms[k].host->Ok_0,
                    container_path: lands_at(home, ms[k].container),
                    mode: ms[k].mode,
                }),
            )
            &&& known ==> forall|a: AuthMountModel| #[trigger]
                r->Ok_0.contains(a) ==> exists|j: int|
                    0 <= j < ms.len() && (#[trigger] ms[j]).host == Ok::<Seq<char>, Seq<char>>(a.host_path)
                        && a.container_path == lands_at(home, ms[j].container) && a.mode == ms[j].mode && !(
                    ms[j].only_if_exists && !ms[j].found)
        }),
    decreases ms.len(),
{
    if ms.len() > 0 {
        let front = ms.drop_last();
        let last = ms.len() - 1;
        lemma_all_credentials(front, home, k);
        assert(ms[last] == ms.last());
        assert(forall|j: int| 0 <= j < front.len() ==> #[trigger] front[j] == ms[j]);
        let known = forall|j: int| 0 <= j < ms.len() ==> (#[trigger] ms[j]).host is Ok;
        if known {
            assert forall|j: int| 0 <= j < front.len() implies (#[trigger] front[j]).host is Ok by {
                assert(ms[j].host is Ok);
            }
            let before = all_credentials(front, home)->Ok_0;
            let more = credential_mount(ms.last(), ms.last().host->Ok_0, home);
            let all = all_credentials(ms, home)->Ok_0;
            assert(all == before + more);
            if 0 <= k < ms.len() && !(ms[k].only_if_exists && !ms[k].found) {
                let want = AuthMountModel {
                    host_path: ms[k].host->Ok_0,
                    container_path: lands_at(home, ms[k].container),
                    mode: ms[k].mode,
                };
                if k < last {
                    let i = choose|i: int| 0 <= i < before.len() && before[i] == want;
                    assert(all[i] == want);
                } else {
                    assert(all[before.len() as int] == want);
                }
            }
            assert forall|a: AuthMountModel| #[trigger] all.contains(a) implies exists|j: int|
                0 <= j < ms.len() && (#[trigger] ms[j]).host == Ok::<Seq<char>, Seq<char>>(a.host_path)
                    && a.container_path == lands_at(home, ms[j].container) && a.mode == ms[j].mode && !(
                ms[j].only_if_exists && !ms[j].found) by {
                let i = choose|i: int| 0 <= i < all.len() && all[i] == a;
                if i < before.len() {
                    assert(before[i] == a);
                    assert(before.contains(a));
                    let j = choose|j: int|
                        0 <= j < front.len() && (#[trigger] front[j]).host == Ok::<Seq<char>, Seq<char>>(a.host_path)
                            && a.container_path == lands_at(home, front[j].container) && a.mode == front[j].mode && !(
                        front[j].only_if_exists && !front[j].found);
                    assert(ms[j] == front[j]);
                } else {
                    assert(ms[last].host == Ok::<Seq<char>, Seq<char>>(a.host_path));
                }
            }
        } else if forall|j: int| 0 <= j < front.len() ==> (#[trigger] front[j]).host is Ok {
            let j = choose|j: int| 0 <= j < ms.len() && (#[trigger] ms[j]).host !is Ok;
            if j < last {
                assert(front[j].host is Ok);
            }
            assert(ms.last().host is Err);
        } else {
            let j = choose|j: int| 0 <= j < front.len() && (#[trigger] front[j]).host !is Ok;
            assert(ms[j].host !is Ok);
        }
    }
}

/// Every variable that an agent asks for is passed with the host's value, where that is more than
/// whitespace, and the token where it is asked for. Where the token cannot be had, that is the error.
pub proof fn law_variables_are_taken_from_the_host(
    sources: Seq<EnvSourceModel>,
    env: Seq<(Seq<char>, Seq<char>)>,
    token: Result<Seq<char>, AmErrorModel>,
    k: int,
)
    ensures
        ({
            let r = auth_env(sources, env, token);
            let asked = sources.contains(EnvSourceModel::GhToken);
            &&& r is Err <==> asked && token is Err
            &&& r is Err ==> r->Err_0 == token->Err_0
            &&& r is Ok && 0 <= k < sources.len() ==> match sources[k] {
                EnvSourceModel::Passthrough(var) => match strmap::get(env, var) {
                    Some(v) => text::trimmed(v).len() > 0 ==> r->Ok_0.contains((var, v)),
                    None => true,
                },
                EnvSourceModel::GhToken => r->Ok_0.contains(("GH_TOKEN"@, token->Ok_0)),
            }
            &&& r is Ok ==> forall|e: (Seq<char>, Seq<char>)| #[trigger]
                r->Ok_0.contains(e) ==> (asked && e.0 == "GH_TOKEN"@ && token == Ok::<Seq<char>, AmErrorModel>(e.1)) || (
                sources.contains(EnvSourceModel::Passthrough(e.0)) && strmap::get(env, e.0) == Some(e.1) && text::trimmed(
                    e.1,
                ).len() > 0)
        }),
    decreases sources.len(),
{
    if sources.len() > 0 {
        let front = sources.drop_last();
        let last = sources.len() - 1;
        law_variables_are_taken_from_the_host(front, env, token, k);
        assert(sources[last] == sources.last());
        assert forall|x: EnvSourceModel| front.contains(x) implies #[trigger] sources.contains(x) by {
            let i = choose|i: int| 0 <= i < front.len() && front[i] == x;
            assert(sources[i] == x);
        }
        assert forall|x: EnvSourceModel| #[trigger] sources.contains(x) implies front.contains(x) || x
            == sources.last() by {
            let i = choose|i: int| 0 <= i < sources.len() && sources[i] == x;
            if i < last {
                assert(front[i] == x);
            }
        }
        let r = auth_env(sources, env, token);
        if r is Ok {
            let before = auth_env(front, env, token)->Ok_0;
            let all = r->Ok_0;
            assert forall|e: (Seq<char>, Seq<char>)| before.contains(e) implies #[trigger] all.contains(e) by {
                let i = choose|i: int| 0 <= i < before.len() && before[i] == e;
                assert(all[i] == e);
            }
            if all.len() > before.len() {
                assert(all.contains(all[before.len() as int]));
            }
            assert forall|e: (Seq<char>, Seq<char>)| #[trigger] all.contains(e) implies before.contains(e) || (
            all.len() > before.len() && e == all[before.len() as int]) by {
                let i = choose|i: int| 0 <= i < all.len() && all[i] == e;
                if i < before.len() {
                    assert(before[i] == e);
                }
            }
        }
    }
}

/// An agent can start exactly where its required credentials are known and there, its credentials can be
/// mounted, its variables can be had, and at least one of them is something. It is then given those
/// mounts and those variables. An agent without an integration needs nothing.
pub proof fn law_an_agent_starts_with_its_credentials(
    h: HarnessModel,
    home: Seq<char>,
    env: Seq<(Seq<char>, Seq<char>)>,
    token: Result<Seq<char>, AmErrorModel>,
)
    ensures
        h.integration is None ==> {
            &&& auth_of(h, home, env, token) is Ok
            &&& auth_of(h, home, env, token)->Ok_0.mounts.len() == 0
            &&& auth_of(h, home, env, token)->Ok_0.env.len() == 0
        },
        h.integration matches Some(i) ==> {
            let r = auth_of(h, home, env, token);
            let required = forall|j: int|
                0 <= j < i.mounts.len() && (#[trigger] i.mounts[j]).required ==> i.mounts[j].host is Ok
                    && i.mounts[j].found;
            let m = credentials(h, home);
            let e = auth_env(i.env, env, token);
            &&& r is Ok <==> required && m is Ok && e is Ok && (m->Ok_0.len() > 0 || e->Ok_0.len() > 0)
            &&& r is Ok ==> r->Ok_0.mounts == m->Ok_0 && r->Ok_0.env == e->Ok_0
        },
{
    match h.integration {
        Some(i) => {
            lemma_missing(h.name, i, i.mounts);
        },
        None => {},
    }
}

proof fn lemma_missing(name: Seq<char>, i: IntegrationModel, ms: Seq<CredentialModel>)
    ensures
        missing_requirement(name, i, ms) is None <==> forall|j: int|
            0 <= j < ms.len() && (#[trigger] ms[j]).required ==> ms[j].host is Ok && ms[j].found,
    decreases ms.len(),
{
    if ms.len() > 0 {
        let rest = ms.drop_first();
        lemma_missing(name, i, rest);
        assert(forall|j: int| 0 <= j < rest.len() ==> #[trigger] rest[j] == ms[j + 1]);
        let fine = forall|j: int|
            0 <= j < ms.len() && (#[trigger] ms[j]).required ==> ms[j].host is Ok && ms[j].found;
        if fine {
            assert forall|j: int| 0 <= j < rest.len() && (#[trigger] rest[j]).required implies rest[j].host is Ok
                && rest[j].found by {
                assert(ms[j + 1].required);
            }
            assert(ms[0].required ==> ms[0].host is Ok && ms[0].found);
        }
        if missing_requirement(name, i, ms) is None {
            assert forall|j: int| 0 <= j < ms.len() && (#[trigger] ms[j]).required implies ms[j].host is Ok
                && ms[j].found by {
                if j > 0 {
                    assert(rest[j - 1] == ms[j]);
                }
            }
        }
    }
}

} // verus!
