//! The trust gate: what a repository's config is granted.

use vstd::prelude::*;

use crate::config::Config;
use crate::container::{DevcontainerRuntime, DevcontainerRuntimeModel};
use crate::devcontainer::merge::{self, ResolvedConfig, ResolvedModel};
use crate::devcontainer::mount::{NormalizedMount, NormalizedMountModel};
use crate::devcontainer::snippet::{self, UserEnvProbe};
use crate::duplicate::Duplicate;
use crate::strmap::StrMap;
use crate::text;

verus! {

// ----------------------------------------------------------------------------------------------
// Bind mounts
// ----------------------------------------------------------------------------------------------

/// Whether `p` is `dir` or lies below it, as the path is written.
pub open spec fn lies_within(p: Seq<char>, dir: Seq<char>) -> bool {
    (p == dir || text::has_prefix(p, dir + "/"@)) && !text::split_at(p, '/').contains(".."@)
}

/// Whether a mount shows the container something of the host beyond the worktree.
pub open spec fn reaches_out(m: NormalizedMountModel, worktree: Seq<char>) -> bool {
    m.kind == "bind"@ && m.source is Some && !lies_within(m.source->0, worktree)
}

/// The mounts that stay within the worktree.
pub open spec fn confined(ms: Seq<NormalizedMountModel>, worktree: Seq<char>) -> Seq<NormalizedMountModel>
    decreases ms.len(),
{
    if ms.len() == 0 {
        Seq::empty()
    } else {
        let rest = confined(ms.drop_last(), worktree);
        if reaches_out(ms.last(), worktree) {
            rest
        } else {
            rest.push(ms.last())
        }
    }
}

fn is_within(p: &str, dir: &str) -> (r: bool)
    ensures
        r == lies_within(p@, dir@),
{
    let prefix = text::cat2(dir, "/");
    let parts = text::split(p, '/');
    (text::eq(p, dir) || text::starts_with(p, prefix.as_str())) && !merge::contains_text(&parts, "..")
}

fn confine(ms: &Vec<NormalizedMount>, worktree: &str) -> (r: Vec<NormalizedMount>)
    ensures
        r.deep_view() == confined(ms.deep_view(), worktree@),
{
    let ghost all = ms.deep_view();
    let mut out: Vec<NormalizedMount> = Vec::new();
    let mut i: usize = 0;
    assert(out.deep_view() =~= confined(all.subrange(0, 0), worktree@));
    while i < ms.len()
        invariant
            all == ms.deep_view(),
            i <= ms.len(),
            out.deep_view() == confined(all.subrange(0, i as int), worktree@),
        decreases ms.len() - i,
    {
        assert(all.subrange(0, i + 1).drop_last() =~= all.subrange(0, i as int));
        assert(all[i as int] == ms@[i as int].deep_view());
        let ghost before = out.deep_view();
        let out_of_reach = match &ms[i].source {
            Some(s) => text::eq(ms[i].kind.as_str(), "bind") && !is_within(s.as_str(), worktree),
            None => false,
        };
        if !out_of_reach {
            out.push(ms[i].duplicate());
            assert(out.deep_view() =~= before.push(all[i as int]));
        }
        i = i + 1;
    }
    assert(all.subrange(0, all.len() as int) =~= all);
    out
}

// ----------------------------------------------------------------------------------------------
// What is granted
// ----------------------------------------------------------------------------------------------

/// The variables that are set, without those that are deliberately not.
pub open spec fn set_values(m: Seq<(Seq<char>, Option<Seq<char>>)>) -> Seq<(Seq<char>, Seq<char>)>
    decreases m.len(),
{
    if m.len() == 0 {
        Seq::empty()
    } else {
        let rest = set_values(m.drop_last());
        match m.last().1 {
            Some(v) => rest.push((m.last().0, v)),
            None => rest,
        }
    }
}

/// What a merged configuration becomes at run time. Options that reach beyond the container come from a
/// file in the repository, so they are dropped unless the user allows them. So are the bind mounts that
/// show the container something of the host beyond the session's worktree.
pub open spec fn trusted(r: ResolvedModel, allow: bool, worktree: Seq<char>) -> DevcontainerRuntimeModel {
    DevcontainerRuntimeModel {
        env: r.container_env + set_values(r.remote_env),
        mounts: if allow {
            r.mounts
        } else {
            confined(r.mounts, worktree)
        },
        init: r.init,
        privileged: allow && r.privileged,
        cap_add: if allow {
            r.cap_add
        } else {
            Seq::empty()
        },
        security_opt: r.security_opt,
        run_args: if allow {
            r.run_args
        } else {
            Seq::empty()
        },
        workdir: r.workspace_folder,
        entrypoints: r.entrypoints,
        drop_to: None,
        update_remote_user_uid: false,
        user_env_probe: snippet::probe_of(r.user_env_probe),
        ports: r.forward_ports,
        user: merge::later(r.container_user, r.remote_user),
    }
}

fn environment(container_env: &StrMap<String>, remote_env: &StrMap<Option<String>>) -> (r: Vec<(String, String)>)
    ensures
        r.deep_view() == container_env.deep_view() + set_values(remote_env.deep_view()),
{
    let mut env: Vec<(String, String)> = Vec::new();
    let ghost c = container_env.deep_view();
    let n: usize = container_env.len();
    let mut i: usize = 0;
    assert(env.deep_view() =~= c.subrange(0, 0));
    while i < n
        invariant
            c == container_env.deep_view(),
            n == c.len(),
            i <= n,
            env.deep_view() == c.subrange(0, i as int),
        decreases n - i,
    {
        let (k, v) = container_env.at(i);
        let ghost before = env.deep_view();
        env.push((k.to_owned(), v.clone()));
        assert(env.deep_view() =~= before.push((k@, v@)));
        i = i + 1;
        assert(env.deep_view() =~= c.subrange(0, i as int));
    }
    assert(c.subrange(0, n as int) =~= c);
    let ghost m = remote_env.deep_view();
    let n: usize = remote_env.len();
    let mut i: usize = 0;
    assert(c =~= c + set_values(m.subrange(0, 0)));
    while i < n
        invariant
            m == remote_env.deep_view(),
            n == m.len(),
            i <= n,
            env.deep_view() == c + set_values(m.subrange(0, i as int)),
        decreases n - i,
    {
        let (k, v) = remote_env.at(i);
        let ghost before = env.deep_view();
        assert(m.subrange(0, i + 1).drop_last() =~= m.subrange(0, i as int));
        match v {
            Some(value) => {
                env.push((k.to_owned(), value.clone()));
                assert(env.deep_view() =~= before.push((k@, value@)));
                assert(env.deep_view() =~= c + set_values(m.subrange(0, i + 1)));
            },
            None => {},
        }
        i = i + 1;
    }
    assert(m.subrange(0, n as int) =~= m);
    env
}

/// Translates a merged configuration into runtime settings, without the options that are not granted.
/// `worktree` is the session's worktree. It and the mounts' sources are compared as they are written, so
/// they are given resolved, with no symbolic link left in them.
pub fn apply_trust(resolved: &ResolvedConfig, cfg: &Config, worktree: &str) -> (r: DevcontainerRuntime)
    ensures
        r.deep_view() == trusted(resolved.deep_view(), cfg.devcontainer.allow_host_commands, worktree@),
{
    let allow = cfg.devcontainer.allow_host_commands;
    let empty: Vec<String> = Vec::new();
    assert(empty.deep_view() =~= Seq::<Seq<char>>::empty());
    let probe = match &resolved.user_env_probe {
        Some(p) => UserEnvProbe::parse(Some(p.as_str())),
        None => UserEnvProbe::parse(None),
    };
    let user = if resolved.remote_user.is_some() {
        resolved.remote_user.duplicate()
    } else {
        resolved.container_user.duplicate()
    };
    DevcontainerRuntime {
        env: environment(&resolved.container_env, &resolved.remote_env),
        mounts: if allow {
            resolved.mounts.duplicate()
        } else {
            confine(&resolved.mounts, worktree)
        },
        init: resolved.init,
        privileged: allow && resolved.privileged,
        cap_add: if allow {
            resolved.cap_add.duplicate()
        } else {
            empty.duplicate()
        },
        security_opt: resolved.security_opt.duplicate(),
        run_args: if allow {
            resolved.run_args.duplicate()
        } else {
            empty.duplicate()
        },
        workdir: resolved.workspace_folder.duplicate(),
        entrypoints: resolved.entrypoints.duplicate(),
        drop_to: None,
        update_remote_user_uid: false,
        user_env_probe: probe,
        ports: resolved.forward_ports.duplicate(),
        user,
    }
}

/// Without the user's leave a config is granted no privileges, no capabilities and no raw flags, and
/// no bind mount beyond the worktree.
pub proof fn law_escalation_is_opt_in(r: ResolvedModel, worktree: Seq<char>)
    ensures
        ({
            let t = trusted(r, false, worktree);
            &&& !t.privileged
            &&& t.cap_add.len() == 0
            &&& t.run_args.len() == 0
            &&& forall|i: int| 0 <= i < t.mounts.len() ==> !reaches_out(#[trigger] t.mounts[i], worktree)
        }),
{
    lemma_confined(r.mounts, worktree);
}

/// The session runs as the remote user where the merged config names one, as the container user where
/// it names only that one, and as no named user where it names neither.
pub proof fn law_the_remote_user_is_preferred(r: ResolvedModel, allow: bool, worktree: Seq<char>)
    ensures
        r.remote_user is Some ==> trusted(r, allow, worktree).user == r.remote_user,
        r.remote_user is None && r.container_user is Some ==> trusted(r, allow, worktree).user == r.container_user,
        r.remote_user is None && r.container_user is None ==> trusted(r, allow, worktree).user is None,
{
}

/// With the user's leave a config is granted all that it asks for. What does not reach beyond the
/// container it is granted either way.
pub proof fn law_the_rest_is_granted(r: ResolvedModel, allow: bool, worktree: Seq<char>)
    ensures
        ({
            let t = trusted(r, allow, worktree);
            &&& allow ==> t.privileged == r.privileged && t.cap_add == r.cap_add && t.run_args == r.run_args
                && t.mounts == r.mounts
            &&& t.init == r.init
            &&& t.security_opt == r.security_opt
            &&& t.workdir == r.workspace_folder
            &&& t.entrypoints == r.entrypoints
            &&& t.ports == r.forward_ports
            &&& t.drop_to is None
            &&& !t.update_remote_user_uid
            &&& forall|i: int|
                0 <= i < r.mounts.len() && (r.mounts[i].kind != "bind"@ || r.mounts[i].source is None
                    || r.mounts[i].source == Some(worktree) && !text::split_at(worktree, '/').contains(".."@))
                    ==> t.mounts.contains(#[trigger] r.mounts[i])
            &&& forall|i: int| 0 <= i < t.mounts.len() ==> r.mounts.contains(#[trigger] t.mounts[i])
        }),
{
    lemma_confined_keeps(r.mounts, worktree);
    if allow {
        assert forall|i: int| 0 <= i < r.mounts.len() implies r.mounts.contains(#[trigger] r.mounts[i]) by {
            assert(r.mounts[i] == r.mounts[i]);
        }
    }
}

/// A bind mount is within the worktree when its source is the worktree or is written as a path below it,
/// and no part of that path leads back up.
pub proof fn law_what_lies_within(worktree: Seq<char>, rest: Seq<char>, m: NormalizedMountModel)
    requires
        m.kind == "bind"@,
        m.source is Some,
    ensures
        text::split_at(m.source->0, '/').contains(".."@) ==> reaches_out(m, worktree),
        m.source->0 == worktree + "/"@ + rest && !text::split_at(m.source->0, '/').contains(".."@) ==> !reaches_out(
            m,
            worktree,
        ),
        m.source->0 == worktree && !text::split_at(worktree, '/').contains(".."@) ==> !reaches_out(m, worktree),
        m.source->0 == worktree + rest && rest.len() > 0 && rest[0] != '/' ==> reaches_out(m, worktree),
        m.source->0.len() < worktree.len() ==> reaches_out(m, worktree),
{
    reveal_strlit("/");
    let p = m.source->0;
    if p == worktree + "/"@ + rest {
        assert(p.subrange(0, (worktree + "/"@).len() as int) =~= worktree + "/"@);
    }
    if p == worktree + rest && rest.len() > 0 && text::has_prefix(p, worktree + "/"@) {
        assert(p[worktree.len() as int] == rest[0]);
        assert(p.subrange(0, (worktree + "/"@).len() as int)[worktree.len() as int] == (worktree + "/"@)[worktree.len() as int]);
    }
}

/// The container's variables come first and the remote ones after them, so that where both name one the
/// remote value is the last. A remote variable that is deliberately unset adds nothing, and nothing else
/// is added.
pub proof fn law_remote_variables_come_last(r: ResolvedModel, allow: bool, worktree: Seq<char>)
    ensures
        ({
            let env = trusted(r, allow, worktree).env;
            let n = r.container_env.len();
            &&& env.len() >= n
            &&& forall|i: int| 0 <= i < n ==> #[trigger] env[i] == r.container_env[i]
            &&& forall|i: int|
                0 <= i < r.remote_env.len() && (#[trigger] r.remote_env[i]).1 is Some ==> env.subrange(
                    n as int,
                    env.len() as int,
                ).contains((r.remote_env[i].0, r.remote_env[i].1->0))
            &&& forall|j: int|
                n <= j < env.len() ==> r.remote_env.contains(((#[trigger] env[j]).0, Some(env[j].1)))
        }),
{
    let env = trusted(r, allow, worktree).env;
    let n = r.container_env.len();
    lemma_set_values(r.remote_env);
    assert(env.subrange(n as int, env.len() as int) =~= set_values(r.remote_env));
    assert forall|j: int| n <= j < env.len() implies r.remote_env.contains(
        ((#[trigger] env[j]).0, Some(env[j].1)),
    ) by {
        assert(env[j] == set_values(r.remote_env)[j - n]);
    }
}

proof fn lemma_set_values(m: Seq<(Seq<char>, Option<Seq<char>>)>)
    ensures
        forall|i: int|
            0 <= i < m.len() && (#[trigger] m[i]).1 is Some ==> set_values(m).contains((m[i].0, m[i].1->0)),
        forall|j: int|
            0 <= j < set_values(m).len() ==> m.contains(((#[trigger] set_values(m)[j]).0, Some(set_values(m)[j].1))),
    decreases m.len(),
{
    if m.len() > 0 {
        let front = m.drop_last();
        let rest = set_values(front);
        let all = set_values(m);
        lemma_set_values(front);
        assert forall|i: int| 0 <= i < m.len() && (#[trigger] m[i]).1 is Some implies all.contains(
            (m[i].0, m[i].1->0),
        ) by {
            if i < front.len() {
                assert(front[i] == m[i]);
                let j = choose|j: int| 0 <= j < rest.len() && rest[j] == (m[i].0, m[i].1->0);
                assert(all[j] == rest[j]);
            } else {
                assert(all[rest.len() as int] == (m[i].0, m[i].1->0));
            }
        }
        assert forall|j: int| 0 <= j < all.len() implies m.contains(
            ((#[trigger] all[j]).0, Some(all[j].1)),
        ) by {
            if j < rest.len() {
                assert(all[j] == rest[j]);
                let i = choose|i: int| 0 <= i < front.len() && front[i] == (rest[j].0, Some(rest[j].1));
                assert(m[i] == front[i]);
            } else {
                assert(m[m.len() - 1] == (all[j].0, Some(all[j].1)));
            }
        }
    }
}

proof fn lemma_confined_keeps(ms: Seq<NormalizedMountModel>, worktree: Seq<char>)
    ensures
        forall|i: int|
            0 <= i < ms.len() && !reaches_out(#[trigger] ms[i], worktree) ==> confined(ms, worktree).contains(ms[i]),
        forall|i: int| 0 <= i < confined(ms, worktree).len() ==> ms.contains(#[trigger] confined(ms, worktree)[i]),
    decreases ms.len(),
{
    if ms.len() > 0 {
        let front = ms.drop_last();
        let rest = confined(front, worktree);
        let out = confined(ms, worktree);
        lemma_confined_keeps(front, worktree);
        assert forall|i: int| 0 <= i < ms.len() && !reaches_out(#[trigger] ms[i], worktree) implies out.contains(
            ms[i],
        ) by {
            if i < front.len() {
                assert(front[i] == ms[i]);
                let j = choose|j: int| 0 <= j < rest.len() && rest[j] == ms[i];
                assert(out[j] == rest[j]);
            } else {
                assert(out[rest.len() as int] == ms[i]);
            }
        }
        assert forall|i: int| 0 <= i < out.len() implies ms.contains(#[trigger] out[i]) by {
            if i < rest.len() {
                assert(out[i] == rest[i]);
                let j = choose|j: int| 0 <= j < front.len() && front[j] == rest[i];
                assert(ms[j] == front[j]);
            } else {
                assert(ms[ms.len() - 1] == out[i]);
            }
        }
    }
}

proof fn lemma_confined(ms: Seq<NormalizedMountModel>, worktree: Seq<char>)
    ensures
        forall|i: int|
            0 <= i < confined(ms, worktree).len() ==> !reaches_out(#[trigger] confined(ms, worktree)[i], worktree),
    decreases ms.len(),
{
    if ms.len() > 0 {
        let rest = confined(ms.drop_last(), worktree);
        let out = confined(ms, worktree);
        lemma_confined(ms.drop_last(), worktree);
        assert forall|i: int| 0 <= i < out.len() implies !reaches_out(#[trigger] out[i], worktree) by {
            if i < rest.len() {
                assert(out[i] == rest[i]);
            }
        }
    }
}

// ----------------------------------------------------------------------------------------------
// Telling the user
// ----------------------------------------------------------------------------------------------

/// What to tell the user about options that were dropped.
pub open spec fn notes_of(r: ResolvedModel, allow: bool) -> Seq<Seq<char>> {
    if allow {
        Seq::empty()
    } else {
        (if r.privileged {
            seq![
                "this devcontainer asks for --privileged; am is not granting it. Set devcontainer.allow_host_commands = true to allow it."@,
            ]
        } else {
            Seq::empty()
        }) + (if r.cap_add.len() > 0 {
            seq![
                "not granting capabilities requested by this devcontainer: "@ + text::joined(r.cap_add, ", "@),
            ]
        } else {
            Seq::empty()
        }) + (if r.run_args.len() > 0 {
            seq!["ignoring runArgs from this devcontainer: "@ + text::joined(r.run_args, " "@)]
        } else {
            Seq::empty()
        })
    }
}

/// What to tell the user about options that were dropped.
pub fn trust_notes(resolved: &ResolvedConfig, cfg: &Config) -> (r: Vec<String>)
    ensures
        r.deep_view() == notes_of(resolved.deep_view(), cfg.devcontainer.allow_host_commands),
{
    let mut out: Vec<String> = Vec::new();
    if cfg.devcontainer.allow_host_commands {
        assert(out.deep_view() =~= Seq::<Seq<char>>::empty());
        return out;
    }
    if resolved.privileged {
        text::push_str(
            &mut out,
            "this devcontainer asks for --privileged; am is not granting it. Set devcontainer.allow_host_commands = true to allow it.",
        );
    }
    if resolved.cap_add.len() > 0 {
        let list = text::join(&resolved.cap_add, ", ");
        text::push(
            &mut out,
            text::cat2("not granting capabilities requested by this devcontainer: ", list.as_str()),
        );
    }
    if resolved.run_args.len() > 0 {
        let list = text::join(&resolved.run_args, " ");
        text::push(&mut out, text::cat2("ignoring runArgs from this devcontainer: ", list.as_str()));
    }
    assert(out.deep_view() =~= notes_of(resolved.deep_view(), false));
    out
}

/// The user is told of everything that is not granted: of the privileges, of each capability and of each
/// argument. Where everything is granted there is nothing to tell.
pub proof fn law_what_is_dropped_is_told(r: ResolvedModel, k: int)
    ensures
        notes_of(r, true).len() == 0,
        r.privileged ==> is_told(notes_of(r, false), "--privileged"@),
        0 <= k < r.cap_add.len() ==> is_told(notes_of(r, false), r.cap_add[k]),
        0 <= k < r.run_args.len() ==> is_told(notes_of(r, false), r.run_args[k]),
        !r.privileged && r.cap_add.len() == 0 && r.run_args.len() == 0 ==> notes_of(r, false).len() == 0,
{
    let notes = notes_of(r, false);
    let front: int = if r.privileged {
        1
    } else {
        0
    };
    if r.privileged {
        reveal_strlit("--privileged");
        reveal_strlit(
            "this devcontainer asks for --privileged; am is not granting it. Set devcontainer.allow_host_commands = true to allow it.",
        );
        let note =
            "this devcontainer asks for --privileged; am is not granting it. Set devcontainer.allow_host_commands = true to allow it."@;
        let i: int = 27;
        assert(note.subrange(i, i + "--privileged"@.len()) =~= "--privileged"@);
        assert(text::holds(notes[0], "--privileged"@));
    }
    if 0 <= k < r.cap_add.len() {
        let all = text::joined(r.cap_add, ", "@);
        let note = "not granting capabilities requested by this devcontainer: "@ + all;
        text::lemma_joined_holds(r.cap_add, ", "@, k);
        text::lemma_holds_more("not granting capabilities requested by this devcontainer: "@, all, Seq::empty());
        assert(notes[front] == note);
        assert(text::holds(notes[front], r.cap_add[k]));
    }
    if 0 <= k < r.run_args.len() {
        let all = text::joined(r.run_args, " "@);
        let note = "ignoring runArgs from this devcontainer: "@ + all;
        text::lemma_joined_holds(r.run_args, " "@, k);
        text::lemma_holds_more("ignoring runArgs from this devcontainer: "@, all, Seq::empty());
        assert(notes.last() == note);
        assert(text::holds(notes[notes.len() - 1], r.run_args[k]));
    }
}

/// Whether one of some notes speaks of something.
pub open spec fn is_told(notes: Seq<Seq<char>>, of: Seq<char>) -> bool {
    exists|i: int| 0 <= i < notes.len() && text::holds(#[trigger] notes[i], of)
}

} // verus!
