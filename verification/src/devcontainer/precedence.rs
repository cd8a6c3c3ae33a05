//! What merging guarantees of every configuration.

use vstd::prelude::*;

use crate::devcontainer::lifecycle::{CommandModel, LifecycleCommandModel};
use crate::devcontainer::merge;
use crate::devcontainer::mount::{self, MountModel, NormalizedMountModel};
use crate::devcontainer::port::{self, ForwardedPortModel};
use crate::devcontainer::snippet::SnippetModel;
use crate::json::JsonModel;
use crate::strmap;

verus! {

/// No two mounts share a target.
pub open spec fn distinct_targets(ms: Seq<NormalizedMountModel>) -> bool {
    forall|i: int, j: int| #![trigger ms[i], ms[j]] 0 <= i < j < ms.len() ==> ms[i].target != ms[j].target
}

/// A mount of a snippet that has no normal form.
pub open spec fn broken_mount(s: SnippetModel, i: int) -> bool {
    0 <= i < s.mounts.len() && mount::normalized(s.mounts[i]) is Err
}

/// A snippet with a mount that has no normal form.
pub open spec fn broken(s: SnippetModel) -> bool {
    exists|i: int| broken_mount(s, i)
}

proof fn lemma_target_index_bounds(ms: Seq<NormalizedMountModel>, target: Seq<char>)
    ensures
        merge::target_index(ms, target) <= ms.len(),
        merge::target_index(ms, target) < ms.len() ==> ms[merge::target_index(ms, target) as int].target == target,
        forall|j: int| 0 <= j < merge::target_index(ms, target) ==> (#[trigger] ms[j]).target != target,
    decreases ms.len(),
{
    if ms.len() > 0 && ms[0].target != target {
        let t = ms.drop_first();
        lemma_target_index_bounds(t, target);
        assert forall|j: int| 0 <= j < merge::target_index(ms, target) implies (#[trigger] ms[j]).target
            != target by {
            if j > 0 {
                assert(ms[j] == t[j - 1]);
            }
        }
    }
}

proof fn lemma_mounts(base: Seq<NormalizedMountModel>, more: Seq<MountModel>)
    requires
        distinct_targets(base),
    ensures
        merge::mounts_merged(base, more) matches Ok(ms) ==> distinct_targets(ms),
        merge::mounts_merged(base, more) is Err <==> exists|i: int|
            0 <= i < more.len() && mount::normalized(#[trigger] more[i]) is Err,
    decreases more.len(),
{
    if more.len() > 0 {
        let rest = more.drop_last();
        lemma_mounts(base, rest);
        assert(forall|i: int| 0 <= i < rest.len() ==> rest[i] == more[i]);
        if merge::mounts_merged(base, rest) is Err {
            let i = choose|i: int| 0 <= i < rest.len() && mount::normalized(#[trigger] rest[i]) is Err;
            assert(mount::normalized(more[i]) is Err);
        } else if mount::normalized(more.last()) is Err {
            assert(mount::normalized(more[more.len() - 1]) is Err);
        } else {
            let ms = merge::mounts_merged(base, rest)->Ok_0;
            let m = mount::normalized(more.last())->Ok_0;
            lemma_target_index_bounds(ms, m.target);
            let k = merge::target_index(ms, m.target) as int;
            let out = merge::with_mount(ms, m);
            assert forall|i: int, j: int| #![trigger out[i], out[j]] 0 <= i < j < out.len() implies out[i].target
                != out[j].target by {
                if k < ms.len() {
                    assert(out[i].target == ms[i].target && out[j].target == ms[j].target);
                } else if j < ms.len() {
                    assert(out[i] == ms[i] && out[j] == ms[j]);
                } else {
                    assert(out[i] == ms[i]);
                }
            }
            assert forall|i: int| 0 <= i < more.len() implies mount::normalized(#[trigger] more[i]) is Ok by {
                if i < rest.len() {
                    assert(mount::normalized(rest[i]) is Ok);
                }
            }
        }
    }
}

pub proof fn lemma_united(base: Seq<Seq<char>>, more: Seq<Seq<char>>)
    requires
        base.no_duplicates(),
    ensures
        merge::united(base, more).no_duplicates(),
        forall|x: Seq<char>|
            #[trigger] merge::united(base, more).contains(x) <==> base.contains(x) || more.contains(x),
    decreases more.len(),
{
    if more.len() > 0 {
        let rest = more.drop_last();
        lemma_united(base, rest);
        let u = merge::united(base, rest);
        let v = merge::united(base, more);
        assert(more =~= rest.push(more.last()));
        assert forall|x: Seq<char>| #[trigger] v.contains(x) <==> base.contains(x) || more.contains(x) by {
            if more.contains(x) {
                let i = choose|i: int| 0 <= i < more.len() && more[i] == x;
                if i < rest.len() {
                    assert(rest[i] == x);
                    assert(rest.contains(x));
                }
            }
            if rest.contains(x) {
                let i = choose|i: int| 0 <= i < rest.len() && rest[i] == x;
                assert(more[i] == x);
            }
            assert(more[more.len() - 1] == more.last());
            if u.contains(x) {
                let i = choose|i: int| 0 <= i < u.len() && u[i] == x;
                assert(v[i] == x);
            }
            if v.contains(x) && !u.contains(more.last()) {
                let i = choose|i: int| 0 <= i < v.len() && v[i] == x;
                if i < u.len() {
                    assert(u[i] == x);
                }
            }
            if !u.contains(more.last()) {
                assert(v[v.len() - 1] == more.last());
            }
        }
    }
}

proof fn lemma_ports(base: Seq<ForwardedPortModel>, values: Seq<JsonModel>)
    requires
        base.no_duplicates(),
    ensures
        merge::ports_merged(base, values).no_duplicates(),
    decreases values.len(),
{
    if values.len() > 0 {
        lemma_ports(base, values.drop_last());
    }
}

/// The merged lists repeat nothing: every mount target, capability, security option and port occurs
/// once.
pub proof fn law_nothing_is_repeated(snippets: Seq<SnippetModel>)
    requires
        merge::merged(snippets) is Ok,
    ensures
        ({
            let r = merge::merged(snippets)->Ok_0;
            &&& distinct_targets(r.mounts)
            &&& r.cap_add.no_duplicates()
            &&& r.security_opt.no_duplicates()
            &&& r.forward_ports.no_duplicates()
        }),
    decreases snippets.len(),
{
    if snippets.len() > 0 {
        law_nothing_is_repeated(snippets.drop_last());
        let r = merge::merged(snippets.drop_last())->Ok_0;
        let s = snippets.last();
        lemma_mounts(r.mounts, s.mounts);
        lemma_united(r.cap_add, s.cap_add);
        lemma_united(r.security_opt, s.security_opt);
        lemma_ports(r.forward_ports, s.forward_ports);
    }
}

/// Merging fails exactly where some snippet has a mount without a target.
pub proof fn law_only_a_broken_mount_fails(snippets: Seq<SnippetModel>)
    ensures
        merge::merged(snippets) is Err <==> exists|i: int| 0 <= i < snippets.len() && broken(#[trigger] snippets[i]),
    decreases snippets.len(),
{
    if snippets.len() > 0 {
        let rest = snippets.drop_last();
        let s = snippets.last();
        law_only_a_broken_mount_fails(rest);
        assert(forall|i: int| 0 <= i < rest.len() ==> rest[i] == snippets[i]);
        if merge::merged(rest) is Err {
            let i = choose|i: int| 0 <= i < rest.len() && broken(#[trigger] rest[i]);
            assert(broken(snippets[i]));
        } else {
            let r = merge::merged(rest)->Ok_0;
            law_nothing_is_repeated(rest);
            lemma_mounts(r.mounts, s.mounts);
            if merge::merged(snippets) is Err {
                let i = choose|i: int| 0 <= i < s.mounts.len() && mount::normalized(#[trigger] s.mounts[i]) is Err;
                assert(broken_mount(s, i));
                assert(broken(snippets[snippets.len() - 1]));
            } else {
                assert forall|i: int| 0 <= i < snippets.len() implies !broken(#[trigger] snippets[i]) by {
                    if i < rest.len() {
                        assert(!broken(rest[i]));
                    } else if broken(snippets[i]) {
                        let k = choose|k: int| broken_mount(s, k);
                        assert(mount::normalized(s.mounts[k]) is Err);
                    }
                }
            }
        }
    }
}

/// For a single value the last snippet that gives one decides, however many came before.
pub proof fn law_last_snippet_decides(snippets: Seq<SnippetModel>, i: int)
    requires
        merge::merged(snippets) is Ok,
        0 <= i < snippets.len(),
    ensures
        ({
            let r = merge::merged(snippets)->Ok_0;
            let s = snippets[i];
            &&& s.remote_user is Some && (forall|k: int|
                i < k < snippets.len() ==> (#[trigger] snippets[k]).remote_user is None) ==> r.remote_user
                == s.remote_user
            &&& s.container_user is Some && (forall|k: int|
                i < k < snippets.len() ==> (#[trigger] snippets[k]).container_user is None) ==> r.container_user
                == s.container_user
            &&& s.user_env_probe is Some && (forall|k: int|
                i < k < snippets.len() ==> (#[trigger] snippets[k]).user_env_probe is None) ==> r.user_env_probe
                == s.user_env_probe
            &&& s.override_command is Some && (forall|k: int|
                i < k < snippets.len() ==> (#[trigger] snippets[k]).override_command is None)
                ==> r.override_command == s.override_command
            &&& s.wait_for is Some && (forall|k: int|
                i < k < snippets.len() ==> (#[trigger] snippets[k]).wait_for is None) ==> r.wait_for == s.wait_for
        }),
    decreases snippets.len(),
{
    let rest = snippets.drop_last();
    assert(snippets.last() == snippets[snippets.len() - 1]);
    if i < rest.len() {
        assert(forall|k: int| 0 <= k < rest.len() ==> rest[k] == snippets[k]);
        law_last_snippet_decides(rest, i);
    }
}

/// A flag is raised exactly where some snippet raises it.
pub proof fn law_flags_are_raised_by_any(snippets: Seq<SnippetModel>)
    requires
        merge::merged(snippets) is Ok,
    ensures
        merge::merged(snippets)->Ok_0.privileged <==> exists|i: int|
            0 <= i < snippets.len() && (#[trigger] snippets[i]).privileged == Some(true),
        merge::merged(snippets)->Ok_0.init <==> exists|i: int|
            0 <= i < snippets.len() && (#[trigger] snippets[i]).init == Some(true),
    decreases snippets.len(),
{
    if snippets.len() > 0 {
        let rest = snippets.drop_last();
        law_flags_are_raised_by_any(rest);
        assert(forall|i: int| 0 <= i < rest.len() ==> rest[i] == snippets[i]);
        let last = snippets.len() - 1;
        assert(snippets[last] == snippets.last());
        let r = merge::merged(rest)->Ok_0;
        if r.privileged {
            let i = choose|i: int| 0 <= i < rest.len() && (#[trigger] rest[i]).privileged == Some(true);
            assert(snippets[i].privileged == Some(true));
        } else {
            assert(forall|i: int| 0 <= i < rest.len() ==> (#[trigger] rest[i]).privileged != Some(true));
        }
        if r.init {
            let i = choose|i: int| 0 <= i < rest.len() && (#[trigger] rest[i]).init == Some(true);
            assert(snippets[i].init == Some(true));
        } else {
            assert(forall|i: int| 0 <= i < rest.len() ==> (#[trigger] rest[i]).init != Some(true));
        }
        assert forall|i: int| 0 <= i < snippets.len() && (#[trigger] snippets[i]).privileged == Some(
            true,
        ) implies merge::merged(snippets)->Ok_0.privileged by {
            if i < rest.len() {
                assert(rest[i].privileged == Some(true));
            }
        }
        assert forall|i: int| 0 <= i < snippets.len() && (#[trigger] snippets[i]).init == Some(
            true,
        ) implies merge::merged(snippets)->Ok_0.init by {
            if i < rest.len() {
                assert(rest[i].init == Some(true));
            }
        }
    }
}

/// Whether the environment maps of a snippet are in order.
pub open spec fn env_in_order(s: SnippetModel) -> bool {
    strmap::sorted(s.container_env) && strmap::sorted(s.remote_env)
}

/// One more snippet overrides the variables it names, with a `null` unsetting one, and leaves every
/// other variable as it was.
pub proof fn law_later_environment_overrides(before: Seq<SnippetModel>, s: SnippetModel, k: Seq<char>)
    requires
        merge::merged(before.push(s)) is Ok,
        forall|i: int| 0 <= i < before.len() ==> env_in_order(#[trigger] before[i]),
        env_in_order(s),
    ensures
        merge::merged(before) is Ok,
        ({
            let r = merge::merged(before)->Ok_0;
            let t = merge::merged(before.push(s))->Ok_0;
            &&& strmap::get(t.container_env, k) == (match strmap::get(s.container_env, k) {
                Some(v) => Some(v),
                None => strmap::get(r.container_env, k),
            })
            &&& strmap::get(t.remote_env, k) == (match strmap::get(s.remote_env, k) {
                Some(v) => Some(v),
                None => strmap::get(r.remote_env, k),
            })
        }),
{
    let all = before.push(s);
    assert(all.drop_last() =~= before);
    lemma_env_in_order(before);
    let r = merge::merged(before)->Ok_0;
    strmap::lemma_get_after_extend(r.container_env, s.container_env, k);
    strmap::lemma_get_after_extend(r.remote_env, s.remote_env, k);
}

proof fn lemma_env_in_order(snippets: Seq<SnippetModel>)
    requires
        merge::merged(snippets) is Ok,
        forall|i: int| 0 <= i < snippets.len() ==> env_in_order(#[trigger] snippets[i]),
    ensures
        strmap::sorted(merge::merged(snippets)->Ok_0.container_env),
        strmap::sorted(merge::merged(snippets)->Ok_0.remote_env),
    decreases snippets.len(),
{
    if snippets.len() > 0 {
        let rest = snippets.drop_last();
        assert(forall|i: int| 0 <= i < rest.len() ==> rest[i] == snippets[i]);
        lemma_env_in_order(rest);
        let r = merge::merged(rest)->Ok_0;
        let s = snippets.last();
        assert(env_in_order(snippets[snippets.len() - 1]));
        strmap::lemma_get_after_extend(r.container_env, s.container_env, Seq::empty());
        strmap::lemma_get_after_extend(r.remote_env, s.remote_env, Seq::empty());
    }
}

/// A capability or a security option is granted by the merge exactly where some snippet asks for it.
pub proof fn law_lists_are_unions(snippets: Seq<SnippetModel>, x: Seq<char>)
    requires
        merge::merged(snippets) is Ok,
    ensures
        merge::merged(snippets)->Ok_0.cap_add.contains(x) <==> exists|i: int|
            0 <= i < snippets.len() && (#[trigger] snippets[i]).cap_add.contains(x),
        merge::merged(snippets)->Ok_0.security_opt.contains(x) <==> exists|i: int|
            0 <= i < snippets.len() && (#[trigger] snippets[i]).security_opt.contains(x),
    decreases snippets.len(),
{
    if snippets.len() > 0 {
        let rest = snippets.drop_last();
        law_lists_are_unions(rest, x);
        law_nothing_is_repeated(rest);
        assert(forall|i: int| 0 <= i < rest.len() ==> rest[i] == snippets[i]);
        let last = snippets.len() - 1;
        assert(snippets[last] == snippets.last());
        let r = merge::merged(rest)->Ok_0;
        let t = merge::merged(snippets)->Ok_0;
        lemma_united(r.cap_add, snippets.last().cap_add);
        lemma_united(r.security_opt, snippets.last().security_opt);
        if t.cap_add.contains(x) && !snippets.last().cap_add.contains(x) {
            let i = choose|i: int| 0 <= i < rest.len() && (#[trigger] rest[i]).cap_add.contains(x);
            assert(snippets[i].cap_add.contains(x));
        }
        if t.security_opt.contains(x) && !snippets.last().security_opt.contains(x) {
            let i = choose|i: int| 0 <= i < rest.len() && (#[trigger] rest[i]).security_opt.contains(x);
            assert(snippets[i].security_opt.contains(x));
        }
        assert forall|i: int| 0 <= i < snippets.len() && (#[trigger] snippets[i]).cap_add.contains(
            x,
        ) implies t.cap_add.contains(x) by {
            if i < rest.len() {
                assert(rest[i].cap_add.contains(x));
            }
        }
        assert forall|i: int| 0 <= i < snippets.len() && (#[trigger] snippets[i]).security_opt.contains(
            x,
        ) implies t.security_opt.contains(x) by {
            if i < rest.len() {
                assert(rest[i].security_opt.contains(x));
            }
        }
    }
}

/// The commands of a hook: one text, one argument vector, or the named ones by their names.
pub open spec fn hook_adds(hook: Option<LifecycleCommandModel>, before: Seq<CommandModel>, after: Seq<CommandModel>) -> bool {
    &&& before.len() <= after.len()
    &&& after.subrange(0, before.len() as int) == before
    &&& match hook {
        None => after.len() == before.len(),
        Some(LifecycleCommandModel::Shell(s)) => after.len() == before.len() + 1 && after.last()
            == CommandModel::Shell(s),
        Some(LifecycleCommandModel::Argv(a)) => after.len() == before.len() + 1 && after.last()
            == CommandModel::Argv(a),
        Some(LifecycleCommandModel::Named(m)) => after.len() == before.len() + m.len() && forall|i: int|
            0 <= i < m.len() ==> after[before.len() + i] == (#[trigger] m[i]).1,
    }
}

/// Every snippet adds its entrypoint and its hooks after those that came before, and its ports. It leaves
/// alone what only a document can say.
pub proof fn law_every_snippet_adds_its_own(before: Seq<SnippetModel>, s: SnippetModel)
    requires
        merge::merged(before.push(s)) is Ok,
    ensures
        merge::merged(before) is Ok,
        ({
            let r = merge::merged(before)->Ok_0;
            let t = merge::merged(before.push(s))->Ok_0;
            &&& s.entrypoint matches Some(e) ==> t.entrypoints == r.entrypoints.push(e)
            &&& s.entrypoint is None ==> t.entrypoints == r.entrypoints
            &&& hook_adds(s.on_create_command, r.on_create, t.on_create)
            &&& hook_adds(s.update_content_command, r.update_content, t.update_content)
            &&& hook_adds(s.post_create_command, r.post_create, t.post_create)
            &&& hook_adds(s.post_start_command, r.post_start, t.post_start)
            &&& hook_adds(s.post_attach_command, r.post_attach, t.post_attach)
            &&& forall|i: int|
                0 <= i < s.forward_ports.len() && port::port_of(#[trigger] s.forward_ports[i]) is Some
                    ==> t.forward_ports.contains(port::port_of(s.forward_ports[i])->0)
            &&& forall|p: ForwardedPortModel| r.forward_ports.contains(p) ==> #[trigger] t.forward_ports.contains(p)
            &&& forall|p: ForwardedPortModel| #[trigger]
                t.forward_ports.contains(p) ==> r.forward_ports.contains(p) || exists|i: int|
                    0 <= i < s.forward_ports.len() && port::port_of(#[trigger] s.forward_ports[i]) == Some(p)
            &&& t.run_args == r.run_args
            &&& t.workspace_folder == r.workspace_folder
            &&& t.workspace_mount == r.workspace_mount
            &&& t.name == r.name
        }),
{
    let all = before.push(s);
    assert(all.drop_last() =~= before);
    let r = merge::merged(before)->Ok_0;
    let t = merge::merged(all)->Ok_0;
    lemma_hook_adds(s.on_create_command, r.on_create);
    lemma_hook_adds(s.update_content_command, r.update_content);
    lemma_hook_adds(s.post_create_command, r.post_create);
    lemma_hook_adds(s.post_start_command, r.post_start);
    lemma_hook_adds(s.post_attach_command, r.post_attach);
    lemma_ports_merged(r.forward_ports, s.forward_ports);
}

proof fn lemma_hook_adds(hook: Option<LifecycleCommandModel>, before: Seq<CommandModel>)
    ensures
        hook_adds(hook, before, before + merge::hook_commands(hook)),
{
    let after = before + merge::hook_commands(hook);
    assert(after.subrange(0, before.len() as int) =~= before);
}

proof fn lemma_ports_merged(base: Seq<ForwardedPortModel>, values: Seq<JsonModel>)
    ensures
        ({
            let t = merge::ports_merged(base, values);
            &&& forall|i: int|
                0 <= i < values.len() && port::port_of(#[trigger] values[i]) is Some ==> t.contains(
                    port::port_of(values[i])->0,
                )
            &&& forall|p: ForwardedPortModel| base.contains(p) ==> #[trigger] t.contains(p)
            &&& forall|p: ForwardedPortModel| #[trigger]
                t.contains(p) ==> base.contains(p) || exists|i: int|
                    0 <= i < values.len() && port::port_of(#[trigger] values[i]) == Some(p)
        }),
    decreases values.len(),
{
    if values.len() > 0 {
        let front = values.drop_last();
        let u = merge::ports_merged(base, front);
        let t = merge::ports_merged(base, values);
        lemma_ports_merged(base, front);
        assert forall|p: ForwardedPortModel| u.contains(p) implies #[trigger] t.contains(p) by {
            let k = choose|k: int| 0 <= k < u.len() && u[k] == p;
            assert(t[k] == p);
        }
        match port::port_of(values.last()) {
            Some(p) => {
                if !u.contains(p) {
                    assert(t[u.len() as int] == p);
                }
                assert(t.contains(p));
            },
            None => {},
        }
        assert forall|i: int| 0 <= i < values.len() && port::port_of(#[trigger] values[i]) is Some implies t.contains(
            port::port_of(values[i])->0,
        ) by {
            if i < front.len() {
                assert(front[i] == values[i]);
                assert(u.contains(port::port_of(values[i])->0));
            }
        }
        assert forall|p: ForwardedPortModel| #[trigger] t.contains(p) implies base.contains(p) || exists|i: int|
            0 <= i < values.len() && port::port_of(#[trigger] values[i]) == Some(p) by {
            let k = choose|k: int| 0 <= k < t.len() && t[k] == p;
            if k < u.len() {
                assert(u[k] == p);
                assert(u.contains(p));
                if !base.contains(p) {
                    let i = choose|i: int| 0 <= i < front.len() && port::port_of(#[trigger] front[i]) == Some(p);
                    assert(values[i] == front[i]);
                }
            } else {
                assert(port::port_of(values[values.len() - 1]) == Some(p));
            }
        }
    }
}

/// The mounts of one more snippet: the last of them at a target is the one that is mounted there, and at
/// every other target stays what was there before. Nothing is mounted that nobody asked for.
pub proof fn law_the_last_mount_at_a_target_wins(before: Seq<SnippetModel>, s: SnippetModel, target: Seq<char>)
    requires
        merge::merged(before.push(s)) is Ok,
    ensures
        merge::merged(before) is Ok,
        ({
            let r = merge::merged(before)->Ok_0;
            let t = merge::merged(before.push(s))->Ok_0;
            let names_it = |i: int| mount::normalized(s.mounts[i]) matches Ok(n) && n.target == target;
            &&& forall|i: int|
                0 <= i < s.mounts.len() && #[trigger] names_it(i) && (forall|k: int|
                    i < k < s.mounts.len() ==> !#[trigger] names_it(k)) ==> mounted_at(t.mounts, target) == Some(
                    mount::normalized(s.mounts[i])->Ok_0,
                )
            &&& (forall|k: int| 0 <= k < s.mounts.len() ==> !#[trigger] names_it(k)) ==> mounted_at(t.mounts, target)
                == mounted_at(r.mounts, target)
        }),
{
    let all = before.push(s);
    assert(all.drop_last() =~= before);
    let r = merge::merged(before)->Ok_0;
    lemma_mounted_at(r.mounts, s.mounts, target);
    let t = merge::merged(all)->Ok_0;
    let names_it = |i: int| mount::normalized(s.mounts[i]) matches Ok(n) && n.target == target;
    assert forall|i: int|
        0 <= i < s.mounts.len() && #[trigger] names_it(i) && (forall|k: int|
            i < k < s.mounts.len() ==> !#[trigger] names_it(k)) implies mounted_at(t.mounts, target) == Some(
        mount::normalized(s.mounts[i])->Ok_0,
    ) by {
        assert forall|k: int| i < k < s.mounts.len() implies !names(#[trigger] s.mounts[k], target) by {
            assert(!names_it(k));
        }
        assert(names(s.mounts[i], target));
    }
    if forall|k: int| 0 <= k < s.mounts.len() ==> !#[trigger] names_it(k) {
        assert forall|k: int| 0 <= k < s.mounts.len() implies !names(#[trigger] s.mounts[k], target) by {
            assert(!names_it(k));
        }
    }
}

/// What is mounted at a target.
pub open spec fn mounted_at(ms: Seq<NormalizedMountModel>, target: Seq<char>) -> Option<NormalizedMountModel> {
    if exists|i: int| 0 <= i < ms.len() && (#[trigger] ms[i]).target == target {
        Some(ms[choose|i: int| 0 <= i < ms.len() && (#[trigger] ms[i]).target == target && first_at(ms, i)])
    } else {
        None
    }
}

/// Whether no earlier mount has the same target.
pub open spec fn first_at(ms: Seq<NormalizedMountModel>, i: int) -> bool {
    forall|j: int| 0 <= j < i ==> (#[trigger] ms[j]).target != ms[i].target
}

/// Whether a mount names a target.
spec fn names(m: MountModel, target: Seq<char>) -> bool {
    mount::normalized(m) matches Ok(n) && n.target == target
}

proof fn lemma_mounted_at_index(ms: Seq<NormalizedMountModel>, target: Seq<char>)
    ensures
        mounted_at(ms, target) == (if merge::target_index(ms, target) < ms.len() {
            Some(ms[merge::target_index(ms, target) as int])
        } else {
            None
        }),
{
    lemma_target_index_bounds(ms, target);
    let k = merge::target_index(ms, target) as int;
    if k < ms.len() {
        assert(ms[k].target == target && first_at(ms, k));
        let i = choose|i: int| 0 <= i < ms.len() && (#[trigger] ms[i]).target == target && first_at(ms, i);
        if i < k {
            assert(ms[i].target != target);
        } else if k < i {
            assert(ms[k].target != ms[i].target);
        }
    }
}

proof fn lemma_with_mount(ms: Seq<NormalizedMountModel>, m: NormalizedMountModel, target: Seq<char>)
    ensures
        mounted_at(merge::with_mount(ms, m), target) == (if m.target == target {
            Some(m)
        } else {
            mounted_at(ms, target)
        }),
{
    let w = merge::with_mount(ms, m);
    let k = merge::target_index(ms, m.target) as int;
    lemma_target_index_bounds(ms, m.target);
    lemma_target_index_bounds(ms, target);
    lemma_target_index_bounds(w, target);
    lemma_mounted_at_index(ms, target);
    lemma_mounted_at_index(w, target);
    let a = merge::target_index(ms, target) as int;
    let b = merge::target_index(w, target) as int;
    if m.target == target {
        assert(w[k] == m);
        if b < k {
            assert(w[b] == ms[b]);
        }
    } else {
        if a < ms.len() {
            assert(a != k);
            assert(w[a] == ms[a]);
        }
        if b < w.len() {
            assert(b != k);
            assert(w[b] == ms[b]);
        }
        if a < ms.len() && b > a {
            assert(w[a].target != target);
        }
        if b < ms.len() && a > b {
            assert(ms[b].target != target);
        }
    }
}

proof fn lemma_mounted_at(base: Seq<NormalizedMountModel>, more: Seq<MountModel>, target: Seq<char>)
    requires
        merge::mounts_merged(base, more) is Ok,
    ensures
        ({
            let t = merge::mounts_merged(base, more)->Ok_0;
            &&& forall|i: int|
                0 <= i < more.len() && names(#[trigger] more[i], target) && (forall|k: int|
                    i < k < more.len() ==> !names(#[trigger] more[k], target)) ==> mounted_at(t, target) == Some(
                    mount::normalized(more[i])->Ok_0,
                )
            &&& (forall|k: int| 0 <= k < more.len() ==> !names(#[trigger] more[k], target)) ==> mounted_at(t, target)
                == mounted_at(base, target)
        }),
    decreases more.len(),
{
    if more.len() > 0 {
        let front = more.drop_last();
        lemma_mounted_at(base, front, target);
        let u = merge::mounts_merged(base, front)->Ok_0;
        let n = mount::normalized(more.last())->Ok_0;
        let t = merge::mounts_merged(base, more)->Ok_0;
        lemma_with_mount(u, n, target);
        let last = more.len() - 1;
        assert(more[last] == more.last());
        assert forall|i: int|
            0 <= i < more.len() && names(#[trigger] more[i], target) && (forall|k: int|
                i < k < more.len() ==> !names(#[trigger] more[k], target)) implies mounted_at(t, target) == Some(
            mount::normalized(more[i])->Ok_0,
        ) by {
            if i < last {
                assert(!names(more[last], target));
                assert(front[i] == more[i]);
                assert forall|k: int| i < k < front.len() implies !names(#[trigger] front[k], target) by {
                    assert(front[k] == more[k]);
                }
                assert(names(front[i], target));
            }
        }
        if forall|k: int| 0 <= k < more.len() ==> !names(#[trigger] more[k], target) {
            assert(!names(more[last], target));
            assert forall|k: int| 0 <= k < front.len() implies !names(#[trigger] front[k], target) by {
                assert(front[k] == more[k]);
            }
        }
    }
}

/// Where no snippet says anything, nothing is asked for.
pub proof fn law_no_snippet_asks_for_nothing()
    ensures
        ({
            let r = merge::merged(Seq::empty());
            &&& r is Ok
            &&& r->Ok_0.entrypoints.len() == 0
            &&& r->Ok_0.mounts.len() == 0
            &&& r->Ok_0.container_env.len() == 0
            &&& r->Ok_0.remote_env.len() == 0
            &&& r->Ok_0.container_user is None
            &&& r->Ok_0.remote_user is None
            &&& r->Ok_0.user_env_probe is None
            &&& r->Ok_0.override_command is None
            &&& r->Ok_0.wait_for is None
            &&& r->Ok_0.on_create.len() == 0
            &&& r->Ok_0.update_content.len() == 0
            &&& r->Ok_0.post_create.len() == 0
            &&& r->Ok_0.post_start.len() == 0
            &&& r->Ok_0.post_attach.len() == 0
            &&& r->Ok_0.forward_ports.len() == 0
            &&& r->Ok_0.run_args.len() == 0
            &&& r->Ok_0.workspace_folder is None
            &&& r->Ok_0.workspace_mount is None
            &&& r->Ok_0.name is None
        }),
{
}

} // verus!
