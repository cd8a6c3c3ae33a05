//! Merging the contributions to a session's configuration.

use vstd::prelude::*;

use crate::devcontainer::lifecycle::{Command, CommandModel, LifecycleCommand, LifecycleCommandModel};
use crate::devcontainer::mount::{self, Mount, MountModel, NormalizedMount, NormalizedMountModel};
use crate::devcontainer::port::{self, ForwardedPort, ForwardedPortModel};
use crate::devcontainer::snippet::{MetadataSnippet, SnippetModel};
use crate::duplicate::Duplicate;
use crate::error::{AmError, AmErrorModel};
use crate::json::{Json, JsonModel};
use crate::strmap::{self, StrMap};
use crate::text;

verus! {

/// The merged configuration of a session.
#[derive(Debug, PartialEq)]
pub struct ResolvedConfig {
    /// Feature entrypoints, in contribution order.
    pub entrypoints: Vec<String>,
    pub mounts: Vec<NormalizedMount>,
    pub init: bool,
    pub privileged: bool,
    pub cap_add: Vec<String>,
    pub security_opt: Vec<String>,
    pub container_env: StrMap<String>,
    /// A value of `None` means that the variable is deliberately not set.
    pub remote_env: StrMap<Option<String>>,
    pub container_user: Option<String>,
    pub remote_user: Option<String>,
    pub user_env_probe: Option<String>,
    pub override_command: Option<bool>,
    pub wait_for: Option<String>,
    pub on_create: Vec<Command>,
    pub update_content: Vec<Command>,
    pub post_create: Vec<Command>,
    pub post_start: Vec<Command>,
    pub post_attach: Vec<Command>,
    /// Ports to publish, in contribution order and without repetition.
    pub forward_ports: Vec<ForwardedPort>,
    /// From the `devcontainer.json` alone, like the three after it.
    pub run_args: Vec<String>,
    pub workspace_folder: Option<String>,
    pub workspace_mount: Option<String>,
    pub name: Option<String>,
}

/// What a [`ResolvedConfig`] stands for.
pub struct ResolvedModel {
    pub entrypoints: Seq<Seq<char>>,
    pub mounts: Seq<NormalizedMountModel>,
    pub init: bool,
    pub privileged: bool,
    pub cap_add: Seq<Seq<char>>,
    pub security_opt: Seq<Seq<char>>,
    pub container_env: Seq<(Seq<char>, Seq<char>)>,
    pub remote_env: Seq<(Seq<char>, Option<Seq<char>>)>,
    pub container_user: Option<Seq<char>>,
    pub remote_user: Option<Seq<char>>,
    pub user_env_probe: Option<Seq<char>>,
    pub override_command: Option<bool>,
    pub wait_for: Option<Seq<char>>,
    pub on_create: Seq<CommandModel>,
    pub update_content: Seq<CommandModel>,
    pub post_create: Seq<CommandModel>,
    pub post_start: Seq<CommandModel>,
    pub post_attach: Seq<CommandModel>,
    pub forward_ports: Seq<ForwardedPortModel>,
    pub run_args: Seq<Seq<char>>,
    pub workspace_folder: Option<Seq<char>>,
    pub workspace_mount: Option<Seq<char>>,
    pub name: Option<Seq<char>>,
}

impl DeepView for ResolvedConfig {
    type V = ResolvedModel;

    open spec fn deep_view(&self) -> ResolvedModel {
        ResolvedModel {
            entrypoints: self.entrypoints.deep_view(),
            mounts: self.mounts.deep_view(),
            init: self.init,
            privileged: self.privileged,
            cap_add: self.cap_add.deep_view(),
            security_opt: self.security_opt.deep_view(),
            container_env: self.container_env.deep_view(),
            remote_env: self.remote_env.deep_view(),
            container_user: self.container_user.deep_view(),
            remote_user: self.remote_user.deep_view(),
            user_env_probe: self.user_env_probe.deep_view(),
            override_command: self.override_command,
            wait_for: self.wait_for.deep_view(),
            on_create: self.on_create.deep_view(),
            update_content: self.update_content.deep_view(),
            post_create: self.post_create.deep_view(),
            post_start: self.post_start.deep_view(),
            post_attach: self.post_attach.deep_view(),
            forward_ports: self.forward_ports.deep_view(),
            run_args: self.run_args.deep_view(),
            workspace_folder: self.workspace_folder.deep_view(),
            workspace_mount: self.workspace_mount.deep_view(),
            name: self.name.deep_view(),
        }
    }
}

/// The configuration that asks for nothing.
pub open spec fn empty_config() -> ResolvedModel {
    ResolvedModel {
        entrypoints: Seq::empty(),
        mounts: Seq::empty(),
        init: false,
        privileged: false,
        cap_add: Seq::empty(),
        security_opt: Seq::empty(),
        container_env: Seq::empty(),
        remote_env: Seq::empty(),
        container_user: None,
        remote_user: None,
        user_env_probe: None,
        override_command: None,
        wait_for: None,
        on_create: Seq::empty(),
        update_content: Seq::empty(),
        post_create: Seq::empty(),
        post_start: Seq::empty(),
        post_attach: Seq::empty(),
        forward_ports: Seq::empty(),
        run_args: Seq::empty(),
        workspace_folder: None,
        workspace_mount: None,
        name: None,
    }
}

impl Default for ResolvedConfig {
    /// A configuration that asks for nothing.
    fn default() -> (r: Self)
        ensures
            r.deep_view() == empty_config(),
    {
        let r = ResolvedConfig {
            entrypoints: Vec::new(),
            mounts: Vec::new(),
            init: false,
            privileged: false,
            cap_add: Vec::new(),
            security_opt: Vec::new(),
            container_env: StrMap::new(),
            remote_env: StrMap::new(),
            container_user: None,
            remote_user: None,
            user_env_probe: None,
            override_command: None,
            wait_for: None,
            on_create: Vec::new(),
            update_content: Vec::new(),
            post_create: Vec::new(),
            post_start: Vec::new(),
            post_attach: Vec::new(),
            forward_ports: Vec::new(),
            run_args: Vec::new(),
            workspace_folder: None,
            workspace_mount: None,
            name: None,
        };
        assert(r.entrypoints.deep_view() =~= Seq::<Seq<char>>::empty());
        assert(r.mounts.deep_view() =~= Seq::<NormalizedMountModel>::empty());
        assert(r.cap_add.deep_view() =~= Seq::<Seq<char>>::empty());
        assert(r.security_opt.deep_view() =~= Seq::<Seq<char>>::empty());
        assert(r.on_create.deep_view() =~= Seq::<CommandModel>::empty());
        assert(r.update_content.deep_view() =~= Seq::<CommandModel>::empty());
        assert(r.post_create.deep_view() =~= Seq::<CommandModel>::empty());
        assert(r.post_start.deep_view() =~= Seq::<CommandModel>::empty());
        assert(r.post_attach.deep_view() =~= Seq::<CommandModel>::empty());
        assert(r.forward_ports.deep_view() =~= Seq::<ForwardedPortModel>::empty());
        assert(r.run_args.deep_view() =~= Seq::<Seq<char>>::empty());
        r
    }
}

// ----------------------------------------------------------------------------------------------
// Lists and maps
// ----------------------------------------------------------------------------------------------

/// `base` followed by those of `more` that are not there yet.
pub open spec fn united(base: Seq<Seq<char>>, more: Seq<Seq<char>>) -> Seq<Seq<char>>
    decreases more.len(),
{
    if more.len() == 0 {
        base
    } else {
        let u = united(base, more.drop_last());
        if u.contains(more.last()) {
            u
        } else {
            u.push(more.last())
        }
    }
}

/// Whether `v` holds `s`.
pub fn contains_text(v: &Vec<String>, s: &str) -> (r: bool)
    ensures
        r == v.deep_view().contains(s@),
{
    let mut i: usize = 0;
    while i < v.len()
        invariant
            i <= v.len(),
            forall|k: int| 0 <= k < i ==> (#[trigger] v.deep_view()[k]) != s@,
        decreases v.len() - i,
    {
        assert(v.deep_view()[i as int] == v@[i as int]@);
        if text::eq(v[i].as_str(), s) {
            return true;
        }
        i = i + 1;
    }
    false
}

/// Appends `values` to `target`, skipping what is already there.
pub fn extend_unique(target: &mut Vec<String>, values: &Vec<String>)
    ensures
        final(target).deep_view() == united(old(target).deep_view(), values.deep_view()),
{
    let ghost base = target.deep_view();
    let ghost all = values.deep_view();
    let mut i: usize = 0;
    while i < values.len()
        invariant
            all == values.deep_view(),
            i <= values.len(),
            target.deep_view() == united(base, all.subrange(0, i as int)),
        decreases values.len() - i,
    {
        assert(all.subrange(0, i + 1).drop_last() =~= all.subrange(0, i as int));
        assert(all[i as int] == values@[i as int]@);
        if !contains_text(target, values[i].as_str()) {
            text::push_str(target, values[i].as_str());
        }
        i = i + 1;
    }
    assert(all.subrange(0, all.len() as int) =~= all);
}

/// The index of the first mount at `target`, or the length where there is none.
pub open spec fn target_index(ms: Seq<NormalizedMountModel>, target: Seq<char>) -> nat
    decreases ms.len(),
{
    if ms.len() == 0 || ms[0].target == target {
        0
    } else {
        1 + target_index(ms.drop_first(), target)
    }
}

/// `ms` with `m` in place of the mount at the same target, or at the end.
pub open spec fn with_mount(ms: Seq<NormalizedMountModel>, m: NormalizedMountModel) -> Seq<NormalizedMountModel> {
    let i = target_index(ms, m.target);
    if i < ms.len() {
        ms.update(i as int, m)
    } else {
        ms.push(m)
    }
}

/// `base` with the mounts of `more`, each normalized.
pub open spec fn mounts_merged(base: Seq<NormalizedMountModel>, more: Seq<MountModel>) -> Result<
    Seq<NormalizedMountModel>,
    AmErrorModel,
>
    decreases more.len(),
{
    if more.len() == 0 {
        Ok(base)
    } else {
        match mounts_merged(base, more.drop_last()) {
            Err(e) => Err(e),
            Ok(ms) => match mount::normalized(more.last()) {
                Err(e) => Err(e),
                Ok(m) => Ok(with_mount(ms, m)),
            },
        }
    }
}

proof fn lemma_target_index(ms: Seq<NormalizedMountModel>, target: Seq<char>)
    ensures
        target_index(ms, target) <= ms.len(),
        target_index(ms, target) < ms.len() ==> ms[target_index(ms, target) as int].target == target,
        forall|j: int| 0 <= j < target_index(ms, target) ==> (#[trigger] ms[j]).target != target,
    decreases ms.len(),
{
    if ms.len() > 0 && ms[0].target != target {
        let t = ms.drop_first();
        lemma_target_index(t, target);
        assert forall|j: int| 0 <= j < target_index(ms, target) implies (#[trigger] ms[j]).target != target by {
            if j > 0 {
                assert(ms[j] == t[j - 1]);
            }
        }
    }
}

proof fn lemma_target_index_is(ms: Seq<NormalizedMountModel>, target: Seq<char>, i: int)
    requires
        0 <= i <= ms.len(),
        i < ms.len() ==> ms[i].target == target,
        forall|j: int| 0 <= j < i ==> (#[trigger] ms[j]).target != target,
    ensures
        target_index(ms, target) == i,
{
    lemma_target_index(ms, target);
    let p = target_index(ms, target) as int;
    if p < i {
        assert(ms[p].target != target);
    } else if i < p {
        assert(ms[i].target != target);
    }
}

fn place_mount(mounts: &mut Vec<NormalizedMount>, m: NormalizedMount)
    ensures
        final(mounts).deep_view() == with_mount(old(mounts).deep_view(), m.deep_view()),
{
    let ghost ms = mounts.deep_view();
    let mut i: usize = 0;
    while i < mounts.len() && !text::eq(mounts[i].target.as_str(), m.target.as_str())
        invariant
            ms == mounts.deep_view(),
            i <= mounts.len(),
            forall|j: int| 0 <= j < i ==> (#[trigger] ms[j]).target != m.target@,
        decreases mounts.len() - i,
    {
        assert(ms[i as int] == mounts@[i as int].deep_view());
        i = i + 1;
    }
    proof {
        if i < mounts.len() {
            assert(ms[i as int] == mounts@[i as int].deep_view());
        }
        lemma_target_index_is(ms, m.target@, i as int);
    }
    if i < mounts.len() {
        mounts.set(i, m);
        assert(mounts.deep_view() =~= ms.update(i as int, m.deep_view()));
    } else {
        mounts.push(m);
        assert(mounts.deep_view() =~= ms.push(m.deep_view()));
    }
}

fn merge_mounts(mounts: Vec<NormalizedMount>, more: &Vec<Mount>) -> (r: Result<Vec<NormalizedMount>, AmError>)
    ensures
        crate::error::outcome(r) == mounts_merged(mounts.deep_view(), more.deep_view()),
{
    let ghost base = mounts.deep_view();
    let ghost all = more.deep_view();
    let mut out = mounts;
    let mut i: usize = 0;
    while i < more.len()
        invariant
            base == mounts.deep_view(),
            all == more.deep_view(),
            i <= more.len(),
            mounts_merged(base, all.subrange(0, i as int)) == Ok::<Seq<NormalizedMountModel>, AmErrorModel>(
                out.deep_view(),
            ),
        decreases more.len() - i,
    {
        assert(all.subrange(0, i + 1).drop_last() =~= all.subrange(0, i as int));
        assert(all[i as int] == more@[i as int].deep_view());
        match more[i].normalize() {
            Ok(m) => {
                place_mount(&mut out, m);
            },
            Err(e) => {
                proof {
                    lemma_mounts_error(base, all, i + 1);
                }
                return Err(e);
            },
        }
        i = i + 1;
    }
    assert(all.subrange(0, all.len() as int) =~= all);
    Ok(out)
}

proof fn lemma_mounts_error(base: Seq<NormalizedMountModel>, more: Seq<MountModel>, n: int)
    requires
        0 <= n <= more.len(),
        mounts_merged(base, more.subrange(0, n)) is Err,
    ensures
        mounts_merged(base, more) == mounts_merged(base, more.subrange(0, n)),
    decreases more.len() - n,
{
    if n < more.len() {
        assert(more.subrange(0, n + 1).drop_last() =~= more.subrange(0, n));
        lemma_mounts_error(base, more, n + 1);
    } else {
        assert(more.subrange(0, n) =~= more);
    }
}

/// `ps` with `p`, unless it is there already.
pub open spec fn with_port(ps: Seq<ForwardedPortModel>, p: ForwardedPortModel) -> Seq<ForwardedPortModel> {
    if ps.contains(p) {
        ps
    } else {
        ps.push(p)
    }
}

/// `base` with the ports that `values` name.
pub open spec fn ports_merged(base: Seq<ForwardedPortModel>, values: Seq<JsonModel>) -> Seq<ForwardedPortModel>
    decreases values.len(),
{
    if values.len() == 0 {
        base
    } else {
        let ps = ports_merged(base, values.drop_last());
        match port::port_of(values.last()) {
            Some(p) => with_port(ps, p),
            None => ps,
        }
    }
}

fn place_port(ports: &mut Vec<ForwardedPort>, p: ForwardedPort)
    ensures
        final(ports).deep_view() == with_port(old(ports).deep_view(), p.deep_view()),
{
    let ghost ps = ports.deep_view();
    let mut i: usize = 0;
    while i < ports.len()
        invariant
            ps == ports.deep_view(),
            ps == old(ports).deep_view(),
            i <= ports.len(),
            forall|j: int| 0 <= j < i ==> (#[trigger] ps[j]) != p.deep_view(),
        decreases ports.len() - i,
    {
        assert(ps[i as int] == ports@[i as int].deep_view());
        if ports[i].same(&p) {
            return;
        }
        i = i + 1;
    }
    ports.push(p);
    assert(ports.deep_view() =~= ps.push(p.deep_view()));
}

fn merge_ports(ports: &mut Vec<ForwardedPort>, values: &Vec<Json>)
    ensures
        final(ports).deep_view() == ports_merged(old(ports).deep_view(), values.deep_view()),
{
    let ghost base = ports.deep_view();
    let ghost all = values.deep_view();
    let mut i: usize = 0;
    while i < values.len()
        invariant
            all == values.deep_view(),
            i <= values.len(),
            ports.deep_view() == ports_merged(base, all.subrange(0, i as int)),
        decreases values.len() - i,
    {
        assert(all.subrange(0, i + 1).drop_last() =~= all.subrange(0, i as int));
        assert(all[i as int] == values@[i as int].deep_view());
        match ForwardedPort::parse(&values[i]) {
            Some(p) => {
                place_port(ports, p);
            },
            None => {},
        }
        i = i + 1;
    }
    assert(all.subrange(0, all.len() as int) =~= all);
}

/// The commands of an optional hook.
pub open spec fn hook_commands(hook: Option<LifecycleCommandModel>) -> Seq<CommandModel> {
    match hook {
        Some(h) => h.commands(),
        None => Seq::empty(),
    }
}

/// Appends the commands of a hook, where there is one.
pub fn collect(target: &mut Vec<Command>, cmd: &Option<LifecycleCommand>)
    ensures
        final(target).deep_view() == old(target).deep_view() + hook_commands(cmd.deep_view()),
{
    let ghost base = target.deep_view();
    match cmd {
        Some(c) => {
            let mut more = c.commands();
            let ghost m = more.deep_view();
            target.append(&mut more);
            assert(target.deep_view() =~= base + m);
        },
        None => {
            assert(base + hook_commands(None) =~= base);
        },
    }
}

// ----------------------------------------------------------------------------------------------
// Merging
// ----------------------------------------------------------------------------------------------

/// The later value, where there is one.
pub open spec fn later<T>(earlier: Option<T>, later: Option<T>) -> Option<T> {
    if later is Some {
        later
    } else {
        earlier
    }
}

fn pick<T: Duplicate>(earlier: Option<T>, later: &Option<T>) -> (r: Option<T>)
    ensures
        r.deep_view() == self::later(earlier.deep_view(), later.deep_view()),
{
    if later.is_some() {
        later.duplicate()
    } else {
        earlier
    }
}

/// The effect of one snippet: lists grow, flags are raised, single values are replaced.
pub open spec fn merged_with(r: ResolvedModel, s: SnippetModel) -> Result<ResolvedModel, AmErrorModel> {
    match mounts_merged(r.mounts, s.mounts) {
        Err(e) => Err(e),
        Ok(mounts) => Ok(
            ResolvedModel {
                entrypoints: match s.entrypoint {
                    Some(e) => r.entrypoints.push(e),
                    None => r.entrypoints,
                },
                mounts,
                init: r.init || s.init == Some(true),
                privileged: r.privileged || s.privileged == Some(true),
                cap_add: united(r.cap_add, s.cap_add),
                security_opt: united(r.security_opt, s.security_opt),
                container_env: strmap::extended(r.container_env, s.container_env),
                remote_env: strmap::extended(r.remote_env, s.remote_env),
                container_user: later(r.container_user, s.container_user),
                remote_user: later(r.remote_user, s.remote_user),
                user_env_probe: later(r.user_env_probe, s.user_env_probe),
                override_command: later(r.override_command, s.override_command),
                wait_for: later(r.wait_for, s.wait_for),
                on_create: r.on_create + hook_commands(s.on_create_command),
                update_content: r.update_content + hook_commands(s.update_content_command),
                post_create: r.post_create + hook_commands(s.post_create_command),
                post_start: r.post_start + hook_commands(s.post_start_command),
                post_attach: r.post_attach + hook_commands(s.post_attach_command),
                forward_ports: ports_merged(r.forward_ports, s.forward_ports),
                ..r
            },
        ),
    }
}

/// The snippets merged from left to right; the first mount without a target is the error.
pub open spec fn merged(snippets: Seq<SnippetModel>) -> Result<ResolvedModel, AmErrorModel>
    decreases snippets.len(),
{
    if snippets.len() == 0 {
        Ok(empty_config())
    } else {
        match merged(snippets.drop_last()) {
            Err(e) => Err(e),
            Ok(r) => merged_with(r, snippets.last()),
        }
    }
}

fn merge_snippet(config: ResolvedConfig, s: &MetadataSnippet) -> (r: Result<ResolvedConfig, AmError>)
    ensures
        crate::error::outcome(r) == merged_with(config.deep_view(), s.deep_view()),
{
    let mut c = config;
    let mounts = match merge_mounts(c.mounts, &s.mounts) {
        Ok(m) => m,
        Err(e) => {
            return Err(e);
        },
    };
    match &s.entrypoint {
        Some(e) => {
            text::push_str(&mut c.entrypoints, e.as_str());
        },
        None => {},
    }
    extend_unique(&mut c.cap_add, &s.cap_add);
    extend_unique(&mut c.security_opt, &s.security_opt);
    c.container_env.extend_from(&s.container_env);
    c.remote_env.extend_from(&s.remote_env);
    collect(&mut c.on_create, &s.on_create_command);
    collect(&mut c.update_content, &s.update_content_command);
    collect(&mut c.post_create, &s.post_create_command);
    collect(&mut c.post_start, &s.post_start_command);
    collect(&mut c.post_attach, &s.post_attach_command);
    merge_ports(&mut c.forward_ports, &s.forward_ports);
    let init = c.init || (match s.init {
        Some(b) => b,
        None => false,
    });
    let privileged = c.privileged || (match s.privileged {
        Some(b) => b,
        None => false,
    });
    Ok(
        ResolvedConfig {
            entrypoints: c.entrypoints,
            mounts,
            init,
            privileged,
            cap_add: c.cap_add,
            security_opt: c.security_opt,
            container_env: c.container_env,
            remote_env: c.remote_env,
            container_user: pick(c.container_user, &s.container_user),
            remote_user: pick(c.remote_user, &s.remote_user),
            user_env_probe: pick(c.user_env_probe, &s.user_env_probe),
            override_command: pick(c.override_command, &s.override_command),
            wait_for: pick(c.wait_for, &s.wait_for),
            on_create: c.on_create,
            update_content: c.update_content,
            post_create: c.post_create,
            post_start: c.post_start,
            post_attach: c.post_attach,
            forward_ports: c.forward_ports,
            run_args: c.run_args,
            workspace_folder: c.workspace_folder,
            workspace_mount: c.workspace_mount,
            name: c.name,
        },
    )
}

proof fn lemma_merge_error(snippets: Seq<SnippetModel>, n: int)
    requires
        0 <= n <= snippets.len(),
        merged(snippets.subrange(0, n)) is Err,
    ensures
        merged(snippets) == merged(snippets.subrange(0, n)),
    decreases snippets.len() - n,
{
    if n < snippets.len() {
        assert(snippets.subrange(0, n + 1).drop_last() =~= snippets.subrange(0, n));
        lemma_merge_error(snippets, n + 1);
    } else {
        assert(snippets.subrange(0, n) =~= snippets);
    }
}

/// Merges label snippets from left to right.
///
/// Later snippets win for single values; the lists follow rules of their own.
pub fn merge(snippets: &Vec<MetadataSnippet>) -> (r: Result<ResolvedConfig, AmError>)
    ensures
        crate::error::outcome(r) == merged(snippets.deep_view()),
{
    let ghost all = snippets.deep_view();
    let mut out = ResolvedConfig::default();
    let mut i: usize = 0;
    while i < snippets.len()
        invariant
            all == snippets.deep_view(),
            i <= snippets.len(),
            merged(all.subrange(0, i as int)) == Ok::<ResolvedModel, AmErrorModel>(out.deep_view()),
        decreases snippets.len() - i,
    {
        assert(all.subrange(0, i + 1).drop_last() =~= all.subrange(0, i as int));
        assert(all[i as int] == snippets@[i as int].deep_view());
        match merge_snippet(out, &snippets[i]) {
            Ok(c) => {
                out = c;
            },
            Err(e) => {
                proof {
                    lemma_merge_error(all, i + 1);
                }
                return Err(e);
            },
        }
        i = i + 1;
    }
    assert(all.subrange(0, all.len() as int) =~= all);
    Ok(out)
}

} // verus!
