//! Completing a merged configuration: the properties of the `devcontainer.json`, then substitution.

use vstd::prelude::*;

use crate::devcontainer::document::{DevcontainerJson, DocumentModel};
use crate::devcontainer::lifecycle::{Command, CommandModel};
use crate::devcontainer::merge::{ResolvedConfig, ResolvedModel};
use crate::devcontainer::mount::{NormalizedMount, NormalizedMountModel};
use crate::devcontainer::substitution::{ContextModel, SubstitutionContext};
use crate::duplicate::Duplicate;
use crate::strmap::{self, StrMap};
use crate::text;

verus! {

impl ContextModel {
    pub open spec fn optional(self, s: Option<Seq<char>>) -> Option<Seq<char>> {
        match s {
            Some(t) => Some(self.substituted(t)),
            None => None,
        }
    }

    pub open spec fn texts(self, v: Seq<Seq<char>>) -> Seq<Seq<char>> {
        v.map_values(|s: Seq<char>| self.substituted(s))
    }

    pub open spec fn mount(self, m: NormalizedMountModel) -> NormalizedMountModel {
        NormalizedMountModel { source: self.optional(m.source), target: self.substituted(m.target), ..m }
    }

    pub open spec fn command(self, c: CommandModel) -> CommandModel {
        match c {
            CommandModel::Shell(s) => CommandModel::Shell(self.substituted(s)),
            CommandModel::Argv(a) => CommandModel::Argv(self.texts(a)),
        }
    }

    pub open spec fn commands(self, v: Seq<CommandModel>) -> Seq<CommandModel> {
        v.map_values(|c: CommandModel| self.command(c))
    }

    pub open spec fn values(self, m: Seq<(Seq<char>, Seq<char>)>) -> Seq<(Seq<char>, Seq<char>)> {
        m.map_values(|e: (Seq<char>, Seq<char>)| (e.0, self.substituted(e.1)))
    }

    pub open spec fn optional_values(self, m: Seq<(Seq<char>, Option<Seq<char>>)>) -> Seq<
        (Seq<char>, Option<Seq<char>>),
    > {
        m.map_values(|e: (Seq<char>, Option<Seq<char>>)| (e.0, self.optional(e.1)))
    }
}

/// `r` with what the document adds, every variable replaced. `${containerEnv:..}` sees the merged
/// environment as it was before substitution.
pub open spec fn finalized(r: ResolvedModel, d: DocumentModel, ctx: ContextModel) -> ResolvedModel {
    let c = ContextModel { container_env: r.container_env, ..ctx };
    ResolvedModel {
        entrypoints: c.texts(r.entrypoints),
        cap_add: c.texts(r.cap_add),
        security_opt: c.texts(r.security_opt),
        container_user: c.optional(r.container_user),
        remote_user: c.optional(r.remote_user),
        user_env_probe: c.optional(r.user_env_probe),
        wait_for: c.optional(r.wait_for),
        run_args: c.texts(d.run_args),
        workspace_folder: c.optional(d.workspace_folder),
        workspace_mount: c.optional(d.workspace_mount),
        name: c.optional(d.name),
        container_env: c.values(r.container_env),
        remote_env: c.optional_values(r.remote_env),
        mounts: r.mounts.map_values(|m: NormalizedMountModel| c.mount(m)),
        on_create: c.commands(r.on_create),
        update_content: c.commands(r.update_content),
        post_create: c.commands(r.post_create),
        post_start: c.commands(r.post_start),
        post_attach: c.commands(r.post_attach),
        ..r
    }
}

fn optional(ctx: &SubstitutionContext, s: &Option<String>) -> (r: Option<String>)
    ensures
        r.deep_view() == ctx.deep_view().optional(s.deep_view()),
{
    match s {
        Some(t) => Some(ctx.substitute(t.as_str())),
        None => None,
    }
}

fn texts(ctx: &SubstitutionContext, v: &Vec<String>) -> (r: Vec<String>)
    ensures
        r.deep_view() == ctx.deep_view().texts(v.deep_view()),
{
    let mut out: Vec<String> = Vec::new();
    let mut i: usize = 0;
    while i < v.len()
        invariant
            i <= v.len(),
            out.len() == i,
            forall|k: int| 0 <= k < i ==> (#[trigger] out@[k])@ == ctx.deep_view().substituted(v@[k]@),
        decreases v.len() - i,
    {
        out.push(ctx.substitute(v[i].as_str()));
        i = i + 1;
    }
    assert(out.deep_view() =~= ctx.deep_view().texts(v.deep_view()));
    out
}

fn mounts(ctx: &SubstitutionContext, v: &Vec<NormalizedMount>) -> (r: Vec<NormalizedMount>)
    ensures
        r.deep_view() == v.deep_view().map_values(|m: NormalizedMountModel| ctx.deep_view().mount(m)),
{
    let mut out: Vec<NormalizedMount> = Vec::new();
    let mut i: usize = 0;
    while i < v.len()
        invariant
            i <= v.len(),
            out.len() == i,
            forall|k: int|
                0 <= k < i ==> (#[trigger] out@[k]).deep_view() == ctx.deep_view().mount(v@[k].deep_view()),
        decreases v.len() - i,
    {
        out.push(
            NormalizedMount {
                source: optional(ctx, &v[i].source),
                target: ctx.substitute(v[i].target.as_str()),
                kind: v[i].kind.clone(),
                read_only: v[i].read_only,
            },
        );
        i = i + 1;
    }
    assert(out.deep_view() =~= v.deep_view().map_values(|m: NormalizedMountModel| ctx.deep_view().mount(m)));
    out
}

fn commands(ctx: &SubstitutionContext, v: &Vec<Command>) -> (r: Vec<Command>)
    ensures
        r.deep_view() == ctx.deep_view().commands(v.deep_view()),
{
    let mut out: Vec<Command> = Vec::new();
    let mut i: usize = 0;
    while i < v.len()
        invariant
            i <= v.len(),
            out.len() == i,
            forall|k: int|
                0 <= k < i ==> (#[trigger] out@[k]).deep_view() == ctx.deep_view().command(v@[k].deep_view()),
        decreases v.len() - i,
    {
        let c = match &v[i] {
            Command::Shell(s) => Command::Shell(ctx.substitute(s.as_str())),
            Command::Argv(a) => Command::Argv(texts(ctx, a)),
        };
        out.push(c);
        i = i + 1;
    }
    assert(out.deep_view() =~= ctx.deep_view().commands(v.deep_view()));
    out
}

fn values(ctx: &SubstitutionContext, m: &StrMap<String>) -> (r: StrMap<String>)
    ensures
        r.deep_view() == ctx.deep_view().values(m.deep_view()),
{
    let mut out: StrMap<String> = StrMap::new();
    let ghost t = ctx.deep_view().values(m.deep_view());
    let n: usize = m.len();
    let mut i: usize = 0;
    assert(t.subrange(0, 0) =~= Seq::empty());
    while i < n
        invariant
            n == m.deep_view().len(),
            strmap::sorted(m.deep_view()),
            t == ctx.deep_view().values(m.deep_view()),
            i <= n,
            out.deep_view() == t.subrange(0, i as int),
        decreases n - i,
    {
        let (k, v) = m.at(i);
        let value = ctx.substitute(v.as_str());
        proof {
            let s = t.subrange(0, i as int);
            assert forall|j: int| 0 <= j < s.len() implies text::less((#[trigger] s[j]).0, k@) by {
                assert(s[j].0 == m.deep_view()[j].0);
                assert(m.deep_view()[i as int].0 == k@);
            }
            strmap::lemma_insert_at_end(s, k@, value@);
            assert(s.push((k@, value@)) =~= t.subrange(0, i + 1));
        }
        out.insert(k.to_owned(), value);
        i = i + 1;
    }
    assert(t.subrange(0, t.len() as int) =~= t);
    out
}

fn optional_values(ctx: &SubstitutionContext, m: &StrMap<Option<String>>) -> (r: StrMap<Option<String>>)
    ensures
        r.deep_view() == ctx.deep_view().optional_values(m.deep_view()),
{
    let mut out: StrMap<Option<String>> = StrMap::new();
    let ghost t = ctx.deep_view().optional_values(m.deep_view());
    let n: usize = m.len();
    let mut i: usize = 0;
    assert(t.subrange(0, 0) =~= Seq::empty());
    while i < n
        invariant
            n == m.deep_view().len(),
            strmap::sorted(m.deep_view()),
            t == ctx.deep_view().optional_values(m.deep_view()),
            i <= n,
            out.deep_view() == t.subrange(0, i as int),
        decreases n - i,
    {
        let (k, v) = m.at(i);
        let value = optional(ctx, v);
        proof {
            let s = t.subrange(0, i as int);
            assert forall|j: int| 0 <= j < s.len() implies text::less((#[trigger] s[j]).0, k@) by {
                assert(s[j].0 == m.deep_view()[j].0);
                assert(m.deep_view()[i as int].0 == k@);
            }
            strmap::lemma_insert_at_end(s, k@, value.deep_view());
            assert(s.push((k@, value.deep_view())) =~= t.subrange(0, i + 1));
        }
        out.insert(k.to_owned(), value);
        i = i + 1;
    }
    assert(t.subrange(0, t.len() as int) =~= t);
    out
}

/// Adds the properties of the `devcontainer.json`, then replaces variables everywhere.
pub fn finalize(resolved: ResolvedConfig, json: &DevcontainerJson, ctx: &SubstitutionContext) -> (r: ResolvedConfig)
    ensures
        r.deep_view() == finalized(resolved.deep_view(), json.deep_view(), ctx.deep_view()),
{
    let mut c = ctx.duplicate();
    c.container_env = resolved.container_env.duplicate();
    ResolvedConfig {
        entrypoints: texts(&c, &resolved.entrypoints),
        mounts: mounts(&c, &resolved.mounts),
        init: resolved.init,
        privileged: resolved.privileged,
        cap_add: texts(&c, &resolved.cap_add),
        security_opt: texts(&c, &resolved.security_opt),
        container_env: values(&c, &resolved.container_env),
        remote_env: optional_values(&c, &resolved.remote_env),
        container_user: optional(&c, &resolved.container_user),
        remote_user: optional(&c, &resolved.remote_user),
        user_env_probe: optional(&c, &resolved.user_env_probe),
        override_command: resolved.override_command,
        wait_for: optional(&c, &resolved.wait_for),
        on_create: commands(&c, &resolved.on_create),
        update_content: commands(&c, &resolved.update_content),
        post_create: commands(&c, &resolved.post_create),
        post_start: commands(&c, &resolved.post_start),
        post_attach: commands(&c, &resolved.post_attach),
        forward_ports: resolved.forward_ports,
        run_args: texts(&c, &json.run_args),
        workspace_folder: optional(&c, &json.workspace_folder),
        workspace_mount: optional(&c, &json.workspace_mount),
        name: optional(&c, &json.name),
    }
}

// ----------------------------------------------------------------------------------------------
// Hooks
// ----------------------------------------------------------------------------------------------

/// The commands as shell snippets.
pub open spec fn snippets_of(v: Seq<CommandModel>) -> Seq<Seq<char>> {
    v.map_values(|c: CommandModel| c.shell())
}

/// The stage's name, where it has any command.
pub open spec fn stage_name(name: Seq<char>, v: Seq<CommandModel>) -> Seq<Seq<char>> {
    if v.len() > 0 {
        seq![name]
    } else {
        Seq::empty()
    }
}

/// The hooks that run before the agent starts, in their order.
pub open spec fn startup_snippets(r: ResolvedModel) -> Seq<Seq<char>> {
    snippets_of(r.on_create) + snippets_of(r.update_content) + snippets_of(r.post_create) + snippets_of(
        r.post_start,
    )
}

/// The names of the stages that have anything to run.
pub open spec fn startup_stages(r: ResolvedModel) -> Seq<Seq<char>> {
    stage_name("onCreateCommand"@, r.on_create) + stage_name("updateContentCommand"@, r.update_content)
        + stage_name("postCreateCommand"@, r.post_create) + stage_name("postStartCommand"@, r.post_start)
}

fn add_stage(name: &str, stage: &Vec<Command>, out: &mut Vec<String>, names: &mut Vec<String>)
    ensures
        final(out).deep_view() == old(out).deep_view() + snippets_of(stage.deep_view()),
        final(names).deep_view() == old(names).deep_view() + stage_name(name@, stage.deep_view()),
{
    let ghost base = out.deep_view();
    let ghost all = snippets_of(stage.deep_view());
    if stage.len() > 0 {
        text::push_str(names, name);
    }
    assert(names.deep_view() =~= old(names).deep_view() + stage_name(name@, stage.deep_view()));
    let mut i: usize = 0;
    assert(base =~= base + all.subrange(0, 0));
    while i < stage.len()
        invariant
            i <= stage.len(),
            all == snippets_of(stage.deep_view()),
            out.deep_view() == base + all.subrange(0, i as int),
        decreases stage.len() - i,
    {
        text::push(out, stage[i].to_shell());
        i = i + 1;
        assert(out.deep_view() =~= base + all.subrange(0, i as int));
    }
    assert(all.subrange(0, all.len() as int) =~= all);
}

/// The hooks that must run inside the container before the agent starts, as shell snippets, and the
/// names of the stages they come from.
pub fn startup_commands(resolved: &ResolvedConfig, skip: bool) -> (r: (Vec<String>, Vec<String>))
    ensures
        skip ==> r.0@.len() == 0 && r.1@.len() == 0,
        !skip ==> r.0.deep_view() == startup_snippets(resolved.deep_view()) && r.1.deep_view() == startup_stages(
            resolved.deep_view(),
        ),
{
    let mut out: Vec<String> = Vec::new();
    let mut names: Vec<String> = Vec::new();
    if skip {
        return (out, names);
    }
    add_stage("onCreateCommand", &resolved.on_create, &mut out, &mut names);
    add_stage("updateContentCommand", &resolved.update_content, &mut out, &mut names);
    add_stage("postCreateCommand", &resolved.post_create, &mut out, &mut names);
    add_stage("postStartCommand", &resolved.post_start, &mut out, &mut names);
    assert(out.deep_view() =~= startup_snippets(resolved.deep_view()));
    assert(names.deep_view() =~= startup_stages(resolved.deep_view()));
    (out, names)
}

/// `postAttachCommand`, as shell snippets.
pub fn attach_commands(resolved: &ResolvedConfig, skip: bool) -> (r: Vec<String>)
    ensures
        r.deep_view() == (if skip {
            Seq::<Seq<char>>::empty()
        } else {
            snippets_of(resolved.deep_view().post_attach)
        }),
{
    let mut out: Vec<String> = Vec::new();
    let mut names: Vec<String> = Vec::new();
    if !skip {
        add_stage("postAttachCommand", &resolved.post_attach, &mut out, &mut names);
        assert(out.deep_view() =~= snippets_of(resolved.deep_view().post_attach));
    } else {
        assert(out.deep_view() =~= Seq::<Seq<char>>::empty());
    }
    out
}

// ----------------------------------------------------------------------------------------------
// What completing guarantees
// ----------------------------------------------------------------------------------------------

/// Whether a text came out of another by replacing its variables, where there is one.
pub open spec fn replaced(c: ContextModel, before: Option<Seq<char>>, after: Option<Seq<char>>) -> bool {
    match (before, after) {
        (Some(b), Some(a)) => a == c.substituted(b),
        (None, None) => true,
        _ => false,
    }
}

/// Whether each text of a list came out of the one in its place by replacing its variables.
pub open spec fn each_replaced(c: ContextModel, before: Seq<Seq<char>>, after: Seq<Seq<char>>) -> bool {
    before.len() == after.len() && forall|i: int| 0 <= i < after.len() ==> #[trigger] after[i] == c.substituted(before[i])
}

/// Whether each command of a list is the one in its place with every variable replaced: a shell text
/// stays one, and an argument vector keeps its arguments.
pub open spec fn commands_replaced(c: ContextModel, before: Seq<CommandModel>, after: Seq<CommandModel>) -> bool {
    before.len() == after.len() && forall|i: int|
        0 <= i < after.len() ==> match (before[i], #[trigger] after[i]) {
            (CommandModel::Shell(b), CommandModel::Shell(a)) => a == c.substituted(b),
            (CommandModel::Argv(b), CommandModel::Argv(a)) => each_replaced(c, b, a),
            _ => false,
        }
}

/// Variables are replaced everywhere: in every text, every list, every value of the environment, every
/// mount and every hook. The raw flags, the folders and the name are those of the document, the rest was
/// merged. `${containerEnv:..}` sees the merged environment.
pub proof fn law_variables_are_replaced_everywhere(r: ResolvedModel, d: DocumentModel, ctx: ContextModel)
    ensures
        ({
            let f = finalized(r, d, ctx);
            let c = ContextModel { container_env: r.container_env, ..ctx };
            &&& each_replaced(c, r.entrypoints, f.entrypoints)
            &&& each_replaced(c, r.cap_add, f.cap_add)
            &&& each_replaced(c, r.security_opt, f.security_opt)
            &&& each_replaced(c, d.run_args, f.run_args)
            &&& replaced(c, r.container_user, f.container_user)
            &&& replaced(c, r.remote_user, f.remote_user)
            &&& replaced(c, r.user_env_probe, f.user_env_probe)
            &&& replaced(c, r.wait_for, f.wait_for)
            &&& replaced(c, d.workspace_folder, f.workspace_folder)
            &&& replaced(c, d.workspace_mount, f.workspace_mount)
            &&& replaced(c, d.name, f.name)
            &&& commands_replaced(c, r.on_create, f.on_create)
            &&& commands_replaced(c, r.update_content, f.update_content)
            &&& commands_replaced(c, r.post_create, f.post_create)
            &&& commands_replaced(c, r.post_start, f.post_start)
            &&& commands_replaced(c, r.post_attach, f.post_attach)
            &&& f.container_env.len() == r.container_env.len()
            &&& forall|i: int|
                0 <= i < f.container_env.len() ==> (#[trigger] f.container_env[i]).0 == r.container_env[i].0
                    && f.container_env[i].1 == c.substituted(r.container_env[i].1)
            &&& f.remote_env.len() == r.remote_env.len()
            &&& forall|i: int|
                0 <= i < f.remote_env.len() ==> (#[trigger] f.remote_env[i]).0 == r.remote_env[i].0 && replaced(
                    c,
                    r.remote_env[i].1,
                    f.remote_env[i].1,
                )
            &&& f.mounts.len() == r.mounts.len()
            &&& forall|i: int|
                0 <= i < f.mounts.len() ==> replaced(c, r.mounts[i].source, (#[trigger] f.mounts[i]).source)
                    && f.mounts[i].target == c.substituted(r.mounts[i].target) && f.mounts[i].kind == r.mounts[i].kind
                    && f.mounts[i].read_only == r.mounts[i].read_only
            &&& f.init == r.init
            &&& f.privileged == r.privileged
            &&& f.override_command == r.override_command
            &&& f.forward_ports == r.forward_ports
        }),
{
    let f = finalized(r, d, ctx);
    let c = ContextModel { container_env: r.container_env, ..ctx };
    lemma_commands_replaced(c, r.on_create);
    lemma_commands_replaced(c, r.update_content);
    lemma_commands_replaced(c, r.post_create);
    lemma_commands_replaced(c, r.post_start);
    lemma_commands_replaced(c, r.post_attach);
}

proof fn lemma_commands_replaced(c: ContextModel, v: Seq<CommandModel>)
    ensures
        commands_replaced(c, v, c.commands(v)),
{
    let after = c.commands(v);
    assert forall|i: int| 0 <= i < after.len() implies match (v[i], #[trigger] after[i]) {
        (CommandModel::Shell(b), CommandModel::Shell(a)) => a == c.substituted(b),
        (CommandModel::Argv(b), CommandModel::Argv(a)) => each_replaced(c, b, a),
        _ => false,
    } by {
        assert(after[i] == c.command(v[i]));
    }
}

/// What a hook's command is for `sh -c`.
pub open spec fn snippet_for(c: CommandModel) -> Seq<char> {
    match c {
        CommandModel::Shell(s) => s,
        CommandModel::Argv(a) => crate::shell::command_line(a),
    }
}

/// Before the agent starts run the hooks of creation, then those that update the content, then those
/// after creation, then those after the start, each stage in its own order and nothing else. A stage is
/// named exactly where it has a command.
pub proof fn law_hooks_run_stage_by_stage(r: ResolvedModel)
    ensures
        ({
            let s = startup_snippets(r);
            let a = r.on_create.len() as int;
            let b = a + r.update_content.len();
            let c = b + r.post_create.len();
            let d = c + r.post_start.len();
            &&& s.len() == d
            &&& forall|i: int| 0 <= i < a ==> #[trigger] s[i] == snippet_for(r.on_create[i])
            &&& forall|i: int| a <= i < b ==> #[trigger] s[i] == snippet_for(r.update_content[i - a])
            &&& forall|i: int| b <= i < c ==> #[trigger] s[i] == snippet_for(r.post_create[i - b])
            &&& forall|i: int| c <= i < d ==> #[trigger] s[i] == snippet_for(r.post_start[i - c])
        }),
        startup_stages(r).contains("onCreateCommand"@) <==> r.on_create.len() > 0,
        startup_stages(r).contains("updateContentCommand"@) <==> r.update_content.len() > 0,
        startup_stages(r).contains("postCreateCommand"@) <==> r.post_create.len() > 0,
        startup_stages(r).contains("postStartCommand"@) <==> r.post_start.len() > 0,
        startup_stages(r).no_duplicates(),
{
    reveal_strlit("onCreateCommand");
    reveal_strlit("updateContentCommand");
    reveal_strlit("postCreateCommand");
    reveal_strlit("postStartCommand");
    assert("onCreateCommand"@.len() == 15 && "updateContentCommand"@.len() == 20);
    assert("postCreateCommand"@.len() == 17 && "postStartCommand"@.len() == 16);
    let s = startup_stages(r);
    let a = stage_name("onCreateCommand"@, r.on_create);
    let b = stage_name("updateContentCommand"@, r.update_content);
    let c = stage_name("postCreateCommand"@, r.post_create);
    let d = stage_name("postStartCommand"@, r.post_start);
    if a.len() > 0 {
        assert(s[0] == "onCreateCommand"@);
    }
    if b.len() > 0 {
        assert(s[a.len() as int] == "updateContentCommand"@);
    }
    if c.len() > 0 {
        assert(s[(a.len() + b.len()) as int] == "postCreateCommand"@);
    }
    if d.len() > 0 {
        assert(s[(a.len() + b.len() + c.len()) as int] == "postStartCommand"@);
    }
}

} // verus!
