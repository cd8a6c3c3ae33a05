//! Lifecycle hooks.

use vstd::prelude::*;

use crate::decode;
use crate::duplicate::Duplicate;
use crate::json::{Json, JsonModel};
use crate::strmap::{self, StrMap};
use crate::shell;

verus! {

/// A single runnable command.
#[derive(Debug, PartialEq)]
pub enum Command {
    /// Run through a shell: the text may contain pipes, `&&`, globs.
    Shell(String),
    /// Run directly, without a shell.
    Argv(Vec<String>),
}

/// The value side of a named lifecycle map.
#[derive(Debug, PartialEq)]
pub enum NamedCommand {
    Shell(String),
    Argv(Vec<String>),
}

/// What a [`Command`] or a [`NamedCommand`] stands for.
pub enum CommandModel {
    Shell(Seq<char>),
    Argv(Seq<Seq<char>>),
}

/// A lifecycle hook: a shell text, an argument vector, or a map of named commands.
#[derive(Debug, PartialEq)]
pub enum LifecycleCommand {
    Shell(String),
    Argv(Vec<String>),
    Named(StrMap<NamedCommand>),
}

/// What a [`LifecycleCommand`] stands for.
pub enum LifecycleCommandModel {
    Shell(Seq<char>),
    Argv(Seq<Seq<char>>),
    Named(Seq<(Seq<char>, CommandModel)>),
}

impl DeepView for Command {
    type V = CommandModel;

    open spec fn deep_view(&self) -> CommandModel {
        match self {
            Command::Shell(s) => CommandModel::Shell(s@),
            Command::Argv(a) => CommandModel::Argv(a.deep_view()),
        }
    }
}

impl DeepView for NamedCommand {
    type V = CommandModel;

    open spec fn deep_view(&self) -> CommandModel {
        match self {
            NamedCommand::Shell(s) => CommandModel::Shell(s@),
            NamedCommand::Argv(a) => CommandModel::Argv(a.deep_view()),
        }
    }
}

impl DeepView for LifecycleCommand {
    type V = LifecycleCommandModel;

    open spec fn deep_view(&self) -> LifecycleCommandModel {
        match self {
            LifecycleCommand::Shell(s) => LifecycleCommandModel::Shell(s@),
            LifecycleCommand::Argv(a) => LifecycleCommandModel::Argv(a.deep_view()),
            LifecycleCommand::Named(m) => LifecycleCommandModel::Named(m.deep_view()),
        }
    }
}

impl Duplicate for Command {
    fn duplicate(&self) -> (r: Self) {
        match self {
            Command::Shell(s) => Command::Shell(s.clone()),
            Command::Argv(a) => Command::Argv(a.duplicate()),
        }
    }
}

impl CommandModel {
    /// The command as a snippet for `sh -c`: a shell text as it is, an argument vector quoted.
    pub open spec fn shell(self) -> Seq<char> {
        match self {
            CommandModel::Shell(s) => s,
            CommandModel::Argv(a) => shell::command_line(a),
        }
    }
}

impl LifecycleCommandModel {
    /// The individual commands; named ones in the order of their names.
    pub open spec fn commands(self) -> Seq<CommandModel> {
        match self {
            LifecycleCommandModel::Shell(s) => seq![CommandModel::Shell(s)],
            LifecycleCommandModel::Argv(a) => seq![CommandModel::Argv(a)],
            LifecycleCommandModel::Named(m) => m.map_values(|e: (Seq<char>, CommandModel)| e.1),
        }
    }
}

impl Command {
    /// Renders the command as a snippet for `sh -c`.
    pub fn to_shell(&self) -> (r: String)
        ensures
            r@ == self.deep_view().shell(),
    {
        match self {
            Command::Shell(s) => s.clone(),
            Command::Argv(a) => shell::quote_all(a),
        }
    }
}

impl LifecycleCommand {
    /// Flattens into the individual commands to run, in a stable order.
    pub fn commands(&self) -> (r: Vec<Command>)
        ensures
            r.deep_view() == self.deep_view().commands(),
    {
        let mut out: Vec<Command> = Vec::new();
        match self {
            LifecycleCommand::Shell(s) => {
                out.push(Command::Shell(s.clone()));
                assert(out.deep_view() =~= self.deep_view().commands());
            },
            LifecycleCommand::Argv(a) => {
                out.push(Command::Argv(a.duplicate()));
                assert(out.deep_view() =~= self.deep_view().commands());
            },
            LifecycleCommand::Named(m) => {
                let ghost all = self.deep_view().commands();
                let n: usize = m.len();
                let mut i: usize = 0;
                while i < n
                    invariant
                        n == m.deep_view().len(),
                        all == m.deep_view().map_values(|e: (Seq<char>, CommandModel)| e.1),
                        i <= n,
                        out.len() == i,
                        forall|k: int| 0 <= k < i ==> (#[trigger] out@[k]).deep_view() == all[k],
                    decreases n - i,
                {
                    let (_k, v) = m.at(i);
                    let c = match v {
                        NamedCommand::Shell(s) => Command::Shell(s.clone()),
                        NamedCommand::Argv(a) => Command::Argv(a.duplicate()),
                    };
                    out.push(c);
                    i = i + 1;
                }
                assert(out.deep_view() =~= all);
            },
        }
        out
    }
}

// ----------------------------------------------------------------------------------------------
// Reading hooks from JSON
// ----------------------------------------------------------------------------------------------

/// The command that a JSON value spells.
pub open spec fn command_of(j: JsonModel) -> Option<CommandModel> {
    match j {
        JsonModel::Str(s) => Some(CommandModel::Shell(s)),
        JsonModel::Array(a) => match decode::text_list(a) {
            Some(t) => Some(CommandModel::Argv(t)),
            None => None,
        },
        _ => None,
    }
}

/// The named commands that the members of an object spell.
pub open spec fn named_of(o: Seq<(Seq<char>, JsonModel)>) -> Option<Seq<(Seq<char>, CommandModel)>> {
    if forall|i: int| 0 <= i < o.len() ==> command_of((#[trigger] o[i]).1) is Some {
        Some(o.map_values(|m: (Seq<char>, JsonModel)| (m.0, command_of(m.1)->0)))
    } else {
        None
    }
}

/// The hook that a JSON member spells: none where it is absent or null.
pub open spec fn hook_of(j: Option<JsonModel>) -> Option<Option<LifecycleCommandModel>> {
    match j {
        None => Some(None),
        Some(JsonModel::Null) => Some(None),
        Some(JsonModel::Str(s)) => Some(Some(LifecycleCommandModel::Shell(s))),
        Some(JsonModel::Array(a)) => match decode::text_list(a) {
            Some(t) => Some(Some(LifecycleCommandModel::Argv(t))),
            None => None,
        },
        Some(JsonModel::Object(o)) => match named_of(o) {
            Some(m) => Some(Some(LifecycleCommandModel::Named(decode::collected(m)))),
            None => None,
        },
        _ => None,
    }
}

fn read_command(j: &Json) -> (r: Option<NamedCommand>)
    ensures
        r.deep_view() == command_of(j@),
{
    broadcast use crate::json::lemma_object_view;

    match j {
        Json::Str(s) => Some(NamedCommand::Shell(s.clone())),
        Json::Array(a) => match decode::text_array(a) {
            Some(t) => Some(NamedCommand::Argv(t)),
            None => None,
        },
        _ => None,
    }
}

/// Reads a lifecycle hook.
pub fn read_hook(j: Option<&Json>) -> (r: Option<Option<LifecycleCommand>>)
    ensures
        r.deep_view() == hook_of(j.deep_view()),
{
    broadcast use crate::json::lemma_object_view;

    match j {
        None => Some(None),
        Some(Json::Null) => Some(None),
        Some(Json::Str(s)) => Some(Some(LifecycleCommand::Shell(s.clone()))),
        Some(Json::Array(a)) => match decode::text_array(a) {
            Some(t) => Some(Some(LifecycleCommand::Argv(t))),
            None => None,
        },
        Some(Json::Object(o)) => {
            let mut out: StrMap<NamedCommand> = StrMap::new();
            let ghost m = crate::json::members_model(o@);
            let ghost t = m.map_values(|e: (Seq<char>, JsonModel)| (e.0, command_of(e.1)->0));
            let mut i: usize = 0;
            assert(t.subrange(0, 0) =~= Seq::empty());
            while i < o.len()
                invariant
                    j.deep_view() == Some(JsonModel::Object(m)),
                    m == crate::json::members_model(o@),
                    t == m.map_values(|e: (Seq<char>, JsonModel)| (e.0, command_of(e.1)->0)),
                    i <= o.len(),
                    forall|k: int| 0 <= k < i ==> command_of((#[trigger] m[k]).1) is Some,
                    out.deep_view() == decode::collected(t.subrange(0, i as int)),
                decreases o.len() - i,
            {
                assert(m[i as int] == (o@[i as int].0@, o@[i as int].1@));
                match read_command(&o[i].1) {
                    Some(c) => {
                        out.insert(o[i].0.clone(), c);
                    },
                    None => {
                        return None;
                    },
                }
                i = i + 1;
                assert(t.subrange(0, i as int).drop_last() =~= t.subrange(0, i - 1));
            }
            assert(t.subrange(0, t.len() as int) =~= t);
            Some(Some(LifecycleCommand::Named(out)))
        },
        _ => None,
    }
}

/// Whether a command is the one that a value spells: a text for the shell, or a list of arguments.
pub open spec fn spells_command(j: JsonModel, c: CommandModel) -> bool {
    match (j, c) {
        (JsonModel::Str(s), CommandModel::Shell(t)) => s == t,
        (JsonModel::Array(_), CommandModel::Argv(a)) => decode::spells_texts(Some(j), a),
        _ => false,
    }
}

/// Whether a hook is the one that a member spells: a command, or commands by name, and none where the
/// member is absent or null.
pub open spec fn spells_hook(j: Option<JsonModel>, h: Option<LifecycleCommandModel>) -> bool {
    match (j, h) {
        (None, None) => true,
        (Some(JsonModel::Null), None) => true,
        (Some(JsonModel::Str(s)), Some(LifecycleCommandModel::Shell(t))) => s == t,
        (Some(JsonModel::Array(_)), Some(LifecycleCommandModel::Argv(a))) => decode::spells_texts(j, a),
        (Some(JsonModel::Object(o)), Some(LifecycleCommandModel::Named(m))) => {
            &&& forall|k: int|
                #![trigger o[k]]
                decode::last_of_name(o, k) ==> (strmap::get(m, o[k].0) matches Some(c) && spells_command(o[k].1, c))
            &&& forall|q: Seq<char>|
                (forall|k: int| 0 <= k < o.len() ==> (#[trigger] o[k]).0 != q) ==> #[trigger] strmap::get(m, q) is None
        },
        _ => false,
    }
}

/// A hook that is read is the one that is there.
pub proof fn law_a_hook_is_read_as_written(j: Option<JsonModel>)
    ensures
        hook_of(j) matches Some(h) ==> spells_hook(j, h),
{
    decode::law_what_is_read_is_what_is_there(j);
    match j {
        Some(JsonModel::Object(o)) => match named_of(o) {
            Some(p) => {
                let m = decode::collected(p);
                assert forall|k: int| #![trigger o[k]] decode::last_of_name(o, k) implies (strmap::get(
                    m,
                    o[k].0,
                ) matches Some(c) && spells_command(o[k].1, c)) by {
                    assert(p[k].0 == o[k].0);
                    assert forall|i: int| k < i < p.len() implies (#[trigger] p[i]).0 != p[k].0 by {
                        assert(o[i].0 != o[k].0);
                    }
                    assert(decode::last_of_name(p, k));
                    decode::lemma_collected(p, o[k].0);
                    assert(command_of(o[k].1) is Some);
                    decode::law_what_is_read_is_what_is_there(Some(o[k].1));
                }
                assert forall|q: Seq<char>|
                    (forall|k: int| 0 <= k < o.len() ==> (#[trigger] o[k]).0 != q) implies #[trigger] strmap::get(
                    m,
                    q,
                ) is None by {
                    assert forall|k: int| 0 <= k < p.len() implies (#[trigger] p[k]).0 != q by {
                        assert(o[k].0 != q);
                    }
                    decode::lemma_collected(p, q);
                }
            },
            None => {},
        },
        _ => {},
    }
}

/// What a hook runs: its text, its argument vector, or every named command.
pub proof fn law_every_command_of_a_hook_is_run(h: LifecycleCommandModel, k: int)
    ensures
        h matches LifecycleCommandModel::Shell(s) ==> h.commands() == seq![CommandModel::Shell(s)],
        h matches LifecycleCommandModel::Argv(a) ==> h.commands() == seq![CommandModel::Argv(a)],
        h matches LifecycleCommandModel::Named(m) ==> h.commands().len() == m.len() && (0 <= k < m.len()
            ==> h.commands()[k] == m[k].1),
{
}

} // verus!
