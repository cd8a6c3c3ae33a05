//! The command that runs inside a session container.

use vstd::prelude::*;

use crate::devcontainer::snippet::UserEnvProbe;
use crate::duplicate::Duplicate;
use crate::shell;
use crate::text;

verus! {

/// Gives the user the host's numeric ids, where it does not have them yet. Best effort: an image
/// without `usermod` keeps the ids it has.
pub open spec fn align_script(user: Seq<char>, id: (u32, u32)) -> Seq<char> {
    let u = shell::quoted(user);
    let uid = text::decimal(id.0 as nat);
    let gid = text::decimal(id.1 as nat);
    "{ [ \"$(id -u "@ + u + " 2>/dev/null)\" = "@ + uid
        + " ] || { command -v usermod >/dev/null 2>&1 && groupmod -g "@ + gid + " "@ + u
        + " >/dev/null 2>&1; usermod -u "@ + uid + " -g "@ + gid + " "@ + u + " >/dev/null 2>&1; }; } || true"@
}

/// Writes the script that aligns a user's ids with the host's; none where the host has none.
pub fn align_uid_script(user: &str, id: Option<(u32, u32)>) -> (r: Option<String>)
    ensures
        r.deep_view() == (match id {
            Some(id) => Some(align_script(user@, id)),
            None => None,
        }),
{
    match id {
        Some((uid, gid)) => {
            let u = shell::shell_quote(user);
            let uid = text::decimal_of(uid as u64);
            let gid = text::decimal_of(gid as u64);
            let mut s = text::cat7(
                "{ [ \"$(id -u ",
                u.as_str(),
                " 2>/dev/null)\" = ",
                uid.as_str(),
                " ] || { command -v usermod >/dev/null 2>&1 && groupmod -g ",
                gid.as_str(),
                " ",
            );
            s.append(u.as_str());
            s.append(" >/dev/null 2>&1; usermod -u ");
            s.append(uid.as_str());
            s.append(" -g ");
            s.append(gid.as_str());
            s.append(" ");
            s.append(u.as_str());
            s.append(" >/dev/null 2>&1; }; } || true");
            Some(s)
        },
        None => None,
    }
}

/// The patterns that match an assignment to one of the names.
pub open spec fn assignment_patterns(names: Seq<Seq<char>>) -> Seq<char> {
    text::joined(names.map_values(|n: Seq<char>| n + "=*"@), "|"@)
}

/// The line that skips protected variables.
pub open spec fn guard(protected: Seq<Seq<char>>) -> Seq<char> {
    if protected.len() == 0 {
        Seq::empty()
    } else {
        "    case \"$_am_line\" in "@ + assignment_patterns(protected) + ") continue ;; esac\n"@
    }
}

/// The script that runs the user's shell once and takes over the environment it ends up with, except
/// for protected variables. Newlines inside values survive: while the variables are told apart by line,
/// a value's own newlines stand as U+0001.
pub open spec fn probe_script(flags: Seq<char>, protected: Seq<Seq<char>>) -> Seq<char> {
    "_am_shell=$(getent passwd \"$(id -u)\" 2>/dev/null | cut -d: -f7)\n[ -x \"$_am_shell\" ] || _am_shell=/bin/sh\n_am_env=$(\"$_am_shell\" "@
        + flags
        + " 'cat /proc/self/environ' 2>/dev/null | tr '\\n\\000' '\\001\\n')\n_am_ifs=$IFS; IFS='\n'\nfor _am_line in $_am_env; do\n"@
        + guard(protected)
        + "    case \"$_am_line\" in *=*) ;; *) continue ;; esac\n    _am_val=$(printf '%s' \"${_am_line#*=}\" | tr '\\001' '\\n'; printf x)\n    export \"${_am_line%%=*}=${_am_val%x}\" 2>/dev/null || true\ndone\nIFS=$_am_ifs; unset _am_shell _am_env _am_ifs _am_line _am_val"@
}

/// The probe's script, where there is a probe.
pub open spec fn probe_of(probe: UserEnvProbe, protected: Seq<Seq<char>>) -> Option<Seq<char>> {
    match probe.flags() {
        Some(flags) => Some(probe_script(flags, protected)),
        None => None,
    }
}

/// Writes the script that probes the user's environment.
pub fn user_env_probe_script(probe: UserEnvProbe, protected: &Vec<String>) -> (r: Option<String>)
    ensures
        r.deep_view() == probe_of(probe, protected.deep_view()),
{
    let flags = match probe.shell_flags() {
        Some(f) => f,
        None => {
            return None;
        },
    };
    let g = if protected.len() == 0 {
        String::new()
    } else {
        let ghost all = protected.deep_view().map_values(|n: Seq<char>| n + "=*"@);
        let mut patterns: Vec<String> = Vec::new();
        let mut i: usize = 0;
        while i < protected.len()
            invariant
                i <= protected.len(),
                all == protected.deep_view().map_values(|n: Seq<char>| n + "=*"@),
                patterns.deep_view() == all.subrange(0, i as int),
            decreases protected.len() - i,
        {
            text::push(&mut patterns, text::cat2(protected[i].as_str(), "=*"));
            i = i + 1;
            assert(patterns.deep_view() =~= all.subrange(0, i as int));
        }
        assert(patterns.deep_view() =~= all);
        let names = text::join(&patterns, "|");
        text::cat3("    case \"$_am_line\" in ", names.as_str(), ") continue ;; esac\n")
    };
    Some(
        text::cat5(
            "_am_shell=$(getent passwd \"$(id -u)\" 2>/dev/null | cut -d: -f7)\n[ -x \"$_am_shell\" ] || _am_shell=/bin/sh\n_am_env=$(\"$_am_shell\" ",
            flags,
            " 'cat /proc/self/environ' 2>/dev/null | tr '\\n\\000' '\\001\\n')\n_am_ifs=$IFS; IFS='\n'\nfor _am_line in $_am_env; do\n",
            g.as_str(),
            "    case \"$_am_line\" in *=*) ;; *) continue ;; esac\n    _am_val=$(printf '%s' \"${_am_line#*=}\" | tr '\\001' '\\n'; printf x)\n    export \"${_am_line%%=*}=${_am_val%x}\" 2>/dev/null || true\ndone\nIFS=$_am_ifs; unset _am_shell _am_env _am_ifs _am_line _am_val",
        ),
    )
}

// ----------------------------------------------------------------------------------------------
// Composition
// ----------------------------------------------------------------------------------------------

/// The two parts with `sep` between them, where neither is empty.
pub open spec fn chained(a: Seq<char>, sep: Seq<char>, b: Seq<char>) -> Seq<char> {
    if a.len() == 0 {
        b
    } else if b.len() == 0 {
        a
    } else {
        a + sep + b
    }
}

/// The hooks and then the agent, which replaces the shell. A failing hook stops the chain.
pub open spec fn hooks_and_agent(hooks: Seq<Seq<char>>, agent: Seq<Seq<char>>) -> Seq<char> {
    chained(
        text::joined(hooks, " && "@),
        " && "@,
        if agent.len() == 0 {
            Seq::empty()
        } else {
            "exec "@ + shell::command_line(agent)
        },
    )
}

/// What the remote user runs: the probe, which cannot fail, then the hooks and the agent.
pub open spec fn user_script(probe: Option<Seq<char>>, tail: Seq<char>) -> Seq<char> {
    match probe {
        Some(p) => chained(p, "\n"@, tail),
        None => tail,
    }
}

/// The script as the user it is dropped to.
pub open spec fn dropped(drop_to: Option<Seq<char>>, script: Seq<char>) -> Seq<char> {
    match drop_to {
        Some(user) if script.len() > 0 => "exec su "@ + shell::quoted(user) + " -s /bin/sh -c "@ + shell::quoted(
            script,
        ),
        _ => script,
    }
}

/// The alignment of the user that is dropped to, where there is one.
pub open spec fn alignment(drop_to: Option<Seq<char>>, id: Option<(u32, u32)>) -> Seq<char> {
    match (drop_to, id) {
        (Some(user), Some(id)) => align_script(user, id),
        _ => Seq::empty(),
    }
}

/// What the container runs. The entrypoints of Features run first, as the container's own user, and one
/// that fails stops the session; the rest runs as the remote user. With nothing to add to it, the
/// agent's command stays as it is.
pub open spec fn entrypoint_command(
    entrypoints: Seq<Seq<char>>,
    hooks: Seq<Seq<char>>,
    agent: Seq<Seq<char>>,
    probe: Option<Seq<char>>,
    drop_to: Option<Seq<char>>,
    id: Option<(u32, u32)>,
) -> Seq<Seq<char>> {
    if entrypoints.len() == 0 && hooks.len() == 0 && probe is None {
        agent
    } else {
        seq![
            "sh"@,
            "-c"@,
            chained(
                chained(alignment(drop_to, id), "\n"@, text::joined(entrypoints, " && "@)),
                " && "@,
                dropped(drop_to, user_script(probe, hooks_and_agent(hooks, agent))),
            ),
        ]
    }
}

fn chain(a: String, sep: &str, b: &str) -> (r: String)
    ensures
        r@ == chained(a@, sep@, b@),
{
    if a.as_str().is_empty() {
        b.to_owned()
    } else if b.is_empty() {
        a
    } else {
        text::cat3(a.as_str(), sep, b)
    }
}

/// Composes Feature entrypoints, lifecycle hooks and the agent into one container command.
pub fn compose_entrypoint_command(
    entrypoints: &Vec<String>,
    hooks: &Vec<String>,
    agent_cmd: &Vec<String>,
    probe: UserEnvProbe,
    protected: &Vec<String>,
    drop_to: Option<&str>,
    id: Option<(u32, u32)>,
) -> (r: Vec<String>)
    ensures
        r.deep_view() == entrypoint_command(
            entrypoints.deep_view(),
            hooks.deep_view(),
            agent_cmd.deep_view(),
            probe_of(probe, protected.deep_view()),
            drop_to.deep_view(),
            id,
        ),
{
    let probe_text = user_env_probe_script(probe, protected);
    if entrypoints.len() == 0 && hooks.len() == 0 && probe_text.is_none() {
        return agent_cmd.duplicate();
    }
    let agent = if agent_cmd.len() == 0 {
        String::new()
    } else {
        let line = shell::quote_all(agent_cmd);
        text::cat2("exec ", line.as_str())
    };
    let tail = chain(text::join(hooks, " && "), " && ", agent.as_str());
    let script = match probe_text {
        Some(p) => chain(p, "\n", tail.as_str()),
        None => tail,
    };
    let align = match drop_to {
        Some(user) => match align_uid_script(user, id) {
            Some(a) => a,
            None => String::new(),
        },
        None => String::new(),
    };
    let entry = text::join(entrypoints, " && ");
    let first = chain(align, "\n", entry.as_str());
    let last = match drop_to {
        Some(user) => if script.as_str().is_empty() {
            script
        } else {
            let u = shell::shell_quote(user);
            let q = shell::shell_quote(script.as_str());
            text::cat4("exec su ", u.as_str(), " -s /bin/sh -c ", q.as_str())
        },
        None => script,
    };
    let whole = chain(first, " && ", last.as_str());
    let mut out: Vec<String> = Vec::new();
    text::push_str(&mut out, "sh");
    text::push_str(&mut out, "-c");
    text::push(&mut out, whole);
    assert(out.deep_view() =~= seq!["sh"@, "-c"@, whole@]);
    out
}

/// With an entrypoint and a user to drop to, the script ends in the drop: nothing runs after it, and
/// everything before it runs as the container's own user.
pub proof fn law_the_drop_comes_last(
    entrypoints: Seq<Seq<char>>,
    hooks: Seq<Seq<char>>,
    agent: Seq<Seq<char>>,
    probe: Option<Seq<char>>,
    user: Seq<char>,
    id: (u32, u32),
)
    requires
        entrypoints.len() > 0,
        user_script(probe, hooks_and_agent(hooks, agent)).len() > 0,
    ensures
        ({
            let cmd = entrypoint_command(entrypoints, hooks, agent, probe, Some(user), Some(id));
            &&& cmd.len() == 3
            &&& cmd[2] == chained(align_script(user, id), "\n"@, text::joined(entrypoints, " && "@)) + " && "@
                + ("exec su "@ + shell::quoted(user) + " -s /bin/sh -c "@ + shell::quoted(
                user_script(probe, hooks_and_agent(hooks, agent)),
            ))
        }),
{
    reveal_strlit("{ [ \"$(id -u ");
    reveal_strlit("exec su ");
}

// ----------------------------------------------------------------------------------------------
// What the container runs
// ----------------------------------------------------------------------------------------------

/// Where there is nothing to add, the container runs the agent's command as it is. Otherwise it runs one
/// script, and where an agent is given and no user is dropped to, the script ends by becoming the agent.
pub proof fn law_the_agent_is_what_is_left_running(
    entrypoints: Seq<Seq<char>>,
    hooks: Seq<Seq<char>>,
    agent: Seq<Seq<char>>,
    probe: Option<Seq<char>>,
    drop_to: Option<Seq<char>>,
    id: Option<(u32, u32)>,
)
    ensures
        ({
            let cmd = entrypoint_command(entrypoints, hooks, agent, probe, drop_to, id);
            let bare = entrypoints.len() == 0 && hooks.len() == 0 && probe is None;
            &&& bare ==> cmd == agent
            &&& !bare ==> cmd.len() == 3 && cmd[0] == "sh"@ && cmd[1] == "-c"@
            &&& !bare && agent.len() > 0 && drop_to is None ==> text::has_suffix(
                cmd[2],
                "exec "@ + shell::command_line(agent),
            )
            &&& agent.len() > 0 ==> text::has_suffix(
                user_script(probe, hooks_and_agent(hooks, agent)),
                "exec "@ + shell::command_line(agent),
            )
        }),
{
    reveal_strlit("exec ");
    let end = "exec "@ + shell::command_line(agent);
    if agent.len() > 0 {
        let h = hooks_and_agent(hooks, agent);
        lemma_chain_end(text::joined(hooks, " && "@), " && "@, end);
        assert(text::has_suffix(h, end));
        let u = user_script(probe, h);
        match probe {
            Some(p) => {
                lemma_chain_end(p, "\n"@, h);
                lemma_suffix_of_suffix(u, h, end);
            },
            None => {},
        }
        if drop_to is None {
            let first = chained(alignment(drop_to, id), "\n"@, text::joined(entrypoints, " && "@));
            lemma_chain_end(first, " && "@, u);
            lemma_suffix_of_suffix(chained(first, " && "@, u), u, end);
        }
    }
}

proof fn lemma_chain_end(a: Seq<char>, sep: Seq<char>, b: Seq<char>)
    requires
        b.len() > 0,
    ensures
        text::has_suffix(chained(a, sep, b), b),
{
    let c = chained(a, sep, b);
    assert(c.subrange(c.len() - b.len(), c.len() as int) =~= b);
}

proof fn lemma_suffix_of_suffix(c: Seq<char>, b: Seq<char>, a: Seq<char>)
    requires
        text::has_suffix(c, b),
        text::has_suffix(b, a),
    ensures
        text::has_suffix(c, a),
{
    assert(c.subrange(c.len() - a.len(), c.len() as int) =~= b.subrange(b.len() - a.len(), b.len() as int));
}

/// What the user's part of the script runs: the probe first, then every hook, each only where the one
/// before it succeeded, and the agent only where the last hook did.
pub proof fn law_every_hook_runs_before_the_agent(
    hooks: Seq<Seq<char>>,
    agent: Seq<Seq<char>>,
    probe: Option<Seq<char>>,
    k: int,
)
    requires
        0 <= k < hooks.len(),
        hooks[0].len() > 0,
        agent.len() > 0,
    ensures
        ({
            let s = user_script(probe, hooks_and_agent(hooks, agent));
            &&& text::holds(s, hooks[k])
            &&& k > 0 ==> text::holds(s, hooks[k - 1] + " && "@ + hooks[k])
            &&& text::holds(s, hooks.last() + " && "@ + ("exec "@ + shell::command_line(agent)))
            &&& probe matches Some(p) ==> text::has_prefix(s, p)
            &&& probe is None ==> text::has_prefix(s, hooks[0])
        }),
{
    let e = "exec "@ + shell::command_line(agent);
    reveal_strlit("exec ");
    let h = hooks_and_agent(hooks, agent);
    lemma_in_sequence(hooks, e, k);
    match probe {
        Some(p) => {
            lemma_after_probe(p, h, hooks[k]);
            if k > 0 {
                lemma_after_probe(p, h, hooks[k - 1] + " && "@ + hooks[k]);
            }
            lemma_after_probe(p, h, hooks.last() + " && "@ + e);
        },
        None => {},
    }
}

/// Parts in sequence and then one more: each is there, next to the one before it.
proof fn lemma_in_sequence(parts: Seq<Seq<char>>, end: Seq<char>, k: int)
    requires
        0 <= k < parts.len(),
        parts[0].len() > 0,
        end.len() > 0,
    ensures
        ({
            let s = chained(text::joined(parts, " && "@), " && "@, end);
            &&& text::holds(s, parts[k])
            &&& k > 0 ==> text::holds(s, parts[k - 1] + " && "@ + parts[k])
            &&& text::holds(s, parts.last() + " && "@ + end)
            &&& text::has_suffix(s, parts.last() + " && "@ + end)
            &&& text::has_prefix(s, parts[0])
        }),
{
    let j = text::joined(parts, " && "@);
    text::lemma_joined_ends(parts, " && "@);
    text::lemma_joined_holds(parts, " && "@, k);
    assert(j.len() >= parts[0].len());
    lemma_extended(j, " && "@, end, parts[k], parts[0], parts.last());
    if k > 0 {
        lemma_extended(j, " && "@, end, parts[k - 1] + " && "@ + parts[k], parts[0], parts.last());
    }
}

proof fn lemma_extended(
    j: Seq<char>,
    sep: Seq<char>,
    end: Seq<char>,
    p: Seq<char>,
    first: Seq<char>,
    last: Seq<char>,
)
    requires
        text::holds(j, p),
        text::has_prefix(j, first),
        text::has_suffix(j, last),
    ensures
        text::holds(j + sep + end, p),
        text::has_prefix(j + sep + end, first),
        text::has_suffix(j + sep + end, last + sep + end),
        text::holds(j + sep + end, last + sep + end),
{
    let s = j + sep + end;
    assert(s =~= j + (sep + end));
    text::lemma_holds_after(j, p, sep + end);
    assert(s.subrange(0, first.len() as int) =~= j.subrange(0, first.len() as int));
    let x = j.subrange(0, j.len() - last.len());
    assert(j =~= x + last);
    let part = last + sep + end;
    assert(s.subrange(s.len() - part.len(), s.len() as int) =~= part);
    let i = x.len() as int;
    assert(s.subrange(i, i + part.len()) =~= part);
}

proof fn lemma_after_probe(p: Seq<char>, h: Seq<char>, q: Seq<char>)
    requires
        text::holds(h, q),
        h.len() > 0,
    ensures
        text::holds(chained(p, "\n"@, h), q),
        text::has_prefix(chained(p, "\n"@, h), p),
{
    let s = chained(p, "\n"@, h);
    assert(s.subrange(0, p.len() as int) =~= p);
    if p.len() > 0 {
        lemma_before(p + "\n"@, h, q);
    }
}

proof fn lemma_before(x: Seq<char>, s: Seq<char>, q: Seq<char>)
    requires
        text::holds(s, q),
    ensures
        text::holds(x + s, q),
{
    let i = choose|i: int|
        #![trigger s.subrange(i, i + q.len())]
        0 <= i && i + q.len() <= s.len() && s.subrange(i, i + q.len()) == q;
    let k = x.len() + i;
    assert((x + s).subrange(k, k + q.len()) =~= q);
}

/// The entrypoints of Features run before anything of the user's, in their order, each only where the one
/// before it succeeded.
pub proof fn law_entrypoints_run_first(
    entrypoints: Seq<Seq<char>>,
    hooks: Seq<Seq<char>>,
    agent: Seq<Seq<char>>,
    probe: Option<Seq<char>>,
    drop_to: Option<Seq<char>>,
    id: Option<(u32, u32)>,
    k: int,
)
    requires
        0 <= k < entrypoints.len(),
        entrypoints[0].len() > 0,
        agent.len() > 0,
    ensures
        ({
            let script = entrypoint_command(entrypoints, hooks, agent, probe, drop_to, id)[2];
            let rest = match drop_to {
                Some(user) => "exec su "@ + shell::quoted(user) + " -s /bin/sh -c "@ + shell::quoted(
                    user_script(probe, hooks_and_agent(hooks, agent)),
                ),
                None => user_script(probe, hooks_and_agent(hooks, agent)),
            };
            &&& text::holds(script, entrypoints[k])
            &&& k > 0 ==> text::holds(script, entrypoints[k - 1] + " && "@ + entrypoints[k])
            &&& text::has_suffix(script, entrypoints.last() + " && "@ + rest)
            &&& drop_to is None || id is None ==> text::has_prefix(script, entrypoints[0])
            &&& drop_to matches Some(user) ==> (id matches Some(id) ==> text::has_prefix(
                script,
                align_script(user, id),
            ))
        }),
{
    reveal_strlit("exec ");
    reveal_strlit("exec su ");
    reveal_strlit("{ [ \"$(id -u ");
    law_the_agent_is_what_is_left_running(entrypoints, hooks, agent, probe, drop_to, id);
    let u = user_script(probe, hooks_and_agent(hooks, agent));
    let rest = dropped(drop_to, u);
    let j = text::joined(entrypoints, " && "@);
    text::lemma_joined_ends(entrypoints, " && "@);
    assert(j.len() >= entrypoints[0].len());
    lemma_in_sequence(entrypoints, rest, k);
    let a = alignment(drop_to, id);
    let tail = j + " && "@ + rest;
    if a.len() > 0 {
        let script = (a + "\n"@ + j) + " && "@ + rest;
        assert(script =~= (a + "\n"@) + tail);
        lemma_before(a + "\n"@, tail, entrypoints[k]);
        if k > 0 {
            lemma_before(a + "\n"@, tail, entrypoints[k - 1] + " && "@ + entrypoints[k]);
        }
        let end = entrypoints.last() + " && "@ + rest;
        assert(script.subrange(script.len() - tail.len(), script.len() as int) =~= tail);
        lemma_suffix_of_suffix(script, tail, end);
        assert(script.subrange(0, a.len() as int) =~= a);
    }
}

/// Aligning a user asks for its number, and where that is another gives the user the host's number and
/// group.
#[verifier::rlimit(60)]
pub proof fn law_the_user_gets_the_hosts_numbers(user: Seq<char>, id: (u32, u32))
    ensures
        ({
            let s = align_script(user, id);
            let u = shell::quoted(user);
            let uid = text::decimal(id.0 as nat);
            let gid = text::decimal(id.1 as nat);
            &&& text::holds(s, "id -u "@ + u + " 2>/dev/null)\" = "@ + uid + " ] || "@)
            &&& text::holds(s, "groupmod -g "@ + gid + " "@ + u + " >"@)
            &&& text::holds(s, "; usermod -u "@ + uid + " -g "@ + gid + " "@ + u + " >"@)
            &&& text::has_suffix(s, "|| true"@)
        }),
{
    let s = align_script(user, id);
    let u = shell::quoted(user);
    let uid = text::decimal(id.0 as nat);
    let gid = text::decimal(id.1 as nat);
    lemma_align_pieces();
    let a = "id -u "@ + u + " 2>/dev/null)\" = "@ + uid + " ] || "@;
    let b = "groupmod -g "@ + gid + " "@ + u + " >"@;
    let c = "; usermod -u "@ + uid + " -g "@ + gid + " "@ + u + " >"@;
    let m1 = "{ command -v usermod >/dev/null 2>&1 && "@;
    let m2 = "/dev/null 2>&1"@;
    let m3 = "/dev/null 2>&1; }; } "@;
    let m4 = "|| true"@;
    let none = Seq::<char>::empty();
    let t1 = "{ [ \"$("@ + a;
    let t2 = t1 + m1;
    let t3 = t2 + b;
    let t4 = t3 + m2;
    let t5 = t4 + c;
    let t6 = t5 + m3;
    let d1 = "{ [ \"$(id -u "@ + u + " 2>/dev/null)\" = "@ + uid;
    let d2 = d1 + " ] || { command -v usermod >/dev/null 2>&1 && groupmod -g "@ + gid + " "@ + u;
    let d3 = d2 + " >/dev/null 2>&1; usermod -u "@ + uid + " -g "@ + gid + " "@ + u;
    assert(s == d3 + " >/dev/null 2>&1; }; } || true"@);
    assert(d1 + " ] || "@ =~= t1);
    assert(d2 + " >"@ =~= t3);
    assert(d3 + " >"@ =~= t5);
    assert(s =~= t6 + m4);
    text::lemma_holds_middle("{ [ \"$("@, a, none);
    assert(t1 + none =~= t1);
    text::lemma_holds_middle(t2, b, none);
    assert(t3 + none =~= t3);
    text::lemma_holds_middle(t4, c, none);
    assert(t5 + none =~= t5);
    text::lemma_holds_after(t1, a, m1);
    text::lemma_holds_after(t2, a, b);
    text::lemma_holds_after(t3, a, m2);
    text::lemma_holds_after(t4, a, c);
    text::lemma_holds_after(t5, a, m3);
    text::lemma_holds_after(t6, a, m4);
    text::lemma_holds_after(t3, b, m2);
    text::lemma_holds_after(t4, b, c);
    text::lemma_holds_after(t5, b, m3);
    text::lemma_holds_after(t6, b, m4);
    text::lemma_holds_after(t5, c, m3);
    text::lemma_holds_after(t6, c, m4);
    assert(s.subrange(s.len() - m4.len(), s.len() as int) =~= m4);
}

proof fn lemma_align_pieces()
    ensures
        "{ [ \"$(id -u "@ == "{ [ \"$("@ + "id -u "@,
        " ] || { command -v usermod >/dev/null 2>&1 && groupmod -g "@ == " ] || "@
            + "{ command -v usermod >/dev/null 2>&1 && "@ + "groupmod -g "@,
        " >/dev/null 2>&1; usermod -u "@ == " >"@ + "/dev/null 2>&1"@ + "; usermod -u "@,
        " >/dev/null 2>&1; }; } || true"@ == " >"@ + "/dev/null 2>&1; }; } "@ + "|| true"@,
{
    reveal_strlit("{ [ \"$(id -u ");
    reveal_strlit("{ [ \"$(");
    reveal_strlit("id -u ");
    reveal_strlit(" ] || { command -v usermod >/dev/null 2>&1 && groupmod -g ");
    reveal_strlit(" ] || ");
    reveal_strlit("{ command -v usermod >/dev/null 2>&1 && ");
    reveal_strlit("groupmod -g ");
    reveal_strlit(" >/dev/null 2>&1; usermod -u ");
    reveal_strlit(" >");
    reveal_strlit("/dev/null 2>&1");
    reveal_strlit("; usermod -u ");
    reveal_strlit(" >/dev/null 2>&1; }; } || true");
    reveal_strlit("/dev/null 2>&1; }; } ");
    reveal_strlit("|| true");
}

/// The probe starts the user's shell with the flags it is given, and takes over no variable that is
/// protected: each of them has a pattern in the line that skips.
pub proof fn law_the_probe_skips_what_is_protected(flags: Seq<char>, protected: Seq<Seq<char>>, k: int)
    ensures
        text::holds(probe_script(flags, protected), "\"$_am_shell\" "@ + flags + " 'cat /proc/self/environ'"@),
        0 <= k < protected.len() ==> text::holds(guard(protected), protected[k] + "=*"@) && text::holds(
            probe_script(flags, protected),
            guard(protected),
        ),
        protected.len() > 0 ==> text::has_prefix(guard(protected), "    case \"$_am_line\" in "@) && text::has_suffix(
            guard(protected),
            ") continue ;; esac\n"@,
        ),
{
    let l0 = "_am_shell=$(getent passwd \"$(id -u)\" 2>/dev/null | cut -d: -f7)\n[ -x \"$_am_shell\" ] || _am_shell=/bin/sh\n_am_env=$(\"$_am_shell\" "@;
    let l0a = "_am_shell=$(getent passwd \"$(id -u)\" 2>/dev/null | cut -d: -f7)\n[ -x \"$_am_shell\" ] || _am_shell=/bin/sh\n_am_env=$("@;
    let l0b = "\"$_am_shell\" "@;
    let l1 = " 'cat /proc/self/environ' 2>/dev/null | tr '\\n\\000' '\\001\\n')\n_am_ifs=$IFS; IFS='\n'\nfor _am_line in $_am_env; do\n"@;
    let l1a = " 'cat /proc/self/environ'"@;
    let l1b = " 2>/dev/null | tr '\\n\\000' '\\001\\n')\n_am_ifs=$IFS; IFS='\n'\nfor _am_line in $_am_env; do\n"@;
    let l2 = "    case \"$_am_line\" in *=*) ;; *) continue ;; esac\n    _am_val=$(printf '%s' \"${_am_line#*=}\" | tr '\\001' '\\n'; printf x)\n    export \"${_am_line%%=*}=${_am_val%x}\" 2>/dev/null || true\ndone\nIFS=$_am_ifs; unset _am_shell _am_env _am_ifs _am_line _am_val"@;
    lemma_probe_pieces();
    let g = guard(protected);
    let s = probe_script(flags, protected);
    assert(s == l0 + flags + l1 + g + l2);
    let part = l0b + flags + l1a;
    text::lemma_holds_middle(l0a, part, l1b + g + l2);
    assert(s =~= l0a + part + (l1b + g + l2));
    text::lemma_holds_middle(l0 + flags + l1, g, l2);
    if protected.len() > 0 {
        let c = "    case \"$_am_line\" in "@;
        let e = ") continue ;; esac\n"@;
        let names = protected.map_values(|n: Seq<char>| n + "=*"@);
        let p = text::joined(names, "|"@);
        assert(g == c + p + e);
        assert(g.subrange(0, c.len() as int) =~= c);
        assert(g.subrange(g.len() - e.len(), g.len() as int) =~= e);
        if 0 <= k < protected.len() {
            text::lemma_joined_holds(names, "|"@, k);
            assert(names[k] == protected[k] + "=*"@);
            text::lemma_holds_more(c, p, e);
        }
    }
}

proof fn lemma_probe_pieces()
    ensures
        "_am_shell=$(getent passwd \"$(id -u)\" 2>/dev/null | cut -d: -f7)\n[ -x \"$_am_shell\" ] || _am_shell=/bin/sh\n_am_env=$(\"$_am_shell\" "@
            == "_am_shell=$(getent passwd \"$(id -u)\" 2>/dev/null | cut -d: -f7)\n[ -x \"$_am_shell\" ] || _am_shell=/bin/sh\n_am_env=$("@
            + "\"$_am_shell\" "@,
        " 'cat /proc/self/environ' 2>/dev/null | tr '\\n\\000' '\\001\\n')\n_am_ifs=$IFS; IFS='\n'\nfor _am_line in $_am_env; do\n"@
            == " 'cat /proc/self/environ'"@
            + " 2>/dev/null | tr '\\n\\000' '\\001\\n')\n_am_ifs=$IFS; IFS='\n'\nfor _am_line in $_am_env; do\n"@,
{
    reveal_strlit("_am_shell=$(getent passwd \"$(id -u)\" 2>/dev/null | cut -d: -f7)\n[ -x \"$_am_shell\" ] || _am_shell=/bin/sh\n_am_env=$(\"$_am_shell\" ");
    reveal_strlit("_am_shell=$(getent passwd \"$(id -u)\" 2>/dev/null | cut -d: -f7)\n[ -x \"$_am_shell\" ] || _am_shell=/bin/sh\n_am_env=$(");
    reveal_strlit("\"$_am_shell\" ");
    reveal_strlit(" 'cat /proc/self/environ' 2>/dev/null | tr '\\n\\000' '\\001\\n')\n_am_ifs=$IFS; IFS='\n'\nfor _am_line in $_am_env; do\n");
    reveal_strlit(" 'cat /proc/self/environ'");
    reveal_strlit(" 2>/dev/null | tr '\\n\\000' '\\001\\n')\n_am_ifs=$IFS; IFS='\n'\nfor _am_line in $_am_env; do\n");
}

/// The probe takes the environment apart by line, a value's own newlines held back, and exports every variable
/// that it does not skip with its newlines as they were. The shell's separators are restored at the end.
pub proof fn law_the_probe_takes_over_the_rest(flags: Seq<char>, protected: Seq<Seq<char>>)
    ensures
        text::holds(
            probe_script(flags, protected),
            "| tr '\\n\\000' '\\001\\n')\n_am_ifs=$IFS; IFS='\n'\nfor _am_line in $_am_env; do\n"@
                + guard(protected),
        ),
        text::has_suffix(
            probe_script(flags, protected),
            "_am_val=$(printf '%s' \"${_am_line#*=}\" | tr '\\001' '\\n'; printf x)\n    export \"${_am_line%%=*}=${_am_val%x}\" 2>/dev/null || true\ndone\nIFS=$_am_ifs; unset _am_shell _am_env _am_ifs _am_line _am_val"@,
        ),
{
    let l0 = "_am_shell=$(getent passwd \"$(id -u)\" 2>/dev/null | cut -d: -f7)\n[ -x \"$_am_shell\" ] || _am_shell=/bin/sh\n_am_env=$(\"$_am_shell\" "@;
    let l1a = " 'cat /proc/self/environ' 2>/dev/null "@;
    let l1b = "| tr '\\n\\000' '\\001\\n')\n_am_ifs=$IFS; IFS='\n'\nfor _am_line in $_am_env; do\n"@;
    let l2 = "    case \"$_am_line\" in *=*) ;; *) continue ;; esac\n    _am_val=$(printf '%s' \"${_am_line#*=}\" | tr '\\001' '\\n'; printf x)\n    export \"${_am_line%%=*}=${_am_val%x}\" 2>/dev/null || true\ndone\nIFS=$_am_ifs; unset _am_shell _am_env _am_ifs _am_line _am_val"@;
    let l2a = "    case \"$_am_line\" in *=*) ;; *) continue ;; esac\n    "@;
    let l2b = "_am_val=$(printf '%s' \"${_am_line#*=}\" | tr '\\001' '\\n'; printf x)\n    export \"${_am_line%%=*}=${_am_val%x}\" 2>/dev/null || true\ndone\nIFS=$_am_ifs; unset _am_shell _am_env _am_ifs _am_line _am_val"@;
    lemma_taking_over();
    let g = guard(protected);
    let s = probe_script(flags, protected);
    text::lemma_holds_middle(l0 + flags + l1a, l1b + g, l2);
    assert(s =~= (l0 + flags + l1a) + (l1b + g) + l2);
    assert(s.subrange(s.len() - l2b.len(), s.len() as int) =~= l2b);
}

proof fn lemma_taking_over()
    ensures
        " 'cat /proc/self/environ' 2>/dev/null | tr '\\n\\000' '\\001\\n')\n_am_ifs=$IFS; IFS='\n'\nfor _am_line in $_am_env; do\n"@
            == " 'cat /proc/self/environ' 2>/dev/null "@
            + "| tr '\\n\\000' '\\001\\n')\n_am_ifs=$IFS; IFS='\n'\nfor _am_line in $_am_env; do\n"@,
        "    case \"$_am_line\" in *=*) ;; *) continue ;; esac\n    _am_val=$(printf '%s' \"${_am_line#*=}\" | tr '\\001' '\\n'; printf x)\n    export \"${_am_line%%=*}=${_am_val%x}\" 2>/dev/null || true\ndone\nIFS=$_am_ifs; unset _am_shell _am_env _am_ifs _am_line _am_val"@
            == "    case \"$_am_line\" in *=*) ;; *) continue ;; esac\n    "@
            + "_am_val=$(printf '%s' \"${_am_line#*=}\" | tr '\\001' '\\n'; printf x)\n    export \"${_am_line%%=*}=${_am_val%x}\" 2>/dev/null || true\ndone\nIFS=$_am_ifs; unset _am_shell _am_env _am_ifs _am_line _am_val"@,
{
    reveal_strlit(" 'cat /proc/self/environ' 2>/dev/null | tr '\\n\\000' '\\001\\n')\n_am_ifs=$IFS; IFS='\n'\nfor _am_line in $_am_env; do\n");
    reveal_strlit(" 'cat /proc/self/environ' 2>/dev/null ");
    reveal_strlit("| tr '\\n\\000' '\\001\\n')\n_am_ifs=$IFS; IFS='\n'\nfor _am_line in $_am_env; do\n");
    reveal_strlit("    case \"$_am_line\" in *=*) ;; *) continue ;; esac\n    _am_val=$(printf '%s' \"${_am_line#*=}\" | tr '\\001' '\\n'; printf x)\n    export \"${_am_line%%=*}=${_am_val%x}\" 2>/dev/null || true\ndone\nIFS=$_am_ifs; unset _am_shell _am_env _am_ifs _am_line _am_val");
    reveal_strlit("    case \"$_am_line\" in *=*) ;; *) continue ;; esac\n    ");
    reveal_strlit("_am_val=$(printf '%s' \"${_am_line#*=}\" | tr '\\001' '\\n'; printf x)\n    export \"${_am_line%%=*}=${_am_val%x}\" 2>/dev/null || true\ndone\nIFS=$_am_ifs; unset _am_shell _am_env _am_ifs _am_line _am_val");
}

/// Where a user is dropped to, everything of the user's runs as that user, also where no Feature has an
/// entrypoint; before it the user's numbers are aligned, where the host has any.
pub proof fn law_the_rest_runs_as_the_user(
    entrypoints: Seq<Seq<char>>,
    hooks: Seq<Seq<char>>,
    agent: Seq<Seq<char>>,
    probe: Option<Seq<char>>,
    drop_to: Option<Seq<char>>,
    id: Option<(u32, u32)>,
)
    requires
        entrypoints.len() > 0 || hooks.len() > 0 || probe is Some,
        agent.len() > 0,
    ensures
        ({
            let script = entrypoint_command(entrypoints, hooks, agent, probe, drop_to, id)[2];
            let own = user_script(probe, hooks_and_agent(hooks, agent));
            let rest = match drop_to {
                Some(user) => "exec su "@ + shell::quoted(user) + " -s /bin/sh -c "@ + shell::quoted(own),
                None => own,
            };
            &&& text::has_suffix(script, rest)
            &&& entrypoints.len() == 0 && (drop_to is None || id is None) ==> script == rest
            &&& entrypoints.len() == 0 ==> (drop_to matches Some(user) ==> (id matches Some(n) ==> script == align_script(
                user,
                n,
            ) + " && "@ + rest))
        }),
{
    reveal_strlit("exec ");
    reveal_strlit("exec su ");
    reveal_strlit("{ [ \"$(id -u ");
    let own = user_script(probe, hooks_and_agent(hooks, agent));
    let tail = "exec "@ + shell::command_line(agent);
    assert(tail.len() > 0);
    assert(hooks_and_agent(hooks, agent).len() > 0);
    assert(own.len() > 0);
    let rest = dropped(drop_to, own);
    assert(rest.len() > 0);
    let script = entrypoint_command(entrypoints, hooks, agent, probe, drop_to, id)[2];
    assert(script.subrange(script.len() - rest.len(), script.len() as int) =~= rest);
    assert(entrypoints.len() == 0 ==> text::joined(entrypoints, " && "@).len() == 0);
    match (drop_to, id) {
        (Some(user), Some(n)) => {
            assert(align_script(user, n).len() > 0) by {
                lemma_align_begins(user, n);
            }
        },
        _ => {},
    }
}

proof fn lemma_align_begins(user: Seq<char>, id: (u32, u32))
    ensures
        align_script(user, id).len() > 0,
{
    reveal_strlit("{ [ \"$(id -u ");
    let u = shell::quoted(user);
    assert(("{ [ \"$(id -u "@ + u).len() > 0);
}

} // verus!
