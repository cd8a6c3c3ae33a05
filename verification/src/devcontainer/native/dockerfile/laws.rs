//! What holds of every build context and every Dockerfile.

use vstd::prelude::*;

use super::{
    all_feature_files, all_instructions, dockerfile_of, env_instructions, env_lines, feature_env, feature_files,
    feature_section, files_of, install_instructions, labelled, probe_of, quoted, quoted_char, shown_options, text_or,
    troubleshooting, wrapper_of,
};
use crate::devcontainer::native::feature::ResolvedModel;
use crate::json::JsonModel;
use crate::text;

verus! {

// ----------------------------------------------------------------------------------------------
// Whole lines
// ----------------------------------------------------------------------------------------------

/// Whether `block` stands in a text from index `i` on, as one line or as several whole ones.
pub open spec fn block_at(s: Seq<char>, i: int, block: Seq<char>) -> bool {
    &&& 0 <= i
    &&& i + block.len() < s.len()
    &&& s.subrange(i, i + block.len()) == block
    &&& s[i + block.len()] == '\n'
    &&& i > 0 ==> s[i - 1] == '\n'
}

/// Whether a text is empty or ends a line.
pub open spec fn ends_line(s: Seq<char>) -> bool {
    s.len() > 0 ==> s.last() == '\n'
}

proof fn lemma_block(x: Seq<char>, block: Seq<char>, y: Seq<char>)
    requires
        ends_line(x),
        y.len() > 0,
        y[0] == '\n',
    ensures
        block_at(x + block + y, x.len() as int, block),
{
    let s = x + block + y;
    assert(s.subrange(x.len() as int, (x.len() + block.len()) as int) =~= block);
    if x.len() > 0 {
        assert(s[x.len() - 1] == x.last());
    }
}

proof fn lemma_holds(x: Seq<char>, part: Seq<char>, y: Seq<char>)
    ensures
        text::holds(x + part + y, part),
{
    let s = x + part + y;
    let i = x.len() as int;
    assert(s.subrange(i, i + part.len()) =~= part);
}

// ----------------------------------------------------------------------------------------------
// The script of a Feature
// ----------------------------------------------------------------------------------------------

/// The end of every Feature's script, line by line.
proof fn lemma_script_end()
    ensures
        "'\necho ===========================================================================\n\nset -a\n. ../devcontainer-features.builtin.env\n. ./devcontainer-features.env\nset +a\n\nchmod +x ./install.sh\n./install.sh\n"@
            == "'\necho ==========================================================================="@ + seq!['\n'] + seq![
            '\n',
        ] + "set -a"@ + seq!['\n'] + ". ../devcontainer-features.builtin.env"@ + seq!['\n']
            + ". ./devcontainer-features.env"@ + seq!['\n'] + "set +a"@ + seq!['\n'] + seq!['\n']
            + "chmod +x ./install.sh"@ + seq!['\n'] + "./install.sh"@ + seq!['\n'],
{
    reveal_strlit("'\necho ===========================================================================\n\nset -a\n. ../devcontainer-features.builtin.env\n. ./devcontainer-features.env\nset +a\n\nchmod +x ./install.sh\n./install.sh\n");
    reveal_strlit("'\necho ===========================================================================");
    reveal_strlit("set -a");
    reveal_strlit(". ../devcontainer-features.builtin.env");
    reveal_strlit(". ./devcontainer-features.env");
    reveal_strlit("set +a");
    reveal_strlit("chmod +x ./install.sh");
    reveal_strlit("./install.sh");
}

proof fn lemma_script_lines()
    ensures
        text::split_at("set -a"@, '\n') == seq!["set -a"@],
        text::split_at(". ../devcontainer-features.builtin.env"@, '\n') == seq![
            ". ../devcontainer-features.builtin.env"@,
        ],
        text::split_at(". ./devcontainer-features.env"@, '\n') == seq![". ./devcontainer-features.env"@],
        text::split_at("set +a"@, '\n') == seq!["set +a"@],
        text::split_at("chmod +x ./install.sh"@, '\n') == seq!["chmod +x ./install.sh"@],
        text::split_at("./install.sh"@, '\n') == seq!["./install.sh"@],
        text::split_at("#!/bin/sh"@, '\n') == seq!["#!/bin/sh"@],
        text::split_at("set -e"@, '\n') == seq!["set -e"@],
        text::split_at(Seq::empty(), '\n') == seq![Seq::<char>::empty()],
{
    reveal_strlit("set -a");
    reveal_strlit(". ../devcontainer-features.builtin.env");
    reveal_strlit(". ./devcontainer-features.env");
    reveal_strlit("set +a");
    reveal_strlit("chmod +x ./install.sh");
    reveal_strlit("./install.sh");
    reveal_strlit("#!/bin/sh");
    reveal_strlit("set -e");
    text::lemma_one_piece("set -a"@, '\n');
    text::lemma_one_piece(". ../devcontainer-features.builtin.env"@, '\n');
    text::lemma_one_piece(". ./devcontainer-features.env"@, '\n');
    text::lemma_one_piece("set +a"@, '\n');
    text::lemma_one_piece("chmod +x ./install.sh"@, '\n');
    text::lemma_one_piece("./install.sh"@, '\n');
    text::lemma_one_piece("#!/bin/sh"@, '\n');
    text::lemma_one_piece("set -e"@, '\n');
    text::lemma_one_piece(Seq::empty(), '\n');
}

proof fn lemma_last_lines(x: Seq<char>)
    ensures
        ({
            let lines = text::split_at(
                x
                    + "'\necho ===========================================================================\n\nset -a\n. ../devcontainer-features.builtin.env\n. ./devcontainer-features.env\nset +a\n\nchmod +x ./install.sh\n./install.sh\n"@,
                '\n',
            );
            let n = lines.len() as int;
            &&& n > 8
            &&& lines[n - 8] == "set -a"@
            &&& lines[n - 7] == ". ../devcontainer-features.builtin.env"@
            &&& lines[n - 6] == ". ./devcontainer-features.env"@
            &&& lines[n - 5] == "set +a"@
            &&& lines[n - 4].len() == 0
            &&& lines[n - 3] == "chmod +x ./install.sh"@
            &&& lines[n - 2] == "./install.sh"@
            &&& lines[n - 1].len() == 0
        }),
{
    lemma_script_end();
    lemma_script_lines();
    let nl = seq!['\n'];
    let none = Seq::<char>::empty();
    let t0 = x + "'\necho ==========================================================================="@;
    let t1 = t0 + nl + none;
    let t2 = t1 + nl + "set -a"@;
    let t3 = t2 + nl + ". ../devcontainer-features.builtin.env"@;
    let t4 = t3 + nl + ". ./devcontainer-features.env"@;
    let t5 = t4 + nl + "set +a"@;
    let t6 = t5 + nl + none;
    let t7 = t6 + nl + "chmod +x ./install.sh"@;
    let t8 = t7 + nl + "./install.sh"@;
    let t9 = t8 + nl + none;
    text::lemma_split_at_mark(t0, none, '\n');
    text::lemma_split_at_mark(t1, "set -a"@, '\n');
    text::lemma_split_at_mark(t2, ". ../devcontainer-features.builtin.env"@, '\n');
    text::lemma_split_at_mark(t3, ". ./devcontainer-features.env"@, '\n');
    text::lemma_split_at_mark(t4, "set +a"@, '\n');
    text::lemma_split_at_mark(t5, none, '\n');
    text::lemma_split_at_mark(t6, "chmod +x ./install.sh"@, '\n');
    text::lemma_split_at_mark(t7, "./install.sh"@, '\n');
    text::lemma_split_at_mark(t8, none, '\n');
    assert(x
        + "'\necho ===========================================================================\n\nset -a\n. ../devcontainer-features.builtin.env\n. ./devcontainer-features.env\nset +a\n\nchmod +x ./install.sh\n./install.sh\n"@
        =~= t9);
}

/// The script of every Feature ends by running the Feature's own: the last line is `./install.sh`, after
/// the script was made executable, and after both files with the environment were read while `set -a`
/// exports what they set.
pub proof fn law_the_script_runs_the_features_own(f: ResolvedModel)
    ensures
        ({
            let lines = text::split_at(wrapper_of(f), '\n');
            let n = lines.len() as int;
            &&& n > 8
            &&& lines[n - 1].len() == 0
            &&& lines[n - 2] == "./install.sh"@
            &&& lines[n - 3] == "chmod +x ./install.sh"@
            &&& lines[n - 5] == "set +a"@
            &&& lines[n - 6] == ". ./devcontainer-features.env"@
            &&& lines[n - 7] == ". ../devcontainer-features.builtin.env"@
            &&& lines[n - 8] == "set -a"@
        }),
{
    let end = "'\necho ===========================================================================\n\nset -a\n. ../devcontainer-features.builtin.env\n. ./devcontainer-features.env\nset +a\n\nchmod +x ./install.sh\n./install.sh\n"@;
    let w = wrapper_of(f);
    let x = w.subrange(0, w.len() - end.len());
    assert(w =~= x + end);
    lemma_last_lines(x);
}

/// The script is one for `sh` that stops at the first command that fails.
pub proof fn law_the_script_stops_at_a_failure(f: ResolvedModel)
    ensures
        ({
            let lines = text::split_at(wrapper_of(f), '\n');
            &&& lines.len() > 2
            &&& lines[0] == "#!/bin/sh"@
            &&& lines[1] == "set -e"@
        }),
{
    let start = "#!/bin/sh\nset -e\n\non_exit () {\n\t[ $? -eq 0 ] && exit\n\techo 'ERROR: Feature \""@;
    let rest = "\non_exit () {\n\t[ $? -eq 0 ] && exit\n\techo 'ERROR: Feature \""@;
    reveal_strlit("#!/bin/sh\nset -e\n\non_exit () {\n\t[ $? -eq 0 ] && exit\n\techo 'ERROR: Feature \"");
    reveal_strlit("\non_exit () {\n\t[ $? -eq 0 ] && exit\n\techo 'ERROR: Feature \"");
    reveal_strlit("#!/bin/sh");
    reveal_strlit("set -e");
    let nl = seq!['\n'];
    assert(start =~= "#!/bin/sh"@ + nl + ("set -e"@ + nl + rest));
    let w = wrapper_of(f);
    let y = w.subrange(start.len() as int, w.len() as int);
    assert(w =~= start + y);
    let z = "set -e"@ + nl + (rest + y);
    assert(w =~= "#!/bin/sh"@ + nl + z);
    lemma_script_lines();
    text::lemma_split_at_mark("#!/bin/sh"@, z, '\n');
    text::lemma_split_at_mark("set -e"@, rest + y, '\n');
    text::lemma_pieces(rest + y, '\n');
}

/// The script says which Feature it installs: its name, its description, its id, its version, where its
/// documentation is, and its options. Where it fails, it says that too.
#[verifier::rlimit(60)]
#[verifier::spinoff_prover]
pub proof fn law_the_script_names_its_feature(f: ResolvedModel)
    ensures
        ({
            let w = wrapper_of(f);
            let id = f.reference.raw;
            &&& f.metadata.name matches Some(name) ==> text::holds(w, "\necho 'Feature       : "@ + name + "'\n"@)
            &&& f.metadata.name is None ==> text::holds(w, "\necho 'Feature       : "@ + id + "'\n"@)
            &&& f.metadata.description matches Some(d) ==> text::holds(w, "\necho 'Description   : "@ + d + "'\n"@)
            &&& text::holds(w, "\necho 'Id            : "@ + id + "'\n"@)
            &&& f.metadata.version matches Some(v) ==> text::holds(w, "\necho 'Version       : "@ + v + "'\n"@)
            &&& f.metadata.version is None ==> text::holds(w, "\necho 'Version       : unknown'\n"@)
            &&& f.metadata.documentation_url matches Some(u) ==> text::holds(
                w,
                "\necho 'Documentation : "@ + u + "'\n"@,
            )
            &&& text::holds(w, "\necho '"@ + shown_options(f.options) + "'\n"@)
            &&& text::holds(w, " ("@ + id + ") failed to install!"@)
            &&& text::holds(w, "\ntrap on_exit EXIT\n"@)
        }),
{
    let id = f.reference.raw;
    let name = text_or(f.metadata.name, id);
    let docs = text_or(f.metadata.documentation_url, ""@);
    let desc = text_or(f.metadata.description, ""@);
    let version = text_or(f.metadata.version, "unknown"@);
    let opts = shown_options(f.options);
    let w = wrapper_of(f);
    let q = "'\n"@;
    let l0 = "#!/bin/sh\nset -e\n\non_exit () {\n\t[ $? -eq 0 ] && exit\n\techo 'ERROR: Feature \""@;
    let l1 = "'\n}\n\ntrap on_exit EXIT\n\necho ===========================================================================\n\necho 'Feature       : "@;
    let l1a = "'\n}\n"@;
    let l1b = "\ntrap on_exit EXIT\n"@;
    let l1c = "\necho ===========================================================================\n"@;
    let n1 = "\necho 'Feature       : "@;
    let l2 = "'\necho 'Description   : "@;
    let n2 = "\necho 'Description   : "@;
    let l3 = "'\necho 'Id            : "@;
    let n3 = "\necho 'Id            : "@;
    let l4 = "'\necho 'Version       : "@;
    let n4 = "\necho 'Version       : "@;
    let l5 = "'\necho 'Documentation : "@;
    let n5 = "\necho 'Documentation : "@;
    let l6 = "'\necho 'Options       :'\necho '"@;
    let l6a = "'\necho 'Options       :'"@;
    let n6 = "\necho '"@;
    let l7 = "'\necho ===========================================================================\n\nset -a\n. ../devcontainer-features.builtin.env\n. ./devcontainer-features.env\nset +a\n\nchmod +x ./install.sh\n./install.sh\n"@;
    lemma_echoes();
    let b0 = l0 + name + "\" ("@ + id + ") failed to install!"@ + troubleshooting(docs);
    let c0 = b0 + l1;
    let c1 = c0 + name;
    let c2 = c1 + l2;
    let c3 = c2 + desc;
    let c4 = c3 + l3;
    let c5 = c4 + id;
    let c6 = c5 + l4;
    let c7 = c6 + version;
    let c8 = c7 + l5;
    let c9 = c8 + docs;
    let c10 = c9 + l6;
    let c11 = c10 + opts;
    assert(w == c11 + l7);
    let one = seq!['\''];
    lemma_failure(l0 + name, id, troubleshooting(docs));
    lemma_more(b0, l1);
    lemma_trap(b0, l1);
    lemma_more(c0, name);
    lemma_more(c1, l2);
    lemma_line(b0 + (l1a + l1b + l1c), n1, name, l2);
    assert((b0 + (l1a + l1b + l1c)) + n1 =~= c0);
    lemma_more(c2, desc);
    lemma_more(c3, l3);
    lemma_line(c1 + one, n2, desc, l3);
    assert((c1 + one) + n2 =~= c2);
    lemma_more(c4, id);
    lemma_more(c5, l4);
    lemma_line(c3 + one, n3, id, l4);
    assert((c3 + one) + n3 =~= c4);
    lemma_more(c6, version);
    lemma_more(c7, l5);
    lemma_line(c5 + one, n4, version, l5);
    assert((c5 + one) + n4 =~= c6);
    lemma_more(c8, docs);
    lemma_more(c9, l6);
    lemma_line(c7 + one, n5, docs, l6);
    assert((c7 + one) + n5 =~= c8);
    lemma_more(c10, opts);
    lemma_more(c11, l7);
    lemma_line(c9 + l6a, n6, opts, l7);
    assert((c9 + l6a) + n6 =~= c10);
    if f.metadata.version is None {
        reveal_strlit("unknown");
        reveal_strlit("'\n");
        reveal_strlit("\necho 'Version       : ");
        reveal_strlit("\necho 'Version       : unknown'\n");
        assert("\necho 'Version       : unknown'\n"@ =~= n4 + "unknown"@ + q);
    }
}

proof fn lemma_more(s: Seq<char>, t: Seq<char>)
    ensures
        forall|p: Seq<char>| #[trigger] text::holds(s, p) ==> text::holds(s + t, p),
{
    assert forall|p: Seq<char>| #[trigger] text::holds(s, p) implies text::holds(s + t, p) by {
        let i = choose|i: int|
            #![trigger s.subrange(i, i + p.len())]
            0 <= i && i + p.len() <= s.len() && s.subrange(i, i + p.len()) == p;
        assert((s + t).subrange(i, i + p.len()) =~= p);
    }
}

proof fn lemma_line(x: Seq<char>, head: Seq<char>, value: Seq<char>, next: Seq<char>)
    requires
        next.len() >= 2,
        next[0] == '\'',
        next[1] == '\n',
    ensures
        text::holds(x + head + value + next, head + value + "'\n"@),
{
    reveal_strlit("'\n");
    let s = x + head + value + next;
    let part = head + value + "'\n"@;
    let rest = next.subrange(2, next.len() as int);
    assert(next =~= "'\n"@ + rest);
    assert(s =~= x + part + rest);
    lemma_holds(x, part, rest);
}

proof fn lemma_failure(x: Seq<char>, id: Seq<char>, help: Seq<char>)
    ensures
        text::holds(x + "\" ("@ + id + ") failed to install!"@ + help, " ("@ + id + ") failed to install!"@),
{
    reveal_strlit("\" (");
    reveal_strlit(" (");
    assert("\" ("@ =~= seq!['"'] + " ("@);
    let said = " ("@ + id + ") failed to install!"@;
    lemma_holds(x + seq!['"'], said, help);
    assert(x + "\" ("@ + id + ") failed to install!"@ + help =~= (x + seq!['"']) + said + help);
}

proof fn lemma_trap(x: Seq<char>, l: Seq<char>)
    requires
        l
            == "'\n}\n\ntrap on_exit EXIT\n\necho ===========================================================================\n\necho 'Feature       : "@,
    ensures
        text::holds(x + l, "\ntrap on_exit EXIT\n"@),
{
    lemma_echoes();
    let b = "\necho ===========================================================================\n"@
        + "\necho 'Feature       : "@;
    lemma_holds(x + "'\n}\n"@, "\ntrap on_exit EXIT\n"@, b);
    assert(x + l =~= (x + "'\n}\n"@) + "\ntrap on_exit EXIT\n"@ + b);
}

proof fn lemma_echoes()
    ensures
        "'\n}\n\ntrap on_exit EXIT\n\necho ===========================================================================\n\necho 'Feature       : "@
            == "'\n}\n"@ + "\ntrap on_exit EXIT\n"@
            + "\necho ===========================================================================\n"@
            + "\necho 'Feature       : "@,
        "'\necho 'Description   : "@ == seq!['\''] + "\necho 'Description   : "@,
        "'\necho 'Id            : "@ == seq!['\''] + "\necho 'Id            : "@,
        "'\necho 'Version       : "@ == seq!['\''] + "\necho 'Version       : "@,
        "'\necho 'Documentation : "@ == seq!['\''] + "\necho 'Documentation : "@,
        "'\necho 'Options       :'\necho '"@ == "'\necho 'Options       :'"@ + "\necho '"@,
        "'\necho 'Description   : "@.len() > 2 && "'\necho 'Description   : "@[1] == '\n',
        "'\necho 'Id            : "@.len() > 2 && "'\necho 'Id            : "@[1] == '\n',
        "'\necho 'Version       : "@.len() > 2 && "'\necho 'Version       : "@[1] == '\n',
        "'\necho 'Documentation : "@.len() > 2 && "'\necho 'Documentation : "@[1] == '\n',
        "'\necho 'Options       :'\necho '"@.len() > 2 && "'\necho 'Options       :'\necho '"@[1] == '\n',
        "'\necho 'Options       :'\necho '"@[0] == '\'',
        "'\necho ===========================================================================\n\nset -a\n. ../devcontainer-features.builtin.env\n. ./devcontainer-features.env\nset +a\n\nchmod +x ./install.sh\n./install.sh\n"@.len()
            > 2,
        "'\necho ===========================================================================\n\nset -a\n. ../devcontainer-features.builtin.env\n. ./devcontainer-features.env\nset +a\n\nchmod +x ./install.sh\n./install.sh\n"@[0]
            == '\'',
        "'\necho ===========================================================================\n\nset -a\n. ../devcontainer-features.builtin.env\n. ./devcontainer-features.env\nset +a\n\nchmod +x ./install.sh\n./install.sh\n"@[1]
            == '\n',
{
    reveal_strlit("'\n}\n\ntrap on_exit EXIT\n\necho ===========================================================================\n\necho 'Feature       : ");
    reveal_strlit("'\n}\n");
    reveal_strlit("\ntrap on_exit EXIT\n");
    reveal_strlit("\necho ===========================================================================\n");
    reveal_strlit("\necho 'Feature       : ");
    reveal_strlit("'\necho 'Description   : ");
    reveal_strlit("\necho 'Description   : ");
    reveal_strlit("'\necho 'Id            : ");
    reveal_strlit("\necho 'Id            : ");
    reveal_strlit("'\necho 'Version       : ");
    reveal_strlit("\necho 'Version       : ");
    reveal_strlit("'\necho 'Documentation : ");
    reveal_strlit("\necho 'Documentation : ");
    reveal_strlit("'\necho 'Options       :'\necho '");
    reveal_strlit("'\necho 'Options       :'");
    reveal_strlit("\necho '");
    reveal_strlit("'\necho ===========================================================================\n\nset -a\n. ../devcontainer-features.builtin.env\n. ./devcontainer-features.env\nset +a\n\nchmod +x ./install.sh\n./install.sh\n");
}

// ----------------------------------------------------------------------------------------------
// The options of a Feature
// ----------------------------------------------------------------------------------------------

/// Whether no double quote in a text ends the quotes around it.
pub open spec fn stays_quoted(s: Seq<char>) -> bool
    decreases s.len(),
{
    if s.len() == 0 {
        true
    } else if s[0] == '\\' {
        s.len() >= 2 && stays_quoted(s.subrange(2, s.len() as int))
    } else {
        s[0] != '"' && stays_quoted(s.drop_first())
    }
}

proof fn lemma_stays_quoted(s: Seq<char>, t: Seq<char>)
    ensures
        stays_quoted(quoted(s) + t) == stays_quoted(t),
    decreases s.len(),
{
    if s.len() == 0 {
        assert(quoted(s) + t =~= t);
    } else {
        let c = s.last();
        let u = quoted_char(c) + t;
        lemma_stays_quoted(s.drop_last(), u);
        assert(quoted(s) + t =~= quoted(s.drop_last()) + u);
        if c == '\\' || c == '"' {
            assert(u.subrange(2, u.len() as int) =~= t);
        } else {
            assert(u.drop_first() =~= t);
        }
    }
}

/// No value of an option ends the quotes that it is written between.
pub proof fn law_a_value_stays_between_its_quotes(value: Seq<char>)
    ensures
        stays_quoted(quoted(value)),
{
    lemma_stays_quoted(value, Seq::empty());
    assert(quoted(value) + Seq::<char>::empty() =~= quoted(value));
}

/// What sets a variable for the shell.
pub open spec fn setting(name: Seq<char>, value: Seq<char>) -> Seq<char> {
    name + "=\""@ + quoted(value) + "\""@
}

proof fn lemma_quote_ends()
    ensures
        "\"\n"@ == "\""@ + "\n"@,
        "\n"@.len() == 1,
        "\n"@[0] == '\n',
{
    reveal_strlit("\"\n");
    reveal_strlit("\"");
    reveal_strlit("\n");
    assert("\"\n"@ =~= "\""@ + "\n"@);
}

proof fn lemma_env_lines_end(options: Seq<(Seq<char>, Seq<char>)>)
    ensures
        ends_line(env_lines(options)),
{
    if options.len() > 0 {
        lemma_quote_ends();
        let l = options.last().0 + "=\""@ + quoted(options.last().1) + "\"\n"@;
        assert(l.last() == "\n"@[0]);
        assert(env_lines(options).last() == l.last());
    }
}

proof fn lemma_more_after(s: Seq<char>, i: int, block: Seq<char>, t: Seq<char>)
    requires
        block_at(s, i, block),
    ensures
        block_at(s + t, i, block),
{
    assert((s + t).subrange(i, i + block.len()) =~= s.subrange(i, i + block.len()));
}

proof fn lemma_more_before(s: Seq<char>, i: int, block: Seq<char>, t: Seq<char>)
    requires
        block_at(s, i, block),
        ends_line(t),
    ensures
        block_at(t + s, t.len() + i, block),
{
    let u = t + s;
    assert(u.subrange(t.len() + i, t.len() + i + block.len()) =~= s.subrange(i, i + block.len()));
    if t.len() > 0 {
        assert(u[t.len() - 1] == t.last());
    }
}

/// Every option of a Feature is a line of its own in the file with the Feature's environment, and the
/// options are in order. The file is no longer than that.
pub proof fn law_every_option_is_set(options: Seq<(Seq<char>, Seq<char>)>, k: int)
    requires
        0 <= k < options.len(),
    ensures
        block_at(
            env_lines(options),
            env_lines(options.take(k)).len() as int,
            setting(options[k].0, options[k].1),
        ),
        env_lines(options.take(k + 1)).len() == env_lines(options.take(k)).len() + setting(
            options[k].0,
            options[k].1,
        ).len() + 1,
    decreases options.len(),
{
    lemma_quote_ends();
    let upto = options.take(k + 1);
    assert(upto.drop_last() =~= options.take(k));
    let l = setting(options[k].0, options[k].1);
    let line = options[k].0 + "=\""@ + quoted(options[k].1) + "\"\n"@;
    assert(line =~= l + "\n"@);
    if k < options.len() - 1 {
        let front = options.drop_last();
        law_every_option_is_set(front, k);
        assert(front.take(k) =~= options.take(k));
        assert(front.take(k + 1) =~= options.take(k + 1));
        let i = env_lines(options.take(k)).len() as int;
        lemma_more_after(
            env_lines(front),
            i,
            l,
            options.last().0 + "=\""@ + quoted(options.last().1) + "\"\n"@,
        );
    } else {
        assert(options.take(k) =~= options.drop_last());
        assert(options.take(k + 1) =~= options);
        lemma_env_lines_end(options.drop_last());
        lemma_block(env_lines(options.drop_last()), l, "\n"@);
        assert(env_lines(options) =~= env_lines(options.drop_last()) + l + "\n"@);
    }
}

/// Every option of a Feature is shown with its value while it is installed.
pub proof fn law_every_option_is_shown(options: Seq<(Seq<char>, Seq<char>)>, k: int)
    requires
        0 <= k < options.len(),
    ensures
        text::holds(shown_options(options), "    "@ + options[k].0 + "=\""@ + options[k].1 + "\"\n"@),
    decreases options.len(),
{
    let last = "    "@ + options.last().0 + "=\""@ + options.last().1 + "\"\n"@;
    let rest = shown_options(options.drop_last());
    if k < options.len() - 1 {
        law_every_option_is_shown(options.drop_last(), k);
        lemma_more(rest, last);
    } else {
        lemma_holds(rest, last, Seq::empty());
        assert(shown_options(options) =~= rest + last + Seq::<char>::empty());
    }
}

/// The build context has one file that names both users, and for each Feature, in a directory of its own,
/// the file with its environment and the script that runs its own script.
pub proof fn law_the_context_has_every_file(
    fs: Seq<ResolvedModel>,
    container_user: Seq<char>,
    remote_user: Seq<char>,
    k: int,
)
    ensures
        ({
            let files = files_of(fs, container_user, remote_user);
            &&& files.len() == 1 + 2 * fs.len()
            &&& files[0].0 == "devcontainer-features.builtin.env"@
            &&& files[0].1 == "_CONTAINER_USER="@ + container_user + "\n_REMOTE_USER="@ + remote_user + "\n"@
            &&& 0 <= k < fs.len() ==> {
                &&& files[1 + 2 * k] == (
                    fs[k].dir_name(k as nat) + "/devcontainer-features.env"@,
                    env_lines(fs[k].options),
                )
                &&& files[2 + 2 * k] == (
                    fs[k].dir_name(k as nat) + "/devcontainer-features-install.sh"@,
                    wrapper_of(fs[k]),
                )
            }
        }),
{
    lemma_feature_files(fs, k);
    let files = files_of(fs, container_user, remote_user);
    let all = all_feature_files(fs);
    if 0 <= k < fs.len() {
        assert(files[1 + 2 * k] == all[2 * k]);
        assert(files[2 + 2 * k] == all[2 * k + 1]);
    }
}

proof fn lemma_feature_files(fs: Seq<ResolvedModel>, k: int)
    ensures
        all_feature_files(fs).len() == 2 * fs.len(),
        0 <= k < fs.len() ==> all_feature_files(fs)[2 * k] == (
            fs[k].dir_name(k as nat) + "/devcontainer-features.env"@,
            env_lines(fs[k].options),
        ) && all_feature_files(fs)[2 * k + 1] == (
            fs[k].dir_name(k as nat) + "/devcontainer-features-install.sh"@,
            wrapper_of(fs[k]),
        ),
    decreases fs.len(),
{
    if fs.len() > 0 {
        let front = fs.drop_last();
        lemma_feature_files(front, k);
        let rest = all_feature_files(front);
        let all = all_feature_files(fs);
        assert(all == rest + feature_files(fs.last(), (fs.len() - 1) as nat));
        if 0 <= k < front.len() {
            assert(front[k] == fs[k]);
            assert(all[2 * k] == rest[2 * k] && all[2 * k + 1] == rest[2 * k + 1]);
        }
    }
}

// ----------------------------------------------------------------------------------------------
// The Dockerfile
// ----------------------------------------------------------------------------------------------

/// The instruction that runs a Feature's script in the directory it was copied to.
pub open spec fn run_instruction(dir: Seq<char>) -> Seq<char> {
    "RUN chmod -R 0755 /tmp/dev-container-features/"@ + dir + " \\\n&& cd /tmp/dev-container-features/"@ + dir
        + " \\\n&& chmod +x ./devcontainer-features-install.sh \\\n&& ./devcontainer-features-install.sh"@
}

/// What stands before a Feature's `RUN` instruction.
spec fn before_run(f: ResolvedModel) -> Seq<char> {
    "# "@ + f.reference.raw + "\n"@ + feature_env(f.raw)
}

proof fn lemma_env_instructions_end(members: Seq<(Seq<char>, JsonModel)>)
    ensures
        ends_line(env_instructions(members)),
    decreases members.len(),
{
    if members.len() > 0 {
        lemma_env_instructions_end(members.drop_last());
        match members.last().1 {
            JsonModel::Str(v) => {
                lemma_quote_ends();
                let l = "ENV "@ + members.last().0 + "=\""@ + quoted(v) + "\"\n"@;
                assert(l.last() == "\n"@[0]);
                assert(env_instructions(members).last() == l.last());
            },
            _ => {},
        }
    }
}

proof fn lemma_env_instruction(members: Seq<(Seq<char>, JsonModel)>, k: int, v: Seq<char>) -> (i: int)
    requires
        0 <= k < members.len(),
        members[k].1 == JsonModel::Str(v),
    ensures
        block_at(env_instructions(members), i, "ENV "@ + setting(members[k].0, v)),
    decreases members.len(),
{
    lemma_quote_ends();
    let front = members.drop_last();
    let rest = env_instructions(front);
    let l = "ENV "@ + setting(members[k].0, v);
    if k < front.len() {
        let i = lemma_env_instruction(front, k, v);
        match members.last().1 {
            JsonModel::Str(w) => {
                lemma_more_after(rest, i, l, "ENV "@ + members.last().0 + "=\""@ + quoted(w) + "\"\n"@);
            },
            _ => {},
        }
        i
    } else {
        lemma_env_instructions_end(front);
        lemma_block(rest, l, "\n"@);
        assert(rest + ("ENV "@ + members.last().0 + "=\""@ + quoted(v) + "\"\n"@) =~= rest + l + "\n"@);
        rest.len() as int
    }
}

proof fn lemma_before_run(f: ResolvedModel)
    ensures
        before_run(f).len() > 0,
        ends_line(before_run(f)),
{
    reveal_strlit("\n");
    match f.raw.member("containerEnv"@) {
        Some(JsonModel::Object(o)) => {
            lemma_env_instructions_end(o);
        },
        _ => {},
    }
    let head = "# "@ + f.reference.raw + "\n"@;
    assert(head.last() == '\n');
    if feature_env(f.raw).len() > 0 {
        assert(before_run(f).last() == feature_env(f.raw).last());
    } else {
        assert(before_run(f) =~= head);
    }
}

proof fn lemma_instructions(f: ResolvedModel, index: nat)
    ensures
        install_instructions(f, index) == before_run(f) + run_instruction(f.dir_name(index)) + "\n\n"@,
        "\n\n"@.len() == 2,
        "\n\n"@[0] == '\n',
        install_instructions(f, index).last() == '\n',
{
    reveal_strlit(" \\\n&& chmod +x ./devcontainer-features-install.sh \\\n&& ./devcontainer-features-install.sh\n\n");
    reveal_strlit(" \\\n&& chmod +x ./devcontainer-features-install.sh \\\n&& ./devcontainer-features-install.sh");
    reveal_strlit("\n\n");
    assert(" \\\n&& chmod +x ./devcontainer-features-install.sh \\\n&& ./devcontainer-features-install.sh\n\n"@
        =~= " \\\n&& chmod +x ./devcontainer-features-install.sh \\\n&& ./devcontainer-features-install.sh"@ + "\n\n"@);
    assert(install_instructions(f, index) =~= before_run(f) + run_instruction(f.dir_name(index)) + "\n\n"@);
}

proof fn lemma_all_end(fs: Seq<ResolvedModel>)
    ensures
        ends_line(all_instructions(fs)),
{
    if fs.len() > 0 {
        lemma_instructions(fs.last(), (fs.len() - 1) as nat);
        assert(all_instructions(fs).last() == install_instructions(fs.last(), (fs.len() - 1) as nat).last());
    }
}

/// The instructions for a Feature among those for all: where they start and what follows them.
proof fn lemma_among(fs: Seq<ResolvedModel>, k: int) -> (y: Seq<char>)
    requires
        0 <= k < fs.len(),
    ensures
        all_instructions(fs) == all_instructions(fs.take(k)) + install_instructions(fs[k], k as nat) + y,
    decreases fs.len(),
{
    let front = fs.drop_last();
    if k < front.len() {
        let y = lemma_among(front, k);
        assert(front.take(k) =~= fs.take(k));
        let more = install_instructions(fs.last(), (fs.len() - 1) as nat);
        assert(all_instructions(fs) =~= all_instructions(fs.take(k)) + install_instructions(fs[k], k as nat) + (y
            + more));
        y + more
    } else {
        assert(fs.take(k) =~= front);
        assert(all_instructions(fs) =~= all_instructions(fs.take(k)) + install_instructions(fs[k], k as nat)
            + Seq::<char>::empty());
        Seq::empty()
    }
}

/// Where a Feature's `RUN` instruction stands among the instructions for all.
spec fn run_place(fs: Seq<ResolvedModel>, k: int) -> int {
    (all_instructions(fs.take(k)).len() + before_run(fs[k]).len()) as int
}

proof fn lemma_run_place(fs: Seq<ResolvedModel>, k: int)
    requires
        0 <= k < fs.len(),
    ensures
        block_at(all_instructions(fs), run_place(fs, k), run_instruction(fs[k].dir_name(k as nat))),
{
    let y = lemma_among(fs, k);
    let x = all_instructions(fs.take(k));
    let f = fs[k];
    let run = run_instruction(f.dir_name(k as nat));
    lemma_instructions(f, k as nat);
    lemma_before_run(f);
    let a = x + before_run(f);
    assert(a.last() == before_run(f).last());
    lemma_block(a, run, "\n\n"@ + y);
    assert(all_instructions(fs) =~= a + run + ("\n\n"@ + y));
}

proof fn lemma_run_order(fs: Seq<ResolvedModel>, k: int, l: int)
    requires
        0 <= k < l < fs.len(),
    ensures
        run_place(fs, k) < run_place(fs, l),
{
    let part = fs.take(l);
    let y = lemma_among(part, k);
    assert(part.take(k) =~= fs.take(k));
    lemma_instructions(fs[k], k as nat);
}

proof fn lemma_env_place(fs: Seq<ResolvedModel>, k: int, members: Seq<(Seq<char>, JsonModel)>, j: int, v: Seq<char>) -> (i:
    int)
    requires
        0 <= k < fs.len(),
        fs[k].raw.member("containerEnv"@) == Some(JsonModel::Object(members)),
        0 <= j < members.len(),
        members[j].1 == JsonModel::Str(v),
    ensures
        i < run_place(fs, k),
        block_at(all_instructions(fs), i, "ENV "@ + setting(members[j].0, v)),
{
    let y = lemma_among(fs, k);
    let x = all_instructions(fs.take(k));
    let f = fs[k];
    let run = run_instruction(f.dir_name(k as nat));
    let l = "ENV "@ + setting(members[j].0, v);
    lemma_instructions(f, k as nat);
    lemma_all_end(fs.take(k));
    reveal_strlit("\n");
    let head = "# "@ + f.reference.raw + "\n"@;
    assert(head.last() == '\n');
    let i = lemma_env_instruction(members, j, v);
    let e = env_instructions(members);
    assert(before_run(f) == head + e);
    lemma_more_before(e, i, l, head);
    lemma_more_before(head + e, head.len() + i, l, x);
    let rest = run + "\n\n"@ + y;
    lemma_more_after(x + (head + e), x.len() + (head.len() + i), l, rest);
    assert(all_instructions(fs) =~= (x + (head + e)) + rest);
    x.len() + (head.len() + i)
}

/// The start of the Dockerfile, before the Features.
spec fn start_of(fs: Seq<ResolvedModel>, container_user: Seq<char>, remote_user: Seq<char>) -> Seq<char> {
    "ARG _DEV_CONTAINERS_BASE_IMAGE=placeholder\n\nFROM $_DEV_CONTAINERS_BASE_IMAGE AS dev_containers_target_stage\n\nUSER root\n\n"@
        + (
    "RUN mkdir -p /tmp/dev-container-features\nCOPY --chown=root:root . /tmp/dev-container-features\n\nRUN \\\n"@
        + probe_of("_CONTAINER_USER_HOME"@, container_user) + "\\\n"@ + probe_of("_REMOTE_USER_HOME"@, remote_user)
        + "\n\n"@)
}

/// The end of the Dockerfile, after the Features.
spec fn end_of(label: Seq<char>) -> Seq<char> {
    "ARG _DEV_CONTAINERS_IMAGE_USER=root\nUSER $_DEV_CONTAINERS_IMAGE_USER\n\nLABEL devcontainer.metadata=\""@ + labelled(
        label,
    ) + "\"\n"@
}

proof fn lemma_dockerfile(
    fs: Seq<ResolvedModel>,
    label: Seq<char>,
    container_user: Seq<char>,
    remote_user: Seq<char>,
)
    requires
        fs.len() > 0,
    ensures
        dockerfile_of(fs, label, container_user, remote_user) == (start_of(fs, container_user, remote_user)
            + all_instructions(fs)) + end_of(label),
        ends_line(start_of(fs, container_user, remote_user)),
{
    reveal_strlit("\n\n");
    assert(start_of(fs, container_user, remote_user).last() == "\n\n"@[1]);
    assert(dockerfile_of(fs, label, container_user, remote_user) =~= (start_of(fs, container_user, remote_user)
        + all_instructions(fs)) + end_of(label));
}

/// The build runs the script of every Feature, in the directory it was copied to, one Feature after the
/// other in the order they are given.
pub proof fn law_features_are_installed_in_order(
    fs: Seq<ResolvedModel>,
    label: Seq<char>,
    container_user: Seq<char>,
    remote_user: Seq<char>,
    k: int,
    l: int,
)
    requires
        0 <= k < l < fs.len(),
    ensures
        ({
            let d = dockerfile_of(fs, label, container_user, remote_user);
            exists|i: int, j: int|
                i < j && #[trigger] block_at(d, i, run_instruction(fs[k].dir_name(k as nat))) && #[trigger] block_at(
                    d,
                    j,
                    run_instruction(fs[l].dir_name(l as nat)),
                )
        }),
{
    lemma_dockerfile(fs, label, container_user, remote_user);
    let s = start_of(fs, container_user, remote_user);
    let all = all_instructions(fs);
    lemma_run_place(fs, k);
    lemma_run_place(fs, l);
    lemma_run_order(fs, k, l);
    let a = run_instruction(fs[k].dir_name(k as nat));
    let b = run_instruction(fs[l].dir_name(l as nat));
    lemma_more_before(all, run_place(fs, k), a, s);
    lemma_more_before(all, run_place(fs, l), b, s);
    lemma_more_after(s + all, s.len() + run_place(fs, k), a, end_of(label));
    lemma_more_after(s + all, s.len() + run_place(fs, l), b, end_of(label));
}

/// What a Feature puts into the environment is set before its script runs: each text among the members of
/// its `containerEnv`.
pub proof fn law_a_feature_sees_its_environment(
    fs: Seq<ResolvedModel>,
    label: Seq<char>,
    container_user: Seq<char>,
    remote_user: Seq<char>,
    k: int,
    members: Seq<(Seq<char>, JsonModel)>,
    n: int,
    v: Seq<char>,
)
    requires
        0 <= k < fs.len(),
        fs[k].raw.member("containerEnv"@) == Some(JsonModel::Object(members)),
        0 <= n < members.len(),
        members[n].1 == JsonModel::Str(v),
    ensures
        ({
            let d = dockerfile_of(fs, label, container_user, remote_user);
            exists|i: int, j: int|
                i < j && #[trigger] block_at(d, i, "ENV "@ + setting(members[n].0, v)) && #[trigger] block_at(
                    d,
                    j,
                    run_instruction(fs[k].dir_name(k as nat)),
                )
        }),
{
    lemma_dockerfile(fs, label, container_user, remote_user);
    let s = start_of(fs, container_user, remote_user);
    let all = all_instructions(fs);
    let i = lemma_env_place(fs, k, members, n, v);
    lemma_run_place(fs, k);
    let a = "ENV "@ + setting(members[n].0, v);
    let b = run_instruction(fs[k].dir_name(k as nat));
    lemma_more_before(all, i, a, s);
    lemma_more_before(all, run_place(fs, k), b, s);
    lemma_more_after(s + all, s.len() + i, a, end_of(label));
    lemma_more_after(s + all, s.len() + run_place(fs, k), b, end_of(label));
}

/// The build starts from the base image, as root. Before the first Feature runs, the build context was
/// copied in and the homes of both users were looked up.
#[verifier::rlimit(60)]
#[verifier::spinoff_prover]
pub proof fn law_the_context_is_copied_first(
    fs: Seq<ResolvedModel>,
    label: Seq<char>,
    container_user: Seq<char>,
    remote_user: Seq<char>,
    k: int,
)
    requires
        0 <= k < fs.len(),
    ensures
        ({
            let d = dockerfile_of(fs, label, container_user, remote_user);
            let run = run_instruction(fs[k].dir_name(k as nat));
            exists|b: int, c: int, u: int, r: int|
                {
                    &&& #[trigger] block_at(
                        d,
                        b,
                        "FROM $_DEV_CONTAINERS_BASE_IMAGE AS dev_containers_target_stage\n\nUSER root"@,
                    )
                    &&& #[trigger] block_at(d, c, "COPY --chown=root:root . /tmp/dev-container-features"@)
                    &&& #[trigger] block_at(
                        d,
                        u,
                        probe_of("_CONTAINER_USER_HOME"@, container_user) + "\\\n"@ + probe_of(
                            "_REMOTE_USER_HOME"@,
                            remote_user,
                        ),
                    )
                    &&& #[trigger] block_at(d, r, run)
                    &&& b < c < u < r
                }
        }),
{
    lemma_dockerfile(fs, label, container_user, remote_user);
    let d = dockerfile_of(fs, label, container_user, remote_user);
    let s = start_of(fs, container_user, remote_user);
    let all = all_instructions(fs);
    let run = run_instruction(fs[k].dir_name(k as nat));
    lemma_run_place(fs, k);
    lemma_before_run(fs[k]);
    lemma_more_before(all, run_place(fs, k), run, s);
    lemma_more_after(s + all, s.len() + run_place(fs, k), run, end_of(label));
    let probes = probe_of("_CONTAINER_USER_HOME"@, container_user) + "\\\n"@ + probe_of(
        "_REMOTE_USER_HOME"@,
        remote_user,
    );
    let from = "FROM $_DEV_CONTAINERS_BASE_IMAGE AS dev_containers_target_stage\n\nUSER root"@;
    let copy = "COPY --chown=root:root . /tmp/dev-container-features"@;
    let (i, j, l) = lemma_start(probes);
    assert(s =~= "ARG _DEV_CONTAINERS_BASE_IMAGE=placeholder\n\nFROM $_DEV_CONTAINERS_BASE_IMAGE AS dev_containers_target_stage\n\nUSER root\n\n"@
        + ("RUN mkdir -p /tmp/dev-container-features\nCOPY --chown=root:root . /tmp/dev-container-features\n\nRUN \\\n"@
        + probes + "\n\n"@));
    lemma_more_after(s, i, from, all);
    lemma_more_after(s + all, i, from, end_of(label));
    lemma_more_after(s, j, copy, all);
    lemma_more_after(s + all, j, copy, end_of(label));
    lemma_more_after(s, l, probes, all);
    lemma_more_after(s + all, l, probes, end_of(label));
}

proof fn lemma_start(probes: Seq<char>) -> (r: (int, int, int))
    ensures
        ({
            let s = "ARG _DEV_CONTAINERS_BASE_IMAGE=placeholder\n\nFROM $_DEV_CONTAINERS_BASE_IMAGE AS dev_containers_target_stage\n\nUSER root\n\n"@
                + (
            "RUN mkdir -p /tmp/dev-container-features\nCOPY --chown=root:root . /tmp/dev-container-features\n\nRUN \\\n"@
                + probes + "\n\n"@);
            &&& block_at(s, r.0, "FROM $_DEV_CONTAINERS_BASE_IMAGE AS dev_containers_target_stage\n\nUSER root"@)
            &&& block_at(s, r.1, "COPY --chown=root:root . /tmp/dev-container-features"@)
            &&& block_at(s, r.2, probes)
            &&& r.0 < r.1 < r.2
            &&& r.2 < s.len()
        }),
{
    let a = "ARG _DEV_CONTAINERS_BASE_IMAGE=placeholder\n\n"@;
    let from = "FROM $_DEV_CONTAINERS_BASE_IMAGE AS dev_containers_target_stage\n\nUSER root"@;
    let nn = "\n\n"@;
    let mk = "RUN mkdir -p /tmp/dev-container-features\n"@;
    let copy = "COPY --chown=root:root . /tmp/dev-container-features"@;
    let go = "RUN \\\n"@;
    lemma_start_pieces();
    let s = (a + from + nn) + ((mk + copy + nn + go) + probes + nn);
    let s1 = a + from + nn + mk;
    let s2 = s1 + copy + nn + go;
    assert(s1.last() == mk.last());
    assert(s2.last() == go.last());
    let y0 = nn + ((mk + copy + nn + go) + probes + nn);
    lemma_block(a, from, y0);
    assert(s =~= a + from + y0);
    let y1 = nn + go + probes + nn;
    lemma_block(s1, copy, y1);
    assert(s =~= s1 + copy + y1);
    lemma_block(s2, probes, nn);
    assert(s =~= s2 + probes + nn);
    (a.len() as int, s1.len() as int, s2.len() as int)
}

proof fn lemma_start_pieces()
    ensures
        "ARG _DEV_CONTAINERS_BASE_IMAGE=placeholder\n\nFROM $_DEV_CONTAINERS_BASE_IMAGE AS dev_containers_target_stage\n\nUSER root\n\n"@
            == "ARG _DEV_CONTAINERS_BASE_IMAGE=placeholder\n\n"@
            + "FROM $_DEV_CONTAINERS_BASE_IMAGE AS dev_containers_target_stage\n\nUSER root"@ + "\n\n"@,
        "RUN mkdir -p /tmp/dev-container-features\nCOPY --chown=root:root . /tmp/dev-container-features\n\nRUN \\\n"@
            == "RUN mkdir -p /tmp/dev-container-features\n"@ + "COPY --chown=root:root . /tmp/dev-container-features"@
            + "\n\n"@ + "RUN \\\n"@,
        "ARG _DEV_CONTAINERS_BASE_IMAGE=placeholder\n\n"@.len() > 0,
        "ARG _DEV_CONTAINERS_BASE_IMAGE=placeholder\n\n"@.last() == '\n',
        "RUN mkdir -p /tmp/dev-container-features\n"@.len() > 0,
        "RUN mkdir -p /tmp/dev-container-features\n"@.last() == '\n',
        "RUN \\\n"@.len() > 0,
        "RUN \\\n"@.last() == '\n',
        "\n\n"@.len() == 2,
        "\n\n"@[0] == '\n',
{
    reveal_strlit("ARG _DEV_CONTAINERS_BASE_IMAGE=placeholder\n\nFROM $_DEV_CONTAINERS_BASE_IMAGE AS dev_containers_target_stage\n\nUSER root\n\n");
    reveal_strlit("ARG _DEV_CONTAINERS_BASE_IMAGE=placeholder\n\n");
    reveal_strlit("FROM $_DEV_CONTAINERS_BASE_IMAGE AS dev_containers_target_stage\n\nUSER root");
    reveal_strlit("RUN mkdir -p /tmp/dev-container-features\nCOPY --chown=root:root . /tmp/dev-container-features\n\nRUN \\\n");
    reveal_strlit("RUN mkdir -p /tmp/dev-container-features\n");
    reveal_strlit("COPY --chown=root:root . /tmp/dev-container-features");
    reveal_strlit("RUN \\\n");
    reveal_strlit("\n\n");
}

/// The image goes back to the user it was built for and carries the label, whatever was installed. Without
/// Features nothing is copied and nothing is run.
pub proof fn law_the_image_carries_the_label(
    fs: Seq<ResolvedModel>,
    label: Seq<char>,
    container_user: Seq<char>,
    remote_user: Seq<char>,
)
    ensures
        ({
            let d = dockerfile_of(fs, label, container_user, remote_user);
            let end = "USER $_DEV_CONTAINERS_IMAGE_USER\n\nLABEL devcontainer.metadata=\""@ + labelled(label) + "\"\n"@;
            &&& text::has_suffix(d, end)
            &&& fs.len() == 0 ==> d
                == "ARG _DEV_CONTAINERS_BASE_IMAGE=placeholder\n\nFROM $_DEV_CONTAINERS_BASE_IMAGE AS dev_containers_target_stage\n\nUSER root\n\nARG _DEV_CONTAINERS_IMAGE_USER=root\n"@
                + end
        }),
{
    let d = dockerfile_of(fs, label, container_user, remote_user);
    let end = "USER $_DEV_CONTAINERS_IMAGE_USER\n\nLABEL devcontainer.metadata=\""@ + labelled(label) + "\"\n"@;
    let arg = "ARG _DEV_CONTAINERS_IMAGE_USER=root\n"@;
    let first = "ARG _DEV_CONTAINERS_BASE_IMAGE=placeholder\n\nFROM $_DEV_CONTAINERS_BASE_IMAGE AS dev_containers_target_stage\n\nUSER root\n\n"@;
    lemma_end_pieces();
    let x = first + feature_section(fs, container_user, remote_user) + arg;
    assert(d =~= x + end);
    assert(d.subrange(d.len() - end.len(), d.len() as int) =~= end);
    if fs.len() == 0 {
        assert(x =~= first + arg);
    }
}

proof fn lemma_end_pieces()
    ensures
        "ARG _DEV_CONTAINERS_IMAGE_USER=root\nUSER $_DEV_CONTAINERS_IMAGE_USER\n\nLABEL devcontainer.metadata=\""@
            == "ARG _DEV_CONTAINERS_IMAGE_USER=root\n"@
            + "USER $_DEV_CONTAINERS_IMAGE_USER\n\nLABEL devcontainer.metadata=\""@,
        "ARG _DEV_CONTAINERS_BASE_IMAGE=placeholder\n\nFROM $_DEV_CONTAINERS_BASE_IMAGE AS dev_containers_target_stage\n\nUSER root\n\nARG _DEV_CONTAINERS_IMAGE_USER=root\n"@
            == "ARG _DEV_CONTAINERS_BASE_IMAGE=placeholder\n\nFROM $_DEV_CONTAINERS_BASE_IMAGE AS dev_containers_target_stage\n\nUSER root\n\n"@
            + "ARG _DEV_CONTAINERS_IMAGE_USER=root\n"@,
{
    reveal_strlit("ARG _DEV_CONTAINERS_IMAGE_USER=root\nUSER $_DEV_CONTAINERS_IMAGE_USER\n\nLABEL devcontainer.metadata=\"");
    reveal_strlit("ARG _DEV_CONTAINERS_IMAGE_USER=root\n");
    reveal_strlit("USER $_DEV_CONTAINERS_IMAGE_USER\n\nLABEL devcontainer.metadata=\"");
    reveal_strlit("ARG _DEV_CONTAINERS_BASE_IMAGE=placeholder\n\nFROM $_DEV_CONTAINERS_BASE_IMAGE AS dev_containers_target_stage\n\nUSER root\n\nARG _DEV_CONTAINERS_IMAGE_USER=root\n");
    reveal_strlit("ARG _DEV_CONTAINERS_BASE_IMAGE=placeholder\n\nFROM $_DEV_CONTAINERS_BASE_IMAGE AS dev_containers_target_stage\n\nUSER root\n\n");
}

/// Looking up a user's home asks for that user, by name or by number, and adds what it finds to the file
/// that names the users.
pub proof fn law_a_home_is_looked_up(var: Seq<char>, user: Seq<char>)
    ensures
        ({
            let p = probe_of(var, user);
            &&& text::has_prefix(p, "echo \""@ + var + "=$("@)
            &&& text::holds(p, "getent passwd '"@ + user + "'"@)
            &&& text::holds(p, "grep -E '^"@ + user + "|^[^:]*:[^:]*:"@ + user + ":' /etc/passwd"@)
            &&& text::has_suffix(
                p,
                "cut -d: -f6)\" >> /tmp/dev-container-features/devcontainer-features.builtin.env "@,
            )
        }),
{
    let p = probe_of(var, user);
    let l1 = "=$( (command -v getent >/dev/null 2>&1 && getent passwd '"@;
    let l1a = "=$("@;
    let l1b = " (command -v getent >/dev/null 2>&1 && "@;
    let l1c = "getent passwd '"@;
    let l2 = "' || grep -E '^"@;
    let l2a = "'"@;
    let l2b = " || "@;
    let l2c = "grep -E '^"@;
    let l3 = "|^[^:]*:[^:]*:"@;
    let l4 = ":' /etc/passwd || true) | cut -d: -f6)\" >> /tmp/dev-container-features/devcontainer-features.builtin.env "@;
    let l4a = ":' /etc/passwd"@;
    let l4b = " || true) | "@;
    let l4c = "cut -d: -f6)\" >> /tmp/dev-container-features/devcontainer-features.builtin.env "@;
    lemma_probe_pieces();
    let h = "echo \""@ + var + l1a;
    let g = l1c + user + l2a;
    let e = l2c + user + l3 + user + l4a;
    assert(p =~= h + l1b + g + l2b + e + l4b + l4c);
    assert(p.subrange(0, h.len() as int) =~= h);
    assert(p.subrange(p.len() - l4c.len(), p.len() as int) =~= l4c);
    lemma_holds(h + l1b, g, l2b + e + l4b + l4c);
    assert(p =~= (h + l1b) + g + (l2b + e + l4b + l4c));
    lemma_holds(h + l1b + g + l2b, e, l4b + l4c);
    assert(p =~= (h + l1b + g + l2b) + e + (l4b + l4c));
}

proof fn lemma_probe_pieces()
    ensures
        "=$( (command -v getent >/dev/null 2>&1 && getent passwd '"@ == "=$("@
            + " (command -v getent >/dev/null 2>&1 && "@ + "getent passwd '"@,
        "' || grep -E '^"@ == "'"@ + " || "@ + "grep -E '^"@,
        ":' /etc/passwd || true) | cut -d: -f6)\" >> /tmp/dev-container-features/devcontainer-features.builtin.env "@
            == ":' /etc/passwd"@ + " || true) | "@
            + "cut -d: -f6)\" >> /tmp/dev-container-features/devcontainer-features.builtin.env "@,
{
    reveal_strlit("=$( (command -v getent >/dev/null 2>&1 && getent passwd '");
    reveal_strlit("=$(");
    reveal_strlit(" (command -v getent >/dev/null 2>&1 && ");
    reveal_strlit("getent passwd '");
    reveal_strlit("' || grep -E '^");
    reveal_strlit("'");
    reveal_strlit(" || ");
    reveal_strlit("grep -E '^");
    reveal_strlit(":' /etc/passwd || true) | cut -d: -f6)\" >> /tmp/dev-container-features/devcontainer-features.builtin.env ");
    reveal_strlit(":' /etc/passwd");
    reveal_strlit(" || true) | ");
    reveal_strlit("cut -d: -f6)\" >> /tmp/dev-container-features/devcontainer-features.builtin.env ");
}

} // verus!
