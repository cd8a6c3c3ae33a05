//! Quoting for POSIX shells.

use vstd::prelude::*;

use crate::text;

verus! {

/// Characters that mean nothing to a shell.
pub open spec fn is_plain(c: char) -> bool {
    text::is_word(c) || c == '_' || c == '@' || c == '%' || c == '+' || c == '=' || c == ':' || c == ','
        || c == '.' || c == '/' || c == '-'
}

pub open spec fn plain_word(s: Seq<char>) -> bool {
    s.len() > 0 && forall|i: int| 0 <= i < s.len() ==> is_plain(#[trigger] s[i])
}

/// `s` as one word of a shell command: itself where it is plain, otherwise in single quotes, each
/// single quote inside closing the quotes, escaped, and opening them again.
pub open spec fn quoted(s: Seq<char>) -> Seq<char> {
    if plain_word(s) {
        s
    } else {
        "'"@ + text::replaced(s, '\'', "'\\''"@) + "'"@
    }
}

fn is_plain_word(s: &str) -> (r: bool)
    ensures
        r == plain_word(s@),
{
    let cs = text::chars(s);
    let mut i: usize = 0;
    while i < cs.len()
        invariant
            cs@ == s@,
            i <= cs.len(),
            forall|j: int| 0 <= j < i ==> is_plain(#[trigger] s@[j]),
        decreases cs.len() - i,
    {
        let c = cs[i];
        assert(s@[i as int] == c);
        if !(text::is_ascii_word(c) || c == '_' || c == '@' || c == '%' || c == '+' || c == '=' || c == ':'
            || c == ',' || c == '.' || c == '/' || c == '-') {
            return false;
        }
        i = i + 1;
    }
    cs.len() > 0
}

/// Quotes `s` as one word of a shell command.
pub fn shell_quote(s: &str) -> (r: String)
    ensures
        r@ == quoted(s@),
{
    if is_plain_word(s) {
        s.to_owned()
    } else {
        let inner = text::replace(s, '\'', "'\\''");
        text::cat3("'", inner.as_str(), "'")
    }
}

/// The words of a command, each quoted, with a space between them.
pub open spec fn command_line(words: Seq<Seq<char>>) -> Seq<char> {
    text::joined(words.map_values(|w: Seq<char>| quoted(w)), " "@)
}

/// Writes `words` as a shell command.
pub fn quote_all(words: &Vec<String>) -> (r: String)
    ensures
        r@ == command_line(words.deep_view()),
{
    let mut out: Vec<String> = Vec::new();
    let mut i: usize = 0;
    let ghost all = words.deep_view().map_values(|w: Seq<char>| quoted(w));
    while i < words.len()
        invariant
            i <= words.len(),
            all == words.deep_view().map_values(|w: Seq<char>| quoted(w)),
            out.deep_view() == all.subrange(0, i as int),
        decreases words.len() - i,
    {
        let q = shell_quote(words[i].as_str());
        text::push(&mut out, q);
        i = i + 1;
        assert(out.deep_view() =~= all.subrange(0, i as int));
    }
    assert(out.deep_view() =~= all);
    text::join(&out, " ")
}

// ----------------------------------------------------------------------------------------------
// Reading
// ----------------------------------------------------------------------------------------------

/// More words, after `before`.
pub open spec fn after(before: Seq<Seq<char>>, more: Option<Seq<Seq<char>>>) -> Option<Seq<Seq<char>>> {
    match more {
        Some(m) => Some(before + m),
        None => None,
    }
}

/// The words that a shell reads, `word` being what it has of the current one where it has `begun` one.
/// Nothing where a character outside quotes would mean something else to it.
pub open spec fn words_in(s: Seq<char>, in_quotes: bool, word: Seq<char>, begun: bool) -> Option<Seq<Seq<char>>>
    decreases s.len(),
{
    if s.len() == 0 {
        if in_quotes {
            None
        } else {
            Some(
                if begun {
                    seq![word]
                } else {
                    Seq::empty()
                },
            )
        }
    } else if s[0] == '\'' {
        words_in(s.drop_first(), !in_quotes, word, true)
    } else if in_quotes {
        words_in(s.drop_first(), true, word.push(s[0]), true)
    } else if s[0] == '\\' {
        if s.len() > 1 {
            words_in(s.subrange(2, s.len() as int), false, word.push(s[1]), true)
        } else {
            None
        }
    } else if s[0] == ' ' {
        after(
            if begun {
                seq![word]
            } else {
                Seq::empty()
            },
            words_in(s.drop_first(), false, Seq::empty(), false),
        )
    } else if is_plain(s[0]) {
        words_in(s.drop_first(), false, word.push(s[0]), true)
    } else {
        None
    }
}

proof fn lemma_plain_read(w: Seq<char>, t: Seq<char>, word: Seq<char>, begun: bool)
    requires
        forall|i: int| 0 <= i < w.len() ==> is_plain(#[trigger] w[i]),
    ensures
        words_in(w + t, false, word, begun) == words_in(t, false, word + w, begun || w.len() > 0),
    decreases w.len(),
{
    if w.len() == 0 {
        assert(w + t =~= t);
        assert(word + w =~= word);
    } else {
        let c = w.last();
        let u = seq![c] + t;
        lemma_plain_read(w.drop_last(), u, word, begun);
        assert(w.drop_last() + u =~= w + t);
        assert(is_plain(c));
        assert(u.drop_first() =~= t);
        assert((word + w.drop_last()).push(c) =~= word + w);
    }
}

proof fn lemma_quoted_read(w: Seq<char>, t: Seq<char>, word: Seq<char>)
    ensures
        words_in(text::replaced(w, '\'', "'\\''"@) + t, true, word, true) == words_in(t, true, word + w, true),
    decreases w.len(),
{
    reveal_strlit("'\\''");
    let x = "'\\''"@;
    if w.len() == 0 {
        assert(text::replaced(w, '\'', x) + t =~= t);
        assert(word + w =~= word);
    } else {
        let c = w.last();
        let one = if c == '\'' {
            x
        } else {
            seq![c]
        };
        let u = one + t;
        let before = word + w.drop_last();
        lemma_quoted_read(w.drop_last(), u, word);
        assert(text::replaced(w.drop_last(), '\'', x) + u =~= text::replaced(w, '\'', x) + t);
        assert(before.push(c) =~= word + w);
        if c == '\'' {
            assert(x =~= seq!['\'', '\\', '\'', '\'']);
            let u1 = u.drop_first();
            let u2 = u1.subrange(2, u1.len() as int);
            assert(u[0] == '\'' && u1[0] == '\\' && u1[1] == '\'' && u2[0] == '\'');
            assert(u2.drop_first() =~= t);
            assert(words_in(u, true, before, true) == words_in(u1, false, before, true));
            assert(words_in(u1, false, before, true) == words_in(u2, false, before.push(c), true));
            assert(words_in(u2, false, before.push(c), true) == words_in(t, true, before.push(c), true));
        } else {
            assert(u.drop_first() =~= t);
        }
    }
}

proof fn lemma_word_read(w: Seq<char>, t: Seq<char>)
    ensures
        words_in(quoted(w) + t, false, Seq::empty(), false) == words_in(t, false, w, true),
{
    if plain_word(w) {
        lemma_plain_read(w, t, Seq::empty(), false);
        assert(Seq::empty() + w =~= w);
    } else {
        reveal_strlit("'");
        let inner = text::replaced(w, '\'', "'\\''"@);
        let u = "'"@ + t;
        let whole = quoted(w) + t;
        assert(whole[0] == '\'');
        assert(whole.drop_first() =~= inner + u);
        lemma_quoted_read(w, u, Seq::empty());
        assert(Seq::empty() + w =~= w);
        assert(u[0] == '\'');
        assert(u.drop_first() =~= t);
        assert(words_in(u, true, w, true) == words_in(t, false, w, true));
    }
}

proof fn lemma_line_read(words: Seq<Seq<char>>, t: Seq<char>)
    requires
        words.len() > 0,
    ensures
        words_in(command_line(words) + t, false, Seq::empty(), false) == after(
            words.drop_last(),
            words_in(t, false, words.last(), true),
        ),
    decreases words.len(),
{
    let parts = words.map_values(|w: Seq<char>| quoted(w));
    let last = words.last();
    if words.len() == 1 {
        lemma_word_read(last, t);
        assert(command_line(words) + t =~= quoted(last) + t);
        match words_in(t, false, last, true) {
            Some(m) => {
                assert(words.drop_last() + m =~= m);
            },
            None => {},
        }
    } else {
        reveal_strlit(" ");
        let front = words.drop_last();
        let u = " "@ + (quoted(last) + t);
        assert(front.map_values(|w: Seq<char>| quoted(w)) =~= parts.drop_last());
        assert(command_line(words) + t =~= command_line(front) + u);
        lemma_line_read(front, u);
        assert(u[0] == ' ');
        assert(u.drop_first() =~= quoted(last) + t);
        lemma_word_read(last, t);
        match words_in(t, false, last, true) {
            Some(m) => {
                assert(front.drop_last() + (seq![front.last()] + m) =~= front + m);
            },
            None => {},
        }
    }
}

/// A shell reads the words of a command line as they were, whatever they hold, and expands nothing.
pub proof fn law_words_are_read_as_written(words: Seq<Seq<char>>)
    ensures
        words_in(command_line(words), false, Seq::empty(), false) == Some(words),
{
    if words.len() > 0 {
        lemma_line_read(words, Seq::empty());
        assert(command_line(words) + Seq::<char>::empty() =~= command_line(words));
        assert(words.drop_last() + seq![words.last()] =~= words);
    } else {
        assert(words =~= Seq::empty());
    }
}

} // verus!
