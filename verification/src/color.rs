//! Colour in the terminal, decided for each stream.
//!
//! One colour means one severity: green for fine, yellow for something worth reading, red for something
//! that stops the user. Colour is an accent on words that say the same, so that nothing is lost without
//! it.

use vstd::prelude::*;

use crate::strmap::{self, StrMap};
use crate::text;

verus! {

/// Where a message goes. The two are redirected on their own.
#[derive(Debug, Clone, Copy, PartialEq, Eq, Structural)]
pub enum Stream {
    Stdout,
    Stderr,
}

/// The colours, from the terminal's own palette.
#[derive(Debug, Clone, Copy, PartialEq, Eq, Structural)]
pub enum Color {
    Green,
    Yellow,
    Red,
    /// No severity: for text that is structure rather than content.
    Dim,
}

/// Whether a variable is set to something.
pub open spec fn is_set(env: Seq<(Seq<char>, Seq<char>)>, name: Seq<char>) -> bool {
    strmap::get(env, name) matches Some(v) && v.len() > 0
}

/// Whether a stream is coloured: `NO_COLOR` forbids it, `CLICOLOR_FORCE` demands it, and a terminal gets
/// it.
pub open spec fn coloured(env: Seq<(Seq<char>, Seq<char>)>, terminal: bool) -> bool {
    if is_set(env, "NO_COLOR"@) {
        false
    } else if is_set(env, "CLICOLOR_FORCE"@) && strmap::get(env, "CLICOLOR_FORCE"@) != Some("0"@) {
        true
    } else {
        terminal
    }
}

/// Decides whether to colour a stream. `stdout_terminal` and `stderr_terminal` say which of the two is a
/// terminal.
pub fn enabled(stream: Stream, env: &StrMap<String>, stdout_terminal: bool, stderr_terminal: bool) -> (r: bool)
    ensures
        r == coloured(
            env.deep_view(),
            match stream {
                Stream::Stdout => stdout_terminal,
                Stream::Stderr => stderr_terminal,
            },
        ),
{
    match env.get("NO_COLOR") {
        Some(v) => if !v.as_str().is_empty() {
            return false;
        },
        None => {},
    }
    match env.get("CLICOLOR_FORCE") {
        Some(v) => if !v.as_str().is_empty() && !text::eq(v.as_str(), "0") {
            return true;
        },
        None => {},
    }
    match stream {
        Stream::Stdout => stdout_terminal,
        Stream::Stderr => stderr_terminal,
    }
}

impl Color {
    /// What switches the colour on.
    pub open spec fn escape(self) -> Seq<char> {
        match self {
            Color::Green => "\x1b[32m"@,
            Color::Yellow => "\x1b[33m"@,
            Color::Red => "\x1b[31m"@,
            Color::Dim => "\x1b[2m"@,
        }
    }

    fn code(self) -> (r: &'static str)
        ensures
            r@ == self.escape(),
    {
        match self {
            Color::Green => "\x1b[32m",
            Color::Yellow => "\x1b[33m",
            Color::Red => "\x1b[31m",
            Color::Dim => "\x1b[2m",
        }
    }
}

/// A text in a colour, or as it is.
pub open spec fn painted(s: Seq<char>, color: Color, enabled: bool) -> Seq<char> {
    if enabled {
        color.escape() + s + "\x1b[0m"@
    } else {
        s
    }
}

/// Wraps a text in a colour where that is enabled.
pub fn paint(text: &str, color: Color, enabled: bool) -> (r: String)
    ensures
        r@ == painted(text@, color, enabled),
{
    if enabled {
        text::cat3(color.code(), text, "\x1b[0m")
    } else {
        text.to_owned()
    }
}

/// The prefix of an error. Colour goes on the prefix alone.
pub fn error_prefix(enabled: bool) -> (r: String)
    ensures
        r@ == painted("error:"@, Color::Red, enabled),
{
    paint("error:", Color::Red, enabled)
}

/// The prefix of a warning.
pub fn warning_prefix(enabled: bool) -> (r: String)
    ensures
        r@ == painted("warning:"@, Color::Yellow, enabled),
{
    paint("warning:", Color::Yellow, enabled)
}

/// The prefix of a note.
pub fn note_prefix(enabled: bool) -> (r: String)
    ensures
        r@ == painted("Note:"@, Color::Yellow, enabled),
{
    paint("Note:", Color::Yellow, enabled)
}

/// The prefix of a warning of what cannot be undone.
pub fn warning_prefix_severe(enabled: bool) -> (r: String)
    ensures
        r@ == painted("warning:"@, Color::Red, enabled),
{
    paint("warning:", Color::Red, enabled)
}

/// `NO_COLOR` forbids colour whatever else is said, `CLICOLOR_FORCE` demands it unless it is `0`, and
/// otherwise a terminal has it. An empty variable says nothing.
pub proof fn law_colour_is_decided_in_order(env: Seq<(Seq<char>, Seq<char>)>, terminal: bool)
    ensures
        ({
            let no = strmap::get(env, "NO_COLOR"@);
            let force = strmap::get(env, "CLICOLOR_FORCE"@);
            let forbidden = no is Some && no->0.len() > 0;
            let forced = force is Some && force->0.len() > 0 && force->0 != "0"@;
            &&& forbidden ==> !coloured(env, terminal)
            &&& !forbidden && forced ==> coloured(env, terminal)
            &&& !forbidden && !forced ==> coloured(env, terminal) == terminal
        }),
{
}

/// Colour changes nothing of the text: it goes around it, and is reset after it. Without colour the text
/// stays as it is.
pub proof fn law_paint_goes_around(s: Seq<char>, color: Color)
    ensures
        painted(s, color, false) == s,
        ({
            let p = painted(s, color, true);
            let e = match color {
                Color::Green => "\x1b[32m"@,
                Color::Yellow => "\x1b[33m"@,
                Color::Red => "\x1b[31m"@,
                Color::Dim => "\x1b[2m"@,
            };
            &&& p.len() == e.len() + s.len() + "\x1b[0m"@.len()
            &&& p.subrange(0, e.len() as int) == e
            &&& p.subrange(e.len() as int, e.len() as int + s.len()) == s
            &&& p.subrange(e.len() as int + s.len(), p.len() as int) == "\x1b[0m"@
        }),
{
    let p = painted(s, color, true);
    let e = color.escape();
    assert(p.subrange(0, e.len() as int) =~= e);
    assert(p.subrange(e.len() as int, e.len() as int + s.len()) =~= s);
    assert(p.subrange(e.len() as int + s.len(), p.len() as int) =~= "\x1b[0m"@);
}

} // verus!
