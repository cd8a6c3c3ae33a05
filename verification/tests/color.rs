use am::color::{
    enabled, error_prefix, note_prefix, paint, warning_prefix, warning_prefix_severe, Color, Stream,
};
use am::strmap::StrMap;

fn env(entries: &[(&str, &str)]) -> StrMap<String> {
    let mut m = StrMap::new();
    for (k, v) in entries {
        m.insert(k.to_string(), v.to_string());
    }
    m
}

#[test]
fn paint_wraps_only_when_enabled() {
    assert_eq!(paint("ok", Color::Green, true), "\x1b[32mok\x1b[0m");
    assert_eq!(paint("ok", Color::Green, false), "ok");
}

#[test]
fn each_color_has_a_distinct_code() {
    let green = paint("x", Color::Green, true);
    let yellow = paint("x", Color::Yellow, true);
    let red = paint("x", Color::Red, true);
    assert_ne!(green, yellow);
    assert_ne!(yellow, red);
    assert_ne!(green, red);
    assert_eq!(paint("x", Color::Dim, true), "\x1b[2mx\x1b[0m");
}

#[test]
fn painted_text_still_contains_the_text() {
    assert!(paint("no image configured", Color::Red, true).contains("no image configured"));
}

#[test]
fn severity_prefixes_are_uncolored_when_disabled() {
    assert_eq!(error_prefix(false), "error:");
    assert_eq!(warning_prefix(false), "warning:");
    assert_eq!(note_prefix(false), "Note:");
}

#[test]
fn severity_prefixes_are_colored_when_enabled() {
    assert_eq!(error_prefix(true), "\x1b[31merror:\x1b[0m");
    assert_eq!(warning_prefix(true), "\x1b[33mwarning:\x1b[0m");
    assert_eq!(note_prefix(true), "\x1b[33mNote:\x1b[0m");
}

#[test]
fn warning_prefix_severe_reads_warning_but_paints_red() {
    assert_eq!(warning_prefix_severe(false), "warning:");
    assert_eq!(warning_prefix_severe(true), "\x1b[31mwarning:\x1b[0m");
    assert_eq!(
        warning_prefix_severe(true),
        error_prefix(true).replace("error:", "warning:")
    );
}

#[test]
fn color_is_decided_for_each_stream() {
    assert!(enabled(Stream::Stdout, &env(&[]), true, false));
    assert!(!enabled(Stream::Stderr, &env(&[]), true, false));
}

#[test]
fn no_color_wins_over_force_and_force_over_the_terminal() {
    assert!(!enabled(Stream::Stdout, &env(&[("NO_COLOR", "1"), ("CLICOLOR_FORCE", "1")]), true, true));
    assert!(enabled(Stream::Stdout, &env(&[("NO_COLOR", "")]), true, true));
    assert!(enabled(Stream::Stdout, &env(&[("CLICOLOR_FORCE", "1")]), false, false));
    assert!(!enabled(Stream::Stdout, &env(&[("CLICOLOR_FORCE", "0")]), false, false));
    assert!(!enabled(Stream::Stdout, &env(&[("CLICOLOR_FORCE", "")]), false, false));
}
