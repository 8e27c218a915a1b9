use clarify::text::chars_of;
use clarify::text::ends_with;
use clarify::text::escape_backticks;
use clarify::text::escape_newlines;
use clarify::text::join_lines;
use clarify::text::str_eq;
use clarify::text::string_of;

#[test]
fn chars_roundtrip() {
    let cs = chars_of("héllo `");
    assert_eq!(cs.len(), 7);
    let s = string_of(&cs);
    assert_eq!(s, "héllo `");
}

#[test]
fn str_eq_basic() {
    assert!(str_eq("doc", "doc"));
    assert!(!str_eq("doc", "dok"));
    assert!(!str_eq("doc", "docs"));
    assert!(str_eq("", ""));
}

#[test]
fn ends_with_basic() {
    assert!(ends_with("main.rs", ".rs"));
    assert!(ends_with(".rs", ".rs"));
    assert!(!ends_with("main.txt", ".rs"));
    assert!(!ends_with("rs", ".rs"));
    assert!(ends_with("anything", ""));
}

#[test]
fn join_lines_basic() {
    let ls = vec!["a".to_string(), "b".to_string(), "c".to_string()];
    assert_eq!(join_lines(&ls), "a\nb\nc");
    let one = vec!["only".to_string()];
    assert_eq!(join_lines(&one), "only");
    let none: Vec<String> = vec![];
    assert_eq!(join_lines(&none), "");
}

#[test]
fn escape_backticks_exact_triple() {
    assert_eq!(escape_backticks("```"), "\\`\\`\\`");
    assert_eq!(escape_backticks("a```b"), "a\\`\\`\\`b");
}

#[test]
fn escape_backticks_keeps_short_runs() {
    assert_eq!(escape_backticks("`"), "`");
    assert_eq!(escape_backticks("a``b"), "a``b");
    assert_eq!(escape_backticks(""), "");
}

#[test]
fn escape_backticks_long_runs_leave_no_fence() {
    for n in 3..9 {
        let run: String = "`".repeat(n);
        let escaped = escape_backticks(&run);
        assert!(!escaped.contains("```"), "run of {} left a fence: {}", n, escaped);
    }
    let mixed = "x``` y ````` z ``";
    assert!(!escape_backticks(mixed).contains("```"));
}

#[test]
fn escape_newlines_basic() {
    assert_eq!(escape_newlines("a\nb\n"), "a\\nb\\n");
    assert_eq!(escape_newlines("flat"), "flat");
}
