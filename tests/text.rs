use ghp_upload::text::{find_first, find_last, redact, same_text, trim};

#[test]
fn redaction_replaces_every_occurrence() {
    assert_eq!(
        redact("push https://SECRET@github.com/o/r.git failed; SECRET", "SECRET"),
        "push https://[REDACTED]@github.com/o/r.git failed; [REDACTED]"
    );
}

#[test]
fn redaction_with_empty_token_keeps_message() {
    assert_eq!(redact("https://github.com/o/r.git", ""), "https://github.com/o/r.git");
}

#[test]
fn redacted_origin_never_shows_token() {
    let token = "ghp_abcDEF123";
    let message = format!("could not push to https://{}@github.com/o/r.git ({}{})", token, token, token);
    let shown = redact(&message, token);
    assert!(!shown.contains(token));
    assert_eq!(shown.matches("[REDACTED]").count(), 3);
}

#[test]
fn redaction_scans_left_to_right() {
    assert_eq!(redact("aaa", "aa"), "[REDACTED]a");
}

#[test]
fn search_finds_first_and_last() {
    assert_eq!(find_first("a.git.git", ".git"), Some(1));
    assert_eq!(find_last("a.git.git", ".git"), Some(5));
    assert_eq!(find_first("abc", "x"), None);
    assert_eq!(find_last("ab", "abc"), None);
    assert_eq!(find_first("abc", ""), Some(0));
}

#[test]
fn trim_drops_surrounding_blanks() {
    assert_eq!(trim("  master\r\n"), "master");
    assert_eq!(trim(" \t\n"), "");
    assert_eq!(trim("a b"), "a b");
    assert_eq!(trim("\u{b}\u{c}\u{a0}master\u{3000}\u{2009}"), "master");
    assert_eq!(trim("\u{85}x\u{200b}"), "x\u{200b}");
}

#[test]
fn same_text_is_exact() {
    assert!(same_text("index.html", "index.html"));
    assert!(!same_text("index.html", "index.hmtl"));
    assert!(!same_text("index.html", "index.html "));
}

#[test]
fn token_inside_the_placeholder_still_shows() {
    assert_eq!(redact("E", "E"), "[REDACTED]");
    assert_eq!(redact("]]xx", "]x"), "][REDACTED]x");
}
