use cf_manager::text::{
    contains_text, contains_text_ci, parse_u32, render_u64, split_lines, split_ws, str_eq, trim,
};

#[test]
fn trim_strips_both_ends() {
    assert_eq!(trim("  a b \t\r\n"), "a b");
    assert_eq!(trim("word"), "word");
    assert_eq!(trim("   "), "");
    assert_eq!(trim(""), "");
}

#[test]
fn render_writes_decimal() {
    assert_eq!(render_u64(0), "0");
    assert_eq!(render_u64(7), "7");
    assert_eq!(render_u64(8080), "8080");
    assert_eq!(render_u64(65535), "65535");
    assert_eq!(render_u64(18446744073709551615), "18446744073709551615");
}

#[test]
fn parse_accepts_exactly_u32_numbers() {
    assert_eq!(parse_u32("0"), Some(0));
    assert_eq!(parse_u32("1234"), Some(1234));
    assert_eq!(parse_u32("007"), Some(7));
    assert_eq!(parse_u32("4294967295"), Some(u32::MAX));
    assert_eq!(parse_u32("4294967296"), None);
    assert_eq!(parse_u32("99999999999"), None);
    assert_eq!(parse_u32(""), None);
    assert_eq!(parse_u32("12a"), None);
    assert_eq!(parse_u32("-5"), None);
    assert_eq!(parse_u32(" 5"), None);
}

#[test]
fn split_ws_yields_tokens_in_order() {
    let toks = split_ws("  TCP   0.0.0.0:8080\tLISTENING  1234 ");
    assert_eq!(toks, vec!["TCP", "0.0.0.0:8080", "LISTENING", "1234"]);
    assert_eq!(split_ws(""), Vec::<String>::new());
    assert_eq!(split_ws(" \t "), Vec::<String>::new());
    assert_eq!(split_ws("one"), vec!["one"]);
}

#[test]
fn split_lines_handles_both_line_endings() {
    assert_eq!(split_lines("a\r\nb\nc"), vec!["a", "b", "c"]);
    assert_eq!(split_lines("x\n"), vec!["x"]);
    assert_eq!(split_lines(""), Vec::<String>::new());
    assert_eq!(split_lines("\n\n"), vec!["", ""]);
    assert_eq!(split_lines("tail without newline"), vec!["tail without newline"]);
}

#[test]
fn str_eq_compares_characters() {
    assert!(str_eq("abc", "abc"));
    assert!(!str_eq("abc", "abd"));
    assert!(!str_eq("abc", "abcd"));
    assert!(str_eq("", ""));
}

#[test]
fn contains_finds_exact_substrings() {
    assert!(contains_text("hello world", "lo wo"));
    assert!(contains_text("hello", ""));
    assert!(!contains_text("hello", "world"));
    assert!(!contains_text("he", "hello"));
}

#[test]
fn contains_ci_folds_the_text() {
    assert!(contains_text_ci("CloudFlared.exe", "cloudflared"));
    assert!(contains_text_ci("CLOUDFLARED", "cloudflared"));
    assert!(!contains_text_ci("cloud flared", "cloudflared"));
}
