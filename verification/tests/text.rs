use pixel_agents_tui::text::char_is_space;
use pixel_agents_tui::text::join_text;
use pixel_agents_tui::text::ends_with;
use pixel_agents_tui::text::owned;
use pixel_agents_tui::text::str_eq;
use pixel_agents_tui::text::tail_after;
use pixel_agents_tui::text::take_chars;
use pixel_agents_tui::text::trim;

#[test]
fn trim_does_what_the_standard_library_does() {
    for s in [
        "",
        " ",
        "a",
        " a ",
        "\t\n\r a b \u{b}\u{c}",
        "\u{85}x\u{a0}",
        "\u{1680}\u{2000}\u{200a}y\u{2028}\u{2029}\u{202f}\u{205f}\u{3000}",
        "\u{200b}z\u{200b}",
        "\u{feff}w",
        "  \u{e9}t\u{e9}  ",
        "\u{1f}q\u{1f}",
    ] {
        assert_eq!(trim(s), s.trim(), "{s:?}");
    }
}

#[test]
fn white_space_is_what_the_standard_library_says() {
    for code in 0..=0x11_0000u32 {
        if let Some(c) = char::from_u32(code) {
            assert_eq!(char_is_space(c), c.is_whitespace(), "{code:#x}");
        }
    }
}

#[test]
fn equality_of_strings() {
    assert!(str_eq("", ""));
    assert!(str_eq("abc", "abc"));
    assert!(str_eq("\u{e9}", "\u{e9}"));
    assert!(!str_eq("abc", "abd"));
    assert!(!str_eq("abc", "ab"));
    assert!(!str_eq("", "a"));
    assert!(!str_eq("e\u{301}", "\u{e9}"));
}

#[test]
fn first_characters() {
    assert_eq!(take_chars("hello", 3), "hel");
    assert_eq!(take_chars("hello", 5), "hello");
    assert_eq!(take_chars("hello", 9), "hello");
    assert_eq!(take_chars("hello", 0), "");
    assert_eq!(take_chars("\u{e9}\u{e8}\u{ea}", 2), "\u{e9}\u{e8}");
}

#[test]
fn what_follows_the_last_separator() {
    assert_eq!(tail_after("/a/b/c.rs", '/'), "c.rs");
    assert_eq!(tail_after("c.rs", '/'), "c.rs");
    assert_eq!(tail_after("/a/b/", '/'), "");
    assert_eq!(tail_after("", '/'), "");
    assert_eq!(tail_after("a.b.c", '.'), "c");
}

#[test]
fn suffixes() {
    assert!(ends_with("a.jsonl", ".jsonl"));
    assert!(ends_with(".jsonl", ".jsonl"));
    assert!(ends_with("x", ""));
    assert!(!ends_with("jsonl", ".jsonl"));
    assert!(!ends_with("a.jsonl ", ".jsonl"));
}

#[test]
fn joining_and_copying() {
    assert_eq!(join_text("ab", "cd"), "abcd");
    assert_eq!(join_text("", ""), "");
    assert_eq!(owned("x\u{e9}"), "x\u{e9}");
}
