use muote::cache::{format_cached_quote, has_visible_text, parse_cached_quote};
use muote::display;

#[test]
fn cached_quote_is_split_at_the_separator() {
    assert_eq!(
        parse_cached_quote("\"Workers of the world, unite!\" — Karl Marx"),
        Some(("Workers of the world, unite!".to_string(), "Karl Marx".to_string()))
    );
}

#[test]
fn cached_quote_uses_the_last_separator() {
    assert_eq!(
        parse_cached_quote("\"A — B\" — C"),
        Some(("A — B".to_string(), "C".to_string()))
    );
}

#[test]
fn cached_quote_is_cleaned() {
    assert_eq!(
        parse_cached_quote("  \"\"quoted\"\"   —   Lenin \n"),
        Some(("quoted".to_string(), "Lenin".to_string()))
    );
    assert_eq!(parse_cached_quote("\"\" — X"), Some((String::new(), "X".to_string())));
}

#[test]
fn cached_quote_without_separator() {
    assert_eq!(parse_cached_quote("just text"), None);
    assert_eq!(parse_cached_quote(""), None);
    assert_eq!(parse_cached_quote("a - b"), None);
}

#[test]
fn cache_text_format() {
    assert_eq!(format_cached_quote("Q", "A"), "\"Q\" — A");
}

#[test]
fn cache_text_reads_back() {
    for (q, a) in [("Q", "A"), ("", "Nobody"), ("x — y", "Friedrich Engels"), (" spaced ", "B")] {
        let text = format_cached_quote(q, a);
        assert_eq!(parse_cached_quote(&text), Some((q.to_string(), a.to_string())));
    }
}

#[test]
fn visible_text() {
    assert!(!has_visible_text(""));
    assert!(!has_visible_text(" \n\t"));
    assert!(has_visible_text(" a "));
}

#[test]
fn display_reads_the_cache() {
    let q = display::parse_cached_quote("\"Q\" — A");
    assert_eq!(q.text, "Q");
    assert_eq!(q.author, "A");
}

#[test]
fn display_without_separator_shows_the_whole_text() {
    let q = display::parse_cached_quote("  plain text \n");
    assert_eq!(q.text, "plain text");
    assert_eq!(q.author, "");
    let empty = display::parse_cached_quote("");
    assert_eq!(empty.text, "");
    assert_eq!(empty.author, "");
}
