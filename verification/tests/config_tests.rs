use muote::color::{color_channels_to_hex, is_color_input, parse_color_channels, with_alpha};
use muote::config::{
    authors_path, cache_dir, cache_file_path, config_dir, config_manager, default_bg_fill,
    default_bg_rounded, default_language, default_max_quote_chars, default_quote_max_height,
    default_quote_max_width, fetch_timer_override_path, join_path, position_hash_of, quote_pool_dir,
    settings_path, ConfigManager, HorizontalAlign, VerticalAlign, APP_NAME,
};
use muote::digest::{lower_hex, sha1_hex};
use muote::hashed::{hashed_json_contents, split_hashed_contents};

#[test]
fn alignment_defaults() {
    assert_eq!(HorizontalAlign::default(), HorizontalAlign::Center);
    assert_eq!(VerticalAlign::default(), VerticalAlign::Top);
}

#[test]
fn setting_defaults() {
    assert_eq!(default_quote_max_width(), 1499);
    assert_eq!(default_quote_max_height(), 315);
    assert_eq!(default_max_quote_chars(), 581);
    assert!(default_bg_rounded());
    assert!(!default_bg_fill());
    assert_eq!(default_language(), "ORIGINAL");
}

fn text(b: Vec<u8>) -> String {
    String::from_utf8(b).unwrap()
}

#[test]
fn paths_join() {
    assert_eq!(text(join_path(b"/home/u/.config", b"x")), "/home/u/.config/x");
    assert_eq!(text(join_path(b"/home/u/.config/", b"x")), "/home/u/.config/x");
    assert_eq!(text(join_path(b"", b"x")), "x");
    assert_eq!(text(join_path(b"/a", b"/b")), "/b");
    assert_eq!(join_path(b"/home/\xff", b"x"), b"/home/\xff/x".to_vec());
}

#[test]
fn config_manager_directories() {
    let m = ConfigManager::new("app");
    assert_eq!(text(m.config_dir_under(b"/home/u/.config")), "/home/u/.config/app");
    assert!(m.config_dir().ends_with(b"/app"));
    assert!(m.settings_path().ends_with(b"/app/settings.json"));
    assert!(config_manager().config_dir().ends_with(b"/marxist_quote"));
    assert_eq!(APP_NAME, "marxist_quote");
}

#[test]
fn application_paths() {
    let dir = config_dir();
    assert!(dir.ends_with(b"/marxist_quote"));
    assert_eq!(settings_path(), [dir.as_slice(), b"/settings.json"].concat());
    assert_eq!(authors_path(), [dir.as_slice(), b"/authors.json"].concat());
    assert_eq!(quote_pool_dir(), [dir.as_slice(), b"/pools"].concat());
    let cache = cache_dir();
    assert!(cache.ends_with(b"/marxist_quote"));
    assert_eq!(cache_file_path(), [cache.as_slice(), b"/current_quote.txt"].concat());
    assert!(fetch_timer_override_path().ends_with(b"/systemd/user/marxist-quote-fetch.timer.d/override.conf"));
}

#[test]
fn config_dir_follows_the_environment() {
    let expected = dirs::config_dir()
        .unwrap_or_else(|| std::path::PathBuf::from("~/.config"))
        .join("marxist_quote");
    assert_eq!(config_dir(), expected.into_os_string().into_encoded_bytes());
    let cache = dirs::cache_dir()
        .unwrap_or_else(|| std::path::PathBuf::from("~/.cache"))
        .join("marxist_quote")
        .join("current_quote.txt");
    assert_eq!(cache_file_path(), cache.into_os_string().into_encoded_bytes());
}

#[test]
fn sha1_digests() {
    assert_eq!(sha1_hex("abc").into_iter().collect::<String>(), "a9993e364706816aba3e25717850c26c9cd0d89d");
    assert_eq!(sha1_hex("").into_iter().collect::<String>(), "da39a3ee5e6b4b0d3255bfef95601890afd80709");
    assert_eq!(lower_hex(&vec![0x0a, 0xff, 0x00]).into_iter().collect::<String>(), "0aff00");
}

#[test]
fn default_layout_hash() {
    assert_eq!(position_hash_of("Inter", "32", 1499, 315), "c1d49957c3456882f562c324ad89bb1ab63fd360");
}

#[test]
fn layout_hash_changes_with_the_box() {
    assert_ne!(position_hash_of("Inter", "32", 1499, 316), position_hash_of("Inter", "32", 1499, 315));
    assert_eq!(position_hash_of("Inter", "32", -5, 315).len(), 40);
}

#[test]
fn hashed_file_is_split() {
    let (json, hash) = split_hashed_contents("{\n  \"a\": 1\n}\nhash:abcd");
    assert_eq!(json, "{\n  \"a\": 1\n}\n");
    assert_eq!(hash, "abcd");
    let (json, hash) = split_hashed_contents("{}");
    assert_eq!(json, "{}\n");
    assert_eq!(hash, "");
    let (json, hash) = split_hashed_contents("hash:1\n{}\nhash:2\n");
    assert_eq!(json, "{}\n");
    assert_eq!(hash, "2");
}

#[test]
fn hashed_file_text() {
    let (text, hash) = hashed_json_contents("abc");
    assert_eq!(hash, "a9993e364706816aba3e25717850c26c9cd0d89d");
    assert_eq!(text, "abc\nhash:a9993e364706816aba3e25717850c26c9cd0d89d");
}

#[test]
fn hashed_file_reads_back() {
    let json = "{\n  \"authors\": [],\n  \"show_weight_note\": true\n}";
    let (text, hash) = hashed_json_contents(json);
    let (back, read_hash) = split_hashed_contents(&text);
    assert_eq!(read_hash, hash);
    assert_eq!(back, format!("{}\n", json));
}

#[test]
fn color_channels() {
    assert_eq!(parse_color_channels("#811309ff"), (0x81, 0x13, 0x09, 0xff));
    assert_eq!(parse_color_channels("#ffffff"), (255, 255, 255, 255));
    assert_eq!(parse_color_channels("00ff0080"), (0, 255, 0, 128));
    assert_eq!(parse_color_channels("##00FF00"), (0, 255, 0, 255));
}

#[test]
fn unreadable_color_channels_are_full() {
    assert_eq!(parse_color_channels("#zz0000"), (255, 0, 0, 255));
    assert_eq!(parse_color_channels("#123"), (255, 255, 255, 255));
    assert_eq!(parse_color_channels(""), (255, 255, 255, 255));
    assert_eq!(parse_color_channels("#+f0000"), (15, 0, 0, 255));
    assert_eq!(parse_color_channels("#-f0000"), (255, 0, 0, 255));
}

#[test]
fn color_text() {
    assert_eq!(color_channels_to_hex(1, 2, 3, 4), "#01020304");
    assert_eq!(color_channels_to_hex(255, 0, 171, 205), "#ff00abcd");
}

#[test]
fn color_text_reads_back() {
    for (r, g, b, a) in [(0, 0, 0, 0), (255, 255, 255, 255), (18, 52, 86, 120), (171, 205, 239, 1)] {
        assert_eq!(parse_color_channels(&color_channels_to_hex(r, g, b, a)), (r, g, b, a));
    }
}

#[test]
fn color_alpha_replaced() {
    assert_eq!(with_alpha("#811309ff", 0x40), "#81130940");
    assert_eq!(with_alpha("#abcdef", 0), "#abcdef00");
    assert!(is_color_input("#fff"));
    assert!(!is_color_input(""));
    assert!(!is_color_input("fff"));
}

#[test]
fn color_text_comes_back_lowercase() {
    for text in ["#AbCdEf12", "#00ff00FF", "#0A0B0C0D"] {
        let (r, g, b, a) = parse_color_channels(text);
        assert_eq!(color_channels_to_hex(r, g, b, a), text.to_ascii_lowercase());
    }
}

#[test]
fn layout_hash_is_forty_hex_digits() {
    let h = position_hash_of("Noto Serif", "27.5", -3, 0);
    assert_eq!(h.len(), 40);
    assert!(h.chars().all(|c| c.is_ascii_hexdigit() && !c.is_ascii_uppercase()));
}
