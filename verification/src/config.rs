//! Display settings that the library reads, and where the settings files live.

use vstd::prelude::*;
use crate::digest::{sha1_hex, sha1_hex_of};
use crate::text::{
    append_str, append_vec, chars_of, i32_text, int_text, string_from_chars,
};

verus! {

/// Horizontal alignment of the quote or author text in its box.
#[derive(Debug, Clone, Copy, PartialEq, Eq, Structural)]
pub enum HorizontalAlign {
    Left,
    Center,
    Right,
}

impl Default for HorizontalAlign {
    fn default() -> (r: Self)
        ensures
            r == HorizontalAlign::Center,
    {
        HorizontalAlign::Center
    }
}

/// Vertical alignment of the quote or author text in its box.
#[derive(Debug, Clone, Copy, PartialEq, Eq, Structural)]
pub enum VerticalAlign {
    Top,
    Center,
    Bottom,
}

impl Default for VerticalAlign {
    fn default() -> (r: Self)
        ensures
            r == VerticalAlign::Top,
    {
        VerticalAlign::Top
    }
}

/// Width of the quote box in settings that do not give one.
pub fn default_quote_max_width() -> (r: i32)
    ensures
        r == 1499,
{
    1499
}

/// Height of the quote box in settings that do not give one.
pub fn default_quote_max_height() -> (r: i32)
    ensures
        r == 315,
{
    315
}

/// Character limit of a quote in settings that do not give one.
pub fn default_max_quote_chars() -> (r: usize)
    ensures
        r == 581,
{
    581
}

/// Backgrounds have rounded corners unless the settings say otherwise.
pub fn default_bg_rounded() -> (r: bool)
    ensures
        r,
{
    true
}

/// Backgrounds follow the lines of text unless the settings say otherwise.
pub fn default_bg_fill() -> (r: bool)
    ensures
        !r,
{
    false
}

/// Quotes are shown untranslated unless the settings name a language.
pub fn default_language() -> (r: String)
    ensures
        r@ == "ORIGINAL"@,
{
    crate::text::string_of("ORIGINAL")
}

/// The name under which the settings and the cache are kept.
pub const APP_NAME: &'static str = "marxist_quote";

/// The bytes of a text, as a path holds them.
pub open spec fn text_bytes(t: Seq<char>) -> Seq<u8> {
    vstd::utf8::encode_utf8(t)
}

/// `Path::join` on Unix, over the bytes of the paths: an absolute component replaces
/// the path; otherwise it is appended, after a `/` unless the path is empty or already
/// ends with one.
pub open spec fn path_join(base: Seq<u8>, comp: Seq<u8>) -> Seq<u8> {
    if comp.len() > 0 && comp[0] == 47 {
        comp
    } else if base.len() == 0 || base.last() == 47 {
        base + comp
    } else {
        base + seq![47u8] + comp
    }
}

fn push_bytes(dst: &mut Vec<u8>, src: &[u8])
    ensures
        final(dst)@ == old(dst)@ + src@,
{
    dst.extend_from_slice(src);
    assert(dst@ =~= old(dst)@ + src@);
}

/// Joins a path component onto a path.
pub fn join_path(base: &[u8], comp: &[u8]) -> (r: Vec<u8>)
    ensures
        r@ == path_join(base@, comp@),
{
    if comp.len() > 0 && comp[0] == 47 {
        return vstd::slice::slice_to_vec(comp);
    }
    let mut b = vstd::slice::slice_to_vec(base);
    if !(b.len() == 0 || b[b.len() - 1] == 47) {
        b.push(47);
    }
    push_bytes(&mut b, comp);
    b
}

/// `dirs::config_dir` from the `dirs` crate, as the bytes of the path (`OsStr` bytes
/// on Unix). Which directory it gives depends on the environment (`$XDG_CONFIG_HOME`,
/// `$HOME`), so that is left unsaid; what is stated is that a directory it gives is
/// never empty (an absolute `$XDG_CONFIG_HOME`, or `.config` under a home directory
/// that is not empty).
#[verifier::external_body]
pub(crate) fn user_config_dir() -> (r: Option<Vec<u8>>)
    ensures
        r matches Some(p) ==> p@.len() > 0,
{
    dirs::config_dir().map(|p| p.into_os_string().into_encoded_bytes())
}

/// `dirs::cache_dir` from the `dirs` crate, as the bytes of the path (`OsStr` bytes on
/// Unix). Which directory it gives depends on the environment (`$XDG_CACHE_HOME`,
/// `$HOME`), so that is left unsaid; what is stated is that a directory it gives is
/// never empty (an absolute `$XDG_CACHE_HOME`, or `.cache` under a home directory that
/// is not empty).
#[verifier::external_body]
fn user_cache_dir() -> (r: Option<Vec<u8>>)
    ensures
        r matches Some(p) ==> p@.len() > 0,
{
    dirs::cache_dir().map(|p| p.into_os_string().into_encoded_bytes())
}

/// The user's base directory, or `fallback` when there is none.
pub open spec fn base_or(base: Option<Seq<u8>>, fallback: Seq<u8>) -> Seq<u8> {
    match base {
        Some(b) => b,
        None => fallback,
    }
}

/// The bytes of an optional path.
pub open spec fn opt_view(o: Option<Vec<u8>>) -> Option<Seq<u8>> {
    match o {
        Some(s) => Some(s@),
        None => None,
    }
}

/// A base directory: the one given, or `fallback` when there is none.
pub fn config_base_from(base: Option<Vec<u8>>, fallback: &str) -> (r: Vec<u8>)
    ensures
        r@ == base_or(opt_view(base), text_bytes(fallback@)),
{
    match base {
        Some(b) => b,
        None => vstd::slice::slice_to_vec(fallback.as_bytes()),
    }
}

/// A base directory that the environment may give: never an empty one.
pub open spec fn usable_base(b: Option<Seq<u8>>) -> bool {
    b matches Some(p) ==> p.len() > 0
}

/// The base configuration directory as a path: the user's, or `~/.config`.
pub open spec fn config_base(base: Option<Seq<u8>>) -> Seq<u8> {
    base_or(base, text_bytes("~/.config"@))
}

/// The base cache directory as a path: the user's, or `~/.cache`.
pub open spec fn cache_base(base: Option<Seq<u8>>) -> Seq<u8> {
    base_or(base, text_bytes("~/.cache"@))
}

proof fn lemma_fallback_not_empty(t: &str)
    requires
        t@.len() > 0,
    ensures
        text_bytes(t@).len() > 0,
{
}

/// The configuration directory of the user, or `~/.config`.
pub fn user_config_base() -> (r: Vec<u8>)
    ensures
        exists|b: Option<Seq<u8>>| usable_base(b) && r@ == config_base(b),
        r@.len() > 0,
{
    let b = user_config_dir();
    let ghost gb = opt_view(b);
    let r = config_base_from(b, "~/.config");
    assert(r@ == config_base(gb));
    proof {
        reveal_strlit("~/.config");
        lemma_fallback_not_empty("~/.config");
    }
    r
}

/// The cache directory of the user, or `~/.cache`.
pub fn user_cache_base() -> (r: Vec<u8>)
    ensures
        exists|b: Option<Seq<u8>>| usable_base(b) && r@ == cache_base(b),
        r@.len() > 0,
{
    let b = user_cache_dir();
    let ghost gb = opt_view(b);
    let r = config_base_from(b, "~/.cache");
    assert(r@ == cache_base(gb));
    proof {
        reveal_strlit("~/.cache");
        lemma_fallback_not_empty("~/.cache");
    }
    r
}

/// Where an application's settings files live.
#[derive(Debug, Clone)]
pub struct ConfigManager {
    app_name: String,
}

impl View for ConfigManager {
    type V = Seq<char>;

    /// The application's name.
    closed spec fn view(&self) -> Seq<char> {
        self.app_name@
    }
}

impl ConfigManager {
    pub fn new(app_name: &str) -> (r: Self)
        ensures
            r@ == app_name@,
    {
        ConfigManager { app_name: app_name.to_owned() }
    }

    /// The configuration directory of the application under the base directory `base`.
    pub fn config_dir_under(&self, base: &[u8]) -> (r: Vec<u8>)
        ensures
            r@ == path_join(base@, text_bytes(self@)),
    {
        join_path(base, self.app_name.as_str().as_bytes())
    }

    /// The configuration directory of the application.
    pub fn config_dir(&self) -> (r: Vec<u8>)
        ensures
            exists|b: Option<Seq<u8>>|
                usable_base(b) && r@ == path_join(config_base(b), text_bytes(self@)),
    {
        let base = user_config_base();
        self.config_dir_under(base.as_slice())
    }

    /// The display settings file.
    pub fn settings_path(&self) -> (r: Vec<u8>)
        ensures
            exists|b: Option<Seq<u8>>|
                usable_base(b) && r@ == path_join(
                    path_join(config_base(b), text_bytes(self@)),
                    text_bytes("settings.json"@),
                ),
    {
        let dir = self.config_dir();
        join_path(dir.as_slice(), "settings.json".as_bytes())
    }
}

/// The settings of this application.
pub fn config_manager() -> (r: ConfigManager)
    ensures
        r@ == APP_NAME@,
{
    ConfigManager::new(APP_NAME)
}

/// The application's configuration directory.
pub fn config_dir() -> (r: Vec<u8>)
    ensures
        exists|b: Option<Seq<u8>>|
            usable_base(b) && r@ == path_join(config_base(b), text_bytes(APP_NAME@)),
{
    config_manager().config_dir()
}

/// The display settings file.
pub fn settings_path() -> (r: Vec<u8>)
    ensures
        exists|b: Option<Seq<u8>>|
            usable_base(b) && r@ == path_join(
                path_join(config_base(b), text_bytes(APP_NAME@)),
                text_bytes("settings.json"@),
            ),
{
    config_manager().settings_path()
}

/// The file of configured authors.
pub fn authors_path() -> (r: Vec<u8>)
    ensures
        exists|b: Option<Seq<u8>>|
            usable_base(b) && r@ == path_join(
                path_join(config_base(b), text_bytes(APP_NAME@)),
                text_bytes("authors.json"@),
            ),
{
    let dir = config_dir();
    join_path(dir.as_slice(), "authors.json".as_bytes())
}

/// The directory of stored quote pools.
pub fn quote_pool_dir() -> (r: Vec<u8>)
    ensures
        exists|b: Option<Seq<u8>>|
            usable_base(b) && r@ == path_join(
                path_join(config_base(b), text_bytes(APP_NAME@)),
                text_bytes("pools"@),
            ),
{
    let dir = config_dir();
    join_path(dir.as_slice(), "pools".as_bytes())
}

/// The application's cache directory.
pub fn cache_dir() -> (r: Vec<u8>)
    ensures
        exists|b: Option<Seq<u8>>|
            usable_base(b) && r@ == path_join(cache_base(b), text_bytes(APP_NAME@)),
{
    let base = user_cache_base();
    join_path(base.as_slice(), APP_NAME.as_bytes())
}

/// The file that holds the current quote.
pub fn cache_file_path() -> (r: Vec<u8>)
    ensures
        exists|b: Option<Seq<u8>>|
            usable_base(b) && r@ == path_join(
                path_join(cache_base(b), text_bytes(APP_NAME@)),
                text_bytes("current_quote.txt"@),
            ),
{
    let dir = cache_dir();
    join_path(dir.as_slice(), "current_quote.txt".as_bytes())
}

/// The drop-in file that can override the quote timer's schedule.
pub fn fetch_timer_override_path() -> (r: Vec<u8>)
    ensures
        exists|b: Option<Seq<u8>>|
            usable_base(b) && r@ == path_join(
                config_base(b),
                text_bytes("systemd/user/marxist-quote-fetch.timer.d/override.conf"@),
            ),
{
    let base = user_config_base();
    join_path(base.as_slice(), "systemd/user/marxist-quote-fetch.timer.d/override.conf".as_bytes())
}

/// In one settings directory, the authors file and the display settings file are two
/// different files.
pub proof fn lemma_settings_files_differ(dir: Seq<u8>)
    ensures
        path_join(dir, text_bytes("authors.json"@)) != path_join(dir, text_bytes("settings.json"@)),
{
    reveal_strlit("authors.json");
    reveal_strlit("settings.json");
    let a = "authors.json"@;
    let b = "settings.json"@;
    assert(vstd::utf8::is_ascii_chars(a));
    assert(vstd::utf8::is_ascii_chars(b));
    vstd::utf8::is_ascii_chars_encode_utf8(a);
    vstd::utf8::is_ascii_chars_encode_utf8(b);
    assert(text_bytes(a).len() == 12 && text_bytes(b).len() == 13);
    assert(text_bytes(a)[0] == 97 && text_bytes(b)[0] == 115);
    assert(path_join(dir, text_bytes(a)).len() + 1 == path_join(dir, text_bytes(b)).len());
}

/// The text whose digest identifies a quote box layout: font, font size, and the box's
/// width and height, separated by `:`.
pub open spec fn position_key_text(
    font: Seq<char>,
    font_size_text: Seq<char>,
    quote_max_width: i32,
    quote_max_height: i32,
) -> Seq<char> {
    font + ":"@ + font_size_text + ":"@ + int_text(quote_max_width as int) + ":"@ + int_text(
        quote_max_height as int,
    )
}

/// The digest that identifies a quote box layout; `font_size_text` is the font size
/// as `Display` writes it. The quotes that fit were chosen for this layout.
pub fn position_hash_of(
    font: &str,
    font_size_text: &str,
    quote_max_width: i32,
    quote_max_height: i32,
) -> (r: String)
    ensures
        r@ == sha1_hex_of(
            position_key_text(font@, font_size_text@, quote_max_width, quote_max_height),
        ),
        r@.len() == 40,
{
    let mut key = chars_of(font);
    append_str(&mut key, ":");
    append_str(&mut key, font_size_text);
    append_str(&mut key, ":");
    let w = i32_text(quote_max_width);
    append_vec(&mut key, &w);
    append_str(&mut key, ":");
    let h = i32_text(quote_max_height);
    append_vec(&mut key, &h);
    let text = string_from_chars(key);
    string_from_chars(sha1_hex(text.as_str()))
}

} // verus!
