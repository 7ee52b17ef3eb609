//! The settings editor: what each change made in the settings window does to the
//! settings and the authors, and what the window does next.

use vstd::prelude::*;
use crate::authors::{author_entries, new_author_entry, AuthorsConfig};
use crate::color::{
    color_channels_spec, color_channels_split_cleanly, color_text_spec, is_color_input, with_alpha,
};
use crate::config::{
    default_bg_fill, default_bg_rounded, default_language, default_max_quote_chars,
    default_quote_max_height, default_quote_max_width, position_hash_of, position_key_text,
    HorizontalAlign, VerticalAlign,
};
use crate::digest::sha1_hex_of;
use crate::text::{chars_of, same_chars, string_of};

verus! {

/// The display settings that the editor changes, but for the sizes in points (font size,
/// stroke width, shadow offset, blur and size), which the window keeps beside them.
pub struct StyleSettings {
    pub font: String,
    pub language: String,
    pub text_color: String,
    pub bg_color: String,
    pub bg_enabled: bool,
    pub bg_rounded: bool,
    pub bg_fill: bool,
    pub stroke_color: String,
    pub stroke_enabled: bool,
    pub shadow_color: String,
    pub shadow_enabled: bool,
    pub quote_h_align: HorizontalAlign,
    pub quote_v_align: VerticalAlign,
    pub author_h_align: HorizontalAlign,
    pub author_v_align: VerticalAlign,
    pub quote_x: i32,
    pub quote_y: i32,
    pub author_x: i32,
    pub author_y: i32,
    pub quote_max_width: i32,
    pub quote_max_height: i32,
    pub max_quote_chars: usize,
    pub position_hash: String,
}

/// The settings as plain values.
pub struct StyleView {
    pub font: Seq<char>,
    pub language: Seq<char>,
    pub text_color: Seq<char>,
    pub bg_color: Seq<char>,
    pub bg_enabled: bool,
    pub bg_rounded: bool,
    pub bg_fill: bool,
    pub stroke_color: Seq<char>,
    pub stroke_enabled: bool,
    pub shadow_color: Seq<char>,
    pub shadow_enabled: bool,
    pub quote_h_align: HorizontalAlign,
    pub quote_v_align: VerticalAlign,
    pub author_h_align: HorizontalAlign,
    pub author_v_align: VerticalAlign,
    pub quote_x: i32,
    pub quote_y: i32,
    pub author_x: i32,
    pub author_y: i32,
    pub quote_max_width: i32,
    pub quote_max_height: i32,
    pub max_quote_chars: usize,
    pub position_hash: Seq<char>,
}

impl View for StyleSettings {
    type V = StyleView;

    open spec fn view(&self) -> StyleView {
        StyleView {
            font: self.font@,
            language: self.language@,
            text_color: self.text_color@,
            bg_color: self.bg_color@,
            bg_enabled: self.bg_enabled,
            bg_rounded: self.bg_rounded,
            bg_fill: self.bg_fill,
            stroke_color: self.stroke_color@,
            stroke_enabled: self.stroke_enabled,
            shadow_color: self.shadow_color@,
            shadow_enabled: self.shadow_enabled,
            quote_h_align: self.quote_h_align,
            quote_v_align: self.quote_v_align,
            author_h_align: self.author_h_align,
            author_v_align: self.author_v_align,
            quote_x: self.quote_x,
            quote_y: self.quote_y,
            author_x: self.author_x,
            author_y: self.author_y,
            quote_max_width: self.quote_max_width,
            quote_max_height: self.quote_max_height,
            max_quote_chars: self.max_quote_chars,
            position_hash: self.position_hash@,
        }
    }
}

/// The settings before the user changes any.
pub open spec fn default_style() -> StyleView {
    StyleView {
        font: "Inter"@,
        language: "ORIGINAL"@,
        text_color: "#ffffff"@,
        bg_color: "#811309ff"@,
        bg_enabled: true,
        bg_rounded: true,
        bg_fill: false,
        stroke_color: "#000000"@,
        stroke_enabled: false,
        shadow_color: "#000000ff"@,
        shadow_enabled: false,
        quote_h_align: HorizontalAlign::Center,
        quote_v_align: VerticalAlign::Bottom,
        author_h_align: HorizontalAlign::Right,
        author_v_align: VerticalAlign::Top,
        quote_x: 210,
        quote_y: 614,
        author_x: 1342,
        author_y: 966,
        quote_max_width: 1499,
        quote_max_height: 315,
        max_quote_chars: 581,
        position_hash: "c1d49957c3456882f562c324ad89bb1ab63fd360"@,
    }
}

impl Default for StyleSettings {
    fn default() -> (r: Self)
        ensures
            r@ == default_style(),
    {
        StyleSettings {
            font: string_of("Inter"),
            language: default_language(),
            text_color: string_of("#ffffff"),
            bg_color: string_of("#811309ff"),
            bg_enabled: true,
            bg_rounded: default_bg_rounded(),
            bg_fill: default_bg_fill(),
            stroke_color: string_of("#000000"),
            stroke_enabled: false,
            shadow_color: string_of("#000000ff"),
            shadow_enabled: false,
            quote_h_align: HorizontalAlign::Center,
            quote_v_align: VerticalAlign::Bottom,
            author_h_align: HorizontalAlign::Right,
            author_v_align: VerticalAlign::Top,
            quote_x: 210,
            quote_y: 614,
            author_x: 1342,
            author_y: 966,
            quote_max_width: default_quote_max_width(),
            quote_max_height: default_quote_max_height(),
            max_quote_chars: default_max_quote_chars(),
            position_hash: string_of("c1d49957c3456882f562c324ad89bb1ab63fd360"),
        }
    }
}

/// A change made in the settings window. An opacity is given as the alpha channel
/// (0 to 255) that it stands for.
pub enum EditorInput {
    UpdateFont(String),
    UpdateLanguage(String),
    UpdateTextColor(String),
    UpdateBgColor(String),
    UpdateBgOpacity(u8),
    UpdateBgEnabled(bool),
    UpdateBgRounded(bool),
    UpdateBgFill(bool),
    UpdateStrokeColor(String),
    UpdateStrokeOpacity(u8),
    UpdateStrokeEnabled(bool),
    UpdateShadowColor(String),
    UpdateShadowEnabled(bool),
    UpdateShadowOpacity(u8),
    UpdateQuoteHAlign(HorizontalAlign),
    UpdateQuoteVAlign(VerticalAlign),
    UpdateAuthorHAlign(HorizontalAlign),
    UpdateAuthorName(usize, String),
    UpdateAuthorWeight(usize, u32),
    AddAuthor,
    RemoveAuthor(usize),
    DismissAuthorNote,
    /// Save and apply: `saved` is what the settings file holds now, and
    /// `font_size_text` the current font size as `Display` writes it.
    Save { saved: StyleSettings, font_size_text: String },
    ShowInteractivePicker,
    FetchQuoteNow,
    SkipQuote,
}

/// What the window does after a change.
#[derive(Debug, Clone, Copy, PartialEq, Eq, Structural)]
pub enum EditorAction {
    /// Nothing beyond the change itself.
    Nothing,
    /// Writes the authors file.
    SaveAuthors,
    /// Writes both settings files, then, in the background, fetches a quote when the
    /// language changed or no quote is cached, and restarts the desktop display.
    SaveAll { language_changed: bool },
    /// Opens the placement editor with the current settings.
    LaunchPicker,
    /// Fetches a new quote in the background and restarts the desktop display.
    FetchQuote,
}

/// A color accepted from a text entry: not empty and starting with `#`.
pub open spec fn color_input_spec(v: Seq<char>) -> bool {
    v.len() > 0 && v[0] == '#'
}

/// `color` with its alpha channel replaced by `alpha`.
#[verifier::opaque]
pub open spec fn with_alpha_spec(color: Seq<char>, alpha: u8) -> Seq<char> {
    let (r, g, b, _) = color_channels_spec(vstd::utf8::encode_utf8(color));
    color_text_spec(r, g, b, alpha)
}

/// The settings after a change.
pub open spec fn style_after(s: StyleView, input: EditorInput) -> StyleView {
    match input {
        EditorInput::UpdateFont(v) => if v@.len() > 0 {
            StyleView { font: v@, ..s }
        } else {
            s
        },
        EditorInput::UpdateLanguage(v) => StyleView { language: v@, ..s },
        EditorInput::UpdateTextColor(v) => if color_input_spec(v@) {
            StyleView { text_color: v@, ..s }
        } else {
            s
        },
        EditorInput::UpdateBgColor(v) => if color_input_spec(v@) {
            StyleView { bg_color: v@, ..s }
        } else {
            s
        },
        EditorInput::UpdateBgOpacity(a) => StyleView { bg_color: with_alpha_spec(s.bg_color, a), ..s },
        EditorInput::UpdateBgEnabled(b) => StyleView { bg_enabled: b, ..s },
        EditorInput::UpdateBgRounded(b) => StyleView { bg_rounded: b, ..s },
        EditorInput::UpdateBgFill(b) => StyleView { bg_fill: b, ..s },
        EditorInput::UpdateStrokeColor(v) => if color_input_spec(v@) {
            StyleView { stroke_color: v@, ..s }
        } else {
            s
        },
        EditorInput::UpdateStrokeOpacity(a) => StyleView {
            stroke_color: with_alpha_spec(s.stroke_color, a),
            ..s
        },
        EditorInput::UpdateStrokeEnabled(b) => StyleView { stroke_enabled: b, ..s },
        EditorInput::UpdateShadowColor(v) => if color_input_spec(v@) {
            StyleView { shadow_color: v@, ..s }
        } else {
            s
        },
        EditorInput::UpdateShadowEnabled(b) => StyleView { shadow_enabled: b, ..s },
        EditorInput::UpdateShadowOpacity(a) => StyleView {
            shadow_color: with_alpha_spec(s.shadow_color, a),
            ..s
        },
        EditorInput::UpdateQuoteHAlign(h) => StyleView { quote_h_align: h, ..s },
        EditorInput::UpdateQuoteVAlign(v) => StyleView { quote_v_align: v, ..s },
        EditorInput::UpdateAuthorHAlign(h) => StyleView { author_h_align: h, ..s },
        EditorInput::Save { saved, font_size_text } => StyleView {
            quote_x: saved.quote_x,
            quote_y: saved.quote_y,
            author_x: saved.author_x,
            author_y: saved.author_y,
            quote_max_width: saved.quote_max_width,
            quote_max_height: saved.quote_max_height,
            max_quote_chars: saved.max_quote_chars,
            position_hash: sha1_hex_of(
                position_key_text(
                    s.font,
                    font_size_text@,
                    saved.quote_max_width,
                    saved.quote_max_height,
                ),
            ),
            ..s
        },
        _ => s,
    }
}

/// The authors, as names and weights, after a change.
pub open spec fn entries_after(es: Seq<(Seq<char>, u32)>, input: EditorInput) -> Seq<
    (Seq<char>, u32),
> {
    match input {
        EditorInput::UpdateAuthorName(i, name) => if i < es.len() {
            es.update(i as int, (name@, es[i as int].1))
        } else {
            es
        },
        EditorInput::UpdateAuthorWeight(i, w) => if i < es.len() {
            es.update(i as int, (es[i as int].0, w))
        } else {
            es
        },
        EditorInput::AddAuthor => es.push(new_author_entry()),
        EditorInput::RemoveAuthor(i) => if i < es.len() {
            es.remove(i as int)
        } else {
            es
        },
        _ => es,
    }
}

/// Whether the note about weights is shown after a change.
pub open spec fn note_after(note: bool, input: EditorInput) -> bool {
    match input {
        EditorInput::DismissAuthorNote => false,
        _ => note,
    }
}

/// What the window does after a change.
pub open spec fn action_of(s: StyleView, input: EditorInput) -> EditorAction {
    match input {
        EditorInput::DismissAuthorNote => EditorAction::SaveAuthors,
        EditorInput::Save { saved, font_size_text } => EditorAction::SaveAll {
            language_changed: saved.language@ != s.language,
        },
        EditorInput::ShowInteractivePicker => EditorAction::LaunchPicker,
        EditorInput::FetchQuoteNow | EditorInput::SkipQuote => EditorAction::FetchQuote,
        _ => EditorAction::Nothing,
    }
}

/// A change of opacity reads the color it changes; its channels must split at
/// character boundaries.
pub open spec fn input_in_range(s: StyleView, input: EditorInput) -> bool {
    match input {
        EditorInput::UpdateBgOpacity(_) => color_channels_split_cleanly(
            vstd::utf8::encode_utf8(s.bg_color),
        ),
        EditorInput::UpdateStrokeOpacity(_) => color_channels_split_cleanly(
            vstd::utf8::encode_utf8(s.stroke_color),
        ),
        EditorInput::UpdateShadowOpacity(_) => color_channels_split_cleanly(
            vstd::utf8::encode_utf8(s.shadow_color),
        ),
        _ => true,
    }
}

/// Changes that touch neither the authors nor the layout.
pub open spec fn is_style_input(input: EditorInput) -> bool {
    match input {
        EditorInput::UpdateAuthorName(_, _) | EditorInput::UpdateAuthorWeight(_, _)
        | EditorInput::AddAuthor | EditorInput::RemoveAuthor(_) | EditorInput::DismissAuthorNote
        | EditorInput::Save { .. } | EditorInput::ShowInteractivePicker
        | EditorInput::FetchQuoteNow | EditorInput::SkipQuote => false,
        _ => true,
    }
}

/// Whether a change is one of the font, the language or a color.
fn is_text_change(input: &EditorInput) -> (r: bool)
    ensures
        r == is_text_input(*input),
{
    match input {
        EditorInput::UpdateFont(_) | EditorInput::UpdateLanguage(_)
        | EditorInput::UpdateTextColor(_) | EditorInput::UpdateBgColor(_)
        | EditorInput::UpdateStrokeColor(_) | EditorInput::UpdateShadowColor(_)
        | EditorInput::UpdateBgOpacity(_) | EditorInput::UpdateStrokeOpacity(_)
        | EditorInput::UpdateShadowOpacity(_) => true,
        _ => false,
    }
}

/// Replaces a color by `v` when `v` reads as a color.
fn set_color(color: &mut String, v: String)
    ensures
        final(color)@ == if color_input_spec(v@) { v@ } else { old(color)@ },
{
    if is_color_input(v.as_str()) {
        *color = v;
    }
}

/// Replaces the alpha channel of a color.
fn set_alpha(color: &mut String, a: u8)
    requires
        color_channels_split_cleanly(vstd::utf8::encode_utf8(old(color)@)),
    ensures
        final(color)@ == with_alpha_spec(old(color)@, a),
{
    proof {
        reveal(with_alpha_spec);
    }
    *color = with_alpha(color.as_str(), a);
}

/// Changes of the font, the language or a color.
pub open spec fn is_text_input(input: EditorInput) -> bool {
    match input {
        EditorInput::UpdateFont(_) | EditorInput::UpdateLanguage(_)
        | EditorInput::UpdateTextColor(_) | EditorInput::UpdateBgColor(_)
        | EditorInput::UpdateStrokeColor(_) | EditorInput::UpdateShadowColor(_)
        | EditorInput::UpdateBgOpacity(_) | EditorInput::UpdateStrokeOpacity(_)
        | EditorInput::UpdateShadowOpacity(_) => true,
        _ => false,
    }
}

/// Applies a change of the font, the language or a color.
fn update_text(style: &mut StyleSettings, input: EditorInput)
    requires
        is_text_input(input),
        input_in_range(old(style)@, input),
    ensures
        final(style)@ == style_after(old(style)@, input),
{
    match input {
        EditorInput::UpdateFont(v) => {
            if v.as_str().unicode_len() > 0 {
                style.font = v;
            }
        },
        EditorInput::UpdateLanguage(v) => style.language = v,
        EditorInput::UpdateTextColor(v) => set_color(&mut style.text_color, v),
        EditorInput::UpdateBgColor(v) => set_color(&mut style.bg_color, v),
        EditorInput::UpdateStrokeColor(v) => set_color(&mut style.stroke_color, v),
        EditorInput::UpdateShadowColor(v) => set_color(&mut style.shadow_color, v),
        EditorInput::UpdateBgOpacity(a) => set_alpha(&mut style.bg_color, a),
        EditorInput::UpdateStrokeOpacity(a) => set_alpha(&mut style.stroke_color, a),
        EditorInput::UpdateShadowOpacity(a) => set_alpha(&mut style.shadow_color, a),
        _ => {},
    }
}

/// Applies a change of a toggle or an alignment.
fn update_flags(style: &mut StyleSettings, input: EditorInput)
    requires
        is_style_input(input),
        !is_text_input(input),
    ensures
        final(style)@ == style_after(old(style)@, input),
{
    match input {
        EditorInput::UpdateBgEnabled(b) => style.bg_enabled = b,
        EditorInput::UpdateBgRounded(b) => style.bg_rounded = b,
        EditorInput::UpdateBgFill(b) => style.bg_fill = b,
        EditorInput::UpdateStrokeEnabled(b) => style.stroke_enabled = b,
        EditorInput::UpdateShadowEnabled(b) => style.shadow_enabled = b,
        EditorInput::UpdateQuoteHAlign(h) => style.quote_h_align = h,
        EditorInput::UpdateQuoteVAlign(v) => style.quote_v_align = v,
        EditorInput::UpdateAuthorHAlign(h) => style.author_h_align = h,
        _ => {},
    }
}

/// Takes the layout from the saved settings and names it with the current font.
fn take_saved_layout(style: &mut StyleSettings, saved: &StyleSettings, font_size_text: &str)
    ensures
        final(style)@ == (StyleView {
            quote_x: saved.quote_x,
            quote_y: saved.quote_y,
            author_x: saved.author_x,
            author_y: saved.author_y,
            quote_max_width: saved.quote_max_width,
            quote_max_height: saved.quote_max_height,
            max_quote_chars: saved.max_quote_chars,
            position_hash: sha1_hex_of(
                position_key_text(
                    old(style).font@,
                    font_size_text@,
                    saved.quote_max_width,
                    saved.quote_max_height,
                ),
            ),
            ..old(style)@
        }),
{
    style.quote_x = saved.quote_x;
    style.quote_y = saved.quote_y;
    style.author_x = saved.author_x;
    style.author_y = saved.author_y;
    style.quote_max_width = saved.quote_max_width;
    style.quote_max_height = saved.quote_max_height;
    style.max_quote_chars = saved.max_quote_chars;
    style.position_hash = position_hash_of(
        style.font.as_str(),
        font_size_text,
        saved.quote_max_width,
        saved.quote_max_height,
    );
}

/// Saves a placement: the quote limit becomes the number of characters that fit the
/// box, and the layout hash names the box with the current font (`font_size_text` is the
/// font size as `Display` writes it).
pub fn commit_placement(style: &mut StyleSettings, capacity_chars: usize, font_size_text: &str)
    ensures
        final(style)@ == (StyleView {
            max_quote_chars: capacity_chars,
            position_hash: sha1_hex_of(
                position_key_text(
                    old(style).font@,
                    font_size_text@,
                    old(style).quote_max_width,
                    old(style).quote_max_height,
                ),
            ),
            ..old(style)@
        }),
        records_own_layout(final(style)@, font_size_text@),
{
    style.max_quote_chars = capacity_chars;
    style.position_hash = position_hash_of(
        style.font.as_str(),
        font_size_text,
        style.quote_max_width,
        style.quote_max_height,
    );
}

/// The layout hash that the settings record names their own font (at the size written
/// `font_size_text`) and their own quote box.
pub open spec fn records_own_layout(s: StyleView, font_size_text: Seq<char>) -> bool {
    s.position_hash == sha1_hex_of(
        position_key_text(s.font, font_size_text, s.quote_max_width, s.quote_max_height),
    )
}

/// Saving records the layout hash of the settings as saved: the font being edited and
/// the box size from the settings file. Another font gives another key, so a change of
/// font alone changes what is hashed.
pub proof fn lemma_save_records_own_layout(s: StyleView, saved: StyleSettings, font_size_text: String)
    ensures
        records_own_layout(
            style_after(s, EditorInput::Save { saved, font_size_text }),
            font_size_text@,
        ),
        style_after(s, EditorInput::Save { saved, font_size_text }).font == s.font,
        style_after(s, EditorInput::Save { saved, font_size_text }).quote_max_width
            == saved.quote_max_width,
        style_after(s, EditorInput::Save { saved, font_size_text }).quote_max_height
            == saved.quote_max_height,
{
}

/// Two fonts give two layout keys, whatever the size and the box.
pub proof fn lemma_key_tells_font(
    f1: Seq<char>,
    f2: Seq<char>,
    font_size_text: Seq<char>,
    w: i32,
    h: i32,
)
    requires
        f1 != f2,
    ensures
        position_key_text(f1, font_size_text, w, h) != position_key_text(f2, font_size_text, w, h),
{
    let rest = ":"@ + font_size_text + ":"@ + crate::text::int_text(w as int) + ":"@
        + crate::text::int_text(h as int);
    assert(position_key_text(f1, font_size_text, w, h) =~= f1 + rest);
    assert(position_key_text(f2, font_size_text, w, h) =~= f2 + rest);
    if f1 + rest == f2 + rest {
        assert(f1.len() == f2.len());
        assert(f1 =~= (f1 + rest).take(f1.len() as int));
        assert(f2 =~= (f2 + rest).take(f2.len() as int));
    }
}

/// The state of the settings window: the authors and the settings being edited.
pub struct SettingsEditor {
    pub authors: AuthorsConfig,
    pub style: StyleSettings,
}

impl SettingsEditor {
    /// Applies a change made in the window and says what the window does next.
    pub fn update(&mut self, input: EditorInput) -> (action: EditorAction)
        requires
            input_in_range(old(self).style@, input),
        ensures
            final(self).style@ == style_after(old(self).style@, input),
            author_entries(final(self).authors.authors@) == entries_after(
                author_entries(old(self).authors.authors@),
                input,
            ),
            final(self).authors.show_weight_note == note_after(
                old(self).authors.show_weight_note,
                input,
            ),
            action == action_of(old(self).style@, input),
            input matches EditorInput::Save { saved, font_size_text } ==> records_own_layout(
                final(self).style@,
                font_size_text@,
            ),
    {
        match input {
            EditorInput::UpdateAuthorName(i, name) => {
                self.authors.set_author_name(i, name);
                EditorAction::Nothing
            },
            EditorInput::UpdateAuthorWeight(i, w) => {
                self.authors.set_author_weight(i, w);
                EditorAction::Nothing
            },
            EditorInput::AddAuthor => {
                self.authors.add_author();
                EditorAction::Nothing
            },
            EditorInput::RemoveAuthor(i) => {
                self.authors.remove_author(i);
                EditorAction::Nothing
            },
            EditorInput::DismissAuthorNote => {
                self.authors.dismiss_weight_note();
                EditorAction::SaveAuthors
            },
            EditorInput::Save { saved, font_size_text } => {
                let now = chars_of(self.style.language.as_str());
                let before = chars_of(saved.language.as_str());
                let language_changed = !same_chars(&before, &now);
                take_saved_layout(&mut self.style, &saved, font_size_text.as_str());
                EditorAction::SaveAll { language_changed }
            },
            EditorInput::ShowInteractivePicker => EditorAction::LaunchPicker,
            EditorInput::FetchQuoteNow => EditorAction::FetchQuote,
            EditorInput::SkipQuote => EditorAction::FetchQuote,
            other => {
                if is_text_change(&other) {
                    update_text(&mut self.style, other);
                } else {
                    update_flags(&mut self.style, other);
                }
                EditorAction::Nothing
            },
        }
    }
}

/// Every color in the settings is marked with a leading `#`.
pub open spec fn colors_marked(s: StyleView) -> bool {
    &&& color_input_spec(s.text_color)
    &&& color_input_spec(s.bg_color)
    &&& color_input_spec(s.stroke_color)
    &&& color_input_spec(s.shadow_color)
}

/// No change made in the window unmarks a color or empties the font name: a color is
/// only replaced by one that starts with `#`, and a font only by a name.
pub proof fn lemma_update_keeps_settings_marked(s: StyleView, input: EditorInput)
    requires
        colors_marked(s),
        s.font.len() > 0,
    ensures
        colors_marked(style_after(s, input)),
        style_after(s, input).font.len() > 0,
{
    match input {
        EditorInput::UpdateBgOpacity(a) => {
            reveal(with_alpha_spec);
            let (r, g, b, _) = color_channels_spec(vstd::utf8::encode_utf8(s.bg_color));
            assert(color_text_spec(r, g, b, a)[0] == '#');
        },
        EditorInput::UpdateStrokeOpacity(a) => {
            reveal(with_alpha_spec);
            let (r, g, b, _) = color_channels_spec(vstd::utf8::encode_utf8(s.stroke_color));
            assert(color_text_spec(r, g, b, a)[0] == '#');
        },
        EditorInput::UpdateShadowOpacity(a) => {
            reveal(with_alpha_spec);
            let (r, g, b, _) = color_channels_spec(vstd::utf8::encode_utf8(s.shadow_color));
            assert(color_text_spec(r, g, b, a)[0] == '#');
        },
        _ => {},
    }
}

/// The settings start out with every color marked and a font named.
pub proof fn lemma_default_style_marked()
    ensures
        colors_marked(default_style()),
        default_style().font.len() > 0,
{
    reveal_strlit("Inter");
    reveal_strlit("#ffffff");
    reveal_strlit("#811309ff");
    reveal_strlit("#000000");
    reveal_strlit("#000000ff");
}

/// The languages a quote can be shown in: an identifier and its name.
pub open spec fn language_table() -> Seq<(Seq<char>, Seq<char>)> {
    seq![
        ("ORIGINAL"@, "Original"@),
        ("DE"@, "German"@),
        ("FR"@, "French"@),
        ("ES"@, "Spanish"@),
        ("IT"@, "Italian"@),
        ("PT"@, "Portuguese"@),
        ("NL"@, "Dutch"@),
        ("PL"@, "Polish"@),
        ("RU"@, "Russian"@),
        ("TR"@, "Turkish"@),
        ("UK"@, "Ukrainian"@),
    ]
}

/// The language choices of the settings window, in the order they are listed.
pub fn language_options() -> (r: Vec<(&'static str, &'static str)>)
    ensures
        r@.map_values(|p: (&'static str, &'static str)| (p.0@, p.1@)) == language_table(),
{
    let r = vec![
        ("ORIGINAL", "Original"),
        ("DE", "German"),
        ("FR", "French"),
        ("ES", "Spanish"),
        ("IT", "Italian"),
        ("PT", "Portuguese"),
        ("NL", "Dutch"),
        ("PL", "Polish"),
        ("RU", "Russian"),
        ("TR", "Turkish"),
        ("UK", "Ukrainian"),
    ];
    assert(r@.map_values(|p: (&'static str, &'static str)| (p.0@, p.1@)) =~= language_table());
    r
}

} // verus!
