use muote::authors::AuthorsConfig;
use muote::config::{position_hash_of, HorizontalAlign, VerticalAlign};
use muote::editor::{EditorAction, EditorInput, SettingsEditor, StyleSettings};

fn style() -> StyleSettings {
    StyleSettings {
        font: "Inter".to_string(),
        language: "ORIGINAL".to_string(),
        text_color: "#ffffff".to_string(),
        bg_color: "#811309ff".to_string(),
        bg_enabled: true,
        bg_rounded: true,
        bg_fill: false,
        stroke_color: "#000000".to_string(),
        stroke_enabled: false,
        shadow_color: "#000000ff".to_string(),
        shadow_enabled: false,
        quote_h_align: HorizontalAlign::Center,
        quote_v_align: VerticalAlign::Bottom,
        author_h_align: HorizontalAlign::Right,
        author_v_align: VerticalAlign::Top,
        quote_x: 210,
        quote_y: 614,
        author_x: 1342,
        author_y: 966,
        quote_max_width: 1499,
        quote_max_height: 315,
        max_quote_chars: 581,
        position_hash: "c1d49957c3456882f562c324ad89bb1ab63fd360".to_string(),
    }
}

fn editor() -> SettingsEditor {
    SettingsEditor { authors: AuthorsConfig::default(), style: style() }
}

#[test]
fn empty_font_is_ignored() {
    let mut e = editor();
    assert_eq!(e.update(EditorInput::UpdateFont(String::new())), EditorAction::Nothing);
    assert_eq!(e.style.font, "Inter");
    e.update(EditorInput::UpdateFont("Noto Serif".to_string()));
    assert_eq!(e.style.font, "Noto Serif");
}

#[test]
fn colors_need_a_hash_mark() {
    let mut e = editor();
    e.update(EditorInput::UpdateTextColor("ff0000".to_string()));
    assert_eq!(e.style.text_color, "#ffffff");
    e.update(EditorInput::UpdateTextColor(String::new()));
    assert_eq!(e.style.text_color, "#ffffff");
    e.update(EditorInput::UpdateTextColor("#ff0000".to_string()));
    assert_eq!(e.style.text_color, "#ff0000");
    e.update(EditorInput::UpdateBgColor("#12345678".to_string()));
    e.update(EditorInput::UpdateStrokeColor("#abcdef".to_string()));
    e.update(EditorInput::UpdateShadowColor("nope".to_string()));
    assert_eq!(e.style.bg_color, "#12345678");
    assert_eq!(e.style.stroke_color, "#abcdef");
    assert_eq!(e.style.shadow_color, "#000000ff");
}

#[test]
fn opacity_replaces_the_alpha_channel() {
    let mut e = editor();
    e.update(EditorInput::UpdateBgOpacity(128));
    assert_eq!(e.style.bg_color, "#81130980");
    e.update(EditorInput::UpdateStrokeOpacity(255));
    assert_eq!(e.style.stroke_color, "#000000ff");
    e.update(EditorInput::UpdateShadowOpacity(0));
    assert_eq!(e.style.shadow_color, "#00000000");
}

#[test]
fn toggles_and_alignments_are_set() {
    let mut e = editor();
    e.update(EditorInput::UpdateBgEnabled(false));
    e.update(EditorInput::UpdateBgRounded(false));
    e.update(EditorInput::UpdateBgFill(true));
    e.update(EditorInput::UpdateStrokeEnabled(true));
    e.update(EditorInput::UpdateShadowEnabled(true));
    e.update(EditorInput::UpdateQuoteHAlign(HorizontalAlign::Left));
    e.update(EditorInput::UpdateQuoteVAlign(VerticalAlign::Center));
    e.update(EditorInput::UpdateAuthorHAlign(HorizontalAlign::Center));
    e.update(EditorInput::UpdateLanguage("DE".to_string()));
    assert!(!e.style.bg_enabled && !e.style.bg_rounded && e.style.bg_fill);
    assert!(e.style.stroke_enabled && e.style.shadow_enabled);
    assert_eq!(e.style.quote_h_align, HorizontalAlign::Left);
    assert_eq!(e.style.quote_v_align, VerticalAlign::Center);
    assert_eq!(e.style.author_h_align, HorizontalAlign::Center);
    assert_eq!(e.style.author_v_align, VerticalAlign::Top);
    assert_eq!(e.style.language, "DE");
}

#[test]
fn author_changes_and_note() {
    let mut e = editor();
    e.update(EditorInput::AddAuthor);
    e.update(EditorInput::UpdateAuthorName(3, "Rosa Luxemburg".to_string()));
    e.update(EditorInput::UpdateAuthorWeight(3, 4));
    e.update(EditorInput::UpdateAuthorWeight(9, 4));
    e.update(EditorInput::RemoveAuthor(0));
    e.update(EditorInput::RemoveAuthor(9));
    let names: Vec<&str> = e.authors.authors.iter().map(|a| a.name.as_str()).collect();
    assert_eq!(names, vec!["Friedrich Engels", "Vladimir Lenin", "Rosa Luxemburg"]);
    assert_eq!(e.authors.authors[2].weight, 4);
    assert_eq!(e.update(EditorInput::DismissAuthorNote), EditorAction::SaveAuthors);
    assert!(!e.authors.show_weight_note);
}

#[test]
fn save_takes_the_saved_layout() {
    let mut e = editor();
    e.update(EditorInput::UpdateTextColor("#ff0000".to_string()));
    let mut saved = style();
    saved.quote_x = 10;
    saved.quote_y = 20;
    saved.author_x = 30;
    saved.author_y = 40;
    saved.quote_max_width = 1000;
    saved.quote_max_height = 200;
    saved.max_quote_chars = 99;
    saved.text_color = "#00ff00".to_string();
    let action = e.update(EditorInput::Save { saved, font_size_text: "32".to_string() });
    assert_eq!(action, EditorAction::SaveAll { language_changed: false });
    assert_eq!((e.style.quote_x, e.style.quote_y, e.style.author_x, e.style.author_y), (10, 20, 30, 40));
    assert_eq!((e.style.quote_max_width, e.style.quote_max_height), (1000, 200));
    assert_eq!(e.style.max_quote_chars, 99);
    assert_eq!(e.style.text_color, "#ff0000");
    assert_eq!(e.style.position_hash, "c015e7eef44792cb56696df2ab7fb18f45fbc49e");
    assert_eq!(e.style.position_hash, position_hash_of("Inter", "32", 1000, 200));
}

#[test]
fn save_reports_a_language_change() {
    let mut e = editor();
    e.update(EditorInput::UpdateLanguage("FR".to_string()));
    let action = e.update(EditorInput::Save { saved: style(), font_size_text: "32".to_string() });
    assert_eq!(action, EditorAction::SaveAll { language_changed: true });
    assert_eq!(e.style.position_hash, "c1d49957c3456882f562c324ad89bb1ab63fd360");
}

#[test]
fn window_actions() {
    let mut e = editor();
    assert_eq!(e.update(EditorInput::ShowInteractivePicker), EditorAction::LaunchPicker);
    assert_eq!(e.update(EditorInput::FetchQuoteNow), EditorAction::FetchQuote);
    assert_eq!(e.update(EditorInput::SkipQuote), EditorAction::FetchQuote);
    assert_eq!(e.style.font, "Inter");
}

#[test]
fn default_style_values() {
    let d = StyleSettings::default();
    assert_eq!(d.font, "Inter");
    assert_eq!(d.language, "ORIGINAL");
    assert_eq!(d.bg_color, "#811309ff");
    assert_eq!(d.shadow_color, "#000000ff");
    assert!(d.bg_enabled && d.bg_rounded && !d.bg_fill && !d.stroke_enabled && !d.shadow_enabled);
    assert_eq!(d.quote_v_align, VerticalAlign::Bottom);
    assert_eq!(d.author_h_align, HorizontalAlign::Right);
    assert_eq!((d.quote_x, d.quote_y, d.author_x, d.author_y), (210, 614, 1342, 966));
    assert_eq!((d.quote_max_width, d.quote_max_height, d.max_quote_chars), (1499, 315, 581));
    assert_eq!(d.position_hash, position_hash_of("Inter", "32", 1499, 315));
}

#[test]
fn language_choices() {
    let langs = muote::editor::language_options();
    assert_eq!(langs.len(), 11);
    assert_eq!(langs[0], ("ORIGINAL", "Original"));
    assert_eq!(langs[8], ("RU", "Russian"));
    assert_eq!(langs[10], ("UK", "Ukrainian"));
}

#[test]
fn placement_commit_sets_limit_and_hash() {
    let mut s = style();
    s.quote_max_width = 1000;
    s.quote_max_height = 200;
    muote::editor::commit_placement(&mut s, 123, "32");
    assert_eq!(s.max_quote_chars, 123);
    assert_eq!(s.position_hash, "c015e7eef44792cb56696df2ab7fb18f45fbc49e");
    assert_eq!(s.quote_x, 210);
    assert_eq!(s.text_color, "#ffffff");
}
