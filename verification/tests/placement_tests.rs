use muote::display::{display_bounds, parse_cached_quote};
use muote::placement::{
    cursor_name, drag_update, snap_to_line, snap_x, text_capacity, DragMode, DragState,
    HoverTarget, Placement,
};

fn placement() -> Placement {
    Placement {
        quote_x: 210,
        quote_y: 614,
        author_x: 1342,
        author_y: 966,
        quote_max_width: 1499,
        quote_max_height: 315,
    }
}

#[test]
fn snap_x_cases() {
    assert_eq!(snap_x(100, 200, 1000), 100);
    assert_eq!(snap_x(395, 200, 1000), 400);
    assert_eq!(snap_x(30, 200, 1000), 25);
    assert_eq!(snap_x(770, 200, 1000), 775);
    assert_eq!(snap_x(0, 3, 5), 1);
    assert_eq!(snap_x(-10, 21, 0), -10);
}

#[test]
fn snap_to_line_rounds_half_away_from_zero() {
    assert_eq!(snap_to_line(47, 10), 50);
    assert_eq!(snap_to_line(44, 10), 40);
    assert_eq!(snap_to_line(45, 10), 50);
    assert_eq!(snap_to_line(-45, 10), -50);
    assert_eq!(snap_to_line(-44, 10), -40);
    assert_eq!(snap_to_line(5, 0), 5);
    assert_eq!(snap_to_line(5, -3), 5);
}

#[test]
fn cursors() {
    assert_eq!(cursor_name(HoverTarget::QuoteBody), "grab");
    assert_eq!(cursor_name(HoverTarget::AuthorBody), "grab");
    assert_eq!(cursor_name(HoverTarget::QuoteResizeRight), "ew-resize");
    assert_eq!(cursor_name(HoverTarget::QuoteResizeBottom), "ns-resize");
    assert_eq!(cursor_name(HoverTarget::Nowhere), "default");
}

#[test]
fn drag_moves_and_snaps_the_quote() {
    let mut p = placement();
    let mut d = DragState::idle();
    d.begin(HoverTarget::QuoteBody, &p);
    assert_eq!(d.mode, DragMode::MoveQuote);
    assert_eq!((d.start_x, d.start_y), (210, 614));
    drag_update(&d, &mut p, -188, 6, 1920, 40);
    assert_eq!((p.quote_x, p.quote_y), (25, 620));
    drag_update(&d, &mut p, -100, 0, 1920, 40);
    assert_eq!(p.quote_x, 110);
    d.end();
    assert_eq!(d.mode, DragMode::Idle);
    let before = p;
    drag_update(&d, &mut p, 500, 500, 1920, 40);
    assert_eq!(p, before);
}

#[test]
fn drag_moves_the_author() {
    let mut p = placement();
    let mut d = DragState::idle();
    d.begin(HoverTarget::AuthorBody, &p);
    drag_update(&d, &mut p, 0, -6, 1920, 40);
    assert_eq!((p.author_x, p.author_y), (1342, 960));
    drag_update(&d, &mut p, 255, 0, 1920, 40);
    assert_eq!(p.author_x, 1595);
}

#[test]
fn resizing_keeps_the_minimums() {
    let mut p = placement();
    let mut d = DragState::idle();
    d.begin(HoverTarget::QuoteResizeRight, &p);
    drag_update(&d, &mut p, -1400, 0, 1920, 40);
    assert_eq!(p.quote_max_width, 200);
    drag_update(&d, &mut p, 1, 0, 1920, 40);
    assert_eq!(p.quote_max_width, 1500);
    d.begin(HoverTarget::QuoteResizeBottom, &p);
    assert_eq!(d.start_height, 315);
    drag_update(&d, &mut p, 0, 10, 1920, 40);
    assert_eq!(p.quote_max_height, 320);
    drag_update(&d, &mut p, 0, -400, 1920, 40);
    assert_eq!(p.quote_max_height, 40);
    d.begin(HoverTarget::Nowhere, &p);
    assert_eq!(d.mode, DragMode::Idle);
}

#[test]
fn capacity_counts_whole_cells() {
    assert_eq!(text_capacity(400, 100, 10, 20), 200);
    assert_eq!(text_capacity(409, 119, 10, 20), 200);
    assert_eq!(text_capacity(-5, 100, 10, 20), 0);
    assert_eq!(text_capacity(400, 0, 10, 20), 0);
}

#[test]
fn display_window_bounds() {
    let p = placement();
    assert_eq!(display_bounds(&p, 2, 1, 45, true), (194, 598, 1547, 448));
    assert_eq!(display_bounds(&p, 2, 1, 45, false), (194, 598, 1547, 363));
    assert_eq!(display_bounds(&p, 20, 1, 60, true), (190, 594, 1559, 472));
    let empty = Placement { quote_x: 0, quote_y: 0, author_x: 0, author_y: 0, quote_max_width: -100, quote_max_height: -100 };
    assert_eq!(display_bounds(&empty, 0, 0, 0, false), (-16, -16, 1, 1));
}

#[test]
fn display_reads_the_cached_quote() {
    let q = parse_cached_quote("\"All that is solid melts into air\" — Karl Marx\n");
    assert_eq!(q.text, "All that is solid melts into air");
    assert_eq!(q.author, "Karl Marx");
    let plain = parse_cached_quote("  no author here  ");
    assert_eq!(plain.text, "no author here");
    assert_eq!(plain.author, "");
    let two = parse_cached_quote("a — b — c");
    assert_eq!(two.text, "a — b");
    assert_eq!(two.author, "c");
}

#[test]
fn display_shows_what_the_cache_holds() {
    let text = muote::cache::format_cached_quote("Workers of the world, unite!", "Karl Marx");
    assert_eq!(text, "\"Workers of the world, unite!\" — Karl Marx");
    let q = parse_cached_quote(&text);
    assert_eq!(q.text, "Workers of the world, unite!");
    assert_eq!(q.author, "Karl Marx");
}
