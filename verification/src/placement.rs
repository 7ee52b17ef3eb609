//! The placement editor: snapping, dragging and resizing the quote and author boxes.

use vstd::prelude::*;

verus! {

/// What the pointer is over.
#[derive(Debug, Clone, Copy, PartialEq, Eq, Structural)]
pub enum HoverTarget {
    Nowhere,
    QuoteBody,
    QuoteResizeRight,
    QuoteResizeBottom,
    AuthorBody,
}

/// What a drag in progress does.
#[derive(Debug, Clone, Copy, PartialEq, Eq, Structural)]
pub enum DragMode {
    Idle,
    MoveQuote,
    MoveAuthor,
    ResizeWidth,
    ResizeHeight,
}

/// The positions and the quote box size that the editor changes, in pixels.
#[derive(Debug, Clone, Copy, PartialEq, Eq, Structural)]
pub struct Placement {
    pub quote_x: i32,
    pub quote_y: i32,
    pub author_x: i32,
    pub author_y: i32,
    pub quote_max_width: i32,
    pub quote_max_height: i32,
}

/// A drag in progress and the values it started from.
#[derive(Debug, Clone, Copy, PartialEq, Eq, Structural)]
pub struct DragState {
    pub mode: DragMode,
    pub start_x: i32,
    pub start_y: i32,
    pub start_width: i32,
    pub start_height: i32,
}

/// Distance in pixels within which a box snaps.
pub const SNAP_THRESHOLD: i64 = 15;

/// Margin in pixels of the left and right snap lines.
pub const SNAP_MARGIN: i64 = 25;

/// Width in pixels that the editor assumes for the author box.
pub const AUTHOR_BOX_WIDTH: i32 = 300;

/// Smallest width of the quote box.
pub const MIN_QUOTE_WIDTH: i32 = 200;

pub open spec fn abs(x: int) -> int {
    if x < 0 {
        -x
    } else {
        x
    }
}

/// A number of pixels as an `i32`, saturating at the ends of its range.
pub open spec fn saturate_i32(x: int) -> i32 {
    if x > i32::MAX {
        i32::MAX
    } else if x < i32::MIN {
        i32::MIN
    } else {
        x as i32
    }
}

/// Half of `v`, rounded toward zero as a cast of a float to an integer rounds.
pub open spec fn half_toward_zero(v: int) -> int {
    if v >= 0 {
        v / 2
    } else {
        -((-v) / 2)
    }
}

/// Where a box at `x`, `width` wide, lands on a screen `screen_width` wide: its center
/// snaps to the screen's center, its left edge to the left margin, or its right edge
/// to the right margin, when within the threshold; otherwise it stays.
pub open spec fn snap_x_spec(x: int, width: int, screen_width: int) -> int {
    if abs(2 * x + width - screen_width) < 2 * SNAP_THRESHOLD {
        half_toward_zero(screen_width - width)
    } else if abs(x - SNAP_MARGIN) < SNAP_THRESHOLD {
        SNAP_MARGIN as int
    } else if abs(x + width - (screen_width - SNAP_MARGIN)) < SNAP_THRESHOLD {
        saturate_i32(screen_width - SNAP_MARGIN - width) as int
    } else {
        x
    }
}

fn abs_i64(x: i64) -> (r: i64)
    requires
        x > i64::MIN,
    ensures
        r == abs(x as int),
{
    if x < 0 {
        -x
    } else {
        x
    }
}

/// Snaps the horizontal position of a box `width` wide on a screen `screen_width` wide.
pub fn snap_x(x: i32, width: i32, screen_width: i32) -> (r: i32)
    ensures
        r as int == snap_x_spec(x as int, width as int, screen_width as int),
{
    let xl = x as i64;
    let wl = width as i64;
    let sl = screen_width as i64;
    if abs_i64(2 * xl + wl - sl) < 2 * SNAP_THRESHOLD {
        let free = sl - wl;
        let half = if free >= 0 {
            free / 2
        } else {
            -((-free) / 2)
        };
        return half as i32;
    }
    if abs_i64(xl - SNAP_MARGIN) < SNAP_THRESHOLD {
        return 25;
    }
    if abs_i64(xl + wl - (sl - SNAP_MARGIN)) < SNAP_THRESHOLD {
        let v = sl - SNAP_MARGIN - wl;
        return if v > i32::MAX as i64 {
            i32::MAX
        } else if v < i32::MIN as i64 {
            i32::MIN
        } else {
            v as i32
        };
    }
    x
}

/// The number of whole lines nearest to `raw` pixels, halves rounded away from zero,
/// as `f64::round` does.
pub open spec fn nearest_line_count(raw: int, line_height: int) -> int {
    if raw >= 0 {
        (2 * raw + line_height) / (2 * line_height)
    } else {
        -((2 * (-raw) + line_height) / (2 * line_height))
    }
}

/// `raw` rounded to the nearest multiple of `line_height`; unchanged when the line
/// height is not positive.
pub open spec fn snap_to_line_spec(raw: int, line_height: int) -> int {
    if line_height <= 0 {
        raw
    } else {
        nearest_line_count(raw, line_height) * line_height
    }
}

/// Rounds a height to a whole number of lines.
pub fn snap_to_line(raw: i32, line_height: i32) -> (r: i32)
    requires
        i32::MIN <= snap_to_line_spec(raw as int, line_height as int) <= i32::MAX,
    ensures
        r as int == snap_to_line_spec(raw as int, line_height as int),
{
    if line_height <= 0 {
        return raw;
    }
    let rl = raw as i64;
    let hl = line_height as i64;
    let lines: i64 = if rl >= 0 {
        (2 * rl + hl) / (2 * hl)
    } else {
        -((2 * (-rl) + hl) / (2 * hl))
    };
    (lines * hl) as i32
}

/// A snapped height is a whole number of lines, at most half a line from the height.
pub proof fn lemma_snap_to_line(raw: int, line_height: int)
    requires
        line_height > 0,
    ensures
        snap_to_line_spec(raw, line_height) % line_height == 0,
        2 * abs(snap_to_line_spec(raw, line_height) - raw) <= line_height,
{
    let n = nearest_line_count(raw, line_height);
    assert(n * line_height % line_height == 0) by (nonlinear_arith)
        requires
            line_height > 0,
    ;
    if raw >= 0 {
        let q = (2 * raw + line_height) / (2 * line_height);
        assert(2 * abs(q * line_height - raw) <= line_height) by (nonlinear_arith)
            requires
                q == (2 * raw + line_height) / (2 * line_height),
                line_height > 0,
                raw >= 0,
        {
            let m = 2 * raw + line_height;
            let d = 2 * line_height;
            assert(q * d <= m < q * d + d);
        }
    } else {
        let q = (2 * (-raw) + line_height) / (2 * line_height);
        assert(2 * abs(q * line_height - (-raw)) <= line_height) by (nonlinear_arith)
            requires
                q == (2 * (-raw) + line_height) / (2 * line_height),
                line_height > 0,
                raw < 0,
        {
            let m = 2 * (-raw) + line_height;
            let d = 2 * line_height;
            assert(q * d <= m < q * d + d);
        }
        assert((-q) * line_height == -(q * line_height)) by (nonlinear_arith);
    }
}


/// The pointer cursor for what the pointer is over.
pub fn cursor_name(hover: HoverTarget) -> (r: &'static str)
    ensures
        r@ == match hover {
            HoverTarget::QuoteBody | HoverTarget::AuthorBody => "grab"@,
            HoverTarget::QuoteResizeRight => "ew-resize"@,
            HoverTarget::QuoteResizeBottom => "ns-resize"@,
            HoverTarget::Nowhere => "default"@,
        },
{
    match hover {
        HoverTarget::QuoteBody | HoverTarget::AuthorBody => "grab",
        HoverTarget::QuoteResizeRight => "ew-resize",
        HoverTarget::QuoteResizeBottom => "ns-resize",
        HoverTarget::Nowhere => "default",
    }
}

impl DragState {
    /// No drag in progress.
    pub fn idle() -> (r: Self)
        ensures
            r.mode == DragMode::Idle,
            r.start_x == 0 && r.start_y == 0 && r.start_width == 0 && r.start_height == 0,
    {
        DragState { mode: DragMode::Idle, start_x: 0, start_y: 0, start_width: 0, start_height: 0 }
    }

    /// Starts a drag on what the pointer is over, remembering the value it changes.
    pub fn begin(&mut self, hover: HoverTarget, p: &Placement)
        ensures
            *final(self) == match hover {
                HoverTarget::QuoteBody => DragState {
                    mode: DragMode::MoveQuote,
                    start_x: p.quote_x,
                    start_y: p.quote_y,
                    ..*old(self)
                },
                HoverTarget::AuthorBody => DragState {
                    mode: DragMode::MoveAuthor,
                    start_x: p.author_x,
                    start_y: p.author_y,
                    ..*old(self)
                },
                HoverTarget::QuoteResizeRight => DragState {
                    mode: DragMode::ResizeWidth,
                    start_width: p.quote_max_width,
                    ..*old(self)
                },
                HoverTarget::QuoteResizeBottom => DragState {
                    mode: DragMode::ResizeHeight,
                    start_height: p.quote_max_height,
                    ..*old(self)
                },
                HoverTarget::Nowhere => DragState { mode: DragMode::Idle, ..*old(self) },
            },
    {
        match hover {
            HoverTarget::QuoteBody => {
                self.mode = DragMode::MoveQuote;
                self.start_x = p.quote_x;
                self.start_y = p.quote_y;
            },
            HoverTarget::AuthorBody => {
                self.mode = DragMode::MoveAuthor;
                self.start_x = p.author_x;
                self.start_y = p.author_y;
            },
            HoverTarget::QuoteResizeRight => {
                self.mode = DragMode::ResizeWidth;
                self.start_width = p.quote_max_width;
            },
            HoverTarget::QuoteResizeBottom => {
                self.mode = DragMode::ResizeHeight;
                self.start_height = p.quote_max_height;
            },
            HoverTarget::Nowhere => {
                self.mode = DragMode::Idle;
            },
        }
    }

    /// Ends the drag.
    pub fn end(&mut self)
        ensures
            *final(self) == (DragState { mode: DragMode::Idle, ..*old(self) }),
    {
        self.mode = DragMode::Idle;
    }
}

pub open spec fn max_int(a: int, b: int) -> int {
    if a >= b {
        a
    } else {
        b
    }
}

/// The new height of the quote box when a resize drags it to `raw`: at least one line,
/// rounded to whole lines.
pub open spec fn resized_height_spec(raw: int, line_height: int) -> int {
    max_int(snap_to_line_spec(max_int(raw, line_height), line_height), line_height)
}

/// The arithmetic of a drag step stays within `i32`.
pub open spec fn drag_in_range(d: DragState, dx: i32, dy: i32, line_height: i32) -> bool {
    match d.mode {
        DragMode::MoveQuote | DragMode::MoveAuthor => {
            &&& i32::MIN <= d.start_x + dx <= i32::MAX
            &&& i32::MIN <= d.start_y + dy <= i32::MAX
        },
        DragMode::ResizeWidth => i32::MIN <= d.start_width + dx <= i32::MAX,
        DragMode::ResizeHeight => {
            &&& i32::MIN <= d.start_height + dy <= i32::MAX
            &&& i32::MIN <= snap_to_line_spec(
                max_int(d.start_height + dy, line_height as int),
                line_height as int,
            ) <= i32::MAX
        },
        DragMode::Idle => true,
    }
}

/// What a drag step by `(dx, dy)` from where the drag started makes of the placement.
pub open spec fn drag_update_spec(
    d: DragState,
    p: Placement,
    dx: i32,
    dy: i32,
    screen_width: i32,
    line_height: i32,
) -> Placement {
    match d.mode {
        DragMode::MoveQuote => Placement {
            quote_x: snap_x_spec(
                d.start_x + dx,
                p.quote_max_width as int,
                screen_width as int,
            ) as i32,
            quote_y: (d.start_y + dy) as i32,
            ..p
        },
        DragMode::MoveAuthor => Placement {
            author_x: snap_x_spec(
                d.start_x + dx,
                AUTHOR_BOX_WIDTH as int,
                screen_width as int,
            ) as i32,
            author_y: (d.start_y + dy) as i32,
            ..p
        },
        DragMode::ResizeWidth => Placement {
            quote_max_width: max_int(d.start_width + dx, MIN_QUOTE_WIDTH as int) as i32,
            ..p
        },
        DragMode::ResizeHeight => Placement {
            quote_max_height: resized_height_spec(
                d.start_height + dy,
                line_height as int,
            ) as i32,
            ..p
        },
        DragMode::Idle => p,
    }
}

/// Applies a drag step: the pointer has moved `(dx, dy)` since the drag began.
pub fn drag_update(
    d: &DragState,
    p: &mut Placement,
    dx: i32,
    dy: i32,
    screen_width: i32,
    line_height: i32,
)
    requires
        drag_in_range(*d, dx, dy, line_height),
    ensures
        *final(p) == drag_update_spec(*d, *old(p), dx, dy, screen_width, line_height),
{
    match d.mode {
        DragMode::MoveQuote => {
            let raw_x = d.start_x + dx;
            p.quote_x = snap_x(raw_x, p.quote_max_width, screen_width);
            p.quote_y = d.start_y + dy;
        },
        DragMode::MoveAuthor => {
            let raw_x = d.start_x + dx;
            p.author_x = snap_x(raw_x, AUTHOR_BOX_WIDTH, screen_width);
            p.author_y = d.start_y + dy;
        },
        DragMode::ResizeWidth => {
            let w = d.start_width + dx;
            p.quote_max_width = if w >= MIN_QUOTE_WIDTH {
                w
            } else {
                MIN_QUOTE_WIDTH
            };
        },
        DragMode::ResizeHeight => {
            let h = d.start_height + dy;
            let raw = if h >= line_height {
                h
            } else {
                line_height
            };
            let snapped = snap_to_line(raw, line_height);
            p.quote_max_height = if snapped >= line_height {
                snapped
            } else {
                line_height
            };
        },
        DragMode::Idle => {},
    }
}

/// A box moved so that its center comes within `SNAP_THRESHOLD` of the screen's center is
/// centered on the screen (to within the half pixel that rounding leaves): the quote box
/// with its own width, the author box with `AUTHOR_BOX_WIDTH`. The other coordinate
/// follows the pointer, and the sizes stay.
pub proof fn lemma_move_snaps_to_center(
    d: DragState,
    p: Placement,
    dx: i32,
    dy: i32,
    screen_width: i32,
    line_height: i32,
)
    requires
        drag_in_range(d, dx, dy, line_height),
    ensures
        d.mode == DragMode::MoveQuote ==> {
            let q = drag_update_spec(d, p, dx, dy, screen_width, line_height);
            let cx2 = 2 * (d.start_x + dx) + p.quote_max_width;
            &&& (-30 < cx2 - screen_width < 30 ==> -1 <= 2 * q.quote_x + p.quote_max_width
                - screen_width <= 1)
            &&& q.quote_y == d.start_y + dy
            &&& q.quote_max_width == p.quote_max_width
            &&& q.quote_max_height == p.quote_max_height
            &&& q.author_x == p.author_x && q.author_y == p.author_y
        },
        d.mode == DragMode::MoveAuthor ==> {
            let q = drag_update_spec(d, p, dx, dy, screen_width, line_height);
            let cx2 = 2 * (d.start_x + dx) + 300;
            &&& (-30 < cx2 - screen_width < 30 ==> -1 <= 2 * q.author_x + 300 - screen_width <= 1)
            &&& q.author_y == d.start_y + dy
            &&& q.quote_x == p.quote_x && q.quote_y == p.quote_y
            &&& q.quote_max_width == p.quote_max_width
            &&& q.quote_max_height == p.quote_max_height
        },
{
}

/// A resized quote box is at least `MIN_QUOTE_WIDTH` wide, and a box resized in height
/// is a whole number of lines and at least one line high.
pub proof fn lemma_resize_bounds(
    d: DragState,
    p: Placement,
    dx: i32,
    dy: i32,
    screen_width: i32,
    line_height: i32,
)
    requires
        drag_in_range(d, dx, dy, line_height),
    ensures
        d.mode == DragMode::ResizeWidth ==> drag_update_spec(
            d,
            p,
            dx,
            dy,
            screen_width,
            line_height,
        ).quote_max_width >= MIN_QUOTE_WIDTH,
        d.mode == DragMode::ResizeHeight && line_height > 0 ==> {
            let h = drag_update_spec(d, p, dx, dy, screen_width, line_height).quote_max_height;
            h >= line_height && h % line_height == 0
        },
        d.mode == DragMode::MoveQuote || d.mode == DragMode::MoveAuthor ==> {
            let q = drag_update_spec(d, p, dx, dy, screen_width, line_height);
            q.quote_max_width == p.quote_max_width && q.quote_max_height == p.quote_max_height
        },
{
    if d.mode == DragMode::ResizeHeight && line_height > 0 {
        let raw = max_int(d.start_height + dy, line_height as int);
        lemma_snap_to_line(raw, line_height as int);
        let s = snap_to_line_spec(raw, line_height as int);
        assert(line_height as int % line_height as int == 0) by (nonlinear_arith)
            requires
                line_height > 0,
        ;
    }
}

/// How many characters fit in the quote box: whole glyph columns times whole lines, for
/// glyphs `glyph_width` by `glyph_height` pixels.
pub open spec fn capacity_spec(
    quote_max_width: int,
    quote_max_height: int,
    glyph_width: int,
    glyph_height: int,
) -> int {
    let cols = if quote_max_width <= 0 { 0 } else { quote_max_width / glyph_width };
    let rows = if quote_max_height <= 0 { 0 } else { quote_max_height / glyph_height };
    cols * rows
}

/// The character capacity of the quote box.
pub fn text_capacity(
    quote_max_width: i32,
    quote_max_height: i32,
    glyph_width: i32,
    glyph_height: i32,
) -> (r: u64)
    requires
        glyph_width > 0,
        glyph_height > 0,
    ensures
        r as int == capacity_spec(
            quote_max_width as int,
            quote_max_height as int,
            glyph_width as int,
            glyph_height as int,
        ),
{
    let cols: u64 = if quote_max_width <= 0 {
        0
    } else {
        (quote_max_width / glyph_width) as u64
    };
    let rows: u64 = if quote_max_height <= 0 {
        0
    } else {
        (quote_max_height / glyph_height) as u64
    };
    assert(cols <= 0x8000_0000 && rows <= 0x8000_0000);
    assert(cols * rows <= 0x8000_0000 * 0x8000_0000) by (nonlinear_arith)
        requires
            cols <= 0x8000_0000,
            rows <= 0x8000_0000,
    ;
    cols * rows
}

} // verus!
