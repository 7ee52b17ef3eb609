//! The desktop display: the quote it shows and the window that holds it.

use vstd::prelude::*;
use crate::cache::{
    cached_text_spec, clean_quote, lemma_cached_quote_round_trip, rsplit_once, rsplit_once_spec,
    separator_text,
};
use crate::placement::Placement;
use crate::text::{chars_of, string_from_chars, trim, trim_pred, trim_vec};

verus! {

/// The quote and author that the display shows.
pub struct CachedQuote {
    pub text: String,
    pub author: String,
}

/// What the display makes of the cache text: the quote and author around the last
/// separator, cleaned; without a separator, the whole text trimmed and no author.
pub open spec fn display_quote_spec(raw: Seq<char>) -> (Seq<char>, Seq<char>) {
    match rsplit_once_spec(raw, separator_text()) {
        Some((q, a)) => (clean_quote(q), trim(a)),
        None => (trim(raw), Seq::empty()),
    }
}

/// Reads the cache text for display.
pub fn parse_cached_quote(raw_text: &str) -> (r: CachedQuote)
    ensures
        (r.text@, r.author@) == display_quote_spec(raw_text@),
{
    let raw = chars_of(raw_text);
    let sep = chars_of(" — ");
    assert(trim_pred(None) == crate::text::whitespace_pred());
    match rsplit_once(&raw, &sep) {
        Some((quote, author)) => {
            let q1 = trim_vec(&quote, None);
            let q2 = trim_vec(&q1, Some('"'));
            let a = trim_vec(&author, None);
            CachedQuote { text: string_from_chars(q2), author: string_from_chars(a) }
        },
        None => {
            let t = trim_vec(&raw, None);
            CachedQuote { text: string_from_chars(t), author: string_from_chars(Vec::new()) }
        },
    }
}

/// Width in pixels that the display reserves for the author.
pub const DISPLAY_AUTHOR_WIDTH: i32 = 360;

/// Least height in pixels that the display reserves for the author.
pub const DISPLAY_AUTHOR_MIN_HEIGHT: i32 = 48;

/// Least padding in pixels around the window's content.
pub const DISPLAY_MIN_PADDING: i32 = 16;

pub open spec fn min_int(a: int, b: int) -> int {
    if a <= b {
        a
    } else {
        b
    }
}

pub open spec fn max_int(a: int, b: int) -> int {
    if a >= b {
        a
    } else {
        b
    }
}

/// The window's left, top, right and bottom edges before padding.
pub open spec fn content_edges(p: Placement, author_text_height: int, has_author: bool) -> (
    int,
    int,
    int,
    int,
) {
    let l = p.quote_x as int;
    let t = p.quote_y as int;
    let r = p.quote_x + p.quote_max_width;
    let b = p.quote_y + p.quote_max_height;
    if has_author {
        (
            min_int(l, p.author_x as int),
            min_int(t, p.author_y as int),
            max_int(r, p.author_x + DISPLAY_AUTHOR_WIDTH),
            max_int(b, p.author_y + max_int(author_text_height, DISPLAY_AUTHOR_MIN_HEIGHT as int)),
        )
    } else {
        (l, t, r, b)
    }
}

/// The window's padding: the stroke width and the shadow offset, rounded up, and at
/// least `DISPLAY_MIN_PADDING`.
pub open spec fn display_padding(stroke_width_ceil: int, shadow_offset_ceil: int) -> int {
    max_int(max_int(stroke_width_ceil, shadow_offset_ceil), DISPLAY_MIN_PADDING as int)
}

/// The window's position and size: the content, padded by one padding on the left and
/// top and two on the right and bottom, at least one pixel each way.
pub open spec fn display_bounds_spec(
    p: Placement,
    stroke_width_ceil: int,
    shadow_offset_ceil: int,
    author_text_height: int,
    has_author: bool,
) -> (int, int, int, int) {
    let pad = display_padding(stroke_width_ceil, shadow_offset_ceil);
    let (l, t, r, b) = content_edges(p, author_text_height, has_author);
    let left = l - pad;
    let top = t - pad;
    let right = r + 2 * pad;
    let bottom = b + 2 * pad;
    (left, top, max_int(right - left, 1), max_int(bottom - top, 1))
}

pub open spec fn in_i32(x: int) -> bool {
    i32::MIN <= x <= i32::MAX
}

/// Every step of the window computation stays within `i32`.
pub open spec fn display_bounds_in_range(
    p: Placement,
    stroke_width_ceil: int,
    shadow_offset_ceil: int,
    author_text_height: int,
    has_author: bool,
) -> bool {
    let pad = display_padding(stroke_width_ceil, shadow_offset_ceil);
    let (l, t, r, b) = content_edges(p, author_text_height, has_author);
    &&& in_i32(p.quote_x + p.quote_max_width)
    &&& in_i32(p.quote_y + p.quote_max_height)
    &&& has_author ==> in_i32(p.author_x + DISPLAY_AUTHOR_WIDTH)
    &&& has_author ==> in_i32(p.author_y + max_int(author_text_height, DISPLAY_AUTHOR_MIN_HEIGHT as int))
    &&& in_i32(2 * pad)
    &&& in_i32(l - pad)
    &&& in_i32(t - pad)
    &&& in_i32(r + 2 * pad)
    &&& in_i32(b + 2 * pad)
    &&& in_i32((r + 2 * pad) - (l - pad))
    &&& in_i32((b + 2 * pad) - (t - pad))
}

fn min32(a: i32, b: i32) -> (r: i32)
    ensures
        r == min_int(a as int, b as int),
{
    if a <= b {
        a
    } else {
        b
    }
}

fn max32(a: i32, b: i32) -> (r: i32)
    ensures
        r == max_int(a as int, b as int),
{
    if a >= b {
        a
    } else {
        b
    }
}

/// Where the display window goes and how large it is, for the quote and author boxes;
/// `author_text_height` is the author's font height rounded up.
pub fn display_bounds(
    p: &Placement,
    stroke_width_ceil: i32,
    shadow_offset_ceil: i32,
    author_text_height: i32,
    has_author: bool,
) -> (r: (i32, i32, i32, i32))
    requires
        display_bounds_in_range(
            *p,
            stroke_width_ceil as int,
            shadow_offset_ceil as int,
            author_text_height as int,
            has_author,
        ),
    ensures
        (r.0 as int, r.1 as int, r.2 as int, r.3 as int) == display_bounds_spec(
            *p,
            stroke_width_ceil as int,
            shadow_offset_ceil as int,
            author_text_height as int,
            has_author,
        ),
{
    let padding = max32(max32(stroke_width_ceil, shadow_offset_ceil), DISPLAY_MIN_PADDING);
    let mut left = p.quote_x;
    let mut top = p.quote_y;
    let mut right = p.quote_x + p.quote_max_width;
    let mut bottom = p.quote_y + p.quote_max_height;
    if has_author {
        let author_height = max32(author_text_height, DISPLAY_AUTHOR_MIN_HEIGHT);
        left = min32(left, p.author_x);
        top = min32(top, p.author_y);
        right = max32(right, p.author_x + DISPLAY_AUTHOR_WIDTH);
        bottom = max32(bottom, p.author_y + author_height);
    }
    left = left - padding;
    top = top - padding;
    right = right + padding * 2;
    bottom = bottom + padding * 2;
    (left, top, max32(right - left, 1), max32(bottom - top, 1))
}

/// With an author, the window also covers the author box (`DISPLAY_AUTHOR_WIDTH` wide and
/// at least `DISPLAY_AUTHOR_MIN_HEIGHT` high) with room to spare.
pub proof fn lemma_display_covers_author(
    p: Placement,
    stroke_width_ceil: int,
    shadow_offset_ceil: int,
    author_text_height: int,
)
    ensures
        ({
            let (x, y, w, h) = display_bounds_spec(
                p,
                stroke_width_ceil,
                shadow_offset_ceil,
                author_text_height,
                true,
            );
            let ah = if author_text_height >= 48 { author_text_height } else { 48 };
            &&& x <= p.author_x - 16
            &&& y <= p.author_y - 16
            &&& x + w >= p.author_x + 360 + 32
            &&& y + h >= p.author_y + ah + 32
            &&& x <= p.quote_x - 16
            &&& y <= p.quote_y - 16
            &&& x + w >= p.quote_x + p.quote_max_width + 32
            &&& y + h >= p.quote_y + p.quote_max_height + 32
        }),
{
}

/// The window covers the quote box with room to spare, and is never empty.
pub proof fn lemma_display_covers_quote(
    p: Placement,
    stroke_width_ceil: int,
    shadow_offset_ceil: int,
    author_text_height: int,
    has_author: bool,
)
    ensures
        ({
            let (x, y, w, h) = display_bounds_spec(
                p,
                stroke_width_ceil,
                shadow_offset_ceil,
                author_text_height,
                has_author,
            );
            &&& w >= 1 && h >= 1
            &&& x <= p.quote_x - DISPLAY_MIN_PADDING
            &&& y <= p.quote_y - DISPLAY_MIN_PADDING
            &&& x + w >= p.quote_x + p.quote_max_width + 2 * DISPLAY_MIN_PADDING
            &&& y + h >= p.quote_y + p.quote_max_height + 2 * DISPLAY_MIN_PADDING
        }),
{
}

/// The display shows the quote and author that a fetch wrote to the cache, for a quote
/// that neither starts nor ends with `"`, and a trimmed author name without `—`.
pub proof fn lemma_display_shows_cached_quote(q: Seq<char>, a: Seq<char>)
    requires
        q.len() == 0 || (q[0] != '"' && q.last() != '"'),
        trim(a) == a,
        forall|k: int| 0 <= k < a.len() ==> a[k] != '—',
    ensures
        display_quote_spec(cached_text_spec(q, a)) == (q, a),
{
    lemma_cached_quote_round_trip(q, a);
}

} // verus!
