//! Colors written `#rrggbb` or `#rrggbbaa`, as the settings store them.

use vstd::prelude::*;
use crate::digest::{hex_char, lower_hex, lower_hex_text};
use crate::text::{chars_of, string_from_chars, append_vec};

verus! {

/// The bytes that follow the leading `#` bytes.
pub open spec fn skip_hash_bytes(b: Seq<u8>) -> Seq<u8>
    decreases b.len(),
{
    if b.len() > 0 && b[0] == 35 {
        skip_hash_bytes(b.drop_first())
    } else {
        b
    }
}

/// The value of an ASCII hexadecimal digit, in either case.
pub open spec fn hex_digit_value(x: u8) -> Option<nat> {
    if 48 <= x <= 57 {
        Some((x - 48) as nat)
    } else if 97 <= x <= 102 {
        Some((x - 87) as nat)
    } else if 65 <= x <= 70 {
        Some((x - 55) as nat)
    } else {
        None
    }
}

/// What `u8::from_str_radix(s, 16)` gives for a two-byte `s`: two digits, or a `+` sign
/// and one digit.
pub open spec fn radix16_pair(x0: u8, x1: u8) -> Option<u8> {
    match (hex_digit_value(x0), hex_digit_value(x1)) {
        (Some(a), Some(b)) => Some((16 * a + b) as u8),
        (None, Some(b)) => if x0 == 43 {
            Some(b as u8)
        } else {
            None
        },
        _ => None,
    }
}

/// A color channel written at `i`, or 255 when it does not read as a number.
pub open spec fn channel_at(t: Seq<u8>, i: int) -> u8 {
    match radix16_pair(t[i], t[i + 1]) {
        Some(v) => v,
        None => 255,
    }
}

/// The channels red, green, blue and alpha of a color text, given as UTF-8 bytes:
/// six or eight digits after the `#` marks, alpha 255 when there are six; white when
/// the text has another length.
pub open spec fn color_channels_spec(b: Seq<u8>) -> (u8, u8, u8, u8) {
    let t = skip_hash_bytes(b);
    if t.len() == 6 || t.len() == 8 {
        (
            channel_at(t, 0),
            channel_at(t, 2),
            channel_at(t, 4),
            if t.len() == 8 {
                channel_at(t, 6)
            } else {
                255
            },
        )
    } else {
        (255, 255, 255, 255)
    }
}

/// A byte that continues a UTF-8 character.
pub open spec fn is_continuation(x: u8) -> bool {
    0x80 <= x < 0xC0
}

/// The channel texts of a six- or eight-digit color start at character boundaries,
/// so that taking them apart does not cut a character.
pub open spec fn color_channels_split_cleanly(b: Seq<u8>) -> bool {
    let t = skip_hash_bytes(b);
    &&& (t.len() == 6 || t.len() == 8) ==> !is_continuation(t[2]) && !is_continuation(t[4])
    &&& t.len() == 8 ==> !is_continuation(t[6])
}

fn digit_value(x: u8) -> (r: Option<u8>)
    ensures
        match hex_digit_value(x) {
            Some(v) => r == Some(v as u8),
            None => r is None,
        },
{
    if 48 <= x && x <= 57 {
        Some(x - 48)
    } else if 97 <= x && x <= 102 {
        Some(x - 87)
    } else if 65 <= x && x <= 70 {
        Some(x - 55)
    } else {
        None
    }
}

fn channel(t: &[u8], i: usize) -> (r: u8)
    requires
        i + 1 < t@.len(),
    ensures
        r == channel_at(t@, i as int),
{
    let x0 = t[i];
    let x1 = t[i + 1];
    match (digit_value(x0), digit_value(x1)) {
        (Some(a), Some(b)) => 16 * a + b,
        (None, Some(b)) => if x0 == 43 {
            b
        } else {
            255
        },
        _ => 255,
    }
}

proof fn lemma_skip_hash_step(b: Seq<u8>, i: int)
    requires
        0 <= i < b.len(),
        b[i] == 35,
    ensures
        skip_hash_bytes(b.skip(i)) == skip_hash_bytes(b.skip(i + 1)),
{
    assert(b.skip(i).drop_first() =~= b.skip(i + 1));
}

/// The channels of the color text `hex` (`#` marks first, then hexadecimal digits).
pub fn parse_color_channels(hex: &str) -> (r: (u8, u8, u8, u8))
    requires
        color_channels_split_cleanly(vstd::utf8::encode_utf8(hex@)),
    ensures
        r == color_channels_spec(vstd::utf8::encode_utf8(hex@)),
{
    let b = hex.as_bytes();
    let n = b.len();
    let mut s: usize = 0;
    assert(b@.skip(0) =~= b@);
    while s < n && b[s] == 35
        invariant
            s <= n,
            n == b@.len(),
            skip_hash_bytes(b@) == skip_hash_bytes(b@.skip(s as int)),
        decreases n - s,
    {
        proof {
            lemma_skip_hash_step(b@, s as int);
        }
        s = s + 1;
    }
    let ghost t = b@.skip(s as int);
    assert(skip_hash_bytes(t) == t);
    let len = n - s;
    if len == 6 || len == 8 {
        let r = channel(b, s);
        let g = channel(b, s + 2);
        let bl = channel(b, s + 4);
        let a = if len == 8 {
            channel(b, s + 6)
        } else {
            255
        };
        proof {
            assert forall|i: int| 0 <= i < t.len() implies t[i] == b@[s + i] by {}
        }
        (r, g, bl, a)
    } else {
        (255, 255, 255, 255)
    }
}

/// The color text `#rrggbbaa`.
pub open spec fn color_text_spec(r: u8, g: u8, b: u8, a: u8) -> Seq<char> {
    seq!['#'] + lower_hex_text(seq![r, g, b, a])
}

/// Writes a color as `#rrggbbaa` in lowercase hexadecimal.
pub fn color_channels_to_hex(r: u8, g: u8, b: u8, a: u8) -> (s: String)
    ensures
        s@ == color_text_spec(r, g, b, a),
{
    let mut bytes: Vec<u8> = Vec::new();
    bytes.push(r);
    bytes.push(g);
    bytes.push(b);
    bytes.push(a);
    assert(bytes@ =~= seq![r, g, b, a]);
    let digits = lower_hex(&bytes);
    let mut v = chars_of("#");
    append_vec(&mut v, &digits);
    proof {
        reveal_strlit("#");
        assert(v@ =~= seq!['#'] + digits@);
    }
    string_from_chars(v)
}


proof fn lemma_hex_char_value(d: nat)
    requires
        d < 16,
    ensures
        hex_digit_value(hex_char(d) as u8) == Some(d),
        '\0' <= hex_char(d) <= '\u{7f}',
        hex_char(d) as u8 != 35,
{
    if d < 10 {
        assert(((d + '0' as int) as u32) as char as int == d + 48);
    } else {
        assert(((d - 10 + 'a' as int) as u32) as char as int == d + 87);
    }
}

/// A color written by `color_channels_to_hex` reads back as the same channels.
pub proof fn lemma_color_round_trip(r: u8, g: u8, b: u8, a: u8)
    ensures
        color_channels_spec(vstd::utf8::encode_utf8(color_text_spec(r, g, b, a))) == (r, g, b, a),
{
    let bs = seq![r, g, b, a];
    reveal_with_fuel(lower_hex_text, 5);
    assert(bs.drop_last().drop_last().drop_last().drop_last() =~= Seq::<u8>::empty());
    let h = lower_hex_text(bs);
    assert(h =~= seq![
        hex_char((r / 16) as nat), hex_char((r % 16) as nat),
        hex_char((g / 16) as nat), hex_char((g % 16) as nat),
        hex_char((b / 16) as nat), hex_char((b % 16) as nat),
        hex_char((a / 16) as nat), hex_char((a % 16) as nat),
    ]);
    let cs = color_text_spec(r, g, b, a);
    assert forall|k: int| 0 <= k < h.len() implies hex_digit_value(#[trigger] h[k] as u8) is Some && h[k] as u8 != 35 && '\0' <= h[k] <= '\u{7f}' by {
        lemma_hex_char_value((r / 16) as nat);
        lemma_hex_char_value((r % 16) as nat);
        lemma_hex_char_value((g / 16) as nat);
        lemma_hex_char_value((g % 16) as nat);
        lemma_hex_char_value((b / 16) as nat);
        lemma_hex_char_value((b % 16) as nat);
        lemma_hex_char_value((a / 16) as nat);
        lemma_hex_char_value((a % 16) as nat);
    }
    assert(vstd::utf8::is_ascii_chars(cs)) by {
        assert forall|i: int| 0 <= i < cs.len() implies '\0' <= #[trigger] cs[i] <= '\u{7f}' by {
            if i > 0 {
                assert(cs[i] == h[i - 1]);
            }
        }
    }
    vstd::utf8::is_ascii_chars_encode_utf8(cs);
    let e = vstd::utf8::encode_utf8(cs);
    assert(e[0] == 35);
    let t = e.drop_first();
    assert(e.skip(1) =~= t);
    assert(t.len() == 8);
    assert forall|k: int| 0 <= k < 8 implies t[k] == h[k] as u8 by {
        assert(t[k] == e[k + 1]);
        assert(cs[k + 1] == h[k]);
    }
    assert(t[0] != 35);
    assert(skip_hash_bytes(t) == t);
    lemma_hex_char_value((r / 16) as nat);
    lemma_hex_char_value((r % 16) as nat);
    lemma_hex_char_value((g / 16) as nat);
    lemma_hex_char_value((g % 16) as nat);
    lemma_hex_char_value((b / 16) as nat);
    lemma_hex_char_value((b % 16) as nat);
    lemma_hex_char_value((a / 16) as nat);
    lemma_hex_char_value((a % 16) as nat);
    assert(channel_at(t, 0) == r);
    assert(channel_at(t, 2) == g);
    assert(channel_at(t, 4) == b);
    assert(channel_at(t, 6) == a);
}


/// A color text accepted from the user: not empty and starting with `#`.
pub fn is_color_input(text: &str) -> (r: bool)
    ensures
        r == (text@.len() > 0 && text@[0] == '#'),
{
    let cs = chars_of(text);
    cs.len() > 0 && cs[0] == '#'
}

/// The color `color` with its alpha channel replaced by `alpha`, as `#rrggbbaa`.
pub fn with_alpha(color: &str, alpha: u8) -> (s: String)
    requires
        color_channels_split_cleanly(vstd::utf8::encode_utf8(color@)),
    ensures
        ({
            let (r, g, b, _) = color_channels_spec(vstd::utf8::encode_utf8(color@));
            s@ == color_text_spec(r, g, b, alpha)
        }),
{
    let (r, g, b, _) = parse_color_channels(color);
    color_channels_to_hex(r, g, b, alpha)
}

/// A hexadecimal digit in either case.
pub open spec fn is_hex_digit_char(c: char) -> bool {
    ('0' <= c <= '9') || ('a' <= c <= 'f') || ('A' <= c <= 'F')
}

/// `char::to_ascii_lowercase`.
pub open spec fn ascii_lower(c: char) -> char {
    if 'A' <= c <= 'Z' {
        ((c as u32) + 32) as char
    } else {
        c
    }
}

proof fn lemma_hex_digit_lower(c: char)
    requires
        is_hex_digit_char(c),
    ensures
        hex_digit_value(c as u8) is Some,
        hex_digit_value(c as u8)->0 < 16,
        hex_char(hex_digit_value(c as u8)->0) == ascii_lower(c),
{
    let x = c as u8;
    if '0' <= c <= '9' {
        assert(48 <= x <= 57);
        let d = (x - 48) as nat;
        assert(((d + '0' as int) as u32) as char == c);
    } else if 'a' <= c <= 'f' {
        assert(97 <= x <= 102);
        let d = (x - 87) as nat;
        assert(((d - 10 + 'a' as int) as u32) as char == c);
    } else {
        assert(65 <= x <= 70);
        let d = (x - 55) as nat;
        assert(((d - 10 + 'a' as int) as u32) as char == ((c as u32) + 32) as char);
    }
}

/// A color written `#` and eight hexadecimal digits, in either case, is written back
/// from its channels as the same text in lowercase.
pub proof fn lemma_color_text_normalizes(s: Seq<char>)
    requires
        s.len() == 9,
        s[0] == '#',
        forall|k: int| 1 <= k < 9 ==> is_hex_digit_char(#[trigger] s[k]),
    ensures
        ({
            let (r, g, b, a) = color_channels_spec(vstd::utf8::encode_utf8(s));
            color_text_spec(r, g, b, a) == s.map_values(|c: char| ascii_lower(c))
        }),
{
    assert(vstd::utf8::is_ascii_chars(s)) by {
        assert forall|i: int| 0 <= i < s.len() implies '\0' <= #[trigger] s[i] <= '\u{7f}' by {
            if i > 0 {
                assert(is_hex_digit_char(s[i]));
            }
        }
    }
    vstd::utf8::is_ascii_chars_encode_utf8(s);
    let e = vstd::utf8::encode_utf8(s);
    assert(e[0] == 35);
    let t = e.drop_first();
    assert(e.skip(1) =~= t);
    assert forall|k: int| 0 <= k < 8 implies t[k] == s[k + 1] as u8 by {
        assert(t[k] == e[k + 1]);
    }
    assert(is_hex_digit_char(s[1]));
    assert(t[0] != 35);
    assert(skip_hash_bytes(t) == t);
    let ghost vals: Seq<nat> = Seq::new(8, |k: int| hex_digit_value(s[k + 1] as u8)->0);
    assert forall|k: int| 0 <= k < 8 implies {
        &&& hex_digit_value(#[trigger] t[k]) == Some(vals[k])
        &&& vals[k] < 16
        &&& hex_char(vals[k]) == ascii_lower(s[k + 1])
    } by {
        assert(is_hex_digit_char(s[k + 1]));
        lemma_hex_digit_lower(s[k + 1]);
    }
    let (r, g, b, a) = color_channels_spec(e);
    assert(t[0] == s[1] as u8 && t[1] == s[2] as u8);
    assert(hex_digit_value(t[0]) == Some(vals[0]) && hex_digit_value(t[1]) == Some(vals[1]));
    assert(hex_digit_value(t[2]) == Some(vals[2]) && hex_digit_value(t[3]) == Some(vals[3]));
    assert(hex_digit_value(t[4]) == Some(vals[4]) && hex_digit_value(t[5]) == Some(vals[5]));
    assert(hex_digit_value(t[6]) == Some(vals[6]) && hex_digit_value(t[7]) == Some(vals[7]));
    assert(r == 16 * vals[0] + vals[1]);
    assert(g == 16 * vals[2] + vals[3]);
    assert(b == 16 * vals[4] + vals[5]);
    assert(a == 16 * vals[6] + vals[7]);
    let bs = seq![r, g, b, a];
    reveal_with_fuel(lower_hex_text, 5);
    assert(bs.drop_last().drop_last().drop_last().drop_last() =~= Seq::<u8>::empty());
    let h = lower_hex_text(bs);
    assert(h =~= seq![
        hex_char((r / 16) as nat), hex_char((r % 16) as nat),
        hex_char((g / 16) as nat), hex_char((g % 16) as nat),
        hex_char((b / 16) as nat), hex_char((b % 16) as nat),
        hex_char((a / 16) as nat), hex_char((a % 16) as nat),
    ]);
    assert(r / 16 == vals[0] && r % 16 == vals[1]);
    assert(g / 16 == vals[2] && g % 16 == vals[3]);
    assert(b / 16 == vals[4] && b % 16 == vals[5]);
    assert(a / 16 == vals[6] && a % 16 == vals[7]);
    reveal_strlit("#");
    assert(color_text_spec(r, g, b, a) =~= s.map_values(|c: char| ascii_lower(c)));
}

} // verus!
