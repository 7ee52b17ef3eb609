//! Character-sequence helpers shared by the text formats of the library.

use vstd::prelude::*;

verus! {

/// Copies the characters of `s` into a vector.
pub fn chars_of(s: &str) -> (v: Vec<char>)
    ensures
        v@ == s@,
{
    let mut v: Vec<char> = Vec::new();
    for c in it: s.chars()
        invariant
            v@ == it.seq().take(it.index() as int),
            it.seq() == s@,
    {
        v.push(c);
    }
    v
}

/// An owned copy of `s`.
pub fn string_of(s: &str) -> (r: String)
    ensures
        r@ == s@,
{
    s.to_owned()
}

/// Builds a `String` from a vector of characters (`String::from_iter`).
#[verifier::external_body]
pub(crate) fn string_from_chars(chars: Vec<char>) -> (s: String)
    ensures
        s@ == chars@,
{
    String::from_iter(chars)
}


/// Unicode `White_Space`, the set that `char::is_whitespace` tests.
pub open spec fn is_whitespace(c: char) -> bool {
    ||| c == ' '
    ||| ('\t' <= c <= '\r')
    ||| c == '\u{85}'
    ||| c == '\u{a0}'
    ||| c == '\u{1680}'
    ||| ('\u{2000}' <= c <= '\u{200a}')
    ||| c == '\u{2028}'
    ||| c == '\u{2029}'
    ||| c == '\u{202f}'
    ||| c == '\u{205f}'
    ||| c == '\u{3000}'
}

/// What `trim_start_matches` keeps: `s` without its leading characters in `p`.
pub open spec fn trim_start_by(s: Seq<char>, p: spec_fn(char) -> bool) -> Seq<char>
    decreases s.len(),
{
    if s.len() > 0 && p(s[0]) {
        trim_start_by(s.drop_first(), p)
    } else {
        s
    }
}

/// What `trim_end_matches` keeps: `s` without its trailing characters in `p`.
pub open spec fn trim_end_by(s: Seq<char>, p: spec_fn(char) -> bool) -> Seq<char>
    decreases s.len(),
{
    if s.len() > 0 && p(s.last()) {
        trim_end_by(s.drop_last(), p)
    } else {
        s
    }
}

/// What `trim_matches` keeps.
pub open spec fn trim_by(s: Seq<char>, p: spec_fn(char) -> bool) -> Seq<char> {
    trim_end_by(trim_start_by(s, p), p)
}

pub open spec fn whitespace_pred() -> spec_fn(char) -> bool {
    |c: char| is_whitespace(c)
}

/// `str::trim`.
pub open spec fn trim(s: Seq<char>) -> Seq<char> {
    trim_by(s, whitespace_pred())
}

/// Which characters an exec trim removes: whitespace, or one given character.
pub open spec fn trim_pred(target: Option<char>) -> spec_fn(char) -> bool {
    match target {
        None => whitespace_pred(),
        Some(t) => |c: char| c == t,
    }
}

pub fn char_is_whitespace(c: char) -> (b: bool)
    ensures
        b == is_whitespace(c),
{
    c == ' ' || ('\t' <= c && c <= '\r') || c == '\u{85}' || c == '\u{a0}' || c == '\u{1680}'
        || ('\u{2000}' <= c && c <= '\u{200a}') || c == '\u{2028}' || c == '\u{2029}'
        || c == '\u{202f}' || c == '\u{205f}' || c == '\u{3000}'
}

fn trimmed_away(c: char, target: Option<char>) -> (b: bool)
    ensures
        b == (trim_pred(target))(c),
{
    match target {
        None => char_is_whitespace(c),
        Some(t) => c == t,
    }
}

proof fn lemma_trim_start_skip(s: Seq<char>, p: spec_fn(char) -> bool, i: int)
    requires
        0 <= i < s.len(),
        p(s[i]),
    ensures
        trim_start_by(s.skip(i), p) == trim_start_by(s.skip(i + 1), p),
{
    assert(s.skip(i).drop_first() =~= s.skip(i + 1));
}

proof fn lemma_trim_end_take(s: Seq<char>, p: spec_fn(char) -> bool, j: int)
    requires
        0 < j <= s.len(),
        p(s[j - 1]),
    ensures
        trim_end_by(s.take(j), p) == trim_end_by(s.take(j - 1), p),
{
    assert(s.take(j).drop_last() =~= s.take(j - 1));
}

/// Removes leading and trailing characters: whitespace when `target` is `None`,
/// else the character `target`.
pub fn trim_vec(v: &Vec<char>, target: Option<char>) -> (r: Vec<char>)
    ensures
        r@ == trim_by(v@, trim_pred(target)),
{
    let ghost p = trim_pred(target);
    let n = v.len();
    let mut i: usize = 0;
    assert(v@.skip(0) =~= v@);
    while i < n && trimmed_away(v[i], target)
        invariant
            i <= n,
            n == v@.len(),
            p == trim_pred(target),
            trim_start_by(v@, p) == trim_start_by(v@.skip(i as int), p),
        decreases n - i,
    {
        proof {
            lemma_trim_start_skip(v@, p, i as int);
        }
        i = i + 1;
    }
    let ghost start = v@.skip(i as int);
    assert(trim_start_by(start, p) == start);
    let mut j: usize = n;
    assert(start.take(start.len() as int) =~= start);
    while j > i && trimmed_away(v[j - 1], target)
        invariant
            i <= j <= n,
            n == v@.len(),
            p == trim_pred(target),
            start == v@.skip(i as int),
            trim_end_by(start, p) == trim_end_by(start.take(j - i), p),
        decreases j,
    {
        proof {
            assert(start[j - i - 1] == v@[j - 1]);
            lemma_trim_end_take(start, p, j - i);
        }
        j = j - 1;
    }
    let mut r: Vec<char> = Vec::new();
    let mut k: usize = i;
    while k < j
        invariant
            i <= k <= j <= n,
            n == v@.len(),
            r@ == v@.subrange(i as int, k as int),
        decreases j - k,
    {
        r.push(v[k]);
        k = k + 1;
    }
    proof {
        assert(r@ =~= start.take(j - i));
        if j > i {
            assert(!p(start.take(j - i).last()));
        }
    }
    r
}


/// `s.starts_with(p)`.
pub open spec fn has_prefix(s: Seq<char>, p: Seq<char>) -> bool {
    p.len() <= s.len() && s.take(p.len() as int) == p
}

/// `s.ends_with(p)`.
pub open spec fn has_suffix(s: Seq<char>, p: Seq<char>) -> bool {
    p.len() <= s.len() && s.skip(s.len() - p.len()) == p
}

/// `pat` occurs in `s` starting at index `i`.
pub open spec fn occurs_at(s: Seq<char>, pat: Seq<char>, i: int) -> bool {
    0 <= i && i + pat.len() <= s.len() && s.subrange(i, i + pat.len()) == pat
}

/// The characters of `v` from `lo` up to `hi`.
pub fn slice_vec(v: &Vec<char>, lo: usize, hi: usize) -> (r: Vec<char>)
    requires
        lo <= hi <= v@.len(),
    ensures
        r@ == v@.subrange(lo as int, hi as int),
{
    let mut r: Vec<char> = Vec::new();
    let mut k: usize = lo;
    while k < hi
        invariant
            lo <= k <= hi <= v@.len(),
            r@ == v@.subrange(lo as int, k as int),
        decreases hi - k,
    {
        r.push(v[k]);
        k = k + 1;
    }
    r
}

/// Appends the characters of `src` to `dst`.
pub fn append_vec(dst: &mut Vec<char>, src: &Vec<char>)
    ensures
        final(dst)@ == old(dst)@ + src@,
{
    let n = src.len();
    let mut k: usize = 0;
    let ghost start = dst@;
    while k < n
        invariant
            k <= n,
            n == src@.len(),
            dst@ == start + src@.take(k as int),
        decreases n - k,
    {
        dst.push(src[k]);
        k = k + 1;
        assert(src@.take(k as int) =~= src@.take(k - 1).push(src@[k - 1]));
    }
    assert(src@.take(n as int) =~= src@);
}

/// Appends the characters of `s` to `dst`.
pub fn append_str(dst: &mut Vec<char>, s: &str)
    ensures
        final(dst)@ == old(dst)@ + s@,
{
    let cs = chars_of(s);
    append_vec(dst, &cs);
}

/// Whether `pat` occurs in `s` at index `i`.
pub fn matches_at(s: &Vec<char>, pat: &Vec<char>, i: usize) -> (b: bool)
    ensures
        b == occurs_at(s@, pat@, i as int),
{
    let m = pat.len();
    if i > s.len() || m > s.len() - i {
        return false;
    }
    let mut k: usize = 0;
    while k < m
        invariant
            k <= m,
            m == pat@.len(),
            i + m <= s@.len(),
            s@.len() == s.len(),
            forall|t: int| 0 <= t < k ==> s@[i + t] == pat@[t],
        decreases m - k,
    {
        if s[i + k] != pat[k] {
            assert(s@.subrange(i as int, i + m)[k as int] != pat@[k as int]);
            return false;
        }
        k = k + 1;
    }
    assert(s@.subrange(i as int, i + m) =~= pat@);
    true
}

/// `s.starts_with(p)`.
pub fn starts_with(s: &Vec<char>, p: &Vec<char>) -> (b: bool)
    ensures
        b == has_prefix(s@, p@),
{
    let r = matches_at(s, p, 0);
    proof {
        if p@.len() <= s@.len() {
            assert(s@.subrange(0, p@.len() as int) =~= s@.take(p@.len() as int));
        }
    }
    r
}

/// `s.ends_with(p)`.
pub fn ends_with(s: &Vec<char>, p: &Vec<char>) -> (b: bool)
    ensures
        b == has_suffix(s@, p@),
{
    if p.len() > s.len() {
        return false;
    }
    let r = matches_at(s, p, s.len() - p.len());
    proof {
        assert(s@.subrange(s@.len() - p@.len(), s@.len() as int) =~= s@.skip(s@.len() - p@.len()));
    }
    r
}

/// `s == t` on character vectors.
pub fn same_chars(s: &Vec<char>, t: &Vec<char>) -> (b: bool)
    ensures
        b == (s@ == t@),
{
    if s.len() != t.len() {
        return false;
    }
    let r = starts_with(s, t);
    proof {
        assert(s@.take(t@.len() as int) =~= s@);
    }
    r
}

/// Whether the characters of `s` are those of the literal `lit`.
pub fn equals_str(s: &Vec<char>, lit: &str) -> (b: bool)
    ensures
        b == (s@ == lit@),
{
    let l = chars_of(lit);
    same_chars(s, &l)
}


/// The character views of a sequence of character vectors.
pub open spec fn views(v: Seq<Vec<char>>) -> Seq<Seq<char>> {
    v.map_values(|x: Vec<char>| x@)
}

/// Index of the first `'\n'` at or after `i`, or `s.len()` when there is none.
pub open spec fn line_end(s: Seq<char>, i: int) -> int
    decreases s.len() - i,
{
    if i >= s.len() {
        s.len() as int
    } else if s[i] == '\n' {
        i
    } else {
        line_end(s, i + 1)
    }
}

pub proof fn lemma_line_end_bounds(s: Seq<char>, i: int)
    requires
        0 <= i,
    ensures
        i < s.len() ==> i <= line_end(s, i) <= s.len(),
        i >= s.len() ==> line_end(s, i) == s.len(),
        line_end(s, i) < s.len() ==> s[line_end(s, i)] == '\n',
        forall|k: int| i <= k < line_end(s, i) ==> s[k] != '\n',
    decreases s.len() - i,
{
    if i < s.len() && s[i] != '\n' {
        lemma_line_end_bounds(s, i + 1);
    }
}

/// The line that starts at `i`: up to the next `'\n'`, without it, and without a
/// `'\r'` just before it.
pub open spec fn line_at(s: Seq<char>, i: int) -> Seq<char> {
    let e = line_end(s, i);
    let raw = s.subrange(i, e);
    if e < s.len() && raw.len() > 0 && raw.last() == '\r' {
        raw.drop_last()
    } else {
        raw
    }
}

/// The lines that `str::lines` yields from index `i` on.
pub open spec fn lines_from(s: Seq<char>, i: int) -> Seq<Seq<char>>
    decreases s.len() - i,
{
    if i < 0 || i >= s.len() {
        Seq::empty()
    } else {
        proof {
            lemma_line_end_bounds(s, i);
        }
        if line_end(s, i) >= s.len() {
            seq![line_at(s, i)]
        } else {
            seq![line_at(s, i)] + lines_from(s, line_end(s, i) + 1)
        }
    }
}

/// `str::lines`: split at `"\n"` or `"\r\n"`; a final line ending adds no empty line.
pub open spec fn lines_of(s: Seq<char>) -> Seq<Seq<char>> {
    lines_from(s, 0)
}

/// Splits `s` into its lines, as `str::lines` does.
pub fn split_lines(s: &Vec<char>) -> (r: Vec<Vec<char>>)
    ensures
        views(r@) == lines_of(s@),
{
    let n = s.len();
    let mut r: Vec<Vec<char>> = Vec::new();
    let mut i: usize = 0;
    assert(views(r@) + lines_from(s@, 0) =~= lines_of(s@));
    while i < n
        invariant
            i <= n,
            n == s@.len(),
            views(r@) + lines_from(s@, i as int) == lines_of(s@),
        decreases n - i,
    {
        let mut j: usize = i;
        while j < n && s[j] != '\n'
            invariant
                i <= j <= n,
                n == s@.len(),
                line_end(s@, i as int) == line_end(s@, j as int),
            decreases n - j,
        {
            j = j + 1;
        }
        proof {
            lemma_line_end_bounds(s@, i as int);
        }
        let mut hi = j;
        if j < n && j > i && s[j - 1] == '\r' {
            hi = j - 1;
        }
        let line = slice_vec(s, i, hi);
        proof {
            assert(line@ == line_at(s@, i as int));
            assert(lines_from(s@, i as int) =~= seq![line@] + lines_from(s@, j + 1));
            assert(views(r@.push(line)) =~= views(r@).push(line@));
            assert(views(r@).push(line@) + lines_from(s@, j + 1) =~= views(r@) + (seq![line@]
                + lines_from(s@, j + 1)));
        }
        r.push(line);
        if j < n {
            i = j + 1;
        } else {
            i = n;
            proof {
                assert(lines_from(s@, j + 1) =~= Seq::<Seq<char>>::empty());
            }
        }
    }
    proof {
        assert(lines_from(s@, i as int) =~= Seq::<Seq<char>>::empty());
        assert(views(r@) + Seq::<Seq<char>>::empty() =~= views(r@));
    }
    r
}

/// Joins lines with `'\n'` between them, as `[..].join("\n")` does.
pub open spec fn join_lines(ls: Seq<Seq<char>>) -> Seq<char>
    decreases ls.len(),
{
    if ls.len() == 0 {
        Seq::empty()
    } else if ls.len() == 1 {
        ls[0]
    } else {
        join_lines(ls.drop_last()) + seq!['\n'] + ls.last()
    }
}

/// `ls.join("\n")`.
pub fn join_with_newlines(ls: &Vec<Vec<char>>) -> (r: Vec<char>)
    ensures
        r@ == join_lines(views(ls@)),
{
    let n = ls.len();
    let mut r: Vec<char> = Vec::new();
    let mut k: usize = 0;
    while k < n
        invariant
            k <= n,
            n == ls@.len(),
            r@ == join_lines(views(ls@).take(k as int)),
        decreases n - k,
    {
        if k > 0 {
            r.push('\n');
        }
        append_vec(&mut r, &ls[k]);
        proof {
            let t = views(ls@).take(k + 1);
            assert(t.drop_last() =~= views(ls@).take(k as int));
            assert(t.last() == ls@[k as int]@);
            if k == 0 {
                assert(r@ =~= t[0]);
            } else {
                assert(r@ =~= join_lines(t.drop_last()) + seq!['\n'] + t.last());
            }
        }
        k = k + 1;
    }
    assert(views(ls@).take(n as int) =~= views(ls@));
    r
}


pub open spec fn is_ascii_digit(c: char) -> bool {
    '0' <= c <= '9'
}

pub open spec fn digit_value(c: char) -> nat {
    (c as int - '0' as int) as nat
}

/// The character of a decimal digit.
pub open spec fn digit_char(d: nat) -> char {
    ((d + '0' as int) as u32) as char
}

/// The number that a string of decimal digits writes.
pub open spec fn decimal_value(ds: Seq<char>) -> nat
    decreases ds.len(),
{
    if ds.len() == 0 {
        0
    } else {
        decimal_value(ds.drop_last()) * 10 + digit_value(ds.last())
    }
}

/// Decimal notation of `n`, without leading zeros, as `Display` writes it.
pub open spec fn decimal_text(n: nat) -> Seq<char>
    decreases n,
{
    if n < 10 {
        seq![digit_char(n)]
    } else {
        decimal_text(n / 10) + seq![digit_char(n % 10)]
    }
}

/// `Display` of a signed integer.
pub open spec fn int_text(n: int) -> Seq<char> {
    if n < 0 {
        seq!['-'] + decimal_text((-n) as nat)
    } else {
        decimal_text(n as nat)
    }
}

/// What `str::parse::<u32>` gives for a string of ASCII digits.
pub open spec fn parse_u32_spec(ds: Seq<char>) -> Option<u32> {
    if ds.len() == 0 || decimal_value(ds) > u32::MAX {
        None
    } else {
        Some(decimal_value(ds) as u32)
    }
}

pub proof fn lemma_decimal_value_monotone(ds: Seq<char>, k: int)
    requires
        0 <= k <= ds.len(),
        forall|i: int| 0 <= i < ds.len() ==> is_ascii_digit(#[trigger] ds[i]),
    ensures
        decimal_value(ds.take(k)) <= decimal_value(ds),
    decreases ds.len() - k,
{
    if k < ds.len() {
        let t = ds.take(k + 1);
        assert(t.drop_last() =~= ds.take(k));
        lemma_decimal_value_monotone(ds, k + 1);
    } else {
        assert(ds.take(k) =~= ds);
    }
}

/// Parses a string of ASCII digits as a `u32`; `None` when it is empty or too large.
pub fn parse_u32_digits(ds: &Vec<char>) -> (r: Option<u32>)
    requires
        forall|i: int| 0 <= i < ds@.len() ==> is_ascii_digit(#[trigger] ds@[i]),
    ensures
        r == parse_u32_spec(ds@),
{
    let n = ds.len();
    if n == 0 {
        return None;
    }
    let mut acc: u32 = 0;
    let mut k: usize = 0;
    assert(ds@.take(0) =~= Seq::<char>::empty());
    while k < n
        invariant
            k <= n,
            n == ds@.len(),
            forall|i: int| 0 <= i < ds@.len() ==> is_ascii_digit(#[trigger] ds@[i]),
            acc == decimal_value(ds@.take(k as int)),
        decreases n - k,
    {
        let c = ds[k];
        let d: u32 = (c as u32) - ('0' as u32);
        let ghost t = ds@.take(k + 1);
        assert(t.drop_last() =~= ds@.take(k as int));
        assert(t.last() == c);
        match acc.checked_mul(10) {
            None => {
                proof {
                    lemma_decimal_value_monotone(ds@, k + 1);
                }
                return None;
            },
            Some(m) => match m.checked_add(d) {
                None => {
                    proof {
                        lemma_decimal_value_monotone(ds@, k + 1);
                    }
                    return None;
                },
                Some(v) => {
                    acc = v;
                },
            },
        }
        k = k + 1;
    }
    assert(ds@.take(n as int) =~= ds@);
    Some(acc)
}

fn digit_to_char(d: u32) -> (c: char)
    requires
        d < 10,
    ensures
        c == digit_char(d as nat),
        is_ascii_digit(c),
{
    let b: u8 = (d as u8) + 48;
    b as char
}

/// Decimal notation of `n`.
pub fn u32_text(n: u32) -> (r: Vec<char>)
    ensures
        r@ == decimal_text(n as nat),
    decreases n,
{
    if n < 10 {
        let mut v: Vec<char> = Vec::new();
        v.push(digit_to_char(n));
        proof {
            assert(v@ =~= seq![digit_char(n as nat)]);
        }
        v
    } else {
        let mut v = u32_text(n / 10);
        v.push(digit_to_char(n % 10));
        v
    }
}

/// `Display` of an `i32`.
pub fn i32_text(n: i32) -> (r: Vec<char>)
    ensures
        r@ == int_text(n as int),
{
    if n < 0 {
        let m: u32 = if n == i32::MIN {
            2147483648u32
        } else {
            (-n) as u32
        };
        let digits = u32_text(m);
        let mut v: Vec<char> = Vec::new();
        v.push('-');
        append_vec(&mut v, &digits);
        proof {
            assert(v@ =~= seq!['-'] + digits@);
        }
        v
    } else {
        u32_text(n as u32)
    }
}


/// A line with one trailing `'\r'` removed, as `str::lines` does before a `'\n'`.
pub open spec fn strip_cr(l: Seq<char>) -> Seq<char> {
    if l.len() > 0 && l.last() == '\r' {
        l.drop_last()
    } else {
        l
    }
}

pub open spec fn has_no_newline(l: Seq<char>) -> bool {
    forall|k: int| 0 <= k < l.len() ==> l[k] != '\n'
}

/// Each line followed by `'\n'`.
pub open spec fn terminated(ls: Seq<Seq<char>>) -> Seq<char>
    decreases ls.len(),
{
    if ls.len() == 0 {
        Seq::empty()
    } else {
        ls[0] + seq!['\n'] + terminated(ls.drop_first())
    }
}

pub proof fn lemma_terminated_push(ls: Seq<Seq<char>>, l: Seq<char>)
    ensures
        terminated(ls.push(l)) == terminated(ls) + l + seq!['\n'],
    decreases ls.len(),
{
    if ls.len() == 0 {
        assert(ls.push(l).drop_first() =~= Seq::<Seq<char>>::empty());
        assert(terminated(Seq::<Seq<char>>::empty()) == Seq::<char>::empty());
        assert(ls.push(l)[0] == l);
        assert(terminated(ls.push(l)) =~= l + seq!['\n']);
        assert(terminated(ls) + l + seq!['\n'] =~= l + seq!['\n']);
    } else {
        assert(ls.push(l).drop_first() =~= ls.drop_first().push(l));
        lemma_terminated_push(ls.drop_first(), l);
        assert(terminated(ls.push(l)) =~= ls[0] + seq!['\n'] + (terminated(ls.drop_first()) + l
            + seq!['\n']));
        assert(terminated(ls) + l + seq!['\n'] =~= ls[0] + seq!['\n'] + terminated(ls.drop_first())
            + l + seq!['\n']);
    }
}

/// Joining non-empty lines with `'\n'` and ending with `'\n'` terminates every line.
pub proof fn lemma_join_terminated(ls: Seq<Seq<char>>)
    requires
        ls.len() > 0,
    ensures
        join_lines(ls) + seq!['\n'] == terminated(ls),
    decreases ls.len(),
{
    if ls.len() == 1 {
        assert(ls.drop_first() =~= Seq::<Seq<char>>::empty());
        assert(terminated(Seq::<Seq<char>>::empty()) == Seq::<char>::empty());
        assert(terminated(ls) =~= ls[0] + seq!['\n']);
    } else {
        lemma_join_terminated(ls.drop_last());
        lemma_terminated_push(ls.drop_last(), ls.last());
        assert(ls.drop_last().push(ls.last()) =~= ls);
        assert(join_lines(ls) + seq!['\n'] =~= join_lines(ls.drop_last()) + seq!['\n'] + ls.last()
            + seq!['\n']);
    }
}

proof fn lemma_line_end_shift(s: Seq<char>, i: int, j: int)
    requires
        0 <= i <= s.len(),
        0 <= j,
    ensures
        line_end(s, i + j) == i + line_end(s.skip(i), j),
    decreases s.len() - (i + j),
{
    if i + j < s.len() {
        assert(s.skip(i)[j] == s[i + j]);
        if s[i + j] != '\n' {
            lemma_line_end_shift(s, i, j + 1);
        }
    }
}

/// The lines from index `i + j` on are those of the text from `i` on, from `j` on.
pub proof fn lemma_lines_from_shift(s: Seq<char>, i: int, j: int)
    requires
        0 <= i <= s.len(),
        0 <= j,
    ensures
        lines_from(s, i + j) == lines_from(s.skip(i), j),
    decreases s.len() - (i + j),
{
    if i + j < s.len() {
        lemma_line_end_shift(s, i, j);
        lemma_line_end_bounds(s, i + j);
        lemma_line_end_bounds(s.skip(i), j);
        let e = line_end(s, i + j);
        assert(s.subrange(i + j, e) =~= s.skip(i).subrange(j, e - i));
        assert(line_at(s, i + j) == line_at(s.skip(i), j));
        if e < s.len() {
            lemma_lines_from_shift(s, i, e + 1 - i);
        }
    }
}

proof fn lemma_line_end_before(s: Seq<char>, m: int, i: int)
    requires
        0 <= i <= m < s.len(),
        s[m] == '\n',
        forall|k: int| 0 <= k < m ==> s[k] != '\n',
    ensures
        line_end(s, i) == m,
    decreases m - i,
{
    if i < m {
        lemma_line_end_before(s, m, i + 1);
    }
}

/// The lines of a text in which every line is terminated by `'\n'` are those lines,
/// less a `'\r'` that ends one.
pub proof fn lemma_lines_of_terminated(ls: Seq<Seq<char>>)
    requires
        forall|k: int| 0 <= k < ls.len() ==> has_no_newline(#[trigger] ls[k]),
    ensures
        lines_of(terminated(ls)) == ls.map_values(|l: Seq<char>| strip_cr(l)),
    decreases ls.len(),
{
    let t = terminated(ls);
    if ls.len() == 0 {
        assert(lines_of(t) =~= Seq::<Seq<char>>::empty());
        assert(ls.map_values(|l: Seq<char>| strip_cr(l)) =~= Seq::<Seq<char>>::empty());
    } else {
        let l0 = ls[0];
        let rest = ls.drop_first();
        assert(has_no_newline(l0));
        assert forall|k: int| 0 <= k < rest.len() implies has_no_newline(#[trigger] rest[k]) by {
            assert(rest[k] == ls[k + 1]);
        }
        lemma_lines_of_terminated(rest);
        let m = l0.len() as int;
        assert(t =~= l0 + seq!['\n'] + terminated(rest));
        assert(t[m] == '\n');
        assert forall|k: int| 0 <= k < m implies t[k] != '\n' by {
            assert(t[k] == l0[k]);
        }
        lemma_line_end_before(t, m, 0);
        assert(t.subrange(0, m) =~= l0);
        assert(line_at(t, 0) == strip_cr(l0));
        assert(t.skip(m + 1) =~= terminated(rest));
        lemma_lines_from_shift(t, m + 1, 0);
        if m + 1 >= t.len() {
            assert(terminated(rest).len() == 0);
            assert(rest.len() == 0) by {
                if rest.len() > 0 {
                    assert(terminated(rest) =~= rest[0] + seq!['\n'] + terminated(rest.drop_first()));
                }
            }
            assert(lines_of(t) =~= seq![strip_cr(l0)]);
        } else {
            assert(lines_of(t) =~= seq![strip_cr(l0)] + lines_of(terminated(rest)));
        }
        assert(ls.map_values(|l: Seq<char>| strip_cr(l)) =~= seq![strip_cr(l0)]
            + rest.map_values(|l: Seq<char>| strip_cr(l)));
    }
}

/// No line that `str::lines` yields holds a `'\n'`.
pub proof fn lemma_lines_have_no_newline(s: Seq<char>, i: int)
    requires
        0 <= i,
    ensures
        forall|k: int| 0 <= k < lines_from(s, i).len() ==> has_no_newline(#[trigger] lines_from(s, i)[k]),
    decreases s.len() - i,
{
    if i < s.len() {
        lemma_line_end_bounds(s, i);
        let e = line_end(s, i);
        let l = line_at(s, i);
        assert(has_no_newline(l)) by {
            assert forall|k: int| 0 <= k < l.len() implies l[k] != '\n' by {
                assert(l[k] == s[i + k]);
            }
        }
        if e < s.len() {
            lemma_lines_have_no_newline(s, e + 1);
            assert forall|k: int| 0 <= k < lines_from(s, i).len() implies has_no_newline(
                #[trigger] lines_from(s, i)[k],
            ) by {
                if k > 0 {
                    assert(lines_from(s, i)[k] == lines_from(s, e + 1)[k - 1]);
                }
            }
        }
    }
}


proof fn lemma_trim_start_push(s: Seq<char>, c: char, p: spec_fn(char) -> bool)
    ensures
        trim_start_by(s.push(c), p) == (if trim_start_by(s, p).len() > 0 {
            trim_start_by(s, p).push(c)
        } else if p(c) {
            Seq::<char>::empty()
        } else {
            seq![c]
        }),
    decreases s.len(),
{
    if s.len() == 0 {
        assert(s.push(c) =~= seq![c]);
        assert(seq![c].drop_first() =~= Seq::<char>::empty());
        assert(trim_start_by(Seq::<char>::empty(), p) == Seq::<char>::empty());
        assert(trim_start_by(s, p) == s);
        assert(seq![c][0] == c);
    } else {
        assert(s.push(c)[0] == s[0]);
        if p(s[0]) {
            assert(s.push(c).drop_first() =~= s.drop_first().push(c));
            lemma_trim_start_push(s.drop_first(), c, p);
        }
    }
}

/// A trailing character that trimming removes does not change what trimming keeps.
pub proof fn lemma_trim_push(s: Seq<char>, c: char, p: spec_fn(char) -> bool)
    requires
        p(c),
    ensures
        trim_by(s.push(c), p) == trim_by(s, p),
{
    lemma_trim_start_push(s, c, p);
    let ts = trim_start_by(s, p);
    if ts.len() > 0 {
        assert(ts.push(c).drop_last() =~= ts);
    }
}

/// Removing a `'\r'` that ends a line does not change the trimmed line.
pub proof fn lemma_trim_strip_cr(l: Seq<char>)
    ensures
        trim(strip_cr(l)) == trim(l),
{
    if l.len() > 0 && l.last() == '\r' {
        assert(l.drop_last().push('\r') =~= l);
        assert((whitespace_pred())('\r'));
        lemma_trim_push(l.drop_last(), '\r', whitespace_pred());
    }
}

/// A text whose first and last characters are not removed by trimming is its own trim.
pub proof fn lemma_trim_noop(s: Seq<char>, p: spec_fn(char) -> bool)
    requires
        s.len() > 0,
        !p(s[0]),
        !p(s.last()),
    ensures
        trim_by(s, p) == s,
{
}


proof fn lemma_digit_char(d: nat)
    requires
        d < 10,
    ensures
        is_ascii_digit(digit_char(d)),
        digit_value(digit_char(d)) == d,
{
    assert(((d + '0' as int) as u32) as char as int == d + 48);
}

/// Decimal notation is non-empty, made of digits, and reads back as the number.
pub proof fn lemma_decimal_text(n: nat)
    ensures
        decimal_text(n).len() > 0,
        forall|i: int| 0 <= i < decimal_text(n).len() ==> is_ascii_digit(#[trigger] decimal_text(n)[i]),
        decimal_value(decimal_text(n)) == n,
    decreases n,
{
    if n < 10 {
        lemma_digit_char(n);
        assert(seq![digit_char(n)].drop_last() =~= Seq::<char>::empty());
        assert(decimal_value(Seq::<char>::empty()) == 0);
        assert(seq![digit_char(n)].last() == digit_char(n));
    } else {
        lemma_decimal_text(n / 10);
        lemma_digit_char(n % 10);
        let t = decimal_text(n);
        assert(t.drop_last() =~= decimal_text(n / 10));
        assert(t.last() == digit_char(n % 10));
        assert(decimal_value(t) == decimal_value(decimal_text(n / 10)) * 10 + digit_value(digit_char(n % 10)));
        assert((n / 10) * 10 + n % 10 == n);
        assert forall|i: int| 0 <= i < t.len() implies is_ascii_digit(#[trigger] t[i]) by {
            if i < t.len() - 1 {
                assert(t[i] == decimal_text(n / 10)[i]);
            }
        }
    }
}


proof fn lemma_line_end_at(u: Seq<char>, i: int, m: int)
    requires
        0 <= i <= m < u.len(),
        u[m] == '\n',
        forall|k: int| i <= k < m ==> u[k] != '\n',
    ensures
        line_end(u, i) == m,
    decreases m - i,
{
    if i < m {
        lemma_line_end_at(u, i + 1, m);
    }
}

proof fn lemma_lines_from_concat(s: Seq<char>, t: Seq<char>, i: int)
    requires
        s.len() > 0,
        s.last() == '\n',
        0 <= i <= s.len(),
    ensures
        lines_from(s + t, i) == lines_from(s, i) + lines_of(t),
    decreases s.len() - i,
{
    let u = s + t;
    if i == s.len() {
        lemma_lines_from_shift(u, i, 0);
        assert(u.skip(i) =~= t);
        assert(lines_from(s, i) =~= Seq::<Seq<char>>::empty());
        assert(lines_from(s, i) + lines_of(t) =~= lines_of(t));
    } else {
        lemma_line_end_bounds(s, i);
        let e = line_end(s, i);
        assert(e < s.len()) by {
            if e >= s.len() {
                assert(s[s.len() - 1] != '\n');
            }
        }
        assert forall|k: int| i <= k < e implies u[k] != '\n' by {
            assert(u[k] == s[k]);
        }
        lemma_line_end_at(u, i, e);
        assert(u.subrange(i, e) =~= s.subrange(i, e));
        assert(line_at(u, i) == line_at(s, i));
        lemma_lines_from_concat(s, t, e + 1);
        assert(lines_from(s, i) == seq![line_at(s, i)] + lines_from(s, e + 1));
        assert(lines_from(u, i) == seq![line_at(u, i)] + lines_from(u, e + 1));
        assert(lines_from(u, i) =~= lines_from(s, i) + lines_of(t));
    }
}

/// The lines of a text that ends with `'\n'`, followed by more text, are the lines
/// of the first part followed by those of the second.
pub proof fn lemma_lines_concat(s: Seq<char>, t: Seq<char>)
    requires
        s.len() > 0,
        s.last() == '\n',
    ensures
        lines_of(s + t) == lines_of(s) + lines_of(t),
{
    lemma_lines_from_concat(s, t, 0);
}

/// A non-empty text without line breaks is one line.
pub proof fn lemma_lines_single(x: Seq<char>)
    requires
        x.len() > 0,
        has_no_newline(x),
    ensures
        lines_of(x) == seq![x],
{
    lemma_line_end_bounds(x, 0);
    assert(x.subrange(0, x.len() as int) =~= x);
}

} // verus!
