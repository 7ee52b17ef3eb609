//! The cached current quote: the text `"quote" — author` that the display shows.

use vstd::prelude::*;
use crate::text::{
    append_str, append_vec, chars_of, matches_at, occurs_at, slice_vec, string_from_chars, trim,
    trim_by, trim_end_by, trim_start_by, trim_pred, trim_vec, whitespace_pred, lemma_trim_noop,
    is_whitespace,
};

verus! {

/// The separator between a quote and its author.
pub open spec fn separator_text() -> Seq<char> {
    " — "@
}

/// The last index at or below `i` where `pat` occurs in `s`.
pub open spec fn last_occurrence_from(s: Seq<char>, pat: Seq<char>, i: int) -> Option<int>
    decreases i + 1,
{
    if i < 0 {
        None
    } else if occurs_at(s, pat, i) {
        Some(i)
    } else {
        last_occurrence_from(s, pat, i - 1)
    }
}

/// `str::rsplit_once`: the text before and after the last occurrence of `pat`.
pub open spec fn rsplit_once_spec(s: Seq<char>, pat: Seq<char>) -> Option<(Seq<char>, Seq<char>)> {
    match last_occurrence_from(s, pat, s.len() - pat.len()) {
        Some(i) => Some((s.take(i), s.skip(i + pat.len()))),
        None => None,
    }
}

/// A quote as the cache stores it, trimmed and without surrounding `"` marks.
pub open spec fn clean_quote(q: Seq<char>) -> Seq<char> {
    trim_by(trim(q), trim_pred(Some('"')))
}

/// What reading the cache text gives: the quote and the author around the last
/// separator, cleaned; nothing when there is no separator.
pub open spec fn cached_quote_spec(raw: Seq<char>) -> Option<(Seq<char>, Seq<char>)> {
    match rsplit_once_spec(raw, separator_text()) {
        Some((q, a)) => Some((clean_quote(q), trim(a))),
        None => None,
    }
}

/// The cache text for a quote and its author.
pub open spec fn cached_text_spec(quote: Seq<char>, author: Seq<char>) -> Seq<char> {
    "\""@ + quote + "\""@ + separator_text() + author
}

/// Splits `s` around the last occurrence of `pat`.
pub fn rsplit_once(s: &Vec<char>, pat: &Vec<char>) -> (r: Option<(Vec<char>, Vec<char>)>)
    ensures
        match rsplit_once_spec(s@, pat@) {
            Some((a, b)) => r is Some && r.unwrap().0@ == a && r.unwrap().1@ == b,
            None => r is None,
        },
{
    let n = s.len();
    let m = pat.len();
    if m > n {
        proof {
            assert(last_occurrence_from(s@, pat@, s@.len() - pat@.len()) is None);
        }
        return None;
    }
    let mut i: usize = n - m;
    loop
        invariant
            i <= n - m,
            m <= n,
            n == s@.len(),
            m == pat@.len(),
            last_occurrence_from(s@, pat@, n - m) == last_occurrence_from(s@, pat@, i as int),
        decreases i,
    {
        if matches_at(s, pat, i) {
            let before = slice_vec(s, 0, i);
            let after = slice_vec(s, i + m, n);
            proof {
                assert(before@ =~= s@.take(i as int));
                assert(after@ =~= s@.skip(i + m));
            }
            return Some((before, after));
        }
        if i == 0 {
            return None;
        }
        i = i - 1;
    }
}

/// Reads the cache text back as a quote and its author; `None` without a separator.
pub fn parse_cached_quote(raw_text: &str) -> (r: Option<(String, String)>)
    ensures
        match cached_quote_spec(raw_text@) {
            Some((q, a)) => r is Some && r.unwrap().0@ == q && r.unwrap().1@ == a,
            None => r is None,
        },
{
    let raw = chars_of(raw_text);
    let sep = chars_of(" — ");
    match rsplit_once(&raw, &sep) {
        None => None,
        Some((quote, author)) => {
            let q1 = trim_vec(&quote, None);
            let q2 = trim_vec(&q1, Some('"'));
            let a = trim_vec(&author, None);
            proof {
                assert(trim_pred(None) == crate::text::whitespace_pred());
            }
            Some((string_from_chars(q2), string_from_chars(a)))
        },
    }
}

/// The cache text `"quote" — author`.
pub fn format_cached_quote(quote: &str, author: &str) -> (r: String)
    ensures
        r@ == cached_text_spec(quote@, author@),
{
    let mut v = chars_of("\"");
    append_str(&mut v, quote);
    append_str(&mut v, "\"");
    append_str(&mut v, " — ");
    append_str(&mut v, author);
    string_from_chars(v)
}


proof fn lemma_last_occurrence_is(s: Seq<char>, pat: Seq<char>, i0: int, start: int)
    requires
        0 <= i0 <= start,
        occurs_at(s, pat, i0),
        forall|j: int| i0 < j <= start ==> !occurs_at(s, pat, j),
    ensures
        last_occurrence_from(s, pat, start) == Some(i0),
    decreases start - i0,
{
    if start > i0 {
        lemma_last_occurrence_is(s, pat, i0, start - 1);
    }
}

/// Reading the cache back gives the quote and author that were written, for a quote
/// that neither starts nor ends with `"`, and a trimmed author name without `—`.
pub proof fn lemma_cached_quote_round_trip(q: Seq<char>, a: Seq<char>)
    requires
        q.len() == 0 || (q[0] != '"' && q.last() != '"'),
        trim(a) == a,
        forall|k: int| 0 <= k < a.len() ==> a[k] != '—',
    ensures
        cached_quote_spec(cached_text_spec(q, a)) == Some((q, a)),
{
    reveal_strlit(" — ");
    reveal_strlit("\"");
    let sep = separator_text();
    let t = cached_text_spec(q, a);
    let i0: int = q.len() as int + 2;
    assert(t =~= seq!['"'] + q + seq!['"'] + seq![' ', '—', ' '] + a);
    assert(t.subrange(i0, i0 + 3) =~= sep);
    assert forall|j: int| i0 < j <= t.len() - 3 implies !occurs_at(t, sep, j) by {
        if occurs_at(t, sep, j) {
            assert(t.subrange(j, j + 3)[1] == '—');
            assert(t[j + 1] == '—');
            if j + 1 == i0 + 2 {
                assert(t[i0 + 2] == ' ');
            } else {
                assert(t[j + 1] == a[j + 1 - i0 - 3]);
            }
        }
    }
    lemma_last_occurrence_is(t, sep, i0, t.len() - 3);
    let before = t.take(i0);
    assert(before =~= seq!['"'] + q + seq!['"']);
    assert(t.skip(i0 + 3) =~= a);
    lemma_trim_noop(before, whitespace_pred());
    let p = trim_pred(Some('"'));
    assert(before.drop_first() =~= q + seq!['"']);
    let inner = q + seq!['"'];
    assert(p(before[0]));
    assert(trim_start_by(before, p) == trim_start_by(inner, p));
    if q.len() == 0 {
        assert(inner =~= seq!['"']);
        assert(inner.drop_first() =~= Seq::<char>::empty());
        assert(p(inner[0]));
        assert(trim_start_by(Seq::<char>::empty(), p) == Seq::<char>::empty());
        assert(trim_start_by(before, p) == Seq::<char>::empty());
    } else {
        assert(inner[0] == q[0]);
        assert(!p(inner[0]));
        assert(trim_start_by(before, p) == inner);
        assert(inner.drop_last() =~= q);
        assert(trim_end_by(inner, p) == trim_end_by(q, p));
    }
}


/// Whether the cache text holds anything besides whitespace.
pub fn has_visible_text(text: &str) -> (r: bool)
    ensures
        r == (trim(text@).len() > 0),
{
    let cs = chars_of(text);
    let t = trim_vec(&cs, None);
    assert(trim_pred(None) == whitespace_pred());
    t.len() > 0
}

} // verus!
