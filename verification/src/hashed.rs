//! The hashed settings files: a JSON document followed by a line `hash:<sha1>`.

use vstd::prelude::*;
use crate::digest::{is_lower_hex_digit, lemma_lower_hex_text, sha1_hex, sha1_hex_of};
use crate::text::{
    append_str, append_vec, chars_of, has_no_newline, has_prefix, lemma_line_end_bounds,
    lemma_lines_from_shift, lines_from, lines_of, slice_vec, split_lines, starts_with,
    string_from_chars, terminated, views, lemma_lines_concat, lemma_lines_single, lemma_terminated_push,
};

verus! {

/// What a reader of a hashed file keeps after some lines: the JSON lines, each ended
/// by `'\n'`, and the text after `hash:` on the last line that starts with it.
pub open spec fn hashed_split_scan(lines: Seq<Seq<char>>) -> (Seq<char>, Seq<char>)
    decreases lines.len(),
{
    if lines.len() == 0 {
        (Seq::empty(), Seq::empty())
    } else {
        let (json, hash) = hashed_split_scan(lines.drop_last());
        let l = lines.last();
        if has_prefix(l, "hash:"@) {
            (json, l.skip("hash:"@.len() as int))
        } else {
            (json + l + seq!['\n'], hash)
        }
    }
}

/// The JSON part and the recorded hash of a hashed file.
pub open spec fn hashed_split_spec(contents: Seq<char>) -> (Seq<char>, Seq<char>) {
    hashed_split_scan(lines_of(contents))
}

/// A hashed file's text: the JSON document, a line break, and `hash:` with the hash.
pub open spec fn hashed_text_spec(json: Seq<char>, hash: Seq<char>) -> Seq<char> {
    json + seq!['\n'] + "hash:"@ + hash
}

/// Splits a hashed file into its JSON part and the hash it records.
pub fn split_hashed_contents(contents: &str) -> (r: (String, String))
    ensures
        (r.0@, r.1@) == hashed_split_spec(contents@),
{
    let cs = chars_of(contents);
    let lines = split_lines(&cs);
    let ghost ls = lines_of(contents@);
    let key = chars_of("hash:");
    let n = lines.len();
    let mut json: Vec<char> = Vec::new();
    let mut hash: Vec<char> = Vec::new();
    let mut i: usize = 0;
    assert(ls.take(0) =~= Seq::<Seq<char>>::empty());
    while i < n
        invariant
            i <= n,
            n == lines@.len(),
            views(lines@) == ls,
            key@ == "hash:"@,
            hashed_split_scan(ls.take(i as int)) == (json@, hash@),
        decreases n - i,
    {
        proof {
            assert(ls.take(i + 1).drop_last() =~= ls.take(i as int));
            assert(ls.take(i + 1).last() == lines@[i as int]@);
        }
        if starts_with(&lines[i], &key) {
            hash = slice_vec(&lines[i], key.len(), lines[i].len());
            assert(hash@ =~= lines@[i as int]@.skip("hash:"@.len() as int));
        } else {
            append_vec(&mut json, &lines[i]);
            json.push('\n');
        }
        i = i + 1;
    }
    assert(ls.take(n as int) =~= ls);
    (string_from_chars(json), string_from_chars(hash))
}

/// The text of a hashed file for `json`, and the hash it records: the SHA-1 of the
/// UTF-8 bytes of `json` in lowercase hexadecimal.
pub fn hashed_json_contents(json: &str) -> (r: (String, String))
    ensures
        r.1@ == sha1_hex_of(json@),
        r.0@ == hashed_text_spec(json@, r.1@),
        r.1@.len() == 40,
{
    let hash = sha1_hex(json);
    let mut text = chars_of(json);
    text.push('\n');
    append_str(&mut text, "hash:");
    append_vec(&mut text, &hash);
    proof {
        assert(text@ =~= hashed_text_spec(json@, hash@));
    }
    (string_from_chars(text), string_from_chars(hash))
}


proof fn lemma_scan_without_hash_lines(ls: Seq<Seq<char>>)
    requires
        forall|k: int| 0 <= k < ls.len() ==> !has_prefix(#[trigger] ls[k], "hash:"@),
    ensures
        hashed_split_scan(ls) == (terminated(ls), Seq::<char>::empty()),
    decreases ls.len(),
{
    if ls.len() > 0 {
        let prev = ls.drop_last();
        assert forall|k: int| 0 <= k < prev.len() implies !has_prefix(#[trigger] prev[k], "hash:"@) by {
            assert(prev[k] == ls[k]);
        }
        lemma_scan_without_hash_lines(prev);
        lemma_terminated_push(prev, ls.last());
        assert(prev.push(ls.last()) =~= ls);
        assert(!has_prefix(ls[ls.len() - 1], "hash:"@));
    } else {
        assert(terminated(ls) == Seq::<char>::empty());
    }
}

/// Reading a hashed file back gives the hash that was written, and the document's
/// lines each ended by `'\n'`, when no line of the document starts with `hash:`.
pub proof fn lemma_hashed_round_trip(json: Seq<char>, hash: Seq<char>)
    requires
        has_no_newline(hash),
        forall|k: int|
            0 <= k < lines_of(json + seq!['\n']).len() ==> !has_prefix(
                #[trigger] lines_of(json + seq!['\n'])[k],
                "hash:"@,
            ),
    ensures
        hashed_split_spec(hashed_text_spec(json, hash)) == (
            terminated(lines_of(json + seq!['\n'])),
            hash,
        ),
{
    reveal_strlit("hash:");
    let head = json + seq!['\n'];
    let x = "hash:"@ + hash;
    assert(hashed_text_spec(json, hash) =~= head + x);
    assert(has_no_newline(x)) by {
        assert forall|k: int| 0 <= k < x.len() implies x[k] != '\n' by {
            if k >= 5 {
                assert(x[k] == hash[k - 5]);
            }
        }
    }
    lemma_lines_concat(head, x);
    lemma_lines_single(x);
    let ls = lines_of(head);
    lemma_scan_without_hash_lines(ls);
    let all = ls + seq![x];
    assert(all.drop_last() =~= ls);
    assert(all.last() == x);
    assert(x.take(5) =~= "hash:"@);
    assert(x.skip(5) =~= hash);
}

/// The hash that a hashed file records reads back from its text.
pub proof fn lemma_written_hash_reads_back(json: Seq<char>)
    requires
        forall|k: int|
            0 <= k < lines_of(json + seq!['\n']).len() ==> !has_prefix(
                #[trigger] lines_of(json + seq!['\n'])[k],
                "hash:"@,
            ),
    ensures
        hashed_split_spec(hashed_text_spec(json, sha1_hex_of(json))).1 == sha1_hex_of(json),
{
    let h = sha1_hex_of(json);
    crate::digest::lemma_lower_hex_text(crate::digest::sha1_digest_of(vstd::utf8::encode_utf8(json)));
    assert(has_no_newline(h)) by {
        assert forall|k: int| 0 <= k < h.len() implies h[k] != '\n' by {
            assert(is_lower_hex_digit(h[k]));
        }
    }
    lemma_hashed_round_trip(json, h);
}

} // verus!
