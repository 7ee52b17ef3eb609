//! Choosing the author and the quote to show.

use vstd::prelude::*;
use vstd::multiset::Multiset;
use crate::authors::{Author, author_entries};
use crate::text::{chars_of, same_chars, trim, trim_pred, trim_vec};

verus! {

/// The sum of the authors' weights.
pub open spec fn total_weight(authors: Seq<Author>) -> int
    decreases authors.len(),
{
    if authors.len() == 0 {
        0
    } else {
        total_weight(authors.drop_last()) + authors.last().weight
    }
}

/// The author whose share of the weight line holds the point `chosen`: authors take up
/// consecutive stretches of the line, each as long as its weight.
pub open spec fn weighted_pick(authors: Seq<Author>, chosen: int) -> Option<int>
    decreases authors.len(),
{
    if authors.len() == 0 {
        None
    } else if chosen < authors[0].weight {
        Some(0)
    } else {
        match weighted_pick(authors.drop_first(), chosen - authors[0].weight) {
            Some(i) => Some(i + 1),
            None => None,
        }
    }
}

proof fn lemma_total_weight_front(authors: Seq<Author>)
    requires
        authors.len() > 0,
    ensures
        total_weight(authors) == authors[0].weight + total_weight(authors.drop_first()),
    decreases authors.len(),
{
    if authors.len() > 1 {
        lemma_total_weight_front(authors.drop_last());
        assert(authors.drop_last().drop_first() =~= authors.drop_first().drop_last());
        assert(authors.drop_first().last() == authors.last());
        assert(authors.drop_last()[0] == authors[0]);
        let df = authors.drop_first();
        assert(total_weight(df) == total_weight(df.drop_last()) + df.last().weight);
        assert(total_weight(authors) == total_weight(authors.drop_last()) + authors.last().weight);
    } else {
        assert(authors.drop_first().len() == 0);
        assert(authors.drop_last() =~= Seq::<Author>::empty());
        assert(authors.drop_first() =~= Seq::<Author>::empty());
        assert(total_weight(Seq::<Author>::empty()) == 0);
        assert(authors.last() == authors[0]);
    }
}

/// The weight before index `i`.
pub open spec fn weight_before(authors: Seq<Author>, i: int) -> int {
    total_weight(authors.take(i))
}

/// The weighted choice picks an author with a positive weight whose stretch holds the
/// point, and it picks one for every point below the total weight.
pub proof fn lemma_weighted_pick(authors: Seq<Author>, chosen: int)
    requires
        0 <= chosen,
    ensures
        match weighted_pick(authors, chosen) {
            Some(i) => {
                &&& 0 <= i < authors.len()
                &&& authors[i].weight > 0
                &&& weight_before(authors, i) <= chosen < weight_before(authors, i)
                    + authors[i].weight
            },
            None => chosen >= total_weight(authors),
        },
    decreases authors.len(),
{
    if authors.len() > 0 {
        lemma_total_weight_front(authors);
        assert(authors.take(0) =~= Seq::<Author>::empty());
        if chosen >= authors[0].weight {
            let rest = authors.drop_first();
            lemma_weighted_pick(rest, chosen - authors[0].weight);
            match weighted_pick(rest, chosen - authors[0].weight) {
                Some(i) => {
                    lemma_total_weight_front(authors.take(i + 1));
                    assert(authors.take(i + 1).drop_first() =~= rest.take(i));
                    assert(authors.take(i + 1)[0] == authors[0]);
                },
                None => {},
            }
        }
    }
}

/// Each point of an author's stretch of the weight line picks that author: an author of
/// weight `w` is picked by exactly the `w` points from `weight_before` on, so a point drawn
/// uniformly below the total picks it with chance weight over total.
pub proof fn lemma_stretch_picks_author(authors: Seq<Author>, i: int, chosen: int)
    requires
        0 <= i < authors.len(),
        weight_before(authors, i) <= chosen < weight_before(authors, i) + authors[i].weight,
    ensures
        weighted_pick(authors, chosen) == Some(i),
    decreases i,
{
    if i == 0 {
        assert(authors.take(0) =~= Seq::<Author>::empty());
    } else {
        let t = authors.take(i);
        lemma_total_weight_front(t);
        assert(t.drop_first() =~= authors.drop_first().take(i - 1));
        assert(t[0] == authors[0]);
        let rest = authors.drop_first();
        assert(rest[i - 1] == authors[i]);
        lemma_stretch_picks_author(rest, i - 1, chosen - authors[0].weight);
    }
}

/// The index of the author whose stretch of the weight line holds `chosen`.
pub fn author_for_weight(authors: &Vec<Author>, chosen: u32) -> (r: Option<usize>)
    ensures
        r matches Some(i) ==> weighted_pick(authors@, chosen as int) == Some(i as int),
        r is None ==> weighted_pick(authors@, chosen as int) is None,
{
    let n = authors.len();
    let mut left: u32 = chosen;
    let mut i: usize = 0;
    assert(authors@.skip(0) =~= authors@);
    while i < n
        invariant
            i <= n,
            n == authors@.len(),
            weighted_pick(authors@, chosen as int) == match weighted_pick(
                authors@.skip(i as int),
                left as int,
            ) {
                Some(k) => Some(k + i),
                None => None,
            },
        decreases n - i,
    {
        let w = authors[i].weight;
        proof {
            let t = authors@.skip(i as int);
            assert(t[0] == authors@[i as int]);
            assert(t.drop_first() =~= authors@.skip(i + 1));
        }
        if left < w {
            return Some(i);
        }
        left = left - w;
        i = i + 1;
    }
    None
}

/// `rand::random_range(0..len)` from the `rand` crate: a random index below `len`
/// (the range must not be empty). Which one is left open.
#[verifier::external_body]
pub(crate) fn random_index(len: usize) -> (r: usize)
    requires
        len > 0,
    ensures
        r < len,
{
    rand::random_range(0..len)
}

/// Why no author could be chosen.
#[derive(Debug, Clone, Copy, PartialEq, Eq, Structural)]
pub enum WeightError {
    /// The weights add up to zero.
    ZeroTotalWeight,
}

/// The sum of the authors' weights, which must fit in a `u32`.
pub fn total_weight_of(authors: &Vec<Author>) -> (r: u32)
    requires
        total_weight(authors@) <= u32::MAX,
    ensures
        r == total_weight(authors@),
{
    let n = authors.len();
    let mut sum: u32 = 0;
    let mut i: usize = 0;
    assert(authors@.take(0) =~= Seq::<Author>::empty());
    while i < n
        invariant
            i <= n,
            n == authors@.len(),
            total_weight(authors@) <= u32::MAX,
            sum == total_weight(authors@.take(i as int)),
        decreases n - i,
    {
        proof {
            assert(authors@.take(i + 1).drop_last() =~= authors@.take(i as int));
            lemma_total_weight_prefix(authors@, i + 1);
        }
        sum = sum + authors[i].weight;
        i = i + 1;
    }
    assert(authors@.take(n as int) =~= authors@);
    sum
}

proof fn lemma_total_weight_prefix(authors: Seq<Author>, k: int)
    requires
        0 <= k <= authors.len(),
    ensures
        total_weight(authors.take(k)) <= total_weight(authors),
    decreases authors.len() - k,
{
    if k < authors.len() {
        lemma_total_weight_prefix(authors, k + 1);
        assert(authors.take(k + 1).drop_last() =~= authors.take(k));
    } else {
        assert(authors.take(k) =~= authors);
    }
}

/// The author who wins a weighted draw, the chance of each being its weight over the
/// total. Fails when the weights add up to zero.
pub fn weighted_author(authors: &Vec<Author>) -> (r: Result<&str, WeightError>)
    requires
        total_weight(authors@) <= u32::MAX,
    ensures
        r is Err <==> total_weight(authors@) == 0,
        r is Err ==> r == Err::<&str, WeightError>(WeightError::ZeroTotalWeight),
        r matches Ok(name) ==> exists|i: int|
            0 <= i < authors@.len() && authors@[i].weight > 0 && name@ == authors@[i].name@,
        r matches Ok(name) ==> exists|chosen: int, i: int|
            0 <= chosen < total_weight(authors@) && weighted_pick(authors@, chosen) == Some(i)
                && name@ == authors@[i].name@,
{
    let total = total_weight_of(authors);
    if total == 0 {
        return Err(WeightError::ZeroTotalWeight);
    }
    let chosen = random_index(total as usize) as u32;
    proof {
        lemma_weighted_pick(authors@, chosen as int);
    }
    match author_for_weight(authors, chosen) {
        Some(i) => {
            assert(weighted_pick(authors@, chosen as int) == Some(i as int));
            assert(authors@[i as int].weight > 0);
            assert(0 <= chosen < total_weight(authors@));
            Ok(authors[i].name.as_str())
        },
        None => {
            proof {
                assert(weighted_pick(authors@, chosen as int) is Some);
                assert(false);
            }
            Err(WeightError::ZeroTotalWeight)
        },
    }
}

/// The authors with a name that is not blank.
pub open spec fn has_name(e: (Seq<char>, u32)) -> bool {
    trim(e.0).len() > 0
}

/// The authors whose name is not blank, in order.
pub fn named_authors(authors: Vec<Author>) -> (r: Vec<Author>)
    ensures
        author_entries(r@) == author_entries(authors@).filter(|e: (Seq<char>, u32)| has_name(e)),
{
    let ghost p = |e: (Seq<char>, u32)| has_name(e);
    let n = authors.len();
    let mut r: Vec<Author> = Vec::new();
    let mut i: usize = 0;
    assert(author_entries(authors@).take(0) =~= Seq::<(Seq<char>, u32)>::empty());
    while i < n
        invariant
            i <= n,
            n == authors@.len(),
            p == (|e: (Seq<char>, u32)| has_name(e)),
            author_entries(r@) == author_entries(authors@).take(i as int).filter(p),
        decreases n - i,
    {
        let a = &authors[i];
        let cs = chars_of(a.name.as_str());
        let t = trim_vec(&cs, None);
        proof {
            assert(trim_pred(None) == crate::text::whitespace_pred());
            let es = author_entries(authors@);
            assert(es.take(i + 1) =~= es.take(i as int).push(es[i as int]));
            es.take(i as int).lemma_filter_push(es[i as int], p);
            assert(es[i as int] == (authors@[i as int].name@, authors@[i as int].weight));
            assert(t@ == trim(authors@[i as int].name@));
            assert(has_name(es[i as int]) == (t@.len() > 0));
            assert(p(es[i as int]) == has_name(es[i as int]));
        }
        if t.len() > 0 {
            let copy = Author { name: a.name.clone(), weight: a.weight };
            let ghost before = r@;
            r.push(copy);
            proof {
                assert(author_entries(r@) =~= author_entries(before).push(
                    author_entries(authors@)[i as int],
                ));
            }
        }
        i = i + 1;
    }
    assert(author_entries(authors@).take(n as int) =~= author_entries(authors@));
    r
}


/// The texts of a list of strings.
pub open spec fn texts(v: Seq<String>) -> Seq<Seq<char>> {
    v.map_values(|s: String| s@)
}

/// A quote fits when it has at most `max_chars` characters.
pub open spec fn fits(quote: Seq<char>, max_chars: usize) -> bool {
    quote.len() <= max_chars
}

/// Takes the quote at `idx` out of the pool, and gives it back when it fits.
pub fn take_quote_at(pool: &mut Vec<String>, idx: usize, max_chars: usize) -> (r: Option<String>)
    requires
        idx < old(pool)@.len(),
    ensures
        texts(final(pool)@) == texts(old(pool)@).remove(idx as int),
        r is Some <==> fits(old(pool)@[idx as int]@, max_chars),
        r matches Some(q) ==> q@ == old(pool)@[idx as int]@,
{
    let quote = pool.remove(idx);
    proof {
        assert(texts(pool@) =~= texts(old(pool)@).remove(idx as int));
    }
    if quote.as_str().unicode_len() <= max_chars {
        Some(quote)
    } else {
        None
    }
}

/// The quotes `new` are those of `old` at the positions `kept`, in the same order.
pub open spec fn kept_in_order(new: Seq<Seq<char>>, old: Seq<Seq<char>>, kept: Seq<int>) -> bool {
    &&& kept.len() == new.len()
    &&& forall|i: int, j: int| 0 <= i < j < kept.len() ==> #[trigger] kept[i] < #[trigger] kept[j]
    &&& forall|i: int| 0 <= i < kept.len() ==> 0 <= #[trigger] kept[i] < old.len() && new[i] == old[kept[i]]
}

/// Every quote is kept where it is.
pub proof fn lemma_kept_all(old: Seq<Seq<char>>)
    ensures
        kept_in_order(old, old, Seq::new(old.len(), |i: int| i)),
{
}

/// Taking one quote out keeps the others in order.
pub proof fn lemma_kept_remove(new: Seq<Seq<char>>, old: Seq<Seq<char>>, kept: Seq<int>, idx: int)
    requires
        kept_in_order(new, old, kept),
        0 <= idx < new.len(),
    ensures
        kept_in_order(new.remove(idx), old, kept.remove(idx)),
{
    let k2 = kept.remove(idx);
    assert forall|i: int, j: int| 0 <= i < j < k2.len() implies #[trigger] k2[i] < #[trigger] k2[j] by {
        let a = if i < idx { i } else { i + 1 };
        let b = if j < idx { j } else { j + 1 };
        assert(k2[i] == kept[a]);
        assert(k2[j] == kept[b]);
        assert(kept[a] < kept[b]);
    }
    assert forall|i: int| 0 <= i < k2.len() implies 0 <= #[trigger] k2[i] < old.len() && new.remove(idx)[i] == old[k2[i]] by {
        let a = if i < idx { i } else { i + 1 };
        assert(k2[i] == kept[a]);
        assert(new.remove(idx)[i] == new[a]);
    }
}

/// None of the quotes fits.
pub open spec fn all_too_long(quotes: Seq<Seq<char>>, max_chars: usize) -> bool {
    forall|k: int| 0 <= k < quotes.len() ==> !fits(#[trigger] quotes[k], max_chars)
}

/// Draws quotes from the pool at random, taking each drawn one out, until one fits.
/// Every quote taken out and not returned is too long; without a fitting quote the
/// pool ends empty.
pub fn pick_fitting_quote(pool: &mut Vec<String>, max_chars: usize) -> (r: Option<String>)
    ensures
        exists|dropped: Seq<Seq<char>>|
            {
                &&& #[trigger] all_too_long(dropped, max_chars)
                &&& match r {
                    Some(q) => texts(old(pool)@).to_multiset() == texts(final(pool)@).to_multiset().add(
                        dropped.to_multiset(),
                    ).insert(q@),
                    None => texts(old(pool)@).to_multiset() == dropped.to_multiset(),
                }
            },
        r matches Some(q) ==> fits(q@, max_chars),
        r is None ==> final(pool)@.len() == 0,
        exists|kept: Seq<int>| kept_in_order(texts(final(pool)@), texts(old(pool)@), kept),
{
    broadcast use vstd::seq_lib::to_multiset_remove, vstd::seq_lib::to_multiset_build, vstd::multiset::group_multiset_axioms;

    let ghost kept: Seq<int> = Seq::new(pool@.len() as nat, |i: int| i);
    proof {
        lemma_kept_all(texts(pool@));
    }
    let ghost dropped: Seq<Seq<char>> = Seq::empty();
    let ghost start = texts(pool@).to_multiset();
    assert(dropped.to_multiset() =~= Multiset::empty()) by {
        broadcast use vstd::seq_lib::group_to_multiset_ensures;
    }
    assert(start =~= texts(pool@).to_multiset().add(dropped.to_multiset()));
    while pool.len() > 0
        invariant
            forall|k: int| 0 <= k < dropped.len() ==> !fits(#[trigger] dropped[k], max_chars),
            start == texts(pool@).to_multiset().add(dropped.to_multiset()),
            start == texts(old(pool)@).to_multiset(),
            kept_in_order(texts(pool@), texts(old(pool)@), kept),
        decreases pool@.len(),
    {
        let idx = random_index(pool.len());
        let ghost before = texts(pool@);
        let ghost picked = before[idx as int];
        let taken = take_quote_at(pool, idx, max_chars);
        assert(pool@.len() == texts(pool@).len());
        proof {
            lemma_kept_remove(before, texts(old(pool)@), kept, idx as int);
            kept = kept.remove(idx as int);
            vstd::seq_lib::to_multiset_remove(before, idx as int);
            vstd::seq_lib::to_multiset_contains(before, picked);
            assert(before.contains(picked));
            assert(before.to_multiset() =~= before.remove(idx as int).to_multiset().insert(picked));
        }
        match taken {
            Some(q) => {
                assert(all_too_long(dropped, max_chars));
                assert(start =~= texts(pool@).to_multiset().add(dropped.to_multiset()).insert(q@));
                return Some(q);
            },
            None => {
                proof {
                    let d2 = dropped.push(picked);
                    vstd::seq_lib::to_multiset_build(dropped, picked);
                    assert(d2.to_multiset() =~= dropped.to_multiset().insert(picked));
                    assert forall|k: int| 0 <= k < d2.len() implies !fits(#[trigger] d2[k], max_chars) by {
                        if k < dropped.len() {
                            assert(d2[k] == dropped[k]);
                        }
                    }
                    assert(start =~= texts(pool@).to_multiset().add(d2.to_multiset()));
                    dropped = d2;
                }
            },
        }
    }
    assert(texts(pool@).to_multiset() =~= Multiset::empty()) by {
        broadcast use vstd::seq_lib::group_to_multiset_ensures;
    }
    assert(all_too_long(dropped, max_chars));
    None
}

/// Whether some quote in the list fits.
pub fn any_quote_fits(quotes: &Vec<String>, max_chars: usize) -> (r: bool)
    ensures
        r <==> exists|k: int| 0 <= k < quotes@.len() && fits(#[trigger] quotes@[k]@, max_chars),
{
    let n = quotes.len();
    let mut i: usize = 0;
    while i < n
        invariant
            i <= n,
            n == quotes@.len(),
            forall|k: int| 0 <= k < i ==> !fits(#[trigger] quotes@[k]@, max_chars),
        decreases n - i,
    {
        if quotes[i].as_str().unicode_len() <= max_chars {
            assert(fits(quotes@[i as int]@, max_chars));
            return true;
        }
        i = i + 1;
    }
    false
}


/// The pool is fetched anew when the quote box layout changed since the quotes were
/// chosen, or when the pool is empty.
pub fn needs_refetch(saved_hash: &str, current_hash: &str, pool_len: usize) -> (r: bool)
    ensures
        r == (saved_hash@ != current_hash@ || pool_len == 0),
{
    let a = chars_of(saved_hash);
    let b = chars_of(current_hash);
    !same_chars(&a, &b) || pool_len == 0
}


/// Removes every copy of `quote` from the pool, keeping the order of the rest.
pub fn remove_quote(pool: &mut Vec<String>, quote: &str)
    ensures
        texts(final(pool)@) == texts(old(pool)@).filter(|t: Seq<char>| t != quote@),
{
    let ghost p = |t: Seq<char>| t != quote@;
    let q = chars_of(quote);
    let n = pool.len();
    let mut kept: Vec<String> = Vec::new();
    let mut i: usize = 0;
    assert(texts(pool@).take(0) =~= Seq::<Seq<char>>::empty());
    while i < n
        invariant
            i <= n,
            n == pool@.len(),
            p == (|t: Seq<char>| t != quote@),
            q@ == quote@,
            texts(kept@) == texts(pool@).take(i as int).filter(p),
        decreases n - i,
    {
        let c = chars_of(pool[i].as_str());
        proof {
            let ts = texts(pool@);
            assert(ts.take(i + 1) =~= ts.take(i as int).push(ts[i as int]));
            ts.take(i as int).lemma_filter_push(ts[i as int], p);
            assert(p(ts[i as int]) == (c@ != q@));
        }
        if !same_chars(&c, &q) {
            let ghost before = kept@;
            kept.push(pool[i].clone());
            proof {
                assert(texts(kept@) =~= texts(before).push(texts(pool@)[i as int]));
            }
        }
        i = i + 1;
    }
    assert(texts(pool@).take(n as int) =~= texts(pool@));
    *pool = kept;
}

/// After a refetch: the pool holds the fetched quotes, and the settings record the layout
/// hash they were fetched for (the settings are then written back).
pub fn install_fetched_quotes(
    pool: &mut Vec<String>,
    position_hash: &mut String,
    fetched: Vec<String>,
    current_hash: &str,
)
    ensures
        texts(final(pool)@) == texts(fetched@),
        final(position_hash)@ == current_hash@,
{
    *pool = fetched;
    *position_hash = current_hash.to_owned();
}

} // verus!
