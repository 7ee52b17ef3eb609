//! The earlier configuration layout and quote fetching rules of the Engyls display.

use vstd::prelude::*;
use vstd::multiset::Multiset;
use crate::config::{config_base, join_path, path_join, text_bytes, usable_base, user_config_base};
use crate::selection::{
    all_too_long, any_quote_fits, fits, kept_in_order, lemma_kept_all, lemma_kept_remove,
    random_index, texts,
};

verus! {

/// The settings files of the Engyls display, under `marxist_quote` in the user's
/// configuration directory.
pub struct ConfigManager;

impl ConfigManager {
    /// The configuration directory.
    pub fn config_dir() -> (r: Vec<u8>)
        ensures
            exists|b: Option<Seq<u8>>|
                usable_base(b) && r@ == path_join(config_base(b), text_bytes("marxist_quote"@)),
    {
        let base = user_config_base();
        join_path(base.as_slice(), "marxist_quote".as_bytes())
    }

    /// The file of configured authors.
    pub fn authors_path() -> (r: Vec<u8>)
        ensures
            exists|b: Option<Seq<u8>>|
                usable_base(b) && r@ == path_join(
                    path_join(config_base(b), text_bytes("marxist_quote"@)),
                    text_bytes("authors.json"@),
                ),
    {
        let dir = Self::config_dir();
        join_path(dir.as_slice(), "authors.json".as_bytes())
    }

    /// The display settings file.
    pub fn settings_path() -> (r: Vec<u8>)
        ensures
            exists|b: Option<Seq<u8>>|
                usable_base(b) && r@ == path_join(
                    path_join(config_base(b), text_bytes("marxist_quote"@)),
                    text_bytes("settings.json"@),
                ),
    {
        let dir = Self::config_dir();
        join_path(dir.as_slice(), "settings.json".as_bytes())
    }
}

/// Looks at the quote at `idx`: gives a copy when it fits, and otherwise takes it out
/// of the pool.
pub fn check_quote_at(pool: &mut Vec<String>, idx: usize, max_chars: usize) -> (r: Option<String>)
    requires
        idx < old(pool)@.len(),
    ensures
        fits(old(pool)@[idx as int]@, max_chars) ==> r is Some && r.unwrap()@ == old(pool)@[idx as int]@
            && texts(final(pool)@) == texts(old(pool)@),
        !fits(old(pool)@[idx as int]@, max_chars) ==> r is None && texts(final(pool)@) == texts(
            old(pool)@,
        ).remove(idx as int),
{
    if pool[idx].as_str().unicode_len() <= max_chars {
        Some(pool[idx].clone())
    } else {
        pool.remove(idx);
        proof {
            assert(texts(pool@) =~= texts(old(pool)@).remove(idx as int));
        }
        None
    }
}

/// Draws quotes from the pool at random until one fits; it stays in the pool, and every
/// quote drawn before it, being too long, is taken out. Without a fitting quote the pool
/// ends empty.
pub fn pick_fitting_quote(pool: &mut Vec<String>, max_chars: usize) -> (r: Option<String>)
    ensures
        exists|dropped: Seq<Seq<char>>|
            {
                &&& #[trigger] all_too_long(dropped, max_chars)
                &&& texts(old(pool)@).to_multiset() == texts(final(pool)@).to_multiset().add(
                    dropped.to_multiset(),
                )
            },
        r matches Some(q) ==> fits(q@, max_chars) && texts(final(pool)@).contains(q@),
        r is None ==> final(pool)@.len() == 0,
        exists|kept: Seq<int>| kept_in_order(texts(final(pool)@), texts(old(pool)@), kept),
{
    broadcast use vstd::seq_lib::to_multiset_remove, vstd::seq_lib::to_multiset_build, vstd::multiset::group_multiset_axioms;

    let ghost kept: Seq<int> = Seq::new(pool@.len() as nat, |i: int| i);
    proof {
        lemma_kept_all(texts(pool@));
    }
    let ghost dropped: Seq<Seq<char>> = Seq::empty();
    let ghost start = texts(pool@).to_multiset();
    assert(dropped.to_multiset() =~= Multiset::empty()) by {
        broadcast use vstd::seq_lib::group_to_multiset_ensures;
    }
    assert(start =~= texts(pool@).to_multiset().add(dropped.to_multiset()));
    while pool.len() > 0
        invariant
            forall|k: int| 0 <= k < dropped.len() ==> !fits(#[trigger] dropped[k], max_chars),
            start == texts(pool@).to_multiset().add(dropped.to_multiset()),
            start == texts(old(pool)@).to_multiset(),
            kept_in_order(texts(pool@), texts(old(pool)@), kept),
        decreases pool@.len(),
    {
        let idx = random_index(pool.len());
        let ghost before = texts(pool@);
        let ghost picked = before[idx as int];
        let found = check_quote_at(pool, idx, max_chars);
        assert(pool@.len() == texts(pool@).len());
        match found {
            Some(q) => {
                assert(all_too_long(dropped, max_chars));
                assert(texts(pool@)[idx as int] == q@);
                return Some(q);
            },
            None => {
                proof {
                    lemma_kept_remove(before, texts(old(pool)@), kept, idx as int);
                    kept = kept.remove(idx as int);
                    vstd::seq_lib::to_multiset_remove(before, idx as int);
                    vstd::seq_lib::to_multiset_contains(before, picked);
                    assert(before.contains(picked));
                    assert(before.to_multiset() =~= before.remove(idx as int).to_multiset().insert(
                        picked,
                    ));
                    let d2 = dropped.push(picked);
                    vstd::seq_lib::to_multiset_build(dropped, picked);
                    assert(d2.to_multiset() =~= dropped.to_multiset().insert(picked));
                    assert forall|k: int| 0 <= k < d2.len() implies !fits(
                        #[trigger] d2[k],
                        max_chars,
                    ) by {
                        if k < dropped.len() {
                            assert(d2[k] == dropped[k]);
                        }
                    }
                    assert(start =~= texts(pool@).to_multiset().add(d2.to_multiset()));
                    dropped = d2;
                }
            },
        }
    }
    assert(all_too_long(dropped, max_chars));
    None
}

/// Some quote in the list fits.
pub open spec fn some_quote_fits(quotes: Seq<Seq<char>>, max_chars: usize) -> bool {
    exists|k: int| 0 <= k < quotes.len() && fits(#[trigger] quotes[k], max_chars)
}

/// Whether the authors' quotes, fetched in order until one fits (`None` where a fetch
/// failed), hold a quote that fits: `Ok(true)` at the first author with one, `Err(k)` at
/// the first failed fetch `k` before that, and `Ok(false)` when none fits.
pub open spec fn quote_fits_any_spec(fetched: Seq<Option<Seq<Seq<char>>>>, max_chars: usize) -> Result<
    bool,
    int,
>
    decreases fetched.len(),
{
    if fetched.len() == 0 {
        Ok(false)
    } else {
        match fetched[0] {
            None => Err(0),
            Some(quotes) => if some_quote_fits(quotes, max_chars) {
                Ok(true)
            } else {
                match quote_fits_any_spec(fetched.drop_first(), max_chars) {
                    Ok(b) => Ok(b),
                    Err(k) => Err(k + 1),
                }
            },
        }
    }
}

/// The fetch outcomes as plain values.
pub open spec fn fetched_texts(fetched: Seq<Option<Vec<String>>>) -> Seq<Option<Seq<Seq<char>>>> {
    fetched.map_values(
        |f: Option<Vec<String>>|
            match f {
                Some(v) => Some(texts(v@)),
                None => None,
            },
    )
}

/// Whether at least one quote of any configured author fits `max_chars`, from the
/// authors' fetched quotes in order; `Err(k)` names the failed fetch that ends the search.
pub fn any_quote_fits_all_authors(fetched: &Vec<Option<Vec<String>>>, max_chars: usize) -> (r:
    Result<bool, usize>)
    ensures
        match quote_fits_any_spec(fetched_texts(fetched@), max_chars) {
            Ok(b) => r == Ok::<bool, usize>(b),
            Err(k) => r == Err::<bool, usize>(k as usize),
        },
{
    let n = fetched.len();
    let mut i: usize = 0;
    let ghost all = fetched_texts(fetched@);
    assert(all.skip(0) =~= all);
    while i < n
        invariant
            i <= n,
            n == fetched@.len(),
            all == fetched_texts(fetched@),
            quote_fits_any_spec(all, max_chars) == match quote_fits_any_spec(
                all.skip(i as int),
                max_chars,
            ) {
                Ok(b) => Ok::<bool, int>(b),
                Err(k) => Err(k + i),
            },
        decreases n - i,
    {
        let ghost rest = all.skip(i as int);
        assert(rest[0] == all[i as int]);
        assert(rest.drop_first() =~= all.skip(i + 1));
        match &fetched[i] {
            None => {
                return Err(i);
            },
            Some(quotes) => {
                let found = any_quote_fits(quotes, max_chars);
                proof {
                    let qs = texts(quotes@);
                    assert(rest[0] == Some(qs));
                    if found {
                        let k = choose|k: int| 0 <= k < quotes@.len() && fits(#[trigger] quotes@[k]@, max_chars);
                        assert(qs[k] == quotes@[k]@);
                        assert(fits(qs[k], max_chars));
                        assert(rest.len() > 0);
                        assert(some_quote_fits(qs, max_chars));
                        assert(quote_fits_any_spec(rest, max_chars) == Ok::<bool, int>(true));
                    } else {
                        assert forall|k: int| 0 <= k < qs.len() implies !fits(#[trigger] qs[k], max_chars) by {
                            assert(qs[k] == quotes@[k]@);
                        }
                        assert(!some_quote_fits(qs, max_chars));
                    }
                }
                if found {
                    return Ok(true);
                }
            },
        }
        i = i + 1;
    }
    Ok(false)
}

} // verus!
