//! Turning the characters of a text into the order in which they are quizzed.
use rand::seq::SliceRandom;
use vstd::prelude::*;

use crate::classify::{is_chinese_character, is_cjk_ideograph};

verus! {

broadcast use vstd::seq_lib::group_to_multiset_ensures;

/// The CJK ideographs of `s`, in their order and with their repeats.
pub open spec fn cjk_only(s: Seq<char>) -> Seq<char>
    decreases s.len(),
{
    if s.len() == 0 {
        Seq::empty()
    } else if is_cjk_ideograph(s.last()) {
        cjk_only(s.drop_last()).push(s.last())
    } else {
        cjk_only(s.drop_last())
    }
}

/// `s` with every element that equals the element kept just before it removed:
/// each run of equal neighbours shrinks to one element.
pub open spec fn dedup_adjacent(s: Seq<char>) -> Seq<char>
    decreases s.len(),
{
    if s.len() == 0 {
        Seq::empty()
    } else {
        let kept = dedup_adjacent(s.drop_last());
        if kept.len() > 0 && kept.last() == s.last() {
            kept
        } else {
            kept.push(s.last())
        }
    }
}

/// No two neighbours of `s` are equal.
pub open spec fn no_adjacent_repeats(s: Seq<char>) -> bool {
    forall|i: int| 0 <= i < s.len() - 1 ==> #[trigger] s[i] != s[i + 1]
}

/// What the quiz is built from: the CJK ideographs of `text` with runs of
/// equal neighbours collapsed. The deck holds these in a random order.
pub open spec fn deck_source(text: Seq<char>) -> Seq<char> {
    dedup_adjacent(cjk_only(text))
}

/// Every element of `cjk_only(s)` is a CJK ideograph taken from `s`.
pub proof fn lemma_cjk_only_sound(s: Seq<char>)
    ensures
        forall|i: int| 0 <= i < cjk_only(s).len() ==> is_cjk_ideograph(#[trigger] cjk_only(s)[i]),
        forall|i: int| 0 <= i < cjk_only(s).len() ==> s.contains(#[trigger] cjk_only(s)[i]),
        cjk_only(s).len() <= s.len(),
    decreases s.len(),
{
    if s.len() > 0 {
        lemma_cjk_only_sound(s.drop_last());
        let r = cjk_only(s.drop_last());
        assert forall|i: int| 0 <= i < r.len() implies s.contains(#[trigger] r[i]) by {
            let j = choose|j: int| 0 <= j < s.drop_last().len() && s.drop_last()[j] == r[i];
            assert(s[j] == r[i]);
        }
        assert(s[s.len() - 1] == s.last());
    }
}

/// Collapsing runs keeps only elements of the input, never grows it, and
/// leaves no two equal neighbours.
pub proof fn lemma_dedup_adjacent(s: Seq<char>)
    ensures
        forall|i: int| 0 <= i < dedup_adjacent(s).len() ==> s.contains(#[trigger] dedup_adjacent(s)[i]),
        dedup_adjacent(s).len() <= s.len(),
        no_adjacent_repeats(dedup_adjacent(s)),
    decreases s.len(),
{
    if s.len() > 0 {
        lemma_dedup_adjacent(s.drop_last());
        let r = dedup_adjacent(s.drop_last());
        assert forall|i: int| 0 <= i < r.len() implies s.contains(#[trigger] r[i]) by {
            let j = choose|j: int| 0 <= j < s.drop_last().len() && s.drop_last()[j] == r[i];
            assert(s[j] == r[i]);
        }
        assert(s[s.len() - 1] == s.last());
        if !(r.len() > 0 && r.last() == s.last()) {
            let d = r.push(s.last());
            assert forall|i: int| 0 <= i < d.len() - 1 implies #[trigger] d[i] != d[i + 1] by {
                if i < r.len() - 1 {
                    assert(d[i] == r[i] && d[i + 1] == r[i + 1]);
                }
            }
        }
    }
}

/// A deck drawn from collapsed characters that are all distinct has no two
/// equal neighbours, in whatever order it was shuffled. (Collapsing only
/// joins neighbours: a character that comes back later in the text comes
/// back in the deck, and a shuffle may then put the two side by side.)
pub proof fn lemma_shuffled_deck_no_adjacent_repeats(source: Seq<char>, deck: Seq<char>)
    requires
        source.no_duplicates(),
        deck.to_multiset() == source.to_multiset(),
    ensures
        no_adjacent_repeats(deck),
{
    source.lemma_multiset_has_no_duplicates();
    deck.lemma_multiset_has_no_duplicates_conv();
    assert forall|i: int| 0 <= i < deck.len() - 1 implies #[trigger] deck[i] != deck[i + 1] by {
    }
}

/// Keeps the CJK ideographs of `chars`, in order and with their repeats.
pub fn keep_cjk(chars: &Vec<char>) -> (r: Vec<char>)
    ensures
        r@ == cjk_only(chars@),
{
    let mut r: Vec<char> = Vec::new();
    let mut i: usize = 0;
    while i < chars.len()
        invariant
            i <= chars.len(),
            r@ == cjk_only(chars@.take(i as int)),
        decreases chars.len() - i,
    {
        let c = chars[i];
        assert(chars@.take(i + 1).drop_last() == chars@.take(i as int));
        if is_chinese_character(&c) {
            r.push(c);
        }
        i = i + 1;
    }
    assert(chars@.take(chars.len() as int) == chars@);
    r
}

/// Collapses every run of equal neighbours in `chars` to one element.
pub fn dedup_chars(chars: &Vec<char>) -> (r: Vec<char>)
    ensures
        r@ == dedup_adjacent(chars@),
        no_adjacent_repeats(r@),
{
    let mut r: Vec<char> = Vec::new();
    let mut i: usize = 0;
    while i < chars.len()
        invariant
            i <= chars.len(),
            r@ == dedup_adjacent(chars@.take(i as int)),
        decreases chars.len() - i,
    {
        let c = chars[i];
        assert(chars@.take(i + 1).drop_last() == chars@.take(i as int));
        let n = r.len();
        if n == 0 || r[n - 1] != c {
            r.push(c);
        }
        i = i + 1;
    }
    assert(chars@.take(chars.len() as int) == chars@);
    proof {
        lemma_dedup_adjacent(chars@);
    }
    r
}

/// Relies on rand's `SliceRandom::shuffle` with the thread-local generator.
/// The shuffle only swaps elements, so the result is a permutation of the
/// input; which permutation is left to chance.
#[verifier::external_body]
fn shuffle_chars(v: &mut Vec<char>)
    ensures
        final(v)@.to_multiset() == old(v)@.to_multiset(),
{
    v.as_mut_slice().shuffle(&mut rand::thread_rng());
}

/// The characters of a new deck, built from the characters of a text: its
/// CJK ideographs, with runs of equal neighbours collapsed, in random order.
pub fn build_deck(text: &Vec<char>) -> (r: Vec<char>)
    ensures
        r@.to_multiset() == deck_source(text@).to_multiset(),
        r@.len() == deck_source(text@).len(),
        forall|i: int| 0 <= i < r@.len() ==> is_cjk_ideograph(#[trigger] r@[i]),
        forall|i: int| 0 <= i < r@.len() ==> text@.contains(#[trigger] r@[i]),
{
    let kept = keep_cjk(text);
    let mut r = dedup_chars(&kept);
    shuffle_chars(&mut r);
    proof {
        lemma_cjk_only_sound(text@);
        lemma_dedup_adjacent(kept@);
        assert(r@.len() == r@.to_multiset().len());
        assert(deck_source(text@).len() == deck_source(text@).to_multiset().len());
        assert forall|i: int| 0 <= i < r@.len() implies is_cjk_ideograph(#[trigger] r@[i])
            && text@.contains(r@[i]) by {
            assert(r@.to_multiset().count(r@[i]) > 0);
            assert(deck_source(text@).contains(r@[i]));
            let j = choose|j: int| 0 <= j < deck_source(text@).len() && deck_source(text@)[j] == r@[i];
            let k = choose|k: int| 0 <= k < kept@.len() && kept@[k] == deck_source(text@)[j];
            assert(kept@[k] == cjk_only(text@)[k]);
        }
    }
    r
}

} // verus!
