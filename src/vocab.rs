use vstd::prelude::*;
use crate::estimate::{listing_words, words_of};

verus! {

/// `vocab` with each of `words` appended in turn when it is new.
pub open spec fn add_words(vocab: Seq<Seq<char>>, words: Seq<Seq<char>>) -> Seq<Seq<char>>
    decreases words.len(),
{
    if words.len() == 0 {
        vocab
    } else {
        let prev = add_words(vocab, words.drop_last());
        if prev.contains(words.last()) {
            prev
        } else {
            prev.push(words.last())
        }
    }
}

/// The distinct words of the listings in order of first appearance; a word's
/// vocabulary index is its position plus one, index 0 being padding.
pub open spec fn vocab_of(listings: Seq<Seq<char>>) -> Seq<Seq<char>>
    decreases listings.len(),
{
    if listings.len() == 0 {
        Seq::empty()
    } else {
        add_words(vocab_of(listings.drop_last()), words_of(listings.last()))
    }
}

/// Appends `w` to `vocab` when it is not there yet.
fn add_word(vocab: &mut Vec<String>, w: &String)
    ensures
        final(vocab)@.map_values(|s: String| s@) == (if old(vocab)@.map_values(|s: String| s@).contains(w@) {
            old(vocab)@.map_values(|s: String| s@)
        } else {
            old(vocab)@.map_values(|s: String| s@).push(w@)
        }),
{
    let ghost before = vocab@.map_values(|s: String| s@);
    let mut i: usize = 0;
    while i < vocab.len()
        invariant
            i <= vocab@.len(),
            vocab@ == old(vocab)@,
            before == vocab@.map_values(|s: String| s@),
            forall|j: int| 0 <= j < i ==> vocab@[j]@ != w@,
        decreases vocab@.len() - i,
    {
        if vocab[i] == *w {
            assert(before[i as int] == w@);
            return;
        }
        i += 1;
    }
    assert(!before.contains(w@)) by {
        if before.contains(w@) {
            let k = choose|k: int| 0 <= k < before.len() && before[k] == w@;
            assert(vocab@[k]@ == w@);
        }
    }
    vocab.push(w.clone());
    assert(vocab@.map_values(|s: String| s@) =~= before.push(w@));
}

/// The training vocabulary: the distinct words of all listings, in order of
/// first appearance. The word at position `k` has index `k + 1`.
pub fn build_vocab(listings: &Vec<String>) -> (r: Vec<String>)
    ensures
        r@.map_values(|s: String| s@) == vocab_of(listings@.map_values(|s: String| s@)),
{
    let ghost ls = listings@.map_values(|s: String| s@);
    let mut vocab: Vec<String> = Vec::new();
    let mut k: usize = 0;
    proof {
        assert(ls.subrange(0, 0) =~= Seq::<Seq<char>>::empty());
        assert(vocab@.map_values(|s: String| s@) =~= Seq::<Seq<char>>::empty());
    }
    while k < listings.len()
        invariant
            ls == listings@.map_values(|s: String| s@),
            k <= listings@.len(),
            vocab@.map_values(|s: String| s@) == vocab_of(ls.subrange(0, k as int)),
        decreases listings@.len() - k,
    {
        let ghost start = vocab@.map_values(|s: String| s@);
        let words = listing_words(listings[k].as_str());
        let ghost ws = words@.map_values(|s: String| s@);
        let mut j: usize = 0;
        proof {
            assert(ws.subrange(0, 0) =~= Seq::<Seq<char>>::empty());
        }
        while j < words.len()
            invariant
                ws == words@.map_values(|s: String| s@),
                j <= words@.len(),
                vocab@.map_values(|s: String| s@) == add_words(start, ws.subrange(0, j as int)),
            decreases words@.len() - j,
        {
            add_word(&mut vocab, &words[j]);
            assert(ws.subrange(0, j + 1).drop_last() =~= ws.subrange(0, j as int));
            j += 1;
        }
        proof {
            assert(ws.subrange(0, j as int) =~= ws);
            let next = ls.subrange(0, k + 1);
            assert(next.drop_last() =~= ls.subrange(0, k as int));
            assert(next.last() == listings@[k as int]@);
        }
        k += 1;
    }
    assert(ls.subrange(0, k as int) =~= ls);
    vocab
}

/// Where a shuffled data set of `len` items is cut: the first
/// `percent`% (rounded down) train, the rest validate.
pub fn split_point(len: usize, percent: usize) -> (r: usize)
    requires
        percent <= 100,
    ensures
        r == len * percent / 100,
        r <= len,
{
    let a = len as u128;
    let b = percent as u128;
    assert(a * b <= a * 100) by (nonlinear_arith)
        requires
            b <= 100,
            a >= 0,
    ;
    assert(a * 100 <= 100 * (usize::MAX as u128));
    let r = (a * b) / 100;
    assert(r <= a) by (nonlinear_arith)
        requires
            r == (a * b) / 100,
            a * b <= a * 100,
    ;
    r as usize
}

} // verus!
