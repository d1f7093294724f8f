use vstd::prelude::*;

verus! {

/// The fixed length of the classifier's token sequence.
pub const SEQUENCE_LEN: usize = 64;

/// The index that stands for a word missing from the vocabulary.
pub const UNKNOWN_TOKEN: usize = 1;

/// The sum of the labels.
pub open spec fn label_sum(labels: Seq<u32>) -> int
    decreases labels.len(),
{
    if labels.len() == 0 {
        0
    } else {
        label_sum(labels.drop_last()) + labels.last()
    }
}

/// The percentage of functions labelled optimized, rounded to the nearest
/// integer (halves up); 0 when no function was classified.
pub open spec fn score_of(labels: Seq<u32>) -> int {
    if labels.len() == 0 {
        0
    } else {
        (200 * label_sum(labels) + labels.len()) / (2 * labels.len() as int)
    }
}

/// Aggregates per-function classifier labels (0 unoptimized, 1 optimized)
/// into a percentage.
pub fn optimization_score(labels: &Vec<u32>) -> (r: u32)
    requires
        forall|k: int| 0 <= k < labels@.len() ==> labels@[k] <= 1,
    ensures
        r == score_of(labels@),
        r <= 100,
{
    let n = labels.len();
    if n == 0 {
        return 0;
    }
    let mut ones: u128 = 0;
    let mut i: usize = 0;
    while i < n
        invariant
            n == labels@.len(),
            i <= n,
            forall|k: int| 0 <= k < labels@.len() ==> labels@[k] <= 1,
            ones == label_sum(labels@.subrange(0, i as int)),
            ones <= i,
        decreases n - i,
    {
        assert(labels@.subrange(0, i + 1).drop_last() =~= labels@.subrange(0, i as int));
        ones = ones + labels[i] as u128;
        i += 1;
    }
    assert(labels@.subrange(0, n as int) =~= labels@);
    let total = n as u128;
    let r = (200 * ones + total) / (2 * total);
    assert(r <= 100) by (nonlinear_arith)
        requires
            r == (200 * ones + total) / (2 * total),
            ones <= total,
            total > 0,
    {
        assert(200 * ones + total <= 201 * total);
        assert(200 * ones + total < 202 * total);
    }
    r as u32
}

/// The classifier input for one function: each word's vocabulary index,
/// `UNKNOWN_TOKEN` where the word has none, cut or padded with 0 to
/// `SEQUENCE_LEN` entries.
pub fn encode_tokens(ids: &Vec<Option<usize>>) -> (r: Vec<usize>)
    ensures
        r@.len() == SEQUENCE_LEN,
        forall|k: int|
            0 <= k < SEQUENCE_LEN ==> #[trigger] r@[k] == if k < ids@.len() {
                match ids@[k] {
                    Some(v) => v,
                    None => UNKNOWN_TOKEN,
                }
            } else {
                0
            },
{
    let mut r: Vec<usize> = Vec::new();
    let mut k: usize = 0;
    while k < SEQUENCE_LEN
        invariant
            k <= SEQUENCE_LEN,
            r@.len() == k,
            forall|j: int|
                0 <= j < k ==> #[trigger] r@[j] == if j < ids@.len() {
                    match ids@[j] {
                        Some(v) => v,
                        None => UNKNOWN_TOKEN,
                    }
                } else {
                    0
                },
        decreases SEQUENCE_LEN - k,
    {
        let v = if k < ids.len() {
            match ids[k] {
                Some(v) => v,
                None => UNKNOWN_TOKEN,
            }
        } else {
            0
        };
        r.push(v);
        k += 1;
    }
    r
}

/// ASCII white space, as `u8::is_ascii_whitespace` classifies it.
pub open spec fn is_ascii_space(c: char) -> bool {
    c == ' ' || c == '\t' || c == '\n' || c == '\r' || c == '\x0C'
}

/// The words of `s`: its maximal runs of characters other than ASCII white
/// space, in order.
pub open spec fn words_of(s: Seq<char>) -> Seq<Seq<char>>
    decreases s.len(),
{
    if s.len() == 0 {
        Seq::empty()
    } else {
        let prev = words_of(s.drop_last());
        if is_ascii_space(s.last()) {
            prev
        } else if s.len() >= 2 && !is_ascii_space(s[s.len() - 2]) {
            prev.update(prev.len() - 1, prev.last().push(s.last()))
        } else {
            prev.push(seq![s.last()])
        }
    }
}

/// The words of a disassembly listing, which the classifier reads.
pub fn listing_words(listing: &str) -> (r: Vec<String>)
    ensures
        r@.map_values(|w: String| w@) == words_of(listing@),
{
    let s = crate::text::chars_of(listing);
    let n = s.len();
    let mut r: Vec<String> = Vec::new();
    let mut start: usize = 0;
    let mut in_word = false;
    let mut i: usize = 0;
    proof {
        assert(s@.subrange(0, 0) =~= Seq::<char>::empty());
    }
    while i < n
        invariant
            s@ == listing@,
            n == s@.len(),
            i <= n,
            start <= i,
            in_word ==> i > 0 && !is_ascii_space(s@[i - 1]) && start < i,
            !in_word ==> (i == 0 || is_ascii_space(s@[i - 1])),
            (if in_word {
                r@.map_values(|w: String| w@).push(s@.subrange(start as int, i as int))
            } else {
                r@.map_values(|w: String| w@)
            }) == words_of(s@.subrange(0, i as int)),
        decreases n - i,
    {
        let c = s[i];
        let ghost pre = s@.subrange(0, i as int);
        let ghost next = s@.subrange(0, i + 1);
        assert(next.drop_last() =~= pre);
        assert(next.last() == c);
        let ghost rv = r@.map_values(|w: String| w@);
        if c == ' ' || c == '\t' || c == '\n' || c == '\r' || c == '\x0C' {
            if in_word {
                let w = String::from_str(listing.substring_char(start, i));
                r.push(w);
                in_word = false;
                assert(r@.map_values(|w: String| w@) =~= rv.push(s@.subrange(start as int, i as int)));
            }
        } else {
            if in_word {
                assert(next[next.len() - 2] == s@[i - 1]);
                assert(s@.subrange(start as int, i + 1) =~= s@.subrange(start as int, i as int).push(c));
            } else {
                if i > 0 {
                    assert(next[next.len() - 2] == s@[i - 1]);
                }
                start = i;
                assert(s@.subrange(start as int, i + 1) =~= seq![c]);
            }
            in_word = true;
        }
        i += 1;
    }
    assert(s@.subrange(0, i as int) =~= s@);
    if in_word {
        let ghost rv = r@.map_values(|w: String| w@);
        let w = String::from_str(listing.substring_char(start, i));
        r.push(w);
        assert(r@.map_values(|w: String| w@) =~= rv.push(s@.subrange(start as int, i as int)));
    }
    r
}

} // verus!
