use vstd::prelude::*;
use vstd::set_lib::{lemma_int_range, lemma_len_subset, set_int_range};

verus! {

/// How many of the most complex functions the later stages examine.
pub const TOP_COUNT: usize = 25;

/// Function `a` ranks above function `b`: greater complexity, or equal
/// complexity and a later position in the function list.
pub open spec fn ranks_above(cc: Seq<u64>, a: int, b: int) -> bool {
    cc[a] > cc[b] || (cc[a] == cc[b] && a > b)
}

/// `r` lists the positions of the most complex functions, the highest first:
/// at most `TOP_COUNT` of them, and no position left out ranks above one
/// that is listed.
pub open spec fn is_top_ranking(cc: Seq<u64>, r: Seq<usize>) -> bool {
    &&& r.len() == if cc.len() < TOP_COUNT {
        cc.len()
    } else {
        TOP_COUNT as nat
    }
    &&& forall|k: int| 0 <= k < r.len() ==> r[k] < cc.len()
    &&& forall|k: int, l: int| 0 <= k < l < r.len() ==> ranks_above(cc, r[k] as int, r[l] as int)
    &&& forall|i: int, k: int|
        0 <= i < cc.len() && !r.contains(i as usize) && 0 <= k < r.len() ==> ranks_above(
            cc,
            r[k] as int,
            i,
        )
}

/// Every position below `n` is listed in `r`, so `r` is at least `n` long.
proof fn lemma_covering(r: Seq<usize>, n: int)
    requires
        0 <= n <= usize::MAX,
        forall|i: usize| i < n ==> r.contains(i),
        forall|k: int| 0 <= k < r.len() ==> r[k] < n,
    ensures
        n <= r.len(),
{
    let ri = r.map_values(|x: usize| x as int);
    assert forall|i: int| set_int_range(0, n).contains(i) implies ri.to_set().contains(i) by {
        assert(r.contains(i as usize));
        let k = choose|k: int| 0 <= k < r.len() && r[k] == i as usize;
        assert(ri[k] == i);
    }
    lemma_int_range(0, n);
    ri.lemma_cardinality_of_set();
    lemma_len_subset(set_int_range(0, n), ri.to_set());
}

/// The positions of the (at most) `TOP_COUNT` most complex functions, given
/// each function's cyclomatic complexity, the highest first. Among equal
/// complexities the later function comes first.
pub fn top_complexity(cc: &Vec<u64>) -> (r: Vec<usize>)
    ensures
        is_top_ranking(cc@, r@),
{
    let n = cc.len();
    let want: usize = if n < TOP_COUNT {
        n
    } else {
        TOP_COUNT
    };
    let mut r: Vec<usize> = Vec::new();
    while r.len() < want
        invariant
            n == cc@.len(),
            want == (if cc@.len() < TOP_COUNT {
                cc@.len()
            } else {
                TOP_COUNT as nat
            }),
            r@.len() <= want,
            forall|k: int| 0 <= k < r@.len() ==> r@[k] < n,
            forall|k: int, l: int|
                0 <= k < l < r@.len() ==> ranks_above(cc@, r@[k] as int, r@[l] as int),
            forall|i: int, k: int|
                0 <= i < n && !r@.contains(i as usize) && 0 <= k < r@.len() ==> ranks_above(
                    cc@,
                    r@[k] as int,
                    i,
                ),
        decreases want - r@.len(),
    {
        let mut best: Option<usize> = None;
        let mut i: usize = 0;
        while i < n
            invariant
                n == cc@.len(),
                i <= n,
                forall|k: int| 0 <= k < r@.len() ==> r@[k] < n,
                best matches Some(b) ==> b < i && !r@.contains(b),
                forall|j: usize|
                    j < i && !r@.contains(j) ==> (best matches Some(b) && (b == j || ranks_above(
                        cc@,
                        b as int,
                        j as int,
                    ))),
            decreases n - i,
        {
            let listed = contains_index(&r, i);
            if !listed {
                match best {
                    None => {
                        best = Some(i);
                    },
                    Some(b) => {
                        if cc[i] > cc[b] || (cc[i] == cc[b] && i > b) {
                            best = Some(i);
                        }
                    },
                }
            }
            i += 1;
        }
        match best {
            None => {
                proof {
                    lemma_covering(r@, n as int);
                }
                assert(false);
            },
            Some(b) => {
                let ghost r0 = r@;
                r.push(b);
                assert forall|j: usize| j < n && !r@.contains(j) implies !r0.contains(j) && j
                    != b by {
                    if r0.contains(j) {
                        let w = choose|w: int| 0 <= w < r0.len() && r0[w] == j;
                        assert(r@[w] == j);
                    }
                    assert(r@[r0.len() as int] == b);
                }
                assert forall|k: int| 0 <= k < r0.len() implies ranks_above(
                    cc@,
                    r0[k] as int,
                    b as int,
                ) by {
                    assert(!r0.contains(b));
                }
                assert forall|j: int, k: int|
                    0 <= j < n && !r@.contains(j as usize) && 0 <= k < r@.len() implies ranks_above(
                    cc@,
                    r@[k] as int,
                    j,
                ) by {
                    assert(!r0.contains(j as usize) && j != b);
                    assert(!r0.contains((j as usize)));
                    if k < r0.len() {
                        assert(r@[k] == r0[k]);
                    } else {
                        assert(r@[k] == b);
                    }
                }
            },
        }
    }
    r
}

/// Whether `i` is listed in `r`.
fn contains_index(r: &Vec<usize>, i: usize) -> (found: bool)
    ensures
        found == r@.contains(i),
{
    let mut k: usize = 0;
    while k < r.len()
        invariant
            k <= r@.len(),
            forall|j: int| 0 <= j < k ==> r@[j] != i,
        decreases r@.len() - k,
    {
        if r[k] == i {
            assert(r@[k as int] == i);
            return true;
        }
        k += 1;
    }
    false
}

} // verus!
