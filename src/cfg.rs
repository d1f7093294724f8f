use vstd::prelude::*;
use crate::graph::{
    graph_add_edge, graph_edge_weight, graph_edges, graph_new, graph_node_list, graph_nodes,
    graph_predecessors, with_node, BlockGraph,
};
use crate::text::{
    chars_of, contains_seq, delimits, find_from, line_bounds, lines_of, occurs_at, trim_bounds,
    trim_seq,
};

verus! {

/// The index of the first occurrence of `p` in `s`.
pub open spec fn first_at(s: Seq<char>, p: Seq<char>) -> int {
    choose|i: int| occurs_at(s, p, i) && forall|j: int| 0 <= j < i ==> !occurs_at(s, p, j)
}

/// An index where `p` occurs with no earlier occurrence is `first_at`.
pub proof fn lemma_first_at(s: Seq<char>, p: Seq<char>, i: int)
    requires
        occurs_at(s, p, i),
        forall|j: int| 0 <= j < i ==> !occurs_at(s, p, j),
    ensures
        first_at(s, p) == i,
        contains_seq(s, p),
{
    let c = first_at(s, p);
    assert(occurs_at(s, p, c) && forall|j: int| 0 <= j < c ==> !occurs_at(s, p, j));
    if c < i {
        assert(!occurs_at(s, p, c));
    }
    if i < c {
        assert(!occurs_at(s, p, i));
    }
}

/// The edge that a line of the flow rendering `<src> --> <dst>[: <label>]`
/// denotes: source, destination, and whether the jump is conditional.
#[verifier::opaque]
pub open spec fn edge_of_line(line: Seq<char>) -> Option<(Seq<char>, Seq<char>, bool)> {
    if contains_seq(line, "-->"@) {
        let i = first_at(line, "-->"@);
        let rest = line.subrange(i + 3, line.len() as int);
        let src = trim_seq(line.subrange(0, i));
        if contains_seq(rest, ":"@) {
            Some((src, trim_seq(rest.subrange(0, first_at(rest, ":"@))), true))
        } else {
            Some((src, trim_seq(rest), false))
        }
    } else {
        None
    }
}

/// `labels` with `x` appended when it is new.
pub open spec fn intern(labels: Seq<Seq<char>>, x: Seq<char>) -> Seq<Seq<char>> {
    if labels.contains(x) {
        labels
    } else {
        labels.push(x)
    }
}

/// The position of `x` in `labels`.
pub open spec fn label_id(labels: Seq<Seq<char>>, x: Seq<char>) -> int {
    choose|i: int| 0 <= i < labels.len() && labels[i] == x
}

/// The block graph that a sequence of lines describes: the block labels in
/// order of first appearance, the nodes (each label's position) in insertion
/// order, and the weighted edges. A later line for the same pair of blocks
/// replaces the earlier weight.
pub open spec fn cfg_of_lines(lines: Seq<Seq<char>>) -> (
    Seq<Seq<char>>,
    Seq<u64>,
    Map<(u64, u64), bool>,
)
    decreases lines.len(),
{
    if lines.len() == 0 {
        (Seq::empty(), Seq::empty(), Map::empty())
    } else {
        cfg_step(cfg_of_lines(lines.drop_last()), lines.last())
    }
}

/// The block graph `prev` after reading one more line.
pub open spec fn cfg_step(
    prev: (Seq<Seq<char>>, Seq<u64>, Map<(u64, u64), bool>),
    line: Seq<char>,
) -> (Seq<Seq<char>>, Seq<u64>, Map<(u64, u64), bool>) {
    match edge_of_line(line) {
        None => prev,
        Some(e) => {
            let l = intern(intern(prev.0, e.0), e.1);
            let a = label_id(l, e.0) as u64;
            let b = label_id(l, e.1) as u64;
            (l, with_node(with_node(prev.1, a), b), prev.2.insert((a, b), e.2))
        },
    }
}

/// The number of blocks with an edge into `d`.
pub open spec fn in_degree(edges: Map<(u64, u64), bool>, d: u64) -> nat {
    Set::new(|x: u64| edges.contains_key((x, d))).len()
}

/// Among the first `k` nodes, the position of the last one of greatest
/// in-degree.
pub open spec fn best_upto(nodes: Seq<u64>, edges: Map<(u64, u64), bool>, k: int) -> int
    decreases k,
{
    if k <= 1 {
        0
    } else {
        let b = best_upto(nodes, edges, k - 1);
        if in_degree(edges, nodes[k - 1]) >= in_degree(edges, nodes[b]) {
            k - 1
        } else {
            b
        }
    }
}

/// The candidate dispatcher: the node of greatest in-degree, the last one in
/// node order on a tie.
pub open spec fn dispatcher(nodes: Seq<u64>, edges: Map<(u64, u64), bool>) -> u64 {
    nodes[best_upto(nodes, edges, nodes.len() as int)]
}

/// Some edge into `d` is conditional.
pub open spec fn conditional_fan_in(edges: Map<(u64, u64), bool>, d: u64) -> bool {
    exists|x: u64| edges.contains_key((x, d)) && edges[(x, d)]
}

/// `d` has an unconditional edge to one of the first five nodes.
pub open spec fn jumps_to_head(nodes: Seq<u64>, edges: Map<(u64, u64), bool>, d: u64) -> bool {
    exists|j: int|
        0 <= j < 5 && j < nodes.len() && edges.contains_key((d, #[trigger] nodes[j])) && !edges[(
        d,
        nodes[j],
    )]
}

/// The graph shows a flattening dispatcher: it has nodes, no conditional edge
/// enters the candidate, and the candidate jumps unconditionally to one of
/// the first five nodes.
pub open spec fn flattened(nodes: Seq<u64>, edges: Map<(u64, u64), bool>) -> bool {
    nodes.len() > 0 && !conditional_fan_in(edges, dispatcher(nodes, edges)) && jumps_to_head(
        nodes,
        edges,
        dispatcher(nodes, edges),
    )
}

/// Whether the flow rendering `text` shows a flattening dispatcher.
pub open spec fn text_flattened(text: Seq<char>) -> bool {
    let g = cfg_of_lines(lines_of(text));
    flattened(g.1, g.2)
}

/// The characters `s[lo..hi]`.
fn slice_chars(s: &Vec<char>, lo: usize, hi: usize) -> (r: Vec<char>)
    requires
        lo <= hi <= s@.len(),
    ensures
        r@ == s@.subrange(lo as int, hi as int),
{
    let mut r: Vec<char> = Vec::new();
    let mut i: usize = lo;
    while i < hi
        invariant
            lo <= i <= hi <= s@.len(),
            r@ == s@.subrange(lo as int, i as int),
        decreases hi - i,
    {
        r.push(s[i]);
        i += 1;
        assert(r@ =~= s@.subrange(lo as int, i as int));
    }
    r
}

/// `s[lo..hi]` without white space at its ends.
fn trimmed(s: &Vec<char>, lo: usize, hi: usize) -> (r: Vec<char>)
    requires
        lo <= hi <= s@.len(),
    ensures
        r@ == trim_seq(s@.subrange(lo as int, hi as int)),
{
    let (a, b) = trim_bounds(s, lo, hi);
    slice_chars(s, a, b)
}

/// The edge that one line denotes, if it denotes one.
pub fn parse_edge(line: &Vec<char>) -> (r: Option<(Vec<char>, Vec<char>, bool)>)
    ensures
        r is None <==> edge_of_line(line@) is None,
        r matches Some(e) ==> edge_of_line(line@) == Some((e.0@, e.1@, e.2)),
{
    reveal(edge_of_line);
    let arrow: Vec<char> = vec!['-', '-', '>'];
    let colon: Vec<char> = vec![':'];
    assert(arrow@.len() == 3);
    assert(arrow@ == "-->"@) by {
        reveal_strlit("-->");
        assert(arrow@ =~= "-->"@);
    }
    assert(colon@ == ":"@) by {
        reveal_strlit(":");
        assert(colon@ =~= ":"@);
    }
    match find_from(line, &arrow, 0) {
        None => {
            assert(!contains_seq(line@, "-->"@)) by {
                if contains_seq(line@, "-->"@) {
                    let w = choose|w: int| occurs_at(line@, "-->"@, w);
                    assert(w >= 0);
                }
            }
            None
        },
        Some(i) => {
            assert(occurs_at(line@, arrow@, i as int));
            let n = line.len();
            assert(i + 3 <= n);
            proof {
                lemma_first_at(line@, "-->"@, i as int);
            }
            let src = trimmed(line, 0, i);
            let rest = slice_chars(line, i + 3, n);
            match find_from(&rest, &colon, 0) {
                None => {
                    assert(!contains_seq(rest@, ":"@)) by {
                        if contains_seq(rest@, ":"@) {
                            let w = choose|w: int| occurs_at(rest@, ":"@, w);
                            assert(w >= 0);
                        }
                    }
                    let dst = trimmed(&rest, 0, rest.len());
                    assert(rest@.subrange(0, rest@.len() as int) =~= rest@);
                    Some((src, dst, false))
                },
                Some(j) => {
                    proof {
                        lemma_first_at(rest@, ":"@, j as int);
                    }
                    let dst = trimmed(&rest, 0, j);
                    Some((src, dst, true))
                },
            }
        },
    }
}

/// The views of a sequence of character vectors.
pub open spec fn label_views(v: Seq<Vec<char>>) -> Seq<Seq<char>> {
    v.map_values(|c: Vec<char>| c@)
}

/// In a sequence without repeats, `label_id` finds the one position of `x`.
pub proof fn lemma_label_id(labels: Seq<Seq<char>>, x: Seq<char>, i: int)
    requires
        labels.no_duplicates(),
        0 <= i < labels.len(),
        labels[i] == x,
    ensures
        label_id(labels, x) == i,
{
    let c = label_id(labels, x);
    assert(0 <= c < labels.len() && labels[c] == x);
}

/// Whether two character sequences are equal.
fn chars_eq(a: &Vec<char>, b: &Vec<char>) -> (r: bool)
    ensures
        r == (a@ == b@),
{
    if a.len() != b.len() {
        return false;
    }
    let mut i: usize = 0;
    while i < a.len()
        invariant
            a@.len() == b@.len(),
            i <= a@.len(),
            forall|j: int| 0 <= j < i ==> a@[j] == b@[j],
        decreases a@.len() - i,
    {
        if a[i] != b[i] {
            return false;
        }
        i += 1;
    }
    assert(a@ =~= b@);
    true
}

/// Gives `x` its position among the labels, appending it when it is new.
fn intern_label(labels: &mut Vec<Vec<char>>, x: &Vec<char>) -> (id: usize)
    requires
        label_views(old(labels)@).no_duplicates(),
    ensures
        label_views(final(labels)@) == intern(label_views(old(labels)@), x@),
        label_views(final(labels)@).no_duplicates(),
        id < final(labels)@.len(),
        id == label_id(label_views(final(labels)@), x@),
{
    let ghost old_views = label_views(labels@);
    let mut i: usize = 0;
    while i < labels.len()
        invariant
            i <= labels@.len(),
            labels@ == old(labels)@,
            old_views == label_views(labels@),
            old_views.no_duplicates(),
            forall|j: int| 0 <= j < i ==> labels@[j]@ != x@,
        decreases labels@.len() - i,
    {
        if chars_eq(&labels[i], x) {
            proof {
                assert(old_views.contains(x@)) by {
                    assert(old_views[i as int] == x@);
                }
                lemma_label_id(old_views, x@, i as int);
            }
            return i;
        }
        i += 1;
    }
    assert(!old_views.contains(x@)) by {
        if old_views.contains(x@) {
            let w = choose|w: int| 0 <= w < old_views.len() && old_views[w] == x@;
            assert(labels@[w]@ == x@);
        }
    }
    labels.push(x.clone());
    let ghost new_views = label_views(labels@);
    assert(new_views =~= old_views.push(x@));
    assert(new_views.no_duplicates()) by {
        assert forall|a: int, b: int| 0 <= a < b < new_views.len() implies new_views[a]
            != new_views[b] by {
            if b < old_views.len() {
                assert(old_views[a] != old_views[b]);
            } else {
                assert(old_views[a] != x@) by {
                    assert(old_views.contains(old_views[a]));
                }
            }
        }
    }
    proof {
        lemma_label_id(new_views, x@, i as int);
    }
    i
}

/// Reads one line of a flow rendering into the graph.
fn add_line(g: &mut BlockGraph, labels: &mut Vec<Vec<char>>, line: &Vec<char>)
    requires
        label_views(old(labels)@).no_duplicates(),
    ensures
        label_views(final(labels)@).no_duplicates(),
        (label_views(final(labels)@), graph_nodes(*final(g)), graph_edges(*final(g))) == cfg_step(
            (label_views(old(labels)@), graph_nodes(*old(g)), graph_edges(*old(g))),
            line@,
        ),
{
    match parse_edge(line) {
        None => {},
        Some((src, dst, cond)) => {
            let ghost l0 = label_views(labels@);
            let a = intern_label(labels, &src);
            let ghost l1 = label_views(labels@);
            proof {
                if l0.contains(src@) {
                    let w = choose|w: int| 0 <= w < l0.len() && l0[w] == src@;
                    assert(0 <= w < l1.len() && l1[w] == src@);
                } else {
                    assert(l1[l0.len() as int] == src@);
                }
            }
            assert(l1[a as int] == src@);
            let b = intern_label(labels, &dst);
            proof {
                let l = label_views(labels@);
                if l1.contains(dst@) {
                    assert(l == l1);
                } else {
                    assert(l == l1.push(dst@));
                    assert(l[a as int] == l1[a as int]);
                }
                lemma_label_id(l, src@, a as int);
            }
            graph_add_edge(g, a as u64, b as u64, cond);
        },
    }
}

/// Builds the block graph that the flow rendering `text` describes.
pub fn build_cfg(text: &str) -> (r: BlockGraph)
    ensures
        graph_nodes(r) == cfg_of_lines(lines_of(text@)).1,
        graph_edges(r) == cfg_of_lines(lines_of(text@)).2,
{
    let s = chars_of(text);
    let bounds = line_bounds(&s);
    let ghost lines = lines_of(s@);
    let mut g = graph_new();
    let mut labels: Vec<Vec<char>> = Vec::new();
    proof {
        assert(graph_edges(g) =~= Map::<(u64, u64), bool>::empty());
        assert(graph_nodes(g) =~= Seq::<u64>::empty());
        assert(lines.subrange(0, 0) =~= Seq::<Seq<char>>::empty());
        assert(label_views(labels@) =~= Seq::<Seq<char>>::empty());
    }
    let mut k: usize = 0;
    while k < bounds.len()
        invariant
            s@ == text@,
            lines == lines_of(s@),
            bounds@.len() == lines.len(),
            forall|q: int| 0 <= q < bounds@.len() ==> delimits(s@, #[trigger] bounds@[q], lines[q]),
            k <= bounds@.len(),
            label_views(labels@).no_duplicates(),
            label_views(labels@) == cfg_of_lines(lines.subrange(0, k as int)).0,
            graph_nodes(g) == cfg_of_lines(lines.subrange(0, k as int)).1,
            graph_edges(g) == cfg_of_lines(lines.subrange(0, k as int)).2,
        decreases bounds@.len() - k,
    {
        let (lo, hi) = bounds[k];
        assert(delimits(s@, bounds@[k as int], lines[k as int]));
        let line = slice_chars(&s, lo, hi);
        let ghost pre = lines.subrange(0, k as int);
        let ghost next = lines.subrange(0, k + 1);
        assert(next.drop_last() =~= pre);
        assert(next.last() == line@);
        add_line(&mut g, &mut labels, &line);
        k += 1;
    }
    assert(lines.subrange(0, k as int) =~= lines);
    g
}

/// The number of edges into `d`.
fn count_in(g: &BlockGraph, d: u64) -> (r: usize)
    ensures
        r == in_degree(graph_edges(*g), d),
{
    let preds = graph_predecessors(g, d);
    proof {
        preds@.unique_seq_to_set();
        assert(preds@.to_set() =~= Set::new(|x: u64| graph_edges(*g).contains_key((x, d))));
    }
    preds.len()
}

/// Whether some edge into `d` is conditional.
fn has_conditional_fan_in(g: &BlockGraph, d: u64) -> (r: bool)
    ensures
        r == conditional_fan_in(graph_edges(*g), d),
{
    let preds = graph_predecessors(g, d);
    let mut i: usize = 0;
    while i < preds.len()
        invariant
            i <= preds@.len(),
            forall|x: u64| preds@.contains(x) <==> graph_edges(*g).contains_key((x, d)),
            forall|j: int| 0 <= j < i ==> !graph_edges(*g)[(#[trigger] preds@[j], d)],
        decreases preds@.len() - i,
    {
        let x = preds[i];
        assert(preds@.contains(x));
        if graph_edge_weight(g, x, d) == Some(true) {
            return true;
        }
        i += 1;
    }
    assert forall|x: u64| graph_edges(*g).contains_key((x, d)) implies !graph_edges(*g)[(x, d)] by {
        assert(preds@.contains(x));
        let j = choose|j: int| 0 <= j < preds@.len() && preds@[j] == x;
        assert(!graph_edges(*g)[(preds@[j], d)]);
    }
    false
}

/// Whether the graph shows a flattening dispatcher.
pub fn is_flattened(g: &BlockGraph) -> (r: bool)
    ensures
        r == flattened(graph_nodes(*g), graph_edges(*g)),
{
    let nodes = graph_node_list(g);
    let ghost edges = graph_edges(*g);
    if nodes.len() == 0 {
        return false;
    }
    let mut best: usize = 0;
    let mut best_deg = count_in(g, nodes[0]);
    let mut k: usize = 1;
    while k < nodes.len()
        invariant
            nodes@ == graph_nodes(*g),
            edges == graph_edges(*g),
            1 <= k <= nodes@.len(),
            best == best_upto(nodes@, edges, k as int),
            best < k,
            best_deg == in_degree(edges, nodes@[best as int]),
        decreases nodes@.len() - k,
    {
        let d = count_in(g, nodes[k]);
        if d >= best_deg {
            best = k;
            best_deg = d;
        }
        k += 1;
    }
    let cand = nodes[best];
    if has_conditional_fan_in(g, cand) {
        return false;
    }
    let mut j: usize = 0;
    while j < 5 && j < nodes.len()
        invariant
            nodes@ == graph_nodes(*g),
            edges == graph_edges(*g),
            cand == dispatcher(nodes@, edges),
            nodes@.len() > 0,
            !conditional_fan_in(edges, cand),
            j <= 5,
            forall|q: int|
                0 <= q < j && q < nodes@.len() ==> !(edges.contains_key((cand, #[trigger] nodes@[q]))
                    && !edges[(cand, nodes@[q])]),
        decreases 5 - j,
    {
        if graph_edge_weight(g, cand, nodes[j]) == Some(false) {
            assert(edges.contains_key((cand, nodes@[j as int])) && !edges[(cand, nodes@[j as int])]);
            assert(jumps_to_head(nodes@, edges, cand));
            return true;
        }
        j += 1;
    }
    false
}

/// Whether the flow rendering `text` shows a flattening dispatcher.
pub fn detect_flattening(text: &str) -> (r: bool)
    ensures
        r == text_flattened(text@),
{
    let g = build_cfg(text);
    is_flattened(&g)
}

/// The names of the flattened functions among `names`, each with its flow
/// rendering at the same position: a nameless entry is skipped, and each
/// flattened function appears once, in order.
pub open spec fn flagged(names: Seq<Option<String>>, renderings: Seq<String>) -> Seq<Seq<char>>
    decreases names.len(),
{
    if names.len() == 0 {
        Seq::empty()
    } else {
        let prev = flagged(names.drop_last(), renderings);
        let k = names.len() - 1;
        match names[k] {
            Some(n) => if text_flattened(renderings[k]@) {
                prev.push(n@)
            } else {
                prev
            },
            None => prev,
        }
    }
}

/// The flattening check over the ranked functions: `renderings[k]` is the
/// flow rendering of the function named `names[k]`.
pub fn flattened_functions(names: &Vec<Option<String>>, renderings: &Vec<String>) -> (r: Vec<
    String,
>)
    requires
        names@.len() == renderings@.len(),
    ensures
        r@.map_values(|s: String| s@) == flagged(names@, renderings@),
{
    let mut r: Vec<String> = Vec::new();
    let mut k: usize = 0;
    while k < names.len()
        invariant
            names@.len() == renderings@.len(),
            k <= names@.len(),
            r@.map_values(|s: String| s@) == flagged(names@.subrange(0, k as int), renderings@),
        decreases names@.len() - k,
    {
        let ghost r0 = r@;
        let ghost pre = names@.subrange(0, k as int);
        let ghost next = names@.subrange(0, k + 1);
        assert(next.drop_last() =~= pre);
        match &names[k] {
            Some(n) => {
                if detect_flattening(renderings[k].as_str()) {
                    r.push(n.clone());
                    assert(r@.map_values(|s: String| s@) =~= r0.map_values(|s: String| s@).push(n@));
                }
            },
            None => {},
        }
        k += 1;
    }
    assert(names@.subrange(0, k as int) =~= names@);
    r
}

/// A rendering whose candidate dispatcher has a conditional edge coming in is
/// never reported as flattened, so its function is never listed.
pub proof fn lemma_conditional_fan_in_rejects(name: String, rendering: String)
    requires
        conditional_fan_in(
            cfg_of_lines(lines_of(rendering@)).2,
            dispatcher(cfg_of_lines(lines_of(rendering@)).1, cfg_of_lines(lines_of(rendering@)).2),
        ),
    ensures
        !text_flattened(rendering@),
        flagged(seq![Some(name)], seq![rendering]) == Seq::<Seq<char>>::empty(),
{
    let names = seq![Some(name)];
    let rs = seq![rendering];
    assert(names.drop_last() =~= Seq::<Option<String>>::empty());
    assert(flagged(names.drop_last(), rs) == Seq::<Seq<char>>::empty());
    assert(names[0] == Some(name));
    assert(rs[0] == rendering);
}

/// A rendering whose candidate dispatcher is entered only unconditionally
/// and jumps unconditionally to one of the first five blocks is reported as
/// flattened, and its function is listed exactly once.
pub proof fn lemma_dispatcher_accepted(name: String, rendering: String, j: int)
    requires
        ({
            let g = cfg_of_lines(lines_of(rendering@));
            let d = dispatcher(g.1, g.2);
            &&& 0 <= j < 5
            &&& j < g.1.len()
            &&& forall|x: u64| g.2.contains_key((x, d)) ==> !g.2[(x, d)]
            &&& g.2.contains_key((d, g.1[j]))
            &&& !g.2[(d, g.1[j])]
        }),
    ensures
        text_flattened(rendering@),
        flagged(seq![Some(name)], seq![rendering]) == seq![name@],
{
    let names = seq![Some(name)];
    let rs = seq![rendering];
    assert(names.drop_last() =~= Seq::<Option<String>>::empty());
    assert(flagged(names.drop_last(), rs) == Seq::<Seq<char>>::empty());
    assert(names[0] == Some(name));
    assert(rs[0] == rendering);
    let g = cfg_of_lines(lines_of(rendering@));
    let d = dispatcher(g.1, g.2);
    assert(g.2.contains_key((d, g.1[j])) && !g.2[(d, g.1[j])]);
    assert(flagged(seq![Some(name)], seq![rendering]) =~= seq![name@]);
}

/// `best_upto` picks a position among the first `k`.
proof fn lemma_best_upto_range(nodes: Seq<u64>, edges: Map<(u64, u64), bool>, k: int)
    requires
        1 <= k,
    ensures
        0 <= best_upto(nodes, edges, k) < k,
    decreases k,
{
    if k > 1 {
        lemma_best_upto_range(nodes, edges, k - 1);
    }
}

/// A node whose in-degree is above every other node's is the candidate
/// dispatcher.
pub proof fn lemma_strict_max_is_dispatcher(nodes: Seq<u64>, edges: Map<(u64, u64), bool>, p: int)
    requires
        0 <= p < nodes.len(),
        forall|i: int|
            0 <= i < nodes.len() && i != p ==> in_degree(edges, #[trigger] nodes[i]) < in_degree(
                edges,
                nodes[p],
            ),
    ensures
        dispatcher(nodes, edges) == nodes[p],
{
    lemma_best_from(nodes, edges, p, nodes.len() as int);
}

proof fn lemma_best_from(nodes: Seq<u64>, edges: Map<(u64, u64), bool>, p: int, k: int)
    requires
        0 <= p < k <= nodes.len(),
        forall|i: int|
            0 <= i < nodes.len() && i != p ==> in_degree(edges, #[trigger] nodes[i]) < in_degree(
                edges,
                nodes[p],
            ),
    ensures
        best_upto(nodes, edges, k) == p,
    decreases k,
{
    if k == p + 1 {
        if p > 0 {
            lemma_best_upto_range(nodes, edges, p);
            let b = best_upto(nodes, edges, p);
            assert(in_degree(edges, nodes[b]) < in_degree(edges, nodes[p]));
        }
    } else {
        lemma_best_from(nodes, edges, p, k - 1);
        assert(in_degree(edges, nodes[k - 1]) < in_degree(edges, nodes[p]));
    }
}

/// No two named entries share a name.
pub open spec fn distinct_names(names: Seq<Option<String>>) -> bool {
    forall|i: int, j: int|
        0 <= i < j < names.len() && names[i] is Some && names[j] is Some ==> (
        #[trigger] names[i])->Some_0@ != (#[trigger] names[j])->Some_0@
}

/// `s` is the name of some entry.
pub open spec fn named_in(names: Seq<Option<String>>, s: Seq<char>) -> bool {
    exists|j: int| 0 <= j < names.len() && names[j] is Some && (#[trigger] names[j])->Some_0@ == s
}

/// Every listed name is the name of some entry.
proof fn lemma_flagged_from(names: Seq<Option<String>>, renderings: Seq<String>)
    ensures
        forall|i: int|
            0 <= i < flagged(names, renderings).len() ==> named_in(
                names,
                #[trigger] flagged(names, renderings)[i],
            ),
    decreases names.len(),
{
    if names.len() > 0 {
        let pre = names.drop_last();
        lemma_flagged_from(pre, renderings);
        let f = flagged(names, renderings);
        assert forall|i: int| 0 <= i < f.len() implies named_in(names, #[trigger] f[i]) by {
            if i < flagged(pre, renderings).len() {
                assert(named_in(pre, flagged(pre, renderings)[i]));
                let j = choose|j: int|
                    0 <= j < pre.len() && pre[j] is Some && (#[trigger] pre[j])->Some_0@ == flagged(
                        pre,
                        renderings,
                    )[i];
                assert(names[j] == pre[j]);
                assert(f[i] == flagged(pre, renderings)[i]);
            } else {
                assert(names[names.len() - 1] is Some);
                assert(f[i] == names[names.len() - 1]->Some_0@);
            }
        }
    }
}

/// A rendering whose candidate dispatcher is entered only unconditionally
/// and jumps unconditionally to one of the first five blocks is reported as
/// flattened, and its function is listed exactly once in the flattening
/// check over functions with distinct names.
pub proof fn lemma_flagged_exactly_once(
    names: Seq<Option<String>>,
    renderings: Seq<String>,
    k: int,
)
    requires
        names.len() <= renderings.len(),
        distinct_names(names),
        0 <= k < names.len(),
        names[k] is Some,
        text_flattened(renderings[k]@),
    ensures
        flagged(names, renderings).contains(names[k]->Some_0@),
        forall|a: int, b: int|
            0 <= a < b < flagged(names, renderings).len() ==> !(flagged(names, renderings)[a]
                == names[k]->Some_0@ && flagged(names, renderings)[b] == names[k]->Some_0@),
    decreases names.len(),
{
    let n = names[k]->Some_0@;
    let pre = names.drop_last();
    let last = names.len() - 1;
    let fp = flagged(pre, renderings);
    let f = flagged(names, renderings);
    if k == last {
        lemma_flagged_from(pre, renderings);
        assert(f == fp.push(n));
        assert forall|i: int| 0 <= i < fp.len() implies fp[i] != n by {
            assert(named_in(pre, fp[i]));
            let j = choose|j: int|
                0 <= j < pre.len() && pre[j] is Some && (#[trigger] pre[j])->Some_0@ == fp[i];
            assert(names[j] == pre[j]);
        }
        assert(f[fp.len() as int] == n);
    } else {
        assert(pre[k] == names[k]);
        assert(distinct_names(pre)) by {
            assert forall|i: int, j: int|
                0 <= i < j < pre.len() && pre[i] is Some && pre[j] is Some implies (
                #[trigger] pre[i])->Some_0@ != (#[trigger] pre[j])->Some_0@ by {
                assert(names[i] == pre[i] && names[j] == pre[j]);
            }
        }
        lemma_flagged_exactly_once(pre, renderings, k);
        let w = choose|w: int| 0 <= w < fp.len() && fp[w] == n;
        match names[last] {
            Some(m) => {
                assert(m@ != n);
                if text_flattened(renderings[last]@) {
                    assert(f == fp.push(m@));
                    assert(f[w] == n);
                } else {
                    assert(f == fp);
                }
            },
            None => {
                assert(f == fp);
            },
        }
    }
}

/// A rendering in which one block has more incoming edges than any other,
/// all of them unconditional, and jumps unconditionally to one of the first
/// five blocks, is reported as flattened.
pub proof fn lemma_strict_dispatcher_accepted(rendering: Seq<char>, p: int, j: int)
    requires
        ({
            let g = cfg_of_lines(lines_of(rendering));
            let d = g.1[p];
            &&& 0 <= p < g.1.len()
            &&& forall|i: int|
                0 <= i < g.1.len() && i != p ==> in_degree(g.2, #[trigger] g.1[i]) < in_degree(
                    g.2,
                    d,
                )
            &&& forall|x: u64| g.2.contains_key((x, d)) ==> !g.2[(x, d)]
            &&& 0 <= j < 5
            &&& j < g.1.len()
            &&& g.2.contains_key((d, g.1[j]))
            &&& !g.2[(d, g.1[j])]
        }),
    ensures
        text_flattened(rendering),
{
    let g = cfg_of_lines(lines_of(rendering));
    lemma_strict_max_is_dispatcher(g.1, g.2, p);
    let d = dispatcher(g.1, g.2);
    assert(g.2.contains_key((d, g.1[j])) && !g.2[(d, g.1[j])]);
}

} // verus!
