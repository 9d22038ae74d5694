//! Subtree selection and lexical ranking over the nodes that the host read
//! from the store: which nodes a tree query returns, in what order, and how
//! a search scores and orders its candidates.
use vstd::prelude::*;

use crate::common::types::{DocNodeSummary, NodeType};
use crate::reasoner::evaluator::{query_terms, query_terms_of};
use crate::store::order::{key_lt, sort_by_key};
use crate::text::{contains_chars, has_sub, lower_chars_of, lower_seq};

verus! {

broadcast use vstd::seq_lib::group_to_multiset_ensures;

/// A node where the subtree starts: the node `start` when given, else a
/// node without parent; both of document `doc`.
pub open spec fn is_start(n: DocNodeSummary, doc: Seq<char>, start: Option<Seq<char>>) -> bool {
    n.document_id@ == doc && match start {
        Some(p) => n.id@ == p,
        None => n.parent_id is None,
    }
}

/// A node of document `doc` whose parent is one of `ids`.
pub open spec fn child_of(n: DocNodeSummary, doc: Seq<char>, ids: Set<Seq<char>>) -> bool {
    n.document_id@ == doc && n.parent_id is Some && ids.contains(n.parent_id->0@)
}

/// The ids of the nodes at depth at most `k` below the start, the start
/// being at depth zero.
pub open spec fn within(
    nodes: Seq<DocNodeSummary>,
    doc: Seq<char>,
    start: Option<Seq<char>>,
    k: nat,
) -> Set<Seq<char>>
    decreases k,
{
    if k == 0 {
        Set::new(
            |id: Seq<char>|
                exists|i: int| 0 <= i < nodes.len() && is_start(nodes[i], doc, start) && nodes[i].id@ == id,
        )
    } else {
        let prev = within(nodes, doc, start, (k - 1) as nat);
        prev.union(
            Set::new(
                |id: Seq<char>|
                    exists|i: int|
                        0 <= i < nodes.len() && child_of(nodes[i], doc, prev) && nodes[i].id@ == id,
            ),
        )
    }
}

/// Roots come first, then the ordinal path decides.
pub open spec fn tree_rank(n: DocNodeSummary) -> u128 {
    if n.parent_id is None {
        0
    } else {
        1
    }
}

pub open spec fn tree_lt(a: DocNodeSummary, b: DocNodeSummary) -> bool {
    key_lt((tree_rank(a), a), (tree_rank(b), b))
}

/// Reading order: parentless nodes first, then ordinal paths ascending.
pub open spec fn in_reading_order(s: Seq<DocNodeSummary>) -> bool {
    forall|i: int, j: int| 0 <= i < j < s.len() ==> !tree_lt(#[trigger] s[j], #[trigger] s[i])
}

pub open spec fn opt_view(o: Option<&str>) -> Option<Seq<char>> {
    match o {
        Some(p) => Some(p@),
        None => None,
    }
}

pub open spec fn id_set(ids: Seq<Seq<char>>) -> Set<Seq<char>> {
    Set::new(|id: Seq<char>| ids.contains(id))
}

fn holds_id(ids: &Vec<String>, s: &String) -> (r: bool)
    ensures
        r == ids.deep_view().contains(s@),
{
    let ghost dv = ids.deep_view();
    let mut i: usize = 0;
    while i < ids.len()
        invariant
            dv == ids.deep_view(),
            i <= ids@.len(),
            forall|k: int| 0 <= k < i ==> dv[k] != s@,
        decreases ids@.len() - i,
    {
        if ids[i] == *s {
            assert(dv[i as int] == s@);
            return true;
        }
        i += 1;
    }
    false
}

fn same_text(a: &String, b: &str) -> (r: bool)
    ensures
        r == (a@ == b@),
{
    let x = crate::text::chars_of(a.as_str());
    crate::text::equals_str(&x, b)
}

fn start_ids(nodes: &Vec<DocNodeSummary>, doc: &str, start: Option<&str>) -> (r: Vec<String>)
    ensures
        id_set(r.deep_view()) == within(
            nodes@,
            doc@,
            opt_view(start),
            0,
        ),
{
    let ghost st = opt_view(start);
    let mut out: Vec<String> = Vec::new();
    let mut i: usize = 0;
    while i < nodes.len()
        invariant
            i <= nodes@.len(),
            st == opt_view(start),
            forall|id: Seq<char>|
                out.deep_view().contains(id) <==> exists|j: int|
                    0 <= j < i && is_start(nodes@[j], doc@, st) && nodes@[j].id@ == id,
        decreases nodes@.len() - i,
    {
        let n = &nodes[i];
        let doc_ok = same_text(&n.document_id, doc);
        let start_ok = match start {
            Some(p) => same_text(&n.id, p),
            None => match &n.parent_id {
                Some(_) => false,
                None => true,
            },
        };
        let starts = doc_ok && start_ok;
        assert(start_ok == match st {
            Some(p) => nodes@[i as int].id@ == p,
            None => nodes@[i as int].parent_id is None,
        });
        assert(starts == is_start(nodes@[i as int], doc@, st));
        let ghost before = out.deep_view();
        assert(forall|id: Seq<char>|
            before.contains(id) <==> exists|j: int|
                0 <= j < i && is_start(nodes@[j], doc@, st) && nodes@[j].id@ == id);
        if starts {
            out.push(n.id.clone());
            assert(out.deep_view() =~= before.push(nodes@[i as int].id@));
        } else {
            assert(out.deep_view() == before);
        }
        proof {
            assert forall|id: Seq<char>|
                out.deep_view().contains(id) <==> exists|j: int|
                    0 <= j < i + 1 && is_start(nodes@[j], doc@, st) && nodes@[j].id@ == id by {
                if out.deep_view().contains(id) {
                    if before.contains(id) {
                        let j = choose|j: int|
                            0 <= j < i && is_start(nodes@[j], doc@, st) && nodes@[j].id@ == id;
                        assert(0 <= j < i + 1);
                    } else {
                        let k = choose|k: int| 0 <= k < out.deep_view().len() && out.deep_view()[k] == id;
                        if k < before.len() {
                            assert(before[k] == id);
                        }
                        assert(is_start(nodes@[i as int], doc@, st) && nodes@[i as int].id@ == id);
                    }
                }
                if exists|j: int| 0 <= j < i + 1 && is_start(nodes@[j], doc@, st) && nodes@[j].id@ == id {
                    let j = choose|j: int|
                        0 <= j < i + 1 && is_start(nodes@[j], doc@, st) && nodes@[j].id@ == id;
                    if j < i {
                        assert(before.contains(id));
                        let k = choose|k: int| 0 <= k < before.len() && before[k] == id;
                        assert(out.deep_view()[k] == id);
                    } else {
                        assert(out.deep_view()[before.len() as int] == id);
                    }
                }
            }
        }
        i += 1;
    }
    assert(id_set(out.deep_view()) =~= within(nodes@, doc@, st, 0));
    out
}

/// One more level: `prev` and the ids of the children of its nodes; the
/// flag tells whether any id was added.
fn grow(nodes: &Vec<DocNodeSummary>, doc: &str, prev: &Vec<String>) -> (r: (Vec<String>, bool))
    ensures
        id_set(r.0.deep_view()) == id_set(prev.deep_view()).union(
            Set::new(
                |id: Seq<char>|
                    exists|i: int|
                        0 <= i < nodes@.len() && child_of(nodes@[i], doc@, id_set(prev.deep_view()))
                            && nodes@[i].id@ == id,
            ),
        ),
        !r.1 ==> id_set(r.0.deep_view()) == id_set(prev.deep_view()),
{
    let mut out: Vec<String> = Vec::new();
    let mut k: usize = 0;
    while k < prev.len()
        invariant
            k <= prev@.len(),
            out.deep_view() == prev.deep_view().subrange(0, k as int),
        decreases prev@.len() - k,
    {
        let ghost b = out.deep_view();
        out.push(prev[k].clone());
        assert(out.deep_view() =~= b.push(prev.deep_view()[k as int]));
        k += 1;
        assert(out.deep_view() =~= prev.deep_view().subrange(0, k as int));
    }
    assert(prev.deep_view().subrange(0, prev@.len() as int) =~= prev.deep_view());
    let ghost ps = id_set(prev.deep_view());
    let ghost kids = Set::new(
        |id: Seq<char>|
            exists|i: int| 0 <= i < nodes@.len() && child_of(nodes@[i], doc@, ps) && nodes@[i].id@ == id,
    );
    let mut grew = false;
    let mut i: usize = 0;
    assert forall|id: Seq<char>| out.deep_view().contains(id) <==> ps.contains(id) by {
        assert(ps.contains(id) == prev.deep_view().contains(id));
    }
    while i < nodes.len()
        invariant
            i <= nodes@.len(),
            ps == id_set(prev.deep_view()),
            forall|id: Seq<char>|
                out.deep_view().contains(id) <==> (ps.contains(id) || exists|j: int|
                    0 <= j < i && child_of(nodes@[j], doc@, ps) && nodes@[j].id@ == id),
            !grew ==> out.deep_view() == prev.deep_view(),
        decreases nodes@.len() - i,
    {
        let n = &nodes[i];
        let doc_ok = same_text(&n.document_id, doc);
        let parent_ok = match &n.parent_id {
            Some(p) => holds_id(prev, p),
            None => false,
        };
        let is_child = doc_ok && parent_ok;
        proof {
            if nodes@[i as int].parent_id is Some {
                let pid = nodes@[i as int].parent_id->0@;
                assert(ps.contains(pid) == prev.deep_view().contains(pid));
            }
        }
        assert(is_child == child_of(nodes@[i as int], doc@, ps));
        let ghost before = out.deep_view();
        assert(forall|id: Seq<char>|
            before.contains(id) <==> (ps.contains(id) || exists|j: int|
                0 <= j < i && child_of(nodes@[j], doc@, ps) && nodes@[j].id@ == id));
        let fresh = is_child && !holds_id(&out, &n.id);
        if fresh {
            out.push(n.id.clone());
            assert(out.deep_view() =~= before.push(nodes@[i as int].id@));
            grew = true;
        } else {
            assert(out.deep_view() == before);
        }
        proof {
            assert forall|id: Seq<char>|
                out.deep_view().contains(id) <==> (ps.contains(id) || exists|j: int|
                    0 <= j < i + 1 && child_of(nodes@[j], doc@, ps) && nodes@[j].id@ == id) by {
                if out.deep_view().contains(id) && !before.contains(id) {
                    let k = choose|k: int| 0 <= k < out.deep_view().len() && out.deep_view()[k] == id;
                    if k < before.len() {
                        assert(before[k] == id);
                    }
                    assert(child_of(nodes@[i as int], doc@, ps) && nodes@[i as int].id@ == id);
                }
                if before.contains(id) {
                    let k = choose|k: int| 0 <= k < before.len() && before[k] == id;
                    assert(out.deep_view()[k] == id);
                    if !ps.contains(id) {
                        let j = choose|j: int|
                            0 <= j < i && child_of(nodes@[j], doc@, ps) && nodes@[j].id@ == id;
                        assert(0 <= j < i + 1);
                    }
                }
                if exists|j: int| 0 <= j < i + 1 && child_of(nodes@[j], doc@, ps) && nodes@[j].id@ == id {
                    let j = choose|j: int|
                        0 <= j < i + 1 && child_of(nodes@[j], doc@, ps) && nodes@[j].id@ == id;
                    if j < i {
                        assert(before.contains(id));
                    } else if !before.contains(id) {
                        assert(fresh);
                        assert(out.deep_view()[before.len() as int] == id);
                    }
                }
            }
        }
        i += 1;
    }
    assert(id_set(out.deep_view()) =~= ps.union(kids));
    (out, grew)
}

proof fn lemma_within_fixpoint(
    nodes: Seq<DocNodeSummary>,
    doc: Seq<char>,
    start: Option<Seq<char>>,
    k: nat,
    j: nat,
)
    requires
        within(nodes, doc, start, k + 1) == within(nodes, doc, start, k),
        k <= j,
    ensures
        within(nodes, doc, start, j) == within(nodes, doc, start, k),
    decreases j - k,
{
    if j > k {
        lemma_within_fixpoint(nodes, doc, start, k, (j - 1) as nat);
        assert(within(nodes, doc, start, j) == within(nodes, doc, start, k + 1));
    }
}

/// The ids of the nodes at depth at most `max_depth`, see `within`.
fn ids_within(nodes: &Vec<DocNodeSummary>, doc: &str, start: Option<&str>, max_depth: usize) -> (r:
    Vec<String>)
    ensures
        id_set(r.deep_view()) == within(
            nodes@,
            doc@,
            opt_view(start),
            max_depth as nat,
        ),
{
    let ghost st = opt_view(start);
    let mut ids = start_ids(nodes, doc, start);
    let mut k: usize = 0;
    while k < max_depth
        invariant
            k <= max_depth,
            st == opt_view(start),
            id_set(ids.deep_view()) == within(nodes@, doc@, st, k as nat),
        decreases max_depth - k,
    {
        let (next, grew) = grow(nodes, doc, &ids);
        assert(id_set(next.deep_view()) =~= within(nodes@, doc@, st, (k + 1) as nat));
        ids = next;
        if grew {
            k += 1;
        } else {
            proof {
                lemma_within_fixpoint(nodes@, doc@, st, k as nat, max_depth as nat);
            }
            k = max_depth;
        }
    }
    ids
}

pub open spec fn nodes_of(s: Seq<(u128, DocNodeSummary)>) -> Seq<DocNodeSummary> {
    s.map_values(|p: (u128, DocNodeSummary)| p.1)
}

pub open spec fn wanted_node(x: DocNodeSummary, doc: Seq<char>, ids: Set<Seq<char>>) -> bool {
    x.document_id@ == doc && ids.contains(x.id@)
}

proof fn lemma_kept_step(
    all: Seq<DocNodeSummary>,
    i: int,
    before: Seq<(u128, DocNodeSummary)>,
    after: Seq<(u128, DocNodeSummary)>,
    keep: bool,
    doc: Seq<char>,
    depth_ok: Set<Seq<char>>,
)
    requires
        0 <= i < all.len(),
        forall|x: DocNodeSummary|
            nodes_of(before).contains(x) <==> (all.subrange(0, i).contains(x) && wanted_node(
                x,
                doc,
                depth_ok,
            )),
        keep == wanted_node(all[i], doc, depth_ok),
        keep ==> after == before.push((tree_rank(all[i]), all[i])),
        !keep ==> after == before,
    ensures
        forall|x: DocNodeSummary|
            nodes_of(after).contains(x) <==> (all.subrange(0, i + 1).contains(x) && wanted_node(
                x,
                doc,
                depth_ok,
            )),
{
    let pre = all.subrange(0, i);
    let post = all.subrange(0, i + 1);
    assert(post =~= pre.push(all[i]));
    assert forall|x: DocNodeSummary|
        nodes_of(after).contains(x) <==> (post.contains(x) && wanted_node(x, doc, depth_ok)) by {
        if nodes_of(after).contains(x) {
            let k = choose|k: int| 0 <= k < nodes_of(after).len() && nodes_of(after)[k] == x;
            if k < before.len() {
                assert(nodes_of(before)[k] == x);
                assert(nodes_of(before).contains(x));
                let m = choose|m: int| 0 <= m < pre.len() && pre[m] == x;
                assert(post[m] == x);
            } else {
                assert(post[i] == x);
            }
        }
        if post.contains(x) && wanted_node(x, doc, depth_ok) {
            let m = choose|m: int| 0 <= m < post.len() && post[m] == x;
            if m < i {
                assert(pre[m] == x);
                assert(nodes_of(before).contains(x));
                let k = choose|k: int| 0 <= k < nodes_of(before).len() && nodes_of(before)[k] == x;
                assert(nodes_of(after)[k] == x);
            } else {
                assert(nodes_of(after)[before.len() as int] == x);
            }
        }
    }
}

/// The nodes of document `document_id` in the subtree that starts at
/// `parent_id` (or at the parentless root), down to `max_depth` levels, in
/// reading order.
pub fn subtree(
    nodes: Vec<DocNodeSummary>,
    document_id: &str,
    parent_id: Option<&str>,
    max_depth: usize,
) -> (r: Vec<DocNodeSummary>)
    ensures
        forall|x: DocNodeSummary|
            r@.contains(x) <==> (nodes@.contains(x) && x.document_id@ == document_id@ && within(
                nodes@,
                document_id@,
                opt_view(parent_id),
                max_depth as nat,
            ).contains(x.id@)),
        in_reading_order(r@),
{
    let ghost all = nodes@;
    let ghost depth_ok = within(
        nodes@,
        document_id@,
        opt_view(parent_id),
        max_depth as nat,
    );
    let ids = ids_within(&nodes, document_id, parent_id, max_depth);
    let mut rest = nodes;
    let mut ranked: Vec<(u128, DocNodeSummary)> = Vec::new();
    let mut i: usize = 0;
    let n = rest.len();
    while rest.len() > 0
        invariant
            n == all.len(),
            all == nodes@,
            depth_ok == within(nodes@, document_id@, opt_view(parent_id), max_depth as nat),
            i <= n,
            rest@ == all.subrange(i as int, n as int),
            id_set(ids.deep_view()) == depth_ok,
            forall|k: int| 0 <= k < ranked@.len() ==> (#[trigger] ranked@[k]).0 == tree_rank(ranked@[k].1),
            forall|x: DocNodeSummary|
                nodes_of(ranked@).contains(x) <==> (all.subrange(
                    0,
                    i as int,
                ).contains(x) && wanted_node(x, document_id@, depth_ok)),
        decreases rest@.len(),
    {
        let node = rest.remove(0);
        assert(node == all[i as int]);
        let keep = same_text(&node.document_id, document_id) && holds_id(&ids, &node.id);
        assert(id_set(ids.deep_view()).contains(node.id@) == ids.deep_view().contains(node.id@));
        assert(keep == wanted_node(node, document_id@, depth_ok));
        let ghost before = ranked@;
        if keep {
            let rank: u128 = match &node.parent_id {
                None => 0,
                Some(_) => 1,
            };
            ranked.push((rank, node));
        }
        proof {
            lemma_kept_step(all, i as int, before, ranked@, keep, document_id@, depth_ok);
        }
        i += 1;
        assert(rest@ =~= all.subrange(i as int, n as int));
    }
    assert(all.subrange(0, n as int) =~= all);
    let ghost unsorted = ranked@;
    let sorted = sort_by_key(ranked);
    let mut out: Vec<DocNodeSummary> = Vec::new();
    let mut rest2 = sorted;
    let ghost s = rest2@;
    let total = rest2.len();
    proof {
        assert forall|k: int| 0 <= k < s.len() implies (#[trigger] s[k]).0 == tree_rank(s[k].1) by {
            assert(s.to_multiset().count(s[k]) > 0);
            assert(unsorted.contains(s[k]));
        }
    }
    let mut j: usize = 0;
    while rest2.len() > 0
        invariant
            total == s.len(),
            j <= s.len(),
            rest2@ == s.subrange(j as int, s.len() as int),
            out@ == nodes_of(s.subrange(0, j as int)),
        decreases rest2@.len(),
    {
        let p = rest2.remove(0);
        out.push(p.1);
        j += 1;
        assert(out@ =~= nodes_of(s.subrange(0, j as int)));
        assert(rest2@ =~= s.subrange(j as int, s.len() as int));
    }
    proof {
        assert(s.subrange(0, s.len() as int) =~= s);
        assert(out@ =~= nodes_of(s));
        assert forall|x: DocNodeSummary| out@.contains(x) <==> nodes_of(unsorted).contains(x) by {
            if out@.contains(x) {
                let k = choose|k: int| 0 <= k < out@.len() && out@[k] == x;
                assert(s.to_multiset().count(s[k]) > 0);
                assert(unsorted.contains(s[k]));
                let m = choose|m: int| 0 <= m < unsorted.len() && unsorted[m] == s[k];
                assert(nodes_of(unsorted)[m] == x);
            }
            if nodes_of(unsorted).contains(x) {
                let m = choose|m: int| 0 <= m < unsorted.len() && nodes_of(unsorted)[m] == x;
                assert(unsorted.to_multiset().count(unsorted[m]) > 0);
                assert(s.contains(unsorted[m]));
                let k = choose|k: int| 0 <= k < s.len() && s[k] == unsorted[m];
                assert(out@[k] == x);
            }
        }
        assert forall|a: int, b: int| 0 <= a < b < out@.len() implies !tree_lt(
            #[trigger] out@[b],
            #[trigger] out@[a],
        ) by {
            assert(!key_lt(s[b], s[a]));
            assert(s[a] == (tree_rank(out@[a]), out@[a]));
            assert(s[b] == (tree_rank(out@[b]), out@[b]));
        }
    }
    out
}

/// The lexical score of a node: for each query term, three when the term
/// occurs in the lowercased title and text, plus one when the node is a
/// section.
pub open spec fn term_score(terms: Seq<Seq<char>>, hay: Seq<char>, section: bool) -> nat
    decreases terms.len(),
{
    if terms.len() == 0 {
        0
    } else {
        term_score(terms.drop_last(), hay, section) + (if has_sub(hay, terms.last()) {
            3nat
        } else {
            0nat
        }) + (if section {
            1nat
        } else {
            0nat
        })
    }
}

pub open spec fn node_score(n: DocNodeSummary, q: Seq<char>) -> nat {
    term_score(query_terms(q), lower_seq(n.title@ + n.text@), n.node_type == NodeType::Section)
}

/// A search hit: a positive score, in the focus document when one is set.
pub open spec fn search_hit(n: DocNodeSummary, q: Seq<char>, focus: Option<Seq<char>>) -> bool {
    node_score(n, q) > 0 && match focus {
        Some(f) => n.document_id@ == f,
        None => true,
    }
}

pub open spec fn hit_pred(q: Seq<char>, focus: Option<Seq<char>>) -> spec_fn(DocNodeSummary) -> bool {
    |n: DocNodeSummary| search_hit(n, q, focus)
}

/// Higher scores rank first.
pub open spec fn search_rank(n: DocNodeSummary, q: Seq<char>) -> u128 {
    (u128::MAX - node_score(n, q)) as u128
}

/// Search order: score descending, then ordinal path ascending.
pub open spec fn search_lt(a: DocNodeSummary, b: DocNodeSummary, q: Seq<char>) -> bool {
    key_lt((search_rank(a, q), a), (search_rank(b, q), b))
}

proof fn lemma_term_score_bound(terms: Seq<Seq<char>>, hay: Seq<char>, section: bool)
    ensures
        term_score(terms, hay, section) <= 4 * terms.len(),
    decreases terms.len(),
{
    if terms.len() > 0 {
        lemma_term_score_bound(terms.drop_last(), hay, section);
    }
}

fn score_node(node: &DocNodeSummary, terms: &Vec<Vec<char>>) -> (r: u128)
    ensures
        r == term_score(
            terms.deep_view(),
            lower_seq(node.title@ + node.text@),
            node.node_type == NodeType::Section,
        ),
        r <= 4 * terms@.len(),
{
    let mut hay = lower_chars_of(node.title.as_str());
    let text = lower_chars_of(node.text.as_str());
    let mut k: usize = 0;
    let ghost start = hay@;
    while k < text.len()
        invariant
            k <= text@.len(),
            hay@ == start + text@.subrange(0, k as int),
        decreases text@.len() - k,
    {
        hay.push(text[k]);
        k += 1;
        assert(hay@ =~= start + text@.subrange(0, k as int));
    }
    assert(hay@ =~= lower_seq(node.title@ + node.text@));
    let section = node.node_type == NodeType::Section;
    let ghost tv = terms.deep_view();
    let mut score: u128 = 0;
    let mut i: usize = 0;
    while i < terms.len()
        invariant
            tv == terms.deep_view(),
            i <= tv.len(),
            score == term_score(tv.subrange(0, i as int), hay@, section),
            score <= 4 * i,
        decreases tv.len() - i,
    {
        assert(tv.subrange(0, i + 1).drop_last() =~= tv.subrange(0, i as int));
        assert(terms[i as int]@ == tv[i as int]);
        if contains_chars(&hay, &terms[i]) {
            score = score + 3;
        }
        if section {
            score = score + 1;
        }
        i += 1;
    }
    assert(tv.subrange(0, tv.len() as int) =~= tv);
    score
}

/// The search over a project's nodes: the hits for `query` (within the
/// focus document when one is given), best first, at most `limit` of them.
pub fn rank_nodes(
    nodes: Vec<DocNodeSummary>,
    focus_document_id: Option<&str>,
    query: &str,
    limit: usize,
) -> (r: Vec<DocNodeSummary>)
    ensures
        r@.len() == if limit < nodes@.filter(hit_pred(query@, opt_view(focus_document_id))).len() {
            limit as nat
        } else {
            nodes@.filter(hit_pred(query@, opt_view(focus_document_id))).len()
        },
        forall|x: DocNodeSummary|
            r@.contains(x) ==> nodes@.contains(x) && search_hit(x, query@, opt_view(focus_document_id)),
        forall|i: int, j: int|
            0 <= i < j < r@.len() ==> !search_lt(#[trigger] r@[j], #[trigger] r@[i], query@),
        forall|x: DocNodeSummary, k: int|
            nodes@.contains(x) && search_hit(x, query@, opt_view(focus_document_id)) && !r@.contains(
                x,
            ) && 0 <= k < r@.len() ==> !#[trigger] search_lt(x, r@[k], query@),
{
    let ghost all = nodes@;
    let ghost q = query@;
    let ghost focus = opt_view(focus_document_id);
    let ghost pred = hit_pred(q, focus);
    let terms = query_terms_of(query);
    let mut rest = nodes;
    let mut ranked: Vec<(u128, DocNodeSummary)> = Vec::new();
    let mut i: usize = 0;
    let n = rest.len();
    while rest.len() > 0
        invariant
            n == all.len(),
            i <= n,
            rest@ == all.subrange(i as int, n as int),
            terms.deep_view() == query_terms(q),
            q == query@,
            focus == opt_view(focus_document_id),
            pred == hit_pred(q, focus),
            nodes_of(ranked@) == all.subrange(0, i as int).filter(pred),
            forall|k: int|
                0 <= k < ranked@.len() ==> (#[trigger] ranked@[k]).0 == search_rank(ranked@[k].1, q),
        decreases rest@.len(),
    {
        let node = rest.remove(0);
        assert(node == all[i as int]);
        assert(all.subrange(0, i + 1) =~= all.subrange(0, i as int).push(node));
        proof {
            all.subrange(0, i as int).lemma_filter_push(node, pred);
        }
        let score = score_node(&node, &terms);
        let in_focus = match focus_document_id {
            Some(f) => same_text(&node.document_id, f),
            None => true,
        };
        let ghost before = ranked@;
        if score > 0 && in_focus {
            ranked.push((u128::MAX - score, node));
            assert(nodes_of(ranked@) =~= nodes_of(before).push(all[i as int]));
        }
        i += 1;
        assert(rest@ =~= all.subrange(i as int, n as int));
    }
    assert(all.subrange(0, n as int) =~= all);
    let ghost unsorted = ranked@;
    let sorted = sort_by_key(ranked);
    let ghost s = sorted@;
    proof {
        assert forall|k: int| 0 <= k < s.len() implies (#[trigger] s[k]).0 == search_rank(s[k].1, q)
            by {
            assert(s.to_multiset().count(s[k]) > 0);
            assert(unsorted.contains(s[k]));
        }
    }
    let m: usize = if limit < sorted.len() {
        limit
    } else {
        sorted.len()
    };
    let mut out: Vec<DocNodeSummary> = Vec::new();
    let mut rest2 = sorted;
    let mut j: usize = 0;
    while j < m
        invariant
            m <= s.len(),
            j <= m,
            rest2@ == s.subrange(j as int, s.len() as int),
            out@ == nodes_of(s.subrange(0, j as int)),
        decreases m - j,
    {
        let p = rest2.remove(0);
        out.push(p.1);
        j += 1;
        assert(out@ =~= nodes_of(s.subrange(0, j as int)));
        assert(rest2@ =~= s.subrange(j as int, s.len() as int));
    }
    proof {
        let hits = all.filter(pred);
        assert(out@.len() == m);
        assert forall|x: DocNodeSummary| out@.contains(x) implies all.contains(x) && search_hit(
            x,
            q,
            focus,
        ) by {
            let k = choose|k: int| 0 <= k < out@.len() && out@[k] == x;
            assert(s.to_multiset().count(s[k]) > 0);
            assert(unsorted.contains(s[k]));
            let u = choose|u: int| 0 <= u < unsorted.len() && unsorted[u] == s[k];
            assert(nodes_of(unsorted)[u] == x);
            assert(hits.contains(x));
            all.lemma_filter_contains_rev(pred, x);
            let h = choose|h: int| 0 <= h < hits.len() && hits[h] == x;
            assert(pred(hits[h]));
        }
        assert forall|a: int, b: int| 0 <= a < b < out@.len() implies !search_lt(
            #[trigger] out@[b],
            #[trigger] out@[a],
            q,
        ) by {
            assert(!key_lt(s[b], s[a]));
            assert(s[a] == (search_rank(out@[a], q), out@[a]));
            assert(s[b] == (search_rank(out@[b], q), out@[b]));
        }
        assert forall|x: DocNodeSummary, k: int|
            all.contains(x) && search_hit(x, q, focus) && !out@.contains(x) && 0 <= k < out@.len()
                implies !#[trigger] search_lt(x, out@[k], q) by {
            let w = choose|w: int| 0 <= w < all.len() && all[w] == x;
            all.lemma_filter_contains(pred, w);
            let h = choose|h: int| 0 <= h < hits.len() && hits[h] == x;
            assert(nodes_of(unsorted)[h] == x);
            assert(unsorted.to_multiset().count(unsorted[h]) > 0);
            assert(s.contains(unsorted[h]));
            let z = choose|z: int| 0 <= z < s.len() && s[z] == unsorted[h];
            if z < m {
                assert(out@[z] == x);
            }
            assert(z > k);
            assert(!key_lt(s[z], s[k]));
            assert(s[k] == (search_rank(out@[k], q), out@[k]));
        }
    }
    out
}

} // verus!
