//! Evidence selection: a per-document fairness cap over ranked candidates,
//! with the shallow scope as the fallback, and the snippet format that the
//! synthesis prompt quotes.
use vstd::prelude::*;

use crate::common::types::{node_type_text, DocNodeSummary};
use crate::text::push_char;

verus! {

/// How many ranked candidates to ask the store for: four per wanted node,
/// and at least twelve.
pub open spec fn expanded(limit: nat) -> nat {
    if limit * 4 > 12 {
        limit * 4
    } else {
        12
    }
}

/// The most nodes of one document that an unfocused selection keeps.
pub open spec fn per_document_cap(limit: nat) -> nat {
    if limit / 2 > 2 {
        limit / 2
    } else {
        2
    }
}

pub open spec fn same_document(d: Seq<char>) -> spec_fn(DocNodeSummary) -> bool {
    |n: DocNodeSummary| n.document_id@ == d
}

/// How many of `nodes` belong to document `d`.
pub open spec fn count_in_document(nodes: Seq<DocNodeSummary>, d: Seq<char>) -> nat {
    nodes.filter(same_document(d)).len()
}

/// Taking `ranked` in order, each node is kept unless `limit` nodes are
/// already kept or, without a focus document, its document already has its
/// cap of nodes.
pub open spec fn fair_select(ranked: Seq<DocNodeSummary>, focused: bool, limit: nat) -> Seq<
    DocNodeSummary,
>
    decreases ranked.len(),
{
    if ranked.len() == 0 {
        Seq::empty()
    } else {
        let kept = fair_select(ranked.drop_last(), focused, limit);
        let n = ranked.last();
        if kept.len() >= limit {
            kept
        } else if !focused && count_in_document(kept, n.document_id@) >= per_document_cap(limit) {
            kept
        } else {
            kept.push(n)
        }
    }
}

/// The candidates of one step: the ranked nodes (or, when the search found
/// none, the shallow scope) under the fairness cap; the shallow scope when
/// nothing is left.
pub open spec fn candidates(
    ranked: Seq<DocNodeSummary>,
    shallow: Seq<DocNodeSummary>,
    focused: bool,
    limit: nat,
) -> Seq<DocNodeSummary> {
    let base = if ranked.len() > 0 {
        ranked
    } else {
        shallow
    };
    let kept = fair_select(base, focused, limit);
    if kept.len() == 0 {
        shallow
    } else {
        kept
    }
}

/// The node text as quoted: its first 500 characters, newlines as spaces.
pub open spec fn excerpt(text: Seq<char>) -> Seq<char> {
    let cut = if text.len() > 500 {
        text.take(500)
    } else {
        text
    };
    cut.map_values(|c: char| if c == '\n' { ' ' } else { c })
}

/// The line that stands for a node in the synthesis prompt.
pub open spec fn snippet_text(n: DocNodeSummary) -> Seq<char> {
    "[citation:"@ + n.id@ + "] document="@ + n.document_id@ + " path="@ + n.ordinal_path@
        + " type="@ + node_type_text(n.node_type) + " title="@ + n.title@ + " excerpt="@
        + excerpt(n.text@) + " "@
}

/// The number of candidates to ask the store for.
pub fn expanded_limit(limit: usize) -> (r: usize)
    ensures
        r == if limit <= usize::MAX / 4 {
            expanded(limit as nat)
        } else {
            usize::MAX as nat
        },
{
    let wide = if limit <= usize::MAX / 4 {
        limit * 4
    } else {
        usize::MAX
    };
    if limit <= usize::MAX / 4 && wide <= 12 {
        12
    } else {
        wide
    }
}

fn count_document(nodes: &Vec<DocNodeSummary>, d: &String) -> (r: usize)
    ensures
        r == count_in_document(nodes@, d@),
        r <= nodes@.len(),
{
    let mut count: usize = 0;
    let mut i: usize = 0;
    while i < nodes.len()
        invariant
            i <= nodes@.len(),
            count == nodes@.subrange(0, i as int).filter(same_document(d@)).len(),
            count <= i,
        decreases nodes@.len() - i,
    {
        assert(nodes@.subrange(0, i + 1) =~= nodes@.subrange(0, i as int).push(nodes@[i as int]));
        proof {
            nodes@.subrange(0, i as int).lemma_filter_push(nodes@[i as int], same_document(d@));
        }
        if nodes[i].document_id == *d {
            count += 1;
        }
        i += 1;
    }
    assert(nodes@.subrange(0, nodes@.len() as int) =~= nodes@);
    count
}

/// The fairness filter over `ranked`, see `fair_select`.
pub fn select_fair(ranked: Vec<DocNodeSummary>, focused: bool, limit: usize) -> (r: Vec<
    DocNodeSummary,
>)
    ensures
        r@ == fair_select(ranked@, focused, limit as nat),
{
    let ghost all = ranked@;
    let cap: usize = if limit / 2 > 2 {
        limit / 2
    } else {
        2
    };
    let mut rest = ranked;
    let mut kept: Vec<DocNodeSummary> = Vec::new();
    let mut i: usize = 0;
    let n = rest.len();
    while rest.len() > 0
        invariant
            n == all.len(),
            i <= n,
            rest@ == all.subrange(i as int, n as int),
            kept@ == fair_select(all.subrange(0, i as int), focused, limit as nat),
            cap == per_document_cap(limit as nat),
        decreases rest@.len(),
    {
        let node = rest.remove(0);
        assert(all.subrange(0, i + 1).drop_last() =~= all.subrange(0, i as int));
        assert(all.subrange(0, i + 1).last() == node);
        if kept.len() < limit {
            if focused {
                kept.push(node);
            } else {
                let seen = count_document(&kept, &node.document_id);
                if seen < cap {
                    kept.push(node);
                }
            }
        }
        i += 1;
        assert(rest@ =~= all.subrange(i as int, n as int));
    }
    assert(all.subrange(0, n as int) =~= all);
    kept
}

/// The candidates of one retrieval step, see `candidates`.
pub fn pick_candidates(
    ranked: Vec<DocNodeSummary>,
    shallow: Vec<DocNodeSummary>,
    focused: bool,
    limit: usize,
) -> (r: Vec<DocNodeSummary>)
    ensures
        r@ == candidates(ranked@, shallow@, focused, limit as nat),
{
    if limit == 0 {
        proof {
            lemma_fair_select_none_wanted(if ranked@.len() > 0 { ranked@ } else { shallow@ }, focused);
        }
        return shallow;
    }
    if ranked.len() > 0 {
        let kept = select_fair(ranked, focused, limit);
        if kept.len() == 0 {
            shallow
        } else {
            kept
        }
    } else {
        let ghost s = shallow@;
        let kept = select_fair(shallow, focused, limit);
        if kept.len() == 0 {
            proof {
                lemma_fair_select_empty(s, focused, limit as nat);
            }
            assert(kept@ =~= s);
            kept
        } else {
            kept
        }
    }
}

proof fn lemma_fair_select_none_wanted(ranked: Seq<DocNodeSummary>, focused: bool)
    ensures
        fair_select(ranked, focused, 0).len() == 0,
    decreases ranked.len(),
{
    if ranked.len() > 0 {
        lemma_fair_select_none_wanted(ranked.drop_last(), focused);
    }
}

/// Selecting from the nodes yields nothing only when there is nothing to
/// select from or nothing is wanted.
proof fn lemma_fair_select_empty(ranked: Seq<DocNodeSummary>, focused: bool, limit: nat)
    requires
        fair_select(ranked, focused, limit).len() == 0,
    ensures
        ranked.len() == 0 || limit == 0,
    decreases ranked.len(),
{
    if ranked.len() > 0 && limit > 0 {
        let kept = fair_select(ranked.drop_last(), focused, limit);
        lemma_fair_select_empty(ranked.drop_last(), focused, limit);
        if ranked.drop_last().len() == 0 {
            assert(kept =~= Seq::<DocNodeSummary>::empty());
            assert(count_in_document(kept, ranked.last().document_id@) == 0) by {
                reveal(Seq::filter);
            }
        }
    }
}

fn push_str_of(out: &mut String, s: &str)
    ensures
        final(out)@ == old(out)@ + s@,
{
    out.append(s);
}

/// The prompt line for a node, see `snippet_text`.
pub fn snippet_for(node: &DocNodeSummary) -> (r: String)
    ensures
        r@ == snippet_text(*node),
{
    let mut out = String::from_str("[citation:");
    push_str_of(&mut out, node.id.as_str());
    push_str_of(&mut out, "] document=");
    push_str_of(&mut out, node.document_id.as_str());
    push_str_of(&mut out, " path=");
    push_str_of(&mut out, node.ordinal_path.as_str());
    push_str_of(&mut out, " type=");
    push_str_of(&mut out, node.node_type.as_str());
    push_str_of(&mut out, " title=");
    push_str_of(&mut out, node.title.as_str());
    push_str_of(&mut out, " excerpt=");
    let text = node.text.as_str();
    let len = text.unicode_len();
    let cut: usize = if len > 500 {
        500
    } else {
        len
    };
    let ghost before = out@;
    let ghost taken = if text@.len() > 500 {
        text@.take(500)
    } else {
        text@
    };
    assert(taken =~= text@.subrange(0, cut as int));
    let mut i: usize = 0;
    while i < cut
        invariant
            cut <= len,
            len == text@.len(),
            taken == text@.subrange(0, cut as int),
            i <= cut,
            out@ == before + excerpt(text@).subrange(0, i as int),
            excerpt(text@).len() == cut,
        decreases cut - i,
    {
        let c = text.get_char(i);
        let shown = if c == '\n' {
            ' '
        } else {
            c
        };
        push_char(&mut out, shown);
        i += 1;
        assert(out@ =~= before + excerpt(text@).subrange(0, i as int));
    }
    assert(excerpt(text@).subrange(0, cut as int) =~= excerpt(text@));
    push_str_of(&mut out, " ");
    out
}

} // verus!
