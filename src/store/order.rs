//! Reading order of nodes: a rank first, then the ordinal path compared
//! character by character, and a stable insertion sort by that order.
use vstd::multiset::Multiset;
use vstd::prelude::*;

use crate::common::types::DocNodeSummary;

verus! {

broadcast use {vstd::seq_lib::to_multiset_insert, vstd::seq_lib::to_multiset_remove};

/// Lexicographic order on character sequences; a proper prefix comes first.
pub open spec fn lex_lt(a: Seq<char>, b: Seq<char>) -> bool
    decreases a.len(),
{
    if a.len() == 0 {
        b.len() > 0
    } else if b.len() == 0 {
        false
    } else if a[0] != b[0] {
        a[0] < b[0]
    } else {
        lex_lt(a.drop_first(), b.drop_first())
    }
}

/// The order key of a ranked node: the rank, then the ordinal path.
pub open spec fn key_lt(a: (u128, DocNodeSummary), b: (u128, DocNodeSummary)) -> bool {
    a.0 < b.0 || (a.0 == b.0 && lex_lt(a.1.ordinal_path@, b.1.ordinal_path@))
}

/// No item stands after one that it precedes in the order.
pub open spec fn sorted_by_key(s: Seq<(u128, DocNodeSummary)>) -> bool {
    forall|i: int, j: int| 0 <= i < j < s.len() ==> !key_lt(#[trigger] s[j], #[trigger] s[i])
}

pub proof fn lemma_lex_lt_transitive(a: Seq<char>, b: Seq<char>, c: Seq<char>)
    requires
        lex_lt(a, b),
        lex_lt(b, c),
    ensures
        lex_lt(a, c),
    decreases a.len(),
{
    if a.len() > 0 && b.len() > 0 && c.len() > 0 {
        if a[0] == b[0] && b[0] == c[0] {
            lemma_lex_lt_transitive(a.drop_first(), b.drop_first(), c.drop_first());
        }
    }
}

pub proof fn lemma_lex_lt_irreflexive(a: Seq<char>)
    ensures
        !lex_lt(a, a),
    decreases a.len(),
{
    if a.len() > 0 {
        lemma_lex_lt_irreflexive(a.drop_first());
    }
}

proof fn lemma_key_lt_transitive(
    a: (u128, DocNodeSummary),
    b: (u128, DocNodeSummary),
    c: (u128, DocNodeSummary),
)
    requires
        key_lt(a, b),
        key_lt(b, c),
    ensures
        key_lt(a, c),
{
    if a.0 == b.0 && b.0 == c.0 {
        lemma_lex_lt_transitive(a.1.ordinal_path@, b.1.ordinal_path@, c.1.ordinal_path@);
    }
}

/// Whether `a` comes before `b` in lexicographic order.
pub fn lex_less(a: &str, b: &str) -> (r: bool)
    ensures
        r == lex_lt(a@, b@),
{
    let x = crate::text::chars_of(a);
    let y = crate::text::chars_of(b);
    let mut i: usize = 0;
    assert(a@.subrange(0, a@.len() as int) =~= a@);
    assert(b@.subrange(0, b@.len() as int) =~= b@);
    while i < x.len() && i < y.len() && x[i] == y[i]
        invariant
            x@ == a@,
            y@ == b@,
            i <= x@.len(),
            i <= y@.len(),
            lex_lt(a@, b@) == lex_lt(
                a@.subrange(i as int, a@.len() as int),
                b@.subrange(i as int, b@.len() as int),
            ),
        decreases x@.len() - i,
    {
        let ghost sa = a@.subrange(i as int, a@.len() as int);
        let ghost sb = b@.subrange(i as int, b@.len() as int);
        assert(sa.drop_first() =~= a@.subrange(i + 1, a@.len() as int));
        assert(sb.drop_first() =~= b@.subrange(i + 1, b@.len() as int));
        i += 1;
    }
    let ghost sa = a@.subrange(i as int, a@.len() as int);
    let ghost sb = b@.subrange(i as int, b@.len() as int);
    if i == x.len() {
        assert(sa.len() == 0);
        i < y.len()
    } else if i == y.len() {
        false
    } else {
        assert(sa[0] == x@[i as int] && sb[0] == y@[i as int]);
        x[i] < y[i]
    }
}

fn key_less(a: &(u128, DocNodeSummary), b: &(u128, DocNodeSummary)) -> (r: bool)
    ensures
        r == key_lt(*a, *b),
{
    a.0 < b.0 || (a.0 == b.0 && lex_less(a.1.ordinal_path.as_str(), b.1.ordinal_path.as_str()))
}

/// The items in order of `key_lt`, equal keys keeping their order.
pub fn sort_by_key(items: Vec<(u128, DocNodeSummary)>) -> (r: Vec<(u128, DocNodeSummary)>)
    ensures
        sorted_by_key(r@),
        r@.to_multiset() == items@.to_multiset(),
        r@.len() == items@.len(),
{
    let ghost all = items@;
    let mut rest = items;
    let mut out: Vec<(u128, DocNodeSummary)> = Vec::new();
    proof {
        vstd::seq_lib::lemma_multiset_commutative(out@, rest@);
        assert(out@ + rest@ =~= all);
    }
    while rest.len() > 0
        invariant
            sorted_by_key(out@),
            out@.to_multiset().add(rest@.to_multiset()) == all.to_multiset(),
            out@.len() + rest@.len() == all.len(),
        decreases rest@.len(),
    {
        let ghost before_rest = rest@;
        let x = rest.remove(0);
        let mut p: usize = 0;
        while p < out.len() && !key_less(&x, &out[p])
            invariant
                p <= out@.len(),
                forall|a: int| 0 <= a < p ==> !key_lt(x, #[trigger] out@[a]),
            decreases out@.len() - p,
        {
            p += 1;
        }
        let ghost before = out@;
        out.insert(p, x);
        proof {
            assert forall|i: int, j: int| 0 <= i < j < out@.len() implies !key_lt(
                #[trigger] out@[j],
                #[trigger] out@[i],
            ) by {
                if i < p && j == p {
                } else if i == p as int && j > p {
                    let y = before[j - 1];
                    if key_lt(y, x) {
                        lemma_key_lt_transitive(y, x, before[p as int]);
                        if j - 1 == p {
                            lemma_lex_lt_irreflexive(y.1.ordinal_path@);
                        } else {
                            assert(!key_lt(before[j - 1], before[p as int]));
                        }
                    }
                } else if i < p && j > p {
                    assert(out@[j] == before[j - 1]);
                    assert(out@[i] == before[i]);
                } else if j < p {
                    assert(out@[j] == before[j]);
                } else {
                    assert(out@[j] == before[j - 1]);
                    assert(out@[i] == before[i - 1]);
                }
            }
            assert(before_rest =~= rest@.insert(0, x));
            assert(before_rest.to_multiset() == rest@.to_multiset().insert(x));
            assert(out@.to_multiset() == before.to_multiset().insert(x));
            assert(out@.to_multiset().add(rest@.to_multiset()) =~= all.to_multiset());
        }
    }
    proof {
        rest@.to_multiset_ensures();
        assert(rest@ =~= Seq::<(u128, DocNodeSummary)>::empty());
        assert(rest@.to_multiset() =~= Multiset::empty());
        assert(out@.to_multiset() =~= all.to_multiset());
    }
    out
}

} // verus!
