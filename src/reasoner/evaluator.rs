//! Quality metrics of a synthesized answer: groundedness, query alignment,
//! citation coverage and cross-document coverage, combined into one score.
use vstd::prelude::*;

use crate::common::types::{QualityMetrics, SCALE};
use crate::text::{
    ascii_lower_char, contains_chars, equals_str, has_sub, is_alnum, is_alnum_char, lower_char,
    lower_chars_of, lower_seq, trim, trimmed,
};

verus! {

broadcast use vstd::seq_lib::group_filter_ensures;

/// Common words that carry no meaning for matching.
pub open spec fn is_stop(t: Seq<char>) -> bool {
    t == "the"@ || t == "and"@ || t == "for"@ || t == "are"@ || t == "how"@ || t == "what"@ || t
        == "with"@ || t == "about"@ || t == "that"@ || t == "this"@ || t == "these"@ || t
        == "from"@ || t == "into"@ || t == "their"@ || t == "they"@
}

/// A token that takes part in matching: longer than two characters and no
/// stopword.
pub open spec fn is_term(t: Seq<char>) -> bool {
    t.len() > 2 && !is_stop(t)
}

pub open spec fn term_pred() -> spec_fn(Seq<char>) -> bool {
    |t: Seq<char>| is_term(t)
}

/// Splitting `q` on every character that is not ASCII alphanumeric, with
/// the pieces lowercased: the pieces closed so far and the open one.
pub open spec fn split_state(q: Seq<char>) -> (Seq<Seq<char>>, Seq<char>)
    decreases q.len(),
{
    if q.len() == 0 {
        (Seq::empty(), Seq::empty())
    } else {
        let (done, open) = split_state(q.drop_last());
        if is_alnum(q.last()) {
            (done, open.push(lower_char(q.last())))
        } else {
            (done.push(open), Seq::empty())
        }
    }
}

/// The lowercased pieces of `q` between runs of non-alphanumeric characters.
pub open spec fn tokens(q: Seq<char>) -> Seq<Seq<char>> {
    split_state(q).0.push(split_state(q).1)
}

/// The tokens of the query that take part in matching, in order.
pub open spec fn query_terms(q: Seq<char>) -> Seq<Seq<char>> {
    tokens(q).filter(term_pred())
}

pub open spec fn found_in(a: Seq<char>) -> spec_fn(Seq<char>) -> bool {
    |t: Seq<char>| has_sub(lower_seq(a), t)
}

/// Share of the query's terms that occur in the lowercased answer; zero
/// when the query has no terms.
pub open spec fn alignment(q: Seq<char>, a: Seq<char>) -> nat {
    let terms = query_terms(q);
    if terms.len() == 0 {
        0
    } else {
        terms.filter(found_in(a)).len() * (SCALE as nat) / terms.len()
    }
}

pub open spec fn in_evidence(ev: Seq<Seq<char>>) -> spec_fn(Seq<char>) -> bool {
    |c: Seq<char>| ev.contains(c)
}

/// Number of citations (with repeats) that name an evidence node.
pub open spec fn valid_citations(cits: Seq<Seq<char>>, ev: Seq<Seq<char>>) -> nat {
    cits.filter(in_evidence(ev)).len()
}

pub open spec fn coverage(cits: Seq<Seq<char>>, ev: Seq<Seq<char>>) -> nat {
    if ev.len() == 0 {
        0
    } else {
        let share = valid_citations(cits, ev) * (SCALE as nat) / ev.len();
        if share > SCALE {
            SCALE as nat
        } else {
            share
        }
    }
}

/// The view of a node-to-document table.
pub open spec fn links_view(m: Seq<(String, String)>) -> Seq<(Seq<char>, Seq<char>)> {
    m.map_values(|p: (String, String)| (p.0@, p.1@))
}

/// The document that the table gives for node `k`: the last entry for it
/// wins, as in a map built from the entries in order.
pub open spec fn doc_of(m: Seq<(Seq<char>, Seq<char>)>, k: Seq<char>) -> Option<Seq<char>>
    decreases m.len(),
{
    if m.len() == 0 {
        None
    } else if m.last().0 == k {
        Some(m.last().1)
    } else {
        doc_of(m.drop_last(), k)
    }
}

/// Citations `i` and `j` lie in two different known documents.
pub open spec fn cites_two_docs(cits: Seq<Seq<char>>, m: Seq<(Seq<char>, Seq<char>)>) -> bool {
    exists|i: int, j: int|
        0 <= i < cits.len() && 0 <= j < cits.len() && (#[trigger] doc_of(m, cits[i])) is Some
            && (#[trigger] doc_of(m, cits[j])) is Some && doc_of(m, cits[i]) != doc_of(m, cits[j])
}

pub open spec fn cites_a_doc(cits: Seq<Seq<char>>, m: Seq<(Seq<char>, Seq<char>)>) -> bool {
    exists|i: int| 0 <= i < cits.len() && (#[trigger] doc_of(m, cits[i])) is Some
}

/// Full score when a relation answer cites two or more documents, half for
/// one, none for none; full score outside relation queries.
pub open spec fn cross_coverage(
    cits: Seq<Seq<char>>,
    m: Seq<(Seq<char>, Seq<char>)>,
    relation: bool,
) -> nat {
    if !relation {
        SCALE as nat
    } else if cites_two_docs(cits, m) {
        SCALE as nat
    } else if cites_a_doc(cits, m) {
        (SCALE / 2) as nat
    } else {
        0
    }
}

/// Weighted sum 0.40, 0.25, 0.20, 0.15, capped at one.
pub open spec fn weighted_overall(qa: nat, cc: nat, cd: nat, grounded: bool) -> nat {
    let gs: nat = if grounded {
        SCALE as nat
    } else {
        0
    };
    let sum = (40 * qa + 25 * cc + 20 * cd + 15 * gs) / 100;
    if sum > SCALE {
        SCALE as nat
    } else {
        sum
    }
}

pub open spec fn has_text_and_citations(a: Seq<char>, cits: Seq<Seq<char>>) -> bool {
    trim(a).len() > 0 && cits.len() > 0
}

/// The metrics of an answer `a` with citations `cits` to a query `q`.
pub open spec fn quality(
    q: Seq<char>,
    a: Seq<char>,
    cits: Seq<Seq<char>>,
    ev: Seq<Seq<char>>,
    m: Seq<(Seq<char>, Seq<char>)>,
    relation: bool,
) -> QualityMetrics {
    let grounded = has_text_and_citations(a, cits);
    let qa = alignment(q, a);
    let cc = coverage(cits, ev);
    let cd = cross_coverage(cits, m, relation);
    QualityMetrics {
        overall: weighted_overall(qa, cc, cd, grounded) as u64,
        query_alignment: qa as u64,
        citation_coverage: cc as u64,
        cross_document_coverage: cd as u64,
        grounded,
    }
}

pub fn is_stopword(value: &Vec<char>) -> (r: bool)
    ensures
        r == is_stop(value@),
{
    equals_str(value, "the") || equals_str(value, "and") || equals_str(value, "for")
        || equals_str(value, "are") || equals_str(value, "how") || equals_str(value, "what")
        || equals_str(value, "with") || equals_str(value, "about") || equals_str(value, "that")
        || equals_str(value, "this") || equals_str(value, "these") || equals_str(value, "from")
        || equals_str(value, "into") || equals_str(value, "their") || equals_str(value, "they")
}

fn is_term_exec(t: &Vec<char>) -> (r: bool)
    ensures
        r == is_term(t@),
{
    t.len() > 2 && !is_stopword(t)
}

/// The query's matching terms, in order.
pub fn query_terms_of(query: &str) -> (r: Vec<Vec<char>>)
    ensures
        r.deep_view() == query_terms(query@),
{
    let q = crate::text::chars_of(query);
    let mut terms: Vec<Vec<char>> = Vec::new();
    let mut open: Vec<char> = Vec::new();
    let mut i: usize = 0;
    while i < q.len()
        invariant
            q@ == query@,
            i <= q@.len(),
            terms.deep_view() == split_state(q@.subrange(0, i as int)).0.filter(term_pred()),
            open@ == split_state(q@.subrange(0, i as int)).1,
        decreases q@.len() - i,
    {
        let ghost prev = q@.subrange(0, i as int);
        let ghost next = q@.subrange(0, i + 1);
        assert(next.drop_last() =~= prev);
        let c = q[i];
        if is_alnum_char(c) {
            open.push(ascii_lower_char(c));
        } else {
            proof {
                split_state(prev).0.lemma_filter_push(open@, term_pred());
            }
            if is_term_exec(&open) {
                let ghost before = terms.deep_view();
                let ghost ov = open@;
                terms.push(open);
                assert(terms@[terms@.len() - 1].deep_view() =~= ov);
                assert(terms.deep_view() =~= before.push(ov));
            }
            open = Vec::new();
            assert(open@ =~= Seq::<char>::empty());
        }
        i += 1;
    }
    assert(q@.subrange(0, q@.len() as int) =~= query@);
    proof {
        split_state(query@).0.lemma_filter_push(open@, term_pred());
    }
    if is_term_exec(&open) {
        let ghost before = terms.deep_view();
        let ghost ov = open@;
        terms.push(open);
        assert(terms@[terms@.len() - 1].deep_view() =~= ov);
        assert(terms.deep_view() =~= before.push(ov));
    }
    terms
}

proof fn lemma_share_bounded(m: nat, n: nat)
    requires
        m <= n,
        n > 0,
    ensures
        m * (SCALE as nat) / n <= SCALE,
{
    assert(m * (SCALE as nat) <= n * (SCALE as nat)) by (nonlinear_arith)
        requires
            m <= n,
    ;
    vstd::arithmetic::div_mod::lemma_div_is_ordered(
        (m * (SCALE as nat)) as int,
        (n * (SCALE as nat)) as int,
        n as int,
    );
    vstd::arithmetic::div_mod::lemma_div_multiples_vanish(SCALE as int, n as int);
}

/// Share, in millionths, of the query's terms found in the answer.
pub fn query_alignment_score(query: &str, answer: &str) -> (r: u64)
    ensures
        r == alignment(query@, answer@),
        r <= SCALE,
{
    let answer_lower = lower_chars_of(answer);
    let terms = query_terms_of(query);
    if terms.len() == 0 {
        return 0;
    }
    let ghost tv = terms.deep_view();
    let mut matched: usize = 0;
    let mut i: usize = 0;
    while i < terms.len()
        invariant
            tv == terms.deep_view(),
            answer_lower@ == lower_seq(answer@),
            i <= tv.len(),
            matched == tv.subrange(0, i as int).filter(found_in(answer@)).len(),
            matched <= i,
        decreases tv.len() - i,
    {
        assert(tv.subrange(0, i + 1) =~= tv.subrange(0, i as int).push(tv[i as int]));
        proof {
            tv.subrange(0, i as int).lemma_filter_push(tv[i as int], found_in(answer@));
        }
        assert(terms[i as int]@ == tv[i as int]);
        if contains_chars(&answer_lower, &terms[i]) {
            matched += 1;
        }
        i += 1;
    }
    assert(tv.subrange(0, tv.len() as int) =~= tv);
    let n = terms.len() as u64;
    let m = matched as u64;
    proof {
        lemma_share_bounded(m as nat, n as nat);
    }
    let wide = (m as u128) * (SCALE as u128) / (n as u128);
    assert(wide == (m as nat) * (SCALE as nat) / (n as nat));
    wide as u64
}

fn contains_string(v: &Vec<String>, s: &String) -> (r: bool)
    ensures
        r == v.deep_view().contains(s@),
{
    let ghost dv = v.deep_view();
    let mut i: usize = 0;
    while i < v.len()
        invariant
            dv == v.deep_view(),
            i <= v@.len(),
            forall|k: int| 0 <= k < i ==> dv[k] != s@,
        decreases v@.len() - i,
    {
        if v[i] == *s {
            assert(dv[i as int] == s@);
            return true;
        }
        i += 1;
    }
    false
}

fn count_valid(citations: &Vec<String>, evidence: &Vec<String>) -> (r: usize)
    ensures
        r == valid_citations(citations.deep_view(), evidence.deep_view()),
        r <= citations@.len(),
{
    let ghost cv = citations.deep_view();
    let ghost ev = evidence.deep_view();
    let mut count: usize = 0;
    let mut i: usize = 0;
    while i < citations.len()
        invariant
            cv == citations.deep_view(),
            ev == evidence.deep_view(),
            i <= cv.len(),
            count == cv.subrange(0, i as int).filter(in_evidence(ev)).len(),
            count <= i,
        decreases cv.len() - i,
    {
        assert(cv.subrange(0, i + 1) =~= cv.subrange(0, i as int).push(cv[i as int]));
        proof {
            cv.subrange(0, i as int).lemma_filter_push(cv[i as int], in_evidence(ev));
        }
        if contains_string(evidence, &citations[i]) {
            count += 1;
        }
        i += 1;
    }
    assert(cv.subrange(0, cv.len() as int) =~= cv);
    count
}

/// Citation coverage in millionths.
pub fn citation_coverage_score(citations: &Vec<String>, evidence: &Vec<String>) -> (r: u64)
    ensures
        r == coverage(citations.deep_view(), evidence.deep_view()),
        r <= SCALE,
{
    if evidence.len() == 0 {
        return 0;
    }
    let valid = count_valid(citations, evidence) as u64;
    let n = evidence.len() as u64;
    let share = (valid as u128) * (SCALE as u128) / (n as u128);
    if share > SCALE as u128 {
        SCALE
    } else {
        share as u64
    }
}

fn doc_of_exec<'a>(links: &'a Vec<(String, String)>, key: &String) -> (r: Option<&'a String>)
    ensures
        match r {
            Some(d) => doc_of(links_view(links@), key@) == Some(d@),
            None => doc_of(links_view(links@), key@) is None,
        },
{
    let ghost m = links_view(links@);
    let mut i: usize = links.len();
    assert(m.subrange(0, i as int) =~= m);
    while i > 0
        invariant
            m == links_view(links@),
            i <= links@.len(),
            doc_of(m, key@) == doc_of(m.subrange(0, i as int), key@),
        decreases i,
    {
        let ghost sub = m.subrange(0, i as int);
        assert(sub.drop_last() =~= m.subrange(0, i - 1));
        if links[i - 1].0 == *key {
            return Some(&links[i - 1].1);
        }
        i -= 1;
    }
    None
}

/// Cross-document coverage in millionths.
pub fn cross_document_score(
    citations: &Vec<String>,
    links: &Vec<(String, String)>,
    relation_query: bool,
) -> (r: u64)
    ensures
        r == cross_coverage(citations.deep_view(), links_view(links@), relation_query),
{
    if !relation_query {
        return SCALE;
    }
    let ghost cv = citations.deep_view();
    let ghost m = links_view(links@);
    let mut first: Option<&String> = None;
    let mut first_at: usize = 0;
    let mut i: usize = 0;
    while i < citations.len()
        invariant
            cv == citations.deep_view(),
            m == links_view(links@),
            i <= cv.len(),
            first_at < cv.len() || first is None,
            match first {
                Some(d) => first_at < i && doc_of(m, cv[first_at as int]) == Some(d@) && forall|
                    k: int,
                | 0 <= k < i && (#[trigger] doc_of(m, cv[k])) is Some ==> doc_of(m, cv[k]) == Some(
                    d@,
                ),
                None => forall|k: int| 0 <= k < i ==> (#[trigger] doc_of(m, cv[k])) is None,
            },
        decreases cv.len() - i,
    {
        match doc_of_exec(links, &citations[i]) {
            Some(d) => {
                match first {
                    Some(f) => {
                        if *f != *d {
                            assert(doc_of(m, cv[first_at as int]) != doc_of(m, cv[i as int]));
                            return SCALE;
                        }
                    },
                    None => {
                        first = Some(d);
                        first_at = i;
                    },
                }
            },
            None => {},
        }
        i += 1;
    }
    match first {
        Some(_) => {
            assert(!cites_two_docs(cv, m));
            SCALE / 2
        },
        None => 0,
    }
}

/// Scores an answer against its query and the evidence of the run.
pub fn evaluate_answer(
    query: &str,
    answer_markdown: &str,
    citations: &Vec<String>,
    evidence_node_ids: &Vec<String>,
    citation_document_map: &Vec<(String, String)>,
    relation_query: bool,
) -> (r: QualityMetrics)
    ensures
        r == quality(
            query@,
            answer_markdown@,
            citations.deep_view(),
            evidence_node_ids.deep_view(),
            links_view(citation_document_map@),
            relation_query,
        ),
        r.overall <= SCALE,
{
    let trimmed_answer = trimmed(answer_markdown);
    let grounded = trimmed_answer.as_str().unicode_len() > 0 && citations.len() > 0;
    let qa = query_alignment_score(query, answer_markdown);
    let cc = citation_coverage_score(citations, evidence_node_ids);
    let cd = cross_document_score(citations, citation_document_map, relation_query);
    let gs: u64 = if grounded {
        SCALE
    } else {
        0
    };
    let sum = (40 * qa + 25 * cc + 20 * cd + 15 * gs) / 100;
    let overall = if sum > SCALE {
        SCALE
    } else {
        sum
    };
    QualityMetrics {
        overall,
        query_alignment: qa,
        citation_coverage: cc,
        cross_document_coverage: cd,
        grounded,
    }
}

proof fn lemma_filter_keeps_distinct(s: Seq<Seq<char>>, p: spec_fn(Seq<char>) -> bool)
    requires
        s.no_duplicates(),
    ensures
        s.filter(p).no_duplicates(),
    decreases s.len(),
{
    if s.len() > 0 {
        let init = s.drop_last();
        let x = s.last();
        assert(init.no_duplicates());
        lemma_filter_keeps_distinct(init, p);
        assert(init.push(x) =~= s);
        init.lemma_filter_push(x, p);
        if p(x) {
            let f = init.filter(p);
            if f.contains(x) {
                init.lemma_filter_contains_rev(p, x);
                let k = choose|k: int| 0 <= k < init.len() && init[k] == x;
                assert(s[k] == s[s.len() - 1]);
            }
            assert forall|i: int, j: int|
                0 <= i < f.push(x).len() && 0 <= j < f.push(x).len() && i != j implies f.push(x)[i]
                != f.push(x)[j] by {
                if i == f.len() as int {
                    assert(f.contains(f[j]));
                } else if j == f.len() as int {
                    assert(f.contains(f[i]));
                }
            }
        }
    }
}

/// Citation coverage never drops when a list of distinct citations is
/// replaced by one that holds each of them (and possibly more); every score
/// lies between zero and one.
pub proof fn lemma_coverage_monotone(
    fewer: Seq<Seq<char>>,
    more: Seq<Seq<char>>,
    ev: Seq<Seq<char>>,
)
    requires
        fewer.no_duplicates(),
        forall|x: Seq<char>| fewer.contains(x) ==> more.contains(x),
    ensures
        coverage(fewer, ev) <= coverage(more, ev),
        coverage(more, ev) <= SCALE,
{
    let p = in_evidence(ev);
    let f1 = fewer.filter(p);
    let f2 = more.filter(p);
    lemma_filter_keeps_distinct(fewer, p);
    assert forall|x: Seq<char>| f1.to_set().contains(x) implies f2.to_set().contains(x) by {
        assert(f1.contains(x));
        fewer.lemma_filter_contains_rev(p, x);
        let i = choose|i: int| 0 <= i < f1.len() && f1[i] == x;
        assert(p(f1[i]));
        assert(more.contains(x));
        let j = choose|j: int| 0 <= j < more.len() && more[j] == x;
        more.lemma_filter_contains(p, j);
        assert(f2.contains(x));
    }
    f1.unique_seq_to_set();
    vstd::seq_lib::seq_to_set_is_finite(f2);
    vstd::set_lib::lemma_len_subset(f1.to_set(), f2.to_set());
    f2.lemma_cardinality_of_set();
    assert(f1.len() <= f2.len());
    if ev.len() > 0 {
        let s = SCALE as nat;
        assert(f1.len() * s <= f2.len() * s) by (nonlinear_arith)
            requires
                f1.len() <= f2.len(),
        ;
        vstd::arithmetic::div_mod::lemma_div_is_ordered(
            (f1.len() * s) as int,
            (f2.len() * s) as int,
            ev.len() as int,
        );
    }
}

} // verus!
