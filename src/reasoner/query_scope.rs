//! Decides whether a query is about one document or must look across the
//! whole project.
use vstd::prelude::*;

use crate::text::{contains_str, has_sub, lower_chars_of, lower_seq};

verus! {

/// The query as it is matched: ASCII-lowercased and wrapped in spaces.
pub open spec fn normalized_query(q: Seq<char>) -> Seq<char> {
    seq![' '] + lower_seq(q) + seq![' ']
}

/// Wording that asks how things relate.
pub open spec fn has_relation_hint(n: Seq<char>) -> bool {
    has_sub(n, "related"@) || has_sub(n, "relationship"@) || has_sub(n, "relationships"@)
        || has_sub(n, "compare"@) || has_sub(n, "comparison"@) || has_sub(n, "differences"@)
        || has_sub(n, "similarities"@) || has_sub(n, "across"@) || has_sub(n, "between"@)
        || has_sub(n, "connect"@) || has_sub(n, "overlap"@) || has_sub(n, "fit together"@)
        || has_sub(n, "how they"@)
}

/// Wording that names several documents.
pub open spec fn has_multi_doc_hint(n: Seq<char>) -> bool {
    has_sub(n, "files"@) || has_sub(n, "documents"@) || has_sub(n, "docs"@) || has_sub(
        n,
        "papers"@,
    ) || has_sub(n, "slides"@) || has_sub(n, "presentations"@) || has_sub(n, "sources"@)
        || has_sub(n, "these files"@) || has_sub(n, "these documents"@) || has_sub(
        n,
        "all files"@,
    ) || has_sub(n, "all documents"@)
}

/// Wording that points at one document or a part of it.
pub open spec fn has_single_doc_hint(n: Seq<char>) -> bool {
    has_sub(n, "this file"@) || has_sub(n, "this document"@) || has_sub(n, "this slide"@)
        || has_sub(n, "slide "@) || has_sub(n, "page "@) || has_sub(n, "section "@)
}

pub open spec fn has_plural_pronoun(n: Seq<char>) -> bool {
    has_sub(n, " they "@) || has_sub(n, " them "@)
}

/// Whether the query `q` must be answered over the whole project.
pub open spec fn project_scope(q: Seq<char>) -> bool {
    let n = normalized_query(q);
    let r = has_relation_hint(n);
    let m = has_multi_doc_hint(n);
    let s = has_single_doc_hint(n);
    let p = has_plural_pronoun(n);
    (m && (r || p)) || has_sub(n, "across documents"@) || has_sub(n, "across files"@) || (r && p)
        || (r && m && !s)
}

fn normalize(query: &str) -> (r: Vec<char>)
    ensures
        r@ == normalized_query(query@),
{
    let body = lower_chars_of(query);
    let mut out: Vec<char> = Vec::new();
    out.push(' ');
    let mut i: usize = 0;
    while i < body.len()
        invariant
            i <= body@.len(),
            out@ == seq![' '] + body@.subrange(0, i as int),
        decreases body@.len() - i,
    {
        out.push(body[i]);
        i += 1;
        assert(out@ =~= seq![' '] + body@.subrange(0, i as int));
    }
    out.push(' ');
    assert(body@.subrange(0, body@.len() as int) =~= body@);
    assert(out@ =~= normalized_query(query@));
    out
}

/// True when the query's wording asks to relate or compare several
/// documents, so that any single focus document is set aside.
pub fn requires_project_scope(query: &str) -> (r: bool)
    ensures
        r == project_scope(query@),
{
    let n = normalize(query);
    let relation = contains_str(&n, "related") || contains_str(&n, "relationship")
        || contains_str(&n, "relationships") || contains_str(&n, "compare") || contains_str(
        &n,
        "comparison",
    ) || contains_str(&n, "differences") || contains_str(&n, "similarities") || contains_str(
        &n,
        "across",
    ) || contains_str(&n, "between") || contains_str(&n, "connect") || contains_str(
        &n,
        "overlap",
    ) || contains_str(&n, "fit together") || contains_str(&n, "how they");
    let multi = contains_str(&n, "files") || contains_str(&n, "documents") || contains_str(
        &n,
        "docs",
    ) || contains_str(&n, "papers") || contains_str(&n, "slides") || contains_str(
        &n,
        "presentations",
    ) || contains_str(&n, "sources") || contains_str(&n, "these files") || contains_str(
        &n,
        "these documents",
    ) || contains_str(&n, "all files") || contains_str(&n, "all documents");
    let single = contains_str(&n, "this file") || contains_str(&n, "this document")
        || contains_str(&n, "this slide") || contains_str(&n, "slide ") || contains_str(
        &n,
        "page ",
    ) || contains_str(&n, "section ");
    let plural = contains_str(&n, " they ") || contains_str(&n, " them ");
    if multi && (relation || plural) {
        return true;
    }
    if contains_str(&n, "across documents") || contains_str(&n, "across files") {
        return true;
    }
    if relation && plural {
        return true;
    }
    relation && multi && !single
}

} // verus!
