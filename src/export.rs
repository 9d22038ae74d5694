//! Rendering a document's nodes as markdown, and the project-name rule.
use vstd::prelude::*;

use crate::common::errors::AppError;
use crate::common::types::{DocNodeSummary, NodeType};
use crate::text::{push_char, trim, trimmed};

verus! {

/// A node's text as a paragraph, when it has any.
pub open spec fn text_block(text: Seq<char>) -> Seq<char> {
    if text.len() > 0 {
        text + "\n\n"@
    } else {
        Seq::empty()
    }
}

/// The markdown of one node: sections and subsections as headings, the
/// document's own text as is, any other node as a bold title over its text.
pub open spec fn node_markdown(n: DocNodeSummary) -> Seq<char> {
    match n.node_type {
        NodeType::Document => text_block(n.text@),
        NodeType::Section => "## "@ + n.title@ + seq!['\n'] + text_block(n.text@),
        NodeType::Subsection => "### "@ + n.title@ + seq!['\n'] + text_block(n.text@),
        _ => (if n.title@.len() > 0 {
            "**"@ + n.title@ + "**\n"@
        } else {
            Seq::empty()
        }) + text_block(n.text@),
    }
}

pub open spec fn nodes_markdown(nodes: Seq<DocNodeSummary>) -> Seq<char>
    decreases nodes.len(),
{
    if nodes.len() == 0 {
        Seq::empty()
    } else {
        nodes_markdown(nodes.drop_last()) + node_markdown(nodes.last())
    }
}

/// The markdown export of a document named `name` with `nodes` in order.
pub open spec fn document_markdown(name: Seq<char>, nodes: Seq<DocNodeSummary>) -> Seq<char> {
    "# "@ + name + "\n\n"@ + nodes_markdown(nodes)
}

fn put(out: &mut String, s: &str)
    ensures
        final(out)@ == old(out)@ + s@,
{
    out.append(s);
}

fn put_text_block(out: &mut String, text: &String)
    ensures
        final(out)@ == old(out)@ + text_block(text@),
{
    if text.as_str().unicode_len() > 0 {
        put(out, text.as_str());
        put(out, "\n\n");
        assert(final(out)@ =~= old(out)@ + text_block(text@));
    } else {
        assert(text_block(text@) =~= Seq::<char>::empty());
        assert(out@ =~= old(out)@ + text_block(text@));
    }
}

fn put_node(out: &mut String, n: &DocNodeSummary)
    ensures
        final(out)@ == old(out)@ + node_markdown(*n),
{
    match n.node_type {
        NodeType::Document => {
            put_text_block(out, &n.text);
        },
        NodeType::Section => {
            put(out, "## ");
            put(out, n.title.as_str());
            push_char(out, '\n');
            put_text_block(out, &n.text);
            assert(final(out)@ =~= old(out)@ + node_markdown(*n));
        },
        NodeType::Subsection => {
            put(out, "### ");
            put(out, n.title.as_str());
            push_char(out, '\n');
            put_text_block(out, &n.text);
            assert(final(out)@ =~= old(out)@ + node_markdown(*n));
        },
        _ => {
            if n.title.as_str().unicode_len() > 0 {
                put(out, "**");
                put(out, n.title.as_str());
                put(out, "**\n");
            }
            put_text_block(out, &n.text);
            assert(final(out)@ =~= old(out)@ + node_markdown(*n));
        },
    }
}

/// The markdown export of a document, see `document_markdown`.
pub fn markdown_export(name: &str, nodes: &Vec<DocNodeSummary>) -> (r: String)
    ensures
        r@ == document_markdown(name@, nodes@),
{
    let mut out = String::from_str("# ");
    put(&mut out, name);
    put(&mut out, "\n\n");
    let ghost head = out@;
    let mut i: usize = 0;
    while i < nodes.len()
        invariant
            i <= nodes@.len(),
            out@ == head + nodes_markdown(nodes@.subrange(0, i as int)),
        decreases nodes@.len() - i,
    {
        assert(nodes@.subrange(0, i + 1).drop_last() =~= nodes@.subrange(0, i as int));
        put_node(&mut out, &nodes[i]);
        i += 1;
        assert(out@ =~= head + nodes_markdown(nodes@.subrange(0, i as int)));
    }
    assert(nodes@.subrange(0, nodes@.len() as int) =~= nodes@);
    out
}

/// A project name: trimmed, and INVALID_INPUT when nothing is left.
pub fn normalized_name(name: &str) -> (r: Result<String, AppError>)
    ensures
        trim(name@).len() == 0 ==> r is Err && r->Err_0 is InvalidInput,
        trim(name@).len() > 0 ==> r is Ok && r->Ok_0@ == trim(name@),
{
    let t = trimmed(name);
    if t.as_str().unicode_len() == 0 {
        return Err(AppError::InvalidInput(String::from_str("project name cannot be empty")));
    }
    Ok(t)
}

} // verus!
