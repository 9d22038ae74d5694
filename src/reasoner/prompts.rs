//! The two prompts sent to the model: one asking for the next planner step,
//! one asking for a grounded answer over the collected evidence.
use vstd::prelude::*;

use crate::reasoner::planner::PlannerInput;
use crate::text::{decimal, push_char, push_decimal};

verus! {

pub open spec fn synthesis_head() -> Seq<char> {
    "You are a retrieval reasoner. Answer only from the provided evidence.\n"@
        + "If evidence is insufficient, explicitly say what is missing instead of guessing.\n"@
        + "Do not paste raw node ids in prose except inside citations.\n\n"@ + "USER QUERY:\n"@
}

pub open spec fn synthesis_tail() -> Seq<char> {
    "\nOutput rules:\n"@
        + "- If the query compares or relates files/documents, structure answer_markdown with headings:\n"@
        + "  1) What each file is about\n  2) How they are related\n  3) Gaps or uncertainty\n"@
        + "- Every substantive claim must be grounded by at least one citation id.\n"@
        + "- citations must only contain ids that appear in evidence ([citation:...]).\n"@
        + "\nReturn ONLY valid JSON with this exact shape:\n"@
        + "{\"answer_markdown\":\"...\",\"confidence\":0.0,\"citations\":[\"node-id\"]}\n"@
}

/// The evidence items, one per line, numbered from 1.
pub open spec fn numbered(items: Seq<Seq<char>>) -> Seq<char>
    decreases items.len(),
{
    if items.len() == 0 {
        Seq::empty()
    } else {
        numbered(items.drop_last()) + decimal(items.len()) + ". "@ + items.last() + "\n"@
    }
}

/// The synthesis prompt for query `q` over the evidence snippets `ev`.
pub open spec fn synthesis_text(q: Seq<char>, ev: Seq<Seq<char>>) -> Seq<char> {
    synthesis_head() + q + "\n\nEVIDENCE:\n"@ + numbered(ev) + synthesis_tail()
}

fn put(out: &mut String, s: &str)
    ensures
        final(out)@ == old(out)@ + s@,
{
    out.append(s);
}

/// The prompt that asks the model for a grounded answer in JSON.
pub fn synthesis_prompt(query: &str, evidence: &Vec<String>) -> (r: String)
    ensures
        r@ == synthesis_text(query@, evidence.deep_view()),
{
    let ghost ev = evidence.deep_view();
    let mut text = String::new();
    put(&mut text, "You are a retrieval reasoner. Answer only from the provided evidence.\n");
    put(&mut text, "If evidence is insufficient, explicitly say what is missing instead of guessing.\n");
    put(&mut text, "Do not paste raw node ids in prose except inside citations.\n\n");
    put(&mut text, "USER QUERY:\n");
    assert(text@ =~= synthesis_head());
    put(&mut text, query);
    put(&mut text, "\n\nEVIDENCE:\n");
    let ghost start = text@;
    let mut idx: usize = 0;
    while idx < evidence.len()
        invariant
            ev == evidence.deep_view(),
            idx <= ev.len(),
            text@ == start + numbered(ev.subrange(0, idx as int)),
        decreases ev.len() - idx,
    {
        let ghost sub = ev.subrange(0, idx + 1);
        assert(sub.drop_last() =~= ev.subrange(0, idx as int));
        push_decimal(&mut text, (idx + 1) as u64);
        put(&mut text, ". ");
        put(&mut text, evidence[idx].as_str());
        put(&mut text, "\n");
        idx += 1;
        assert(text@ =~= start + numbered(ev.subrange(0, idx as int)));
    }
    assert(ev.subrange(0, ev.len() as int) =~= ev);
    let ghost body = text@;
    put(&mut text, "\nOutput rules:\n");
    put(&mut text, "- If the query compares or relates files/documents, structure answer_markdown with headings:\n");
    put(&mut text, "  1) What each file is about\n  2) How they are related\n  3) Gaps or uncertainty\n");
    put(&mut text, "- Every substantive claim must be grounded by at least one citation id.\n");
    put(&mut text, "- citations must only contain ids that appear in evidence ([citation:...]).\n");
    put(&mut text, "\nReturn ONLY valid JSON with this exact shape:\n");
    put(&mut text, "{\"answer_markdown\":\"...\",\"confidence\":0.0,\"citations\":[\"node-id\"]}\n");
    assert(text@ =~= body + synthesis_tail());
    text
}

/// A confidence in millionths, rounded to two decimals: "0.42", "1.00".
pub open spec fn two_decimals(ppm: nat) -> Seq<char> {
    let h = (ppm + 5000) / 10000;
    decimal(h / 100) + "."@ + seq![
        ((((h % 100) / 10) + 48) as u8) as char,
        (((h % 10) + 48) as u8) as char,
    ]
}

pub open spec fn bool_text(b: bool) -> Seq<char> {
    if b {
        "true"@
    } else {
        "false"@
    }
}

pub open spec fn planner_head() -> Seq<char> {
    "You are the reasoning planner for a document QA agent.\n"@
        + "Pick exactly one next action. Be concise and strategic.\n"@
        + "Return ONLY JSON with keys: stepType, objective, reasoning, decision.\n"@
        + "Allowed stepType: search, inspect, synthesize, self_check, finish.\n"@
        + "Allowed decision: continue, backtrack, stop.\n\n"@ + "STATE:\n"@
}

pub open spec fn planner_hints() -> Seq<char> {
    "\nStrategy hints:\n"@ + "- Use search before inspect when evidence is weak.\n"@
        + "- Use synthesize only after evidence exists.\n"@
        + "- Use self_check after synthesis.\n"@
        + "- Use finish only when answer quality is sufficient.\n"@
}

/// One line per explored section.
pub open spec fn bullet_lines(items: Seq<Seq<char>>) -> Seq<char>
    decreases items.len(),
{
    if items.len() == 0 {
        Seq::empty()
    } else {
        bullet_lines(items.drop_last()) + "- "@ + items.last() + "\n"@
    }
}

pub open spec fn confidence_text(c: Option<u64>) -> Seq<char> {
    match c {
        Some(c) => two_decimals(c as nat),
        None => "none"@,
    }
}

pub open spec fn count_lines(i: PlannerInput) -> Seq<char> {
    "query: "@ + i.query@ + "\n"@ + "stepCount: "@ + decimal(i.step_count as nat) + "\n"@
        + "backtrackCount: "@ + decimal(i.backtrack_count as nat) + "\n"@
}

pub open spec fn flag_lines(i: PlannerInput) -> Seq<char> {
    "hasEvidence: "@ + bool_text(i.has_evidence) + "\n"@ + "lastConfidence: "@ + confidence_text(
        i.last_confidence,
    ) + "\n"@
}

/// The counters and flags of the planner state, one per line.
pub open spec fn state_lines(i: PlannerInput) -> Seq<char> {
    count_lines(i) + flag_lines(i)
}

/// The explored sections, when there are any.
pub open spec fn sections_block(secs: Seq<Seq<char>>) -> Seq<char> {
    if secs.len() > 0 {
        "exploredSections:\n"@ + bullet_lines(secs)
    } else {
        Seq::empty()
    }
}

/// The state block of the planner prompt.
pub open spec fn planner_state(i: PlannerInput) -> Seq<char> {
    state_lines(i) + sections_block(i.explored_sections.deep_view())
}

/// The planner prompt for the state `i`.
pub open spec fn planner_text(i: PlannerInput) -> Seq<char> {
    planner_head() + planner_state(i) + planner_hints()
}

fn add_two_decimals(out: &mut String, ppm: u64)
    ensures
        final(out)@ == old(out)@ + two_decimals(ppm as nat),
{
    let h: u64 = ((ppm as u128 + 5000) / 10000) as u64;
    push_decimal(out, h / 100);
    put(out, ".");
    push_char(out, ((((h % 100) / 10) + 48) as u8) as char);
    push_char(out, (((h % 10) + 48) as u8) as char);
    assert(final(out)@ =~= old(out)@ + two_decimals(ppm as nat));
}

fn put_count_lines(text: &mut String, input: &PlannerInput)
    ensures
        final(text)@ == old(text)@ + count_lines(*input),
{
    put(text, "query: ");
    put(text, input.query.as_str());
    put(text, "\n");
    put(text, "stepCount: ");
    push_decimal(text, input.step_count as u64);
    put(text, "\n");
    put(text, "backtrackCount: ");
    push_decimal(text, input.backtrack_count as u64);
    put(text, "\n");
    assert(final(text)@ =~= old(text)@ + count_lines(*input));
}

fn put_state_lines(text: &mut String, input: &PlannerInput)
    ensures
        final(text)@ == old(text)@ + state_lines(*input),
{
    put_count_lines(text, input);
    let ghost mid = text@;
    put(text, "hasEvidence: ");
    if input.has_evidence {
        put(text, "true");
    } else {
        put(text, "false");
    }
    put(text, "\n");
    put(text, "lastConfidence: ");
    match input.last_confidence {
        Some(c) => add_two_decimals(text, c),
        None => put(text, "none"),
    }
    put(text, "\n");
    assert(final(text)@ =~= mid + flag_lines(*input));
    assert(final(text)@ =~= old(text)@ + state_lines(*input));
}

fn put_sections(text: &mut String, sections: &Vec<String>)
    ensures
        final(text)@ == old(text)@ + sections_block(sections.deep_view()),
{
    let ghost secs = sections.deep_view();
    if sections.len() > 0 {
        put(text, "exploredSections:\n");
        let ghost start = text@;
        let mut k: usize = 0;
        assert(bullet_lines(secs.subrange(0, 0)) =~= Seq::<char>::empty());
        assert(text@ =~= start + bullet_lines(secs.subrange(0, 0)));
        while k < sections.len()
            invariant
                secs == sections.deep_view(),
                k <= secs.len(),
                text@ == start + bullet_lines(secs.subrange(0, k as int)),
            decreases secs.len() - k,
        {
            let ghost sub = secs.subrange(0, k + 1);
            assert(sub.drop_last() =~= secs.subrange(0, k as int));
            put(text, "- ");
            put(text, sections[k].as_str());
            put(text, "\n");
            k += 1;
            assert(text@ =~= start + bullet_lines(secs.subrange(0, k as int)));
        }
        assert(secs.subrange(0, secs.len() as int) =~= secs);
    }
    assert(final(text)@ =~= old(text)@ + sections_block(secs));
}

/// The prompt that asks the model for one planner step in JSON.
pub fn planner_prompt(input: &PlannerInput) -> (r: String)
    ensures
        r@ == planner_text(*input),
{
    let mut text = String::new();
    put(&mut text, "You are the reasoning planner for a document QA agent.\n");
    put(&mut text, "Pick exactly one next action. Be concise and strategic.\n");
    put(&mut text, "Return ONLY JSON with keys: stepType, objective, reasoning, decision.\n");
    put(&mut text, "Allowed stepType: search, inspect, synthesize, self_check, finish.\n");
    put(&mut text, "Allowed decision: continue, backtrack, stop.\n\n");
    put(&mut text, "STATE:\n");
    assert(text@ =~= planner_head());
    put_state_lines(&mut text, input);
    put_sections(&mut text, &input.explored_sections);
    assert(text@ =~= planner_head() + planner_state(*input));
    let ghost body = text@;
    put(&mut text, "\nStrategy hints:\n");
    put(&mut text, "- Use search before inspect when evidence is weak.\n");
    put(&mut text, "- Use synthesize only after evidence exists.\n");
    put(&mut text, "- Use self_check after synthesis.\n");
    put(&mut text, "- Use finish only when answer quality is sufficient.\n");
    assert(text@ =~= body + planner_hints());
    text
}

} // verus!
