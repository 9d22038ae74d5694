//! What the engine needs of the Gemini provider that is pure computation.
//! The HTTP exchange itself belongs to the host.
use vstd::prelude::*;

use crate::common::errors::AppError;
use crate::common::types::SCALE;
use crate::text::{decimal, push_decimal, trim, trimmed};

verus! {

/// One planner step as the model proposed it, before validation.
#[derive(Debug, Clone)]
pub struct GeminiPlannerStep {
    pub step_type: String,
    pub objective: String,
    pub reasoning: String,
    pub decision: String,
}

/// The model's answer after parsing; `confidence` is in millionths.
#[derive(Debug, Clone)]
pub struct GeminiAnswer {
    pub answer_markdown: String,
    pub confidence: u64,
    pub citations: Vec<String>,
}

/// Cost of one input token, in billionths of a dollar.
pub const INPUT_TOKEN_NANO_USD: u64 = 300;

/// Cost of one output token, in billionths of a dollar.
pub const OUTPUT_TOKEN_NANO_USD: u64 = 1200;

/// What a non-success HTTP status of the provider means.
pub open spec fn status_failure(status: u16, body: Seq<char>) -> Option<AppError> {
    if 200 <= status < 300 {
        None
    } else if status == 401 || status == 403 {
        Some(AppError::ProviderAuth)
    } else if status == 429 {
        Some(AppError::ProviderRateLimited)
    } else {
        Some(AppError::ProviderInvalidResponse(arbitrary()))
    }
}

pub open spec fn status_excerpt(status: u16, body: Seq<char>) -> Seq<char> {
    "status "@ + decimal(status as nat) + " body "@ + body
}

/// The error for an HTTP status, or `None` on success: 401 and 403 are an
/// authentication failure, 429 rate limiting, any other failure an invalid
/// response that quotes the status and the body.
pub fn error_for_status(status: u16, body: &str) -> (r: Option<AppError>)
    ensures
        match status_failure(status, body@) {
            None => r is None,
            Some(AppError::ProviderInvalidResponse(_)) => r is Some && r->0 is ProviderInvalidResponse
                && r->0->ProviderInvalidResponse_0@ == status_excerpt(status, body@),
            Some(e) => r == Some(e),
        },
{
    if 200 <= status && status < 300 {
        None
    } else if status == 401 || status == 403 {
        Some(AppError::ProviderAuth)
    } else if status == 429 {
        Some(AppError::ProviderRateLimited)
    } else {
        let mut m = String::from_str("status ");
        push_decimal(&mut m, status as u64);
        m.append(" body ");
        m.append(body);
        Some(AppError::ProviderInvalidResponse(m))
    }
}

/// A parsed planner step is accepted only with a step type and an objective
/// that are not blank.
pub fn validate_plan_step(step: GeminiPlannerStep) -> (r: Result<GeminiPlannerStep, AppError>)
    ensures
        (trim(step.step_type@).len() > 0 && trim(step.objective@).len() > 0) ==> r is Ok
            && r->Ok_0.step_type@ == step.step_type@ && r->Ok_0.objective@ == step.objective@
            && r->Ok_0.reasoning@ == step.reasoning@ && r->Ok_0.decision@ == step.decision@,
        !(trim(step.step_type@).len() > 0 && trim(step.objective@).len() > 0) ==> r is Err
            && r->Err_0 is ProviderInvalidResponse,
{
    let kind = trimmed(step.step_type.as_str());
    let objective = trimmed(step.objective.as_str());
    if kind.as_str().unicode_len() == 0 || objective.as_str().unicode_len() == 0 {
        return Err(
            AppError::ProviderInvalidResponse(
                String::from_str("planner output missing required fields"),
            ),
        );
    }
    Ok(step)
}

pub open spec fn default_answer_text() -> Seq<char> {
    "No grounded answer could be generated."@
}

/// The model's answer from the fields found in its JSON output, each
/// defaulted when absent: a fixed sentence, a confidence of one half, no
/// citations.
pub fn answer_from_fields(
    answer_markdown: Option<String>,
    confidence: Option<u64>,
    citations: Option<Vec<String>>,
) -> (r: GeminiAnswer)
    ensures
        r.answer_markdown@ == match answer_markdown {
            Some(a) => a@,
            None => default_answer_text(),
        },
        r.confidence == match confidence {
            Some(c) => c,
            None => SCALE / 2,
        },
        r.citations@ == match citations {
            Some(c) => c@,
            None => Seq::empty(),
        },
{
    GeminiAnswer {
        answer_markdown: match answer_markdown {
            Some(a) => a,
            None => String::from_str("No grounded answer could be generated."),
        },
        confidence: match confidence {
            Some(c) => c,
            None => SCALE / 2,
        },
        citations: match citations {
            Some(c) => c,
            None => Vec::new(),
        },
    }
}

/// The estimated cost of a call, in billionths of a dollar: 3e-7 dollars per
/// input token and 1.2e-6 per output token.
pub fn estimate_cost_nano_usd(input_tokens: u64, output_tokens: u64) -> (r: u128)
    ensures
        r == input_tokens * INPUT_TOKEN_NANO_USD + output_tokens * OUTPUT_TOKEN_NANO_USD,
{
    let a = input_tokens as u128;
    let b = output_tokens as u128;
    assert(a * 300 <= u64::MAX as u128 * 300 && b * 1200 <= u64::MAX as u128 * 1200)
        by (nonlinear_arith)
        requires
            a <= u64::MAX,
            b <= u64::MAX,
    ;
    a * (INPUT_TOKEN_NANO_USD as u128) + b * (OUTPUT_TOKEN_NANO_USD as u128)
}

} // verus!
