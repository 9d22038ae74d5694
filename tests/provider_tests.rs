use vectorless_lib::{
    common::errors::AppError,
    providers::gemini::{
        answer_from_fields, error_for_status, estimate_cost_nano_usd, validate_plan_step,
        GeminiPlannerStep,
    },
};

#[test]
fn status_mapping() {
    assert!(error_for_status(200, "").is_none());
    assert_eq!(error_for_status(401, ""), Some(AppError::ProviderAuth));
    assert_eq!(error_for_status(403, "x"), Some(AppError::ProviderAuth));
    assert_eq!(error_for_status(429, ""), Some(AppError::ProviderRateLimited));
    assert_eq!(
        error_for_status(500, "boom"),
        Some(AppError::ProviderInvalidResponse("status 500 body boom".to_string()))
    );
    assert!(AppError::ProviderRateLimited.retryable());
    assert!(AppError::ProviderTimeout.retryable());
    assert!(AppError::Network("x".to_string()).retryable());
    assert!(!AppError::ProviderAuth.retryable());
    assert!(!AppError::QualityGateFailed("x".to_string()).retryable());
}

#[test]
fn error_codes_and_messages() {
    assert_eq!(AppError::InvalidInput("q".to_string()).code(), "INVALID_INPUT");
    assert_eq!(AppError::NotFound("q".to_string()).code(), "NOT_FOUND");
    assert_eq!(AppError::Database("q".to_string()).code(), "DATABASE_ERROR");
    assert_eq!(AppError::ProviderTimeout.code(), "PROVIDER_TIMEOUT");
    assert_eq!(AppError::Network("q".to_string()).code(), "NETWORK_ERROR");
    assert_eq!(AppError::Internal("q".to_string()).code(), "INTERNAL_ERROR");
    assert_eq!(AppError::NotFound("run".to_string()).message(), "not found: run");
    assert_eq!(AppError::ProviderAuth.message(), "provider auth failed");
}

#[test]
fn planner_step_needs_type_and_objective() {
    let ok = GeminiPlannerStep {
        step_type: "search".to_string(),
        objective: "find".to_string(),
        reasoning: String::new(),
        decision: "continue".to_string(),
    };
    assert!(validate_plan_step(ok.clone()).is_ok());
    let blank = GeminiPlannerStep { objective: "  ".to_string(), ..ok };
    assert!(matches!(
        validate_plan_step(blank),
        Err(AppError::ProviderInvalidResponse(_))
    ));
}

#[test]
fn answer_defaults_and_cost() {
    let a = answer_from_fields(None, None, None);
    assert_eq!(a.answer_markdown, "No grounded answer could be generated.");
    assert_eq!(a.confidence, 500_000);
    assert!(a.citations.is_empty());
    let b = answer_from_fields(Some("x".to_string()), Some(820_000), Some(vec!["n".to_string()]));
    assert_eq!(b.answer_markdown, "x");
    assert_eq!(b.confidence, 820_000);
    // 1000 input tokens at 3e-7 and 500 output tokens at 1.2e-6 dollars.
    assert_eq!(estimate_cost_nano_usd(1000, 500), 900_000);
}
