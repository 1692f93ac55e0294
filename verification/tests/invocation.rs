use phenix::identity::trim_white_space;
use phenix::invocation::{
    assess_recovery, bounded_utf8, ContextRecoveryDecision, RecoveryAssessmentError,
    RecoveryClassifierLimits, invocation_params, resolve_defaults, resolve_helper_defaults,
    InvocationDefaultsError, DEFAULT_POLICY_REVISION, DEFAULT_ROUTE_POLICY_REVISION,
    HELPER_POLICY_REVISION, HELPER_ROUTE_POLICY_REVISION,
};

#[test]
fn helper_defaults_preserve_pinned_profile_and_disable_retries() {
    let profile_id = "router.pinned".to_string();
    let params = resolve_helper_defaults(profile_id.clone(), &Vec::new());
    assert_eq!(params.profile_id, profile_id);
    assert_eq!(params.policy.revision, HELPER_POLICY_REVISION);
    assert_eq!(params.policy.max_retries, 0);
    assert_eq!(params.route_policy.revision, HELPER_ROUTE_POLICY_REVISION);
}

#[test]
fn ordinary_defaults_use_the_configured_profile_and_one_retry() {
    let tools = vec!["bash".to_string(), "read".to_string(), "bash".to_string()];
    let params = resolve_defaults(Some("router.default".into()), &tools).unwrap();
    assert_eq!(params.profile_id, "router.default");
    assert_eq!(params.policy.revision, DEFAULT_POLICY_REVISION);
    assert_eq!(params.policy.max_retries, 1);
    assert_eq!(params.route_policy.revision, DEFAULT_ROUTE_POLICY_REVISION);
    assert_eq!(params.intent.optional_tools.len(), 2);
    assert!(params.intent.optional_tools.contains_key(&"bash".to_string()));
    assert!(params.intent.optional_tools.contains_key(&"read".to_string()));
    assert!(matches!(resolve_defaults(None, &tools), Err(InvocationDefaultsError::ProfileNotAString)));
}

#[test]
fn invocation_params_fix_the_default_limits() {
    let params = invocation_params("p".into(), &Vec::new(), "usage.v1", "route.v1", 3);
    assert_eq!(params.policy.max_fresh_input_tokens, 128 * 1024);
    assert_eq!(params.policy.max_output_tokens, 16 * 1024);
    assert_eq!(params.policy.max_cost_microunits, None);
    assert_eq!(params.policy.max_retries, 3);
    assert_eq!(params.policy.max_tool_result_bytes, 1024 * 1024);
    assert_eq!(params.policy.max_tool_schemas, 128);
    assert_eq!(params.policy.max_skills, 64);
    assert!(!params.policy.require_known_capacity);
    assert_eq!(params.intent.output_reserve_tokens, 8 * 1024);
    assert_eq!(params.intent.deadline_at_ms, None);
    assert_eq!(params.intent.optional_tools.len(), 0);
    assert!(params.route_policy.ignore_estimates);
    assert_eq!(params.route_policy.max_candidate_attempts, 8);
    assert_eq!(params.policy.revision, "usage.v1");
    assert_eq!(params.route_policy.revision, "route.v1");
}

#[test]
fn bounded_utf8_cuts_on_a_character_boundary() {
    assert_eq!(bounded_utf8("work on prs", 64), "work on prs");
    assert_eq!(bounded_utf8("work on prs", 4), "work");
    assert_eq!(bounded_utf8("héllo", 2), "h");
    assert_eq!(bounded_utf8("héllo", 3), "hé");
    assert_eq!(bounded_utf8("é", 0), "");
}

fn limits() -> RecoveryClassifierLimits {
    RecoveryClassifierLimits { max_prompt_bytes: 64, max_anchors: 2, max_need_query_bytes: 8 }
}

#[test]
fn cold_context_requests_bounded_task_recovery() {
    let limits = RecoveryClassifierLimits {
        max_prompt_bytes: 16384,
        max_anchors: 64,
        max_need_query_bytes: 512,
    };
    let decision = assess_recovery("work on prs", 0, false, limits).unwrap();
    assert_eq!(decision, ContextRecoveryDecision::MissingTask { query: "work on prs".to_owned() });
}

#[test]
fn recovery_query_is_trimmed_and_bounded_on_a_character_boundary() {
    let decision = assess_recovery("  \u{3000}héllo wörld\n", 0, false, limits()).unwrap();
    assert_eq!(decision, ContextRecoveryDecision::MissingTask { query: "héllo w".to_owned() });
}

#[test]
fn sufficient_context_or_blank_prompt_needs_no_recovery() {
    assert_eq!(assess_recovery("fix the build", 1, true, limits()), Ok(ContextRecoveryDecision::Sufficient));
    assert_eq!(assess_recovery(" \t\n ", 0, false, limits()), Ok(ContextRecoveryDecision::Sufficient));
}

#[test]
fn oversized_recovery_requests_are_refused() {
    let long = "x".repeat(65);
    let error = assess_recovery(&long, 0, false, limits()).unwrap_err();
    assert_eq!(error, RecoveryAssessmentError::PromptTooLong { max_bytes: 64 });
    assert_eq!(error.message(), "recovery prompt exceeds 64 bytes");
    let error = assess_recovery("prompt", 3, false, limits()).unwrap_err();
    assert_eq!(error, RecoveryAssessmentError::TooManyAnchors { max_anchors: 2 });
    assert_eq!(error.message(), "recovery anchors exceed 2 entries");
}

#[test]
fn trimming_removes_unicode_white_space_at_both_ends_only() {
    assert_eq!(trim_white_space("\u{a0}\t a  b \u{2029}"), "a  b");
    assert_eq!(trim_white_space("   "), "");
    assert_eq!(trim_white_space("x"), "x");
}
