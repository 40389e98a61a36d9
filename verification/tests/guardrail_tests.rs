use mnemo_core::models::api_key::ApiKeyRole;
use mnemo_core::models::classification::Classification;
use mnemo_core::models::guardrail::{
    evaluate_rules, validate_condition_regexes, validate_guardrail_name, EvalContext,
    EvaluateGuardrailsRequest, EvaluateGuardrailsResponse, GuardrailAction, GuardrailCondition, GuardrailRule, GuardrailScope,
    GuardrailTrigger, GuardrailVerdict,
};
use mnemo_core::score::score_key;
use mnemo_core::time::UtcTime;

fn make_rule(
    id: u128,
    name: &str,
    trigger: GuardrailTrigger,
    condition: GuardrailCondition,
    action: GuardrailAction,
    priority: u32,
) -> GuardrailRule {
    let now = UtcTime { secs: 1_700_000_000, nanos: 0 };
    GuardrailRule {
        id,
        name: name.to_string(),
        description: format!("Test rule: {}", name),
        trigger,
        condition,
        action,
        priority,
        enabled: true,
        scope: GuardrailScope::Global,
        created_at: now,
        updated_at: now,
    }
}

#[test]
fn trigger_matches() {
    assert!(GuardrailTrigger::OnAny.matches(&GuardrailTrigger::OnIngest));
    assert!(GuardrailTrigger::OnAny.matches(&GuardrailTrigger::OnRetrieval));
    assert!(GuardrailTrigger::OnIngest.matches(&GuardrailTrigger::OnIngest));
    assert!(!GuardrailTrigger::OnIngest.matches(&GuardrailTrigger::OnRetrieval));
}

#[test]
fn validate_guardrail_name_rules() {
    assert!(validate_guardrail_name("block_pii").is_ok());
    assert!(validate_guardrail_name("rule-123").is_ok());
    assert!(validate_guardrail_name("").is_err());
    assert!(validate_guardrail_name("a".repeat(65).as_str()).is_err());
    assert!(validate_guardrail_name("no spaces").is_err());
    assert!(validate_guardrail_name("no.dots").is_err());
}

#[test]
fn condition_content_matches_regex() {
    let cond = GuardrailCondition::ContentMatchesRegex { pattern: r"\bSSN\b".into() };
    let ctx = EvalContext { content: Some("My SSN is 123-45-6789".into()), ..Default::default() };
    assert!(cond.evaluate(&ctx));
    let ctx = EvalContext { content: Some("No sensitive data here".into()), ..Default::default() };
    assert!(!cond.evaluate(&ctx));
    let bad = GuardrailCondition::ContentMatchesRegex { pattern: r"[invalid".into() };
    let ctx = EvalContext { content: Some("anything".into()), ..Default::default() };
    assert!(!bad.evaluate(&ctx));
}

#[test]
fn evaluate_rules_block_stops_evaluation() {
    let rules = vec![
        make_rule(
            1,
            "block_ssn",
            GuardrailTrigger::OnIngest,
            GuardrailCondition::ContentMatchesRegex { pattern: r"\bSSN\b".into() },
            GuardrailAction::Block { reason: "SSN references not allowed".into() },
            10,
        ),
        make_rule(
            2,
            "audit_all",
            GuardrailTrigger::OnIngest,
            GuardrailCondition::ClassificationAbove { classification: Classification::Public },
            GuardrailAction::AuditOnly { severity: "info".into() },
            20,
        ),
    ];
    let ctx = EvalContext {
        content: Some("My SSN is 123-45-6789".into()),
        classification: Some(Classification::Internal),
        ..Default::default()
    };
    let verdict = evaluate_rules(&rules, &GuardrailTrigger::OnIngest, &ctx);
    assert!(verdict.blocked);
    assert_eq!(verdict.block_reason.as_deref(), Some("SSN references not allowed"));
    assert_eq!(verdict.details.len(), 1);
}

fn key(x: f32) -> u32 {
    score_key(x.to_bits())
}

#[test]
fn condition_classification_above() {
    let cond = GuardrailCondition::ClassificationAbove { classification: Classification::Internal };
    let mut ctx = EvalContext::default();
    assert!(!cond.evaluate(&ctx));
    ctx.classification = Some(Classification::Public);
    assert!(!cond.evaluate(&ctx));
    ctx.classification = Some(Classification::Internal);
    assert!(!cond.evaluate(&ctx));
    ctx.classification = Some(Classification::Confidential);
    assert!(cond.evaluate(&ctx));
}

#[test]
fn condition_entity_type_in() {
    let cond = GuardrailCondition::EntityTypeIn { entity_types: vec!["person".into(), "organization".into()] };
    let mut ctx = EvalContext::default();
    assert!(!cond.evaluate(&ctx));
    ctx.entity_type = Some("person".into());
    assert!(cond.evaluate(&ctx));
    ctx.entity_type = Some("Person".into());
    assert!(cond.evaluate(&ctx));
    ctx.entity_type = Some("product".into());
    assert!(!cond.evaluate(&ctx));
}

#[test]
fn condition_edge_label_in() {
    let cond = GuardrailCondition::EdgeLabelIn { labels: vec!["salary".into(), "ssn".into()] };
    let ctx = EvalContext { edge_label: Some("salary".into()), ..Default::default() };
    assert!(cond.evaluate(&ctx));
    let ctx = EvalContext { edge_label: Some("SSN".into()), ..Default::default() };
    assert!(cond.evaluate(&ctx));
    let ctx = EvalContext { edge_label: Some("works_at".into()), ..Default::default() };
    assert!(!cond.evaluate(&ctx));
}

#[test]
fn condition_caller_role_below() {
    let cond = GuardrailCondition::CallerRoleBelow { role: ApiKeyRole::Admin };
    let ctx = EvalContext { caller_role: Some(ApiKeyRole::Read), ..Default::default() };
    assert!(cond.evaluate(&ctx));
    let ctx = EvalContext { caller_role: Some(ApiKeyRole::Write), ..Default::default() };
    assert!(cond.evaluate(&ctx));
    let ctx = EvalContext { caller_role: Some(ApiKeyRole::Admin), ..Default::default() };
    assert!(!cond.evaluate(&ctx));
}

#[test]
fn condition_fact_age_above_days() {
    let cond = GuardrailCondition::FactAgeAboveDays { days: 90 };
    let ctx = EvalContext { fact_age_days: Some(30), ..Default::default() };
    assert!(!cond.evaluate(&ctx));
    let ctx = EvalContext { fact_age_days: Some(91), ..Default::default() };
    assert!(cond.evaluate(&ctx));
    let ctx = EvalContext { fact_age_days: Some(90), ..Default::default() };
    assert!(!cond.evaluate(&ctx));
}

#[test]
fn condition_confidence_below() {
    let cond = GuardrailCondition::ConfidenceBelow { confidence: key(0.5) };
    let ctx = EvalContext { confidence: Some(key(0.3)), ..Default::default() };
    assert!(cond.evaluate(&ctx));
    let ctx = EvalContext { confidence: Some(key(0.5)), ..Default::default() };
    assert!(!cond.evaluate(&ctx));
    let ctx = EvalContext { confidence: Some(key(0.9)), ..Default::default() };
    assert!(!cond.evaluate(&ctx));
}

#[test]
fn condition_and_combinator() {
    let cond = GuardrailCondition::And {
        conditions: vec![
            GuardrailCondition::EdgeLabelIn { labels: vec!["salary".into()] },
            GuardrailCondition::ClassificationAbove { classification: Classification::Public },
        ],
    };
    let ctx = EvalContext {
        edge_label: Some("salary".into()),
        classification: Some(Classification::Internal),
        ..Default::default()
    };
    assert!(cond.evaluate(&ctx));
    let ctx = EvalContext {
        edge_label: Some("works_at".into()),
        classification: Some(Classification::Internal),
        ..Default::default()
    };
    assert!(!cond.evaluate(&ctx));
}

#[test]
fn condition_or_combinator() {
    let cond = GuardrailCondition::Or {
        conditions: vec![
            GuardrailCondition::EdgeLabelIn { labels: vec!["salary".into()] },
            GuardrailCondition::EdgeLabelIn { labels: vec!["ssn".into()] },
        ],
    };
    let ctx = EvalContext { edge_label: Some("salary".into()), ..Default::default() };
    assert!(cond.evaluate(&ctx));
    let ctx = EvalContext { edge_label: Some("ssn".into()), ..Default::default() };
    assert!(cond.evaluate(&ctx));
    let ctx = EvalContext { edge_label: Some("works_at".into()), ..Default::default() };
    assert!(!cond.evaluate(&ctx));
}

#[test]
fn condition_not_combinator() {
    let cond = GuardrailCondition::Not {
        condition: Box::new(GuardrailCondition::EdgeLabelIn { labels: vec!["salary".into()] }),
    };
    let ctx = EvalContext { edge_label: Some("works_at".into()), ..Default::default() };
    assert!(cond.evaluate(&ctx));
    let ctx = EvalContext { edge_label: Some("salary".into()), ..Default::default() };
    assert!(!cond.evaluate(&ctx));
}

#[test]
fn empty_combinators() {
    assert!(GuardrailCondition::And { conditions: vec![] }.evaluate(&EvalContext::default()));
    assert!(!GuardrailCondition::Or { conditions: vec![] }.evaluate(&EvalContext::default()));
}

#[test]
fn evaluate_rules_priority_ordering() {
    let rules = vec![
        make_rule(
            1,
            "block_first",
            GuardrailTrigger::OnRetrieval,
            GuardrailCondition::ClassificationAbove { classification: Classification::Internal },
            GuardrailAction::Block { reason: "blocked".into() },
            10,
        ),
        make_rule(
            2,
            "warn_second",
            GuardrailTrigger::OnRetrieval,
            GuardrailCondition::ClassificationAbove { classification: Classification::Internal },
            GuardrailAction::Warn { message: "high classification".into() },
            20,
        ),
    ];
    let ctx = EvalContext { classification: Some(Classification::Confidential), ..Default::default() };
    let verdict = evaluate_rules(&rules, &GuardrailTrigger::OnRetrieval, &ctx);
    assert!(verdict.blocked);
    assert!(verdict.warnings.is_empty());
}

#[test]
fn evaluate_rules_reclassify_takes_highest() {
    let rules = vec![
        make_rule(
            1,
            "reclassify_to_confidential",
            GuardrailTrigger::OnFactCreation,
            GuardrailCondition::EdgeLabelIn { labels: vec!["salary".into()] },
            GuardrailAction::Reclassify { classification: Classification::Confidential },
            10,
        ),
        make_rule(
            2,
            "reclassify_to_restricted",
            GuardrailTrigger::OnFactCreation,
            GuardrailCondition::EdgeLabelIn { labels: vec!["salary".into()] },
            GuardrailAction::Reclassify { classification: Classification::Restricted },
            20,
        ),
    ];
    let ctx = EvalContext { edge_label: Some("salary".into()), ..Default::default() };
    let verdict = evaluate_rules(&rules, &GuardrailTrigger::OnFactCreation, &ctx);
    assert!(!verdict.blocked);
    assert_eq!(verdict.reclassify_to, Some(Classification::Restricted));
}

#[test]
fn evaluate_rules_scope_filtering() {
    let user1: u128 = 100;
    let user2: u128 = 200;
    let mut rule = make_rule(
        1,
        "user_specific",
        GuardrailTrigger::OnRetrieval,
        GuardrailCondition::ClassificationAbove { classification: Classification::Public },
        GuardrailAction::Warn { message: "user1 warning".into() },
        10,
    );
    rule.description = "Only for user1".into();
    rule.scope = GuardrailScope::User { user_id: user1 };
    let rules = vec![rule];
    let ctx1 = EvalContext {
        classification: Some(Classification::Internal),
        user_id: Some(user1),
        ..Default::default()
    };
    let v1 = evaluate_rules(&rules, &GuardrailTrigger::OnRetrieval, &ctx1);
    assert_eq!(v1.warnings.len(), 1);
    let ctx2 = EvalContext {
        classification: Some(Classification::Internal),
        user_id: Some(user2),
        ..Default::default()
    };
    let v2 = evaluate_rules(&rules, &GuardrailTrigger::OnRetrieval, &ctx2);
    assert!(v2.warnings.is_empty());
}

#[test]
fn evaluate_rules_disabled_rule_skipped() {
    let mut rule = make_rule(
        1,
        "disabled",
        GuardrailTrigger::OnAny,
        GuardrailCondition::ClassificationAbove { classification: Classification::Public },
        GuardrailAction::Block { reason: "should not fire".into() },
        1,
    );
    rule.description = "disabled rule".into();
    rule.enabled = false;
    let rules = vec![rule];
    let ctx = EvalContext { classification: Some(Classification::Restricted), ..Default::default() };
    let verdict = evaluate_rules(&rules, &GuardrailTrigger::OnRetrieval, &ctx);
    assert!(!verdict.blocked);
}

#[test]
fn validate_condition_regex_valid() {
    let cond = GuardrailCondition::ContentMatchesRegex { pattern: r"\bSSN\b".into() };
    assert!(validate_condition_regexes(&cond).is_ok());
}

#[test]
fn validate_condition_regex_invalid() {
    let cond = GuardrailCondition::ContentMatchesRegex { pattern: r"[invalid".into() };
    assert!(validate_condition_regexes(&cond).is_err());
}

#[test]
fn validate_condition_regex_nested() {
    let cond = GuardrailCondition::And {
        conditions: vec![
            GuardrailCondition::ContentMatchesRegex { pattern: r"\bSSN\b".into() },
            GuardrailCondition::ContentMatchesRegex { pattern: r"[bad".into() },
        ],
    };
    assert!(validate_condition_regexes(&cond).is_err());
}

#[test]
fn validate_condition_regex_error_message() {
    let nested = GuardrailCondition::Not {
        condition: Box::new(GuardrailCondition::And {
            conditions: vec![GuardrailCondition::ContentMatchesRegex { pattern: "[invalid".into() }],
        }),
    };
    let err = validate_condition_regexes(&nested).unwrap_err();
    assert!(err.starts_with("Invalid regex pattern '[invalid': "));
}

#[test]
fn evaluate_guardrails_request_into_context() {
    let req = EvaluateGuardrailsRequest {
        trigger: GuardrailTrigger::OnIngest,
        classification: Some(Classification::Confidential),
        entity_type: Some("person".into()),
        edge_label: None,
        content: Some("test content".into()),
        caller_role: Some(ApiKeyRole::Read),
        fact_age_days: Some(45),
        confidence: Some(key(0.8)),
        user_id: Some(1),
    };
    let ctx = req.into_eval_context();
    assert_eq!(ctx.classification, Some(Classification::Confidential));
    assert_eq!(ctx.entity_type.as_deref(), Some("person"));
    assert_eq!(ctx.content.as_deref(), Some("test content"));
}

#[test]
fn verdict_from_response_conversion() {
    let verdict = GuardrailVerdict {
        blocked: false,
        block_reason: None,
        redact: true,
        reclassify_to: Some(Classification::Restricted),
        warnings: vec!["careful".into()],
        audit_entries: vec![("rule1".into(), "high".into())],
        details: vec![],
    };
    let resp = EvaluateGuardrailsResponse::from(verdict);
    assert!(!resp.blocked);
    assert!(resp.redact);
    assert_eq!(resp.reclassify_to, Some(Classification::Restricted));
    assert_eq!(resp.warnings.len(), 1);
    assert_eq!(resp.audit_entries.len(), 1);
    assert_eq!(resp.audit_entries[0].rule_name, "rule1");
}

#[test]
fn evaluate_rules_reclassify_audit_warn_scope() {
    let mut user_rule = make_rule(
        3,
        "user_warn",
        GuardrailTrigger::OnFactCreation,
        GuardrailCondition::EdgeLabelIn { labels: vec!["salary".into()] },
        GuardrailAction::Warn { message: "careful".into() },
        5,
    );
    user_rule.scope = GuardrailScope::User { user_id: 100 };
    let mut disabled = make_rule(
        4,
        "disabled",
        GuardrailTrigger::OnAny,
        GuardrailCondition::EdgeLabelIn { labels: vec!["salary".into()] },
        GuardrailAction::Block { reason: "no".into() },
        1,
    );
    disabled.enabled = false;
    let rules = vec![
        disabled,
        make_rule(
            1,
            "to_restricted",
            GuardrailTrigger::OnFactCreation,
            GuardrailCondition::EdgeLabelIn { labels: vec!["salary".into()] },
            GuardrailAction::Reclassify { classification: Classification::Restricted },
            10,
        ),
        make_rule(
            2,
            "to_confidential",
            GuardrailTrigger::OnAny,
            GuardrailCondition::EdgeLabelIn { labels: vec!["salary".into()] },
            GuardrailAction::Reclassify { classification: Classification::Confidential },
            20,
        ),
        make_rule(
            5,
            "audit",
            GuardrailTrigger::OnFactCreation,
            GuardrailCondition::EdgeLabelIn { labels: vec!["salary".into()] },
            GuardrailAction::AuditOnly { severity: "high".into() },
            30,
        ),
        user_rule,
    ];
    let ctx = EvalContext { edge_label: Some("salary".into()), user_id: Some(200), ..Default::default() };
    let v = evaluate_rules(&rules, &GuardrailTrigger::OnFactCreation, &ctx);
    assert!(!v.blocked);
    assert_eq!(v.reclassify_to, Some(Classification::Restricted));
    assert_eq!(v.audit_entries, vec![("audit".to_string(), "high".to_string())]);
    assert!(v.warnings.is_empty());
    assert_eq!(v.details.len(), 3);

    let ctx = EvalContext { edge_label: Some("salary".into()), user_id: Some(100), ..Default::default() };
    let v = evaluate_rules(&rules, &GuardrailTrigger::OnFactCreation, &ctx);
    assert_eq!(v.warnings, vec!["careful".to_string()]);
    let response = EvaluateGuardrailsResponse::from(v);
    assert_eq!(response.audit_entries.len(), 1);
    assert_eq!(response.audit_entries[0].rule_name, "audit");
    assert_eq!(response.rule_results.len(), 4);
}
