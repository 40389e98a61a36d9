use mnemo_core::models::agent::{
    analyze_conflicts, AgentIdentityProfile, ApprovalPolicy, ApprovalRequirement, CreateExperienceRequest,
    CreatePromotionProposalRequest, ExperienceEvent, ExperienceFilter, PromotionProposal, PromotionStatus,
    UpdateAgentIdentityRequest, validate_branch_name,
};
use mnemo_core::models::promotion::{CreateBranchRequest, ForkLineage, ForkResult, MergeResult};
use mnemo_core::models::promotion::{default_half_life, default_risk_level, default_weight};
use mnemo_core::score::score_key;
use mnemo_core::time::UtcTime;
use serde_json::Value;

fn key(x: f32) -> u32 {
    score_key(x.to_bits())
}

fn object(members: Vec<(&str, Value)>) -> Value {
    let mut m = serde_json::Map::new();
    for (k, v) in members {
        m.insert(k.to_string(), v);
    }
    Value::Object(m)
}

fn text(s: &str) -> Value {
    Value::String(s.to_string())
}

#[test]
fn test_agent_identity_new_defaults() {
    let profile = AgentIdentityProfile::new("support-bot".into());
    assert_eq!(profile.agent_id, "support-bot");
    assert_eq!(profile.version, 1);
    assert_eq!(profile.core, object(vec![]));
}

#[test]
fn test_agent_identity_apply_update_increments_version() {
    let mut profile = AgentIdentityProfile::new("bot".into());
    assert_eq!(profile.version, 1);
    let req = UpdateAgentIdentityRequest { core: object(vec![("mission", text("help with billing"))]) };
    profile.apply_update(req);
    assert_eq!(profile.version, 2);
    assert_eq!(profile.core["mission"], "help with billing");
}

#[test]
fn test_agent_identity_apply_update_replaces_core_entirely() {
    let mut profile = AgentIdentityProfile::new("bot".into());
    profile.core = object(vec![("mission", text("old")), ("style", text("formal"))]);
    let req = UpdateAgentIdentityRequest { core: object(vec![("mission", text("new"))]) };
    profile.apply_update(req);
    assert!(profile.core.get("style").is_none());
    assert_eq!(profile.core["mission"], "new");
}

fn experience_request(id: Option<u128>, category: &str, signal: &str, confidence: f32, weight: f32, half_life: u32) -> CreateExperienceRequest {
    CreateExperienceRequest {
        id,
        user_id: None,
        session_id: None,
        category: category.into(),
        signal: signal.into(),
        confidence: key(confidence),
        weight: key(weight),
        decay_half_life_days: half_life,
        evidence_episode_ids: vec![],
        created_at: None,
    }
}

#[test]
fn test_experience_event_from_request_defaults() {
    let req = experience_request(None, "tone", "user prefers formal", 0.9, 0.5, 30);
    let event = ExperienceEvent::from_request("bot", req);
    assert_eq!(event.agent_id, "bot");
    assert_eq!(event.category, "tone");
    assert_eq!(event.confidence, key(0.9));
    assert_eq!(event.weight, key(0.5));
    assert_eq!(event.decay_half_life_days, 30);
}

#[test]
fn test_experience_event_from_request_preserves_client_id() {
    let client_id = uuid::Uuid::now_v7().as_u128();
    let req = experience_request(Some(client_id), "domain", "knows billing", 0.8, 0.7, 60);
    let event = ExperienceEvent::from_request("bot", req);
    assert_eq!(event.id, client_id);
}

#[test]
fn experience_event_from_request_with_fixed_time() {
    let at = UtcTime { secs: 1_700_000_000, nanos: 0 };
    let mut req = experience_request(None, "tone", "formal", 0.9, 0.5, 30);
    req.created_at = Some(UtcTime { secs: 1_600_000_000, nanos: 7 });
    let event = ExperienceEvent::from_request_with("bot", req, 42, at);
    assert_eq!(event.id, 42);
    assert_eq!(event.created_at, UtcTime { secs: 1_600_000_000, nanos: 7 });
    let event = ExperienceEvent::from_request_with("bot", experience_request(Some(7), "tone", "formal", 0.9, 0.5, 30), 42, at);
    assert_eq!(event.id, 7);
    assert_eq!(event.created_at, at);
}

fn proposal_request(risk: &str) -> CreatePromotionProposalRequest {
    CreatePromotionProposalRequest {
        id: None,
        proposal: "Add refund handling".into(),
        candidate_core: object(vec![("mission", text("billing + refunds"))]),
        reason: "Learned from 3 sessions".into(),
        risk_level: risk.into(),
        source_event_ids: vec![uuid::Uuid::now_v7().as_u128(); 3],
    }
}

#[test]
fn test_promotion_proposal_from_request_defaults_to_pending() {
    let proposal = PromotionProposal::from_request("bot", proposal_request("low"));
    assert_eq!(proposal.status, PromotionStatus::Pending);
    assert_eq!(proposal.agent_id, "bot");
    assert_eq!(proposal.risk_level, "low");
    assert!(proposal.approved_at.is_none());
    assert!(proposal.rejected_at.is_none());
}

#[test]
fn test_default_weight_and_half_life() {
    assert_eq!(default_weight(), key(0.5));
    assert_eq!(default_half_life(), 30);
}

#[test]
fn test_default_risk_level() {
    assert_eq!(default_risk_level(), "medium");
}

fn make_filter_event(id: u128, category: &str, confidence: f32, weight: f32) -> ExperienceEvent {
    ExperienceEvent {
        id,
        agent_id: "bot".into(),
        user_id: None,
        session_id: None,
        category: category.into(),
        signal: "test".into(),
        confidence: key(confidence),
        weight: key(weight),
        decay_half_life_days: 30,
        evidence_episode_ids: vec![],
        fisher_importance: key(0.3),
        created_at: mnemo_core::time::now(),
    }
}

#[test]
fn test_experience_filter_default_matches_all() {
    let filter = ExperienceFilter::default();
    let event = make_filter_event(1, "greeting", 0.8, 0.5);
    assert!(filter.matches(&event));
}

#[test]
fn test_experience_filter_category_match() {
    let filter = ExperienceFilter { categories: vec!["billing".to_string(), "support".to_string()], ..Default::default() };
    let mut event = make_filter_event(1, "billing", 0.9, 0.5);
    assert!(filter.matches(&event));
    event.category = "greeting".into();
    assert!(!filter.matches(&event));
}

#[test]
fn test_experience_filter_confidence_threshold() {
    let filter = ExperienceFilter { min_confidence: Some(key(0.7)), ..Default::default() };
    let mut event = make_filter_event(1, "test", 0.9, 0.5);
    assert!(filter.matches(&event));
    event.confidence = key(0.3);
    assert!(!filter.matches(&event));
}

#[test]
fn test_experience_filter_weight_threshold() {
    let filter = ExperienceFilter { min_weight: Some(key(0.4)), ..Default::default() };
    let mut event = make_filter_event(1, "test", 0.9, 0.5);
    assert!(filter.matches(&event));
    event.weight = key(0.1);
    assert!(!filter.matches(&event));
}

#[test]
fn test_experience_filter_combined() {
    let filter = ExperienceFilter {
        categories: vec!["billing".to_string()],
        min_confidence: Some(key(0.5)),
        min_weight: Some(key(0.3)),
        max_events: Some(100),
    };
    let event = make_filter_event(1, "billing", 0.8, 0.5);
    assert!(filter.matches(&event));
}

#[test]
fn test_falsify_experience_filter_absurd_confidence() {
    let filter = ExperienceFilter { categories: vec![], min_confidence: Some(key(1.5)), min_weight: None, max_events: None };
    let mut event = make_filter_event(99, "general", 1.0, 1.0);
    event.fisher_importance = key(0.0);
    assert!(!filter.matches(&event));
}

#[test]
fn test_falsify_experience_filter_negative_thresholds() {
    let filter = ExperienceFilter {
        categories: vec![],
        min_confidence: Some(key(-0.5)),
        min_weight: Some(key(-1.0)),
        max_events: None,
    };
    let mut event = make_filter_event(100, "any", 0.0, 0.0);
    event.decay_half_life_days = 1;
    assert!(filter.matches(&event), "Negative thresholds should let zero-value events through");
}

#[test]
fn test_falsify_experience_filter_max_events_not_enforced_by_matches() {
    let filter = ExperienceFilter { categories: vec![], min_confidence: None, min_weight: None, max_events: Some(0) };
    let event = make_filter_event(101, "any", 0.9, 0.9);
    assert!(filter.matches(&event), "max_events should not be enforced by matches()");
}

#[test]
fn test_falsify_experience_filter_empty_vs_wildcard_categories() {
    let event = make_filter_event(102, "niche_category", 0.5, 0.5);
    let wildcard = ExperienceFilter::default();
    assert!(wildcard.matches(&event));
    let strict = ExperienceFilter { categories: vec!["only_this".into()], ..Default::default() };
    assert!(!strict.matches(&event));
}

#[test]
fn test_falsify_create_branch_empty_name_in_request() {
    let req = CreateBranchRequest { branch_name: "".into(), description: None, core_override: None };
    assert!(validate_branch_name(&req.branch_name).is_err());
}

#[test]
fn test_falsify_merge_result_contains_branch_core() {
    let result = MergeResult {
        branch_name: "test".to_string(),
        merged_identity: AgentIdentityProfile::new("bot".to_string()),
        parent_version_before: 1,
        branch_core_applied: object(vec![("tone", text("warm")), ("style", text("casual"))]),
    };
    assert_eq!(result.branch_core_applied["tone"], "warm");
    assert_eq!(result.branch_core_applied["style"], "casual");
}

#[test]
fn test_falsify_fork_result_preserves_new_agent_version_one() {
    let result = ForkResult {
        new_agent: AgentIdentityProfile::new("child".into()),
        lineage: ForkLineage {
            parent_agent_id: "parent".into(),
            parent_version: 99,
            forked_at: mnemo_core::time::now(),
            description: Some("test".into()),
            experience_events_transferred: 0,
            experience_filter: None,
        },
    };
    assert_eq!(result.new_agent.version, 1);
    assert_eq!(result.lineage.parent_version, 99);
}

fn hours_ago(h: i64) -> UtcTime {
    let t = mnemo_core::time::now();
    UtcTime { secs: t.secs - h * 3600, nanos: t.nanos }
}

fn req_with(risk: &str, core: Value, proposal: &str, id: Option<u128>) -> CreatePromotionProposalRequest {
    CreatePromotionProposalRequest {
        id,
        proposal: proposal.into(),
        candidate_core: core,
        reason: "r".into(),
        risk_level: risk.into(),
        source_event_ids: vec![1, 2, 3],
    }
}

fn policy_with(low: ApprovalRequirement, medium: ApprovalRequirement, high: ApprovalRequirement) -> ApprovalPolicy {
    ApprovalPolicy { agent_id: "bot".into(), low_risk: low, medium_risk: medium, high_risk: high, updated_at: mnemo_core::time::now() }
}

#[test]
fn test_approval_policy_default_for_agent() {
    let policy = ApprovalPolicy::default_for_agent("test-bot");
    assert_eq!(policy.agent_id, "test-bot");
    assert_eq!(policy.low_risk.min_approvers, 1);
    assert_eq!(policy.medium_risk.min_approvers, 1);
    assert_eq!(policy.high_risk.min_approvers, 1);
    assert!(policy.low_risk.cooling_period_hours.is_none());
    assert!(policy.low_risk.auto_reject_after_hours.is_none());
}

#[test]
fn test_approval_policy_requirement_for_risk() {
    let policy = policy_with(
        ApprovalRequirement { min_approvers: 1, ..Default::default() },
        ApprovalRequirement { min_approvers: 2, cooling_period_hours: Some(12), ..Default::default() },
        ApprovalRequirement { min_approvers: 3, cooling_period_hours: Some(24), auto_reject_after_hours: Some(72) },
    );
    assert_eq!(policy.requirement_for_risk("low").min_approvers, 1);
    assert_eq!(policy.requirement_for_risk("medium").min_approvers, 2);
    assert_eq!(policy.requirement_for_risk("high").min_approvers, 3);
    assert_eq!(policy.requirement_for_risk("unknown").min_approvers, 2);
    assert_eq!(policy.requirement_for_risk("").min_approvers, 2);
}

#[test]
fn test_approval_policy_requirement_for_risk_case_insensitive() {
    let policy = ApprovalPolicy::default_for_agent("bot");
    assert_eq!(policy.requirement_for_risk("HIGH").min_approvers, policy.high_risk.min_approvers);
    assert_eq!(policy.requirement_for_risk("Low").min_approvers, policy.low_risk.min_approvers);
}

#[test]
fn test_proposal_from_request_initializes_new_fields() {
    let proposal = PromotionProposal::from_request("bot", req_with("high", object(vec![("mission", text("new"))]), "test", None));
    assert!(proposal.approvers.is_empty());
    assert!(proposal.expired_at.is_none());
    assert_eq!(proposal.status, PromotionStatus::Pending);
}

#[test]
fn test_proposal_has_quorum_default_policy() {
    let policy = ApprovalPolicy::default_for_agent("bot");
    let mut proposal = PromotionProposal::from_request("bot", req_with("low", object(vec![]), "test", None));
    assert!(!proposal.has_quorum(&policy));
    proposal.approvers.push("admin-key".into());
    assert!(proposal.has_quorum(&policy));
}

#[test]
fn test_proposal_has_quorum_multi_approver() {
    let policy = policy_with(
        ApprovalRequirement::default(),
        ApprovalRequirement::default(),
        ApprovalRequirement { min_approvers: 3, cooling_period_hours: None, auto_reject_after_hours: None },
    );
    let mut proposal = PromotionProposal::from_request("bot", req_with("high", object(vec![]), "test", None));
    proposal.approvers.push("admin-1".into());
    assert!(!proposal.has_quorum(&policy));
    proposal.approvers.push("admin-2".into());
    assert!(!proposal.has_quorum(&policy));
    proposal.approvers.push("admin-3".into());
    assert!(proposal.has_quorum(&policy));
}

#[test]
fn test_proposal_is_expired_no_auto_reject() {
    let policy = ApprovalPolicy::default_for_agent("bot");
    let proposal = PromotionProposal::from_request("bot", req_with("low", object(vec![]), "test", None));
    assert!(!proposal.is_expired(&policy));
}

#[test]
fn test_proposal_is_expired_with_deadline() {
    let policy = policy_with(
        ApprovalRequirement::default(),
        ApprovalRequirement { min_approvers: 1, cooling_period_hours: None, auto_reject_after_hours: Some(1) },
        ApprovalRequirement::default(),
    );
    let mut proposal = PromotionProposal::from_request("bot", req_with("medium", object(vec![]), "test", None));
    proposal.created_at = hours_ago(2);
    assert!(proposal.is_expired(&policy));
}

#[test]
fn test_proposal_is_expired_only_when_pending() {
    let policy = policy_with(
        ApprovalRequirement::default(),
        ApprovalRequirement { min_approvers: 1, cooling_period_hours: None, auto_reject_after_hours: Some(1) },
        ApprovalRequirement::default(),
    );
    let mut proposal = PromotionProposal::from_request("bot", req_with("medium", object(vec![]), "test", None));
    proposal.created_at = hours_ago(2);
    proposal.status = PromotionStatus::Approved;
    assert!(!proposal.is_expired(&policy));
    proposal.status = PromotionStatus::Rejected;
    assert!(!proposal.is_expired(&policy));
}

#[test]
fn test_proposal_cooling_period_elapsed_no_cooling() {
    let policy = ApprovalPolicy::default_for_agent("bot");
    let proposal = PromotionProposal::from_request("bot", req_with("low", object(vec![]), "test", None));
    assert!(proposal.cooling_period_elapsed(&policy));
}

#[test]
fn test_proposal_cooling_period_not_elapsed() {
    let policy = policy_with(
        ApprovalRequirement::default(),
        ApprovalRequirement::default(),
        ApprovalRequirement { min_approvers: 3, cooling_period_hours: Some(24), auto_reject_after_hours: None },
    );
    let proposal = PromotionProposal::from_request("bot", req_with("high", object(vec![]), "test", None));
    assert!(!proposal.cooling_period_elapsed(&policy));
}

#[test]
fn test_proposal_cooling_period_elapsed_after_wait() {
    let policy = policy_with(
        ApprovalRequirement::default(),
        ApprovalRequirement::default(),
        ApprovalRequirement { min_approvers: 3, cooling_period_hours: Some(24), auto_reject_after_hours: None },
    );
    let mut proposal = PromotionProposal::from_request("bot", req_with("high", object(vec![]), "test", None));
    proposal.created_at = hours_ago(25);
    assert!(proposal.cooling_period_elapsed(&policy));
}

#[test]
fn proposal_deadlines_at_fixed_times() {
    let policy = policy_with(
        ApprovalRequirement::default(),
        ApprovalRequirement { min_approvers: 1, cooling_period_hours: Some(2), auto_reject_after_hours: Some(1) },
        ApprovalRequirement::default(),
    );
    let t0 = UtcTime { secs: 1_700_000_000, nanos: 5 };
    let p = PromotionProposal::from_request_with("bot", req_with("MEDIUM", object(vec![]), "test", None), 9, t0);
    assert_eq!(p.id, 9);
    assert!(!p.is_expired_at(&policy, UtcTime { secs: t0.secs + 3600, nanos: 4 }));
    assert!(p.is_expired_at(&policy, UtcTime { secs: t0.secs + 3600, nanos: 5 }));
    assert!(!p.cooling_period_elapsed_at(&policy, UtcTime { secs: t0.secs + 7199, nanos: 999 }));
    assert!(p.cooling_period_elapsed_at(&policy, UtcTime { secs: t0.secs + 7200, nanos: 5 }));
}

fn conflict_score(a: &mnemo_core::models::agent::ConflictAnalysis) -> f32 {
    let s = a.supporting_signals.len();
    let c = a.conflicting_signals.len();
    c as f32 / (s + c + 1) as f32
}

fn conflict_event(id: u128, category: &str, signal: &str, confidence: f32, weight: f32, fisher: f32) -> ExperienceEvent {
    ExperienceEvent {
        id,
        agent_id: "bot".into(),
        user_id: None,
        session_id: None,
        category: category.into(),
        signal: signal.into(),
        confidence: key(confidence),
        weight: key(weight),
        decay_half_life_days: 30,
        evidence_episode_ids: vec![],
        fisher_importance: key(fisher),
        created_at: mnemo_core::time::now(),
    }
}

fn formal_proposal() -> PromotionProposal {
    let mut r = req_with("low", object(vec![("style", text("formal"))]), "Add formal tone preference", Some(1));
    r.reason = "test".into();
    r.source_event_ids = vec![10, 11, 12];
    PromotionProposal::from_request("bot", r)
}

#[test]
fn test_analyze_conflicts_no_events() {
    let proposal = formal_proposal();
    let result = analyze_conflicts(&proposal, &[]);
    assert!(result.supporting_signals.is_empty());
    assert!(result.conflicting_signals.is_empty());
    assert_eq!(conflict_score(&result), 0.0);
}

#[test]
fn test_analyze_conflicts_all_supporting() {
    let proposal = formal_proposal();
    let events = vec![
        conflict_event(100, "tone", "user prefers formal language", 0.9, 0.8, 0.5),
        conflict_event(101, "tone", "formal style appreciated by users", 0.85, 0.7, 0.4),
    ];
    let result = analyze_conflicts(&proposal, &events);
    assert!(!result.supporting_signals.is_empty());
    assert!(result.conflicting_signals.is_empty());
    assert_eq!(conflict_score(&result), 0.0);
}

#[test]
fn test_analyze_conflicts_detects_opposition() {
    let proposal = formal_proposal();
    let events = vec![conflict_event(200, "tone", "user does not prefer formal tone at all", 0.9, 0.8, 0.5)];
    let result = analyze_conflicts(&proposal, &events);
    assert!(!result.conflicting_signals.is_empty());
    assert!(conflict_score(&result) > 0.0);
}

#[test]
fn test_analyze_conflicts_irrelevant_events_ignored() {
    let mut r = req_with(
        "low",
        object(vec![("capabilities", Value::Array(vec![text("billing")]))]),
        "Add billing expertise",
        Some(1),
    );
    r.source_event_ids = vec![10, 11, 12];
    let proposal = PromotionProposal::from_request("bot", r);
    let events = vec![conflict_event(300, "greeting", "user says hi a lot", 0.9, 0.5, 0.1)];
    let result = analyze_conflicts(&proposal, &events);
    assert!(result.supporting_signals.is_empty());
    assert!(result.conflicting_signals.is_empty());
    assert_eq!(conflict_score(&result), 0.0);
}

#[test]
fn test_analyze_conflicts_mixed_signals() {
    let mut r = req_with(
        "medium",
        object(vec![("style", text("formal communication"))]),
        "Adopt formal communication style",
        Some(1),
    );
    r.source_event_ids = vec![10, 11, 12];
    let proposal = PromotionProposal::from_request("bot", r);
    let events = vec![
        conflict_event(400, "style", "formal communication works well", 0.9, 0.8, 0.5),
        conflict_event(401, "style", "avoid formal communication style", 0.8, 0.7, 0.4),
    ];
    let result = analyze_conflicts(&proposal, &events);
    assert!(!result.supporting_signals.is_empty() || !result.conflicting_signals.is_empty());
    let score = conflict_score(&result);
    assert!(score > 0.0 && score < 1.0, "got {}", score);
}
