use mnemo_core::models::agent::{
    validate_branch_name, validate_fork_agent_id, verify_audit_chain, verify_identity_update_proof,
    AgentIdentityAuditAction, AgentIdentityAuditEvent, AllowlistMerkleTree, ApprovalPolicy,
    ApprovalRequirement, IdentityUpdateProof, JsonValue, check_forbidden_substrings,
};
use mnemo_core::time::UtcTime;

#[test]
fn test_validate_branch_name_valid() {
    assert!(validate_branch_name("experiment-1").is_ok());
    assert!(validate_branch_name("tone_warmer").is_ok());
    assert!(validate_branch_name("a").is_ok());
    assert!(validate_branch_name("abc-123_xyz").is_ok());
}

#[test]
fn test_validate_branch_name_empty() {
    assert!(validate_branch_name("").is_err());
}

#[test]
fn test_validate_branch_name_too_long() {
    let long = "a".repeat(65);
    assert!(validate_branch_name(&long).is_err());
    let exact = "a".repeat(64);
    assert!(validate_branch_name(&exact).is_ok());
}

#[test]
fn test_validate_branch_name_invalid_chars() {
    assert!(validate_branch_name("my branch").is_err());
    assert!(validate_branch_name("foo/bar").is_err());
    assert!(validate_branch_name("foo..bar").is_err());
    assert!(validate_branch_name("foo@bar").is_err());
}

#[test]
fn test_falsify_branch_name_path_traversal() {
    assert!(validate_branch_name("../main").is_err());
    assert!(validate_branch_name("..%2f..").is_err());
    assert!(validate_branch_name("foo/../bar").is_err());
    assert!(validate_branch_name("..").is_err());
}

#[test]
fn test_falsify_branch_name_colon_rejected() {
    assert!(validate_branch_name("foo:bar").is_err());
}

#[test]
fn test_falsify_branch_name_unicode_rejected() {
    assert!(validate_branch_name("日本語").is_err());
    assert!(validate_branch_name("café").is_err());
    assert!(validate_branch_name("test\u{0000}null").is_err());
}

#[test]
fn test_falsify_branch_name_only_hyphens_valid() {
    assert!(validate_branch_name("---").is_ok());
    assert!(validate_branch_name("-").is_ok());
}

#[test]
fn test_validate_fork_agent_id_valid() {
    assert!(validate_fork_agent_id("new-bot-v2").is_ok());
    assert!(validate_fork_agent_id("support.billing.v3").is_ok());
    assert!(validate_fork_agent_id("a").is_ok());
}

#[test]
fn test_validate_fork_agent_id_empty() {
    assert!(validate_fork_agent_id("").is_err());
}

#[test]
fn test_validate_fork_agent_id_too_long() {
    let long_id = "a".repeat(129);
    assert!(validate_fork_agent_id(&long_id).is_err());
}

#[test]
fn test_validate_fork_agent_id_colon_rejected() {
    assert!(validate_fork_agent_id("bot:fork").is_err());
}

#[test]
fn test_validate_fork_agent_id_slash_rejected() {
    assert!(validate_fork_agent_id("bot/fork").is_err());
}

#[test]
fn test_validate_fork_agent_id_path_traversal_rejected() {
    assert!(validate_fork_agent_id("..bot").is_err());
}

#[test]
fn test_falsify_fork_id_with_null_bytes() {
    assert!(validate_fork_agent_id("agent\0hidden").is_err());
    assert!(validate_fork_agent_id("\0").is_err());
}

#[test]
fn test_falsify_fork_id_with_spaces_and_tabs() {
    assert!(validate_fork_agent_id("agent bot").is_err());
    assert!(validate_fork_agent_id("agent\tbot").is_err());
    assert!(validate_fork_agent_id(" ").is_err());
}

#[test]
fn test_falsify_fork_id_with_unicode() {
    assert!(validate_fork_agent_id("böt").is_err());
    assert!(validate_fork_agent_id("エージェント").is_err());
    assert!(validate_fork_agent_id("agent-🤖").is_err());
}

#[test]
fn test_falsify_fork_id_boundary_length() {
    let at_limit = "a".repeat(128);
    assert!(validate_fork_agent_id(&at_limit).is_ok());
    let over_limit = "a".repeat(129);
    assert!(validate_fork_agent_id(&over_limit).is_err());
}

#[test]
fn test_falsify_fork_id_double_dot_anywhere() {
    assert!(validate_fork_agent_id("a..b").is_err());
    assert!(validate_fork_agent_id("..start").is_err());
    assert!(validate_fork_agent_id("end..").is_err());
    assert!(validate_fork_agent_id("a.b.c").is_ok());
}

#[test]
fn test_merkle_tree_leaves_sorted() {
    let tree = AllowlistMerkleTree::from_allowlist();
    let mut sorted = tree.leaves.clone();
    sorted.sort();
    assert_eq!(tree.leaves, sorted, "Leaves must be sorted alphabetically");
}

#[test]
fn test_approval_requirement_default() {
    let req = ApprovalRequirement::default();
    assert_eq!(req.min_approvers, 1);
    assert!(req.cooling_period_hours.is_none());
    assert!(req.auto_reject_after_hours.is_none());
}

// ─── Further scenarios and checks of the laws on concrete values ───

#[test]
fn merkle_from_keys_sorts_and_pads() {
    let tree = AllowlistMerkleTree::from_keys(vec!["b".into(), "a".into(), "c".into()]);
    assert_eq!(tree.leaves, vec!["a".to_string(), "b".to_string(), "c".to_string()]);
    let p = tree.prove("c").unwrap();
    assert_eq!(p.leaf_index, 2);
    assert_eq!(p.siblings.len(), 2);
    assert!(tree.verify(&p));
    let empty = AllowlistMerkleTree::from_keys(vec![]);
    assert_eq!(empty.root, "0".repeat(64));
}

fn obj(members: Vec<(&str, JsonValue)>) -> JsonValue {
    JsonValue::Object(members.into_iter().map(|(k, v)| (k.to_string(), v)).collect())
}

#[test]
fn identity_update_proof_rejections() {
    let tree = AllowlistMerkleTree::from_allowlist();
    let wrong_root = IdentityUpdateProof {
        merkle_root: "bad".repeat(16),
        key_proofs: vec![tree.prove("mission").unwrap()],
    };
    let core = obj(vec![("mission", JsonValue::Str("test".into()))]);
    let r = verify_identity_update_proof(&core, &wrong_root);
    assert!(!r.verified);
    assert_eq!(r.key_results[0].key, "<merkle_root>");

    let extra = IdentityUpdateProof {
        merkle_root: tree.root.clone(),
        key_proofs: vec![tree.prove("mission").unwrap(), tree.prove("style").unwrap()],
    };
    assert!(!verify_identity_update_proof(&core, &extra).verified);

    let nested = obj(vec![("mission", obj(vec![("user_data", JsonValue::Str("x".into()))]))]);
    let only = IdentityUpdateProof { merkle_root: tree.root.clone(), key_proofs: vec![tree.prove("mission").unwrap()] };
    let r = verify_identity_update_proof(&nested, &only);
    assert!(!r.verified);
    assert_eq!(r.key_results.last().unwrap().key, "core/mission/user_data");

    let not_object = JsonValue::Str("not an object".into());
    let none = IdentityUpdateProof { merkle_root: tree.root.clone(), key_proofs: vec![] };
    assert!(!verify_identity_update_proof(&not_object, &none).verified);
    assert!(verify_identity_update_proof(&obj(vec![]), &none).verified);
}

#[test]
fn forbidden_substrings_paths() {
    let v = obj(vec![(
        "mission",
        JsonValue::Array(vec![JsonValue::Null, obj(vec![("Contact_EMAIL", JsonValue::Bool(true))])]),
    )]);
    assert_eq!(check_forbidden_substrings(&v, "core/"), Err("core/mission/[1]/Contact_EMAIL".to_string()));
    assert_eq!(check_forbidden_substrings(&obj(vec![("style", JsonValue::Null)]), "core/"), Ok(()));
}

fn event(prev: Option<String>, to: u64, millis: i64) -> AgentIdentityAuditEvent {
    let mut e = AgentIdentityAuditEvent {
        id: to as u128,
        agent_id: "bot".into(),
        action: AgentIdentityAuditAction::Updated,
        from_version: Some(to - 1),
        to_version: to,
        rollback_to_version: None,
        reason: None,
        created_at: UtcTime { secs: millis / 1000, nanos: ((millis % 1000) * 1_000_000) as u32 },
        prev_hash: prev,
        event_hash: String::new(),
    };
    e.event_hash = e.compute_hash();
    e
}

#[test]
fn audit_chain_valid_and_tampered() {
    let e1 = event(None, 2, 1_700_000_000_123);
    let e2 = event(Some(e1.event_hash.clone()), 3, 1_700_000_001_000);
    let r = verify_audit_chain(&[e1.clone(), e2.clone()]);
    assert!(r.valid);
    assert_eq!(r.chain_length, 2);

    let mut bad = e2.clone();
    bad.to_version = 9;
    let r = verify_audit_chain(&[e1.clone(), bad]);
    assert!(!r.valid);
    assert_eq!(r.breaks[0].index, 1);
    assert!(r.breaks[0].reason.starts_with("event_hash mismatch"));

    let mut legacy = e1.clone();
    legacy.event_hash = String::new();
    let r = verify_audit_chain(&[legacy, e2]);
    assert!(r.valid);
    assert_eq!(r.chain_length, 2);
}

#[test]
fn audit_hash_input_shape() {
    let e = event(None, 2, 1_700_000_000_123);
    // "updated|1|2||1700000000123"
    let expected = mnemo_core::models::api_key::hash_api_key("updated|1|2||1700000000123");
    assert_eq!(e.event_hash, expected);
}

#[test]
fn approval_policy_risk_levels() {
    let mut p = ApprovalPolicy::default_for_agent("bot");
    p.high_risk.min_approvers = 3;
    p.low_risk.min_approvers = 0;
    assert_eq!(p.requirement_for_risk("HIGH").min_approvers, 3);
    assert_eq!(p.requirement_for_risk("low").min_approvers, 0);
    assert_eq!(p.requirement_for_risk("weird").min_approvers, 1);
}
