use mnemo_core::models::agent::{verify_audit_chain, AgentIdentityAuditAction, AgentIdentityAuditEvent};
use mnemo_core::time::{now, UtcTime};

fn make_audit_event(
    action: AgentIdentityAuditAction,
    from_v: Option<u64>,
    to_v: u64,
    prev_hash: Option<String>,
) -> AgentIdentityAuditEvent {
    let mut event = AgentIdentityAuditEvent {
        id: uuid::Uuid::now_v7().as_u128(),
        agent_id: "test-agent".to_string(),
        action,
        from_version: from_v,
        to_version: to_v,
        rollback_to_version: None,
        reason: None,
        created_at: now(),
        prev_hash,
        event_hash: String::new(),
    };
    event.event_hash = event.compute_hash();
    event
}

fn build_chain(n: usize) -> Vec<AgentIdentityAuditEvent> {
    let mut chain: Vec<AgentIdentityAuditEvent> = Vec::new();
    for i in 0..n {
        let prev = if i == 0 { None } else { Some(chain[i - 1].event_hash.clone()) };
        let action = if i == 0 { AgentIdentityAuditAction::Created } else { AgentIdentityAuditAction::Updated };
        chain.push(make_audit_event(action, if i == 0 { None } else { Some(i as u64) }, (i + 1) as u64, prev));
    }
    chain
}

fn legacy(action: AgentIdentityAuditAction, from_version: Option<u64>, to_version: u64, agent: &str) -> AgentIdentityAuditEvent {
    AgentIdentityAuditEvent {
        id: uuid::Uuid::now_v7().as_u128(),
        agent_id: agent.to_string(),
        action,
        from_version,
        to_version,
        rollback_to_version: None,
        reason: None,
        created_at: now(),
        prev_hash: None,
        event_hash: String::new(),
    }
}

#[test]
fn test_witness_hash_is_deterministic() {
    let event = make_audit_event(AgentIdentityAuditAction::Created, None, 1, None);
    let h1 = event.compute_hash();
    let h2 = event.compute_hash();
    assert_eq!(h1, h2, "Hash must be deterministic");
    assert_eq!(h1.len(), 64, "SHA-256 hex should be 64 chars");
}

#[test]
fn test_witness_hash_changes_with_different_action() {
    let e1 = make_audit_event(AgentIdentityAuditAction::Created, None, 1, None);
    let mut e2 = e1.clone();
    e2.action = AgentIdentityAuditAction::Updated;
    e2.event_hash = e2.compute_hash();
    assert_ne!(e1.event_hash, e2.event_hash);
}

#[test]
fn test_witness_hash_changes_with_different_prev_hash() {
    let e1 = make_audit_event(AgentIdentityAuditAction::Updated, Some(1), 2, None);
    let e2 = make_audit_event(AgentIdentityAuditAction::Updated, Some(1), 2, Some("abc123".to_string()));
    assert_ne!(e1.event_hash, e2.event_hash);
}

#[test]
fn test_witness_verify_hash_passes_for_correct_event() {
    let event = make_audit_event(AgentIdentityAuditAction::Created, None, 1, None);
    assert!(event.verify_hash());
}

#[test]
fn test_witness_verify_hash_fails_for_tampered_event() {
    let mut event = make_audit_event(AgentIdentityAuditAction::Created, None, 1, None);
    event.to_version = 999;
    assert!(!event.verify_hash());
}

#[test]
fn test_witness_chain_empty_is_valid() {
    let result = verify_audit_chain(&[]);
    assert!(result.valid);
    assert_eq!(result.chain_length, 0);
    assert!(result.breaks.is_empty());
}

#[test]
fn test_witness_chain_single_genesis_is_valid() {
    let chain = build_chain(1);
    let result = verify_audit_chain(&chain);
    assert!(result.valid, "Single genesis event should be valid: {:?}", result.breaks);
    assert_eq!(result.chain_length, 1);
}

#[test]
fn test_witness_chain_multi_event_valid() {
    let chain = build_chain(5);
    let result = verify_audit_chain(&chain);
    assert!(result.valid, "5-event chain should be valid: {:?}", result.breaks);
    assert_eq!(result.chain_length, 5);
}

#[test]
fn test_witness_chain_detects_tampered_event_hash() {
    let mut chain = build_chain(3);
    chain[1].to_version = 999;
    let result = verify_audit_chain(&chain);
    assert!(!result.valid);
    assert!(!result.breaks.is_empty());
    assert!(result.breaks.iter().any(|b| b.index == 1));
}

#[test]
fn test_witness_chain_detects_deleted_event() {
    let mut chain = build_chain(4);
    chain.remove(2);
    let result = verify_audit_chain(&chain);
    assert!(!result.valid);
    assert!(result.breaks.iter().any(|b| b.reason.contains("prev_hash mismatch")));
}

#[test]
fn test_witness_chain_detects_reordered_events() {
    let mut chain = build_chain(3);
    chain.swap(1, 2);
    let result = verify_audit_chain(&chain);
    assert!(!result.valid);
}

#[test]
fn test_witness_chain_genesis_with_prev_hash_flagged() {
    let mut chain = build_chain(1);
    chain[0].prev_hash = Some("rogue_hash".to_string());
    chain[0].event_hash = chain[0].compute_hash();
    let result = verify_audit_chain(&chain);
    assert!(!result.valid);
    assert!(result.breaks[0].reason.contains("Genesis event"));
}

#[test]
fn test_witness_chain_non_genesis_missing_prev_hash() {
    let mut chain = build_chain(2);
    chain[1].prev_hash = None;
    chain[1].event_hash = chain[1].compute_hash();
    let result = verify_audit_chain(&chain);
    assert!(!result.valid);
    assert!(result.breaks[0].reason.contains("Non-genesis"));
}

#[test]
fn test_witness_large_chain_performance() {
    let chain = build_chain(1000);
    let start = std::time::Instant::now();
    let result = verify_audit_chain(&chain);
    let elapsed = start.elapsed();
    assert!(result.valid, "1000-event chain should be valid");
    assert!(elapsed.as_millis() < 100, "took {}ms", elapsed.as_millis());
}

#[test]
fn test_falsify_legacy_events_without_hashes_are_valid() {
    let l = legacy(AgentIdentityAuditAction::Created, None, 1, "legacy-bot");
    let result = verify_audit_chain(&[l]);
    assert!(result.valid, "Legacy events should pass: {:?}", result.breaks);
    assert_eq!(result.chain_length, 1);
}

#[test]
fn test_falsify_legacy_then_witnessed_chain_valid() {
    let legacy1 = legacy(AgentIdentityAuditAction::Created, None, 1, "bot");
    let legacy2 = legacy(AgentIdentityAuditAction::Updated, Some(1), 2, "bot");
    let w1 = make_audit_event(AgentIdentityAuditAction::Updated, Some(2), 3, None);
    let w2 = make_audit_event(AgentIdentityAuditAction::Updated, Some(3), 4, Some(w1.event_hash.clone()));
    let w3 = make_audit_event(AgentIdentityAuditAction::Updated, Some(4), 5, Some(w2.event_hash.clone()));
    let chain = vec![legacy1, legacy2, w1, w2, w3];
    let result = verify_audit_chain(&chain);
    assert!(result.valid, "Legacy + witnessed chain should be valid: {:?}", result.breaks);
    assert_eq!(result.chain_length, 5);
}

#[test]
fn test_falsify_hash_input_contains_all_fields() {
    let base = make_audit_event(AgentIdentityAuditAction::Created, None, 1, None);
    let base_hash = base.event_hash.clone();
    let mut v = base.clone();
    v.from_version = Some(99);
    v.event_hash = v.compute_hash();
    assert_ne!(v.event_hash, base_hash, "from_version must affect hash");
    let mut v = base.clone();
    v.to_version = 42;
    v.event_hash = v.compute_hash();
    assert_ne!(v.event_hash, base_hash, "to_version must affect hash");
    let mut v = base.clone();
    let t = now();
    v.created_at = UtcTime { secs: t.secs + 3600, nanos: t.nanos };
    v.event_hash = v.compute_hash();
    assert_ne!(v.event_hash, base_hash, "created_at must affect hash");
}

#[test]
fn test_falsify_reason_field_not_in_hash() {
    let e1 = make_audit_event(AgentIdentityAuditAction::Updated, Some(1), 2, None);
    let mut e2 = e1.clone();
    e2.reason = Some("I changed my mind".to_string());
    e2.event_hash = e2.compute_hash();
    assert_eq!(e1.event_hash, e2.event_hash);
}

#[test]
fn test_falsify_rollback_to_version_not_in_hash() {
    let e1 = make_audit_event(AgentIdentityAuditAction::RolledBack, Some(3), 4, None);
    let mut e2 = e1.clone();
    e2.rollback_to_version = Some(1);
    e2.event_hash = e2.compute_hash();
    assert_eq!(e1.event_hash, e2.event_hash);
}

#[test]
fn test_falsify_concurrent_fork_detected() {
    let genesis = make_audit_event(AgentIdentityAuditAction::Created, None, 1, None);
    let fork_a = make_audit_event(AgentIdentityAuditAction::Updated, Some(1), 2, Some(genesis.event_hash.clone()));
    let fork_b = make_audit_event(AgentIdentityAuditAction::Updated, Some(1), 3, Some(genesis.event_hash.clone()));
    let chain = vec![genesis, fork_a.clone(), fork_b];
    let result = verify_audit_chain(&chain);
    assert!(!result.valid);
    assert!(result.breaks.iter().any(|b| b.index == 2));
}
