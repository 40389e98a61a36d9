use mnemo_core::models::agent::validate_fork_agent_id;
use mnemo_core::models::region::{
    validate_agent_id, validate_region_name, MemoryRegionAcl, RegionEdgeFilter, RegionEntityFilter,
    RegionPermission,
};
use mnemo_core::time::{now, UtcTime};

fn shifted(t: UtcTime, secs: i64) -> UtcTime {
    UtcTime { secs: t.secs + secs, nanos: t.nanos }
}

fn acl(permission: RegionPermission, granted_at: UtcTime, expires_at: Option<UtcTime>) -> MemoryRegionAcl {
    MemoryRegionAcl {
        region_id: 1,
        agent_id: "bot".into(),
        permission,
        granted_by: "admin".into(),
        granted_at,
        expires_at,
    }
}

#[test]
fn test_region_permission_ordering() {
    assert!(RegionPermission::Read < RegionPermission::Write);
    assert!(RegionPermission::Write < RegionPermission::Manage);
    assert!(RegionPermission::Read < RegionPermission::Manage);
}

#[test]
fn test_region_permission_has_at_least() {
    assert!(RegionPermission::Read.has_at_least(RegionPermission::Read));
    assert!(!RegionPermission::Read.has_at_least(RegionPermission::Write));
    assert!(!RegionPermission::Read.has_at_least(RegionPermission::Manage));
    assert!(RegionPermission::Write.has_at_least(RegionPermission::Read));
    assert!(RegionPermission::Write.has_at_least(RegionPermission::Write));
    assert!(!RegionPermission::Write.has_at_least(RegionPermission::Manage));
    assert!(RegionPermission::Manage.has_at_least(RegionPermission::Read));
    assert!(RegionPermission::Manage.has_at_least(RegionPermission::Write));
    assert!(RegionPermission::Manage.has_at_least(RegionPermission::Manage));
}

#[test]
fn test_validate_region_name_valid() {
    assert!(validate_region_name("shared_customer_context").is_ok());
    assert!(validate_region_name("a").is_ok());
    assert!(validate_region_name("My Region 123").is_ok());
}

#[test]
fn test_validate_region_name_empty() {
    assert!(validate_region_name("").is_err());
    assert!(validate_region_name("   ").is_err());
}

#[test]
fn test_validate_region_name_too_long() {
    let long = "a".repeat(129);
    assert!(validate_region_name(&long).is_err());
    let exact = "a".repeat(128);
    assert!(validate_region_name(&exact).is_ok());
}

#[test]
fn test_validate_region_name_control_chars() {
    assert!(validate_region_name("test\0null").is_err());
    assert!(validate_region_name("test\nnewline").is_err());
    assert!(validate_region_name("test\ttab").is_err());
}

#[test]
fn test_validate_agent_id_valid() {
    assert!(validate_agent_id("support-bot").is_ok());
    assert!(validate_agent_id("bot_v2").is_ok());
    assert!(validate_agent_id("sales.bot.v3").is_ok());
    assert!(validate_agent_id("a").is_ok());
}

#[test]
fn test_validate_agent_id_empty() {
    assert!(validate_agent_id("").is_err());
    assert!(validate_agent_id("   ").is_err());
}

#[test]
fn test_validate_agent_id_too_long() {
    let long = "a".repeat(129);
    assert!(validate_agent_id(&long).is_err());
    assert!(validate_agent_id(&"a".repeat(128)).is_ok());
}

#[test]
fn test_validate_agent_id_colon_rejected() {
    assert!(validate_agent_id("bot:fork").is_err());
}

#[test]
fn test_validate_agent_id_slash_rejected() {
    assert!(validate_agent_id("bot/fork").is_err());
}

#[test]
fn test_validate_agent_id_path_traversal_rejected() {
    assert!(validate_agent_id("..bot").is_err());
    assert!(validate_agent_id("bot../etc").is_err());
}

#[test]
fn test_validate_agent_id_null_bytes_rejected() {
    assert!(validate_agent_id("bot\0hidden").is_err());
}

#[test]
fn test_validate_agent_id_whitespace_rejected() {
    assert!(validate_agent_id("bot name").is_err());
    assert!(validate_agent_id("bot\tname").is_err());
}

#[test]
fn test_validate_agent_id_unicode_rejected() {
    assert!(validate_agent_id("böt").is_err());
    assert!(validate_agent_id("bot🤖").is_err());
}

#[test]
fn region_error_messages_are_exact() {
    assert_eq!(validate_region_name("  "), Err("region name cannot be empty".to_string()));
    assert_eq!(validate_region_name(&"a".repeat(129)), Err("region name must be <= 128 characters".to_string()));
    assert_eq!(validate_region_name("  trimmed ok  "), Ok(()));
}

#[test]
fn test_acl_not_expired_when_no_expiry() {
    let acl = acl(RegionPermission::Read, now(), None);
    assert!(!acl.is_expired());
    assert!(acl.has_permission(RegionPermission::Read));
}

#[test]
fn test_acl_expired_in_past() {
    let t = now();
    let acl = acl(RegionPermission::Write, shifted(t, -48 * 3600), Some(shifted(t, -3600)));
    assert!(acl.is_expired());
    assert!(!acl.has_permission(RegionPermission::Read));
    assert!(!acl.has_permission(RegionPermission::Write));
}

#[test]
fn test_acl_not_expired_future() {
    let t = now();
    let acl = acl(RegionPermission::Manage, t, Some(shifted(t, 24 * 3600)));
    assert!(!acl.is_expired());
    assert!(acl.has_permission(RegionPermission::Read));
    assert!(acl.has_permission(RegionPermission::Write));
    assert!(acl.has_permission(RegionPermission::Manage));
}

#[test]
fn test_acl_permission_check_with_insufficient_level() {
    let acl = acl(RegionPermission::Read, now(), None);
    assert!(acl.has_permission(RegionPermission::Read));
    assert!(!acl.has_permission(RegionPermission::Write));
    assert!(!acl.has_permission(RegionPermission::Manage));
}

#[test]
fn test_falsify_expired_acl_denies_all_permissions() {
    let t = now();
    let acl = acl(RegionPermission::Manage, shifted(t, -48 * 3600), Some(shifted(t, -1)));
    assert!(!acl.has_permission(RegionPermission::Read));
    assert!(!acl.has_permission(RegionPermission::Write));
    assert!(!acl.has_permission(RegionPermission::Manage));
}

#[test]
fn test_falsify_permission_escalation_read_cannot_write() {
    let acl = acl(RegionPermission::Read, now(), None);
    assert!(!acl.has_permission(RegionPermission::Write));
}

#[test]
fn test_falsify_permission_escalation_write_cannot_manage() {
    let acl = acl(RegionPermission::Write, now(), None);
    assert!(!acl.has_permission(RegionPermission::Manage));
}

#[test]
fn test_falsify_region_entity_filter_empty_means_all() {
    let filter = RegionEntityFilter { entity_types: vec![], name_patterns: vec![] };
    assert!(filter.entity_types.is_empty());
    assert!(filter.name_patterns.is_empty());
}

#[test]
fn test_falsify_region_edge_filter_empty_means_all() {
    let filter = RegionEdgeFilter { labels: vec![], min_confidence: None };
    assert!(filter.labels.is_empty());
    assert!(filter.min_confidence.is_none());
}

#[test]
fn test_falsify_acl_without_expires_never_expires() {
    let acl = acl(RegionPermission::Read, shifted(now(), -365 * 86400), None);
    assert!(!acl.is_expired());
    assert!(acl.has_permission(RegionPermission::Read));
}

#[test]
fn acl_expiry_at_fixed_times() {
    let t = UtcTime { secs: 1_700_000_000, nanos: 500 };
    let acl = acl(RegionPermission::Write, shifted(t, -10), Some(t));
    assert!(acl.is_expired_at(&t));
    assert!(!acl.is_expired_at(&UtcTime { secs: t.secs, nanos: 499 }));
    assert!(acl.has_permission_at(RegionPermission::Read, &shifted(t, -1)));
    assert!(!acl.has_permission_at(RegionPermission::Manage, &shifted(t, -1)));
    assert!(!acl.has_permission_at(RegionPermission::Read, &shifted(t, 1)));
}

#[test]
fn agent_id_rules_are_the_fork_rules() {
    assert_eq!(validate_agent_id("   "), Err("agent_id must not be empty".to_string()));
    for id in [" bot", "bot\n", "bot ", "support-bot", "a..b", "bot:x", "b\u{f6}t", ""] {
        assert_eq!(validate_agent_id(id).is_ok(), validate_fork_agent_id(id).is_ok(), "{:?}", id);
    }
    assert_eq!(
        validate_agent_id(" bot"),
        Err("agent_id must contain only alphanumeric characters, hyphens, underscores, or dots".to_string())
    );
}
