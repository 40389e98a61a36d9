use mnemo_core::models::classification::Classification;
use mnemo_core::models::edge::{
    BeliefChangesQuery, Edge, EdgeFilter, ExtractedRelationship, FactTemporalScope, StaleFactsQuery,
    DEFAULT_EDGE_DECAY_HALF_LIFE_DAYS, DEFAULT_REVALIDATION_THRESHOLD,
};
use mnemo_core::models::goal::{GoalProfile, UpdateGoalProfileRequest};
use mnemo_core::models::narrative::{
    build_narrative_prompt, narrative_braces_ordered, narrative_choose, narrative_fallback, narrative_fenced_json, narrative_json_candidates, NarrativeChapter, NarrativeGenerationOutput, SessionSummaryInput,
    UserNarrative,
};
use mnemo_core::models::view::{MemoryView, TemporalScope, ViewConstraints};
use mnemo_core::score::{score_key, ONE_SCORE_KEY, ZERO_SCORE_KEY};
use mnemo_core::time::UtcTime;

fn key(x: f32) -> u32 {
    score_key(x.to_bits())
}

fn fresh() -> u128 {
    uuid::Uuid::now_v7().as_u128()
}

fn now() -> UtcTime {
    mnemo_core::time::now()
}

fn days(t: UtcTime, d: i64) -> UtcTime {
    UtcTime { secs: t.secs + d * 86_400, nanos: t.nanos }
}

// ─── Edges ──────────────────────────────────────────────────────

fn sample_relationship() -> ExtractedRelationship {
    ExtractedRelationship {
        source_name: "Kendra".to_string(),
        target_name: "Adidas shoes".to_string(),
        label: "loves".to_string(),
        fact: "Kendra loves Adidas shoes and wears them exclusively".to_string(),
        confidence: key(0.95),
        valid_at: None,
        classification: Classification::Internal,
        temporal_scope: None,
    }
}

#[test]
fn test_edge_from_extraction() {
    let user_id = fresh();
    let src = fresh();
    let tgt = fresh();
    let edge = Edge::from_extraction(&sample_relationship(), user_id, src, tgt, fresh(), now(), None);
    assert_eq!(edge.label, "loves");
    assert!(edge.is_valid());
    assert_eq!(edge.confidence, key(0.95));
    assert_eq!(edge.corroboration_count, 1);
    assert_eq!(edge.source_entity_id, src);
    assert_eq!(edge.target_entity_id, tgt);
}

#[test]
fn test_edge_temporal_validity() {
    let n = now();
    let past = days(n, -30);
    let future = days(n, 30);
    let mut edge = Edge::from_extraction(&sample_relationship(), fresh(), fresh(), fresh(), fresh(), past, None);
    assert!(edge.is_valid_at(n));
    assert!(!edge.is_valid_at(days(past, -1)));
    assert!(edge.is_valid_at(future));
    edge.invalidate(fresh());
    assert!(!edge.is_valid());
    assert!(edge.is_valid_at(days(past, 1)));
}

#[test]
fn test_edge_invalidation_records_episode() {
    let mut edge = Edge::from_extraction(&sample_relationship(), fresh(), fresh(), fresh(), fresh(), now(), None);
    let invalidating_episode = fresh();
    edge.invalidate(invalidating_episode);
    assert!(!edge.is_valid());
    assert!(edge.invalid_at.is_some());
    assert_eq!(edge.invalidated_by_episode_id, Some(invalidating_episode));
}

#[test]
fn test_edge_corroboration() {
    let mut edge = Edge::from_extraction(&sample_relationship(), fresh(), fresh(), fresh(), fresh(), now(), None);
    assert_eq!(edge.corroboration_count, 1);
    edge.corroborate();
    edge.corroborate();
    assert_eq!(edge.corroboration_count, 3);
}

#[test]
fn test_edge_filter_matching() {
    let src = fresh();
    let tgt = fresh();
    let edge = Edge::from_extraction(&sample_relationship(), fresh(), src, tgt, fresh(), now(), None);
    assert!(EdgeFilter::default().matches(&edge));
    let filter = EdgeFilter { source_entity_id: Some(src), ..Default::default() };
    assert!(filter.matches(&edge));
    let filter = EdgeFilter { source_entity_id: Some(fresh()), ..Default::default() };
    assert!(!filter.matches(&edge));
    let filter = EdgeFilter { label: Some("loves".to_string()), ..Default::default() };
    assert!(filter.matches(&edge));
    let filter = EdgeFilter { label: Some("hates".to_string()), ..Default::default() };
    assert!(!filter.matches(&edge));
}

#[test]
fn test_edge_filter_excludes_invalidated_by_default() {
    let mut edge = Edge::from_extraction(&sample_relationship(), fresh(), fresh(), fresh(), fresh(), now(), None);
    edge.invalidate(fresh());
    assert!(!EdgeFilter::default().matches(&edge));
    let filter = EdgeFilter { include_invalidated: true, ..Default::default() };
    assert!(filter.matches(&edge));
}

#[test]
fn edge_filter_time_and_classification() {
    let t0 = UtcTime { secs: 1_000, nanos: 0 };
    let rel = ExtractedRelationship { valid_at: Some(t0), classification: Classification::Confidential, ..sample_relationship() };
    let edge = Edge::from_extraction_with(&rel, 1, 2, 3, 4, UtcTime { secs: 5, nanos: 0 }, Some("bot".into()), 9, t0);
    assert_eq!(edge.valid_at, t0);
    assert_eq!(edge.source_agent_id.as_deref(), Some("bot"));
    let f = EdgeFilter { valid_at_time: Some(UtcTime { secs: 999, nanos: 0 }), ..Default::default() };
    assert!(!f.matches(&edge));
    let f = EdgeFilter { valid_at_time: Some(t0), ..Default::default() };
    assert!(f.matches(&edge));
    let f = EdgeFilter { max_classification: Some(Classification::Internal), ..Default::default() };
    assert!(!f.matches(&edge));
    let f = EdgeFilter { max_classification: Some(Classification::Confidential), target_entity_id: Some(3), ..Default::default() };
    assert!(f.matches(&edge));
    let f = EdgeFilter { target_entity_id: Some(4), ..Default::default() };
    assert!(!f.matches(&edge));
}

#[test]
fn test_stale_facts_query_defaults() {
    let query = StaleFactsQuery::default();
    assert_eq!(query.threshold, DEFAULT_REVALIDATION_THRESHOLD);
    assert_eq!(query.threshold, key(0.3));
    assert_eq!(query.limit, 50);
    assert_eq!(query.half_life_days, DEFAULT_EDGE_DECAY_HALF_LIFE_DAYS);
}

#[test]
fn test_fact_temporal_scope_mutable_is_always_current() {
    let scope = FactTemporalScope::Mutable;
    assert!(scope.is_current_at(days(now(), -3650)));
    assert!(scope.is_current_at(days(now(), 3650)));
}

#[test]
fn test_fact_temporal_scope_stable_is_always_current() {
    let scope = FactTemporalScope::Stable;
    assert!(scope.is_current_at(days(now(), -3650)));
    assert!(scope.is_current_at(days(now(), 3650)));
}

#[test]
fn test_fact_temporal_scope_stable_resists_decay() {
    assert!(FactTemporalScope::Stable.resists_decay());
    assert!(!FactTemporalScope::Mutable.resists_decay());
    assert!(!FactTemporalScope::TimeBounded { expires_at: None }.resists_decay());
}

#[test]
fn test_fact_temporal_scope_time_bounded_expired() {
    let expired = FactTemporalScope::TimeBounded { expires_at: Some(days(now(), -1)) };
    assert!(!expired.is_current_at(now()), "past expiry should not be current");
}

#[test]
fn test_fact_temporal_scope_time_bounded_not_yet_expired() {
    let future_scope = FactTemporalScope::TimeBounded { expires_at: Some(days(now(), 30)) };
    assert!(future_scope.is_current_at(now()), "future expiry should be current");
}

#[test]
fn test_fact_temporal_scope_time_bounded_no_expiry_is_current() {
    let no_expiry = FactTemporalScope::TimeBounded { expires_at: None };
    assert!(no_expiry.is_current_at(now()), "no expiry means indefinitely current");
}

#[test]
fn test_belief_changes_query_default_limit() {
    let q = BeliefChangesQuery::default();
    assert_eq!(q.limit, 50);
    assert!(q.since.is_none());
}

// ─── Views ──────────────────────────────────────────────────────

fn constraints(allowed: Option<Vec<String>>, blocked: Option<Vec<String>>, scope: Option<TemporalScope>) -> ViewConstraints {
    ViewConstraints {
        max_classification: Classification::Restricted,
        allowed_entity_types: allowed,
        blocked_edge_labels: blocked,
        max_facts: None,
        include_narrative: true,
        temporal_scope: scope,
        view_name: None,
    }
}

#[test]
fn view_constraints_allows_entity_classification() {
    let vc = ViewConstraints::default_for_caller(Classification::Internal);
    assert!(vc.allows_entity(Classification::Public, "person"));
    assert!(vc.allows_entity(Classification::Internal, "person"));
    assert!(!vc.allows_entity(Classification::Confidential, "person"));
    assert!(!vc.allows_entity(Classification::Restricted, "person"));
}

#[test]
fn view_constraints_allows_entity_type_whitelist() {
    let vc = constraints(Some(vec!["person".into(), "product".into()]), None, None);
    assert!(vc.allows_entity(Classification::Internal, "person"));
    assert!(vc.allows_entity(Classification::Internal, "Product"));
    assert!(!vc.allows_entity(Classification::Internal, "organization"));
}

#[test]
fn view_constraints_blocks_edge_labels() {
    let vc = constraints(None, Some(vec!["salary".into(), "ssn".into()]), None);
    assert!(vc.allows_edge(Classification::Internal, "prefers"));
    assert!(!vc.allows_edge(Classification::Internal, "salary"));
    assert!(!vc.allows_edge(Classification::Internal, "SSN"));
}

#[test]
fn view_constraints_edge_classification_ceiling() {
    let vc = ViewConstraints::default_for_caller(Classification::Internal);
    assert!(vc.allows_edge(Classification::Public, "works_at"));
    assert!(vc.allows_edge(Classification::Internal, "works_at"));
    assert!(!vc.allows_edge(Classification::Confidential, "works_at"));
}

#[test]
fn view_constraints_temporal_last_n_days() {
    let vc = constraints(None, None, Some(TemporalScope::LastNDays { days: 30 }));
    let recent = days(now(), -10);
    let old = days(now(), -60);
    assert!(vc.allows_time(recent));
    assert!(!vc.allows_time(old));
}

#[test]
fn view_constraints_since_and_current_only() {
    let since = UtcTime { secs: 1_000, nanos: 0 };
    let vc = constraints(None, None, Some(TemporalScope::Since { since }));
    assert!(vc.allows_time(since));
    assert!(!vc.allows_time(UtcTime { secs: 999, nanos: 999_999_999 }));
    let vc = constraints(None, None, Some(TemporalScope::CurrentOnly));
    assert!(vc.allows_time(UtcTime { secs: 0, nanos: 0 }));
    let vc = constraints(None, None, Some(TemporalScope::LastNDays { days: 1 }));
    let at = UtcTime { secs: 200_000, nanos: 7 };
    assert!(vc.allows_time_at(UtcTime { secs: 200_000 - 86_400, nanos: 7 }, at));
    assert!(!vc.allows_time_at(UtcTime { secs: 200_000 - 86_400, nanos: 6 }, at));
}

#[test]
fn view_constraints_from_view_caps_classification() {
    let view = MemoryView {
        id: 1,
        name: "wide_view".into(),
        description: "allows confidential".into(),
        max_classification: Classification::Confidential,
        allowed_entity_types: None,
        blocked_edge_labels: None,
        max_facts: None,
        include_narrative: true,
        temporal_scope: None,
        created_at: now(),
        updated_at: now(),
    };
    let vc = ViewConstraints::from_view(&view, Classification::Internal);
    assert_eq!(vc.max_classification, Classification::Internal);
    let vc = ViewConstraints::from_view(&view, Classification::Restricted);
    assert_eq!(vc.max_classification, Classification::Confidential);
    assert_eq!(vc.view_name.as_deref(), Some("wide_view"));
}

// ─── Goal profiles ──────────────────────────────────────────────

#[test]
fn test_goal_profile_new() {
    let profile = GoalProfile::new("resolve_ticket".into(), None);
    assert_eq!(profile.name, "resolve_ticket");
    assert!(profile.user_id.is_none());
    assert_eq!(profile.temporal_bias, key(0.0));
    assert!(profile.entity_category_boosts.is_empty());
    assert!(profile.edge_label_boosts.is_empty());
    assert!(profile.boost_keywords.is_empty());
    assert!(profile.suppress_keywords.is_empty());
}

#[test]
fn test_goal_profile_with_user() {
    let uid = 1u128;
    let profile = GoalProfile::new("plan_trip".into(), Some(uid));
    assert_eq!(profile.user_id, Some(uid));
}

#[test]
fn test_entity_boost() {
    let mut profile = GoalProfile::new("test".into(), None);
    profile.entity_category_boosts.push(("complaint".into(), key(2.0)));
    profile.entity_category_boosts.push(("travel".into(), key(0.3)));
    assert_eq!(profile.entity_boost("complaint"), key(2.0));
    assert_eq!(profile.entity_boost("travel"), key(0.3));
    assert_eq!(profile.entity_boost("unknown"), key(1.0));
}

#[test]
fn test_edge_boost() {
    let mut profile = GoalProfile::new("test".into(), None);
    profile.edge_label_boosts.push(("prefers".into(), key(1.8)));
    assert_eq!(profile.edge_boost("prefers"), key(1.8));
    assert_eq!(profile.edge_boost("likes"), key(1.0));
}

#[test]
fn test_matches_boost_keyword() {
    let mut profile = GoalProfile::new("test".into(), None);
    profile.boost_keywords = vec!["ticket".into(), "complaint".into()];
    assert!(profile.matches_boost_keyword("Ticket #1234"));
    assert!(profile.matches_boost_keyword("user filed a COMPLAINT"));
    assert!(!profile.matches_boost_keyword("travel plans"));
}

#[test]
fn test_matches_suppress_keyword() {
    let mut profile = GoalProfile::new("test".into(), None);
    profile.suppress_keywords = vec!["spam".into(), "test".into()];
    assert!(profile.matches_suppress_keyword("This is spam"));
    assert!(profile.matches_suppress_keyword("TEST message"));
    assert!(!profile.matches_suppress_keyword("Real data"));
}

#[test]
fn test_clamp_temporal_bias() {
    let mut profile = GoalProfile::new("test".into(), None);
    profile.temporal_bias = key(5.0);
    profile.clamp_temporal_bias();
    assert_eq!(profile.temporal_bias, key(1.0));
    profile.temporal_bias = key(-3.0);
    profile.clamp_temporal_bias();
    assert_eq!(profile.temporal_bias, key(-1.0));
}

#[test]
fn test_apply_update() {
    let profile = GoalProfile::new("test".into(), None);
    let updated = profile.apply_update(UpdateGoalProfileRequest {
        description: Some("New description".into()),
        temporal_bias: Some(key(0.8)),
        ..Default::default()
    });
    assert_eq!(updated.description, "New description");
    assert_eq!(updated.temporal_bias, key(0.8));
    assert_eq!(updated.name, "test");
}

#[test]
fn test_apply_update_clamps_temporal_bias() {
    let profile = GoalProfile::new("test".into(), None);
    let updated = profile.apply_update(UpdateGoalProfileRequest { temporal_bias: Some(key(999.0)), ..Default::default() });
    assert_eq!(updated.temporal_bias, key(1.0));
}

#[test]
fn test_falsify_infinity_temporal_bias() {
    let mut profile = GoalProfile::new("test".into(), None);
    profile.temporal_bias = key(f32::INFINITY);
    profile.clamp_temporal_bias();
    assert_eq!(profile.temporal_bias, key(1.0));
    profile.temporal_bias = key(f32::NEG_INFINITY);
    profile.clamp_temporal_bias();
    assert_eq!(profile.temporal_bias, key(-1.0));
}

#[test]
fn test_falsify_empty_keyword_in_list() {
    let mut profile = GoalProfile::new("test".into(), None);
    profile.boost_keywords = vec!["".into()];
    assert!(profile.matches_boost_keyword("anything"), "empty keyword is a substring of everything");
}

#[test]
fn test_falsify_case_insensitive_keywords() {
    let mut profile = GoalProfile::new("test".into(), None);
    profile.boost_keywords = vec!["URGENT".into()];
    assert!(profile.matches_boost_keyword("This is urgent"));
    assert!(profile.matches_boost_keyword("URGENT!"));
    assert!(profile.matches_boost_keyword("UrGeNt case"));
}

#[test]
fn test_falsify_unicode_in_keywords() {
    let mut profile = GoalProfile::new("test".into(), None);
    profile.boost_keywords = vec!["café".into()];
    assert!(profile.matches_boost_keyword("I love café au lait"));
    assert!(!profile.matches_boost_keyword("I love coffee"));
}

#[test]
fn test_falsify_very_large_boost_map() {
    let mut profile = GoalProfile::new("test".into(), None);
    for i in 0..1000 {
        profile.entity_category_boosts.push((format!("category_{i}"), key(1.0 + (i as f32 * 0.001))));
    }
    assert_eq!(profile.entity_category_boosts.len(), 1000);
    assert_eq!(profile.entity_boost("category_500"), key(1.0 + 500.0 * 0.001));
    assert_eq!(profile.entity_boost("nonexistent"), key(1.0));
}

#[test]
fn test_falsify_apply_update_replaces_entire_collections() {
    let mut profile = GoalProfile::new("test".into(), None);
    profile.boost_keywords = vec!["old".into()];
    profile.entity_category_boosts.push(("old_cat".into(), key(2.0)));
    let updated = profile.apply_update(UpdateGoalProfileRequest {
        boost_keywords: Some(vec!["new".into()]),
        entity_category_boosts: Some(vec![("new_cat".into(), key(3.0))]),
        ..Default::default()
    });
    assert_eq!(updated.boost_keywords, vec!["new"]);
    assert!(!updated.entity_category_boosts.iter().any(|(k, _)| k == "old_cat"));
    assert_eq!(updated.entity_boost("new_cat"), key(3.0));
}

#[test]
fn test_falsify_apply_update_preserves_unchanged_fields() {
    let mut profile = GoalProfile::new("original".into(), Some(1));
    profile.boost_keywords = vec!["keep".into()];
    profile.temporal_bias = key(0.5);
    let updated = profile.apply_update(UpdateGoalProfileRequest { description: Some("new desc".into()), ..Default::default() });
    assert_eq!(updated.name, "original");
    assert_eq!(updated.user_id, Some(1));
    assert_eq!(updated.boost_keywords, vec!["keep"]);
    assert_eq!(updated.temporal_bias, key(0.5));
    assert_eq!(updated.description, "new desc");
}

#[test]
fn score_keys_of_constants() {
    assert_eq!(key(0.0), ZERO_SCORE_KEY);
    assert_eq!(key(1.0), ONE_SCORE_KEY);
    assert!(key(-1.0) < key(-0.5));
    assert!(key(-0.5) < key(0.0));
    assert!(key(0.0) < key(0.3));
    assert!(key(0.3) < key(1.0));
    assert_eq!(mnemo_core::score::score_bits(key(0.75)), 0.75f32.to_bits());
}

// ─── Narratives ─────────────────────────────────────────────────

fn chapter(period: &str, changes: &[&str], sessions: &[u128]) -> NarrativeChapter {
    NarrativeChapter {
        period: period.into(),
        summary: format!("Summary of {period}"),
        key_changes: changes.iter().map(|c| c.to_string()).collect(),
        session_ids: sessions.to_vec(),
    }
}

#[test]
fn test_narrative_new() {
    let n = UserNarrative::new(1, "Test narrative".into(), vec![]);
    assert_eq!(n.user_id, 1);
    assert_eq!(n.version, 1);
    assert_eq!(n.session_count, 0);
    assert!(!n.is_empty());
    assert_eq!(n.total_key_changes(), 0);
    assert_eq!(n.total_referenced_sessions(), 0);
}

#[test]
fn test_narrative_evolve() {
    let n1 = UserNarrative::new(1, "First version".into(), vec![]);
    let n2 = n1.evolve("Second version".into(), vec![], 3);
    assert_eq!(n2.version, 2);
    assert_eq!(n2.session_count, 3);
    assert_eq!(n2.user_id, 1);
    assert_eq!(n2.created_at, n1.created_at);
    let n3 = n2.evolve("Third version".into(), vec![], 2);
    assert_eq!(n3.version, 3);
    assert_eq!(n3.session_count, 5);
}

#[test]
fn test_narrative_is_empty() {
    assert!(UserNarrative::new(1, "   ".into(), vec![]).is_empty());
    assert!(!UserNarrative::new(1, "Has content".into(), vec![]).is_empty());
}

#[test]
fn test_total_key_changes() {
    let n = UserNarrative::new(1, "Test".into(), vec![chapter("Ch1", &["a", "b"], &[]), chapter("Ch2", &["c"], &[])]);
    assert_eq!(n.total_key_changes(), 3);
}

#[test]
fn test_total_referenced_sessions_deduplicates() {
    let shared = 42u128;
    let n = UserNarrative::new(1, "Test".into(), vec![chapter("Ch1", &[], &[shared, 43]), chapter("Ch2", &[], &[shared, 44])]);
    assert_eq!(n.total_referenced_sessions(), 3);
}

#[test]
fn test_build_narrative_prompt_fresh() {
    let summaries = vec![SessionSummaryInput {
        session_id: 1,
        session_name: Some("Onboarding".into()),
        summary: "User set up their profile".into(),
        created_at: now(),
    }];
    let prompt = build_narrative_prompt(None, &summaries, &["Added name preference".into()], 10);
    assert!(prompt.contains("Generate a narrative"));
    assert!(prompt.contains("Onboarding"));
    assert!(prompt.contains("Added name preference"));
    assert!(prompt.contains("10 chapters"));
    assert!(!prompt.contains("Previous Narrative"));
}

#[test]
fn test_build_narrative_prompt_incremental() {
    let prompt = build_narrative_prompt(Some("User is a fitness enthusiast."), &[], &["Shifted to recovery focus".into()], 5);
    assert!(prompt.contains("Previous Narrative"));
    assert!(prompt.contains("fitness enthusiast"));
    assert!(prompt.contains("Shifted to recovery focus"));
}

#[test]
fn test_build_narrative_prompt_empty_inputs() {
    let prompt = build_narrative_prompt(None, &[], &[], 20);
    assert!(prompt.contains("Generate a narrative"));
    assert!(prompt.contains("Instructions"));
}

#[test]
fn build_narrative_prompt_exact_layout() {
    let s = SessionSummaryInput {
        session_id: 1,
        session_name: None,
        summary: "Chatted".into(),
        created_at: UtcTime { secs: 1_709_251_200, nanos: 0 },
    };
    let prompt = build_narrative_prompt(None, &[s], &["x".into()], 3);
    let expected_head = "## Task\n\nGenerate a narrative summary of this user's history.\n\n\
### Session Summaries\n\n1. **Untitled session** (2024-03-01): Chatted\n\n\
### Key Fact Changes\n\n- x\n\n## Instructions\n\nWrite a concise narrative (2-5 paragraphs) that tells the story of this user's evolution. Include at most 3 chapters.";
    assert!(prompt.starts_with(expected_head), "{prompt}");
    assert!(prompt.ends_with("    }\n  ]\n}\n"));
}

#[test]
fn test_falsify_evolve_overflow_version() {
    let mut n = UserNarrative::new(1, "Start".into(), vec![]);
    n.version = u64::MAX - 1;
    let n2 = n.evolve("Next".into(), vec![], 1);
    assert_eq!(n2.version, u64::MAX);
}

#[test]
fn test_falsify_evolve_session_count_accumulates() {
    let n1 = UserNarrative::new(1, "V1".into(), vec![]);
    let n2 = n1.evolve("V2".into(), vec![], 10);
    let n3 = n2.evolve("V3".into(), vec![], 0);
    assert_eq!(n3.session_count, 10);
    let n4 = n3.evolve("V4".into(), vec![], 5);
    assert_eq!(n4.session_count, 15);
}

#[test]
fn test_falsify_empty_narrative_text_whitespace_variants() {
    for ws in &["", " ", "  ", "\t", "\n", " \t\n "] {
        let n = UserNarrative::new(1, ws.to_string(), vec![]);
        assert!(n.is_empty(), "Expected is_empty() for {:?}", ws);
    }
}

#[test]
fn test_falsify_many_chapters() {
    let chapters: Vec<NarrativeChapter> = (0..500)
        .map(|i| NarrativeChapter {
            period: format!("Week {i}"),
            summary: format!("Summary for week {i}"),
            key_changes: vec![format!("Change {i}")],
            session_ids: vec![i as u128],
        })
        .collect();
    let n = UserNarrative::new(1, "Narrative".into(), chapters);
    assert_eq!(n.chapters.len(), 500);
    assert_eq!(n.total_key_changes(), 500);
    assert_eq!(n.total_referenced_sessions(), 500);
}

#[test]
fn test_falsify_build_prompt_special_characters_in_summaries() {
    let summaries = vec![SessionSummaryInput {
        session_id: 1,
        session_name: Some("Session with \"quotes\" & <html>".into()),
        summary: "User said: 'I like {braces} and [brackets]'".into(),
        created_at: now(),
    }];
    let prompt = build_narrative_prompt(None, &summaries, &[], 5);
    assert!(prompt.contains("quotes"));
    assert!(prompt.contains("{braces}"));
}

/// Reads a reply as the service does: the first candidate that is a JSON
/// object with a `narrative_text` string, else the fallback.
fn parse_reply(raw: &str) -> Result<(String, usize), String> {
    for c in narrative_json_candidates(raw) {
        if let Ok(serde_json::Value::Object(m)) = serde_json::from_str::<serde_json::Value>(&c) {
            if let Some(serde_json::Value::String(t)) = m.get("narrative_text") {
                let n = match m.get("chapters") {
                    Some(serde_json::Value::Array(a)) => a.len(),
                    _ => 0,
                };
                return Ok((t.clone(), n));
            }
        }
    }
    narrative_fallback(raw).map(|o| (o.narrative_text, o.chapters.len()))
}

#[test]
fn test_parse_narrative_output_direct_json() {
    let json = r#"{"narrative_text": "User evolved.", "chapters": [{"period": "Q1", "summary": "Started", "key_changes": ["Began"]}]}"#;
    let (text, chapters) = parse_reply(json).unwrap();
    assert_eq!(text, "User evolved.");
    assert_eq!(chapters, 1);
    assert_eq!(narrative_json_candidates(json)[0], json);
}

#[test]
fn test_parse_narrative_output_markdown_block() {
    let raw = "```json\n{\"narrative_text\": \"Story here.\", \"chapters\": []}\n```";
    let (text, _) = parse_reply(raw).unwrap();
    assert_eq!(text, "Story here.");
    assert_eq!(narrative_json_candidates(raw)[1], "{\"narrative_text\": \"Story here.\", \"chapters\": []}");
}

#[test]
fn test_parse_narrative_output_embedded_json() {
    let raw = "Here is the narrative:\n{\"narrative_text\": \"Embedded.\", \"chapters\": []}\nDone.";
    let (text, _) = parse_reply(raw).unwrap();
    assert_eq!(text, "Embedded.");
    let c = narrative_json_candidates(raw);
    assert_eq!(c.len(), 2);
    assert_eq!(c[1], "{\"narrative_text\": \"Embedded.\", \"chapters\": []}");
}

#[test]
fn test_parse_narrative_output_plain_text_fallback() {
    let raw = "This is just plain text with no JSON structure.";
    let (text, chapters) = parse_reply(raw).unwrap();
    assert_eq!(text, raw);
    assert_eq!(chapters, 0);
}

#[test]
fn test_parse_narrative_output_empty() {
    assert!(parse_reply("").is_err());
    assert_eq!(narrative_fallback("").err().unwrap(), "empty or unparseable narrative output");
}

#[test]
fn test_falsify_parse_narrative_output_nested_json() {
    let raw = r#"{"narrative_text": "User said {\"hello\"}", "chapters": []}"#;
    let (text, _) = parse_reply(raw).unwrap();
    assert!(text.contains("hello"));
}

#[test]
fn test_falsify_parse_narrative_output_multiple_json_objects() {
    let raw = "Prefix {\"narrative_text\": \"outer\", \"chapters\": []} suffix {\"junk\": 1}";
    let (text, _) = parse_reply(raw).unwrap();
    assert!(!text.is_empty());
}

#[test]
fn test_falsify_parse_narrative_output_unicode() {
    let json = r#"{"narrative_text": "User prefers \u00e9clair and caf\u00e9", "chapters": [{"period": "\u2603 Winter", "summary": "Cold season", "key_changes": ["\u2764 Love"]}]}"#;
    let (text, chapters) = parse_reply(json).unwrap();
    assert!(text.contains("caf"));
    assert_eq!(chapters, 1);
}

#[test]
fn test_falsify_parse_narrative_output_only_whitespace() {
    assert!(parse_reply("   \n\t  ").is_err());
}

#[test]
fn narrative_candidates_fence_without_closing() {
    let raw = "  ```json\n{\"a\": 1}  ";
    let c = narrative_json_candidates(raw);
    // No closing fence: only the whole reply and the braced span.
    assert_eq!(c, vec![raw.to_string(), "{\"a\": 1}".to_string()]);
    let plain = narrative_json_candidates("```\n body \n```");
    assert_eq!(plain[1], "body");
}

#[test]
fn test_falsify_narrative_created_at_preserved_across_evolve() {
    let uid = fresh();
    let t0 = UtcTime { secs: 1_700_000_000, nanos: 0 };
    let n1 = UserNarrative::new_at(uid, "V1".into(), vec![], t0);
    let original_created = n1.created_at;
    let t1 = UtcTime { secs: t0.secs, nanos: 10_000_000 };
    let n2 = n1.evolve_at("V2".into(), vec![], 1, t1);
    assert_eq!(n2.created_at, original_created);
    assert!(n2.updated_at.at_or_after(&original_created));
    let t2 = UtcTime { secs: t0.secs, nanos: 20_000_000 };
    let n3 = n2.evolve_at("V3".into(), vec![], 1, t2);
    assert_eq!(n3.created_at, original_created);
    let n4 = n3.evolve("V4".into(), vec![], 1);
    assert_eq!(n4.created_at, original_created);
}

#[test]
fn narrative_fenced_and_braces() {
    assert_eq!(narrative_fenced_json("```json\n{\"a\":1}\n```"), Some("{\"a\":1}".to_string()));
    assert_eq!(narrative_fenced_json("  ```\n{}\n```  "), Some("{}".to_string()));
    assert_eq!(narrative_fenced_json("```json\n{}"), None);
    assert_eq!(narrative_fenced_json("plain text"), None);
    assert!(narrative_braces_ordered("{x}"));
    assert!(narrative_braces_ordered("no braces"));
    assert!(narrative_braces_ordered("only { open"));
    assert!(!narrative_braces_ordered("} then {"));
}

#[test]
fn invalidation_keeps_history_at_fixed_times() {
    let t0 = UtcTime { secs: 1_700_000_000, nanos: 0 };
    let t1 = days(t0, 10);
    let mut edge = Edge::from_extraction(&sample_relationship(), 1, 2, 3, 4, t0, None);
    edge.invalidate_at(5, t1);
    assert!(!edge.is_valid_at(t1));
    assert!(!edge.is_valid_at(days(t1, 1)));
    assert!(edge.is_valid_at(days(t0, 9)));
    assert!(edge.is_valid_at(t0));
    assert!(!edge.is_valid_at(days(t0, -1)));
    edge.corroborate_at(days(t1, 2));
    assert!(edge.is_valid_at(days(t0, 9)));
    assert!(!edge.is_valid_at(t1));
}

#[test]
fn narrative_choose_takes_the_first_reading() {
    let out = |t: &str| NarrativeGenerationOutput { narrative_text: t.to_string(), chapters: Vec::new() };
    let r = narrative_choose("  reply  ", vec![None, Some(out("second")), Some(out("third"))]).unwrap();
    assert_eq!(r.narrative_text, "second");
    let r = narrative_choose("  reply  ", vec![None, None]).unwrap();
    assert_eq!(r.narrative_text, "reply");
    assert_eq!(narrative_choose("   ", vec![None]).err().unwrap(), "empty or unparseable narrative output");
}
