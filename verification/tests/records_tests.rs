use mnemo_core::models::attachment::{Attachment, AttachmentType};
use mnemo_core::models::classification::Classification;
use mnemo_core::models::context::{ContextBlock, EntitySummary, ExplanationCollector, FactSummary, RetrievalReason};
use mnemo_core::models::counterfactual::{apply_hypotheticals, apply_hypotheticals_at, rebuild_context_string, HypotheticalFact};
use mnemo_core::models::entity::{Entity, EntityType, ExtractedEntity};
use mnemo_core::models::episode::{CreateEpisodeRequest, Episode, EpisodeType, MessageRole, ProcessingStatus};
use mnemo_core::models::session::{CreateSessionRequest, Session, UpdateSessionRequest};
use mnemo_core::models::user::{CreateUserRequest, UpdateUserRequest, User};
use mnemo_core::score::score_key;
use mnemo_core::time::UtcTime;

fn key(x: f32) -> u32 {
    score_key(x.to_bits())
}

fn fresh() -> u128 {
    uuid::Uuid::now_v7().as_u128()
}

fn empty_json() -> serde_json::Value {
    serde_json::Value::Object(serde_json::Map::new())
}

fn now() -> UtcTime {
    mnemo_core::time::now()
}

// ─── Attachments ────────────────────────────────────────────────

#[test]
fn test_attachment_new() {
    let attachment = Attachment::new(
        fresh(),
        fresh(),
        AttachmentType::Image,
        "image/png".to_string(),
        Some("screenshot.png".to_string()),
        1024 * 1024,
        "user123/attachments/abc123/original.png".to_string(),
    );
    assert_eq!(attachment.attachment_type, AttachmentType::Image);
    assert_eq!(attachment.mime_type, "image/png");
    assert_eq!(attachment.filename, Some("screenshot.png".to_string()));
    assert_eq!(attachment.size_bytes, 1024 * 1024);
    assert_eq!(attachment.processing_status, ProcessingStatus::Pending);
    assert!(attachment.description.is_none());
}

#[test]
fn test_attachment_processing_lifecycle() {
    let mut attachment =
        Attachment::new(fresh(), fresh(), AttachmentType::Image, "image/png".to_string(), None, 1024, "test/key".to_string());
    assert_eq!(attachment.processing_status, ProcessingStatus::Pending);
    attachment.mark_processing();
    assert_eq!(attachment.processing_status, ProcessingStatus::Processing);
    attachment.set_description("A screenshot of a code editor".to_string());
    attachment.set_dimensions(1920, 1080);
    attachment.mark_completed("vision-model-1");
    assert_eq!(attachment.processing_status, ProcessingStatus::Completed);
    assert_eq!(attachment.description, Some("A screenshot of a code editor".to_string()));
    assert_eq!(attachment.width, Some(1920));
    assert_eq!(attachment.height, Some(1080));
    assert_eq!(attachment.processed_by_model, Some("vision-model-1".to_string()));
}

#[test]
fn test_attachment_failure() {
    let mut attachment =
        Attachment::new(fresh(), fresh(), AttachmentType::Audio, "audio/mp3".to_string(), None, 1024, "test/key".to_string());
    attachment.mark_processing();
    attachment.mark_failed("Transcription service unavailable".to_string());
    assert_eq!(attachment.processing_status, ProcessingStatus::Failed);
    assert_eq!(attachment.processing_error, Some("Transcription service unavailable".to_string()));
}

#[test]
fn attachment_setters_and_completion_clear_error() {
    let t = UtcTime { secs: 1_700_000_000, nanos: 0 };
    let mut a = Attachment::new_with(1, 2, AttachmentType::Video, "video/mp4".into(), None, 10, "k".into(), 42, t);
    assert_eq!(a.id, 42);
    assert_eq!(a.created_at, t);
    a.mark_failed("boom".into());
    a.set_transcript("hello".into());
    a.set_duration(key(12.5));
    a.set_thumbnail("thumb".into());
    a.mark_completed("whisper-1");
    assert_eq!(a.processing_error, None);
    assert_eq!(a.transcript.as_deref(), Some("hello"));
    assert_eq!(a.duration_secs, Some(key(12.5)));
    assert_eq!(a.thumbnail_key.as_deref(), Some("thumb"));
}

// ─── Context blocks ─────────────────────────────────────────────

fn summary_fact(source: &str, target: &str, label: &str, text: &str, relevance: f32) -> FactSummary {
    FactSummary {
        id: 1,
        source_entity: source.into(),
        target_entity: target.into(),
        label: label.into(),
        fact: text.into(),
        classification: Classification::Internal,
        valid_at: UtcTime { secs: 1_700_000_000, nanos: 0 },
        invalid_at: None,
        relevance: key(relevance),
        access_count: 0,
        last_accessed_at: None,
        temporal_scope: None,
    }
}

#[test]
fn test_context_block_assembly() {
    let mut block = ContextBlock::empty();
    block.entities.push(EntitySummary {
        id: fresh(),
        name: "Kendra".to_string(),
        entity_type: "person".to_string(),
        classification: Classification::Internal,
        summary: Some("A customer who likes athletic shoes".to_string()),
        relevance: key(0.95),
    });
    block.facts.push(summary_fact(
        "Kendra",
        "Nike shoes",
        "prefers",
        "Kendra now prefers Nike shoes after switching from Adidas",
        0.92,
    ));
    block.assemble(500);
    assert!(!block.context.is_empty());
    assert!(block.context.contains("Kendra"));
    assert!(block.context.contains("Nike"));
    assert!(block.token_count > 0);
}

#[test]
fn test_context_block_respects_token_budget() {
    let mut block = ContextBlock::empty();
    for i in 0..100 {
        block.facts.push(summary_fact(
            &format!("Entity{}", i),
            &format!("Target{}", i),
            "related_to",
            &format!("Entity{} has a very long and detailed relationship with Target{} that includes many specific details about their interaction history", i, i),
            0.5,
        ));
    }
    block.assemble(50);
    assert!(block.token_count <= 60);
}

#[test]
fn test_empty_context_block() {
    let mut block = ContextBlock::empty();
    block.assemble(500);
    assert!(block.context.is_empty());
    assert_eq!(block.token_count, 0);
}

#[test]
fn explanation_collector_keeps_first_reason() {
    let mut c = ExplanationCollector::new();
    c.record(7, RetrievalReason::SemanticMatch, "similar".into());
    c.record(8, RetrievalReason::GraphConnection, "neighbour".into());
    c.record(7, RetrievalReason::Reinforced, "again".into());
    let out = c.finish();
    assert_eq!(out.len(), 2);
    assert_eq!(out[0].id, 7);
    assert_eq!(out[0].reason, RetrievalReason::SemanticMatch);
    assert_eq!(out[0].detail, "similar");
    assert_eq!(out[1].id, 8);
}

// ─── Counterfactuals ────────────────────────────────────────────

fn make_fact(entity: &str, label: &str, fact_text: &str, relevance: f32) -> FactSummary {
    summary_fact(entity, "target", label, fact_text, relevance)
}

fn hyp(entity: &str, attribute: &str, value: &str, confidence: f32) -> HypotheticalFact {
    HypotheticalFact { entity: entity.into(), attribute: attribute.into(), value: value.into(), confidence: key(confidence) }
}

#[test]
fn test_apply_hypotheticals_replaces_matching_fact() {
    let facts = vec![
        make_fact("User", "brand_preference", "User prefers Nike", 0.8),
        make_fact("User", "color_preference", "User likes blue", 0.7),
    ];
    let hypotheticals = vec![hyp("User", "brand_preference", "Adidas", 0.95)];
    let (result, diff) = apply_hypotheticals(facts, &hypotheticals);
    assert_eq!(result.len(), 2);
    assert_eq!(diff.overridden_facts.len(), 1);
    assert_eq!(diff.overridden_facts[0].original.fact, "User prefers Nike");
    assert_eq!(diff.novel_hypotheticals.len(), 0);
    assert_eq!(diff.injected_count, 1);
    let brand_fact = result.iter().find(|f| f.label == "brand_preference").unwrap();
    assert!(brand_fact.fact.contains("Adidas"));
    assert_eq!(brand_fact.relevance, key(0.95));
}

#[test]
fn test_apply_hypotheticals_adds_novel_fact() {
    let facts = vec![make_fact("User", "color", "User likes blue", 0.7)];
    let hypotheticals = vec![hyp("User", "size_preference", "Large", 0.85)];
    let (result, diff) = apply_hypotheticals(facts, &hypotheticals);
    assert_eq!(result.len(), 2);
    assert_eq!(diff.overridden_facts.len(), 0);
    assert_eq!(diff.novel_hypotheticals.len(), 1);
    assert_eq!(diff.injected_count, 1);
}

#[test]
fn test_apply_hypotheticals_case_insensitive_matching() {
    let facts = vec![make_fact("USER", "Brand_Preference", "USER prefers Nike", 0.8)];
    let hypotheticals = vec![hyp("user", "brand_preference", "Adidas", 0.9)];
    let (_, diff) = apply_hypotheticals(facts, &hypotheticals);
    assert_eq!(diff.overridden_facts.len(), 1);
    assert_eq!(diff.novel_hypotheticals.len(), 0);
}

#[test]
fn test_apply_hypotheticals_empty() {
    let facts = vec![make_fact("User", "color", "likes blue", 0.7)];
    let (result, diff) = apply_hypotheticals(facts, &[]);
    assert_eq!(result.len(), 1);
    assert_eq!(diff.overridden_facts.len(), 0);
    assert_eq!(diff.novel_hypotheticals.len(), 0);
    assert_eq!(diff.injected_count, 0);
}

#[test]
fn test_apply_hypotheticals_multiple() {
    let facts = vec![make_fact("User", "brand", "likes Nike", 0.8), make_fact("User", "color", "likes blue", 0.7)];
    let hypotheticals = vec![hyp("User", "brand", "Adidas", 0.9), hyp("User", "color", "red", 0.85)];
    let (result, diff) = apply_hypotheticals(facts, &hypotheticals);
    assert_eq!(result.len(), 2);
    assert_eq!(diff.overridden_facts.len(), 2);
    assert_eq!(diff.injected_count, 2);
}

#[test]
fn test_apply_hypotheticals_results_sorted_by_relevance() {
    let facts = vec![make_fact("User", "a", "fact a", 0.3), make_fact("User", "b", "fact b", 0.9)];
    let hypotheticals = vec![hyp("User", "a", "overridden", 0.95)];
    let (result, _) = apply_hypotheticals(facts, &hypotheticals);
    assert!(result[0].relevance >= result[1].relevance);
}

#[test]
fn apply_hypotheticals_synthetic_facts_are_not_rescanned() {
    let t = UtcTime { secs: 1_800_000_000, nanos: 5 };
    let facts = vec![make_fact("User", "color", "User likes blue", 0.7)];
    // Neither hypothetical matches an input fact; the second is not matched
    // against the fact the first one added.
    let hyps = vec![hyp("Ann", "city", "Oslo", 0.4), hyp("ANN", "City", "Bergen", 0.6)];
    let (result, diff) = apply_hypotheticals_at(facts, &hyps, t);
    assert_eq!(result.len(), 3);
    assert_eq!(diff.injected_count, 2);
    assert_eq!(diff.novel_hypotheticals.len(), 2);
    assert_eq!(diff.overridden_facts.len(), 0);
    assert_eq!(result[0].fact, "User likes blue");
    assert_eq!(result[1].id, 0xCF00_0001);
    assert_eq!(result[1].fact, "ANN City Bergen");
    assert_eq!(result[1].target_entity, "Bergen");
    assert_eq!(result[1].valid_at, t);
    assert_eq!(result[1].relevance, key(0.6));
    assert_eq!(result[2].id, 0xCF00_0000);
    assert_eq!(result[2].fact, "Ann city Oslo");
}

#[test]
fn apply_hypotheticals_overrides_record_input_facts() {
    let t = UtcTime { secs: 1_800_000_000, nanos: 5 };
    let facts = vec![make_fact("User", "brand", "User prefers Nike", 0.8)];
    let hyps = vec![hyp("user", "BRAND", "Adidas", 0.9), hyp("User", "brand", "Puma", 0.5)];
    let (result, diff) = apply_hypotheticals_at(facts, &hyps, t);
    assert_eq!(result.len(), 1);
    assert_eq!(diff.overridden_facts.len(), 2);
    assert_eq!(diff.overridden_facts[0].original.fact, "User prefers Nike");
    assert_eq!(diff.overridden_facts[1].original.fact, "User prefers Nike");
    assert_eq!(diff.overridden_facts[1].replaced_by_index, 1);
    assert_eq!(result[0].fact, "User brand Puma");
    assert_eq!(result[0].relevance, key(0.5));
    assert!(diff.novel_hypotheticals.is_empty());
}

#[test]
fn test_rebuild_context_string() {
    let facts = vec![make_fact("User", "brand", "User prefers Nike", 0.8), make_fact("User", "color", "User likes blue", 0.7)];
    let ctx = rebuild_context_string(&facts);
    assert!(ctx.contains("- User prefers Nike"));
    assert!(ctx.contains("- User likes blue"));
    assert!(ctx.contains('\n'));
    assert_eq!(ctx, "- User prefers Nike\n- User likes blue");
}

#[test]
fn test_rebuild_context_string_empty() {
    let ctx = rebuild_context_string(&[]);
    assert!(ctx.is_empty());
}

// ─── Entities ───────────────────────────────────────────────────

fn sample_extraction() -> ExtractedEntity {
    ExtractedEntity {
        name: "Kendra".to_string(),
        entity_type: EntityType::Person,
        summary: Some("A customer who likes athletic shoes".to_string()),
        classification: Classification::Internal,
    }
}

#[test]
fn test_entity_from_extraction() {
    let entity = Entity::from_extraction(&sample_extraction(), fresh(), fresh());
    assert_eq!(entity.name, "Kendra");
    assert_eq!(entity.entity_type, EntityType::Person);
    assert_eq!(entity.mention_count, 1);
}

#[test]
fn test_entity_record_mention_increments() {
    let mut entity = Entity::from_extraction(&sample_extraction(), fresh(), fresh());
    entity.record_mention();
    entity.record_mention();
    assert_eq!(entity.mention_count, 3);
}

#[test]
fn test_entity_alias_matching() {
    let mut entity = Entity::from_extraction(&sample_extraction(), fresh(), fresh());
    entity.add_alias("Ken".to_string());
    entity.add_alias("Kenny".to_string());
    assert!(entity.matches_name("Kendra"));
    assert!(entity.matches_name("kendra"));
    assert!(entity.matches_name("Ken"));
    assert!(entity.matches_name("Kenny"));
    assert!(!entity.matches_name("Kevin"));
}

#[test]
fn test_entity_alias_no_duplicates() {
    let mut entity = Entity::from_extraction(&sample_extraction(), fresh(), fresh());
    entity.add_alias("Ken".to_string());
    entity.add_alias("ken".to_string());
    entity.add_alias("Kendra".to_string());
    assert_eq!(entity.aliases.len(), 1);
}

#[test]
fn entity_alias_with_spaces_is_stored_as_given() {
    let mut entity = Entity::from_extraction(&sample_extraction(), fresh(), fresh());
    entity.add_alias(" Bob ".to_string());
    assert_eq!(entity.aliases, vec![" Bob ".to_string()]);
    // The stored alias keeps its spaces, so the trimmed candidate misses it.
    assert!(!entity.matches_name(" Bob "));
    entity.update_summary("new".into());
    assert_eq!(entity.summary.as_deref(), Some("new"));
}

// ─── Episodes ───────────────────────────────────────────────────

fn sample_message_request() -> CreateEpisodeRequest {
    CreateEpisodeRequest {
        id: None,
        episode_type: EpisodeType::Message,
        content: "I just switched from Adidas to Nike".to_string(),
        role: Some(MessageRole::User),
        name: Some("Kendra".to_string()),
        metadata: empty_json(),
        created_at: None,
    }
}

#[test]
fn test_episode_from_request() {
    let session_id = fresh();
    let user_id = fresh();
    let episode = Episode::from_request(sample_message_request(), session_id, user_id);
    assert_eq!(episode.session_id, session_id);
    assert_eq!(episode.user_id, user_id);
    assert_eq!(episode.episode_type, EpisodeType::Message);
    assert_eq!(episode.processing_status, ProcessingStatus::Pending);
    assert!(episode.entity_ids.is_empty());
}

#[test]
fn test_episode_processing_lifecycle() {
    let mut episode = Episode::from_request(sample_message_request(), fresh(), fresh());
    assert_eq!(episode.processing_status, ProcessingStatus::Pending);
    assert!(episode.should_process());
    episode.mark_processing();
    assert_eq!(episode.processing_status, ProcessingStatus::Processing);
    let entity_ids = vec![fresh(), fresh()];
    let edge_ids = vec![fresh()];
    episode.mark_completed(entity_ids.clone(), edge_ids.clone());
    assert_eq!(episode.processing_status, ProcessingStatus::Completed);
    assert_eq!(episode.entity_ids.len(), 2);
    assert_eq!(episode.edge_ids.len(), 1);
}

#[test]
fn test_episode_failure_lifecycle() {
    let mut episode = Episode::from_request(sample_message_request(), fresh(), fresh());
    episode.mark_processing();
    episode.mark_failed("LLM provider timeout".to_string());
    assert_eq!(episode.processing_status, ProcessingStatus::Failed);
    assert_eq!(episode.processing_error.as_deref(), Some("LLM provider timeout"));
}

#[test]
fn test_should_process_skips_empty_content() {
    let mut req = sample_message_request();
    req.content = "   ".to_string();
    let episode = Episode::from_request(req, fresh(), fresh());
    assert!(!episode.should_process());
}

#[test]
fn test_should_process_skips_system_messages() {
    let mut req = sample_message_request();
    req.role = Some(MessageRole::System);
    let episode = Episode::from_request(req, fresh(), fresh());
    assert!(!episode.should_process());
}

#[test]
fn test_json_episode_type() {
    let req = CreateEpisodeRequest {
        id: None,
        episode_type: EpisodeType::Json,
        content: r#"{"event":"purchase","item":"Nike Air Max","price":129.99}"#.to_string(),
        role: None,
        name: None,
        metadata: empty_json(),
        created_at: None,
    };
    let episode = Episode::from_request(req, fresh(), fresh());
    assert_eq!(episode.episode_type, EpisodeType::Json);
    assert!(episode.role.is_none());
    assert!(episode.should_process());
}

#[test]
fn episode_from_request_with_keeps_given_id_and_time() {
    let t = UtcTime { secs: 1_650_000_000, nanos: 0 };
    let mut req = sample_message_request();
    req.id = Some(77);
    req.created_at = Some(UtcTime { secs: 1_600_000_000, nanos: 0 });
    let e = Episode::from_request_with(req, 1, 2, 99, t);
    assert_eq!(e.id, 77);
    assert_eq!(e.created_at.secs, 1_600_000_000);
    assert_eq!(e.ingested_at, t);
    let e = Episode::from_request_with(sample_message_request(), 1, 2, 99, t);
    assert_eq!(e.id, 99);
    assert_eq!(e.created_at, t);
}

// ─── Sessions and users ─────────────────────────────────────────

#[test]
fn test_session_creation() {
    let user_id = fresh();
    let session = Session::from_request(CreateSessionRequest {
        id: None,
        user_id,
        name: Some("Support Chat".to_string()),
        metadata: empty_json(),
    });
    assert_eq!(session.user_id, user_id);
    assert_eq!(session.episode_count, 0);
    assert!(session.summary.is_none());
    assert!(session.last_activity_at.is_none());
    assert!(session.head_episode_id.is_none());
    assert!(session.head_updated_at.is_none());
    assert_eq!(session.head_version, 0);
}

#[test]
fn test_session_record_episode_increments() {
    let mut session = Session::from_request(CreateSessionRequest { id: None, user_id: fresh(), name: None, metadata: empty_json() });
    session.record_episode(fresh(), now());
    session.record_episode(fresh(), now());
    session.record_episode(fresh(), now());
    assert_eq!(session.episode_count, 3);
    assert!(session.last_activity_at.is_some());
    assert!(session.head_episode_id.is_some());
    assert!(session.head_updated_at.is_some());
    assert_eq!(session.head_version, 3);
}

#[test]
fn session_update_replaces_given_fields() {
    let t = UtcTime { secs: 10, nanos: 0 };
    let s = Session::from_request_with(CreateSessionRequest { id: Some(5), user_id: 1, name: None, metadata: empty_json() }, 9, t);
    assert_eq!(s.id, 5);
    let u = s.apply_update_at(
        UpdateSessionRequest { name: Some("n".into()), summary: Some("sum".into()), summary_tokens: Some(12), ..Default::default() },
        UtcTime { secs: 20, nanos: 0 },
    );
    assert_eq!(u.name.as_deref(), Some("n"));
    assert_eq!(u.summary.as_deref(), Some("sum"));
    assert_eq!(u.summary_tokens, 12);
    assert_eq!(u.created_at, t);
    assert_eq!(u.updated_at.secs, 20);
}

#[test]
fn test_user_from_request_generates_id() {
    let req = CreateUserRequest {
        id: None,
        external_id: None,
        name: "Kendra".to_string(),
        email: Some("kendra@example.com".to_string()),
        metadata: empty_json(),
    };
    let user = User::from_request(req);
    assert_eq!(user.name, "Kendra");
    assert!(user.email.is_some());
    assert_eq!(uuid::Uuid::from_u128(user.id).get_version_num(), 7);
}

#[test]
fn test_user_from_request_preserves_provided_id() {
    let custom_id = fresh();
    let req = CreateUserRequest {
        id: Some(custom_id),
        external_id: Some("ext_123".to_string()),
        name: "Robbie".to_string(),
        email: None,
        metadata: empty_json(),
    };
    let user = User::from_request(req);
    assert_eq!(user.id, custom_id);
    assert_eq!(user.external_id.as_deref(), Some("ext_123"));
}

#[test]
fn test_apply_update_partial() {
    let user = User::from_request(CreateUserRequest { id: None, external_id: None, name: "Kendra".to_string(), email: None, metadata: empty_json() });
    let original_id = user.id;
    let updated = user.apply_update(UpdateUserRequest { name: Some("Kendra Smith".to_string()), email: None, external_id: None, metadata: None });
    assert_eq!(updated.id, original_id);
    assert_eq!(updated.name, "Kendra Smith");
    assert!(updated.email.is_none());
}
