use mnemo_core::models::attachment::{AttachmentType, Modality};
use mnemo_core::models::context::{estimate_tokens, ContextBlock, EntitySummary, EpisodeSummary, FactSummary};
use mnemo_core::models::classification::Classification;
use mnemo_core::models::entity::EntityType;
use mnemo_core::models::episode::{Episode, EpisodeType, MessageRole, ProcessingStatus};
use mnemo_core::models::goal::RetrievalGoal;
use mnemo_core::models::narrative::RefreshNarrativeRequest;
use mnemo_core::time::UtcTime;

#[test]
fn test_attachment_type_from_mime() {
    assert_eq!(AttachmentType::from_mime_type("image/png"), Some(AttachmentType::Image));
    assert_eq!(AttachmentType::from_mime_type("image/jpeg"), Some(AttachmentType::Image));
    assert_eq!(AttachmentType::from_mime_type("audio/mp3"), Some(AttachmentType::Audio));
    assert_eq!(AttachmentType::from_mime_type("audio/wav"), Some(AttachmentType::Audio));
    assert_eq!(AttachmentType::from_mime_type("video/mp4"), Some(AttachmentType::Video));
    assert_eq!(AttachmentType::from_mime_type("application/pdf"), Some(AttachmentType::Document));
    assert_eq!(
        AttachmentType::from_mime_type("application/vnd.openxmlformats-officedocument.wordprocessingml.document"),
        Some(AttachmentType::Document)
    );
    assert_eq!(AttachmentType::from_mime_type("text/plain"), Some(AttachmentType::Document));
    assert_eq!(AttachmentType::from_mime_type("application/octet-stream"), None);
}

#[test]
fn test_attachment_type_to_modality() {
    assert_eq!(AttachmentType::Image.to_modality(), Modality::Image);
    assert_eq!(AttachmentType::Audio.to_modality(), Modality::Audio);
    assert_eq!(AttachmentType::Video.to_modality(), Modality::Video);
    assert_eq!(AttachmentType::Document.to_modality(), Modality::Document);
}

#[test]
fn test_modality_default() {
    let modality: Modality = Default::default();
    assert_eq!(modality, Modality::Text);
}

#[test]
fn attachment_type_ignores_case() {
    assert_eq!(AttachmentType::from_mime_type("IMAGE/PNG"), Some(AttachmentType::Image));
}

#[test]
fn test_estimate_tokens() {
    assert_eq!(estimate_tokens("hello world"), 3);
    assert_eq!(estimate_tokens(""), 0);
    assert_eq!(estimate_tokens("a"), 1);
}

#[test]
fn estimate_tokens_counts_bytes() {
    assert_eq!(estimate_tokens("abcd"), 1);
    assert_eq!(estimate_tokens("abcde"), 2);
    assert_eq!(estimate_tokens("日本"), 2);
}

fn t(secs: i64) -> UtcTime {
    UtcTime { secs, nanos: 0 }
}

fn fact(text: &str, superseded: bool) -> FactSummary {
    FactSummary {
        id: 1,
        source_entity: "Kendra".into(),
        target_entity: "Nike shoes".into(),
        label: "prefers".into(),
        fact: text.into(),
        classification: Classification::Internal,
        valid_at: t(1_700_000_000),
        invalid_at: if superseded { Some(t(1_700_000_100)) } else { None },
        relevance: 92,
        access_count: 0,
        last_accessed_at: None,
        temporal_scope: None,
    }
}

#[test]
fn context_block_assembly() {
    let mut block = ContextBlock::empty();
    block.entities.push(EntitySummary {
        id: 1,
        name: "Kendra".into(),
        entity_type: "person".into(),
        classification: Classification::Internal,
        summary: Some("A customer who likes athletic shoes".into()),
        relevance: 95,
    });
    block.facts.push(fact("Kendra now prefers Nike shoes after switching from Adidas", false));
    block.facts.push(fact("Kendra liked Adidas", true));
    block.episodes.push(EpisodeSummary {
        id: 2,
        session_id: 3,
        role: None,
        preview: "hi".into(),
        created_at: t(1_700_000_000),
        relevance: 50,
    });
    block.assemble(500);
    assert_eq!(
        block.context,
        "Known entities:\n- Kendra (person): A customer who likes athletic shoes\n\n\
         Current facts:\n- Kendra now prefers Nike shoes after switching from Adidas\n- Kendra liked Adidas [superseded]\n\n\
         Relevant conversation history:\n- [2023-11-14] unknown: hi\n"
    );
    assert_eq!(block.token_count, estimate_tokens(&block.context));
}

#[test]
fn context_block_respects_token_budget() {
    let mut block = ContextBlock::empty();
    for i in 0..100 {
        block.facts.push(fact(&format!("Entity{} has a very long and detailed relationship with Target{} that includes many specific details about their interaction history", i, i), false));
    }
    block.assemble(50);
    assert!(block.token_count <= 60);
    let mut empty = ContextBlock::empty();
    empty.assemble(500);
    assert!(empty.context.is_empty());
    assert_eq!(empty.token_count, 0);
    let mut tiny = ContextBlock::empty();
    tiny.facts.push(fact("short", false));
    tiny.assemble(3);
    assert!(tiny.context.is_empty());
}

#[test]
fn test_entity_type_flexible_parsing() {
    assert_eq!(EntityType::from_str_flexible("person"), EntityType::Person);
    assert_eq!(EntityType::from_str_flexible("company"), EntityType::Organization);
    assert_eq!(EntityType::from_str_flexible("org"), EntityType::Organization);
    assert_eq!(EntityType::from_str_flexible("place"), EntityType::Location);
    assert_eq!(EntityType::from_str_flexible("medication"), EntityType::Custom("medication".to_string()));
    assert_eq!(EntityType::from_str_flexible("TOPIC").as_str(), "concept");
}

#[test]
fn test_retrieval_goal_name() {
    let goal = RetrievalGoal::Named("resolve_ticket".into());
    assert_eq!(goal.name(), "resolve_ticket");
}

#[test]
fn test_refresh_request_defaults() {
    let req = RefreshNarrativeRequest::default();
    assert!(!req.full_rebuild);
    assert_eq!(req.max_chapters, 20);
}

fn episode(content: &str, role: Option<MessageRole>) -> Episode {
    Episode {
        id: 1,
        session_id: 2,
        user_id: 3,
        episode_type: EpisodeType::Message,
        content: content.into(),
        role,
        name: None,
        metadata: serde_json::Value::Null,
        created_at: t(0),
        ingested_at: t(0),
        processing_status: ProcessingStatus::Pending,
        processing_error: None,
        entity_ids: vec![],
        edge_ids: vec![],
        retry_count: 0,
    }
}

#[test]
fn episode_should_process_and_retry_backoff() {
    assert!(episode("hello", Some(MessageRole::User)).should_process());
    assert!(!episode("   ", Some(MessageRole::User)).should_process());
    assert!(!episode("hello", Some(MessageRole::System)).should_process());
    let mut e = episode("hello", None);
    assert_eq!(e.requeue_for_retry("boom".into(), 3), Some(500));
    assert_eq!(e.requeue_for_retry("boom".into(), 3), Some(1000));
    assert_eq!(e.requeue_for_retry("boom".into(), 3), Some(2000));
    assert_eq!(e.processing_status, ProcessingStatus::Pending);
    assert_eq!(e.requeue_for_retry("final".into(), 3), None);
    assert_eq!(e.processing_status, ProcessingStatus::Failed);
    assert_eq!(e.processing_error.as_deref(), Some("final"));
    assert_eq!(e.retry_count, 3);
}

#[test]
fn entity_type_labels_parse_back() {
    for t in [EntityType::Person, EntityType::Organization, EntityType::Product, EntityType::Location, EntityType::Event, EntityType::Concept] {
        assert_eq!(EntityType::from_str_flexible(t.as_str()), t);
    }
    assert_eq!(EntityType::from_str_flexible("Medication"), EntityType::Custom("medication".to_string()));
}
