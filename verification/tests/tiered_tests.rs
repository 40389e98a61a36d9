use mnemo_core::models::classification::Classification;
use mnemo_core::models::context::{ContextBlock, EntitySummary, FactSummary};
use mnemo_core::models::tiered::{first_sentence, sentence_cut_fits, FactCompressor, TierPlan};
use mnemo_core::score::score_key;
use mnemo_core::time::UtcTime;

fn key(x: f32) -> u32 {
    score_key(x.to_bits())
}

fn fact(id: u128, text: &str, relevance: f32, label: &str, target: &str) -> FactSummary {
    FactSummary {
        id,
        source_entity: "Kendra".into(),
        target_entity: target.into(),
        label: label.into(),
        fact: text.into(),
        classification: Classification::Internal,
        valid_at: UtcTime { secs: 1_704_067_200, nanos: 0 },
        invalid_at: None,
        relevance: key(relevance),
        access_count: 0,
        last_accessed_at: None,
        temporal_scope: None,
    }
}

fn sample_block() -> ContextBlock {
    let mut block = ContextBlock::empty();
    // Deliberately out of relevance order.
    block.facts = vec![
        fact(3, "Kendra works at Acme.", 0.1, "works_at", "Acme"),
        fact(1, "Kendra prefers Nike running shoes for marathons.", 0.9, "prefers", "Nike"),
        fact(2, "Kendra moved to Boston in 2023. She likes the city a lot.", 0.3, "lives_in", "Boston"),
    ];
    block.entities = vec![EntitySummary {
        id: 7,
        name: "Kendra".into(),
        entity_type: "person".into(),
        classification: Classification::Internal,
        summary: None,
        relevance: key(0.9),
    }];
    block
}

fn plan(b1: u32, b2: u32) -> TierPlan {
    TierPlan { tier1_budget: b1, tier2_budget: b2, tier1_threshold: key(0.36), tier2_threshold: key(0.135) }
}

struct Tagging;

struct Recording {
    asked: Vec<(String, u32)>,
    reply: String,
}

impl FactCompressor for Recording {
    fn compress(&mut self, fact: &str, available: u32) -> String {
        self.asked.push((fact.to_string(), available));
        self.reply.clone()
    }
}

impl FactCompressor for Tagging {
    fn compress(&mut self, _fact: &str, available: u32) -> String {
        format!("SUM({})", available)
    }
}

#[test]
fn first_sentence_cases() {
    assert_eq!(first_sentence("Hello world. Second.", 100), "Hello world.");
    assert_eq!(first_sentence("abcdefghij", 2), "abcdefgh\u{2026}");
    assert_eq!(first_sentence("No terminator here", 100), "No terminator here");
    assert_eq!(first_sentence("Really? Yes!", 100), "Really?");
    assert_eq!(first_sentence("", 3), "");
}

#[test]
fn sentence_cut_fits_on_character_boundaries() {
    assert!(sentence_cut_fits("abcdefghij", 2));
    assert!(sentence_cut_fits("\u{e9}\u{e9}\u{e9}\u{e9}\u{e9}.", 1));
    assert!(!sentence_cut_fits("a\u{e9}\u{e9}\u{e9}\u{e9}.", 1));
    assert!(sentence_cut_fits("a\u{e9}. \u{e9}\u{e9}\u{e9}\u{e9}", 1));
    assert_eq!(first_sentence("\u{e9}\u{e9}\u{e9}\u{e9}\u{e9}.", 1), "\u{e9}\u{e9}\u{2026}");
}

#[test]
fn assemble_tiered_three_bands() {
    let mut block = sample_block();
    block.assemble_tiered(100, &plan(60, 25));
    assert_eq!(
        block.context,
        "Key facts:\n- Kendra prefers Nike running shoes for marathons.\n\nAdditional context:\n- Kendra moved to Boston in 2023.\n\nAlso relevant:\n- Kendra works_at Acme (Jan 2024)\n\nKnown entities:\n- Kendra (person)\n"
    );
    assert_eq!(block.token_count, 51);
    assert_eq!(block.facts.len(), 3);
}

#[test]
fn assemble_tiered_with_compressor() {
    let mut block = sample_block();
    block.assemble_tiered_with(100, &plan(60, 25), &mut Tagging);
    assert_eq!(
        block.context,
        "Key facts:\n- Kendra prefers Nike running shoes for marathons.\n\nAdditional context:\n- SUM(64)\n\nAlso relevant:\n- Kendra works_at Acme (Jan 2024)\n\nKnown entities:\n- Kendra (person)\n"
    );
    assert_eq!(block.token_count, 45);
}

#[test]
fn assemble_tiered_tight_budget_keeps_headers() {
    let mut block = sample_block();
    block.assemble_tiered(12, &plan(8, 2));
    assert_eq!(block.context, "Key facts:\n\nAdditional context:\n\nKnown entities:\n");
    assert_eq!(block.token_count, 13);
}

#[test]
fn assemble_tiered_empty_block() {
    let mut block = ContextBlock::empty();
    block.assemble_tiered(100, &plan(60, 25));
    assert_eq!(block.context, "");
    assert_eq!(block.token_count, 0);
}

#[test]
fn assemble_tiered_with_hands_each_band_fact_and_remaining_budget() {
    let mut block = sample_block();
    let mut rec = Recording { asked: Vec::new(), reply: "short.".to_string() };
    block.assemble_tiered_with(100, &plan(60, 25), &mut rec);
    assert_eq!(rec.asked, vec![("Kendra moved to Boston in 2023. She likes the city a lot.".to_string(), 64)]);
    assert!(block.context.contains("Additional context:\n- short.\n"));
}

#[test]
fn assemble_tiered_with_stops_asking_when_a_line_does_not_fit() {
    let mut block = sample_block();
    block.facts.push(fact(4, "Kendra runs every morning.", 0.25, "does", "running"));
    let mut rec = Recording { asked: Vec::new(), reply: "x".repeat(400) };
    block.assemble_tiered_with(100, &plan(60, 25), &mut rec);
    assert_eq!(rec.asked.len(), 1);
    assert_eq!(rec.asked[0].1, 64);
    assert!(block.context.contains("Additional context:\n\n"));
}

#[test]
fn tiered_fallback_fits_checks_the_second_band_cuts() {
    let block = sample_block();
    assert!(block.tiered_fallback_fits(&plan(60, 25)));
    let mut wide = ContextBlock::empty();
    wide.facts = vec![
        fact(1, "Kendra prefers Nike running shoes for marathons.", 0.9, "prefers", "Nike"),
        fact(2, &format!("a{}.", "\u{e9}".repeat(30)), 0.3, "says", "x"),
    ];
    assert!(wide.tiered_fallback_fits(&plan(60, 25)));
    assert!(!wide.tiered_fallback_fits(&plan(12, 7)));
}
