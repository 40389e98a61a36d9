//! Configuration of an embedding provider.

use vstd::prelude::*;
use crate::models::entity::ExtractedEntity;
use crate::models::edge::ExtractedRelationship;

verus! {

/// Configuration for an embedding provider.
#[derive(Clone, Debug)]
pub struct EmbeddingConfig {
    /// Provider: "openai", "voyage", "cohere", "ollama", "fastembed".
    pub provider: String,
    pub api_key: Option<String>,
    pub model: String,
    pub base_url: Option<String>,
    /// Dimensionality of the embeddings the model produces.
    pub dimensions: u32,
}

/// Configuration of a language-model provider.  The temperature is a score
/// order key.
#[derive(Clone, Debug)]
pub struct LlmConfig {
    /// Provider: `anthropic`, `openai`, `ollama`, `liquid`.
    pub provider: String,
    pub api_key: Option<String>,
    pub model: String,
    pub base_url: Option<String>,
    pub temperature: u32,
    pub max_tokens: u32,
}

/// Token limit of a configuration that sets none.
pub fn default_max_tokens() -> (r: u32)
    ensures
        r == 2048,
{
    2048
}

/// What extraction found in an episode.
#[derive(Clone, Debug)]
pub struct ExtractionResult {
    pub entities: Vec<ExtractedEntity>,
    pub relationships: Vec<ExtractedRelationship>,
}

} // verus!
