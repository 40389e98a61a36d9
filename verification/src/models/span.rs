//! Records of calls to language models.

use vstd::prelude::*;
use crate::time::UtcTime;

verus! {

/// One call to a language model: who asked, what it cost, how it went.
#[derive(Clone, Debug)]
pub struct LlmSpan {
    pub id: u128,
    pub request_id: Option<String>,
    pub user_id: Option<u128>,
    pub provider: String,
    pub model: String,
    pub operation: String,
    pub prompt_tokens: u32,
    pub completion_tokens: u32,
    pub total_tokens: u32,
    pub latency_ms: u64,
    pub success: bool,
    pub error: Option<String>,
    pub started_at: UtcTime,
    pub finished_at: UtcTime,
}

} // verus!
