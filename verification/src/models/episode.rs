//! Episodes, the unit of ingestion, and the state machine that carries them
//! through asynchronous processing with bounded, exponentially spaced
//! retries.

use vstd::prelude::*;
use crate::fresh::fresh_uuid_v7;
use crate::text::{trim, trimmed, byte_len, lemma_encode_utf8_len, lemma_utf8_len_ge};
use crate::time::UtcTime;

verus! {

/// A JSON document carried through unchanged (`serde_json::Value`).
#[verifier::external_type_specification]
#[verifier::external_body]
pub struct ExJsonValue(serde_json::Value);

/// The type of an episode, which decides how it is processed.
#[derive(Clone, Copy, PartialEq, Eq, Debug, Structural)]
pub enum EpisodeType {
    /// A chat message with role and optional speaker name.
    Message,
    /// Structured JSON data.
    Json,
    /// Unstructured text.
    Text,
}

/// The role of a message episode sender.
#[derive(Clone, Copy, PartialEq, Eq, Debug, Structural)]
pub enum MessageRole {
    User,
    Assistant,
    System,
    Tool,
}

/// Processing state of an episode in the ingestion pipeline.
#[derive(Clone, Copy, PartialEq, Eq, Debug, Structural)]
pub enum ProcessingStatus {
    /// Stored, awaiting processing.
    Pending,
    /// Being processed.
    Processing,
    /// Entities and edges were extracted.
    Completed,
    /// Processing failed; see the error.
    Failed,
    /// Skipped, e.g. system messages or empty content.
    Skipped,
}

/// An episode: one piece of ingested content with its processing state.
/// Identifiers are UUIDs held as their 128-bit value.
#[derive(Debug)]
pub struct Episode {
    pub id: u128,
    pub session_id: u128,
    pub user_id: u128,
    pub episode_type: EpisodeType,
    pub content: String,
    pub role: Option<MessageRole>,
    pub name: Option<String>,
    pub metadata: serde_json::Value,
    pub created_at: UtcTime,
    pub ingested_at: UtcTime,
    pub processing_status: ProcessingStatus,
    pub processing_error: Option<String>,
    pub entity_ids: Vec<u128>,
    pub edge_ids: Vec<u128>,
    pub retry_count: u32,
}

/// `2^n`.
pub open spec fn pow2(n: nat) -> nat
    decreases n,
{
    if n == 0 {
        1
    } else {
        2 * pow2((n - 1) as nat)
    }
}

/// Backoff before the `n`-th retry (counting from 1): 500 ms doubled for
/// each earlier retry.
pub open spec fn backoff_ms(n: nat) -> nat {
    500 * pow2((n - 1) as nat)
}

/// The delay of the next retry fits in a `u64` whenever a retry happens.
pub open spec fn retry_fits(retry_count: u32, max_retries: u32) -> bool {
    retry_count < max_retries ==> backoff_ms(retry_count as nat + 1) <= u64::MAX
}

impl Episode {
    /// An episode is processed unless its content is blank or it is a system
    /// message.
    pub fn should_process(&self) -> (r: bool)
        ensures
            r == (trim(self.content@).len() > 0 && self.role != Some(MessageRole::System)),
    {
        let t = trimmed(self.content.as_str());
        proof {
            lemma_encode_utf8_len(t@);
            lemma_utf8_len_ge(t@);
        }
        if byte_len(t.as_str()) == 0 {
            return false;
        }
        match self.role {
            Some(MessageRole::System) => false,
            _ => true,
        }
    }

    pub fn mark_processing(&mut self)
        ensures
            final(self).processing_status == ProcessingStatus::Processing,
            final(self).content == old(self).content,
            final(self).retry_count == old(self).retry_count,
            final(self).processing_error == old(self).processing_error,
    {
        self.processing_status = ProcessingStatus::Processing;
    }

    /// Mark as processed with the extracted entity and edge identifiers.
    pub fn mark_completed(&mut self, entity_ids: Vec<u128>, edge_ids: Vec<u128>)
        ensures
            final(self).processing_status == ProcessingStatus::Completed,
            final(self).entity_ids@ == entity_ids@,
            final(self).edge_ids@ == edge_ids@,
            final(self).processing_error is None,
            final(self).retry_count == old(self).retry_count,
    {
        self.processing_status = ProcessingStatus::Completed;
        self.entity_ids = entity_ids;
        self.edge_ids = edge_ids;
        self.processing_error = None;
    }

    pub fn mark_failed(&mut self, error: String)
        ensures
            final(self).processing_status == ProcessingStatus::Failed,
            final(self).processing_error == Some(error),
            final(self).retry_count == old(self).retry_count,
            final(self).entity_ids == old(self).entity_ids,
    {
        self.processing_status = ProcessingStatus::Failed;
        self.processing_error = Some(error);
    }

    pub fn mark_skipped(&mut self)
        ensures
            final(self).processing_status == ProcessingStatus::Skipped,
            final(self).retry_count == old(self).retry_count,
            final(self).processing_error == old(self).processing_error,
    {
        self.processing_status = ProcessingStatus::Skipped;
    }

    /// Prepare for a retry after a transient failure.  Once `max_retries`
    /// retries were made the episode fails for good and `None` is returned;
    /// otherwise it goes back to `Pending` with one more retry counted and the
    /// backoff delay (500 ms, 1 s, 2 s, ...) is returned.
    pub fn requeue_for_retry(&mut self, error: String, max_retries: u32) -> (r: Option<u64>)
        requires
            retry_fits(old(self).retry_count, max_retries),
        ensures
            old(self).retry_count >= max_retries ==> {
                &&& r is None
                &&& final(self).processing_status == ProcessingStatus::Failed
                &&& final(self).processing_error == Some(error)
                &&& final(self).retry_count == old(self).retry_count
            },
            old(self).retry_count < max_retries ==> {
                &&& r == Some(backoff_ms(old(self).retry_count as nat + 1) as u64)
                &&& final(self).processing_status == ProcessingStatus::Pending
                &&& final(self).processing_error == Some(error)
                &&& final(self).retry_count == old(self).retry_count + 1
            },
    {
        if self.retry_count >= max_retries {
            self.mark_failed(error);
            return None;
        }
        self.retry_count = self.retry_count + 1;
        self.processing_status = ProcessingStatus::Pending;
        self.processing_error = Some(error);
        let n = self.retry_count - 1;
        let mut p: u64 = 1;
        let mut i: u32 = 0;
        proof {
            lemma_pow2_bound(n as nat);
        }
        while i < n
            invariant
                i <= n,
                p == pow2(i as nat),
                500 * pow2(n as nat) <= u64::MAX,
            decreases n - i,
        {
            proof {
                lemma_pow2_monotone((i + 1) as nat, n as nat);
            }
            p = p * 2;
            i = i + 1;
        }
        Some(500 * p)
    }
}

proof fn lemma_pow2_bound(n: nat)
    ensures
        pow2(n) >= 1,
    decreases n,
{
    if n > 0 {
        lemma_pow2_bound((n - 1) as nat);
    }
}

proof fn lemma_pow2_monotone(a: nat, b: nat)
    requires
        a <= b,
    ensures
        pow2(a) <= pow2(b),
    decreases b,
{
    if a < b {
        lemma_pow2_monotone(a, (b - 1) as nat);
        lemma_pow2_bound((b - 1) as nat);
    }
}

/// Request to ingest an episode.
#[derive(Debug)]
pub struct CreateEpisodeRequest {
    pub id: Option<u128>,
    pub episode_type: EpisodeType,
    pub content: String,
    pub role: Option<MessageRole>,
    pub name: Option<String>,
    pub metadata: serde_json::Value,
    /// Backdated event time; the ingestion time when absent.
    pub created_at: Option<UtcTime>,
}

/// Several episodes at once.
#[derive(Debug)]
pub struct BatchCreateEpisodesRequest {
    pub episodes: Vec<CreateEpisodeRequest>,
}

/// Listing of episodes.
#[derive(Clone, Copy, Debug)]
pub struct ListEpisodesParams {
    pub limit: u32,
    pub after: Option<u128>,
    pub status: Option<ProcessingStatus>,
}

/// The number of episodes listed when the request has no limit.
pub fn default_limit() -> (r: u32)
    ensures
        r == 50,
{
    50
}

impl Episode {
    /// A pending episode of a session from a request: its id or
    /// `fresh_id`, its event time or `now`, ingested at `now`.
    pub fn from_request_with(req: CreateEpisodeRequest, session_id: u128, user_id: u128, fresh_id: u128, now: UtcTime) -> (r: Episode)
        ensures
            r.id == (match req.id {
                Some(i) => i,
                None => fresh_id,
            }),
            r.session_id == session_id,
            r.user_id == user_id,
            r.episode_type == req.episode_type,
            r.content == req.content,
            r.role == req.role,
            r.name == req.name,
            r.metadata == req.metadata,
            r.created_at == (match req.created_at {
                Some(t) => t,
                None => now,
            }),
            r.ingested_at == now,
            r.processing_status == ProcessingStatus::Pending,
            r.processing_error is None,
            r.entity_ids@.len() == 0,
            r.edge_ids@.len() == 0,
            r.retry_count == 0,
    {
        Episode {
            id: match req.id {
                Some(i) => i,
                None => fresh_id,
            },
            session_id,
            user_id,
            episode_type: req.episode_type,
            content: req.content,
            role: req.role,
            name: req.name,
            metadata: req.metadata,
            created_at: match req.created_at {
                Some(t) => t,
                None => now,
            },
            ingested_at: now,
            processing_status: ProcessingStatus::Pending,
            processing_error: None,
            entity_ids: Vec::new(),
            edge_ids: Vec::new(),
            retry_count: 0,
        }
    }

    /// A pending episode of a session from a request, with a fresh UUIDv7
    /// where it has no id, ingested now.
    pub fn from_request(req: CreateEpisodeRequest, session_id: u128, user_id: u128) -> (r: Episode)
        ensures
            req.id matches Some(i) ==> r.id == i,
            r.session_id == session_id,
            r.user_id == user_id,
            r.episode_type == req.episode_type,
            r.content == req.content,
            r.role == req.role,
            r.name == req.name,
            r.metadata == req.metadata,
            r.created_at == (match req.created_at {
                Some(t) => t,
                None => r.ingested_at,
            }),
            r.processing_status == ProcessingStatus::Pending,
            r.processing_error is None,
            r.entity_ids@.len() == 0,
            r.edge_ids@.len() == 0,
            r.retry_count == 0,
    {
        let fresh = match req.id {
            Some(i) => i,
            None => fresh_uuid_v7(),
        };
        Episode::from_request_with(req, session_id, user_id, fresh, crate::time::now())
    }
}

} // verus!
