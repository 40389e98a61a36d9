//! Conversation sessions: groups of episodes with counts, a head pointer
//! and a progressive summary.

use vstd::prelude::*;
use crate::fresh::fresh_uuid_v7;
use crate::time::UtcTime;

verus! {

/// A conversation.
#[derive(Debug)]
pub struct Session {
    pub id: u128,
    pub user_id: u128,
    pub name: Option<String>,
    pub metadata: serde_json::Value,
    /// Episodes recorded in it.
    pub episode_count: u64,
    /// Progressive summary of older episodes.
    pub summary: Option<String>,
    pub summary_tokens: u32,
    /// The latest episode.
    pub head_episode_id: Option<u128>,
    /// Event time of the latest episode.
    pub head_updated_at: Option<UtcTime>,
    /// Grows by one per recorded episode.
    pub head_version: u64,
    pub created_at: UtcTime,
    pub updated_at: UtcTime,
    pub last_activity_at: Option<UtcTime>,
}

/// Request to create a session.
#[derive(Debug)]
pub struct CreateSessionRequest {
    pub id: Option<u128>,
    pub user_id: u128,
    pub name: Option<String>,
    pub metadata: serde_json::Value,
}

/// Partial update of a session.
#[derive(Debug)]
pub struct UpdateSessionRequest {
    pub name: Option<String>,
    pub metadata: Option<serde_json::Value>,
    pub summary: Option<String>,
    pub summary_tokens: Option<u32>,
}

impl Default for UpdateSessionRequest {
    /// An update that changes nothing.
    fn default() -> (r: UpdateSessionRequest)
        ensures
            r.name is None,
            r.metadata is None,
            r.summary is None,
            r.summary_tokens is None,
    {
        UpdateSessionRequest { name: None, metadata: None, summary: None, summary_tokens: None }
    }
}

/// Paging of a session listing.
#[derive(Clone, Copy, Debug)]
pub struct ListSessionsParams {
    pub limit: u32,
    pub after: Option<u128>,
    pub since: Option<UtcTime>,
}

/// The number of sessions listed when the request has no limit.
pub fn default_limit() -> (r: u32)
    ensures
        r == 20,
{
    20
}

impl Session {
    /// A new, empty session from a request: its id or `fresh_id`, made at
    /// `now`.
    pub fn from_request_with(req: CreateSessionRequest, fresh_id: u128, now: UtcTime) -> (r: Session)
        ensures
            r.id == (match req.id {
                Some(i) => i,
                None => fresh_id,
            }),
            r.user_id == req.user_id,
            r.name == req.name,
            r.metadata == req.metadata,
            r.episode_count == 0,
            r.summary is None,
            r.summary_tokens == 0,
            r.head_episode_id is None,
            r.head_updated_at is None,
            r.head_version == 0,
            r.created_at == now,
            r.updated_at == now,
            r.last_activity_at is None,
    {
        Session {
            id: match req.id {
                Some(i) => i,
                None => fresh_id,
            },
            user_id: req.user_id,
            name: req.name,
            metadata: req.metadata,
            episode_count: 0,
            summary: None,
            summary_tokens: 0,
            head_episode_id: None,
            head_updated_at: None,
            head_version: 0,
            created_at: now,
            updated_at: now,
            last_activity_at: None,
        }
    }

    /// A new, empty session from a request, with a fresh UUIDv7 where it
    /// has no id, made now.
    pub fn from_request(req: CreateSessionRequest) -> (r: Session)
        ensures
            req.id matches Some(i) ==> r.id == i,
            r.user_id == req.user_id,
            r.name == req.name,
            r.metadata == req.metadata,
            r.episode_count == 0,
            r.summary is None,
            r.summary_tokens == 0,
            r.head_episode_id is None,
            r.head_updated_at is None,
            r.head_version == 0,
            r.created_at == r.updated_at,
            r.last_activity_at is None,
    {
        let fresh = match req.id {
            Some(i) => i,
            None => fresh_uuid_v7(),
        };
        Session::from_request_with(req, fresh, crate::time::now())
    }

    /// The session with the update's fields replacing its own, updated at
    /// `now`.
    pub fn apply_update_at(self, update: UpdateSessionRequest, now: UtcTime) -> (r: Session)
        ensures
            r.id == self.id,
            r.user_id == self.user_id,
            r.name == (match update.name {
                Some(n) => Some(n),
                None => self.name,
            }),
            r.metadata == (match update.metadata {
                Some(m) => m,
                None => self.metadata,
            }),
            r.summary == (match update.summary {
                Some(s) => Some(s),
                None => self.summary,
            }),
            r.summary_tokens == (match update.summary_tokens {
                Some(t) => t,
                None => self.summary_tokens,
            }),
            r.episode_count == self.episode_count,
            r.head_episode_id == self.head_episode_id,
            r.head_version == self.head_version,
            r.created_at == self.created_at,
            r.updated_at == now,
    {
        let mut s = self;
        match update.name {
            Some(n) => s.name = Some(n),
            None => {},
        }
        match update.metadata {
            Some(m) => s.metadata = m,
            None => {},
        }
        match update.summary {
            Some(x) => s.summary = Some(x),
            None => {},
        }
        match update.summary_tokens {
            Some(t) => s.summary_tokens = t,
            None => {},
        }
        s.updated_at = now;
        s
    }

    /// The session with the update applied, updated now.
    pub fn apply_update(self, update: UpdateSessionRequest) -> (r: Session)
        ensures
            r.id == self.id,
            r.user_id == self.user_id,
            r.name == (match update.name {
                Some(n) => Some(n),
                None => self.name,
            }),
            r.metadata == (match update.metadata {
                Some(m) => m,
                None => self.metadata,
            }),
            r.summary == (match update.summary {
                Some(s) => Some(s),
                None => self.summary,
            }),
            r.summary_tokens == (match update.summary_tokens {
                Some(t) => t,
                None => self.summary_tokens,
            }),
            r.episode_count == self.episode_count,
            r.head_episode_id == self.head_episode_id,
            r.head_version == self.head_version,
            r.created_at == self.created_at,
    {
        self.apply_update_at(update, crate::time::now())
    }

    /// Record an episode at `now`: one more episode, the head moves to it,
    /// and its event time becomes the head time.
    pub fn record_episode_at(&mut self, episode_id: u128, event_time: UtcTime, now: UtcTime)
        requires
            old(self).episode_count < u64::MAX,
            old(self).head_version < u64::MAX,
        ensures
            final(self).episode_count == old(self).episode_count + 1,
            final(self).last_activity_at == Some(now),
            final(self).head_episode_id == Some(episode_id),
            final(self).head_updated_at == Some(event_time),
            final(self).head_version == old(self).head_version + 1,
            final(self).updated_at == now,
            final(self).id == old(self).id,
            final(self).user_id == old(self).user_id,
            final(self).summary == old(self).summary,
    {
        self.episode_count = self.episode_count + 1;
        self.last_activity_at = Some(now);
        self.head_episode_id = Some(episode_id);
        self.head_updated_at = Some(event_time);
        self.head_version = self.head_version + 1;
        self.updated_at = now;
    }

    /// Record an episode now.
    pub fn record_episode(&mut self, episode_id: u128, event_time: UtcTime)
        requires
            old(self).episode_count < u64::MAX,
            old(self).head_version < u64::MAX,
        ensures
            final(self).episode_count == old(self).episode_count + 1,
            final(self).last_activity_at is Some,
            final(self).head_episode_id == Some(episode_id),
            final(self).head_updated_at == Some(event_time),
            final(self).head_version == old(self).head_version + 1,
            final(self).id == old(self).id,
            final(self).user_id == old(self).user_id,
            final(self).summary == old(self).summary,
    {
        self.episode_count = self.episode_count + 1;
        self.last_activity_at = Some(crate::time::now());
        self.head_episode_id = Some(episode_id);
        self.head_updated_at = Some(event_time);
        self.head_version = self.head_version + 1;
        self.updated_at = crate::time::now();
    }
}

} // verus!
