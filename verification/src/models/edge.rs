//! Edges of the knowledge graph: typed facts between two entities with
//! bi-temporal validity ("when it was true" and "when we learned it"),
//! corroboration and invalidation.

use vstd::prelude::*;
use crate::fresh::{empty_json_object, fresh_uuid_v7};
use crate::models::classification::{Classification, classification_rank};
use crate::text::same_text;
use crate::time::{UtcTime, time_le, time_lt};

verus! {

/// How a fact behaves over time.
#[derive(Clone, Copy, PartialEq, Eq, Debug, Structural)]
pub enum FactTemporalScope {
    /// Can be superseded by newer information.
    Mutable,
    /// Rarely changes; resists confidence decay.
    Stable,
    /// True until an expiry, if one is known.
    TimeBounded { expires_at: Option<UtcTime> },
}

/// The fact is current at `now`: always, unless it expires at or before
/// `now`.
pub open spec fn scope_current_at(s: FactTemporalScope, now: UtcTime) -> bool {
    match s {
        FactTemporalScope::TimeBounded { expires_at: Some(exp) } => time_lt(now, exp),
        _ => true,
    }
}

impl FactTemporalScope {
    /// The fact is still current at `now`.
    pub fn is_current_at(&self, now: UtcTime) -> (r: bool)
        ensures
            r == scope_current_at(*self, now),
    {
        match self {
            FactTemporalScope::Mutable => true,
            FactTemporalScope::Stable => true,
            FactTemporalScope::TimeBounded { expires_at } => match expires_at {
                Some(exp) => now.before(exp),
                None => true,
            },
        }
    }

    /// Stable facts resist confidence decay.
    pub fn resists_decay(&self) -> (r: bool)
        ensures
            r == (*self == FactTemporalScope::Stable),
    {
        match self {
            FactTemporalScope::Stable => true,
            _ => false,
        }
    }
}

/// A fact between two entities.  Confidence is a score order key.
#[derive(Debug)]
pub struct Edge {
    pub id: u128,
    pub user_id: u128,
    pub source_entity_id: u128,
    pub target_entity_id: u128,
    /// Relationship type, such as `works_at`.
    pub label: String,
    /// The fact in natural language.
    pub fact: String,
    /// When the fact became true.
    pub valid_at: UtcTime,
    /// When it stopped being true.
    pub invalid_at: Option<UtcTime>,
    /// When it was recorded.
    pub ingested_at: UtcTime,
    pub source_episode_id: u128,
    pub source_agent_id: Option<String>,
    pub invalidated_by_episode_id: Option<u128>,
    pub confidence: u32,
    /// How many episodes confirmed it.
    pub corroboration_count: u32,
    pub metadata: serde_json::Value,
    pub classification: Classification,
    pub created_at: UtcTime,
    pub updated_at: UtcTime,
    pub temporal_scope: Option<FactTemporalScope>,
    pub access_count: u32,
    pub last_accessed_at: Option<UtcTime>,
}

/// A relationship extracted from an episode.  Confidence is a score key.
#[derive(Clone, Debug)]
pub struct ExtractedRelationship {
    pub source_name: String,
    pub target_name: String,
    pub label: String,
    pub fact: String,
    pub confidence: u32,
    /// When it became true, if the text says.
    pub valid_at: Option<UtcTime>,
    pub classification: Classification,
    pub temporal_scope: Option<FactTemporalScope>,
}

/// A detected change of belief: one fact superseding another.
#[derive(Clone, Debug)]
pub struct BeliefChange {
    pub id: u128,
    pub user_id: u128,
    pub subject: String,
    pub predicate: String,
    pub old_value: String,
    pub new_value: String,
    pub old_edge_id: u128,
    pub new_edge_id: u128,
    pub detected_at: UtcTime,
    /// Superseded automatically, without review.
    pub auto_superseded: bool,
}

/// Query for belief changes.
#[derive(Clone, Copy, Debug)]
pub struct BeliefChangesQuery {
    pub limit: u32,
    pub since: Option<UtcTime>,
}

/// The number of belief changes returned when the query has no limit.
pub fn default_belief_limit() -> (r: u32)
    ensures
        r == 50,
{
    50
}

impl Default for BeliefChangesQuery {
    /// Fifty changes, from any time.
    fn default() -> (r: BeliefChangesQuery)
        ensures
            r.limit == 50,
            r.since is None,
    {
        BeliefChangesQuery { limit: default_belief_limit(), since: None }
    }
}

/// Which edges a query selects.
#[derive(Clone, Debug)]
pub struct EdgeFilter {
    pub source_entity_id: Option<u128>,
    pub target_entity_id: Option<u128>,
    pub label: Option<String>,
    /// Only edges valid at this time.
    pub valid_at_time: Option<UtcTime>,
    /// Also invalidated edges.
    pub include_invalidated: bool,
    /// Only edges at or below this classification.
    pub max_classification: Option<Classification>,
    pub limit: u32,
}

/// The number of edges returned when the filter has no limit.
pub fn default_limit() -> (r: u32)
    ensures
        r == 100,
{
    100
}

impl Default for EdgeFilter {
    /// No restriction, valid edges only, at most 100.
    fn default() -> (r: EdgeFilter)
        ensures
            r.source_entity_id is None,
            r.target_entity_id is None,
            r.label is None,
            r.valid_at_time is None,
            !r.include_invalidated,
            r.max_classification is None,
            r.limit == 100,
    {
        EdgeFilter {
            source_entity_id: None,
            target_entity_id: None,
            label: None,
            valid_at_time: None,
            include_invalidated: false,
            max_classification: None,
            limit: default_limit(),
        }
    }
}

/// The edge was true at `time`: it became valid at or before it and was
/// not invalidated at or before it.
pub open spec fn edge_valid_at(e: Edge, time: UtcTime) -> bool {
    !time_lt(time, e.valid_at) && match e.invalid_at {
        Some(inv) => time_lt(time, inv),
        None => true,
    }
}

/// The edge passes every criterion the filter sets.
pub open spec fn filter_selects(f: EdgeFilter, e: Edge) -> bool {
    &&& (f.source_entity_id matches Some(s) ==> e.source_entity_id == s)
    &&& (f.target_entity_id matches Some(t) ==> e.target_entity_id == t)
    &&& (f.label matches Some(l) ==> e.label@ == l@)
    &&& (f.valid_at_time matches Some(t) ==> edge_valid_at(e, t))
    &&& (f.include_invalidated || e.invalid_at is None)
    &&& (f.max_classification matches Some(m) ==> classification_rank(e.classification) <= classification_rank(m))
}

/// An edge selected for a query time `t` became valid at or before `t` and,
/// if it was invalidated, only after `t`.
pub proof fn lemma_selected_edges_valid_at_query_time(f: EdgeFilter, e: Edge)
    requires
        filter_selects(f, e),
        f.valid_at_time is Some,
    ensures
        ({
            let t = f.valid_at_time->Some_0;
            &&& (e.valid_at.secs < t.secs || (e.valid_at.secs == t.secs && e.valid_at.nanos <= t.nanos))
            &&& (e.invalid_at matches Some(x) ==> t.secs < x.secs || (t.secs == x.secs && t.nanos < x.nanos))
        }),
{
}

impl Edge {
    /// The edge of an extracted relationship, valid from the relationship's
    /// time or else `event_time`, corroborated once, with id `fresh_id`,
    /// recorded at `now`.
    pub fn from_extraction_with(
        rel: &ExtractedRelationship,
        user_id: u128,
        source_entity_id: u128,
        target_entity_id: u128,
        episode_id: u128,
        event_time: UtcTime,
        source_agent_id: Option<String>,
        fresh_id: u128,
        now: UtcTime,
    ) -> (r: Edge)
        ensures
            r.id == fresh_id,
            r.user_id == user_id,
            r.source_entity_id == source_entity_id,
            r.target_entity_id == target_entity_id,
            r.label == rel.label,
            r.fact == rel.fact,
            r.valid_at == (match rel.valid_at {
                Some(t) => t,
                None => event_time,
            }),
            r.invalid_at is None,
            r.ingested_at == now,
            r.source_episode_id == episode_id,
            r.source_agent_id == source_agent_id,
            r.invalidated_by_episode_id is None,
            r.confidence == rel.confidence,
            r.corroboration_count == 1,
            r.classification == rel.classification,
            r.created_at == now,
            r.updated_at == now,
            r.temporal_scope == rel.temporal_scope,
            r.access_count == 0,
            r.last_accessed_at is None,
    {
        Edge {
            id: fresh_id,
            user_id,
            source_entity_id,
            target_entity_id,
            label: rel.label.clone(),
            fact: rel.fact.clone(),
            valid_at: match rel.valid_at {
                Some(t) => t,
                None => event_time,
            },
            invalid_at: None,
            ingested_at: now,
            source_episode_id: episode_id,
            source_agent_id,
            invalidated_by_episode_id: None,
            confidence: rel.confidence,
            corroboration_count: 1,
            metadata: empty_json_object(),
            classification: rel.classification,
            created_at: now,
            updated_at: now,
            temporal_scope: rel.temporal_scope,
            access_count: 0,
            last_accessed_at: None,
        }
    }

    /// The edge of an extracted relationship, with a fresh UUIDv7, recorded
    /// now.
    pub fn from_extraction(
        rel: &ExtractedRelationship,
        user_id: u128,
        source_entity_id: u128,
        target_entity_id: u128,
        episode_id: u128,
        event_time: UtcTime,
        source_agent_id: Option<String>,
    ) -> (r: Edge)
        ensures
            r.user_id == user_id,
            r.source_entity_id == source_entity_id,
            r.target_entity_id == target_entity_id,
            r.label == rel.label,
            r.fact == rel.fact,
            r.valid_at == (match rel.valid_at {
                Some(t) => t,
                None => event_time,
            }),
            r.invalid_at is None,
            r.source_episode_id == episode_id,
            r.source_agent_id == source_agent_id,
            r.invalidated_by_episode_id is None,
            r.confidence == rel.confidence,
            r.corroboration_count == 1,
            r.classification == rel.classification,
            r.created_at == r.updated_at,
            r.ingested_at == r.created_at,
            r.temporal_scope == rel.temporal_scope,
            r.access_count == 0,
            r.last_accessed_at is None,
    {
        let id = fresh_uuid_v7();
        Edge::from_extraction_with(rel, user_id, source_entity_id, target_entity_id, episode_id, event_time, source_agent_id, id, crate::time::now())
    }

    /// Not invalidated.
    pub fn is_valid(&self) -> (r: bool)
        ensures
            r == (self.invalid_at is None),
    {
        self.invalid_at.is_none()
    }

    /// The fact was true at `time`.
    pub fn is_valid_at(&self, time: UtcTime) -> (r: bool)
        ensures
            r == edge_valid_at(*self, time),
    {
        if time.before(&self.valid_at) {
            return false;
        }
        match self.invalid_at {
            Some(invalid) => time.before(&invalid),
            None => true,
        }
    }

    /// Invalidate the fact at `now`, recording the episode that did it.
    pub fn invalidate_at(&mut self, invalidated_by: u128, now: UtcTime)
        ensures
            final(self).invalid_at == Some(now),
            final(self).invalidated_by_episode_id == Some(invalidated_by),
            final(self).updated_at == now,
            final(self).id == old(self).id,
            final(self).valid_at == old(self).valid_at,
            final(self).corroboration_count == old(self).corroboration_count,
            final(self).confidence == old(self).confidence,
    {
        self.invalid_at = Some(now);
        self.invalidated_by_episode_id = Some(invalidated_by);
        self.updated_at = now;
    }

    /// Invalidate the fact now, recording the episode that did it.
    pub fn invalidate(&mut self, invalidated_by: u128)
        ensures
            final(self).invalid_at is Some,
            final(self).invalid_at == Some(final(self).updated_at),
            final(self).invalidated_by_episode_id == Some(invalidated_by),
            final(self).id == old(self).id,
            final(self).valid_at == old(self).valid_at,
            final(self).corroboration_count == old(self).corroboration_count,
            final(self).confidence == old(self).confidence,
    {
        self.invalidate_at(invalidated_by, crate::time::now());
    }

    /// One more episode confirmed the fact, at `now`.
    pub fn corroborate_at(&mut self, now: UtcTime)
        requires
            old(self).corroboration_count < u32::MAX,
        ensures
            final(self).corroboration_count == old(self).corroboration_count + 1,
            final(self).updated_at == now,
            final(self).id == old(self).id,
            final(self).valid_at == old(self).valid_at,
            final(self).invalid_at == old(self).invalid_at,
            final(self).confidence == old(self).confidence,
    {
        self.corroboration_count = self.corroboration_count + 1;
        self.updated_at = now;
    }

    /// One more episode confirmed the fact.
    pub fn corroborate(&mut self)
        requires
            old(self).corroboration_count < u32::MAX,
        ensures
            final(self).corroboration_count == old(self).corroboration_count + 1,
            final(self).id == old(self).id,
            final(self).valid_at == old(self).valid_at,
            final(self).invalid_at == old(self).invalid_at,
            final(self).confidence == old(self).confidence,
    {
        self.corroborate_at(crate::time::now());
    }
}

/// Invalidation closes a fact and keeps its history: once an edge is
/// invalidated at `now` (as `invalidate_at` leaves it, with its `valid_at`
/// unchanged) it is valid at no time from `now` on, while at every earlier
/// time at which it was valid it still is, so that point-in-time queries
/// see the superseded fact.
pub proof fn lemma_invalidation_closes(before: Edge, after: Edge, now: UtcTime, t: UtcTime)
    requires
        after.invalid_at == Some(now),
        after.valid_at == before.valid_at,
    ensures
        time_le(now, t) ==> !edge_valid_at(after, t),
        time_lt(t, now) && edge_valid_at(before, t) ==> edge_valid_at(after, t),
        time_lt(t, now) ==> (edge_valid_at(after, t) <==> !time_lt(t, after.valid_at)),
{
}

/// Corroboration leaves validity alone: an edge with the same validity
/// window (as `corroborate_at` leaves it) is valid at exactly the same times.
pub proof fn lemma_corroboration_keeps_validity(before: Edge, after: Edge, t: UtcTime)
    requires
        after.valid_at == before.valid_at,
        after.invalid_at == before.invalid_at,
    ensures
        edge_valid_at(after, t) == edge_valid_at(before, t),
{
}

impl EdgeFilter {
    /// The edge passes the filter.
    pub fn matches(&self, edge: &Edge) -> (r: bool)
        ensures
            r == filter_selects(*self, *edge),
            r && self.valid_at_time is Some ==> {
                let t = self.valid_at_time->Some_0;
                &&& (edge.valid_at.secs < t.secs || (edge.valid_at.secs == t.secs && edge.valid_at.nanos <= t.nanos))
                &&& (edge.invalid_at matches Some(x) ==> t.secs < x.secs || (t.secs == x.secs && t.nanos < x.nanos))
            },
    {
        match self.source_entity_id {
            Some(src) => {
                if edge.source_entity_id != src {
                    return false;
                }
            },
            None => {},
        }
        match self.target_entity_id {
            Some(tgt) => {
                if edge.target_entity_id != tgt {
                    return false;
                }
            },
            None => {},
        }
        match &self.label {
            Some(label) => {
                if !same_text(edge.label.as_str(), label.as_str()) {
                    return false;
                }
            },
            None => {},
        }
        match self.valid_at_time {
            Some(time) => {
                if !edge.is_valid_at(time) {
                    return false;
                }
            },
            None => {},
        }
        if !self.include_invalidated && !edge.is_valid() {
            return false;
        }
        match self.max_classification {
            Some(max) => {
                if edge.classification.is_above(&max) {
                    return false;
                }
            },
            None => {},
        }
        true
    }
}

// ─── Decay and revalidation ────────────────────────────────────────

/// Days after which an edge's confidence halves by default.
pub const DEFAULT_EDGE_DECAY_HALF_LIFE_DAYS: u32 = 90;

/// Effective confidence below which a fact is due for revalidation by
/// default: the score key of `0.3` (bits `0x3E99_999A`).
pub const DEFAULT_REVALIDATION_THRESHOLD: u32 = 0xBE99_999A;

/// A fact whose effective confidence has decayed below the threshold.
/// Scores are order keys.
#[derive(Debug)]
pub struct StaleFact {
    pub edge: Edge,
    pub effective_confidence: u32,
    pub fisher_importance: u32,
    pub age_days: u64,
    /// A question that would confirm or refute the fact.
    pub suggested_question: Option<String>,
}

/// Request to reset a fact's confidence.
#[derive(Clone, Copy, Debug)]
pub struct RevalidateFactRequest {
    pub edge_id: u128,
    pub new_confidence: u32,
    pub evidence_episode_id: Option<u128>,
}

/// Outcome of a revalidation.
#[derive(Debug)]
pub struct RevalidateFactResult {
    pub edge: Edge,
    pub previous_confidence: u32,
    pub new_effective_confidence: u32,
}

/// Query for stale facts.
#[derive(Clone, Copy, Debug)]
pub struct StaleFactsQuery {
    /// Threshold, as a score key.
    pub threshold: u32,
    pub limit: u32,
    pub half_life_days: u32,
}

impl Default for StaleFactsQuery {
    /// Threshold 0.3, fifty facts, a half-life of 90 days.
    fn default() -> (r: StaleFactsQuery)
        ensures
            r.threshold == DEFAULT_REVALIDATION_THRESHOLD,
            r.limit == 50,
            r.half_life_days == DEFAULT_EDGE_DECAY_HALF_LIFE_DAYS,
    {
        StaleFactsQuery { threshold: DEFAULT_REVALIDATION_THRESHOLD, limit: 50, half_life_days: DEFAULT_EDGE_DECAY_HALF_LIFE_DAYS }
    }
}

} // verus!
