//! Agent identity profiles, experience events and promotion proposals: the
//! evidence an agent gathers, the changes it proposes to its identity, and
//! the text heuristic that finds evidence for and against a change.

use vstd::prelude::*;
use crate::fresh::{empty_json_object, fresh_uuid_v7};
use vstd::utf8::encode_utf8;
use crate::models::agent::{ApprovalPolicy, ApprovalRequirement, PromotionStatus, requirement_for};
use crate::score::HALF_SCORE_KEY;
use crate::text::{
    byte_len, contains_text, has_substring, lemma_encode_utf8_len, owned, split_words, to_lowercase,
    unicode_lowercase, utf8_len, words_of,
};
use crate::time::{UtcTime, clock_reading_ok, time_le};

verus! {

/// The compact JSON text serde_json writes for a value (`Value::to_string`),
/// a function of the value alone.
pub uninterp spec fn json_compact_text(v: serde_json::Value) -> Seq<char>;

/// The compact JSON text of a value (`Value::to_string`).
#[verifier::external_body]
fn json_text(v: &serde_json::Value) -> (r: String)
    ensures
        r@ == json_compact_text(*v),
{
    v.to_string()
}

// ─── Identity profile ──────────────────────────────────────────────

/// The identity of an agent: a free-form JSON core and its version.
#[derive(Debug)]
pub struct AgentIdentityProfile {
    pub agent_id: String,
    /// Starts at 1 and grows by one per update.
    pub version: u64,
    pub core: serde_json::Value,
    pub updated_at: UtcTime,
}

/// Request to replace an agent's identity core.
#[derive(Debug)]
pub struct UpdateAgentIdentityRequest {
    pub core: serde_json::Value,
}

impl AgentIdentityProfile {
    /// A new profile at version 1 with an empty core, made at `now`.
    pub fn new_at(agent_id: String, now: UtcTime) -> (r: AgentIdentityProfile)
        ensures
            r.agent_id == agent_id,
            r.version == 1,
            r.updated_at == now,
    {
        AgentIdentityProfile { agent_id, version: 1, core: empty_json_object(), updated_at: now }
    }

    /// A new profile at version 1 with an empty core.
    pub fn new(agent_id: String) -> (r: AgentIdentityProfile)
        ensures
            r.agent_id == agent_id,
            r.version == 1,
    {
        AgentIdentityProfile::new_at(agent_id, crate::time::now())
    }

    /// Replace the core at `now`; the version grows by one.
    pub fn apply_update_at(&mut self, req: UpdateAgentIdentityRequest, now: UtcTime)
        requires
            old(self).version < u64::MAX,
        ensures
            final(self).core == req.core,
            final(self).version == old(self).version + 1,
            final(self).agent_id == old(self).agent_id,
            final(self).updated_at == now,
    {
        self.core = req.core;
        self.version = self.version + 1;
        self.updated_at = now;
    }

    /// Replace the core; the version grows by one.
    pub fn apply_update(&mut self, req: UpdateAgentIdentityRequest)
        requires
            old(self).version < u64::MAX,
        ensures
            final(self).core == req.core,
            final(self).version == old(self).version + 1,
            final(self).agent_id == old(self).agent_id,
    {
        self.apply_update_at(req, crate::time::now());
    }
}

// ─── Experience events ─────────────────────────────────────────────

/// An observed experience signal.  Confidence, weight and Fisher importance
/// are score order keys.
#[derive(Clone, Debug)]
pub struct ExperienceEvent {
    pub id: u128,
    pub agent_id: String,
    pub user_id: Option<u128>,
    pub session_id: Option<u128>,
    pub category: String,
    pub signal: String,
    pub confidence: u32,
    pub weight: u32,
    /// Days after which the event's weight halves.
    pub decay_half_life_days: u32,
    pub evidence_episode_ids: Vec<u128>,
    pub fisher_importance: u32,
    pub created_at: UtcTime,
}

/// Request to record an experience event.
#[derive(Clone, Debug)]
pub struct CreateExperienceRequest {
    pub id: Option<u128>,
    pub user_id: Option<u128>,
    pub session_id: Option<u128>,
    pub category: String,
    pub signal: String,
    pub confidence: u32,
    pub weight: u32,
    pub decay_half_life_days: u32,
    pub evidence_episode_ids: Vec<u128>,
    /// Backdated time; now when absent.
    pub created_at: Option<UtcTime>,
}

/// The weight of an event when the request has none: the key of `0.5`.
pub fn default_weight() -> (r: u32)
    ensures
        r == HALF_SCORE_KEY,
{
    HALF_SCORE_KEY
}

/// The half-life of an event when the request has none: 30 days.
pub fn default_half_life() -> (r: u32)
    ensures
        r == 30,
{
    30
}

impl ExperienceEvent {
    /// The event of a request for an agent: the request's id, or `fresh_id`
    /// when it has none; its time, or `now`; a Fisher importance of zero.
    pub fn from_request_with(agent_id: &str, req: CreateExperienceRequest, fresh_id: u128, now: UtcTime) -> (r: ExperienceEvent)
        ensures
            r.id == (match req.id {
                Some(i) => i,
                None => fresh_id,
            }),
            r.agent_id@ == agent_id@,
            r.user_id == req.user_id,
            r.session_id == req.session_id,
            r.category == req.category,
            r.signal == req.signal,
            r.confidence == req.confidence,
            r.weight == req.weight,
            r.decay_half_life_days == req.decay_half_life_days,
            r.evidence_episode_ids == req.evidence_episode_ids,
            r.fisher_importance == crate::score::ZERO_SCORE_KEY,
            r.created_at == (match req.created_at {
                Some(t) => t,
                None => now,
            }),
    {
        ExperienceEvent {
            id: match req.id {
                Some(i) => i,
                None => fresh_id,
            },
            agent_id: owned(agent_id),
            user_id: req.user_id,
            session_id: req.session_id,
            category: req.category,
            signal: req.signal,
            confidence: req.confidence,
            weight: req.weight,
            decay_half_life_days: req.decay_half_life_days,
            evidence_episode_ids: req.evidence_episode_ids,
            fisher_importance: crate::score::ZERO_SCORE_KEY,
            created_at: match req.created_at {
                Some(t) => t,
                None => now,
            },
        }
    }

    /// The event of a request, with a fresh UUIDv7 and the current time
    /// where the request leaves them out.
    pub fn from_request(agent_id: &str, req: CreateExperienceRequest) -> (r: ExperienceEvent)
        ensures
            req.id matches Some(i) ==> r.id == i,
            req.created_at matches Some(t) ==> r.created_at == t,
            r.agent_id@ == agent_id@,
            r.user_id == req.user_id,
            r.session_id == req.session_id,
            r.category == req.category,
            r.signal == req.signal,
            r.confidence == req.confidence,
            r.weight == req.weight,
            r.decay_half_life_days == req.decay_half_life_days,
            r.evidence_episode_ids == req.evidence_episode_ids,
            r.fisher_importance == crate::score::ZERO_SCORE_KEY,
    {
        let fresh = match req.id {
            Some(i) => i,
            None => fresh_uuid_v7(),
        };
        let now = match req.created_at {
            Some(t) => t,
            None => crate::time::now(),
        };
        ExperienceEvent::from_request_with(agent_id, req, fresh, now)
    }
}

/// Which experience events carry over when an agent is forked.
#[derive(Clone, Debug)]
pub struct ExperienceFilter {
    /// Only these categories; all when empty.
    pub categories: Vec<String>,
    /// Minimum confidence, as a score key.
    pub min_confidence: Option<u32>,
    /// Minimum weight, as a score key.
    pub min_weight: Option<u32>,
    pub max_events: Option<u32>,
}

impl Default for ExperienceFilter {
    /// No restriction.
    fn default() -> (r: ExperienceFilter)
        ensures
            r.categories@.len() == 0,
            r.min_confidence is None,
            r.min_weight is None,
            r.max_events is None,
    {
        ExperienceFilter { categories: Vec::new(), min_confidence: None, min_weight: None, max_events: None }
    }
}

/// The event passes the filter: its category is listed (or none is), and
/// its confidence and weight reach the minimums.
pub open spec fn filter_admits(f: ExperienceFilter, e: ExperienceEvent) -> bool {
    &&& (f.categories@.len() == 0 || exists|i: int| 0 <= i < f.categories@.len() && #[trigger] f.categories@[i]@ == e.category@)
    &&& (f.min_confidence matches Some(m) ==> e.confidence >= m)
    &&& (f.min_weight matches Some(m) ==> e.weight >= m)
}

impl ExperienceFilter {
    /// The event passes this filter.
    pub fn matches(&self, event: &ExperienceEvent) -> (r: bool)
        ensures
            r == filter_admits(*self, *event),
    {
        if self.categories.len() > 0 {
            let mut found = false;
            let mut i: usize = 0;
            while !found && i < self.categories.len()
                invariant
                    i <= self.categories.len(),
                    found ==> exists|k: int| 0 <= k < self.categories@.len() && #[trigger] self.categories@[k]@ == event.category@,
                    !found ==> forall|k: int| 0 <= k < i ==> #[trigger] self.categories@[k]@ != event.category@,
                decreases self.categories.len() - i + (if found { 0int } else { 1int }),
            {
                if crate::text::same_text(self.categories[i].as_str(), event.category.as_str()) {
                    found = true;
                } else {
                    i = i + 1;
                }
            }
            if !found {
                return false;
            }
        }
        match self.min_confidence {
            Some(m) => {
                if event.confidence < m {
                    return false;
                }
            },
            None => {},
        }
        match self.min_weight {
            Some(m) => {
                if event.weight < m {
                    return false;
                }
            },
            None => {},
        }
        true
    }
}

// ─── Promotion proposals ───────────────────────────────────────────

/// A proposed change to an agent's identity core, awaiting approval.
#[derive(Debug)]
pub struct PromotionProposal {
    pub id: u128,
    pub agent_id: String,
    /// What the proposal changes and why.
    pub proposal: String,
    /// The replacement core, applied as is when approved.
    pub candidate_core: serde_json::Value,
    pub reason: String,
    /// `low`, `medium` or `high`.
    pub risk_level: String,
    pub status: PromotionStatus,
    pub source_event_ids: Vec<u128>,
    /// Approvers who signed off.
    pub approvers: Vec<String>,
    pub approved_at: Option<UtcTime>,
    pub rejected_at: Option<UtcTime>,
    pub expired_at: Option<UtcTime>,
    pub created_at: UtcTime,
}

/// Request to create a promotion proposal.
#[derive(Debug)]
pub struct CreatePromotionProposalRequest {
    pub id: Option<u128>,
    pub proposal: String,
    pub candidate_core: serde_json::Value,
    pub reason: String,
    pub risk_level: String,
    pub source_event_ids: Vec<u128>,
}

/// The risk level of a proposal when the request has none.
pub fn default_risk_level() -> (r: String)
    ensures
        r@ == "medium"@,
{
    owned("medium")
}

/// Nanoseconds of the moment `hours` whole hours after `t`: unchanged,
/// except that adding at least an hour to a time inside a leap second
/// leaves the leap second, as chrono's addition of a duration does.
pub open spec fn deadline_nanos(t: UtcTime, hours: u32) -> u32 {
    if hours > 0 && t.nanos >= 1_000_000_000 {
        (t.nanos - 1_000_000_000) as u32
    } else {
        t.nanos
    }
}

/// `now` is at or after the moment `hours` hours past `t`.
pub open spec fn reached(t: UtcTime, hours: u32, now: UtcTime) -> bool {
    let secs = t.secs + 3600 * hours;
    now.secs > secs || (now.secs == secs && now.nanos >= deadline_nanos(t, hours))
}

fn reached_exec(t: &UtcTime, hours: u32, now: &UtcTime) -> (r: bool)
    ensures
        r == reached(*t, hours, *now),
{
    let secs: i128 = t.secs as i128 + 3600 * hours as i128;
    let nanos: u32 = if hours > 0 && t.nanos >= 1_000_000_000 {
        t.nanos - 1_000_000_000
    } else {
        t.nanos
    };
    (now.secs as i128) > secs || ((now.secs as i128) == secs && now.nanos >= nanos)
}

/// At `now`, a pending proposal whose risk level sets an automatic
/// rejection has reached its deadline.
pub open spec fn proposal_expired_at(p: PromotionProposal, policy: ApprovalPolicy, now: UtcTime) -> bool {
    p.status == PromotionStatus::Pending && match requirement_for(policy, unicode_lowercase(p.risk_level@)).auto_reject_after_hours {
        Some(h) => reached(p.created_at, h, now),
        None => false,
    }
}

/// At `now`, the risk level's cooling period (if any) has passed.
pub open spec fn cooling_elapsed_at(p: PromotionProposal, policy: ApprovalPolicy, now: UtcTime) -> bool {
    match requirement_for(policy, unicode_lowercase(p.risk_level@)).cooling_period_hours {
        None => true,
        Some(h) => reached(p.created_at, h, now),
    }
}

impl PromotionProposal {
    /// A pending proposal from a request: the request's id or `fresh_id`,
    /// made at `now`, with no approvers.
    pub fn from_request_with(agent_id: &str, req: CreatePromotionProposalRequest, fresh_id: u128, now: UtcTime) -> (r: PromotionProposal)
        ensures
            r.id == (match req.id {
                Some(i) => i,
                None => fresh_id,
            }),
            r.agent_id@ == agent_id@,
            r.proposal == req.proposal,
            r.candidate_core == req.candidate_core,
            r.reason == req.reason,
            r.risk_level == req.risk_level,
            r.status == PromotionStatus::Pending,
            r.source_event_ids == req.source_event_ids,
            r.approvers@.len() == 0,
            r.approved_at is None,
            r.rejected_at is None,
            r.expired_at is None,
            r.created_at == now,
    {
        PromotionProposal {
            id: match req.id {
                Some(i) => i,
                None => fresh_id,
            },
            agent_id: owned(agent_id),
            proposal: req.proposal,
            candidate_core: req.candidate_core,
            reason: req.reason,
            risk_level: req.risk_level,
            status: PromotionStatus::Pending,
            source_event_ids: req.source_event_ids,
            approvers: Vec::new(),
            approved_at: None,
            rejected_at: None,
            expired_at: None,
            created_at: now,
        }
    }

    /// A pending proposal from a request, with a fresh UUIDv7 where the
    /// request has no id, made now.
    pub fn from_request(agent_id: &str, req: CreatePromotionProposalRequest) -> (r: PromotionProposal)
        ensures
            req.id matches Some(i) ==> r.id == i,
            r.agent_id@ == agent_id@,
            r.proposal == req.proposal,
            r.candidate_core == req.candidate_core,
            r.reason == req.reason,
            r.risk_level == req.risk_level,
            r.status == PromotionStatus::Pending,
            r.source_event_ids == req.source_event_ids,
            r.approvers@.len() == 0,
            r.approved_at is None,
            r.rejected_at is None,
            r.expired_at is None,
    {
        let fresh = match req.id {
            Some(i) => i,
            None => fresh_uuid_v7(),
        };
        PromotionProposal::from_request_with(agent_id, req, fresh, crate::time::now())
    }

    /// At `now`, a pending proposal whose risk level sets an automatic
    /// rejection has reached its deadline.
    pub fn is_expired_at(&self, policy: &ApprovalPolicy, now: UtcTime) -> (r: bool)
        ensures
            r == proposal_expired_at(*self, *policy, now),
    {
        if self.status != PromotionStatus::Pending {
            return false;
        }
        let requirement = policy.requirement_for_risk(self.risk_level.as_str());
        match requirement.auto_reject_after_hours {
            Some(h) => reached_exec(&self.created_at, h, &now),
            None => false,
        }
    }

    /// `is_expired_at` the current time.
    pub fn is_expired(&self, policy: &ApprovalPolicy) -> (r: bool)
        ensures
            r ==> self.status == PromotionStatus::Pending
                && requirement_for(*policy, unicode_lowercase(self.risk_level@)).auto_reject_after_hours is Some,
            exists|t: UtcTime| clock_reading_ok(t) && r == #[trigger] proposal_expired_at(*self, *policy, t),
    {
        self.is_expired_at(policy, crate::time::now())
    }

    /// At `now`, the risk level's cooling period (if any) has passed.
    pub fn cooling_period_elapsed_at(&self, policy: &ApprovalPolicy, now: UtcTime) -> (r: bool)
        ensures
            r == cooling_elapsed_at(*self, *policy, now),
    {
        let requirement = policy.requirement_for_risk(self.risk_level.as_str());
        match requirement.cooling_period_hours {
            None => true,
            Some(h) => reached_exec(&self.created_at, h, &now),
        }
    }

    /// `cooling_period_elapsed_at` the current time.
    pub fn cooling_period_elapsed(&self, policy: &ApprovalPolicy) -> (r: bool)
        ensures
            requirement_for(*policy, unicode_lowercase(self.risk_level@)).cooling_period_hours is None ==> r,
            exists|t: UtcTime| clock_reading_ok(t) && r == #[trigger] cooling_elapsed_at(*self, *policy, t),
    {
        self.cooling_period_elapsed_at(policy, crate::time::now())
    }

    /// Enough approvers have signed off for the risk level.
    pub fn has_quorum(&self, policy: &ApprovalPolicy) -> (r: bool)
        ensures
            r == (self.approvers@.len() >= requirement_for(*policy, unicode_lowercase(self.risk_level@)).min_approvers),
    {
        let requirement = policy.requirement_for_risk(self.risk_level.as_str());
        self.approvers.len() >= requirement.min_approvers as usize
    }
}

// ─── Conflict analysis ─────────────────────────────────────────────

/// The evidence for and against a proposal.  The conflict score (the share
/// of conflicting events) and the recommendation drawn from it are
/// computed by the caller from the two lists.
#[derive(Clone, Debug)]
pub struct ConflictAnalysis {
    pub proposal_id: u128,
    pub agent_id: String,
    /// Events whose signals support the change.
    pub supporting_signals: Vec<u128>,
    /// Events whose signals oppose it.
    pub conflicting_signals: Vec<u128>,
}

/// A (lowercased) signal speaks of not doing, or doing less of, something.
pub open spec fn signal_negates(s: Seq<char>) -> bool {
    ||| has_substring(s, "not "@)
    ||| has_substring(s, "don't"@)
    ||| has_substring(s, "avoid"@)
    ||| has_substring(s, "dislike"@)
    ||| has_substring(s, "stop"@)
    ||| has_substring(s, "reduce"@)
    ||| has_substring(s, "less "@)
    ||| has_substring(s, "fewer"@)
}

/// A (lowercased) proposal speaks of not doing, removing or reducing
/// something.
pub open spec fn proposal_negates(s: Seq<char>) -> bool {
    ||| has_substring(s, "not "@)
    ||| has_substring(s, "don't"@)
    ||| has_substring(s, "avoid"@)
    ||| has_substring(s, "remove"@)
    ||| has_substring(s, "reduce"@)
    ||| has_substring(s, "less "@)
}

/// Some word of the signal longer than three bytes occurs inside one of
/// the words.
pub open spec fn shares_word(signal_words: Seq<Seq<char>>, words: Seq<Seq<char>>) -> bool {
    exists|i: int, j: int|
        0 <= i < signal_words.len() && 0 <= j < words.len() && utf8_len(signal_words[i]) > 3
            && #[trigger] has_substring(words[j], signal_words[i])
}

/// The ids of the supporting and of the conflicting events, in order, for
/// a lowercased candidate core text and proposal: an event counts when a
/// word of its lowercased signal occurs in either, and conflicts when
/// exactly one of signal and proposal is negative.
pub open spec fn conflict_split(events: Seq<ExperienceEvent>, candidate: Seq<char>, proposal: Seq<char>) -> (Seq<u128>, Seq<u128>)
    decreases events.len(),
{
    if events.len() == 0 {
        (Seq::empty(), Seq::empty())
    } else {
        let r = conflict_split(events.drop_last(), candidate, proposal);
        let e = events.last();
        let sig = unicode_lowercase(e.signal@);
        let sw = words_of(sig);
        if !shares_word(sw, words_of(candidate)) && !shares_word(sw, words_of(proposal)) {
            r
        } else if signal_negates(sig) != proposal_negates(proposal) {
            (r.0, r.1.push(e.id))
        } else {
            (r.0.push(e.id), r.1)
        }
    }
}

fn shares_word_exec(sw: &Vec<String>, words: &Vec<String>) -> (r: bool)
    ensures
        r == shares_word(sw@.map_values(|w: String| w@), words@.map_values(|w: String| w@)),
{
    let ghost a = sw@.map_values(|w: String| w@);
    let ghost b = words@.map_values(|w: String| w@);
    let mut i: usize = 0;
    while i < sw.len()
        invariant
            a == sw@.map_values(|w: String| w@),
            b == words@.map_values(|w: String| w@),
            i <= sw.len(),
            forall|p: int, q: int| 0 <= p < i && 0 <= q < b.len() && utf8_len(a[p]) > 3 ==> !#[trigger] has_substring(b[q], a[p]),
        decreases sw.len() - i,
    {
        let n = byte_len(sw[i].as_str());
        proof {
            lemma_encode_utf8_len(a[i as int]);
        }
        if n > 3 {
            let mut j: usize = 0;
            while j < words.len()
                invariant
                    a == sw@.map_values(|w: String| w@),
                    b == words@.map_values(|w: String| w@),
                    i < sw.len(),
                    j <= words.len(),
                    utf8_len(a[i as int]) > 3,
                    forall|q: int| 0 <= q < j ==> !#[trigger] has_substring(b[q], a[i as int]),
                decreases words.len() - j,
            {
                if contains_text(words[j].as_str(), sw[i].as_str()) {
                    proof {
                        assert(has_substring(b[j as int], a[i as int]));
                    }
                    return true;
                }
                j = j + 1;
            }
        }
        i = i + 1;
    }
    false
}

fn signal_negates_exec(s: &str) -> (r: bool)
    ensures
        r == signal_negates(s@),
{
    contains_text(s, "not ") || contains_text(s, "don't") || contains_text(s, "avoid") || contains_text(s, "dislike")
        || contains_text(s, "stop") || contains_text(s, "reduce") || contains_text(s, "less ") || contains_text(s, "fewer")
}

fn proposal_negates_exec(s: &str) -> (r: bool)
    ensures
        r == proposal_negates(s@),
{
    contains_text(s, "not ") || contains_text(s, "don't") || contains_text(s, "avoid") || contains_text(s, "remove")
        || contains_text(s, "reduce") || contains_text(s, "less ")
}

/// The evidence for and against a proposal whose candidate core reads as
/// `candidate_text` (its JSON text), from experience events.
pub fn analyze_conflicts_with_text(
    proposal: &PromotionProposal,
    candidate_text: &str,
    events: &[ExperienceEvent],
) -> (r: ConflictAnalysis)
    ensures
        r.proposal_id == proposal.id,
        r.agent_id@ == proposal.agent_id@,
        (r.supporting_signals@, r.conflicting_signals@) == conflict_split(
            events@,
            unicode_lowercase(candidate_text@),
            unicode_lowercase(proposal.proposal@),
        ),
{
    let candidate = to_lowercase(candidate_text);
    let proposal_lower = to_lowercase(proposal.proposal.as_str());
    let candidate_words = split_words(candidate.as_str());
    let proposal_words = split_words(proposal_lower.as_str());
    let proposal_negative = proposal_negates_exec(proposal_lower.as_str());
    let mut supporting: Vec<u128> = Vec::new();
    let mut conflicting: Vec<u128> = Vec::new();
    let mut k: usize = 0;
    proof {
        assert(events@.take(0) =~= Seq::<ExperienceEvent>::empty());
    }
    while k < events.len()
        invariant
            candidate@ == unicode_lowercase(candidate_text@),
            proposal_lower@ == unicode_lowercase(proposal.proposal@),
            candidate_words@.map_values(|w: String| w@) == words_of(candidate@),
            proposal_words@.map_values(|w: String| w@) == words_of(proposal_lower@),
            proposal_negative == proposal_negates(proposal_lower@),
            k <= events.len(),
            (supporting@, conflicting@) == conflict_split(events@.take(k as int), candidate@, proposal_lower@),
        decreases events.len() - k,
    {
        proof {
            assert(events@.take(k + 1).drop_last() =~= events@.take(k as int));
            assert(events@.take(k + 1).last() == events@[k as int]);
        }
        let signal = to_lowercase(events[k].signal.as_str());
        let signal_words = split_words(signal.as_str());
        if shares_word_exec(&signal_words, &candidate_words) || shares_word_exec(&signal_words, &proposal_words) {
            if signal_negates_exec(signal.as_str()) != proposal_negative {
                conflicting.push(events[k].id);
            } else {
                supporting.push(events[k].id);
            }
        }
        k = k + 1;
    }
    proof {
        assert(events@.take(events@.len() as int) =~= events@);
    }
    ConflictAnalysis {
        proposal_id: proposal.id,
        agent_id: owned(proposal.agent_id.as_str()),
        supporting_signals: supporting,
        conflicting_signals: conflicting,
    }
}

/// The evidence for and against a proposal from experience events, reading
/// its candidate core as serde_json's compact text.
pub fn analyze_conflicts(proposal: &PromotionProposal, events: &[ExperienceEvent]) -> (r: ConflictAnalysis)
    ensures
        r.proposal_id == proposal.id,
        r.agent_id@ == proposal.agent_id@,
        (r.supporting_signals@, r.conflicting_signals@) == conflict_split(
            events@,
            unicode_lowercase(json_compact_text(proposal.candidate_core)),
            unicode_lowercase(proposal.proposal@),
        ),
{
    let text = json_text(&proposal.candidate_core);
    analyze_conflicts_with_text(proposal, text.as_str(), events)
}

// ─── Branches and forks ────────────────────────────────────────────

/// A copy-on-write branch of an agent identity.
#[derive(Clone, Debug)]
pub struct BranchMetadata {
    pub branch_name: String,
    /// The agent the branch was forked from.
    pub parent_agent_id: String,
    /// The parent's version at fork time.
    pub fork_version: u64,
    pub created_at: UtcTime,
    pub description: Option<String>,
    /// Merged back into the parent.
    pub merged: bool,
}

/// Request to create a branch.
#[derive(Debug)]
pub struct CreateBranchRequest {
    pub branch_name: String,
    pub description: Option<String>,
    /// Initial core; a copy of the parent's when absent.
    pub core_override: Option<serde_json::Value>,
}

/// A branch and its current identity.
#[derive(Debug)]
pub struct BranchInfo {
    pub metadata: BranchMetadata,
    pub identity: AgentIdentityProfile,
}

/// Outcome of merging a branch into its parent.
#[derive(Debug)]
pub struct MergeResult {
    pub branch_name: String,
    /// The parent's identity after the merge.
    pub merged_identity: AgentIdentityProfile,
    pub parent_version_before: u64,
    pub branch_core_applied: serde_json::Value,
}

/// Request to fork an agent into a new one.
#[derive(Debug)]
pub struct ForkAgentRequest {
    pub new_agent_id: String,
    /// The new agent's core; the parent's when absent.
    pub core_override: Option<serde_json::Value>,
    /// Which experience events carry over; all when absent.
    pub experience_filter: Option<ExperienceFilter>,
    pub description: Option<String>,
}

/// Where a forked agent came from.
#[derive(Clone, Debug)]
pub struct ForkLineage {
    pub parent_agent_id: String,
    pub parent_version: u64,
    pub forked_at: UtcTime,
    pub description: Option<String>,
    pub experience_events_transferred: u32,
    pub experience_filter: Option<ExperienceFilter>,
}

/// Outcome of a fork.
#[derive(Debug)]
pub struct ForkResult {
    pub new_agent: AgentIdentityProfile,
    pub lineage: ForkLineage,
}

} // verus!
