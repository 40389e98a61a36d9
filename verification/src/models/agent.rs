//! Agent identity: name rules for branches and forks.

use vstd::prelude::*;
use vstd::utf8::encode_utf8;
use crate::text::{byte_len, is_ascii_alnum, has_char, has_double_dot, chars_of, is_ascii_alnum_exec, owned, range_has_char, range_has_double_dot};
use crate::text::{lemma_encode_utf8_len, lemma_utf8_len_ge, decimal, i64_to_decimal, push_str, same_text, signed_decimal, u64_to_decimal, to_lowercase, unicode_lowercase};
use crate::digest::{hex_lower, sha256_hex, sha256_spec};
use crate::time::UtcTime;

pub use crate::models::promotion::{
    AgentIdentityProfile, BranchInfo, BranchMetadata, ConflictAnalysis, CreateBranchRequest,
    CreateExperienceRequest, CreatePromotionProposalRequest, ExperienceEvent, ExperienceFilter, ForkAgentRequest,
    ForkLineage, ForkResult, MergeResult, PromotionProposal, UpdateAgentIdentityRequest, analyze_conflicts,
    analyze_conflicts_with_text, default_half_life, default_risk_level, default_weight,
};
pub use crate::models::allowlist::{
    AllowlistMerkleTree, AllowlistMembershipProof, IdentityUpdateProof, JsonValue, KeyVerificationResult,
    ProofSibling, ProofVerificationResult, SiblingPosition, VerifiedIdentityUpdateRequest, check_forbidden_substrings,
    identity_allowlist, identity_forbidden_substrings, verify_identity_update_proof,
};

verus! {

/// Characters allowed in a branch name.
pub open spec fn is_branch_char(c: char) -> bool {
    is_ascii_alnum(c) || c == '-' || c == '_'
}

/// Characters allowed in an agent id.
pub open spec fn is_agent_id_char(c: char) -> bool {
    is_ascii_alnum(c) || c == '-' || c == '_' || c == '.'
}

/// The message with which a branch name is refused, if it is.
pub open spec fn branch_name_error(s: Seq<char>) -> Option<Seq<char>> {
    if s.len() == 0 {
        Some("branch name cannot be empty"@)
    } else if encode_utf8(s).len() > 64 {
        Some("branch name must be <= 64 characters"@)
    } else if !(forall|i: int| 0 <= i < s.len() ==> is_branch_char(#[trigger] s[i])) {
        Some("branch name must contain only alphanumeric characters, hyphens, or underscores"@)
    } else {
        None
    }
}

/// The message with which a fork's new agent id is refused, if it is.
pub open spec fn fork_agent_id_error(s: Seq<char>) -> Option<Seq<char>> {
    if s.len() == 0 {
        Some("new_agent_id must not be empty"@)
    } else if encode_utf8(s).len() > 128 {
        Some("new_agent_id must be <= 128 characters"@)
    } else if has_char(s, ':') || has_char(s, '/') || has_double_dot(s) {
        Some("new_agent_id must not contain ':', '/', or '..'"@)
    } else if !(forall|i: int| 0 <= i < s.len() ==> is_agent_id_char(#[trigger] s[i])) {
        Some("new_agent_id must contain only alphanumeric characters, hyphens, underscores, or dots"@)
    } else {
        None
    }
}

/// `true` when every character of `v[lo..hi]` is allowed in a branch name
/// (or, with `allow_dot`, in an agent id).
fn all_allowed(v: &Vec<char>, lo: usize, hi: usize, allow_dot: bool) -> (r: bool)
    requires
        lo <= hi <= v.len(),
    ensures
        r == (forall|i: int| lo <= i < hi ==> (if allow_dot { is_agent_id_char(#[trigger] v@[i]) } else { is_branch_char(v@[i]) })),
{
    let mut i = lo;
    while i < hi
        invariant
            lo <= i <= hi <= v.len(),
            forall|j: int| lo <= j < i ==> (if allow_dot { is_agent_id_char(#[trigger] v@[j]) } else { is_branch_char(v@[j]) }),
        decreases hi - i,
    {
        let c = v[i];
        let ok = is_ascii_alnum_exec(c) || c == '-' || c == '_' || (allow_dot && c == '.');
        if !ok {
            return false;
        }
        i = i + 1;
    }
    true
}

/// Check of a branch name: 1 to 64 bytes, ASCII alphanumerics, hyphens and
/// underscores only.
pub fn validate_branch_name(name: &str) -> (r: Result<(), String>)
    ensures
        match r {
            Ok(_) => branch_name_error(name@) is None,
            Err(e) => branch_name_error(name@) == Some(e@),
        },
{
    if name.is_empty() {
        return Err(owned("branch name cannot be empty"));
    }
    if byte_len(name) > 64 {
        return Err(owned("branch name must be <= 64 characters"));
    }
    let v = chars_of(name);
    if !all_allowed(&v, 0, v.len(), false) {
        return Err(owned("branch name must contain only alphanumeric characters, hyphens, or underscores"));
    }
    Ok(())
}

/// Check of a new agent id for a fork: 1 to 128 bytes, no `:`, `/` or `..`,
/// ASCII alphanumerics, hyphens, underscores and dots only.
pub fn validate_fork_agent_id(id: &str) -> (r: Result<(), String>)
    ensures
        match r {
            Ok(_) => fork_agent_id_error(id@) is None,
            Err(e) => fork_agent_id_error(id@) == Some(e@),
        },
{
    if id.is_empty() {
        return Err(owned("new_agent_id must not be empty"));
    }
    if byte_len(id) > 128 {
        return Err(owned("new_agent_id must be <= 128 characters"));
    }
    let v = chars_of(id);
    proof {
        assert(v@.subrange(0, v@.len() as int) =~= v@);
    }
    if range_has_char(&v, 0, v.len(), ':') || range_has_char(&v, 0, v.len(), '/')
        || range_has_double_dot(&v, 0, v.len()) {
        return Err(owned("new_agent_id must not contain ':', '/', or '..'"));
    }
    if !all_allowed(&v, 0, v.len(), true) {
        return Err(owned("new_agent_id must contain only alphanumeric characters, hyphens, underscores, or dots"));
    }
    Ok(())
}

// ─── Audit chain ───────────────────────────────────────────────────

/// Audit action recorded whenever an agent identity is mutated.
#[derive(Clone, Copy, PartialEq, Eq, Debug, Structural)]
pub enum AgentIdentityAuditAction {
    Created,
    Updated,
    RolledBack,
    BranchCreated,
    BranchMerged,
    BranchDeleted,
    Forked,
}

/// The snake-case name of an action, as it is serialised.
pub open spec fn action_name(a: AgentIdentityAuditAction) -> Seq<char> {
    match a {
        AgentIdentityAuditAction::Created => "created"@,
        AgentIdentityAuditAction::Updated => "updated"@,
        AgentIdentityAuditAction::RolledBack => "rolled_back"@,
        AgentIdentityAuditAction::BranchCreated => "branch_created"@,
        AgentIdentityAuditAction::BranchMerged => "branch_merged"@,
        AgentIdentityAuditAction::BranchDeleted => "branch_deleted"@,
        AgentIdentityAuditAction::Forked => "forked"@,
    }
}

impl AgentIdentityAuditAction {
    pub fn as_str(&self) -> (r: &'static str)
        ensures
            r@ == action_name(*self),
    {
        match self {
            AgentIdentityAuditAction::Created => "created",
            AgentIdentityAuditAction::Updated => "updated",
            AgentIdentityAuditAction::RolledBack => "rolled_back",
            AgentIdentityAuditAction::BranchCreated => "branch_created",
            AgentIdentityAuditAction::BranchMerged => "branch_merged",
            AgentIdentityAuditAction::BranchDeleted => "branch_deleted",
            AgentIdentityAuditAction::Forked => "forked",
        }
    }
}

/// Append-only record of an identity mutation, chained to its predecessor
/// by hash.
#[derive(Clone, Debug)]
pub struct AgentIdentityAuditEvent {
    pub id: u128,
    pub agent_id: String,
    pub action: AgentIdentityAuditAction,
    /// Version before the mutation (absent for `Created`).
    pub from_version: Option<u64>,
    /// Version after the mutation.
    pub to_version: u64,
    /// For `RolledBack`: the version restored.
    pub rollback_to_version: Option<u64>,
    pub reason: Option<String>,
    pub created_at: UtcTime,
    /// Hash of the preceding event; `None` for the first one.
    pub prev_hash: Option<String>,
    /// Hash of this event's canonical fields; empty for events that predate
    /// the chain.
    pub event_hash: String,
}

/// Milliseconds since the epoch of a time (`timestamp_millis`).
pub open spec fn time_millis(t: UtcTime) -> int {
    t.secs * 1000 + t.nanos / 1_000_000
}

/// The time in milliseconds fits an `i64`.
pub open spec fn millis_fit(t: UtcTime) -> bool {
    i64::MIN <= time_millis(t) <= i64::MAX
}

/// The text that is hashed: `action|from_version|to_version|prev_hash|millis`.
pub open spec fn audit_hash_input(e: AgentIdentityAuditEvent) -> Seq<char> {
    let from_v = match e.from_version {
        Some(v) => decimal(v as nat),
        None => Seq::empty(),
    };
    let prev = match e.prev_hash {
        Some(p) => p@,
        None => Seq::empty(),
    };
    action_name(e.action) + "|"@ + from_v + "|"@ + decimal(e.to_version as nat) + "|"@ + prev + "|"@
        + signed_decimal(time_millis(e.created_at))
}

/// The hash of an event: lowercase hexadecimal SHA-256 of its hash input.
pub open spec fn audit_hash(e: AgentIdentityAuditEvent) -> Seq<char> {
    hex_lower(sha256_spec(encode_utf8(audit_hash_input(e))))
}

impl AgentIdentityAuditEvent {
    /// The canonical hash of this event.
    pub fn compute_hash(&self) -> (r: String)
        requires
            millis_fit(self.created_at),
        ensures
            r@ == audit_hash(*self),
            r@.len() == 64,
    {
        let mut input = owned(self.action.as_str());
        push_str(&mut input, "|");
        match self.from_version {
            Some(v) => push_str(&mut input, u64_to_decimal(v).as_str()),
            None => {},
        }
        push_str(&mut input, "|");
        push_str(&mut input, u64_to_decimal(self.to_version).as_str());
        push_str(&mut input, "|");
        match &self.prev_hash {
            Some(p) => push_str(&mut input, p.as_str()),
            None => {},
        }
        push_str(&mut input, "|");
        let ms: i64 = (self.created_at.secs as i128 * 1000 + (self.created_at.nanos / 1_000_000) as i128) as i64;
        push_str(&mut input, i64_to_decimal(ms).as_str());
        proof {
            assert(input@ =~= audit_hash_input(*self));
        }
        sha256_hex(input.as_str().as_bytes())
    }

    /// The stored hash matches the recomputed one.
    pub fn verify_hash(&self) -> (r: bool)
        requires
            millis_fit(self.created_at),
        ensures
            r == (self.event_hash@ == audit_hash(*self)),
    {
        let h = self.compute_hash();
        same_text(self.event_hash.as_str(), h.as_str())
    }
}

/// A break in the audit chain.
#[derive(Clone, Debug)]
pub struct AuditChainBreak {
    /// Index in the oldest-first list.
    pub index: usize,
    pub event_id: u128,
    /// What went wrong.
    pub reason: String,
}

/// Result of walking the audit chain.
#[derive(Clone, Debug)]
pub struct AuditChainVerification {
    /// No break was found.
    pub valid: bool,
    /// Number of events.
    pub chain_length: usize,
    pub breaks: Vec<AuditChainBreak>,
}

/// Index of the first event with a hash: where the chain starts.
pub open spec fn chain_start(events: Seq<AgentIdentityAuditEvent>) -> nat
    decreases events.len(),
{
    if events.len() == 0 {
        0
    } else if events[0].event_hash@.len() > 0 {
        0
    } else {
        1 + chain_start(events.drop_first())
    }
}

/// Why the chain breaks at event `i`, if it does.
pub open spec fn break_reason(events: Seq<AgentIdentityAuditEvent>, start: nat, i: int) -> Option<Seq<char>> {
    let e = events[i];
    let computed = audit_hash(e);
    if e.event_hash@ != computed {
        Some("event_hash mismatch: stored="@ + e.event_hash@ + ", computed="@ + computed)
    } else if i == start {
        if e.prev_hash is Some && i == 0 {
            Some("Genesis event should have prev_hash = None"@)
        } else {
            None
        }
    } else {
        match e.prev_hash {
            None => Some("Non-genesis event has prev_hash = None"@),
            Some(ph) => if ph@ != events[i - 1].event_hash@ {
                Some("prev_hash mismatch: stored="@ + ph@ + ", expected="@ + events[i - 1].event_hash@)
            } else {
                None
            },
        }
    }
}

/// The breaks among the events from the start up to `n`, as
/// `(index, event id, reason)`.
pub open spec fn chain_breaks(events: Seq<AgentIdentityAuditEvent>, start: nat, n: nat) -> Seq<(nat, u128, Seq<char>)>
    decreases n,
{
    if n <= start || n > events.len() {
        Seq::empty()
    } else {
        let rest = chain_breaks(events, start, (n - 1) as nat);
        match break_reason(events, start, n - 1) {
            Some(reason) => rest.push(((n - 1) as nat, events[n - 1].id, reason)),
            None => rest,
        }
    }
}

pub open spec fn breaks_view(bs: Seq<AuditChainBreak>) -> Seq<(nat, u128, Seq<char>)> {
    bs.map_values(|b: AuditChainBreak| (b.index as nat, b.event_id, b.reason@))
}

proof fn lemma_chain_start(events: Seq<AgentIdentityAuditEvent>)
    ensures
        chain_start(events) <= events.len(),
        forall|j: int| 0 <= j < chain_start(events) ==> (#[trigger] events[j]).event_hash@.len() == 0,
        chain_start(events) < events.len() ==> events[chain_start(events) as int].event_hash@.len() > 0,
    decreases events.len(),
{
    if events.len() > 0 && events[0].event_hash@.len() == 0 {
        lemma_chain_start(events.drop_first());
        assert forall|j: int| 0 < j < chain_start(events) implies (#[trigger] events[j]).event_hash@.len() == 0 by {
            assert(events[j] == events.drop_first()[j - 1]);
        }
    }
}

fn text3(a: &str, b: &str, c: &str, d: &str) -> (r: String)
    ensures
        r@ == a@ + b@ + c@ + d@,
{
    let mut s = owned(a);
    push_str(&mut s, b);
    push_str(&mut s, c);
    push_str(&mut s, d);
    s
}

/// Walk the audit chain (oldest first).  Events before the first one with a
/// hash predate the chain and are only counted.  From there on each event's
/// hash must match its recomputation, the first chained event may only carry
/// a previous hash if older events exist, and every later one must carry the
/// hash of the event before it.
pub fn verify_audit_chain(events: &[AgentIdentityAuditEvent]) -> (r: AuditChainVerification)
    requires
        forall|i: int| 0 <= i < events@.len() ==> millis_fit((#[trigger] events@[i]).created_at),
    ensures
        breaks_view(r.breaks@) == chain_breaks(events@, chain_start(events@), events@.len()),
        r.valid == (chain_breaks(events@, chain_start(events@), events@.len()).len() == 0),
        r.chain_length == events@.len(),
{
    let ghost evs = events@;
    proof {
        lemma_chain_start(evs);
    }
    let mut start: usize = 0;
    let mut found = false;
    while start < events.len() && !found
        invariant
            evs == events@,
            start <= chain_start(evs),
            found ==> start == chain_start(evs),
            chain_start(evs) <= evs.len(),
            forall|j: int| 0 <= j < chain_start(evs) ==> (#[trigger] evs[j]).event_hash@.len() == 0,
            chain_start(evs) < evs.len() ==> evs[chain_start(evs) as int].event_hash@.len() > 0,
        decreases events.len() - start + (if found { 0int } else { 1int }),
    {
        proof {
            lemma_encode_utf8_len(evs[start as int].event_hash@);
            lemma_utf8_len_ge(evs[start as int].event_hash@);
        }
        if byte_len(events[start].event_hash.as_str()) > 0 {
            found = true;
        } else {
            start = start + 1;
        }
    }
    let mut breaks: Vec<AuditChainBreak> = Vec::new();
    let mut i: usize = start;
    proof {
        assert(breaks_view(breaks@) =~= Seq::<(nat, u128, Seq<char>)>::empty());
    }
    while i < events.len()
        invariant
            evs == events@,
            start == chain_start(evs),
            start <= i <= events.len(),
            forall|q: int| 0 <= q < evs.len() ==> millis_fit((#[trigger] evs[q]).created_at),
            breaks_view(breaks@) =~= chain_breaks(evs, start as nat, i as nat),
        decreases events.len() - i,
    {
        let event = &events[i];
        let ghost before = breaks_view(breaks@);
        let computed = event.compute_hash();
        let mut reason: Option<String> = None;
        if !same_text(event.event_hash.as_str(), computed.as_str()) {
            reason = Some(text3("event_hash mismatch: stored=", event.event_hash.as_str(), ", computed=", computed.as_str()));
        } else if i == start {
            if event.prev_hash.is_some() && i == 0 {
                reason = Some(owned("Genesis event should have prev_hash = None"));
            }
        } else {
            let expected_prev = &events[i - 1].event_hash;
            match &event.prev_hash {
                None => {
                    reason = Some(owned("Non-genesis event has prev_hash = None"));
                },
                Some(ph) => {
                    if !same_text(ph.as_str(), expected_prev.as_str()) {
                        reason = Some(text3("prev_hash mismatch: stored=", ph.as_str(), ", expected=", expected_prev.as_str()));
                    }
                },
            }
        }
        proof {
            assert(reason matches Some(x) ==> break_reason(evs, start as nat, i as int) == Some(x@));
            assert(reason is None ==> break_reason(evs, start as nat, i as int) is None);
        }
        match reason {
            Some(reason) => {
                breaks.push(AuditChainBreak { index: i, event_id: event.id, reason });
                proof {
                    assert(breaks_view(breaks@) =~= before.push((i as nat, event.id, breaks@.last().reason@)));
                }
            },
            None => {},
        }
        i = i + 1;
    }
    let valid = breaks.len() == 0;
    AuditChainVerification { valid, chain_length: events.len(), breaks }
}

/// The event carries the hash of `prev` as its previous hash.
pub open spec fn links_to(e: AgentIdentityAuditEvent, prev: AgentIdentityAuditEvent) -> bool {
    match e.prev_hash {
        Some(p) => p@ == prev.event_hash@,
        None => false,
    }
}

/// A chain as the library writes it verifies: when every event carries its
/// own (non-empty) hash, the first one no previous hash, and every later one
/// the hash of the event before it, the walk finds no break.
pub proof fn lemma_written_chain_verifies(events: Seq<AgentIdentityAuditEvent>)
    requires
        forall|i: int| 0 <= i < events.len() ==> (#[trigger] events[i]).event_hash@ == audit_hash(events[i])
            && events[i].event_hash@.len() > 0,
        events.len() > 0 ==> events[0].prev_hash is None,
        forall|i: int| 1 <= i < events.len() ==> #[trigger] links_to(events[i], events[i - 1]),
    ensures
        chain_breaks(events, chain_start(events), events.len()).len() == 0,
{
    if events.len() > 0 {
        assert(chain_start(events) == 0);
    }
    lemma_no_breaks_upto(events, events.len());
}

proof fn lemma_no_breaks_upto(events: Seq<AgentIdentityAuditEvent>, n: nat)
    requires
        n <= events.len(),
        forall|i: int| 0 <= i < events.len() ==> (#[trigger] events[i]).event_hash@ == audit_hash(events[i])
            && events[i].event_hash@.len() > 0,
        events.len() > 0 ==> events[0].prev_hash is None,
        forall|i: int| 1 <= i < events.len() ==> #[trigger] links_to(events[i], events[i - 1]),
    ensures
        chain_breaks(events, chain_start(events), n).len() == 0,
    decreases n,
{
    if events.len() > 0 {
        assert(chain_start(events) == 0);
    }
    if n > 0 {
        lemma_no_breaks_upto(events, (n - 1) as nat);
        let i = n - 1;
        assert(events[i].event_hash@ == audit_hash(events[i]));
        if i >= 1 {
            assert(links_to(events[i], events[i - 1]));
        }
        assert(break_reason(events, chain_start(events), i) is None);
    }
}

/// Tampering shows: an event at or after the start of the chain whose stored
/// hash is not the hash of its fields is reported as a break at its index,
/// so the chain does not verify.
pub proof fn lemma_tampered_event_breaks(events: Seq<AgentIdentityAuditEvent>, i: int)
    requires
        chain_start(events) <= i < events.len(),
        events[i].event_hash@ != audit_hash(events[i]),
    ensures
        exists|k: int| 0 <= k < chain_breaks(events, chain_start(events), events.len()).len()
            && (#[trigger] chain_breaks(events, chain_start(events), events.len())[k]).0 == i,
        chain_breaks(events, chain_start(events), events.len()).len() > 0,
{
    lemma_break_kept(events, chain_start(events), i, events.len());
}

proof fn lemma_break_kept(events: Seq<AgentIdentityAuditEvent>, start: nat, i: int, n: nat)
    requires
        start <= i < n <= events.len(),
        break_reason(events, start, i) is Some,
    ensures
        exists|k: int| 0 <= k < chain_breaks(events, start, n).len()
            && (#[trigger] chain_breaks(events, start, n)[k]).0 == i,
    decreases n,
{
    let bs = chain_breaks(events, start, n);
    if i == n - 1 {
        assert(bs[bs.len() - 1].0 == i);
    } else {
        lemma_break_kept(events, start, i, (n - 1) as nat);
        let prev = chain_breaks(events, start, (n - 1) as nat);
        let k = choose|k: int| 0 <= k < prev.len() && (#[trigger] prev[k]).0 == i;
        assert(bs[k] == prev[k]);
    }
}

// ─── Approvals and promotions ──────────────────────────────────────

/// Request to roll an identity back to an earlier version.
#[derive(Clone, Debug)]
pub struct IdentityRollbackRequest {
    /// The version to restore.
    pub target_version: u64,
    /// Rationale, recommended for audit trails.
    pub reason: Option<String>,
}

/// Lifecycle state of a promotion proposal.
#[derive(Clone, Copy, PartialEq, Eq, Debug, Structural)]
pub enum PromotionStatus {
    Pending,
    Approved,
    Rejected,
    Expired,
}

/// Requirements for one risk level.
#[derive(Clone, Copy, Debug)]
pub struct ApprovalRequirement {
    /// Minimum number of distinct approvers.
    pub min_approvers: u32,
    /// Mandatory wait, in hours, before a proposal can apply.
    pub cooling_period_hours: Option<u32>,
    /// Auto-reject if not approved within this many hours.
    pub auto_reject_after_hours: Option<u32>,
}

impl Default for ApprovalRequirement {
    /// One approver, no cooling period, no automatic rejection.
    fn default() -> (r: ApprovalRequirement)
        ensures
            r.min_approvers == 1,
            r.cooling_period_hours is None,
            r.auto_reject_after_hours is None,
    {
        ApprovalRequirement { min_approvers: 1, cooling_period_hours: None, auto_reject_after_hours: None }
    }
}

/// One approver, no cooling period, no automatic rejection.
pub open spec fn one_approver() -> ApprovalRequirement {
    ApprovalRequirement { min_approvers: 1, cooling_period_hours: None, auto_reject_after_hours: None }
}

/// Approval policy of an agent, per risk level.
#[derive(Clone, Debug)]
pub struct ApprovalPolicy {
    pub agent_id: String,
    pub low_risk: ApprovalRequirement,
    pub medium_risk: ApprovalRequirement,
    pub high_risk: ApprovalRequirement,
    pub updated_at: UtcTime,
}

/// The requirement a risk level (already lowercased) selects: `low`,
/// `high`, and medium for anything else.
pub open spec fn requirement_for(p: ApprovalPolicy, level: Seq<char>) -> ApprovalRequirement {
    if level == "low"@ {
        p.low_risk
    } else if level == "high"@ {
        p.high_risk
    } else {
        p.medium_risk
    }
}

impl ApprovalPolicy {
    /// The default policy of an agent at time `now`: one approver at every
    /// risk level.
    pub fn default_for_agent_at(agent_id: &str, now: UtcTime) -> (r: ApprovalPolicy)
        ensures
            r.agent_id@ == agent_id@,
            r.low_risk == one_approver(),
            r.medium_risk == one_approver(),
            r.high_risk == one_approver(),
            r.updated_at == now,
    {
        ApprovalPolicy {
            agent_id: owned(agent_id),
            low_risk: ApprovalRequirement::default(),
            medium_risk: ApprovalRequirement::default(),
            high_risk: ApprovalRequirement::default(),
            updated_at: now,
        }
    }

    /// The default policy of an agent, stamped with the current time.
    pub fn default_for_agent(agent_id: &str) -> (r: ApprovalPolicy)
        ensures
            r.agent_id@ == agent_id@,
            r.low_risk == one_approver(),
            r.medium_risk == one_approver(),
            r.high_risk == one_approver(),
    {
        ApprovalPolicy::default_for_agent_at(agent_id, crate::time::now())
    }

    /// The requirement for a risk level, ignoring case; medium for an
    /// unknown level.
    pub fn requirement_for_risk(&self, risk_level: &str) -> (r: &ApprovalRequirement)
        ensures
            *r == requirement_for(*self, unicode_lowercase(risk_level@)),
    {
        let lower = to_lowercase(risk_level);
        if same_text(lower.as_str(), "low") {
            &self.low_risk
        } else if same_text(lower.as_str(), "high") {
            &self.high_risk
        } else {
            &self.medium_risk
        }
    }
}

/// Request to set an agent's approval policy.
#[derive(Clone, Copy, Debug)]
pub struct SetApprovalPolicyRequest {
    pub low_risk: ApprovalRequirement,
    pub medium_risk: ApprovalRequirement,
    pub high_risk: ApprovalRequirement,
}

/// Recommendation of a conflict analysis.
#[derive(Clone, Copy, PartialEq, Eq, Debug, Structural)]
pub enum ConflictRecommendation {
    /// Low conflict: safe to approve.
    Proceed,
    /// Moderate conflict: needs human review.
    ReviewConflicts,
    /// High conflict: the evidence opposes the change.
    Reject,
}

} // verus!
