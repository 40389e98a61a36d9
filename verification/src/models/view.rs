//! Policy-scoped memory views: named access policies that filter memory by
//! classification ceiling, entity types, edge labels, time and size.

use vstd::prelude::*;
use crate::models::classification::{Classification, classification_rank};
use crate::models::guardrail::eq_ignore_ascii_case_exec;
use crate::text::eq_ignore_ascii_case;
use crate::time::{UtcTime, time_le};

verus! {

/// Which time range of memory a view admits.
#[derive(Clone, Copy, PartialEq, Eq, Debug, Structural)]
pub enum TemporalScope {
    /// Facts valid within the last `days` days.
    LastNDays { days: u32 },
    /// Facts valid since a time.
    Since { since: UtcTime },
    /// Currently valid facts only (checked through edge validity).
    CurrentOnly,
}

/// A named access policy over memory.
#[derive(Clone, Debug)]
pub struct MemoryView {
    pub id: u128,
    pub name: String,
    pub description: String,
    /// The highest classification the view shows.
    pub max_classification: Classification,
    /// Entity types shown; all when absent.
    pub allowed_entity_types: Option<Vec<String>>,
    /// Edge labels hidden.
    pub blocked_edge_labels: Option<Vec<String>>,
    pub max_facts: Option<u32>,
    pub include_narrative: bool,
    pub temporal_scope: Option<TemporalScope>,
    pub created_at: UtcTime,
    pub updated_at: UtcTime,
}

/// Request to create a view.
#[derive(Clone, Debug)]
pub struct CreateViewRequest {
    pub name: String,
    pub description: String,
    pub max_classification: Classification,
    pub allowed_entity_types: Option<Vec<String>>,
    pub blocked_edge_labels: Option<Vec<String>>,
    pub max_facts: Option<u32>,
    pub include_narrative: bool,
    pub temporal_scope: Option<TemporalScope>,
}

/// A view shows the narrative unless it says otherwise.
pub fn default_true() -> (r: bool)
    ensures
        r,
{
    true
}

/// The constraints in force while assembling context.
#[derive(Clone, Debug)]
pub struct ViewConstraints {
    pub max_classification: Classification,
    pub allowed_entity_types: Option<Vec<String>>,
    pub blocked_edge_labels: Option<Vec<String>>,
    pub max_facts: Option<u32>,
    pub include_narrative: bool,
    pub temporal_scope: Option<TemporalScope>,
    /// The view they come from, if any.
    pub view_name: Option<String>,
}

/// The lower of two classifications.
pub open spec fn lower_classification(a: Classification, b: Classification) -> Classification {
    if classification_rank(a) <= classification_rank(b) {
        a
    } else {
        b
    }
}

/// Some listed word equals `w` ignoring ASCII case.
pub open spec fn listed_ignoring_case(list: Seq<String>, w: Seq<char>) -> bool {
    exists|i: int| 0 <= i < list.len() && #[trigger] eq_ignore_ascii_case(list[i]@, w)
}

/// `days` whole days before `t`; inside a leap second the result leaves
/// it, as chrono's subtraction of a duration does.
pub open spec fn days_before(t: UtcTime, days: u32) -> (int, int) {
    if days == 0 {
        (t.secs as int, t.nanos as int)
    } else if t.nanos >= 1_000_000_000 {
        (t.secs + 1 - 86_400 * days, t.nanos - 1_000_000_000)
    } else {
        (t.secs - 86_400 * days, t.nanos as int)
    }
}

/// A fact valid at `valid_at` is inside the scope at time `now`.
pub open spec fn scope_admits(scope: Option<TemporalScope>, valid_at: UtcTime, now: UtcTime) -> bool {
    match scope {
        None => true,
        Some(TemporalScope::CurrentOnly) => true,
        Some(TemporalScope::Since { since }) => time_le(since, valid_at),
        Some(TemporalScope::LastNDays { days }) => {
            let c = days_before(now, days);
            valid_at.secs > c.0 || (valid_at.secs == c.0 && valid_at.nanos >= c.1)
        },
    }
}

fn copy_words(v: &Vec<String>) -> (r: Vec<String>)
    ensures
        r@ == v@,
{
    let mut r: Vec<String> = Vec::new();
    let mut i: usize = 0;
    while i < v.len()
        invariant
            i <= v.len(),
            r@ == v@.take(i as int),
        decreases v.len() - i,
    {
        r.push(v[i].clone());
        proof {
            assert(v@.take(i + 1) =~= v@.take(i as int).push(v@[i as int]));
        }
        i = i + 1;
    }
    proof {
        assert(v@.take(v@.len() as int) =~= v@);
    }
    r
}

fn copy_word_list(v: &Option<Vec<String>>) -> (r: Option<Vec<String>>)
    ensures
        match (r, *v) {
            (Some(a), Some(b)) => a@ == b@,
            (None, None) => true,
            _ => false,
        },
{
    match v {
        Some(w) => Some(copy_words(w)),
        None => None,
    }
}

fn listed_exec(list: &Vec<String>, w: &str) -> (r: bool)
    ensures
        r == listed_ignoring_case(list@, w@),
{
    let mut i: usize = 0;
    while i < list.len()
        invariant
            i <= list.len(),
            forall|k: int| 0 <= k < i ==> !#[trigger] eq_ignore_ascii_case(list@[k]@, w@),
        decreases list.len() - i,
    {
        if eq_ignore_ascii_case_exec(list[i].as_str(), w) {
            return true;
        }
        i = i + 1;
    }
    false
}

impl ViewConstraints {
    /// The constraints of a view for a caller: the lower of the view's and
    /// the caller's classification ceilings, and the view's other limits.
    pub fn from_view(view: &MemoryView, caller_max: Classification) -> (r: ViewConstraints)
        ensures
            r.max_classification == lower_classification(view.max_classification, caller_max),
            match (r.allowed_entity_types, view.allowed_entity_types) {
                (Some(a), Some(b)) => a@ == b@,
                (None, None) => true,
                _ => false,
            },
            match (r.blocked_edge_labels, view.blocked_edge_labels) {
                (Some(a), Some(b)) => a@ == b@,
                (None, None) => true,
                _ => false,
            },
            r.max_facts == view.max_facts,
            r.include_narrative == view.include_narrative,
            r.temporal_scope == view.temporal_scope,
            r.view_name == Some(view.name),
    {
        let effective_max = if view.max_classification.rank() <= caller_max.rank() {
            view.max_classification
        } else {
            caller_max
        };
        ViewConstraints {
            max_classification: effective_max,
            allowed_entity_types: copy_word_list(&view.allowed_entity_types),
            blocked_edge_labels: copy_word_list(&view.blocked_edge_labels),
            max_facts: view.max_facts,
            include_narrative: view.include_narrative,
            temporal_scope: view.temporal_scope,
            view_name: Some(view.name.clone()),
        }
    }

    /// No view: only the caller's ceiling applies.
    pub fn default_for_caller(caller_max: Classification) -> (r: ViewConstraints)
        ensures
            r.max_classification == caller_max,
            r.allowed_entity_types is None,
            r.blocked_edge_labels is None,
            r.max_facts is None,
            r.include_narrative,
            r.temporal_scope is None,
            r.view_name is None,
    {
        ViewConstraints {
            max_classification: caller_max,
            allowed_entity_types: None,
            blocked_edge_labels: None,
            max_facts: None,
            include_narrative: true,
            temporal_scope: None,
            view_name: None,
        }
    }

    /// An entity of this classification and type may be shown: under the
    /// ceiling, and of an allowed type (ignoring ASCII case) if types are
    /// restricted.
    pub fn allows_entity(&self, classification: Classification, entity_type: &str) -> (r: bool)
        ensures
            r == (classification_rank(classification) <= classification_rank(self.max_classification)
                && match self.allowed_entity_types {
                    Some(allowed) => listed_ignoring_case(allowed@, entity_type@),
                    None => true,
                }),
    {
        if classification.is_above(&self.max_classification) {
            return false;
        }
        match &self.allowed_entity_types {
            Some(allowed) => listed_exec(allowed, entity_type),
            None => true,
        }
    }

    /// An edge of this classification and label may be shown: under the
    /// ceiling, and not of a blocked label (ignoring ASCII case).
    pub fn allows_edge(&self, classification: Classification, label: &str) -> (r: bool)
        ensures
            r == (classification_rank(classification) <= classification_rank(self.max_classification)
                && match self.blocked_edge_labels {
                    Some(blocked) => !listed_ignoring_case(blocked@, label@),
                    None => true,
                }),
    {
        if classification.is_above(&self.max_classification) {
            return false;
        }
        match &self.blocked_edge_labels {
            Some(blocked) => !listed_exec(blocked, label),
            None => true,
        }
    }

    /// At time `now`, a fact valid from `valid_at` is inside the temporal
    /// scope.
    pub fn allows_time_at(&self, valid_at: UtcTime, now: UtcTime) -> (r: bool)
        ensures
            r == scope_admits(self.temporal_scope, valid_at, now),
    {
        match self.temporal_scope {
            None => true,
            Some(TemporalScope::CurrentOnly) => true,
            Some(TemporalScope::Since { since }) => valid_at.at_or_after(&since),
            Some(TemporalScope::LastNDays { days }) => {
                let (secs, nanos): (i128, i128) = if days == 0 {
                    (now.secs as i128, now.nanos as i128)
                } else if now.nanos >= 1_000_000_000 {
                    (now.secs as i128 + 1 - 86_400 * days as i128, now.nanos as i128 - 1_000_000_000)
                } else {
                    (now.secs as i128 - 86_400 * days as i128, now.nanos as i128)
                };
                (valid_at.secs as i128) > secs || ((valid_at.secs as i128) == secs && (valid_at.nanos as i128) >= nanos)
            },
        }
    }

    /// A fact valid from `valid_at` is inside the temporal scope now.
    pub fn allows_time(&self, valid_at: UtcTime) -> (r: bool)
        ensures
            exists|now: UtcTime| crate::time::clock_reading_ok(now) && r == #[trigger] scope_admits(self.temporal_scope, valid_at, now),
    {
        let now = crate::time::now();
        self.allows_time_at(valid_at, now)
    }
}

/// A view never widens the caller's access: its ceiling is at most the
/// caller's.
pub proof fn lemma_view_never_widens(view: Classification, caller: Classification)
    ensures
        classification_rank(lower_classification(view, caller)) <= classification_rank(caller),
        classification_rank(lower_classification(view, caller)) <= classification_rank(view),
{
}

} // verus!
