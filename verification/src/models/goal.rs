//! Retrieval goals: the objective that conditions how memory is assembled.

use vstd::prelude::*;
use crate::fresh::fresh_uuid_v7;
use crate::score::{MINUS_ONE_SCORE_KEY, ONE_SCORE_KEY, ZERO_SCORE_KEY};
use crate::text::{contains_text, has_substring, same_text, to_lowercase, unicode_lowercase};
use crate::time::UtcTime;

verus! {

/// A retrieval goal, named after a stored goal profile.
#[derive(Clone, Debug, PartialEq)]
pub enum RetrievalGoal {
    Named(String),
}

impl RetrievalGoal {
    /// The goal name.
    pub fn name(&self) -> (r: &str)
        ensures
            match *self {
                RetrievalGoal::Named(n) => r@ == n@,
            },
    {
        match self {
            RetrievalGoal::Named(name) => name.as_str(),
        }
    }
}

/// A profile that conditions retrieval on an objective: multipliers per
/// entity category and edge label, a temporal bias, and keywords that
/// boost or suppress a result.  Multipliers and the bias are score order
/// keys; each category or label is listed once.
#[derive(Clone, Debug)]
pub struct GoalProfile {
    pub id: u128,
    pub name: String,
    pub description: String,
    pub user_id: Option<u128>,
    pub entity_category_boosts: Vec<(String, u32)>,
    pub edge_label_boosts: Vec<(String, u32)>,
    /// From -1 (older facts) to 1 (newer facts).
    pub temporal_bias: u32,
    pub recency_window_days: u32,
    pub boost_keywords: Vec<String>,
    pub suppress_keywords: Vec<String>,
    pub created_at: UtcTime,
    pub updated_at: UtcTime,
}

/// Request to create a goal profile.
#[derive(Clone, Debug)]
pub struct CreateGoalProfileRequest {
    pub name: String,
    pub description: String,
    pub entity_category_boosts: Vec<(String, u32)>,
    pub edge_label_boosts: Vec<(String, u32)>,
    pub temporal_bias: u32,
    pub recency_window_days: u32,
    pub boost_keywords: Vec<String>,
    pub suppress_keywords: Vec<String>,
}

/// Partial update of a goal profile: each field present replaces the
/// profile's.
#[derive(Clone, Debug)]
pub struct UpdateGoalProfileRequest {
    pub description: Option<String>,
    pub entity_category_boosts: Option<Vec<(String, u32)>>,
    pub edge_label_boosts: Option<Vec<(String, u32)>>,
    pub temporal_bias: Option<u32>,
    pub recency_window_days: Option<u32>,
    pub boost_keywords: Option<Vec<String>>,
    pub suppress_keywords: Option<Vec<String>>,
}

impl Default for UpdateGoalProfileRequest {
    /// An update that changes nothing.
    fn default() -> (r: UpdateGoalProfileRequest)
        ensures
            r.description is None,
            r.entity_category_boosts is None,
            r.edge_label_boosts is None,
            r.temporal_bias is None,
            r.recency_window_days is None,
            r.boost_keywords is None,
            r.suppress_keywords is None,
    {
        UpdateGoalProfileRequest {
            description: None,
            entity_category_boosts: None,
            edge_label_boosts: None,
            temporal_bias: None,
            recency_window_days: None,
            boost_keywords: None,
            suppress_keywords: None,
        }
    }
}

/// The multiplier listed for a key, or the neutral `1.0`.
pub open spec fn boost_of(boosts: Seq<(String, u32)>, key: Seq<char>) -> u32
    decreases boosts.len(),
{
    if boosts.len() == 0 {
        ONE_SCORE_KEY
    } else if boosts[0].0@ == key {
        boosts[0].1
    } else {
        boost_of(boosts.drop_first(), key)
    }
}

/// The lowercased text contains some keyword, lowercased.
pub open spec fn mentions_keyword(keywords: Seq<String>, text: Seq<char>) -> bool {
    exists|i: int| 0 <= i < keywords.len() && has_substring(unicode_lowercase(text), #[trigger] unicode_lowercase(keywords[i]@))
}

/// A bias key held within `[-1, 1]`.
pub open spec fn clamped_bias(b: u32) -> u32 {
    if b < MINUS_ONE_SCORE_KEY {
        MINUS_ONE_SCORE_KEY
    } else if b > ONE_SCORE_KEY {
        ONE_SCORE_KEY
    } else {
        b
    }
}

fn boost_lookup(boosts: &Vec<(String, u32)>, key: &str) -> (r: u32)
    ensures
        r == boost_of(boosts@, key@),
{
    let mut i: usize = 0;
    proof {
        assert(boosts@.skip(0) =~= boosts@);
    }
    while i < boosts.len()
        invariant
            i <= boosts.len(),
            boost_of(boosts@, key@) == boost_of(boosts@.skip(i as int), key@),
        decreases boosts.len() - i,
    {
        proof {
            assert(boosts@.skip(i as int)[0] == boosts@[i as int]);
            assert(boosts@.skip(i as int).drop_first() =~= boosts@.skip(i + 1));
        }
        if same_text(boosts[i].0.as_str(), key) {
            return boosts[i].1;
        }
        i = i + 1;
    }
    proof {
        assert(boosts@.skip(i as int) =~= Seq::<(String, u32)>::empty());
    }
    ONE_SCORE_KEY
}

fn keyword_hit(keywords: &Vec<String>, text: &str) -> (r: bool)
    ensures
        r == mentions_keyword(keywords@, text@),
{
    let lower = to_lowercase(text);
    let mut i: usize = 0;
    while i < keywords.len()
        invariant
            i <= keywords.len(),
            lower@ == unicode_lowercase(text@),
            forall|k: int| 0 <= k < i ==> !has_substring(unicode_lowercase(text@), #[trigger] unicode_lowercase(keywords@[k]@)),
        decreases keywords.len() - i,
    {
        let kw = to_lowercase(keywords[i].as_str());
        if contains_text(lower.as_str(), kw.as_str()) {
            return true;
        }
        i = i + 1;
    }
    false
}

impl GoalProfile {
    /// A neutral profile named `name`, with id `fresh_id`, made at `now`.
    pub fn new_with(name: String, user_id: Option<u128>, fresh_id: u128, now: UtcTime) -> (r: GoalProfile)
        ensures
            r.id == fresh_id,
            r.name == name,
            r.description@.len() == 0,
            r.user_id == user_id,
            r.entity_category_boosts@.len() == 0,
            r.edge_label_boosts@.len() == 0,
            r.temporal_bias == ZERO_SCORE_KEY,
            r.recency_window_days == 0,
            r.boost_keywords@.len() == 0,
            r.suppress_keywords@.len() == 0,
            r.created_at == now,
            r.updated_at == now,
    {
        GoalProfile {
            id: fresh_id,
            name,
            description: String::new(),
            user_id,
            entity_category_boosts: Vec::new(),
            edge_label_boosts: Vec::new(),
            temporal_bias: ZERO_SCORE_KEY,
            recency_window_days: 0,
            boost_keywords: Vec::new(),
            suppress_keywords: Vec::new(),
            created_at: now,
            updated_at: now,
        }
    }

    /// A neutral profile with a fresh UUIDv7, made now.
    pub fn new(name: String, user_id: Option<u128>) -> (r: GoalProfile)
        ensures
            r.name == name,
            r.description@.len() == 0,
            r.user_id == user_id,
            r.entity_category_boosts@.len() == 0,
            r.edge_label_boosts@.len() == 0,
            r.temporal_bias == ZERO_SCORE_KEY,
            r.recency_window_days == 0,
            r.boost_keywords@.len() == 0,
            r.suppress_keywords@.len() == 0,
            r.created_at == r.updated_at,
    {
        let id = fresh_uuid_v7();
        GoalProfile::new_with(name, user_id, id, crate::time::now())
    }

    /// Hold the temporal bias within `[-1, 1]`.
    pub fn clamp_temporal_bias(&mut self)
        ensures
            *final(self) == (GoalProfile { temporal_bias: clamped_bias(old(self).temporal_bias), ..*old(self) }),
    {
        if self.temporal_bias < MINUS_ONE_SCORE_KEY {
            self.temporal_bias = MINUS_ONE_SCORE_KEY;
        } else if self.temporal_bias > ONE_SCORE_KEY {
            self.temporal_bias = ONE_SCORE_KEY;
        }
    }

    /// The multiplier of an entity category (neutral when unlisted).
    pub fn entity_boost(&self, category: &str) -> (r: u32)
        ensures
            r == boost_of(self.entity_category_boosts@, category@),
    {
        boost_lookup(&self.entity_category_boosts, category)
    }

    /// The multiplier of an edge label (neutral when unlisted).
    pub fn edge_boost(&self, label: &str) -> (r: u32)
        ensures
            r == boost_of(self.edge_label_boosts@, label@),
    {
        boost_lookup(&self.edge_label_boosts, label)
    }

    /// The text mentions a boost keyword, ignoring case.
    pub fn matches_boost_keyword(&self, text: &str) -> (r: bool)
        ensures
            r == mentions_keyword(self.boost_keywords@, text@),
    {
        keyword_hit(&self.boost_keywords, text)
    }

    /// The text mentions a suppress keyword, ignoring case.
    pub fn matches_suppress_keyword(&self, text: &str) -> (r: bool)
        ensures
            r == mentions_keyword(self.suppress_keywords@, text@),
    {
        keyword_hit(&self.suppress_keywords, text)
    }

    /// The profile with the update's fields replacing its own, the bias
    /// clamped, updated at `now`.
    pub fn apply_update_at(self, update: UpdateGoalProfileRequest, now: UtcTime) -> (r: GoalProfile)
        ensures
            r.id == self.id,
            r.name == self.name,
            r.user_id == self.user_id,
            r.created_at == self.created_at,
            r.description == (match update.description {
                Some(d) => d,
                None => self.description,
            }),
            r.entity_category_boosts == (match update.entity_category_boosts {
                Some(b) => b,
                None => self.entity_category_boosts,
            }),
            r.edge_label_boosts == (match update.edge_label_boosts {
                Some(b) => b,
                None => self.edge_label_boosts,
            }),
            r.temporal_bias == clamped_bias(match update.temporal_bias {
                Some(b) => b,
                None => self.temporal_bias,
            }),
            r.recency_window_days == (match update.recency_window_days {
                Some(w) => w,
                None => self.recency_window_days,
            }),
            r.boost_keywords == (match update.boost_keywords {
                Some(k) => k,
                None => self.boost_keywords,
            }),
            r.suppress_keywords == (match update.suppress_keywords {
                Some(k) => k,
                None => self.suppress_keywords,
            }),
            r.updated_at == now,
    {
        let mut p = self;
        match update.description {
            Some(d) => p.description = d,
            None => {},
        }
        match update.entity_category_boosts {
            Some(b) => p.entity_category_boosts = b,
            None => {},
        }
        match update.edge_label_boosts {
            Some(b) => p.edge_label_boosts = b,
            None => {},
        }
        match update.temporal_bias {
            Some(b) => p.temporal_bias = b,
            None => {},
        }
        match update.recency_window_days {
            Some(w) => p.recency_window_days = w,
            None => {},
        }
        match update.boost_keywords {
            Some(k) => p.boost_keywords = k,
            None => {},
        }
        match update.suppress_keywords {
            Some(k) => p.suppress_keywords = k,
            None => {},
        }
        p.clamp_temporal_bias();
        p.updated_at = now;
        p
    }

    /// The profile with the update applied, updated now.
    pub fn apply_update(self, update: UpdateGoalProfileRequest) -> (r: GoalProfile)
        ensures
            r.id == self.id,
            r.name == self.name,
            r.user_id == self.user_id,
            r.created_at == self.created_at,
            r.description == (match update.description {
                Some(d) => d,
                None => self.description,
            }),
            r.entity_category_boosts == (match update.entity_category_boosts {
                Some(b) => b,
                None => self.entity_category_boosts,
            }),
            r.edge_label_boosts == (match update.edge_label_boosts {
                Some(b) => b,
                None => self.edge_label_boosts,
            }),
            r.temporal_bias == clamped_bias(match update.temporal_bias {
                Some(b) => b,
                None => self.temporal_bias,
            }),
            r.recency_window_days == (match update.recency_window_days {
                Some(w) => w,
                None => self.recency_window_days,
            }),
            r.boost_keywords == (match update.boost_keywords {
                Some(k) => k,
                None => self.boost_keywords,
            }),
            r.suppress_keywords == (match update.suppress_keywords {
                Some(k) => k,
                None => self.suppress_keywords,
            }),
    {
        self.apply_update_at(update, crate::time::now())
    }
}

} // verus!
