//! Entity types of the knowledge graph and the entities that extraction
//! yields before they are merged into the graph.

use vstd::prelude::*;
use crate::fresh::{empty_json_object, fresh_uuid_v7};
use crate::models::classification::Classification;
use crate::text::{ascii_lowercase, is_ascii_text, same_text, to_lowercase, trim, trimmed, unicode_lowercase};
use crate::time::UtcTime;

verus! {

/// The type of an entity in the knowledge graph; unknown words become
/// `Custom`.
#[derive(Clone, PartialEq, Eq, Hash, Debug)]
pub enum EntityType {
    Person,
    Organization,
    Product,
    Location,
    Event,
    Concept,
    /// Domain-specific custom entity type (e.g. "medication").
    Custom(String),
}

/// `r` is what a lowercased type word `w` parses to.
pub open spec fn entity_type_parsed(r: EntityType, w: Seq<char>) -> bool {
    if w == "person"@ {
        r == EntityType::Person
    } else if w == "organization"@ || w == "org"@ || w == "company"@ {
        r == EntityType::Organization
    } else if w == "product"@ {
        r == EntityType::Product
    } else if w == "location"@ || w == "place"@ {
        r == EntityType::Location
    } else if w == "event"@ {
        r == EntityType::Event
    } else if w == "concept"@ || w == "idea"@ || w == "topic"@ {
        r == EntityType::Concept
    } else {
        r matches EntityType::Custom(t) && t@ == w
    }
}

/// Canonical text of an entity type.
pub open spec fn entity_type_label(t: EntityType) -> Seq<char> {
    match t {
        EntityType::Person => "person"@,
        EntityType::Organization => "organization"@,
        EntityType::Product => "product"@,
        EntityType::Location => "location"@,
        EntityType::Event => "event"@,
        EntityType::Concept => "concept"@,
        EntityType::Custom(s) => s@,
    }
}

impl EntityType {
    /// Parse from a string, ignoring case, falling back to `Custom` with the
    /// lowercased text for unknown types.
    pub fn from_str_flexible(s: &str) -> (r: EntityType)
        ensures
            entity_type_parsed(r, unicode_lowercase(s@)),
            is_ascii_text(s@) ==> entity_type_parsed(r, ascii_lowercase(s@)),
    {
        let lower = to_lowercase(s);
        let w = lower.as_str();
        if same_text(w, "person") {
            EntityType::Person
        } else if same_text(w, "organization") || same_text(w, "org") || same_text(w, "company") {
            EntityType::Organization
        } else if same_text(w, "product") {
            EntityType::Product
        } else if same_text(w, "location") || same_text(w, "place") {
            EntityType::Location
        } else if same_text(w, "event") {
            EntityType::Event
        } else if same_text(w, "concept") || same_text(w, "idea") || same_text(w, "topic") {
            EntityType::Concept
        } else {
            EntityType::Custom(lower)
        }
    }

    /// Canonical string representation.
    pub fn as_str(&self) -> (r: &str)
        ensures
            r@ == entity_type_label(*self),
    {
        match self {
            EntityType::Person => "person",
            EntityType::Organization => "organization",
            EntityType::Product => "product",
            EntityType::Location => "location",
            EntityType::Event => "event",
            EntityType::Concept => "concept",
            EntityType::Custom(s) => s.as_str(),
        }
    }
}

/// The canonical text of a built-in entity type is ASCII, and parsing it
/// gives the type back.
pub proof fn lemma_entity_type_round_trip(t: EntityType, parsed: EntityType)
    requires
        !(t is Custom),
        entity_type_parsed(parsed, ascii_lowercase(entity_type_label(t))),
    ensures
        is_ascii_text(entity_type_label(t)),
        parsed == t,
{
    reveal_strlit("person");
    reveal_strlit("organization");
    reveal_strlit("org");
    reveal_strlit("company");
    reveal_strlit("product");
    reveal_strlit("location");
    reveal_strlit("place");
    reveal_strlit("event");
    reveal_strlit("concept");
    reveal_strlit("idea");
    reveal_strlit("topic");
    let l = entity_type_label(t);
    assert(ascii_lowercase(l) =~= l);
    match t {
        EntityType::Person => {},
        EntityType::Organization => {
            assert(l.len() != "person"@.len());
        },
        EntityType::Product => {
            assert(l.len() != "person"@.len());
            assert(l.len() != "organization"@.len() && l.len() != "org"@.len() && l[0] != "company"@[0]);
        },
        EntityType::Location => {
            assert(l.len() != "person"@.len() && l.len() != "product"@.len());
            assert(l.len() != "organization"@.len() && l.len() != "org"@.len() && l[0] != "company"@[0]);
        },
        EntityType::Event => {
            assert(l.len() != "person"@.len() && l.len() != "product"@.len() && l.len() != "location"@.len() && l[0] != "place"@[0]);
            assert(l.len() != "organization"@.len() && l.len() != "org"@.len() && l[0] != "company"@[0]);
        },
        EntityType::Concept => {
            assert(l.len() != "person"@.len() && l[0] != "product"@[0] && l.len() != "location"@.len() && l[0] != "place"@[0]);
            assert(l.len() != "organization"@.len() && l.len() != "org"@.len() && l[0] != "event"@[0]);
            assert(l[2] != "company"@[2]);
        },
        EntityType::Custom(_) => {},
    }
}

/// An entity as extraction yields it, before deduplication.
#[derive(Clone, Debug)]
pub struct ExtractedEntity {
    /// The name as extracted from the text.
    pub name: String,
    pub entity_type: EntityType,
    /// Summary or description from the extraction.
    pub summary: Option<String>,
    /// Suggested classification; `Internal` when none was given.
    pub classification: Classification,
}

impl EntityType {
    /// A copy of the type.
    pub fn copy(&self) -> (r: EntityType)
        ensures
            r == *self,
    {
        match self {
            EntityType::Person => EntityType::Person,
            EntityType::Organization => EntityType::Organization,
            EntityType::Product => EntityType::Product,
            EntityType::Location => EntityType::Location,
            EntityType::Event => EntityType::Event,
            EntityType::Concept => EntityType::Concept,
            EntityType::Custom(s) => EntityType::Custom(s.clone()),
        }
    }
}

/// A node of the knowledge graph: a named person, organisation, concept…
#[derive(Debug)]
pub struct Entity {
    pub id: u128,
    pub user_id: u128,
    /// Canonical name.
    pub name: String,
    pub entity_type: EntityType,
    pub summary: Option<String>,
    /// Other names the entity goes by.
    pub aliases: Vec<String>,
    pub metadata: serde_json::Value,
    pub classification: Classification,
    /// Episodes that mentioned it.
    pub mention_count: u64,
    pub community_id: Option<u128>,
    pub created_at: UtcTime,
    pub updated_at: UtcTime,
}

/// A name, trimmed and lowercased, as names are compared.
pub open spec fn normalized_name(s: Seq<char>) -> Seq<char> {
    unicode_lowercase(trim(s))
}

/// The name, lowercased, is the entity's name or one of its aliases.
pub open spec fn known_name(name: Seq<char>, aliases: Seq<String>, lowered: Seq<char>) -> bool {
    unicode_lowercase(name) == lowered || exists|i: int| 0 <= i < aliases.len() && #[trigger] unicode_lowercase(aliases[i]@) == lowered
}

fn known_name_exec(name: &String, aliases: &Vec<String>, lowered: &String) -> (r: bool)
    ensures
        r == known_name(name@, aliases@, lowered@),
{
    let n = to_lowercase(name.as_str());
    if same_text(n.as_str(), lowered.as_str()) {
        return true;
    }
    let mut i: usize = 0;
    while i < aliases.len()
        invariant
            i <= aliases.len(),
            unicode_lowercase(name@) != lowered@,
            forall|k: int| 0 <= k < i ==> #[trigger] unicode_lowercase(aliases@[k]@) != lowered@,
        decreases aliases.len() - i,
    {
        let a = to_lowercase(aliases[i].as_str());
        if same_text(a.as_str(), lowered.as_str()) {
            return true;
        }
        i = i + 1;
    }
    false
}

impl Entity {
    /// The entity of an extraction, mentioned once, with id `fresh_id`,
    /// made at `now`.
    pub fn from_extraction_with(extracted: &ExtractedEntity, user_id: u128, fresh_id: u128, now: UtcTime) -> (r: Entity)
        ensures
            r.id == fresh_id,
            r.user_id == user_id,
            r.name == extracted.name,
            r.entity_type == extracted.entity_type,
            r.summary == extracted.summary,
            r.aliases@.len() == 0,
            r.classification == extracted.classification,
            r.mention_count == 1,
            r.community_id is None,
            r.created_at == now,
            r.updated_at == now,
    {
        Entity {
            id: fresh_id,
            user_id,
            name: extracted.name.clone(),
            entity_type: extracted.entity_type.copy(),
            summary: match &extracted.summary {
                Some(s) => Some(s.clone()),
                None => None,
            },
            aliases: Vec::new(),
            metadata: empty_json_object(),
            classification: extracted.classification,
            mention_count: 1,
            community_id: None,
            created_at: now,
            updated_at: now,
        }
    }

    /// The entity of an extraction, with a fresh UUIDv7, made now.
    pub fn from_extraction(extracted: &ExtractedEntity, user_id: u128, episode_id: u128) -> (r: Entity)
        ensures
            r.user_id == user_id,
            r.name == extracted.name,
            r.entity_type == extracted.entity_type,
            r.summary == extracted.summary,
            r.aliases@.len() == 0,
            r.classification == extracted.classification,
            r.mention_count == 1,
            r.community_id is None,
            r.created_at == r.updated_at,
    {
        let id = fresh_uuid_v7();
        Entity::from_extraction_with(extracted, user_id, id, crate::time::now())
    }

    /// One more mention, at `now`.
    pub fn record_mention_at(&mut self, now: UtcTime)
        requires
            old(self).mention_count < u64::MAX,
        ensures
            final(self).mention_count == old(self).mention_count + 1,
            final(self).updated_at == now,
            final(self).name == old(self).name,
            final(self).aliases == old(self).aliases,
    {
        self.mention_count = self.mention_count + 1;
        self.updated_at = now;
    }

    /// One more mention.
    pub fn record_mention(&mut self)
        requires
            old(self).mention_count < u64::MAX,
        ensures
            final(self).mention_count == old(self).mention_count + 1,
            final(self).name == old(self).name,
            final(self).aliases == old(self).aliases,
    {
        self.record_mention_at(crate::time::now());
    }

    /// Add an alias at `now`, unless its trimmed, lowercased form is the
    /// name or an alias already (ignoring case).
    pub fn add_alias_at(&mut self, alias: String, now: UtcTime)
        ensures
            final(self).name == old(self).name,
            known_name(old(self).name@, old(self).aliases@, normalized_name(alias@)) ==> {
                &&& final(self).aliases == old(self).aliases
                &&& final(self).updated_at == old(self).updated_at
            },
            !known_name(old(self).name@, old(self).aliases@, normalized_name(alias@)) ==> {
                &&& final(self).aliases@ == old(self).aliases@.push(alias)
                &&& final(self).updated_at == now
            },
    {
        let t = trimmed(alias.as_str());
        let normalized = to_lowercase(t.as_str());
        if !known_name_exec(&self.name, &self.aliases, &normalized) {
            self.aliases.push(alias);
            self.updated_at = now;
        }
    }

    /// Add an alias, unless it is the name or an alias already (ignoring
    /// case and surrounding whitespace).
    pub fn add_alias(&mut self, alias: String)
        ensures
            final(self).name == old(self).name,
            known_name(old(self).name@, old(self).aliases@, normalized_name(alias@)) ==> final(self).aliases == old(self).aliases,
            !known_name(old(self).name@, old(self).aliases@, normalized_name(alias@)) ==> final(self).aliases@ == old(self).aliases@.push(alias),
    {
        self.add_alias_at(alias, crate::time::now());
    }

    /// The candidate, trimmed and lowercased, is the name or an alias
    /// (ignoring case).
    pub fn matches_name(&self, candidate: &str) -> (r: bool)
        ensures
            r == known_name(self.name@, self.aliases@, normalized_name(candidate@)),
    {
        let t = trimmed(candidate);
        let normalized = to_lowercase(t.as_str());
        known_name_exec(&self.name, &self.aliases, &normalized)
    }

    /// Replace the summary at `now`.
    pub fn update_summary_at(&mut self, new_summary: String, now: UtcTime)
        ensures
            final(self).summary == Some(new_summary),
            final(self).updated_at == now,
            final(self).name == old(self).name,
            final(self).aliases == old(self).aliases,
    {
        self.summary = Some(new_summary);
        self.updated_at = now;
    }

    /// Replace the summary.
    pub fn update_summary(&mut self, new_summary: String)
        ensures
            final(self).summary == Some(new_summary),
            final(self).name == old(self).name,
            final(self).aliases == old(self).aliases,
    {
        self.update_summary_at(new_summary, crate::time::now());
    }
}

/// Once an alias without surrounding whitespace is among the aliases, the
/// entity answers to it.
pub proof fn lemma_added_alias_matches(name: Seq<char>, aliases: Seq<String>, alias: String)
    requires
        trim(alias@) == alias@,
    ensures
        known_name(name, aliases.push(alias), normalized_name(alias@)),
{
    assert(aliases.push(alias)[aliases.len() as int] == alias);
}

} // verus!
