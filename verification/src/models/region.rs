//! Multi-agent shared memory regions: permissions, access-control entries
//! and the rules for agent ids and region names.

use vstd::prelude::*;
use vstd::utf8::encode_utf8;
use crate::text::{trim, has_char, has_double_dot, is_control_char, chars_of, trim_bounds, owned, lemma_encode_utf8_len, utf8_len_capped, range_has_char, range_has_double_dot, is_ascii_alnum_exec, is_control_exec};
use crate::time::{clock_reading_ok, UtcTime, time_le, now};
use crate::models::classification::Classification;
use crate::models::agent::is_agent_id_char;

verus! {

/// Permission levels for memory region access, ordered
/// `Read < Write < Manage`.
#[derive(Clone, Copy, PartialEq, Eq, PartialOrd, Ord, Debug, Structural)]
pub enum RegionPermission {
    /// Can retrieve facts from the region.
    Read,
    /// Can add facts to the region.
    Write,
    /// Can modify the region definition and its access-control entries.
    Manage,
}

pub open spec fn permission_rank(p: RegionPermission) -> nat {
    match p {
        RegionPermission::Read => 0,
        RegionPermission::Write => 1,
        RegionPermission::Manage => 2,
    }
}

impl RegionPermission {
    /// `true` when this permission is at least as high as `required`.
    pub fn has_at_least(self, required: RegionPermission) -> (r: bool)
        ensures
            r == (permission_rank(self) >= permission_rank(required)),
    {
        self.rank() >= required.rank()
    }

    pub fn rank(self) -> (r: u8)
        ensures
            r == permission_rank(self),
    {
        match self {
            RegionPermission::Read => 0,
            RegionPermission::Write => 1,
            RegionPermission::Manage => 2,
        }
    }
}

/// Filter for selecting entities in a memory region.
#[derive(Clone, Debug)]
pub struct RegionEntityFilter {
    /// Only include entities of these types (empty = all types).
    pub entity_types: Vec<String>,
    /// Only include entities whose name contains one of these patterns.
    pub name_patterns: Vec<String>,
}

/// Access-control entry granting an agent permission to a memory region.
pub struct MemoryRegionAcl {
    pub region_id: u128,
    pub agent_id: String,
    pub permission: RegionPermission,
    pub granted_by: String,
    pub granted_at: UtcTime,
    /// After this time the entry is ignored.
    pub expires_at: Option<UtcTime>,
}

/// The entry has expired at time `now`.
pub open spec fn acl_expired_at(acl: MemoryRegionAcl, now: UtcTime) -> bool {
    match acl.expires_at {
        Some(exp) => time_le(exp, now),
        None => false,
    }
}

/// The entry is unexpired at `now` and grants at least `required`.
pub open spec fn acl_grants_at(acl: MemoryRegionAcl, required: RegionPermission, now: UtcTime) -> bool {
    !acl_expired_at(acl, now) && permission_rank(acl.permission) >= permission_rank(required)
}

impl MemoryRegionAcl {
    /// `true` when the entry has an expiry at or before `now`.
    pub fn is_expired_at(&self, now: &UtcTime) -> (r: bool)
        ensures
            r == acl_expired_at(*self, *now),
    {
        match &self.expires_at {
            Some(exp) => now.at_or_after(exp),
            None => false,
        }
    }

    /// `true` when the entry has an expiry that the current time has reached.
    /// Without an expiry it never expires.
    pub fn is_expired(&self) -> (r: bool)
        ensures
            self.expires_at is None ==> !r,
            exists|t: UtcTime| clock_reading_ok(t) && r == #[trigger] acl_expired_at(*self, t),
    {
        let t = now();
        self.is_expired_at(&t)
    }

    /// `true` when the entry is unexpired at `now` and grants at least `required`.
    pub fn has_permission_at(&self, required: RegionPermission, now: &UtcTime) -> (r: bool)
        ensures
            r == acl_grants_at(*self, required, *now),
    {
        if self.is_expired_at(now) {
            return false;
        }
        self.permission.has_at_least(required)
    }

    /// `true` when the entry is unexpired now and grants at least `required`.
    pub fn has_permission(&self, required: RegionPermission) -> (r: bool)
        ensures
            r ==> permission_rank(self.permission) >= permission_rank(required),
            self.expires_at is None ==> (r == (permission_rank(self.permission) >= permission_rank(required))),
            exists|t: UtcTime| clock_reading_ok(t) && r == #[trigger] acl_grants_at(*self, required, t),
    {
        let t = now();
        self.has_permission_at(required, &t)
    }
}

/// The message with which an agent id for region operations is refused, if
/// it is: a blank id is empty; otherwise the rules of fork agent ids apply
/// to the id as given, so surrounding whitespace is refused too.
pub open spec fn region_agent_id_error(s: Seq<char>) -> Option<Seq<char>> {
    if trim(s).len() == 0 {
        Some("agent_id must not be empty"@)
    } else if encode_utf8(s).len() > 128 {
        Some("agent_id must be <= 128 characters"@)
    } else if has_char(s, ':') || has_char(s, '/') || has_double_dot(s) {
        Some("agent_id must not contain ':', '/', or '..'"@)
    } else if !(forall|i: int| 0 <= i < s.len() ==> is_agent_id_char(#[trigger] s[i])) {
        Some("agent_id must contain only alphanumeric characters, hyphens, underscores, or dots"@)
    } else {
        None
    }
}

/// The message with which a region name is refused, if it is. The rules
/// apply to the trimmed name.
pub open spec fn region_name_error(s: Seq<char>) -> Option<Seq<char>> {
    let t = trim(s);
    if t.len() == 0 {
        Some("region name cannot be empty"@)
    } else if encode_utf8(t).len() > 128 {
        Some("region name must be <= 128 characters"@)
    } else if exists|i: int| 0 <= i < t.len() && is_control_char(#[trigger] t[i]) {
        Some("region name must not contain control characters"@)
    } else {
        None
    }
}

/// Check of an agent id used in region operations: not blank, 1 to 128
/// bytes, no `:`, `/` or `..`, and only ASCII alphanumerics, hyphens,
/// underscores and dots (so no whitespace or control characters).
#[verifier::loop_isolation(false)]
pub fn validate_agent_id(id: &str) -> (r: Result<(), String>)
    ensures
        match r {
            Ok(_) => region_agent_id_error(id@) is None,
            Err(e) => region_agent_id_error(id@) == Some(e@),
        },
{
    let v = chars_of(id);
    let (a, b) = trim_bounds(&v);
    if a == b {
        return Err(owned("agent_id must not be empty"));
    }
    let n = v.len();
    let ghost t = id@;
    proof {
        lemma_encode_utf8_len(t);
        assert(t == v@.subrange(0, n as int));
    }
    if utf8_len_capped(&v, 0, n, 128) > 128 {
        return Err(owned("agent_id must be <= 128 characters"));
    }
    if range_has_char(&v, 0, n, ':') || range_has_char(&v, 0, n, '/') || range_has_double_dot(&v, 0, n) {
        return Err(owned("agent_id must not contain ':', '/', or '..'"));
    }
    let mut i: usize = 0;
    while i < n
        invariant
            i <= n == v.len(),
            t == v@,
            forall|j: int| 0 <= j < i ==> is_agent_id_char(#[trigger] v@[j]),
        decreases n - i,
    {
        let c = v[i];
        if !(is_ascii_alnum_exec(c) || c == '-' || c == '_' || c == '.') {
            assert(t[i as int] == c);
            return Err(owned("agent_id must contain only alphanumeric characters, hyphens, underscores, or dots"));
        }
        i = i + 1;
    }
    Ok(())
}

/// Check of a region name: after trimming, 1 to 128 bytes and no control
/// characters.
#[verifier::loop_isolation(false)]
pub fn validate_region_name(name: &str) -> (r: Result<(), String>)
    ensures
        match r {
            Ok(_) => region_name_error(name@) is None,
            Err(e) => region_name_error(name@) == Some(e@),
        },
{
    let v = chars_of(name);
    let (a, b) = trim_bounds(&v);
    let ghost t = trim(name@);
    if a == b {
        return Err(owned("region name cannot be empty"));
    }
    proof {
        lemma_encode_utf8_len(t);
    }
    if utf8_len_capped(&v, a, b, 128) > 128 {
        return Err(owned("region name must be <= 128 characters"));
    }
    let mut i = a;
    while i < b
        invariant
            a <= i <= b <= v.len(),
            t == v@.subrange(a as int, b as int),
            forall|j: int| a <= j < i ==> !is_control_char(#[trigger] v@[j]),
        decreases b - i,
    {
        if is_control_exec(v[i]) {
            assert(t[i - a] == v@[i as int]);
            return Err(owned("region name must not contain control characters"));
        }
        i = i + 1;
    }
    assert forall|j: int| 0 <= j < t.len() implies !is_control_char(#[trigger] t[j]) by {
        assert(t[j] == v@[a + j]);
    }
    Ok(())
}

/// Which edges a region includes.  The minimum confidence is a score key.
#[derive(Clone, Debug)]
pub struct RegionEdgeFilter {
    /// Only these labels; all when empty.
    pub labels: Vec<String>,
    pub min_confidence: Option<u32>,
}

/// A shared slice of a user's memory, owned by an agent.
#[derive(Clone, Debug)]
pub struct MemoryRegion {
    pub id: u128,
    pub name: String,
    pub owner_agent_id: String,
    pub user_id: u128,
    pub entity_filter: Option<RegionEntityFilter>,
    pub edge_filter: Option<RegionEdgeFilter>,
    /// The highest classification the region shares.
    pub classification_ceiling: Classification,
    pub created_at: UtcTime,
    pub updated_at: UtcTime,
}

/// Request to create a region.
#[derive(Clone, Debug)]
pub struct CreateRegionRequest {
    pub name: String,
    pub owner_agent_id: String,
    pub user_id: u128,
    pub entity_filter: Option<RegionEntityFilter>,
    pub edge_filter: Option<RegionEdgeFilter>,
    pub classification_ceiling: Classification,
}

/// Partial update of a region.
#[derive(Clone, Debug)]
pub struct UpdateRegionRequest {
    pub name: Option<String>,
    pub entity_filter: Option<RegionEntityFilter>,
    pub edge_filter: Option<RegionEdgeFilter>,
    pub classification_ceiling: Option<Classification>,
}

/// Request to grant an agent access to a region.
#[derive(Clone, Debug)]
pub struct GrantRegionAccessRequest {
    pub agent_id: String,
    pub permission: RegionPermission,
    pub expires_at: Option<UtcTime>,
}

} // verus!
