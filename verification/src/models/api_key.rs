//! API keys: roles ordered `Read < Write < Admin`, scopes that restrict a
//! key to some users, agents and classifications, and the checks that every
//! request goes through.

use vstd::prelude::*;
use vstd::utf8::encode_utf8;
use crate::digest::{hex_encode, hex_lower, sha256_hex, sha256_spec};
use crate::models::lora::uuid_byte;
use crate::error::MnemoError;
use crate::text::{byte_len, owned, push_str, utf8_len, lemma_encode_utf8_len};
use crate::time::{UtcTime, clock_reading_ok, time_le, now};

pub use crate::models::classification::Classification;

verus! {

/// Role-based access control for API keys.
#[derive(Clone, Copy, PartialEq, Eq, PartialOrd, Ord, Hash, Debug, Structural)]
pub enum ApiKeyRole {
    /// GET endpoints only.
    Read,
    /// Read plus writes on memory, sessions, episodes and webhooks.
    Write,
    /// Write plus policy, key and identity administration.
    Admin,
}

/// Position of a role in the order `Read < Write < Admin`.
pub open spec fn role_rank(r: ApiKeyRole) -> nat {
    match r {
        ApiKeyRole::Read => 0,
        ApiKeyRole::Write => 1,
        ApiKeyRole::Admin => 2,
    }
}

pub open spec fn role_label(r: ApiKeyRole) -> Seq<char> {
    match r {
        ApiKeyRole::Read => "read"@,
        ApiKeyRole::Write => "write"@,
        ApiKeyRole::Admin => "admin"@,
    }
}

impl ApiKeyRole {
    pub fn rank(&self) -> (r: u8)
        ensures
            r == role_rank(*self),
    {
        match self {
            ApiKeyRole::Read => 0,
            ApiKeyRole::Write => 1,
            ApiKeyRole::Admin => 2,
        }
    }

    /// This role meets or exceeds `required`.
    pub fn has_at_least(&self, required: ApiKeyRole) -> (r: bool)
        ensures
            r == (role_rank(*self) >= role_rank(required)),
    {
        self.rank() >= required.rank()
    }

    pub fn as_str(&self) -> (r: &'static str)
        ensures
            r@ == role_label(*self),
    {
        match self {
            ApiKeyRole::Read => "read",
            ApiKeyRole::Write => "write",
            ApiKeyRole::Admin => "admin",
        }
    }

    /// The label as an owned string (what `Display` writes).
    pub fn to_string(&self) -> (r: String)
        ensures
            r@ == role_label(*self),
    {
        owned(self.as_str())
    }
}

/// Optional fine-grained restrictions for an API key beyond its role.
/// User identifiers are UUIDs held as their 128-bit value.
#[derive(Clone, Debug)]
pub struct ApiKeyScope {
    /// Restrict to these users; `None` allows all users.
    pub allowed_user_ids: Option<Vec<u128>>,
    /// Restrict to these agents; `None` allows all agents.
    pub allowed_agent_ids: Option<Vec<String>>,
    /// Highest classification the key can see; `None` means `Restricted`.
    pub max_classification: Option<Classification>,
}

impl Default for ApiKeyScope {
    fn default() -> (r: ApiKeyScope)
        ensures
            r.allowed_user_ids is None,
            r.allowed_agent_ids is None,
            r.max_classification is None,
    {
        ApiKeyScope { allowed_user_ids: None, allowed_agent_ids: None, max_classification: None }
    }
}

/// The scope lets the key reach `user_id`.
pub open spec fn scope_allows_user(s: ApiKeyScope, user_id: u128) -> bool {
    match s.allowed_user_ids {
        None => true,
        Some(ids) => ids@.contains(user_id),
    }
}

/// The scope lets the key act for `agent_id`.
pub open spec fn scope_allows_agent(s: ApiKeyScope, agent_id: Seq<char>) -> bool {
    match s.allowed_agent_ids {
        None => true,
        Some(ids) => lists_text(ids@, agent_id),
    }
}

/// One of the strings is `t`.
pub open spec fn lists_text(ids: Seq<String>, t: Seq<char>) -> bool {
    exists|i: int| 0 <= i < ids.len() && #[trigger] ids[i]@ == t
}

pub open spec fn scope_max(s: ApiKeyScope) -> Classification {
    match s.max_classification {
        None => Classification::Restricted,
        Some(c) => c,
    }
}

/// The ceiling of a scope: an unset ceiling grants every level (no
/// classification is above it), a set one is exactly the level it names.
pub proof fn lemma_scope_ceiling(s: ApiKeyScope)
    ensures
        s.max_classification is None ==> forall|c: Classification|
            #[trigger] crate::models::classification::classification_rank(c)
                <= crate::models::classification::classification_rank(scope_max(s)),
        s.max_classification is None ==> scope_max(s) == Classification::Restricted,
        s.max_classification matches Some(c) ==> scope_max(s) == c,
{
}

impl ApiKeyScope {
    /// `user_id` is permitted by this scope.
    pub fn allows_user(&self, user_id: u128) -> (r: bool)
        ensures
            r == scope_allows_user(*self, user_id),
    {
        match &self.allowed_user_ids {
            None => true,
            Some(ids) => {
                let mut i: usize = 0;
                while i < ids.len()
                    invariant
                        self.allowed_user_ids == Some(*ids),
                        i <= ids.len(),
                        forall|j: int| 0 <= j < i ==> ids@[j] != user_id,
                    decreases ids.len() - i,
                {
                    if ids[i] == user_id {
                        assert(ids@[i as int] == user_id);
                        return true;
                    }
                    i = i + 1;
                }
                false
            },
        }
    }

    /// `agent_id` is permitted by this scope.
    pub fn allows_agent(&self, agent_id: &str) -> (r: bool)
        ensures
            r == scope_allows_agent(*self, agent_id@),
    {
        match &self.allowed_agent_ids {
            None => true,
            Some(ids) => {
                let mut i: usize = 0;
                while i < ids.len()
                    invariant
                        self.allowed_agent_ids == Some(*ids),
                        i <= ids.len(),
                        forall|j: int| 0 <= j < i ==> #[trigger] ids@[j]@ != agent_id@,
                    decreases ids.len() - i,
                {
                    if crate::text::same_text(ids[i].as_str(), agent_id) {
                        assert(ids@[i as int]@ == agent_id@);
                        assert(lists_text(ids@, agent_id@));
                        return true;
                    }
                    i = i + 1;
                }
                false
            },
        }
    }

    /// The effective highest classification, `Restricted` when unset.
    pub fn effective_max_classification(&self) -> (r: Classification)
        ensures
            r == scope_max(*self),
            self.max_classification is None ==> r == Classification::Restricted,
            self.max_classification matches Some(c) ==> r == c,
    {
        match self.max_classification {
            None => Classification::Restricted,
            Some(c) => c,
        }
    }
}

/// A stored API key.  Only the SHA-256 hash of the raw key is kept.
#[derive(Clone, Debug)]
pub struct ApiKey {
    pub id: u128,
    pub name: String,
    pub key_hash: String,
    pub key_prefix: String,
    pub role: ApiKeyRole,
    pub scope: Option<ApiKeyScope>,
    pub created_by: Option<String>,
    pub created_at: UtcTime,
    pub last_used_at: Option<UtcTime>,
    pub expires_at: Option<UtcTime>,
    pub revoked: bool,
}

/// The key authenticates at time `now`: not revoked and, if it expires,
/// `now` is still before the expiry.
pub open spec fn key_active_at(k: ApiKey, now: UtcTime) -> bool {
    !k.revoked && match k.expires_at {
        None => true,
        Some(exp) => !time_le(exp, now),
    }
}

impl ApiKey {
    /// The key is valid for authentication at `now`.
    pub fn is_active_at(&self, now: &UtcTime) -> (r: bool)
        ensures
            r == key_active_at(*self, *now),
    {
        if self.revoked {
            return false;
        }
        match &self.expires_at {
            Some(exp) => !now.at_or_after(exp),
            None => true,
        }
    }

    /// The key is valid for authentication right now: not revoked, and not
    /// past its expiry at the moment the clock is read.
    pub fn is_active(&self) -> (r: bool)
        ensures
            self.revoked ==> !r,
            !self.revoked && self.expires_at is None ==> r,
            exists|t: UtcTime| clock_reading_ok(t) && r == #[trigger] key_active_at(*self, t),
    {
        let t = now();
        self.is_active_at(&t)
    }
}

/// Identity of the caller, taken from the authenticated API key.
#[derive(Clone, Debug)]
pub struct CallerContext {
    pub key_id: u128,
    pub key_name: String,
    pub role: ApiKeyRole,
    pub scope: Option<ApiKeyScope>,
}

impl CallerContext {
    /// An admin context for the bootstrap key or auth-disabled mode.
    pub fn admin_bootstrap() -> (r: CallerContext)
        ensures
            r.key_id == 0,
            r.key_name@ == "bootstrap"@,
            r.role == ApiKeyRole::Admin,
            r.scope is None,
    {
        CallerContext { key_id: 0, key_name: owned("bootstrap"), role: ApiKeyRole::Admin, scope: None }
    }

    /// `Ok` exactly when the caller has at least the given role.
    pub fn require_role(&self, required: ApiKeyRole) -> (r: Result<(), MnemoError>)
        ensures
            r is Ok <==> role_rank(self.role) >= role_rank(required),
            r is Err ==> r == Err::<(), MnemoError>(MnemoError::Forbidden),
    {
        if self.role.has_at_least(required) {
            Ok(())
        } else {
            Err(MnemoError::Forbidden)
        }
    }

    /// `Ok` exactly when the caller's scope, if any, allows the user.
    pub fn require_user_access(&self, user_id: u128) -> (r: Result<(), MnemoError>)
        ensures
            r is Ok <==> match self.scope {
                None => true,
                Some(s) => scope_allows_user(s, user_id),
            },
            r is Err ==> r == Err::<(), MnemoError>(MnemoError::Forbidden),
    {
        if let Some(scope) = &self.scope {
            if !scope.allows_user(user_id) {
                return Err(MnemoError::Forbidden);
            }
        }
        Ok(())
    }

    /// `Ok` exactly when the caller's scope, if any, allows the agent.
    pub fn require_agent_access(&self, agent_id: &str) -> (r: Result<(), MnemoError>)
        ensures
            r is Ok <==> match self.scope {
                None => true,
                Some(s) => scope_allows_agent(s, agent_id@),
            },
            r is Err ==> r == Err::<(), MnemoError>(MnemoError::Forbidden),
    {
        if let Some(scope) = &self.scope {
            if !scope.allows_agent(agent_id) {
                return Err(MnemoError::Forbidden);
            }
        }
        Ok(())
    }

    /// The highest classification this caller can see.
    pub fn max_classification(&self) -> (r: Classification)
        ensures
            r == match self.scope {
                None => Classification::Restricted,
                Some(s) => scope_max(s),
            },
            (self.scope is None || self.scope->Some_0.max_classification is None) ==> r == Classification::Restricted,
            self.scope is Some && self.scope->Some_0.max_classification is Some
                ==> r == self.scope->Some_0.max_classification->Some_0,
    {
        match &self.scope {
            None => Classification::Restricted,
            Some(s) => s.effective_max_classification(),
        }
    }
}

/// Lowercase hexadecimal SHA-256 of the UTF-8 bytes of a raw key.
pub fn hash_api_key(raw: &str) -> (r: String)
    ensures
        r@ == hex_lower(sha256_spec(encode_utf8(raw@))),
{
    sha256_hex(raw.as_bytes())
}

/// The display prefix of a raw key: its first twelve bytes followed by
/// `...` when it is longer than twelve bytes, else the key itself.  The
/// twelfth byte must end a character, as slicing the text there requires.
pub fn key_prefix(raw: &str) -> (r: String)
    requires
        utf8_len(raw@) > 12 ==> exists|k: int|
            0 <= k <= raw@.len() && #[trigger] utf8_len(raw@.subrange(0, k)) == 12,
    ensures
        utf8_len(raw@) > 12 ==> exists|k: int|
            0 <= k <= raw@.len() && #[trigger] utf8_len(raw@.subrange(0, k)) == 12
                && r@ == raw@.subrange(0, k) + "..."@,
        utf8_len(raw@) <= 12 ==> r@ == raw@,
{
    proof {
        lemma_encode_utf8_len(raw@);
    }
    if byte_len(raw) > 12 {
        let head = crate::text::prefix_of_bytes(raw, 12);
        let mut s = head;
        push_str(&mut s, "...");
        s
    } else {
        owned(raw)
    }
}

/// Request to create an API key.
#[derive(Clone, Debug)]
pub struct CreateApiKeyRequest {
    pub name: String,
    pub role: ApiKeyRole,
    pub scope: Option<ApiKeyScope>,
    pub expires_at: Option<UtcTime>,
}

/// A new key: the raw secret (shown once) and its record.
#[derive(Clone, Debug)]
pub struct CreateApiKeyResponse {
    pub raw_key: String,
    pub key: ApiKey,
}

/// The sixteen bytes of a 128-bit value, most significant first.
pub open spec fn u128_bytes(x: u128) -> Seq<u8> {
    Seq::new(16, |k: int| uuid_byte(x, k as nat))
}

/// The raw key made from two clock readings: `mnk_` and the hexadecimal of
/// the first reading and of the second times the LCG multiplier (wrapping),
/// each as 16 big-endian bytes.
pub open spec fn raw_key_text(first: i64, second: i64) -> Seq<char> {
    let a = first as u128;
    let b = vstd::wrapping::i64_specs::wrapping_mul(second, 6364136223846793005i64) as u128;
    "mnk_"@ + hex_lower(u128_bytes(a) + u128_bytes(b))
}

fn push_u128_bytes(out: &mut Vec<u8>, x: u128)
    ensures
        final(out)@ == old(out)@ + u128_bytes(x),
{
    let ghost start = out@;
    let mut k: usize = 0;
    while k < 16
        invariant
            k <= 16,
            out@ == start + u128_bytes(x).take(k as int),
        decreases 16 - k,
    {
        out.push(((x >> (8 * (15 - k)) as u128) & 0xff) as u8);
        proof {
            assert(u128_bytes(x).take(k + 1) =~= u128_bytes(x).take(k as int).push(uuid_byte(x, k as nat)));
        }
        k = k + 1;
    }
    proof {
        assert(u128_bytes(x).take(16) =~= u128_bytes(x));
    }
}

/// The raw API key made from two clock readings in nanoseconds.
pub fn raw_key_from_nanos(first: i64, second: i64) -> (r: String)
    ensures
        r@ == raw_key_text(first, second),
{
    let a = first as u128;
    let b = second.wrapping_mul(6364136223846793005i64) as u128;
    let mut bytes: Vec<u8> = Vec::new();
    push_u128_bytes(&mut bytes, a);
    push_u128_bytes(&mut bytes, b);
    let mut s = owned("mnk_");
    let h = hex_encode(bytes.as_slice());
    push_str(&mut s, h.as_str());
    s
}

/// A new raw API key (`mnk_` and 64 hexadecimal digits) from two readings
/// of the clock.
pub fn generate_raw_key() -> (r: String)
    ensures
        exists|first: i64, second: i64| r@ == #[trigger] raw_key_text(first, second),
{
    let first = crate::time::now_nanos();
    let second = crate::time::now_nanos();
    raw_key_from_nanos(first, second)
}

} // verus!
