//! Requests about the per-agent retrieval adapters.

use vstd::prelude::*;
use vstd::utf8::encode_utf8;
use crate::error::{uuid_text, uuid_to_string};
use crate::text::{owned, push_str};

verus! {

/// Request to reset (delete) an agent's adapter.
#[derive(Clone, Copy, Debug)]
pub struct ResetLoraRequest {
    /// Also reset the user-level adapter that belongs to no agent.
    pub reset_global: bool,
}

/// Multiplier of the 64-bit linear congruential generator (Knuth).
pub const LCG_MULTIPLIER: u64 = 6364136223846793005;

/// Increment of the 64-bit linear congruential generator (Knuth).
pub const LCG_INCREMENT: u64 = 1442695040888963407;

/// Rank of a new adapter.
pub const DEFAULT_RANK: usize = 8;

/// An optional agent id as text.
pub open spec fn agent_view(a: Option<String>) -> Option<Seq<char>> {
    match a {
        Some(s) => Some(s@),
        None => None,
    }
}

/// The storage key of an adapter: the user's UUID and the agent id, or
/// `__global__` for a user-level adapter.
pub open spec fn lora_key_text(user_id: u128, agent_id: Option<Seq<char>>) -> Seq<char> {
    uuid_text(user_id) + ":"@ + match agent_id {
        Some(a) => a,
        None => "__global__"@,
    }
}

/// The storage key of the adapter of a user and (optionally) an agent.
pub fn lora_key(user_id: u128, agent_id: &Option<String>) -> (r: String)
    ensures
        r@ == lora_key_text(user_id, agent_view(*agent_id)),
{
    let mut s = uuid_to_string(user_id);
    push_str(&mut s, ":");
    match agent_id {
        Some(a) => push_str(&mut s, a.as_str()),
        None => push_str(&mut s, "__global__"),
    }
    s
}

/// Byte `k` of a UUID, most significant first (`Uuid::as_bytes`).
pub open spec fn uuid_byte(id: u128, k: nat) -> u8 {
    ((id >> (8 * (15 - k)) as u128) & 0xff) as u8
}

/// The XOR of the `n` bytes from `start`, each shifted to its place in a
/// little-endian `u64`.
pub open spec fn fold_bytes(id: u128, start: nat, n: nat) -> u64
    decreases n,
{
    if n == 0 {
        0
    } else {
        fold_bytes(id, start, (n - 1) as nat) ^ ((uuid_byte(id, (start + n - 1) as nat) as u64) << (8 * (n - 1)) as u64)
    }
}

/// The seed part of the user: its two halves folded and XORed.
pub open spec fn user_seed(id: u128) -> u64 {
    fold_bytes(id, 0, 8) ^ fold_bytes(id, 8, 8)
}

/// The generator's multiplier to the power `i`, wrapping.
pub open spec fn lcg_power(i: nat) -> u64
    decreases i,
{
    if i == 0 {
        1
    } else {
        vstd::wrapping::u64_specs::wrapping_mul(lcg_power((i - 1) as nat), LCG_MULTIPLIER)
    }
}

/// The seed part of the agent: the wrapping sum of its bytes, the byte at
/// position `i` times the multiplier to the power `i + 1`.
pub open spec fn agent_seed(bytes: Seq<u8>, n: nat) -> u64
    decreases n,
{
    if n == 0 {
        0
    } else {
        vstd::wrapping::u64_specs::wrapping_add(
            agent_seed(bytes, (n - 1) as nat),
            vstd::wrapping::u64_specs::wrapping_mul(bytes[n - 1] as u64, lcg_power(n)),
        )
    }
}

/// The bytes that stand for the agent in the seed: its id, or `__global__`.
pub open spec fn agent_seed_bytes(agent_id: Option<Seq<char>>) -> Seq<u8> {
    encode_utf8(match agent_id {
        Some(a) => a,
        None => "__global__"@,
    })
}

/// The base seed of an adapter's initial projection.
pub open spec fn base_seed(user_id: u128, agent_id: Option<Seq<char>>) -> u64 {
    let b = agent_seed_bytes(agent_id);
    user_seed(user_id) ^ agent_seed(b, b.len()) ^ 0xdeadbeef_cafebabe
}

/// The 24 upper bits of one generator step from the seed shifted by `i`.
pub open spec fn lcg_draw(seed: u64, i: nat) -> u32 {
    (vstd::wrapping::u64_specs::wrapping_add(
        vstd::wrapping::u64_specs::wrapping_mul(vstd::wrapping::u64_specs::wrapping_add(seed, i as u64), LCG_MULTIPLIER),
        LCG_INCREMENT,
    ) >> 40u64) as u32
}

/// The base seed of the initial projection of a user's (and optionally an
/// agent's) adapter.
pub fn lora_base_seed(user_id: u128, agent_id: &Option<String>) -> (r: u64)
    ensures
        r == base_seed(user_id, agent_view(*agent_id)),
{
    let mut lo: u64 = 0;
    let mut hi: u64 = 0;
    let mut k: usize = 0;
    while k < 8
        invariant
            k <= 8,
            lo == fold_bytes(user_id, 0, k as nat),
            hi == fold_bytes(user_id, 8, k as nat),
        decreases 8 - k,
    {
        let b0 = ((user_id >> (8 * (15 - k)) as u128) & 0xff) as u8;
        let b1 = ((user_id >> (8 * (15 - (k + 8))) as u128) & 0xff) as u8;
        lo = lo ^ ((b0 as u64) << (8 * k) as u64);
        hi = hi ^ ((b1 as u64) << (8 * k) as u64);
        k = k + 1;
    }
    let bytes: &[u8] = match agent_id {
        Some(a) => a.as_str().as_bytes(),
        None => "__global__".as_bytes(),
    };
    let ghost bv = agent_seed_bytes(agent_view(*agent_id));
    proof {
        assert(bytes@ == bv);
    }
    let mut acc: u64 = 0;
    let mut power: u64 = 1;
    let mut i: usize = 0;
    while i < bytes.len()
        invariant
            bytes@ == bv,
            i <= bytes.len(),
            acc == agent_seed(bv, i as nat),
            power == lcg_power(i as nat),
        decreases bytes.len() - i,
    {
        power = power.wrapping_mul(LCG_MULTIPLIER);
        acc = acc.wrapping_add((bytes[i] as u64).wrapping_mul(power));
        i = i + 1;
    }
    lo ^ hi ^ acc ^ 0xdeadbeef_cafebabe
}

/// The upper 24 bits of the generator step of each entry of an initial
/// projection of `count` entries; the caller scales them into `[-k, k]`.
pub fn lora_draws(seed: u64, count: usize) -> (r: Vec<u32>)
    ensures
        r@.len() == count,
        forall|i: int| 0 <= i < count ==> #[trigger] r@[i] == lcg_draw(seed, i as nat),
{
    let mut r: Vec<u32> = Vec::new();
    let mut i: usize = 0;
    while i < count
        invariant
            i <= count,
            r@.len() == i,
            forall|j: int| 0 <= j < i ==> #[trigger] r@[j] == lcg_draw(seed, j as nat),
        decreases count - i,
    {
        let s = seed.wrapping_add(i as u64).wrapping_mul(LCG_MULTIPLIER).wrapping_add(LCG_INCREMENT);
        r.push((s >> 40u64) as u32);
        i = i + 1;
    }
    r
}

} // verus!
