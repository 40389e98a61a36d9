//! Tiered token budgeting of a context block: facts are ordered by
//! relevance and split into three bands: verbatim facts, compressed facts
//! and one-line references, each with its own share of the budget.

use vstd::prelude::*;
use crate::models::context::{
    ContextBlock, EntitySummary, FactSummary, concat_lines, entity_line, entity_line_exec, est_tokens,
    estimate_tokens, fill, formatted_time, format_utc, join_lines, join_nl,
};
use crate::text::{char_utf8_len, char_utf8_len_exec, chars_of, lemma_utf8_len_push, owned, push_str, string_from_chars, utf8_len};
use crate::time::UtcTime;

verus! {

// ─── First sentence ────────────────────────────────────────────────

/// A character that ends a sentence.
pub open spec fn is_sentence_end(c: char) -> bool {
    c == '.' || c == '!' || c == '?'
}

/// Length of the first sentence: up to and including the first `.`, `!`
/// or `?`, or the whole text when there is none.
pub open spec fn sentence_len(s: Seq<char>) -> nat
    decreases s.len(),
{
    if s.len() == 0 {
        0
    } else if is_sentence_end(s[0]) {
        1
    } else {
        1 + sentence_len(s.drop_first())
    }
}

/// Number of leading characters whose UTF-8 encoding fits in `n` bytes.
pub open spec fn chars_in_bytes(s: Seq<char>, n: nat) -> nat
    decreases s.len(),
{
    if s.len() == 0 || char_utf8_len(s[0]) > n {
        0
    } else {
        1 + chars_in_bytes(s.drop_first(), (n - char_utf8_len(s[0])) as nat)
    }
}

/// The first sentence of a text.
pub open spec fn sentence_of(text: Seq<char>) -> Seq<char> {
    text.take(sentence_len(text) as int)
}

/// Cutting the first sentence at four bytes per token lands on a character
/// boundary (or no cut is needed).
pub open spec fn sentence_cut_ok(text: Seq<char>, max_tokens: nat) -> bool {
    let s = sentence_of(text);
    utf8_len(s) <= 4 * max_tokens || utf8_len(s.take(chars_in_bytes(s, 4 * max_tokens) as int)) == 4 * max_tokens
}

/// The first sentence of a text in at most `max_tokens` tokens (four bytes
/// each): cut, and marked with an ellipsis, when it is longer.
pub open spec fn first_sentence_of(text: Seq<char>, max_tokens: nat) -> Seq<char> {
    let s = sentence_of(text);
    if utf8_len(s) > 4 * max_tokens {
        s.take(chars_in_bytes(s, 4 * max_tokens) as int) + "\u{2026}"@
    } else {
        s
    }
}

/// Length, in characters, of the first sentence of the text.
fn sentence_end(v: &Vec<char>) -> (p: usize)
    ensures
        p == sentence_len(v@),
        p <= v@.len(),
{
    let ghost s = v@;
    proof {
        assert(s.skip(0) =~= s);
    }
    let mut p: usize = 0;
    let mut found = false;
    while !found && p < v.len()
        invariant
            v@ == s,
            p <= v.len(),
            found ==> p >= 1 && sentence_len(s) == p,
            !found ==> sentence_len(s) == p + sentence_len(s.skip(p as int)),
        decreases v.len() - p + (if found { 0int } else { 1int }),
    {
        proof {
            assert(s.skip(p as int)[0] == s[p as int]);
            assert(s.skip(p as int).drop_first() =~= s.skip(p + 1));
        }
        let c = v[p];
        p = p + 1;
        if c == '.' || c == '!' || c == '?' {
            found = true;
        }
    }
    proof {
        if !found {
            assert(s.skip(p as int) =~= Seq::<char>::empty());
        }
    }
    p
}

/// UTF-8 length of the first `p` characters.
fn prefix_utf8_len(v: &Vec<char>, p: usize) -> (bytes: u64)
    requires
        p <= v@.len(),
        utf8_len(v@) <= u64::MAX,
    ensures
        bytes == utf8_len(v@.take(p as int)),
{
    let ghost s = v@;
    let ghost sent = s.take(p as int);
    let mut bytes: u64 = 0;
    let mut i: usize = 0;
    proof {
        assert(sent.take(0) =~= Seq::<char>::empty());
    }
    while i < p
        invariant
            v@ == s,
            p <= v.len(),
            sent == s.take(p as int),
            i <= p,
            bytes == utf8_len(sent.take(i as int)),
            utf8_len(s) <= u64::MAX,
        decreases p - i,
    {
        proof {
            assert(sent.take(i + 1) =~= sent.take(i as int).push(sent[i as int]));
            lemma_utf8_len_push(sent.take(i as int), sent[i as int]);
            crate::text::lemma_utf8_len_monotone(s, 0, i + 1, s.len() as int);
            assert(s.subrange(0, i + 1) =~= sent.take(i + 1));
            assert(s.subrange(0, s.len() as int) =~= s);
        }
        bytes = bytes + char_utf8_len_exec(v[i]) as u64;
        i = i + 1;
    }
    proof {
        assert(sent.take(p as int) =~= sent);
    }
    bytes
}

/// How many of the first `p` characters fit in `max_bytes` bytes, and
/// their UTF-8 length.
fn chars_fitting(v: &Vec<char>, p: usize, max_bytes: u64) -> (r: (usize, u64))
    requires
        p <= v@.len(),
        max_bytes <= 4 * u32::MAX,
    ensures
        r.0 == chars_in_bytes(v@.take(p as int), max_bytes as nat),
        r.0 <= p,
        r.1 == utf8_len(v@.take(p as int).take(r.0 as int)),
        r.1 <= max_bytes,
{
    let ghost s = v@;
    let ghost sent = s.take(p as int);
    let mut m: usize = 0;
    let mut used: u64 = 0;
    let mut full = false;
    proof {
        assert(sent.skip(0) =~= sent);
        assert(sent.take(0) =~= Seq::<char>::empty());
    }
    while !full && m < p
        invariant
            v@ == s,
            p <= v.len(),
            sent == s.take(p as int),
            m <= p,
            used == utf8_len(sent.take(m as int)),
            used <= max_bytes,
            max_bytes <= 4 * u32::MAX,
            !full ==> chars_in_bytes(sent, max_bytes as nat) == m + chars_in_bytes(sent.skip(m as int), (max_bytes - used) as nat),
            full ==> chars_in_bytes(sent, max_bytes as nat) == m,
        decreases p - m + (if full { 0int } else { 1int }),
    {
        let w = char_utf8_len_exec(v[m]) as u64;
        proof {
            assert(sent.skip(m as int)[0] == v@[m as int]);
            assert(sent.skip(m as int).drop_first() =~= sent.skip(m + 1));
        }
        if used + w > max_bytes {
            full = true;
        } else {
            proof {
                assert(sent.take(m + 1) =~= sent.take(m as int).push(sent[m as int]));
                lemma_utf8_len_push(sent.take(m as int), sent[m as int]);
            }
            used = used + w;
            m = m + 1;
        }
    }
    proof {
        if !full {
            assert(sent.skip(m as int) =~= Seq::<char>::empty());
        }
    }
    (m, used)
}

/// Whether cutting the first sentence of `text` at `max_tokens` tokens of
/// four bytes lands on a character boundary (or needs no cut): the
/// condition under which `first_sentence` may be called.
pub fn sentence_cut_fits(text: &str, max_tokens: u32) -> (r: bool)
    ensures
        r == sentence_cut_ok(text@, max_tokens as nat),
{
    let v = chars_of(text);
    let total = crate::text::byte_len(text);
    proof {
        crate::text::lemma_encode_utf8_len(text@);
    }
    let p = sentence_end(&v);
    let bytes = prefix_utf8_len(&v, p);
    let max_bytes: u64 = 4 * max_tokens as u64;
    if bytes <= max_bytes {
        true
    } else {
        let (_m, used) = chars_fitting(&v, p, max_bytes);
        used == max_bytes
    }
}

/// The first sentence of `text`, cut to `max_tokens` tokens of four bytes
/// each and marked with an ellipsis when longer.  The cut must fall on a
/// character boundary.
pub fn first_sentence(text: &str, max_tokens: u32) -> (r: String)
    requires
        sentence_cut_ok(text@, max_tokens as nat),
    ensures
        r@ == first_sentence_of(text@, max_tokens as nat),
{
    let v = chars_of(text);
    let total = crate::text::byte_len(text);
    proof {
        crate::text::lemma_encode_utf8_len(text@);
    }
    let p = sentence_end(&v);
    let ghost sent = v@.take(p as int);
    let bytes = prefix_utf8_len(&v, p);
    let max_bytes: u64 = 4 * max_tokens as u64;
    if bytes > max_bytes {
        let (m, _used) = chars_fitting(&v, p, max_bytes);
        let mut r = string_from_chars(&v.as_slice()[0..m]);
        proof {
            assert(v@.subrange(0, m as int) =~= sent.take(m as int));
        }
        push_str(&mut r, "\u{2026}");
        r
    } else {
        let r = string_from_chars(&v.as_slice()[0..p]);
        proof {
            assert(v@.subrange(0, p as int) =~= sent);
        }
        r
    }
}

// ─── Relevance order and bands ─────────────────────────────────────

/// Relevance order keys of the facts.
pub open spec fn relevance_keys(facts: Seq<FactSummary>) -> Seq<u32> {
    facts.map_values(|f: FactSummary| f.relevance)
}

/// How many of the listed positions hold a key of at least `k`.
pub open spec fn count_at_least(s: Seq<int>, keys: Seq<u32>, k: u32) -> nat
    decreases s.len(),
{
    if s.len() == 0 {
        0
    } else {
        count_at_least(s.drop_last(), keys, k) + (if keys[s.last()] >= k { 1nat } else { 0nat })
    }
}

/// Positions `0..n` in descending key order, ties in their original order:
/// each position goes after every earlier one with a key at least as large.
pub open spec fn by_relevance(keys: Seq<u32>, n: nat) -> Seq<int>
    decreases n,
{
    if n == 0 {
        Seq::empty()
    } else {
        let s = by_relevance(keys, (n - 1) as nat);
        s.insert(count_at_least(s, keys, keys[n - 1]) as int, n - 1)
    }
}

/// The listed positions whose key lies in `[lo, hi)`, in order.
pub open spec fn in_band(s: Seq<int>, keys: Seq<u32>, lo: int, hi: int) -> Seq<int>
    decreases s.len(),
{
    if s.len() == 0 {
        Seq::empty()
    } else {
        let r = in_band(s.drop_last(), keys, lo, hi);
        if lo <= keys[s.last()] && keys[s.last()] < hi {
            r.push(s.last())
        } else {
            r
        }
    }
}

/// Fact positions in descending relevance, ties in their given order.
pub(crate) fn order_by_relevance(facts: &Vec<FactSummary>) -> (r: Vec<usize>)
    ensures
        r@.map_values(|i: usize| i as int) == by_relevance(relevance_keys(facts@), facts@.len()),
        forall|p: int| 0 <= p < r@.len() ==> #[trigger] r@[p] < facts@.len(),
{
    let ghost keys = relevance_keys(facts@);
    let mut order: Vec<usize> = Vec::new();
    let mut n: usize = 0;
    proof {
        assert(order@.map_values(|i: usize| i as int) =~= Seq::<int>::empty());
    }
    while n < facts.len()
        invariant
            keys == relevance_keys(facts@),
            n <= facts.len(),
            order@.map_values(|i: usize| i as int) == by_relevance(keys, n as nat),
            order@.len() == n,
            forall|p: int| 0 <= p < order@.len() ==> #[trigger] order@[p] < n,
        decreases facts.len() - n,
    {
        let k = facts[n].relevance;
        let ghost os = order@.map_values(|i: usize| i as int);
        let mut count: usize = 0;
        let mut p: usize = 0;
        proof {
            assert(os.take(0) =~= Seq::<int>::empty());
        }
        while p < order.len()
            invariant
                keys == relevance_keys(facts@),
                n < facts.len(),
                os == order@.map_values(|i: usize| i as int),
                forall|q: int| 0 <= q < order@.len() ==> #[trigger] order@[q] < n,
                k == keys[n as int],
                p <= order.len(),
                count <= p,
                count == count_at_least(os.take(p as int), keys, k),
            decreases order.len() - p,
        {
            proof {
                assert(os.take(p + 1).drop_last() =~= os.take(p as int));
                assert(os.take(p + 1).last() == order@[p as int] as int);
            }
            if facts[order[p]].relevance >= k {
                count = count + 1;
            }
            p = p + 1;
        }
        proof {
            assert(os.take(order@.len() as int) =~= os);
        }
        let ghost before = order@;
        order.insert(count, n);
        proof {
            assert(order@.map_values(|i: usize| i as int) =~= os.insert(count as int, n as int));
            assert forall|q: int| 0 <= q < order@.len() implies #[trigger] order@[q] < n + 1 by {
                if q < count {
                    assert(order@[q] == before[q]);
                } else if q > count {
                    assert(order@[q] == before[q - 1]);
                }
            }
        }
        n = n + 1;
    }
    order
}

/// The positions of `order` whose fact's key lies in `[lo, hi)`.
fn band(facts: &Vec<FactSummary>, order: &Vec<usize>, lo: u64, hi: u64) -> (r: Vec<usize>)
    requires
        forall|p: int| 0 <= p < order@.len() ==> #[trigger] order@[p] < facts@.len(),
    ensures
        r@.map_values(|i: usize| i as int) == in_band(
            order@.map_values(|i: usize| i as int),
            relevance_keys(facts@),
            lo as int,
            hi as int,
        ),
        forall|p: int| 0 <= p < r@.len() ==> #[trigger] r@[p] < facts@.len(),
{
    let ghost os = order@.map_values(|i: usize| i as int);
    let ghost keys = relevance_keys(facts@);
    let mut r: Vec<usize> = Vec::new();
    let mut j: usize = 0;
    proof {
        assert(os.take(0) =~= Seq::<int>::empty());
        assert(r@.map_values(|i: usize| i as int) =~= Seq::<int>::empty());
    }
    while j < order.len()
        invariant
            os == order@.map_values(|i: usize| i as int),
            keys == relevance_keys(facts@),
            forall|p: int| 0 <= p < order@.len() ==> #[trigger] order@[p] < facts@.len(),
            j <= order.len(),
            r@.map_values(|i: usize| i as int) == in_band(os.take(j as int), keys, lo as int, hi as int),
            forall|p: int| 0 <= p < r@.len() ==> #[trigger] r@[p] < facts@.len(),
        decreases order.len() - j,
    {
        proof {
            assert(os.take(j + 1).drop_last() =~= os.take(j as int));
            assert(os.take(j + 1).last() == order@[j as int] as int);
            assert(order@[j as int] < facts@.len());
        }
        let i = order[j];
        let key = facts[i].relevance as u64;
        if lo <= key && key < hi {
            let ghost before = r@;
            r.push(i);
            proof {
                assert(r@.map_values(|i: usize| i as int) =~= before.map_values(|i: usize| i as int).push(i as int));
            }
        }
        j = j + 1;
    }
    proof {
        assert(os.take(order@.len() as int) =~= os);
    }
    r
}

// ─── Sections ──────────────────────────────────────────────────────

/// A fact written out in full.
pub open spec fn verbatim_line(f: FactSummary) -> Seq<char> {
    "- "@ + f.fact@ + "\n"@
}

/// A fact as a one-line reference: subject, relation, object and the month
/// it became valid.
pub open spec fn reference_line(f: FactSummary) -> Seq<char> {
    "- "@ + f.source_entity@ + " "@ + f.label@ + " "@ + f.target_entity@ + " ("@
        + formatted_time(f.valid_at, "%b %Y"@) + ")\n"@
}

/// A section with a header in a budget of `max` tokens: entered when the
/// header fits (strictly below `max` when `strict`), then the lines that fit
/// in order.  Unlike the plain context, an entered section stays even when
/// no line fits.
pub open spec fn tier_section(
    parts: Seq<Seq<char>>,
    running: nat,
    header: Seq<char>,
    lines: Seq<Seq<char>>,
    max: nat,
    strict: bool,
) -> (Seq<Seq<char>>, nat) {
    let h = est_tokens(header);
    if lines.len() == 0 || (if strict { running + h >= max } else { running + h > max }) {
        (parts, running)
    } else {
        let r = fill(lines, running + h, max);
        (parts.push(header + concat_lines(lines.take(r.0 as int))), r.1)
    }
}

/// The compressed lines of the second band, from `running` tokens up to
/// `limit`: each fact is compressed with the tokens still available (its
/// first sentence when `fallback`, else the next text of `sums`), and taken
/// while its line fits.  The lines and the tokens used.
pub open spec fn fill_compressed(
    texts: Seq<Seq<char>>,
    fallback: bool,
    sums: Seq<Seq<char>>,
    running: nat,
    limit: nat,
) -> (Seq<char>, nat)
    decreases texts.len(),
{
    if texts.len() == 0 || running >= limit {
        (Seq::empty(), running)
    } else {
        let c = if fallback { first_sentence_of(texts[0], (limit - running) as nat) } else { sums[0] };
        let line = "- "@ + c + "\n"@;
        if running + est_tokens(line) > limit {
            (Seq::empty(), running)
        } else {
            let r = fill_compressed(texts.drop_first(), fallback, sums.drop_first(), running + est_tokens(line), limit);
            (line + r.0, r.1)
        }
    }
}

/// Every first-sentence cut that the fallback makes in `fill_compressed`
/// falls on a character boundary.
pub open spec fn fallback_cuts_ok(texts: Seq<Seq<char>>, running: nat, limit: nat) -> bool
    decreases texts.len(),
{
    if texts.len() == 0 || running >= limit {
        true
    } else {
        let avail = (limit - running) as nat;
        let line = "- "@ + first_sentence_of(texts[0], avail) + "\n"@;
        &&& sentence_cut_ok(texts[0], avail)
        &&& (running + est_tokens(line) > limit || fallback_cuts_ok(texts.drop_first(), running + est_tokens(line), limit))
    }
}

/// The second band's section: entered when its header fits strictly below
/// `limit`, and kept even when no line fits.
pub open spec fn compressed_section(
    parts: Seq<Seq<char>>,
    running: nat,
    texts: Seq<Seq<char>>,
    limit: nat,
    fallback: bool,
    sums: Seq<Seq<char>>,
) -> (Seq<Seq<char>>, nat) {
    let h = est_tokens("Additional context:\n"@);
    if texts.len() == 0 || running + h >= limit {
        (parts, running)
    } else {
        let r = fill_compressed(texts, fallback, sums, running + h, limit);
        (parts.push("Additional context:\n"@ + r.0), r.1)
    }
}

/// The requests that `fill_compressed` makes of a compressor, from
/// `running` tokens up to `limit`: each fact with the tokens still
/// available, as long as the line of the text returned before it (the next
/// of `sums`) fitted.
pub open spec fn compress_requests(
    texts: Seq<Seq<char>>,
    sums: Seq<Seq<char>>,
    running: nat,
    limit: nat,
) -> Seq<(Seq<char>, u32)>
    decreases texts.len(),
{
    if texts.len() == 0 || running >= limit {
        Seq::empty()
    } else {
        let request = (texts[0], (limit - running) as u32);
        let line = "- "@ + sums[0] + "\n"@;
        if running + est_tokens(line) > limit {
            seq![request]
        } else {
            seq![request] + compress_requests(texts.drop_first(), sums.drop_first(), running + est_tokens(line), limit)
        }
    }
}

/// The requests of the second band's section: none when the section is
/// not entered.
pub open spec fn section_requests(
    running: nat,
    texts: Seq<Seq<char>>,
    limit: nat,
    sums: Seq<Seq<char>>,
) -> Seq<(Seq<char>, u32)> {
    let h = est_tokens("Additional context:\n"@);
    if texts.len() == 0 || running + h >= limit {
        Seq::empty()
    } else {
        compress_requests(texts, sums, running + h, limit)
    }
}

/// Token budgets and relevance thresholds of the three bands: facts with a
/// key at or above `tier1_threshold` are written verbatim within
/// `tier1_budget` tokens, those at or above `tier2_threshold` compressed
/// within the first two budgets together, and the rest as references within
/// the whole budget.
#[derive(Clone, Copy, Debug)]
pub struct TierPlan {
    pub tier1_budget: u32,
    pub tier2_budget: u32,
    pub tier1_threshold: u32,
    pub tier2_threshold: u32,
}

/// The three bands of fact positions, in descending relevance.
pub open spec fn bands(facts: Seq<FactSummary>, plan: TierPlan) -> (Seq<int>, Seq<int>, Seq<int>) {
    let keys = relevance_keys(facts);
    let order = by_relevance(keys, facts.len());
    (
        in_band(order, keys, plan.tier1_threshold as int, 0x1_0000_0000),
        in_band(order, keys, plan.tier2_threshold as int, plan.tier1_threshold as int),
        in_band(order, keys, 0, plan.tier2_threshold as int),
    )
}

/// The first band's section.
pub open spec fn verbatim_stage(facts: Seq<FactSummary>, plan: TierPlan) -> (Seq<Seq<char>>, nat) {
    let t1 = bands(facts, plan).0;
    tier_section(
        Seq::empty(),
        0,
        "Key facts:\n"@,
        t1.map_values(|i: int| verbatim_line(facts[i])),
        plan.tier1_budget as nat,
        false,
    )
}

/// The texts of the second band's facts.
pub open spec fn compressed_texts(facts: Seq<FactSummary>, plan: TierPlan) -> Seq<Seq<char>> {
    bands(facts, plan).1.map_values(|i: int| facts[i].fact@)
}

/// The fallback's cuts all fall on character boundaries for this block.
pub open spec fn tiered_fallback_ok(facts: Seq<FactSummary>, plan: TierPlan) -> bool {
    let s1 = verbatim_stage(facts, plan);
    let limit = plan.tier1_budget + plan.tier2_budget;
    let h = est_tokens("Additional context:\n"@);
    compressed_texts(facts, plan).len() == 0 || s1.1 + h >= limit
        || fallback_cuts_ok(compressed_texts(facts, plan), s1.1 + h, limit as nat)
}

/// The requests that a tiered rendering makes of a compressor, given the
/// texts it returned.
pub open spec fn tiered_requests(facts: Seq<FactSummary>, plan: TierPlan, sums: Seq<Seq<char>>) -> Seq<(Seq<char>, u32)> {
    section_requests(
        verbatim_stage(facts, plan).1,
        compressed_texts(facts, plan),
        (plan.tier1_budget + plan.tier2_budget) as nat,
        sums,
    )
}

/// The sections of a tiered context: verbatim facts, compressed facts,
/// one-line references, then the entities that still fit.
pub open spec fn tiered_parts(
    facts: Seq<FactSummary>,
    entities: Seq<EntitySummary>,
    max: nat,
    plan: TierPlan,
    fallback: bool,
    sums: Seq<Seq<char>>,
) -> Seq<Seq<char>> {
    let s1 = verbatim_stage(facts, plan);
    let s2 = compressed_section(
        s1.0,
        s1.1,
        compressed_texts(facts, plan),
        (plan.tier1_budget + plan.tier2_budget) as nat,
        fallback,
        sums,
    );
    let t3 = bands(facts, plan).2;
    let s3 = tier_section(s2.0, s2.1, "Also relevant:\n"@, t3.map_values(|i: int| reference_line(facts[i])), max, true);
    let s4 = if s3.1 >= max {
        s3
    } else {
        tier_section(s3.0, s3.1, "Known entities:\n"@, entities.map_values(|e: EntitySummary| entity_line(e)), max, false)
    };
    s4.0
}

/// Compression of a second-band fact for the tiered context, given the
/// tokens still available; callers may summarise with a language model.
pub trait FactCompressor {
    /// The requests handed to this compressor so far: each fact with the
    /// tokens that were available for it.  An implementation that keeps no
    /// record of its requests and replies cannot meet the contract of
    /// `compress`.
    open spec fn requests(&self) -> Seq<(Seq<char>, u32)> {
        Seq::empty()
    }

    /// The texts this compressor has returned so far, in order.
    open spec fn replies(&self) -> Seq<Seq<char>> {
        Seq::empty()
    }

    /// A compressed text of `fact`; the request and the reply are recorded.
    fn compress(&mut self, fact: &str, available: u32) -> (r: String)
        ensures
            final(self).requests() == old(self).requests().push((fact@, available)),
            final(self).replies() == old(self).replies().push(r@),
    ;
}

fn verbatim_line_exec(f: &FactSummary) -> (r: String)
    ensures
        r@ == verbatim_line(*f),
{
    let mut s = owned("- ");
    push_str(&mut s, f.fact.as_str());
    push_str(&mut s, "\n");
    s
}

fn reference_line_exec(f: &FactSummary) -> (r: String)
    ensures
        r@ == reference_line(*f),
{
    let mut s = owned("- ");
    push_str(&mut s, f.source_entity.as_str());
    push_str(&mut s, " ");
    push_str(&mut s, f.label.as_str());
    push_str(&mut s, " ");
    push_str(&mut s, f.target_entity.as_str());
    push_str(&mut s, " (");
    match format_utc(&f.valid_at, "%b %Y") {
        Some(d) => push_str(&mut s, d.as_str()),
        None => {},
    }
    push_str(&mut s, ")\n");
    s
}

/// A section of `tier_section`, appended to `parts`.
fn push_tier_section(
    parts: &mut Vec<String>,
    running: &mut u64,
    header: &str,
    lines: &Vec<String>,
    max: u64,
    strict: bool,
)
    requires
        old(running) <= max,
        max <= u32::MAX,
    ensures
        final(running) <= max,
        (final(parts)@.map_values(|p: String| p@), *final(running) as nat) == tier_section(
            old(parts)@.map_values(|p: String| p@),
            *old(running) as nat,
            header@,
            lines@.map_values(|l: String| l@),
            max as nat,
            strict,
        ),
{
    let ghost ls = lines@.map_values(|l: String| l@);
    let ghost p0 = parts@.map_values(|p: String| p@);
    let ghost r0 = *running as nat;
    if lines.len() == 0 {
        return;
    }
    let htok = estimate_tokens(header) as u64;
    if strict {
        if *running + htok >= max {
            return;
        }
    } else if *running + htok > max {
        return;
    }
    let mut section = owned(header);
    let mut used: u64 = *running + htok;
    let mut i: usize = 0;
    proof {
        assert(lines@.map_values(|l: String| l@).skip(0) =~= ls);
        assert(ls.take(0) =~= Seq::<Seq<char>>::empty());
    }
    let mut full = false;
    while !full && i < lines.len()
        invariant
            ls == lines@.map_values(|l: String| l@),
            i <= lines.len(),
            used <= max,
            max <= u32::MAX,
            full ==> i < lines.len() && used + est_tokens(ls[i as int]) > max,
            section@ == header@ + concat_lines(ls.take(i as int)),
            ({
                let rest = fill(ls.skip(i as int), used as nat, max as nat);
                fill(ls, r0 + est_tokens(header@), max as nat) == ((i + rest.0) as nat, rest.1)
            }),
        decreases lines.len() - i + (if full { 0int } else { 1int }),
    {
        let line = &lines[i];
        let tok = estimate_tokens(line.as_str()) as u64;
        proof {
            assert(ls.skip(i as int)[0] == line@);
            assert(ls.skip(i as int).drop_first() =~= ls.skip(i + 1));
        }
        if used + tok > max {
            full = true;
        } else {
            push_str(&mut section, line.as_str());
            proof {
                assert(ls.take(i + 1).drop_last() =~= ls.take(i as int));
            }
            used = used + tok;
            i = i + 1;
        }
    }
    proof {
        if i == lines.len() {
            assert(ls.skip(i as int) =~= Seq::<Seq<char>>::empty());
        }
        if full {
            assert(ls.skip(i as int)[0] == ls[i as int]);
        }
        assert(fill(ls.skip(i as int), used as nat, max as nat) == (0nat, used as nat));
    }
    parts.push(section);
    *running = used;
    proof {
        assert(parts@.map_values(|p: String| p@) =~= p0.push(header@ + concat_lines(ls.take(i as int))));
    }
}

/// The second band's section, appended to `parts`: each fact is compressed
/// by `comp`, or by its first sentence when `fallback`.  The texts used, in
/// order; without the fallback, the compressor has been handed exactly the
/// requests of the section.
fn push_compressed_section<C: FactCompressor>(
    parts: &mut Vec<String>,
    running: &mut u64,
    facts: &Vec<FactSummary>,
    idx: &Vec<usize>,
    limit: u64,
    comp: &mut C,
    fallback: bool,
) -> (got: Ghost<Seq<Seq<char>>>)
    requires
        *old(running) <= limit,
        limit <= u32::MAX,
        forall|p: int| 0 <= p < idx@.len() ==> #[trigger] idx@[p] < facts@.len(),
        fallback ==> {
            let texts = idx@.map_values(|i: usize| facts@[i as int].fact@);
            let h = est_tokens("Additional context:\n"@);
            texts.len() == 0 || *old(running) + h >= limit || fallback_cuts_ok(texts, (*old(running) + h) as nat, limit as nat)
        },
    ensures
        *final(running) <= limit,
        (final(parts)@.map_values(|p: String| p@), *final(running) as nat) == compressed_section(
            old(parts)@.map_values(|p: String| p@),
            *old(running) as nat,
            idx@.map_values(|i: usize| facts@[i as int].fact@),
            limit as nat,
            fallback,
            got@,
        ),
        !fallback ==> final(comp).requests() == old(comp).requests() + section_requests(
            *old(running) as nat,
            idx@.map_values(|i: usize| facts@[i as int].fact@),
            limit as nat,
            got@,
        ),
        !fallback ==> final(comp).replies() == old(comp).replies() + got@,
{
    let ghost texts = idx@.map_values(|i: usize| facts@[i as int].fact@);
    let ghost fb = fallback;
    let ghost p0 = parts@.map_values(|p: String| p@);
    let ghost asked0 = comp.requests();
    let ghost replies0 = comp.replies();
    let header = "Additional context:\n";
    let h = estimate_tokens(header) as u64;
    if idx.len() == 0 || *running + h >= limit {
        proof {
            assert(asked0 + Seq::<(Seq<char>, u32)>::empty() =~= asked0);
            assert(replies0 + Seq::<Seq<char>>::empty() =~= replies0);
        }
        return Ghost(Seq::empty());
    }
    let mut section = owned(header);
    let ghost run0 = (*running + h) as nat;
    let mut used: u64 = *running + h;
    let mut j: usize = 0;
    let mut stop = false;
    let ghost mut got: Seq<Seq<char>> = Seq::empty();
    let ghost mut acc: Seq<char> = Seq::empty();
    let ghost mut reqs: Seq<(Seq<char>, u32)> = Seq::empty();
    proof {
        assert(texts.skip(0) =~= texts);
        assert forall|x: Seq<Seq<char>>| #[trigger] fill_compressed(texts, fb, got + x, run0, limit as nat)
            == (acc + fill_compressed(texts.skip(0), fb, x, used as nat, limit as nat).0,
                fill_compressed(texts.skip(0), fb, x, used as nat, limit as nat).1) by {
            assert(got + x =~= x);
            assert(acc + fill_compressed(texts.skip(0), fb, x, used as nat, limit as nat).0
                =~= fill_compressed(texts.skip(0), fb, x, used as nat, limit as nat).0);
        }
        assert forall|x: Seq<Seq<char>>| #[trigger] compress_requests(texts, got + x, run0, limit as nat)
            == reqs + compress_requests(texts.skip(0), x, used as nat, limit as nat) by {
            assert(got + x =~= x);
            assert(reqs + compress_requests(texts.skip(0), x, used as nat, limit as nat)
                =~= compress_requests(texts.skip(0), x, used as nat, limit as nat));
        }
        assert(asked0 + reqs =~= asked0);
        assert(replies0 + got =~= replies0);
    }
    while !stop && j < idx.len()
        invariant
            texts == idx@.map_values(|i: usize| facts@[i as int].fact@),
            fb == fallback,
            forall|p: int| 0 <= p < idx@.len() ==> #[trigger] idx@[p] < facts@.len(),
            j <= idx.len(),
            used <= limit,
            limit <= u32::MAX,
            section@ == header@ + acc,
            forall|x: Seq<Seq<char>>| #[trigger] fill_compressed(texts, fb, got + x, run0, limit as nat) == (if stop {
                (acc, used as nat)
            } else {
                (acc + fill_compressed(texts.skip(j as int), fb, x, used as nat, limit as nat).0,
                 fill_compressed(texts.skip(j as int), fb, x, used as nat, limit as nat).1)
            }),
            forall|x: Seq<Seq<char>>| #[trigger] compress_requests(texts, got + x, run0, limit as nat) == (if stop {
                reqs
            } else {
                reqs + compress_requests(texts.skip(j as int), x, used as nat, limit as nat)
            }),
            !fb ==> comp.requests() == asked0 + reqs,
            !fb ==> comp.replies() == replies0 + got,
            fb && !stop ==> fallback_cuts_ok(texts.skip(j as int), used as nat, limit as nat),
        decreases idx.len() - j + (if stop { 0int } else { 1int }),
    {
        let ghost got0 = got;
        let ghost acc0 = acc;
        let ghost reqs0 = reqs;
        let ghost used0 = used as nat;
        proof {
            assert(texts.skip(j as int)[0] == texts[j as int]);
            assert(texts.skip(j as int).drop_first() =~= texts.skip(j + 1));
            assert(idx@[j as int] < facts@.len());
        }
        if used >= limit {
            stop = true;
            proof {
                assert forall|x: Seq<Seq<char>>| #[trigger] fill_compressed(texts, fb, got + x, run0, limit as nat) == (acc, used as nat) by {
                    assert(fill_compressed(texts, fb, got0 + x, run0, limit as nat) == (acc0 + fill_compressed(texts.skip(j as int), fb, x, used0, limit as nat).0,
                        fill_compressed(texts.skip(j as int), fb, x, used0, limit as nat).1));
                    assert(acc0 + Seq::<char>::empty() =~= acc0);
                }
                assert forall|x: Seq<Seq<char>>| #[trigger] compress_requests(texts, got + x, run0, limit as nat) == reqs by {
                    assert(compress_requests(texts, got0 + x, run0, limit as nat) == reqs0 + compress_requests(texts.skip(j as int), x, used0, limit as nat));
                    assert(reqs0 + Seq::<(Seq<char>, u32)>::empty() =~= reqs0);
                }
            }
        } else {
            let avail = (limit - used) as u32;
            let text = facts[idx[j]].fact.as_str();
            let c = if fallback {
                first_sentence(text, avail)
            } else {
                comp.compress(text, avail)
            };
            let mut line = owned("- ");
            push_str(&mut line, c.as_str());
            push_str(&mut line, "\n");
            let tok = estimate_tokens(line.as_str()) as u64;
            proof {
                got = got.push(c@);
                reqs = reqs.push((texts[j as int], avail));
                assert(asked0 + reqs =~= (asked0 + reqs0).push((texts[j as int], avail)));
                assert(replies0 + got =~= (replies0 + got0).push(c@));
                assert forall|x: Seq<Seq<char>>| #[trigger] fill_compressed(texts.skip(j as int), fb, seq![c@] + x, used0, limit as nat)
                    == (if used0 + est_tokens(line@) > limit { (Seq::<char>::empty(), used0) } else {
                        (line@ + fill_compressed(texts.skip(j + 1), fb, x, used0 + est_tokens(line@), limit as nat).0,
                         fill_compressed(texts.skip(j + 1), fb, x, used0 + est_tokens(line@), limit as nat).1)
                    }) by {
                    assert((seq![c@] + x)[0] == c@);
                    assert((seq![c@] + x).drop_first() =~= x);
                }
                assert forall|x: Seq<Seq<char>>| #[trigger] compress_requests(texts.skip(j as int), seq![c@] + x, used0, limit as nat)
                    == (if used0 + est_tokens(line@) > limit { seq![(texts[j as int], avail)] } else {
                        seq![(texts[j as int], avail)] + compress_requests(texts.skip(j + 1), x, used0 + est_tokens(line@), limit as nat)
                    }) by {
                    assert((seq![c@] + x)[0] == c@);
                    assert((seq![c@] + x).drop_first() =~= x);
                }
            }
            if used + tok > limit {
                stop = true;
                proof {
                    assert forall|x: Seq<Seq<char>>| #[trigger] fill_compressed(texts, fb, got + x, run0, limit as nat) == (acc, used as nat) by {
                        let y = seq![c@] + x;
                        assert(got + x =~= got0 + y);
                        assert(fill_compressed(texts, fb, got0 + y, run0, limit as nat) == (acc0 + fill_compressed(texts.skip(j as int), fb, y, used0, limit as nat).0,
                            fill_compressed(texts.skip(j as int), fb, y, used0, limit as nat).1));
                        assert(fill_compressed(texts.skip(j as int), fb, y, used0, limit as nat) == (Seq::<char>::empty(), used0));
                        assert(acc0 + Seq::<char>::empty() =~= acc0);
                    }
                    assert forall|x: Seq<Seq<char>>| #[trigger] compress_requests(texts, got + x, run0, limit as nat) == reqs by {
                        let y = seq![c@] + x;
                        assert(got + x =~= got0 + y);
                        assert(compress_requests(texts, got0 + y, run0, limit as nat) == reqs0 + compress_requests(texts.skip(j as int), y, used0, limit as nat));
                        assert(reqs0 + seq![(texts[j as int], avail)] =~= reqs);
                    }
                }
            } else {
                push_str(&mut section, line.as_str());
                used = used + tok;
                j = j + 1;
                proof {
                    acc = acc + line@;
                    assert forall|x: Seq<Seq<char>>| #[trigger] fill_compressed(texts, fb, got + x, run0, limit as nat)
                        == (acc + fill_compressed(texts.skip(j as int), fb, x, used as nat, limit as nat).0,
                            fill_compressed(texts.skip(j as int), fb, x, used as nat, limit as nat).1) by {
                        let y = seq![c@] + x;
                        assert(got + x =~= got0 + y);
                        assert(fill_compressed(texts, fb, got0 + y, run0, limit as nat) == (acc0 + fill_compressed(texts.skip(j - 1), fb, y, used0, limit as nat).0,
                            fill_compressed(texts.skip(j - 1), fb, y, used0, limit as nat).1));
                        let r = fill_compressed(texts.skip(j as int), fb, x, used as nat, limit as nat);
                        assert(acc0 + (line@ + r.0) =~= acc + r.0);
                    }
                    assert forall|x: Seq<Seq<char>>| #[trigger] compress_requests(texts, got + x, run0, limit as nat)
                        == reqs + compress_requests(texts.skip(j as int), x, used as nat, limit as nat) by {
                        let y = seq![c@] + x;
                        assert(got + x =~= got0 + y);
                        assert(compress_requests(texts, got0 + y, run0, limit as nat) == reqs0 + compress_requests(texts.skip(j - 1), y, used0, limit as nat));
                        let r = compress_requests(texts.skip(j as int), x, used as nat, limit as nat);
                        assert(reqs0 + (seq![(texts[j - 1], avail)] + r) =~= reqs + r);
                    }
                }
            }
        }
    }
    proof {
        if !stop {
            assert(texts.skip(j as int) =~= Seq::<Seq<char>>::empty());
        }
        assert(got + Seq::<Seq<char>>::empty() =~= got);
        assert(fill_compressed(texts, fb, got + Seq::<Seq<char>>::empty(), run0, limit as nat) == (acc, used as nat)) by {
            if !stop {
                assert(acc + Seq::<char>::empty() =~= acc);
            }
        }
        assert(compress_requests(texts, got + Seq::<Seq<char>>::empty(), run0, limit as nat) == reqs) by {
            if !stop {
                assert(reqs + Seq::<(Seq<char>, u32)>::empty() =~= reqs);
            }
        }
    }
    parts.push(section);
    *running = used;
    proof {
        assert(parts@.map_values(|p: String| p@) =~= p0.push(header@ + acc));
    }
    Ghost(got)
}

/// The verbatim lines of the listed facts.
fn verbatim_lines(facts: &Vec<FactSummary>, idx: &Vec<usize>) -> (r: Vec<String>)
    requires
        forall|p: int| 0 <= p < idx@.len() ==> #[trigger] idx@[p] < facts@.len(),
    ensures
        r@.map_values(|l: String| l@) == idx@.map_values(|i: usize| i as int).map_values(|i: int| verbatim_line(facts@[i])),
{
    let ghost ix = idx@.map_values(|i: usize| i as int);
    let mut r: Vec<String> = Vec::new();
    let mut k: usize = 0;
    while k < idx.len()
        invariant
            ix == idx@.map_values(|i: usize| i as int),
            forall|p: int| 0 <= p < idx@.len() ==> #[trigger] idx@[p] < facts@.len(),
            k <= idx.len(),
            r@.map_values(|l: String| l@) =~= ix.take(k as int).map_values(|i: int| verbatim_line(facts@[i])),
        decreases idx.len() - k,
    {
        proof {
            assert(idx@[k as int] < facts@.len());
        }
        let l = verbatim_line_exec(&facts[idx[k]]);
        let ghost before = r@;
        r.push(l);
        proof {
            assert(r@.map_values(|l: String| l@) =~= before.map_values(|l: String| l@).push(l@));
            assert(ix.take(k + 1) =~= ix.take(k as int).push(ix[k as int]));
        }
        k = k + 1;
    }
    proof {
        assert(ix.take(idx@.len() as int) =~= ix);
    }
    r
}

/// The reference lines of the listed facts.
fn reference_lines(facts: &Vec<FactSummary>, idx: &Vec<usize>) -> (r: Vec<String>)
    requires
        forall|p: int| 0 <= p < idx@.len() ==> #[trigger] idx@[p] < facts@.len(),
    ensures
        r@.map_values(|l: String| l@) == idx@.map_values(|i: usize| i as int).map_values(|i: int| reference_line(facts@[i])),
{
    let ghost ix = idx@.map_values(|i: usize| i as int);
    let mut r: Vec<String> = Vec::new();
    let mut k: usize = 0;
    while k < idx.len()
        invariant
            ix == idx@.map_values(|i: usize| i as int),
            forall|p: int| 0 <= p < idx@.len() ==> #[trigger] idx@[p] < facts@.len(),
            k <= idx.len(),
            r@.map_values(|l: String| l@) =~= ix.take(k as int).map_values(|i: int| reference_line(facts@[i])),
        decreases idx.len() - k,
    {
        proof {
            assert(idx@[k as int] < facts@.len());
        }
        let l = reference_line_exec(&facts[idx[k]]);
        let ghost before = r@;
        r.push(l);
        proof {
            assert(r@.map_values(|l: String| l@) =~= before.map_values(|l: String| l@).push(l@));
            assert(ix.take(k + 1) =~= ix.take(k as int).push(ix[k as int]));
        }
        k = k + 1;
    }
    proof {
        assert(ix.take(idx@.len() as int) =~= ix);
    }
    r
}

/// The entity lines.
fn entity_lines(entities: &Vec<EntitySummary>) -> (r: Vec<String>)
    ensures
        r@.map_values(|l: String| l@) == entities@.map_values(|e: EntitySummary| entity_line(e)),
{
    let mut r: Vec<String> = Vec::new();
    let mut k: usize = 0;
    while k < entities.len()
        invariant
            k <= entities.len(),
            r@.map_values(|l: String| l@) =~= entities@.take(k as int).map_values(|e: EntitySummary| entity_line(e)),
        decreases entities.len() - k,
    {
        let l = entity_line_exec(&entities[k]);
        let ghost before = r@;
        r.push(l);
        proof {
            assert(r@.map_values(|l: String| l@) =~= before.map_values(|l: String| l@).push(l@));
            assert(entities@.take(k + 1) =~= entities@.take(k as int).push(entities@[k as int]));
        }
        k = k + 1;
    }
    proof {
        assert(entities@.take(entities@.len() as int) =~= entities@);
    }
    r
}

/// Whether every first-sentence cut that `fill_compressed` makes for the
/// facts at `idx`, from `running` tokens up to `limit`, falls on a
/// character boundary.
fn fallback_cuts_fit(facts: &Vec<FactSummary>, idx: &Vec<usize>, running: u64, limit: u64) -> (r: bool)
    requires
        running <= limit,
        limit <= u32::MAX,
        forall|p: int| 0 <= p < idx@.len() ==> #[trigger] idx@[p] < facts@.len(),
    ensures
        r == fallback_cuts_ok(idx@.map_values(|i: usize| facts@[i as int].fact@), running as nat, limit as nat),
{
    let ghost texts = idx@.map_values(|i: usize| facts@[i as int].fact@);
    let mut used: u64 = running;
    let mut j: usize = 0;
    proof {
        assert(texts.skip(0) =~= texts);
    }
    while j < idx.len()
        invariant
            texts == idx@.map_values(|i: usize| facts@[i as int].fact@),
            forall|p: int| 0 <= p < idx@.len() ==> #[trigger] idx@[p] < facts@.len(),
            j <= idx.len(),
            used <= limit,
            limit <= u32::MAX,
            fallback_cuts_ok(texts, running as nat, limit as nat) == fallback_cuts_ok(texts.skip(j as int), used as nat, limit as nat),
        decreases idx.len() - j,
    {
        proof {
            assert(texts.skip(j as int)[0] == texts[j as int]);
            assert(texts.skip(j as int).drop_first() =~= texts.skip(j + 1));
            assert(idx@[j as int] < facts@.len());
        }
        if used >= limit {
            return true;
        }
        let avail = (limit - used) as u32;
        let text = facts[idx[j]].fact.as_str();
        if !sentence_cut_fits(text, avail) {
            return false;
        }
        let c = first_sentence(text, avail);
        let mut line = owned("- ");
        push_str(&mut line, c.as_str());
        push_str(&mut line, "\n");
        let tok = estimate_tokens(line.as_str()) as u64;
        if used + tok > limit {
            return true;
        }
        used = used + tok;
        j = j + 1;
    }
    proof {
        assert(texts.skip(j as int) =~= Seq::<Seq<char>>::empty());
    }
    true
}

/// Stands for an absent compressor: the first-sentence fallback never
/// calls it.
struct NoCompressor {
    asked: Ghost<Seq<(Seq<char>, u32)>>,
    answered: Ghost<Seq<Seq<char>>>,
}

impl FactCompressor for NoCompressor {
    closed spec fn requests(&self) -> Seq<(Seq<char>, u32)> {
        self.asked@
    }

    closed spec fn replies(&self) -> Seq<Seq<char>> {
        self.answered@
    }

    /// The fact unchanged.
    fn compress(&mut self, fact: &str, available: u32) -> (r: String)
        ensures
            r@ == fact@,
    {
        self.asked = Ghost(self.asked@.push((fact@, available)));
        self.answered = Ghost(self.answered@.push(fact@));
        owned(fact)
    }
}

impl ContextBlock {
    /// The tiered rendering of facts and entities; the texts used for the
    /// second band, in order.  Without the fallback, the compressor has been
    /// handed exactly the requests of the rendering.
    fn tiered_impl<C: FactCompressor>(&mut self, max_tokens: u32, plan: &TierPlan, comp: &mut C, fallback: bool) -> (got: Ghost<Seq<Seq<char>>>)
        requires
            plan.tier1_budget + plan.tier2_budget <= u32::MAX,
            fallback ==> tiered_fallback_ok(old(self).facts@, *plan),
        ensures
            final(self).context@ == join_nl(tiered_parts(
                old(self).facts@, old(self).entities@, max_tokens as nat, *plan, fallback, got@)),
            !fallback ==> final(comp).requests() == old(comp).requests() + tiered_requests(old(self).facts@, *plan, got@),
            !fallback ==> final(comp).replies() == old(comp).replies() + got@,
            final(self).token_count == est_tokens(final(self).context@),
            final(self).entities == old(self).entities,
            final(self).facts == old(self).facts,
            final(self).episodes == old(self).episodes,
            final(self).latency_ms == old(self).latency_ms,
            final(self).sources == old(self).sources,
            final(self).query_type == old(self).query_type,
            final(self).temporal_diagnostics == old(self).temporal_diagnostics,
            final(self).routing_decision == old(self).routing_decision,
            final(self).structured == old(self).structured,
            final(self).explanations == old(self).explanations,
            final(self).attachments == old(self).attachments,
    {
        let ghost facts = self.facts@;
        let ghost keys = relevance_keys(facts);
        let order = order_by_relevance(&self.facts);
        let t1 = band(&self.facts, &order, plan.tier1_threshold as u64, 0x1_0000_0000u64);
        let t2 = band(&self.facts, &order, plan.tier2_threshold as u64, plan.tier1_threshold as u64);
        let t3 = band(&self.facts, &order, 0, plan.tier2_threshold as u64);
        let mut parts: Vec<String> = Vec::new();
        let mut running: u64 = 0;
        proof {
            assert(parts@.map_values(|p: String| p@) =~= Seq::<Seq<char>>::empty());
        }

        let lines1 = verbatim_lines(&self.facts, &t1);
        push_tier_section(&mut parts, &mut running, "Key facts:\n", &lines1, plan.tier1_budget as u64, false);

        let limit = plan.tier1_budget as u64 + plan.tier2_budget as u64;
        proof {
            let ix = t2@.map_values(|i: usize| i as int);
            assert(t2@.map_values(|i: usize| facts[i as int].fact@) =~= ix.map_values(|i: int| facts[i].fact@));
        }
        let got = push_compressed_section(&mut parts, &mut running, &self.facts, &t2, limit, comp, fallback);

        let lines3 = reference_lines(&self.facts, &t3);
        if running < max_tokens as u64 {
            push_tier_section(&mut parts, &mut running, "Also relevant:\n", &lines3, max_tokens as u64, true);
        }

        let lines4 = entity_lines(&self.entities);
        if running < max_tokens as u64 {
            push_tier_section(&mut parts, &mut running, "Known entities:\n", &lines4, max_tokens as u64, false);
        }

        let context = join_lines(&parts);
        self.token_count = estimate_tokens(context.as_str());
        self.context = context;
        got
    }

    /// Whether `assemble_tiered` may run on this block: every cut of the
    /// first-sentence fallback in the second band falls on a character
    /// boundary.
    pub fn tiered_fallback_fits(&self, plan: &TierPlan) -> (r: bool)
        requires
            plan.tier1_budget + plan.tier2_budget <= u32::MAX,
        ensures
            r == tiered_fallback_ok(self.facts@, *plan),
    {
        let ghost facts = self.facts@;
        let order = order_by_relevance(&self.facts);
        let t1 = band(&self.facts, &order, plan.tier1_threshold as u64, 0x1_0000_0000u64);
        let t2 = band(&self.facts, &order, plan.tier2_threshold as u64, plan.tier1_threshold as u64);
        let mut parts: Vec<String> = Vec::new();
        let mut running: u64 = 0;
        proof {
            assert(parts@.map_values(|p: String| p@) =~= Seq::<Seq<char>>::empty());
        }
        let lines1 = verbatim_lines(&self.facts, &t1);
        push_tier_section(&mut parts, &mut running, "Key facts:\n", &lines1, plan.tier1_budget as u64, false);
        let limit = plan.tier1_budget as u64 + plan.tier2_budget as u64;
        proof {
            let ix = t2@.map_values(|i: usize| i as int);
            assert(t2@.map_values(|i: usize| facts[i as int].fact@) =~= ix.map_values(|i: int| facts[i].fact@));
        }
        let h = estimate_tokens("Additional context:\n") as u64;
        if t2.len() == 0 || running + h >= limit {
            return true;
        }
        fallback_cuts_fit(&self.facts, &t2, running + h, limit)
    }

    /// Render the facts in three bands of relevance within `max_tokens`:
    /// the first band verbatim within `tier1_budget`, the second compressed
    /// to its first sentence within both budgets, the third as one-line
    /// references; then the entities that still fit.  `token_count` becomes
    /// the estimate of the result.
    pub fn assemble_tiered(&mut self, max_tokens: u32, plan: &TierPlan)
        requires
            plan.tier1_budget + plan.tier2_budget <= u32::MAX,
            tiered_fallback_ok(old(self).facts@, *plan),
        ensures
            final(self).context@ == join_nl(tiered_parts(
                old(self).facts@, old(self).entities@, max_tokens as nat, *plan, true, Seq::empty())),
            final(self).token_count == est_tokens(final(self).context@),
            final(self).entities == old(self).entities,
            final(self).facts == old(self).facts,
            final(self).episodes == old(self).episodes,
            final(self).latency_ms == old(self).latency_ms,
            final(self).sources == old(self).sources,
            final(self).query_type == old(self).query_type,
            final(self).temporal_diagnostics == old(self).temporal_diagnostics,
            final(self).routing_decision == old(self).routing_decision,
            final(self).structured == old(self).structured,
            final(self).explanations == old(self).explanations,
            final(self).attachments == old(self).attachments,
    {
        let mut none = NoCompressor { asked: Ghost(Seq::empty()), answered: Ghost(Seq::empty()) };
        let got = self.tiered_impl(max_tokens, plan, &mut none, true);
        proof {
            lemma_fallback_ignores_sums(old(self).facts@, old(self).entities@, max_tokens as nat, *plan, got@);
        }
    }

    /// As `assemble_tiered`, with the second band compressed by
    /// `compressor`, which is handed each fact of the band, in descending
    /// relevance, with the tokens still available (`tier1_budget +
    /// tier2_budget` less those used), until the line of a returned text
    /// does not fit.  The context is the tiered rendering of the texts it
    /// returned, which are the replies it recorded during the call.
    pub fn assemble_tiered_with<C: FactCompressor>(&mut self, max_tokens: u32, plan: &TierPlan, compressor: &mut C)
        requires
            plan.tier1_budget + plan.tier2_budget <= u32::MAX,
        ensures
            exists|sums: Seq<Seq<char>>| {
                &&& final(self).context@ == join_nl(#[trigger] tiered_parts(
                    old(self).facts@, old(self).entities@, max_tokens as nat, *plan, false, sums))
                &&& final(compressor).requests() == old(compressor).requests() + tiered_requests(old(self).facts@, *plan, sums)
                &&& final(compressor).replies() == old(compressor).replies() + sums
            },
            final(self).token_count == est_tokens(final(self).context@),
            final(self).entities == old(self).entities,
            final(self).facts == old(self).facts,
            final(self).episodes == old(self).episodes,
            final(self).latency_ms == old(self).latency_ms,
            final(self).sources == old(self).sources,
            final(self).query_type == old(self).query_type,
            final(self).temporal_diagnostics == old(self).temporal_diagnostics,
            final(self).routing_decision == old(self).routing_decision,
            final(self).structured == old(self).structured,
            final(self).explanations == old(self).explanations,
            final(self).attachments == old(self).attachments,
    {
        let got = self.tiered_impl(max_tokens, plan, compressor, false);
    }
}

proof fn lemma_fill_compressed_fallback(texts: Seq<Seq<char>>, a: Seq<Seq<char>>, b: Seq<Seq<char>>, running: nat, limit: nat)
    ensures
        fill_compressed(texts, true, a, running, limit) == fill_compressed(texts, true, b, running, limit),
    decreases texts.len(),
{
    if texts.len() > 0 && running < limit {
        let c = first_sentence_of(texts[0], (limit - running) as nat);
        let line = "- "@ + c + "\n"@;
        lemma_fill_compressed_fallback(texts.drop_first(), a.drop_first(), b.drop_first(), running + est_tokens(line), limit);
    }
}

/// With the fallback, the tiered context does not depend on the texts of a
/// compressor.
proof fn lemma_fallback_ignores_sums(
    facts: Seq<FactSummary>,
    entities: Seq<EntitySummary>,
    max: nat,
    plan: TierPlan,
    sums: Seq<Seq<char>>,
)
    ensures
        tiered_parts(facts, entities, max, plan, true, sums) == tiered_parts(facts, entities, max, plan, true, Seq::empty()),
{
    let s1 = verbatim_stage(facts, plan);
    let h = est_tokens("Additional context:\n"@);
    lemma_fill_compressed_fallback(compressed_texts(facts, plan), sums, Seq::empty(), s1.1 + h, (plan.tier1_budget + plan.tier2_budget) as nat);
}

proof fn lemma_compress_requests_shape(texts: Seq<Seq<char>>, sums: Seq<Seq<char>>, running: nat, limit: nat)
    requires
        limit <= u32::MAX,
    ensures
        compress_requests(texts, sums, running, limit).len() <= texts.len(),
        forall|i: int| 0 <= i < compress_requests(texts, sums, running, limit).len() ==> {
            let q = #[trigger] compress_requests(texts, sums, running, limit)[i];
            &&& q.0 == texts[i]
            &&& 1 <= q.1 <= limit - running
        },
    decreases texts.len(),
{
    if texts.len() > 0 && running < limit {
        let line = "- "@ + sums[0] + "\n"@;
        let next = running + est_tokens(line);
        lemma_compress_requests_shape(texts.drop_first(), sums.drop_first(), next, limit);
        let rest = compress_requests(texts.drop_first(), sums.drop_first(), next, limit);
        let r = compress_requests(texts, sums, running, limit);
        assert forall|i: int| 0 <= i < r.len() implies {
            let q = #[trigger] r[i];
            &&& q.0 == texts[i]
            &&& 1 <= q.1 <= limit - running
        } by {
            if i > 0 {
                assert(r[i] == rest[i - 1]);
                assert(texts.drop_first()[i - 1] == texts[i]);
            }
        }
    }
}

/// The compressor of a tiered rendering is asked about the facts of the
/// second band in their order (descending relevance), each at most once and
/// a prefix of them, each time with at least one token and at most the
/// first two budgets together.
pub proof fn lemma_tiered_requests_shape(facts: Seq<FactSummary>, plan: TierPlan, sums: Seq<Seq<char>>)
    requires
        plan.tier1_budget + plan.tier2_budget <= u32::MAX,
    ensures
        tiered_requests(facts, plan, sums).len() <= compressed_texts(facts, plan).len(),
        forall|i: int| 0 <= i < tiered_requests(facts, plan, sums).len() ==> {
            let q = #[trigger] tiered_requests(facts, plan, sums)[i];
            &&& q.0 == compressed_texts(facts, plan)[i]
            &&& 1 <= q.1 <= plan.tier1_budget + plan.tier2_budget
        },
{
    let texts = compressed_texts(facts, plan);
    let limit = (plan.tier1_budget + plan.tier2_budget) as nat;
    let h = est_tokens("Additional context:\n"@);
    let run = verbatim_stage(facts, plan).1;
    if !(texts.len() == 0 || run + h >= limit) {
        lemma_compress_requests_shape(texts, sums, run + h, limit);
    }
}

} // verus!
