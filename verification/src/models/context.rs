//! Context assembly for LLM prompts: token estimates and the budgeted
//! rendering of entities, facts and conversation excerpts into one block of
//! text.

use vstd::prelude::*;
use vstd::utf8::encode_utf8;
use crate::models::classification::Classification;
use crate::text::{byte_len, lemma_encode_utf8_len, lemma_utf8_len_ge, owned, push_str, utf8_len};
use crate::time::{UtcTime, time_le};
use crate::models::attachment::Modality;
use crate::score::ZERO_SCORE_KEY;

verus! {

/// Why a retrieval result was included.
#[derive(Clone, Copy, PartialEq, Eq, Debug, Structural)]
pub enum RetrievalReason {
    SemanticMatch,
    GraphConnection,
    MostRecentBelief,
    TemporalRelevance,
    ContractRequired,
    Reinforced,
    FullTextMatch,
}

/// Which retrieval strategy contributed results.
#[derive(Clone, Copy, PartialEq, Eq, Debug, Structural)]
pub enum RetrievalSource {
    SemanticSearch,
    FullTextSearch,
    GraphTraversal,
    TemporalScoring,
    EpisodeRecall,
    SessionSummary,
}

/// The search types a caller can request.
#[derive(Clone, Copy, PartialEq, Eq, Debug, Structural)]
pub enum SearchType {
    Semantic,
    FullText,
    Graph,
    Hybrid,
}

/// How recency and validity are weighted during retrieval.
#[derive(Clone, Copy, PartialEq, Eq, Debug, Structural)]
pub enum TemporalIntent {
    /// Inferred from the query text (the default).
    Auto,
    /// Prefer currently valid state.
    Current,
    /// Prefer recently changed or mentioned information.
    Recent,
    /// Prefer historical validity.
    Historical,
}

impl Default for TemporalIntent {
    fn default() -> (r: TemporalIntent)
        ensures
            r == TemporalIntent::Auto,
    {
        TemporalIntent::Auto
    }
}

/// What kind of object a search result is.
#[derive(Clone, Copy, PartialEq, Eq, Debug, Structural)]
pub enum SearchResultType {
    Entity,
    Edge,
    Episode,
}

/// A message given as query context.
#[derive(Clone, Debug)]
pub struct ContextMessage {
    pub role: String,
    pub content: String,
}

/// Tokens of a text of `n` bytes: a quarter of the bytes rounded up, at most
/// `u32::MAX`.
pub open spec fn tokens_for_bytes(n: nat) -> nat {
    let t = (n + 3) / 4;
    if t > u32::MAX {
        u32::MAX as nat
    } else {
        t
    }
}

/// Approximate token count of a text (about four bytes per token).
pub open spec fn est_tokens(s: Seq<char>) -> nat {
    tokens_for_bytes(encode_utf8(s).len())
}

/// Approximate token count: the UTF-8 length divided by four, rounded up,
/// saturating at `u32::MAX`.
pub fn estimate_tokens(text: &str) -> (r: u32)
    ensures
        r == est_tokens(text@),
{
    let n = byte_len(text);
    let q = n / 4;
    let t = if n % 4 != 0 { q + 1 } else { q };
    if t > 0xFFFF_FFFFusize {
        0xFFFF_FFFFu32
    } else {
        t as u32
    }
}

/// Entity reference of a context block.  Relevance is an order key (a `u32`
/// per score, compared as the scores are).
#[derive(Clone, Debug)]
pub struct EntitySummary {
    pub id: u128,
    pub name: String,
    pub entity_type: String,
    pub classification: Classification,
    pub summary: Option<String>,
    pub relevance: u32,
}

/// Fact reference of a context block.  Relevance is an order key.
#[derive(Clone, Debug)]
pub struct FactSummary {
    pub id: u128,
    pub source_entity: String,
    pub target_entity: String,
    pub label: String,
    pub fact: String,
    pub classification: Classification,
    pub valid_at: UtcTime,
    pub invalid_at: Option<UtcTime>,
    pub relevance: u32,
    pub access_count: u32,
    pub last_accessed_at: Option<UtcTime>,
    pub temporal_scope: Option<String>,
}

/// Episode reference of a context block.  Relevance is an order key.
#[derive(Clone, Debug)]
pub struct EpisodeSummary {
    pub id: u128,
    pub session_id: u128,
    pub role: Option<String>,
    /// Truncated content preview.
    pub preview: String,
    pub created_at: UtcTime,
    pub relevance: u32,
}

/// Whether `chrono::DateTime::from_timestamp(secs, nanos)` yields a time.
pub uninterp spec fn utc_time_valid(secs: i64, nanos: u32) -> bool;

/// `DateTime::format(pattern)` of that time, as text.
pub uninterp spec fn utc_formatted(secs: i64, nanos: u32, pattern: Seq<char>) -> Seq<char>;

/// A time written by a `chrono` format pattern (`DateTime::from_timestamp`,
/// then `format(pattern).to_string()`), or `None` for a time outside
/// chrono's range.  Only the two patterns the context uses are accepted:
/// `to_string` panics on a malformed one.
#[verifier::external_body]
pub(crate) fn format_utc(t: &UtcTime, pattern: &str) -> (r: Option<String>)
    requires
        pattern@ == "%Y-%m-%d"@ || pattern@ == "%b %Y"@,
    ensures
        r is Some <==> utc_time_valid(t.secs, t.nanos),
        r matches Some(s) ==> s@ == utc_formatted(t.secs, t.nanos, pattern@),
{
    chrono::DateTime::from_timestamp(t.secs, t.nanos).map(|d| d.format(pattern).to_string())
}

/// A time written by `pattern` in the context; empty for a time that no
/// `DateTime` can hold.
pub open spec fn formatted_time(t: UtcTime, pattern: Seq<char>) -> Seq<char> {
    if utc_time_valid(t.secs, t.nanos) {
        utc_formatted(t.secs, t.nanos, pattern)
    } else {
        Seq::empty()
    }
}

/// The date of a time as written in the context (`%Y-%m-%d`).
pub open spec fn date_text(t: UtcTime) -> Seq<char> {
    formatted_time(t, "%Y-%m-%d"@)
}

pub open spec fn entity_line(e: EntitySummary) -> Seq<char> {
    match e.summary {
        Some(s) => "- "@ + e.name@ + " ("@ + e.entity_type@ + "): "@ + s@ + "\n"@,
        None => "- "@ + e.name@ + " ("@ + e.entity_type@ + ")\n"@,
    }
}

pub open spec fn fact_line(f: FactSummary) -> Seq<char> {
    "- "@ + f.fact@ + (if f.invalid_at is Some { " [superseded]"@ } else { ""@ }) + "\n"@
}

pub open spec fn episode_line(ep: EpisodeSummary) -> Seq<char> {
    let role = match ep.role {
        Some(r) => r@,
        None => "unknown"@,
    };
    "- ["@ + date_text(ep.created_at) + "] "@ + role + ": "@ + ep.preview@ + "\n"@
}

/// Greedy fill of a section: starting from `running` tokens, take lines in
/// order while each still fits in `max`; the number taken and the tokens
/// used then.
pub open spec fn fill(lines: Seq<Seq<char>>, running: nat, max: nat) -> (nat, nat)
    decreases lines.len(),
{
    if lines.len() == 0 {
        (0, running)
    } else if running + est_tokens(lines[0]) > max {
        (0, running)
    } else {
        let r = fill(lines.drop_first(), running + est_tokens(lines[0]), max);
        (r.0 + 1, r.1)
    }
}

/// The lines one after the other.
pub open spec fn concat_lines(lines: Seq<Seq<char>>) -> Seq<char>
    decreases lines.len(),
{
    if lines.len() == 0 {
        Seq::empty()
    } else {
        concat_lines(lines.drop_last()) + lines.last()
    }
}

/// Parts joined by newlines (`[String]::join("\n")`).
pub open spec fn join_nl(parts: Seq<Seq<char>>) -> Seq<char>
    decreases parts.len(),
{
    if parts.len() == 0 {
        Seq::empty()
    } else if parts.len() == 1 {
        parts[0]
    } else {
        join_nl(parts.drop_last()) + "\n"@ + parts.last()
    }
}

/// A section with a header, given the parts so far and the tokens used:
/// the parts and tokens after it.  The header is charged first; a section
/// that no line fits into is left out and its header not charged.
pub open spec fn add_section(
    parts: Seq<Seq<char>>,
    running: nat,
    header: Seq<char>,
    lines: Seq<Seq<char>>,
    max: nat,
) -> (Seq<Seq<char>>, nat) {
    if lines.len() == 0 || running + est_tokens(header) > max {
        (parts, running)
    } else {
        let (n, used) = fill(lines, running + est_tokens(header), max);
        if n == 0 {
            (parts, running)
        } else {
            (parts.push(header + concat_lines(lines.take(n as int))), used)
        }
    }
}

/// The tokens of a sequence of texts, each counted on its own.
pub open spec fn lines_tokens(ls: Seq<Seq<char>>) -> nat
    decreases ls.len(),
{
    if ls.len() == 0 {
        0
    } else {
        lines_tokens(ls.drop_last()) + est_tokens(ls.last())
    }
}

proof fn lemma_utf8_len_concat(a: Seq<char>, b: Seq<char>)
    ensures
        utf8_len(a + b) == utf8_len(a) + utf8_len(b),
    decreases a.len(),
{
    if a.len() > 0 {
        lemma_utf8_len_concat(a.drop_first(), b);
        assert((a + b).drop_first() =~= a.drop_first() + b);
        assert((a + b)[0] == a[0]);
    } else {
        assert(a + b =~= b);
    }
}

/// Counting two texts apart never gives fewer tokens than counting them
/// together.
pub proof fn lemma_tokens_subadditive(a: Seq<char>, b: Seq<char>)
    ensures
        est_tokens(a + b) <= est_tokens(a) + est_tokens(b),
{
    lemma_encode_utf8_len(a);
    lemma_encode_utf8_len(b);
    lemma_encode_utf8_len(a + b);
    lemma_utf8_len_concat(a, b);
    let x = utf8_len(a);
    let y = utf8_len(b);
    assert((x + y + 3) / 4 <= (x + 3) / 4 + (y + 3) / 4) by (nonlinear_arith);
}

proof fn lemma_lines_tokens_cons(x: Seq<char>, ls: Seq<Seq<char>>)
    ensures
        lines_tokens(seq![x] + ls) == est_tokens(x) + lines_tokens(ls),
    decreases ls.len(),
{
    if ls.len() > 0 {
        lemma_lines_tokens_cons(x, ls.drop_last());
        assert((seq![x] + ls).drop_last() =~= seq![x] + ls.drop_last());
        assert((seq![x] + ls).last() == ls.last());
    } else {
        assert(seq![x] + ls =~= seq![x]);
        assert(seq![x].drop_last() =~= Seq::<Seq<char>>::empty());
        assert(lines_tokens(Seq::<Seq<char>>::empty()) == 0);
        assert(seq![x].last() == x);
    }
}

proof fn lemma_fill_tokens(lines: Seq<Seq<char>>, running: nat, max: nat)
    ensures
        fill(lines, running, max).0 <= lines.len(),
        fill(lines, running, max).1 == running + lines_tokens(lines.take(fill(lines, running, max).0 as int)),
        running <= max ==> fill(lines, running, max).1 <= max,
    decreases lines.len(),
{
    if lines.len() > 0 && running + est_tokens(lines[0]) <= max {
        let t = lines.drop_first();
        lemma_fill_tokens(t, running + est_tokens(lines[0]), max);
        let r = fill(t, running + est_tokens(lines[0]), max);
        assert(lines.take(r.0 + 1 as int) =~= seq![lines[0]] + t.take(r.0 as int));
        lemma_lines_tokens_cons(lines[0], t.take(r.0 as int));
    } else {
        assert(lines.take(0) =~= Seq::<Seq<char>>::empty());
    }
}

proof fn lemma_concat_tokens(ls: Seq<Seq<char>>)
    ensures
        est_tokens(concat_lines(ls)) <= lines_tokens(ls),
    decreases ls.len(),
{
    if ls.len() > 0 {
        lemma_concat_tokens(ls.drop_last());
        lemma_tokens_subadditive(concat_lines(ls.drop_last()), ls.last());
    } else {
        lemma_encode_utf8_len(Seq::<char>::empty());
    }
}

proof fn lemma_add_section_budget(parts: Seq<Seq<char>>, running: nat, header: Seq<char>, lines: Seq<Seq<char>>, max: nat)
    requires
        running <= max,
        lines_tokens(parts) <= running,
    ensures
        add_section(parts, running, header, lines, max).1 <= max,
        lines_tokens(add_section(parts, running, header, lines, max).0) <= add_section(parts, running, header, lines, max).1,
        add_section(parts, running, header, lines, max).0.len() <= parts.len() + 1,
{
    if !(lines.len() == 0 || running + est_tokens(header) > max) {
        let start = running + est_tokens(header);
        lemma_fill_tokens(lines, start, max);
        let n = fill(lines, start, max).0;
        if n > 0 {
            let p = header + concat_lines(lines.take(n as int));
            lemma_concat_tokens(lines.take(n as int));
            lemma_tokens_subadditive(header, concat_lines(lines.take(n as int)));
            assert(parts.push(p).drop_last() =~= parts);
        }
    }
}

proof fn lemma_join_tokens(ps: Seq<Seq<char>>)
    ensures
        ps.len() == 0 ==> est_tokens(join_nl(ps)) == 0,
        ps.len() > 0 ==> est_tokens(join_nl(ps)) + 1 <= lines_tokens(ps) + ps.len(),
    decreases ps.len(),
{
    if ps.len() == 0 {
        lemma_encode_utf8_len(Seq::<char>::empty());
    } else if ps.len() == 1 {
        assert(ps.drop_last() =~= Seq::<Seq<char>>::empty());
    } else {
        lemma_join_tokens(ps.drop_last());
        let j = join_nl(ps.drop_last());
        reveal_strlit("\n");
        lemma_encode_utf8_len("\n"@);
        assert(utf8_len("\n"@.drop_first()) == 0);
        lemma_tokens_subadditive(j, "\n"@);
        lemma_tokens_subadditive(j + "\n"@, ps.last());
    }
}

/// The context never exceeds the budget by more than the two newlines that
/// join its sections: the sections share one running count of tokens, so a
/// later section only gets what the earlier ones left.
pub proof fn lemma_assembled_within_budget(
    entities: Seq<EntitySummary>,
    facts: Seq<FactSummary>,
    episodes: Seq<EpisodeSummary>,
    max: nat,
)
    ensures
        est_tokens(assembled_context(entities, facts, episodes, max)) <= max + 2,
{
    let e = entities.map_values(|e: EntitySummary| entity_line(e));
    let f = facts.map_values(|f: FactSummary| fact_line(f));
    let p = episodes.map_values(|e: EpisodeSummary| episode_line(e));
    lemma_add_section_budget(Seq::empty(), 0, "Known entities:\n"@, e, max);
    let s1 = add_section(Seq::empty(), 0, "Known entities:\n"@, e, max);
    lemma_add_section_budget(s1.0, s1.1, "Current facts:\n"@, f, max);
    let s2 = add_section(s1.0, s1.1, "Current facts:\n"@, f, max);
    lemma_add_section_budget(s2.0, s2.1, "Relevant conversation history:\n"@, p, max);
    let s3 = add_section(s2.0, s2.1, "Relevant conversation history:\n"@, p, max);
    lemma_join_tokens(s3.0);
}

/// The rendered context of entities, facts and episodes in a budget of
/// `max` tokens: "Known entities", "Current facts", then "Relevant
/// conversation history", each with the lines that fit, joined by blank
/// lines.
pub open spec fn assembled_context(
    entities: Seq<EntitySummary>,
    facts: Seq<FactSummary>,
    episodes: Seq<EpisodeSummary>,
    max: nat,
) -> Seq<char> {
    let s1 = add_section(Seq::empty(), 0, "Known entities:\n"@, entities.map_values(|e: EntitySummary| entity_line(e)), max);
    let s2 = add_section(s1.0, s1.1, "Current facts:\n"@, facts.map_values(|f: FactSummary| fact_line(f)), max);
    let s3 = add_section(s2.0, s2.1, "Relevant conversation history:\n"@, episodes.map_values(|e: EpisodeSummary| episode_line(e)), max);
    join_nl(s3.0)
}

pub(crate) fn entity_line_exec(e: &EntitySummary) -> (r: String)
    ensures
        r@ == entity_line(*e),
{
    let mut s = owned("- ");
    push_str(&mut s, e.name.as_str());
    push_str(&mut s, " (");
    push_str(&mut s, e.entity_type.as_str());
    match &e.summary {
        Some(sum) => {
            push_str(&mut s, "): ");
            push_str(&mut s, sum.as_str());
            push_str(&mut s, "\n");
        },
        None => {
            push_str(&mut s, ")\n");
        },
    }
    s
}

fn fact_line_exec(f: &FactSummary) -> (r: String)
    ensures
        r@ == fact_line(*f),
{
    let mut s = owned("- ");
    push_str(&mut s, f.fact.as_str());
    if f.invalid_at.is_some() {
        push_str(&mut s, " [superseded]");
    } else {
        push_str(&mut s, "");
    }
    push_str(&mut s, "\n");
    s
}

fn episode_line_exec(ep: &EpisodeSummary) -> (r: String)
    ensures
        r@ == episode_line(*ep),
{
    let mut s = owned("- [");
    proof {
        reveal_strlit("%Y-%m-%d");
    }
    match format_utc(&ep.created_at, "%Y-%m-%d") {
        Some(d) => push_str(&mut s, d.as_str()),
        None => {},
    }
    push_str(&mut s, "] ");
    match &ep.role {
        Some(r) => push_str(&mut s, r.as_str()),
        None => push_str(&mut s, "unknown"),
    }
    push_str(&mut s, ": ");
    push_str(&mut s, ep.preview.as_str());
    push_str(&mut s, "\n");
    s
}

/// One section: the lines are added to the header while they fit.
fn build_section(
    parts: &mut Vec<String>,
    running: &mut u64,
    header: &str,
    lines: &Vec<String>,
    max: u32,
)
    requires
        old(running) <= max,
    ensures
        final(running) <= max,
        (final(parts)@.map_values(|p: String| p@), *final(running) as nat) == add_section(
            old(parts)@.map_values(|p: String| p@),
            *old(running) as nat,
            header@,
            lines@.map_values(|l: String| l@),
            max as nat,
        ),
{
    let ghost ls = lines@.map_values(|l: String| l@);
    let ghost p0 = parts@.map_values(|p: String| p@);
    let ghost r0 = *running as nat;
    if lines.len() == 0 {
        return;
    }
    let htok = estimate_tokens(header) as u64;
    if *running + htok > max as u64 {
        return;
    }
    let mut section = owned(header);
    let mut used: u64 = *running + htok;
    let mut i: usize = 0;
    proof {
        assert(lines@.map_values(|l: String| l@).skip(0) =~= ls);
        assert(ls.take(0) =~= Seq::<Seq<char>>::empty());
    }
    let mut full = false;
    while !full && i < lines.len()
        invariant
            ls == lines@.map_values(|l: String| l@),
            i <= lines.len(),
            used <= max,
            full ==> i < lines.len() && used + est_tokens(ls[i as int]) > max,
            section@ == header@ + concat_lines(ls.take(i as int)),
            ({
                let rest = fill(ls.skip(i as int), used as nat, max as nat);
                fill(ls, r0 + est_tokens(header@), max as nat) == ((i + rest.0) as nat, rest.1)
            }),
        decreases lines.len() - i + (if full { 0int } else { 1int }),
    {
        let line = &lines[i];
        let tok = estimate_tokens(line.as_str()) as u64;
        proof {
            assert(ls.skip(i as int)[0] == line@);
            assert(ls.skip(i as int).drop_first() =~= ls.skip(i + 1));
        }
        if used + tok > max as u64 {
            full = true;
        } else {
            push_str(&mut section, line.as_str());
            proof {
                assert(ls.take(i + 1).drop_last() =~= ls.take(i as int));
            }
            used = used + tok;
            i = i + 1;
        }
    }
    proof {
        if i == lines.len() {
            assert(ls.skip(i as int) =~= Seq::<Seq<char>>::empty());
        }
        if full {
            assert(ls.skip(i as int)[0] == ls[i as int]);
        }
        assert(fill(ls.skip(i as int), used as nat, max as nat) == (0nat, used as nat));
        assert(fill(ls, r0 + est_tokens(header@), max as nat) == (i as nat, used as nat));
    }
    if i > 0 {
        parts.push(section);
        *running = used;
        proof {
            assert(parts@.map_values(|p: String| p@) =~= p0.push(header@ + concat_lines(ls.take(i as int))));
        }
    }
}

/// `parts.join("\n")`.
pub(crate) fn join_lines(parts: &Vec<String>) -> (r: String)
    ensures
        r@ == join_nl(parts@.map_values(|p: String| p@)),
{
    let ghost ps = parts@.map_values(|p: String| p@);
    let mut s = String::new();
    let mut i: usize = 0;
    while i < parts.len()
        invariant
            ps == parts@.map_values(|p: String| p@),
            i <= parts.len(),
            s@ == join_nl(ps.take(i as int)),
        decreases parts.len() - i,
    {
        if i > 0 {
            push_str(&mut s, "\n");
        }
        push_str(&mut s, parts[i].as_str());
        proof {
            assert(ps.take(i + 1).drop_last() =~= ps.take(i as int));
            if i == 0 {
                assert(ps.take(0) =~= Seq::<Seq<char>>::empty());
            }
        }
        i = i + 1;
    }
    proof {
        assert(ps.take(parts.len() as int) =~= ps);
    }
    s
}

/// A block of context assembled from retrieved knowledge.
#[derive(Clone, Debug)]
pub struct ContextBlock {
    /// The assembled text.
    pub context: String,
    /// Approximate token count of `context`.
    pub token_count: u32,
    pub entities: Vec<EntitySummary>,
    pub facts: Vec<FactSummary>,
    pub episodes: Vec<EpisodeSummary>,
    /// Retrieval time in milliseconds.
    pub latency_ms: u64,
    pub sources: Vec<RetrievalSource>,
    /// How time was taken into account, when it was.
    pub temporal_diagnostics: Option<TemporalDiagnostics>,
    /// How a router chose the retrieval strategy, when one did.
    pub routing_decision: Option<serde_json::Value>,
    /// The structured breakdown, when asked for.
    pub structured: Option<StructuredContext>,
    /// Why each result was selected, when asked for.
    pub explanations: Option<Vec<RetrievalExplanation>>,
    /// Query intent detected by the classifier.
    pub query_type: Option<String>,
    /// Non-text sources referenced by the context.
    pub attachments: Vec<AttachmentSource>,
}

impl ContextBlock {
    /// An empty context block.
    pub fn empty() -> (r: ContextBlock)
        ensures
            r.context@ == Seq::<char>::empty(),
            r.token_count == 0,
            r.entities@.len() == 0,
            r.facts@.len() == 0,
            r.episodes@.len() == 0,
            r.latency_ms == 0,
            r.sources@.len() == 0,
            r.temporal_diagnostics is None,
            r.routing_decision is None,
            r.structured is None,
            r.explanations is None,
            r.query_type is None,
            r.attachments@.len() == 0,
    {
        ContextBlock {
            context: String::new(),
            token_count: 0,
            entities: Vec::new(),
            facts: Vec::new(),
            episodes: Vec::new(),
            latency_ms: 0,
            sources: Vec::new(),
            temporal_diagnostics: None,
            routing_decision: None,
            structured: None,
            explanations: None,
            query_type: None,
            attachments: Vec::new(),
        }
    }

    /// Render entities, facts and episodes into `context` within a budget of
    /// `max_tokens`, and set `token_count` to the estimate of the result.
    pub fn assemble(&mut self, max_tokens: u32)
        ensures
            final(self).context@ == assembled_context(old(self).entities@, old(self).facts@, old(self).episodes@, max_tokens as nat),
            final(self).token_count == est_tokens(final(self).context@),
            final(self).token_count <= max_tokens + 2,
            final(self).entities == old(self).entities,
            final(self).facts == old(self).facts,
            final(self).episodes == old(self).episodes,
            final(self).latency_ms == old(self).latency_ms,
            final(self).sources == old(self).sources,
            final(self).query_type == old(self).query_type,
            final(self).temporal_diagnostics == old(self).temporal_diagnostics,
            final(self).routing_decision == old(self).routing_decision,
            final(self).structured == old(self).structured,
            final(self).explanations == old(self).explanations,
            final(self).attachments == old(self).attachments,
    {
        let mut parts: Vec<String> = Vec::new();
        let mut running: u64 = 0;

        let mut lines: Vec<String> = Vec::new();
        let mut i: usize = 0;
        while i < self.entities.len()
            invariant
                i <= self.entities.len(),
                lines@.map_values(|l: String| l@) =~= self.entities@.take(i as int).map_values(|e: EntitySummary| entity_line(e)),
            decreases self.entities.len() - i,
        {
            let l = entity_line_exec(&self.entities[i]);
            let ghost before = lines@;
            lines.push(l);
            proof {
                assert(lines@ == before.push(l));
                assert(lines@.map_values(|l: String| l@) =~= before.map_values(|l: String| l@).push(l@));
                assert(self.entities@.take(i + 1) =~= self.entities@.take(i as int).push(self.entities@[i as int]));
            }
            i = i + 1;
        }
        proof {
            assert(self.entities@.take(i as int) =~= self.entities@);
            assert(parts@.map_values(|p: String| p@) =~= Seq::<Seq<char>>::empty());
        }
        build_section(&mut parts, &mut running, "Known entities:\n", &lines, max_tokens);

        let mut lines: Vec<String> = Vec::new();
        let mut i: usize = 0;
        while i < self.facts.len()
            invariant
                i <= self.facts.len(),
                lines@.map_values(|l: String| l@) =~= self.facts@.take(i as int).map_values(|f: FactSummary| fact_line(f)),
            decreases self.facts.len() - i,
        {
            let l = fact_line_exec(&self.facts[i]);
            let ghost before = lines@;
            lines.push(l);
            proof {
                assert(lines@ == before.push(l));
                assert(lines@.map_values(|l: String| l@) =~= before.map_values(|l: String| l@).push(l@));
                assert(self.facts@.take(i + 1) =~= self.facts@.take(i as int).push(self.facts@[i as int]));
            }
            i = i + 1;
        }
        proof {
            assert(self.facts@.take(i as int) =~= self.facts@);
        }
        build_section(&mut parts, &mut running, "Current facts:\n", &lines, max_tokens);

        let mut lines: Vec<String> = Vec::new();
        let mut i: usize = 0;
        while i < self.episodes.len()
            invariant
                i <= self.episodes.len(),
                lines@.map_values(|l: String| l@) =~= self.episodes@.take(i as int).map_values(|e: EpisodeSummary| episode_line(e)),
            decreases self.episodes.len() - i,
        {
            let l = episode_line_exec(&self.episodes[i]);
            let ghost before = lines@;
            lines.push(l);
            proof {
                assert(lines@ == before.push(l));
                assert(lines@.map_values(|l: String| l@) =~= before.map_values(|l: String| l@).push(l@));
                assert(self.episodes@.take(i + 1) =~= self.episodes@.take(i as int).push(self.episodes@[i as int]));
            }
            i = i + 1;
        }
        proof {
            assert(self.episodes@.take(i as int) =~= self.episodes@);
        }
        build_section(&mut parts, &mut running, "Relevant conversation history:\n", &lines, max_tokens);

        let context = join_lines(&parts);
        self.token_count = estimate_tokens(context.as_str());
        self.context = context;
        proof {
            lemma_assembled_within_budget(old(self).entities@, old(self).facts@, old(self).episodes@, max_tokens as nat);
        }
    }
}

// ─── Structured context ────────────────────────────────────────────

/// A top-ranked currently valid fact.
#[derive(Clone, Debug)]
pub struct KeyFact {
    pub subject: String,
    pub predicate: String,
    pub object: String,
    pub valid_at: UtcTime,
    /// The fact's relevance, as an order key.
    pub confidence: u32,
    pub source_fact_id: u128,
}

/// A fact that became valid recently.
#[derive(Clone, Debug)]
pub struct RecentChange {
    pub fact: String,
    /// When the fact became valid.
    pub changed_at: UtcTime,
    pub source_fact_id: u128,
}

/// A relationship between two entities.
#[derive(Clone, Debug)]
pub struct RelationshipSummary {
    pub from: String,
    pub relation: String,
    pub to: String,
    /// The fact's relevance, as an order key.
    pub confidence: u32,
}

/// Structured breakdown of a context block.
#[derive(Clone, Debug)]
pub struct StructuredContext {
    pub key_facts: Vec<KeyFact>,
    pub recent_changes: Vec<RecentChange>,
    pub relationships: Vec<RelationshipSummary>,
    /// Filled by the caller when absent topics are detected.
    pub open_questions: Vec<String>,
}

/// The first `limit` elements satisfying `p`, in order.
pub open spec fn take_matching(s: Seq<FactSummary>, p: spec_fn(FactSummary) -> bool, limit: nat) -> Seq<FactSummary>
    decreases s.len(),
{
    if s.len() == 0 || limit == 0 {
        Seq::empty()
    } else if p(s[0]) {
        seq![s[0]] + take_matching(s.drop_first(), p, (limit - 1) as nat)
    } else {
        take_matching(s.drop_first(), p, limit)
    }
}

/// A fact that is still valid.
pub open spec fn is_current(f: FactSummary) -> bool {
    f.invalid_at is None
}

/// Selects the facts that are still valid.
pub open spec fn current_facts() -> spec_fn(FactSummary) -> bool {
    |f: FactSummary| is_current(f)
}

/// Selects the facts that link two named entities.
pub open spec fn linking_facts() -> spec_fn(FactSummary) -> bool {
    |f: FactSummary| links_entities(f)
}

/// Selects the facts that became valid at or after thirty days (2,592,000
/// seconds) before `now`.
pub open spec fn valid_in_last_30_days(now: UtcTime) -> spec_fn(FactSummary) -> bool {
    |f: FactSummary| f.valid_at.secs > now.secs - 2_592_000
        || (f.valid_at.secs == now.secs - 2_592_000 && f.valid_at.nanos >= now.nanos)
}

/// A fact that links two named entities.
pub open spec fn links_entities(f: FactSummary) -> bool {
    f.source_entity@.len() > 0 && f.target_entity@.len() > 0
}

/// How many facts of `s` have not been invalidated.
pub open spec fn still_valid_count(s: Seq<FactSummary>) -> nat
    decreases s.len(),
{
    if s.len() == 0 {
        0
    } else {
        (if s[0].invalid_at is None { 1nat } else { 0nat }) + still_valid_count(s.drop_first())
    }
}

/// The key fact comes from a fact of `facts` that has not been invalidated:
/// its id and subject are that fact's.
pub open spec fn from_uninvalidated_fact(facts: Seq<FactSummary>, k: KeyFact) -> bool {
    exists|j: int| 0 <= j < facts.len() && (#[trigger] facts[j]).invalid_at is None
        && facts[j].id == k.source_fact_id && facts[j].source_entity@ == k.subject@
}

/// Some key fact is about the fact with this id.
pub open spec fn has_key_fact_for(keys: Seq<KeyFact>, id: u128) -> bool {
    exists|i: int| 0 <= i < keys.len() && (#[trigger] keys[i]).source_fact_id == id
}

/// The key facts are the first `limit` facts that have not been
/// invalidated: each selected fact is a fact of `s` without an invalidation
/// time, and every such fact with fewer than `limit` of them before it is
/// selected.
pub proof fn lemma_key_fact_selection(s: Seq<FactSummary>, limit: nat)
    ensures
        forall|i: int| 0 <= i < take_matching(s, current_facts(), limit).len() ==> {
            let f = #[trigger] take_matching(s, current_facts(), limit)[i];
            f.invalid_at is None && s.contains(f)
        },
        forall|j: int| 0 <= j < s.len() && (#[trigger] s[j]).invalid_at is None && still_valid_count(s.take(j)) < limit
            ==> take_matching(s, current_facts(), limit).contains(s[j]),
    decreases s.len(),
{
    if s.len() > 0 && limit > 0 {
        let t = s.drop_first();
        let p = current_facts();
        if s[0].invalid_at is None {
            lemma_key_fact_selection(t, (limit - 1) as nat);
            let rest = take_matching(t, p, (limit - 1) as nat);
            let tm = take_matching(s, p, limit);
            assert(tm == seq![s[0]] + rest);
            assert forall|i: int| 0 <= i < tm.len() implies {
                let f = #[trigger] tm[i];
                f.invalid_at is None && s.contains(f)
            } by {
                if i == 0 {
                    assert(s[0] == tm[0]);
                } else {
                    assert(tm[i] == rest[i - 1]);
                    let k = choose|k: int| 0 <= k < t.len() && t[k] == rest[i - 1];
                    assert(s[k + 1] == tm[i]);
                }
            }
            assert forall|j: int| 0 <= j < s.len() && (#[trigger] s[j]).invalid_at is None && still_valid_count(s.take(j)) < limit
                implies tm.contains(s[j]) by {
                if j == 0 {
                    assert(tm[0] == s[0]);
                } else {
                    assert(s.take(j).drop_first() =~= t.take(j - 1));
                    assert(s.take(j)[0] == s[0]);
                    assert(t[j - 1] == s[j]);
                    assert(rest.contains(t[j - 1]));
                    let k = choose|k: int| 0 <= k < rest.len() && rest[k] == t[j - 1];
                    assert(tm[k + 1] == s[j]);
                }
            }
        } else {
            lemma_key_fact_selection(t, limit);
            let tm = take_matching(s, p, limit);
            assert(tm == take_matching(t, p, limit));
            assert forall|i: int| 0 <= i < tm.len() implies {
                let f = #[trigger] tm[i];
                f.invalid_at is None && s.contains(f)
            } by {
                let k = choose|k: int| 0 <= k < t.len() && t[k] == tm[i];
                assert(s[k + 1] == tm[i]);
            }
            assert forall|j: int| 0 <= j < s.len() && (#[trigger] s[j]).invalid_at is None && still_valid_count(s.take(j)) < limit
                implies tm.contains(s[j]) by {
                if j > 0 {
                    assert(s.take(j).drop_first() =~= t.take(j - 1));
                    assert(s.take(j)[0] == s[0]);
                    assert(t[j - 1] == s[j]);
                }
            }
        }
    } else if s.len() > 0 {
        assert forall|j: int| 0 <= j < s.len() && (#[trigger] s[j]).invalid_at is None && still_valid_count(s.take(j)) < limit
            implies take_matching(s, current_facts(), limit).contains(s[j]) by {
        }
    }
}

proof fn lemma_take_matching_step(s: Seq<FactSummary>, p: spec_fn(FactSummary) -> bool, limit: nat, i: int)
    requires
        0 <= i < s.len(),
        limit > 0,
    ensures
        take_matching(s.skip(i), p, limit) == (if p(s[i]) {
            seq![s[i]] + take_matching(s.skip(i + 1), p, (limit - 1) as nat)
        } else {
            take_matching(s.skip(i + 1), p, limit)
        }),
{
    assert(s.skip(i)[0] == s[i]);
    assert(s.skip(i).drop_first() =~= s.skip(i + 1));
}

impl ContextBlock {
    /// The structured breakdown at time `now`: up to ten currently valid
    /// facts, up to five facts that became valid in the thirty days before
    /// `now`, and up to eight facts linking two named entities, each in the
    /// order of `facts`.
    pub fn build_structured_at(&self, now: UtcTime) -> (r: StructuredContext)
        ensures
            r.key_facts@.len() == take_matching(self.facts@, current_facts(), 10).len(),
            forall|i: int| 0 <= i < r.key_facts@.len() ==> {
                let f = #[trigger] take_matching(self.facts@, current_facts(), 10)[i];
                let k = r.key_facts@[i];
                &&& k.subject@ == f.source_entity@
                &&& k.predicate@ == f.label@
                &&& k.object@ == f.target_entity@
                &&& k.valid_at == f.valid_at
                &&& k.confidence == f.relevance
                &&& k.source_fact_id == f.id
            },
            r.recent_changes@.len() == take_matching(self.facts@, valid_in_last_30_days(now), 5).len(),
            forall|i: int| 0 <= i < r.recent_changes@.len() ==> {
                let f = #[trigger] take_matching(self.facts@, valid_in_last_30_days(now), 5)[i];
                let c = r.recent_changes@[i];
                &&& c.fact@ == f.fact@
                &&& c.changed_at == f.valid_at
                &&& c.source_fact_id == f.id
            },
            r.relationships@.len() == take_matching(self.facts@, linking_facts(), 8).len(),
            forall|i: int| 0 <= i < r.relationships@.len() ==> {
                let f = #[trigger] take_matching(self.facts@, linking_facts(), 8)[i];
                let l = r.relationships@[i];
                &&& l.from@ == f.source_entity@
                &&& l.relation@ == f.label@
                &&& l.to@ == f.target_entity@
                &&& l.confidence == f.relevance
            },
            r.open_questions@.len() == 0,
            forall|i: int| 0 <= i < r.key_facts@.len() ==> from_uninvalidated_fact(self.facts@, #[trigger] r.key_facts@[i]),
            forall|j: int| 0 <= j < self.facts@.len() && (#[trigger] self.facts@[j]).invalid_at is None
                && still_valid_count(self.facts@.take(j)) < 10 ==> has_key_fact_for(r.key_facts@, self.facts@[j].id),
    {
        let facts = &self.facts;
        let cutoff_secs: i128 = now.secs as i128 - 2_592_000;
        let ghost cur = current_facts();
        let ghost recent = valid_in_last_30_days(now);
        let ghost linked = linking_facts();

        let mut key_facts: Vec<KeyFact> = Vec::new();
        let mut i: usize = 0;
        proof {
            assert(facts@.skip(0) =~= facts@);
        }
        while i < facts.len() && key_facts.len() < 10
            invariant
                cur == current_facts(),
                i <= facts.len(),
                key_facts@.len() <= 10,
                take_matching(facts@, cur, 10) =~= take_matching(facts@, cur, 10).take(key_facts@.len() as int)
                    + take_matching(facts@.skip(i as int), cur, (10 - key_facts@.len()) as nat),
                take_matching(facts@, cur, 10).len() >= key_facts@.len(),
                forall|j: int| 0 <= j < key_facts@.len() ==> {
                    let f = #[trigger] take_matching(facts@, cur, 10)[j];
                    let k = key_facts@[j];
                    &&& k.subject@ == f.source_entity@
                    &&& k.predicate@ == f.label@
                    &&& k.object@ == f.target_entity@
                    &&& k.valid_at == f.valid_at
                    &&& k.confidence == f.relevance
                    &&& k.source_fact_id == f.id
                },
            decreases facts.len() - i,
        {
            let f = &facts[i];
            proof {
                lemma_take_matching_step(facts@, cur, (10 - key_facts@.len()) as nat, i as int);
            }
            if f.invalid_at.is_none() {
                key_facts.push(KeyFact {
                    subject: f.source_entity.clone(),
                    predicate: f.label.clone(),
                    object: f.target_entity.clone(),
                    valid_at: f.valid_at,
                    confidence: f.relevance,
                    source_fact_id: f.id,
                });
            }
            i = i + 1;
        }
        proof {
            if key_facts@.len() < 10 {
                assert(facts@.skip(i as int) =~= Seq::<FactSummary>::empty());
            }
        }

        let mut recent_changes: Vec<RecentChange> = Vec::new();
        let mut i: usize = 0;
        while i < facts.len() && recent_changes.len() < 5
            invariant
                i <= facts.len(),
                recent_changes@.len() <= 5,
                recent == valid_in_last_30_days(now),
                cutoff_secs == now.secs - 2_592_000,
                take_matching(facts@, recent, 5) =~= take_matching(facts@, recent, 5).take(recent_changes@.len() as int)
                    + take_matching(facts@.skip(i as int), recent, (5 - recent_changes@.len()) as nat),
                take_matching(facts@, recent, 5).len() >= recent_changes@.len(),
                forall|j: int| 0 <= j < recent_changes@.len() ==> {
                    let f = #[trigger] take_matching(facts@, recent, 5)[j];
                    let c = recent_changes@[j];
                    &&& c.fact@ == f.fact@
                    &&& c.changed_at == f.valid_at
                    &&& c.source_fact_id == f.id
                },
            decreases facts.len() - i,
        {
            let f = &facts[i];
            proof {
                lemma_take_matching_step(facts@, recent, (5 - recent_changes@.len()) as nat, i as int);
            }
            let t = f.valid_at.secs as i128;
            if t > cutoff_secs || (t == cutoff_secs && f.valid_at.nanos >= now.nanos) {
                recent_changes.push(RecentChange { fact: f.fact.clone(), changed_at: f.valid_at, source_fact_id: f.id });
            }
            i = i + 1;
        }
        proof {
            if recent_changes@.len() < 5 {
                assert(facts@.skip(i as int) =~= Seq::<FactSummary>::empty());
            }
        }

        let mut relationships: Vec<RelationshipSummary> = Vec::new();
        let mut i: usize = 0;
        while i < facts.len() && relationships.len() < 8
            invariant
                linked == linking_facts(),
                i <= facts.len(),
                relationships@.len() <= 8,
                take_matching(facts@, linked, 8) =~= take_matching(facts@, linked, 8).take(relationships@.len() as int)
                    + take_matching(facts@.skip(i as int), linked, (8 - relationships@.len()) as nat),
                take_matching(facts@, linked, 8).len() >= relationships@.len(),
                forall|j: int| 0 <= j < relationships@.len() ==> {
                    let f = #[trigger] take_matching(facts@, linked, 8)[j];
                    let l = relationships@[j];
                    &&& l.from@ == f.source_entity@
                    &&& l.relation@ == f.label@
                    &&& l.to@ == f.target_entity@
                    &&& l.confidence == f.relevance
                },
            decreases facts.len() - i,
        {
            let f = &facts[i];
            proof {
                lemma_take_matching_step(facts@, linked, (8 - relationships@.len()) as nat, i as int);
                lemma_encode_utf8_len(f.source_entity@);
                lemma_utf8_len_ge(f.source_entity@);
                lemma_encode_utf8_len(f.target_entity@);
                lemma_utf8_len_ge(f.target_entity@);
            }
            if byte_len(f.source_entity.as_str()) > 0 && byte_len(f.target_entity.as_str()) > 0 {
                relationships.push(RelationshipSummary {
                    from: f.source_entity.clone(),
                    relation: f.label.clone(),
                    to: f.target_entity.clone(),
                    confidence: f.relevance,
                });
            }
            i = i + 1;
        }
        proof {
            if relationships@.len() < 8 {
                assert(facts@.skip(i as int) =~= Seq::<FactSummary>::empty());
            }
        }
        proof {
            lemma_key_fact_selection(facts@, 10);
            let tm = take_matching(facts@, cur, 10);
            assert forall|i: int| 0 <= i < key_facts@.len() implies from_uninvalidated_fact(facts@, #[trigger] key_facts@[i]) by {
                let f = tm[i];
                assert(f.invalid_at is None && facts@.contains(f));
                let j = choose|j: int| 0 <= j < facts@.len() && facts@[j] == f;
                assert(facts@[j] == f);
            }
            assert forall|j: int| 0 <= j < facts@.len() && (#[trigger] facts@[j]).invalid_at is None
                && still_valid_count(facts@.take(j)) < 10 implies has_key_fact_for(key_facts@, facts@[j].id) by {
                assert(tm.contains(facts@[j]));
                let i = choose|i: int| 0 <= i < tm.len() && tm[i] == facts@[j];
                assert(key_facts@[i].source_fact_id == tm[i].id);
            }
        }
        let r = StructuredContext { key_facts, recent_changes, relationships, open_questions: Vec::new() };
        assert(r.key_facts@ == key_facts@);
        r
    }

    /// The structured breakdown as of the current time.
    pub fn build_structured(&self) -> (r: StructuredContext)
        ensures
            r.key_facts@.len() == take_matching(self.facts@, current_facts(), 10).len(),
            forall|i: int| 0 <= i < r.key_facts@.len() ==> {
                let f = #[trigger] take_matching(self.facts@, current_facts(), 10)[i];
                let k = r.key_facts@[i];
                &&& k.subject@ == f.source_entity@
                &&& k.predicate@ == f.label@
                &&& k.object@ == f.target_entity@
                &&& k.valid_at == f.valid_at
                &&& k.confidence == f.relevance
                &&& k.source_fact_id == f.id
            },
            exists|now: UtcTime| {
                &&& r.recent_changes@.len() == take_matching(self.facts@, #[trigger] valid_in_last_30_days(now), 5).len()
                &&& forall|i: int| 0 <= i < r.recent_changes@.len() ==> {
                    let f = #[trigger] take_matching(self.facts@, valid_in_last_30_days(now), 5)[i];
                    let c = r.recent_changes@[i];
                    &&& c.fact@ == f.fact@
                    &&& c.changed_at == f.valid_at
                    &&& c.source_fact_id == f.id
                }
            },
            r.relationships@.len() == take_matching(self.facts@, linking_facts(), 8).len(),
            forall|i: int| 0 <= i < r.relationships@.len() ==> {
                let f = #[trigger] take_matching(self.facts@, linking_facts(), 8)[i];
                let l = r.relationships@[i];
                &&& l.from@ == f.source_entity@
                &&& l.relation@ == f.label@
                &&& l.to@ == f.target_entity@
                &&& l.confidence == f.relevance
            },
            r.open_questions@.len() == 0,
    {
        self.build_structured_at(crate::time::now())
    }
}

// ─── Explanations and requests ─────────────────────────────────────

/// Why one result was included.
#[derive(Clone, Debug)]
pub struct RetrievalExplanation {
    pub id: u128,
    pub reason: RetrievalReason,
    pub detail: String,
}

/// Gathers one explanation per result as results flow through retrieval.
#[derive(Clone, Debug)]
pub struct ExplanationCollector {
    pub explanations: Vec<RetrievalExplanation>,
}

/// Some explanation is about `id`.
pub open spec fn explains(es: Seq<RetrievalExplanation>, id: u128) -> bool {
    exists|i: int| 0 <= i < es.len() && #[trigger] es[i].id == id
}

impl ExplanationCollector {
    /// No explanations yet.
    pub fn new() -> (r: ExplanationCollector)
        ensures
            r.explanations@.len() == 0,
    {
        ExplanationCollector { explanations: Vec::new() }
    }

    /// Record why `id` was included, unless it was recorded already (graph
    /// traversal may revisit a result).
    pub fn record(&mut self, id: u128, reason: RetrievalReason, detail: String)
        ensures
            explains(old(self).explanations@, id) ==> final(self).explanations@ == old(self).explanations@,
            !explains(old(self).explanations@, id) ==> final(self).explanations@
                == old(self).explanations@.push(RetrievalExplanation { id, reason, detail }),
    {
        let mut i: usize = 0;
        while i < self.explanations.len()
            invariant
                i <= self.explanations.len(),
                forall|k: int| 0 <= k < i ==> #[trigger] self.explanations@[k].id != id,
            decreases self.explanations.len() - i,
        {
            if self.explanations[i].id == id {
                return;
            }
            i = i + 1;
        }
        self.explanations.push(RetrievalExplanation { id, reason, detail });
    }

    /// The explanations, in the order recorded.
    pub fn finish(self) -> (r: Vec<RetrievalExplanation>)
        ensures
            r == self.explanations,
    {
        self.explanations
    }
}

impl Default for ExplanationCollector {
    /// No explanations yet.
    fn default() -> (r: ExplanationCollector)
        ensures
            r.explanations@.len() == 0,
    {
        ExplanationCollector::new()
    }
}

/// The explanations of a collector are about distinct results.
pub proof fn lemma_explanations_distinct(es: Seq<RetrievalExplanation>, id: u128, reason: RetrievalReason, detail: String)
    requires
        forall|a: int, b: int| 0 <= a < b < es.len() ==> es[a].id != es[b].id,
        !explains(es, id),
    ensures
        ({
            let n = es.push(RetrievalExplanation { id, reason, detail });
            forall|a: int, b: int| 0 <= a < b < n.len() ==> n[a].id != n[b].id
        }),
{
    let n = es.push(RetrievalExplanation { id, reason, detail });
    assert forall|a: int, b: int| 0 <= a < b < n.len() implies n[a].id != n[b].id by {
        if b == es.len() {
            assert(n[a] == es[a]);
            if es[a].id == id {
                assert(explains(es, id));
            }
        }
    }
}

/// How time was taken into account for a retrieval.  The weight is a score
/// order key.
#[derive(Clone, Copy, Debug)]
pub struct TemporalDiagnostics {
    pub resolved_intent: TemporalIntent,
    pub temporal_weight: u32,
    pub as_of: Option<UtcTime>,
    pub entities_scored: u32,
    pub facts_scored: u32,
    pub episodes_scored: u32,
}

/// A non-text source of a context.  The score is an order key.
#[derive(Clone, Debug)]
pub struct AttachmentSource {
    pub attachment_id: u128,
    pub episode_id: u128,
    pub modality: Modality,
    pub mime_type: String,
    pub download_url: Option<String>,
    pub thumbnail_url: Option<String>,
    pub description: Option<String>,
    pub relevance_score: u32,
}

/// Request for context.  Weights and relevances are score order keys.
#[derive(Clone, Debug)]
pub struct ContextRequest {
    pub session_id: Option<u128>,
    pub messages: Vec<ContextMessage>,
    pub max_tokens: u32,
    pub search_types: Vec<SearchType>,
    pub temporal_filter: Option<UtcTime>,
    pub as_of: Option<UtcTime>,
    pub time_intent: TemporalIntent,
    pub temporal_weight: Option<u32>,
    pub min_relevance: u32,
    pub agent_id: Option<String>,
    pub region_ids: Vec<u128>,
    pub structured: bool,
    pub explain: bool,
    pub tiered_budget: bool,
    pub include_modalities: Vec<Modality>,
}

impl Default for ContextRequest {
    /// Everything empty, zero or off (as the derived default sets it).
    fn default() -> (r: ContextRequest)
        ensures
            r.session_id is None,
            r.messages@.len() == 0,
            r.max_tokens == 0,
            r.search_types@.len() == 0,
            r.temporal_filter is None,
            r.as_of is None,
            r.time_intent == TemporalIntent::Auto,
            r.temporal_weight is None,
            r.min_relevance == ZERO_SCORE_KEY,
            r.agent_id is None,
            r.region_ids@.len() == 0,
            !r.structured,
            !r.explain,
            !r.tiered_budget,
            r.include_modalities@.len() == 0,
    {
        ContextRequest {
            session_id: None,
            messages: Vec::new(),
            max_tokens: 0,
            search_types: Vec::new(),
            temporal_filter: None,
            as_of: None,
            time_intent: TemporalIntent::Auto,
            temporal_weight: None,
            min_relevance: ZERO_SCORE_KEY,
            agent_id: None,
            region_ids: Vec::new(),
            structured: false,
            explain: false,
            tiered_budget: false,
            include_modalities: Vec::new(),
        }
    }
}

/// Token budget of a context request that sets none.
pub fn default_max_tokens() -> (r: u32)
    ensures
        r == 500,
{
    500
}

/// Search types of a request that sets none: hybrid search.
pub fn default_search_types() -> (r: Vec<SearchType>)
    ensures
        r@ == seq![SearchType::Hybrid],
{
    let mut v: Vec<SearchType> = Vec::new();
    v.push(SearchType::Hybrid);
    v
}

/// Minimum relevance of a request that sets none: the key of `0.3`.
pub fn default_min_relevance() -> (r: u32)
    ensures
        r == 0xBE99_999A,
{
    0xBE99_999A
}

/// Temporal intent of a request that sets none.
pub fn default_temporal_intent() -> (r: TemporalIntent)
    ensures
        r == TemporalIntent::Auto,
{
    TemporalIntent::Auto
}

/// A search request.  The minimum relevance is a score order key.
#[derive(Clone, Debug)]
pub struct SearchRequest {
    pub query: String,
    pub search_type: SearchType,
    pub limit: u32,
    pub min_relevance: u32,
    pub temporal_filter: Option<UtcTime>,
}

/// Search type of a request that sets none.
pub fn default_search_type() -> (r: SearchType)
    ensures
        r == SearchType::Hybrid,
{
    SearchType::Hybrid
}

/// Result limit of a search that sets none.
pub fn default_search_limit() -> (r: u32)
    ensures
        r == 10,
{
    10
}

/// One search result.  The score is an order key.
#[derive(Debug)]
pub struct SearchResult {
    pub result_type: SearchResultType,
    pub id: u128,
    pub score: u32,
    pub content: String,
    pub source: RetrievalSource,
    pub metadata: serde_json::Value,
}

} // verus!
