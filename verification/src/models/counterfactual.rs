//! Counterfactual simulation: hypothetical facts override the matching
//! retrieved facts (or join them as new facts), and the difference is
//! recorded.

use vstd::prelude::*;
use crate::models::classification::Classification;
use crate::models::context::FactSummary;
use crate::models::tiered::{by_relevance, order_by_relevance, relevance_keys};
use crate::text::{owned, push_str, same_text, to_lowercase, unicode_lowercase};
use crate::time::UtcTime;

verus! {

/// A "what if" override: the entity (matched case-insensitively), the
/// attribute or relation label, its hypothetical value, and a confidence
/// (an order key, compared as the confidences are).
#[derive(Clone, Debug)]
pub struct HypotheticalFact {
    pub entity: String,
    pub attribute: String,
    pub value: String,
    pub confidence: u32,
}

/// An input fact replaced by a hypothetical.
#[derive(Clone, Debug)]
pub struct OverriddenFact {
    /// The fact as it was before the replacement.
    pub original: FactSummary,
    /// Position of the hypothetical in the request.
    pub replaced_by_index: usize,
    pub hypothetical: HypotheticalFact,
}

/// What a counterfactual changed.
#[derive(Clone, Debug)]
pub struct CounterfactualDiff {
    pub overridden_facts: Vec<OverriddenFact>,
    /// Replacements plus new facts.
    pub injected_count: usize,
    /// Hypotheticals that matched no fact and were added as new facts.
    pub novel_hypotheticals: Vec<HypotheticalFact>,
}

/// Request body of a counterfactual query.
#[derive(Clone, Debug)]
pub struct CounterfactualRequest {
    pub query: String,
    pub session: Option<String>,
    pub max_tokens: Option<u32>,
    /// Minimum relevance, as an order key.
    pub min_relevance: Option<u32>,
    pub hypotheticals: Vec<HypotheticalFact>,
}

/// Response of a counterfactual query.
#[derive(Clone, Debug)]
pub struct CounterfactualResponse {
    pub context: String,
    pub token_count: u32,
    pub facts: Vec<FactSummary>,
    pub counterfactual_diff: CounterfactualDiff,
    pub latency_ms: u64,
}

/// A fact as values.
pub struct FactView {
    pub id: u128,
    pub source_entity: Seq<char>,
    pub target_entity: Seq<char>,
    pub label: Seq<char>,
    pub fact: Seq<char>,
    pub classification: Classification,
    pub valid_at: UtcTime,
    pub invalid_at: Option<UtcTime>,
    pub relevance: u32,
    pub access_count: u32,
    pub last_accessed_at: Option<UtcTime>,
    pub temporal_scope: Option<Seq<char>>,
}

pub open spec fn fact_view(f: FactSummary) -> FactView {
    FactView {
        id: f.id,
        source_entity: f.source_entity@,
        target_entity: f.target_entity@,
        label: f.label@,
        fact: f.fact@,
        classification: f.classification,
        valid_at: f.valid_at,
        invalid_at: f.invalid_at,
        relevance: f.relevance,
        access_count: f.access_count,
        last_accessed_at: f.last_accessed_at,
        temporal_scope: match f.temporal_scope {
            Some(s) => Some(s@),
            None => None,
        },
    }
}

/// A hypothetical as values.
pub struct HypView {
    pub entity: Seq<char>,
    pub attribute: Seq<char>,
    pub value: Seq<char>,
    pub confidence: u32,
}

pub open spec fn hyp_view(h: HypotheticalFact) -> HypView {
    HypView { entity: h.entity@, attribute: h.attribute@, value: h.value@, confidence: h.confidence }
}

/// A replacement as values.
pub struct OverrideView {
    pub original: FactView,
    pub index: nat,
    pub hypothetical: HypView,
}

pub open spec fn override_view(o: OverriddenFact) -> OverrideView {
    OverrideView { original: fact_view(o.original), index: o.replaced_by_index as nat, hypothetical: hyp_view(o.hypothetical) }
}

/// The fact concerns the hypothetical's entity and attribute, ignoring case.
pub open spec fn hyp_matches(f: FactView, h: HypView) -> bool {
    unicode_lowercase(f.source_entity) == unicode_lowercase(h.entity)
        && unicode_lowercase(f.label) == unicode_lowercase(h.attribute)
}

/// The replaced fact's source entity and label are the hypothetical's entity
/// and attribute, ignoring case.
pub open spec fn replaces_same_entity(o: OverriddenFact) -> bool {
    &&& unicode_lowercase(o.original.source_entity@) == unicode_lowercase(o.hypothetical.entity@)
    &&& unicode_lowercase(o.original.label@) == unicode_lowercase(o.hypothetical.attribute@)
}

/// The text of a hypothetical fact: entity, attribute and value.
pub open spec fn hyp_text(h: HypView) -> Seq<char> {
    h.entity + " "@ + h.attribute + " "@ + h.value
}

/// A fact replaced by a hypothetical: its text and relevance are the
/// hypothetical's, and it is currently valid.
pub open spec fn overridden(f: FactView, h: HypView) -> FactView {
    FactView { fact: hyp_text(h), relevance: h.confidence, invalid_at: None, ..f }
}

/// The new fact of a hypothetical that matched nothing, at position `idx`
/// of the request, made at time `now`.
pub open spec fn synthetic(h: HypView, idx: nat, now: UtcTime) -> FactView {
    FactView {
        id: (0xCF00_0000 + idx) as u128,
        source_entity: h.entity,
        target_entity: h.value,
        label: h.attribute,
        fact: hyp_text(h),
        classification: Classification::Internal,
        valid_at: now,
        invalid_at: None,
        relevance: h.confidence,
        access_count: 0,
        last_accessed_at: None,
        temporal_scope: None,
    }
}

/// One hypothetical over the first `cur.len()` facts: each position whose
/// input fact (in `inputs`) matches is replaced, and the replacement is
/// recorded with that input fact as its original; the other positions keep
/// their current fact.
pub open spec fn override_pass(cur: Seq<FactView>, inputs: Seq<FactView>, h: HypView, idx: nat) -> (Seq<FactView>, Seq<OverrideView>)
    decreases cur.len(),
{
    if cur.len() == 0 {
        (Seq::empty(), Seq::empty())
    } else {
        let r = override_pass(cur.drop_last(), inputs, h, idx);
        let o = inputs[cur.len() - 1];
        if hyp_matches(o, h) {
            (r.0.push(overridden(o, h)), r.1.push(OverrideView { original: o, index: idx, hypothetical: h }))
        } else {
            (r.0.push(cur.last()), r.1)
        }
    }
}

/// The simulation so far: facts, replacements, injections and new
/// hypotheticals.
pub struct CfState {
    pub facts: Seq<FactView>,
    pub overridden: Seq<OverrideView>,
    pub injected: nat,
    pub novel: Seq<HypView>,
}

/// One hypothetical applied: it replaces the input facts (`inputs`, the first
/// positions) whose entity and label it matches, or, matching none of them,
/// joins the facts as a new fact.  Facts added for earlier hypotheticals are
/// not scanned.
pub open spec fn cf_step(s: CfState, inputs: Seq<FactView>, h: HypView, idx: nat, now: UtcTime) -> CfState {
    let n = inputs.len() as int;
    let (fs, ov) = override_pass(s.facts.take(n), inputs, h, idx);
    if ov.len() > 0 {
        CfState { facts: fs + s.facts.skip(n), overridden: s.overridden + ov, injected: s.injected + ov.len(), novel: s.novel }
    } else {
        CfState {
            facts: s.facts.push(synthetic(h, idx, now)),
            overridden: s.overridden,
            injected: s.injected + 1,
            novel: s.novel.push(h),
        }
    }
}

/// The first `n` hypotheticals applied in order.
pub open spec fn cf_apply(facts: Seq<FactView>, hyps: Seq<HypView>, n: nat, now: UtcTime) -> CfState
    decreases n,
{
    if n == 0 {
        CfState { facts, overridden: Seq::empty(), injected: 0, novel: Seq::empty() }
    } else {
        cf_step(cf_apply(facts, hyps, (n - 1) as nat, now), facts, hyps[n - 1], (n - 1) as nat, now)
    }
}

/// Facts in descending relevance, ties in their order.
pub open spec fn sorted_views(fs: Seq<FactView>) -> Seq<FactView> {
    by_relevance(fs.map_values(|f: FactView| f.relevance), fs.len()).map_values(|i: int| fs[i])
}

fn copy_option_text(s: &Option<String>) -> (r: Option<String>)
    ensures
        r == *s,
{
    match s {
        Some(t) => Some(t.clone()),
        None => None,
    }
}

/// A field-for-field copy of a fact.
pub fn copy_fact(f: &FactSummary) -> (r: FactSummary)
    ensures
        r == *f,
{
    FactSummary {
        id: f.id,
        source_entity: f.source_entity.clone(),
        target_entity: f.target_entity.clone(),
        label: f.label.clone(),
        fact: f.fact.clone(),
        classification: f.classification,
        valid_at: f.valid_at,
        invalid_at: f.invalid_at,
        relevance: f.relevance,
        access_count: f.access_count,
        last_accessed_at: f.last_accessed_at,
        temporal_scope: copy_option_text(&f.temporal_scope),
    }
}

fn copy_hyp(h: &HypotheticalFact) -> (r: HypotheticalFact)
    ensures
        r == *h,
{
    HypotheticalFact {
        entity: h.entity.clone(),
        attribute: h.attribute.clone(),
        value: h.value.clone(),
        confidence: h.confidence,
    }
}

fn hyp_text_exec(h: &HypotheticalFact) -> (r: String)
    ensures
        r@ == hyp_text(hyp_view(*h)),
{
    let mut s = owned(h.entity.as_str());
    push_str(&mut s, " ");
    push_str(&mut s, h.attribute.as_str());
    push_str(&mut s, " ");
    push_str(&mut s, h.value.as_str());
    s
}

/// The simulation of all the hypotheticals over the facts at time `now`.
pub open spec fn counterfactual_of(facts: Seq<FactSummary>, hyps: Seq<HypotheticalFact>, now: UtcTime) -> CfState {
    cf_apply(facts.map_values(|f: FactSummary| fact_view(f)), hyps.map_values(|h: HypotheticalFact| hyp_view(h)), hyps.len(), now)
}

/// `r` is the outcome of the simulation: its facts in descending relevance,
/// and the record of replacements, injections and new hypotheticals.
pub open spec fn is_counterfactual(
    facts: Seq<FactSummary>,
    hyps: Seq<HypotheticalFact>,
    now: UtcTime,
    r: (Vec<FactSummary>, CounterfactualDiff),
) -> bool {
    let fin = counterfactual_of(facts, hyps, now);
    &&& r.0@.map_values(|f: FactSummary| fact_view(f)) == sorted_views(fin.facts)
    &&& r.1.overridden_facts@.map_values(|o: OverriddenFact| override_view(o)) == fin.overridden
    &&& r.1.injected_count == fin.injected
    &&& r.1.novel_hypotheticals@.map_values(|h: HypotheticalFact| hyp_view(h)) == fin.novel
}

proof fn lemma_override_pass_len(cur: Seq<FactView>, inputs: Seq<FactView>, h: HypView, idx: nat)
    ensures
        override_pass(cur, inputs, h, idx).0.len() == cur.len(),
        override_pass(cur, inputs, h, idx).1.len() <= cur.len(),
    decreases cur.len(),
{
    if cur.len() > 0 {
        lemma_override_pass_len(cur.drop_last(), inputs, h, idx);
    }
}

proof fn lemma_override_pass_none(cur: Seq<FactView>, inputs: Seq<FactView>, h: HypView, idx: nat)
    requires
        override_pass(cur, inputs, h, idx).1.len() == 0,
    ensures
        override_pass(cur, inputs, h, idx).0 == cur,
    decreases cur.len(),
{
    if cur.len() > 0 {
        lemma_override_pass_len(cur.drop_last(), inputs, h, idx);
        lemma_override_pass_none(cur.drop_last(), inputs, h, idx);
        assert(cur.drop_last().push(cur.last()) =~= cur);
    } else {
        assert(cur =~= Seq::<FactView>::empty());
    }
}

proof fn lemma_cf_apply_bounds(facts: Seq<FactView>, hyps: Seq<HypView>, n: nat, now: UtcTime)
    ensures
        facts.len() <= cf_apply(facts, hyps, n, now).facts.len() <= facts.len() + n,
    decreases n,
{
    if n > 0 {
        lemma_cf_apply_bounds(facts, hyps, (n - 1) as nat, now);
        let s = cf_apply(facts, hyps, (n - 1) as nat, now);
        lemma_override_pass_len(s.facts.take(facts.len() as int), facts, hyps[n - 1], (n - 1) as nat);
    }
}

/// How many facts the first `n` hypotheticals inject: for each, the number
/// of input facts it matches, or one when it matches none.
pub open spec fn injections(facts: Seq<FactView>, hyps: Seq<HypView>, n: nat) -> nat
    decreases n,
{
    if n == 0 {
        0
    } else {
        let m = override_pass(facts, facts, hyps[n - 1], (n - 1) as nat).1.len();
        injections(facts, hyps, (n - 1) as nat) + if m > 0 { m } else { 1 }
    }
}

/// Each hypothetical injects at most one fact per input fact, and at least
/// one: so `n` of them inject between `n` and `n` times one more than the
/// number of input facts.
pub proof fn lemma_injections_bound(facts: Seq<FactView>, hyps: Seq<HypView>, n: nat)
    ensures
        n <= injections(facts, hyps, n) <= n * (facts.len() + 1),
    decreases n,
{
    if n > 0 {
        lemma_injections_bound(facts, hyps, (n - 1) as nat);
        lemma_override_pass_len(facts, facts, hyps[n - 1], (n - 1) as nat);
        assert((n - 1) * (facts.len() + 1) + facts.len() + 1 == n * (facts.len() + 1)) by (nonlinear_arith);
    }
}

/// Which input facts a hypothetical replaces depends only on how many
/// positions are scanned.
proof fn lemma_override_records_by_len(c1: Seq<FactView>, c2: Seq<FactView>, inputs: Seq<FactView>, h: HypView, idx: nat)
    requires
        c1.len() == c2.len(),
    ensures
        override_pass(c1, inputs, h, idx).1 == override_pass(c2, inputs, h, idx).1,
    decreases c1.len(),
{
    if c1.len() > 0 {
        lemma_override_records_by_len(c1.drop_last(), c2.drop_last(), inputs, h, idx);
    }
}

/// The simulation injects exactly `injections` facts, and that count only
/// grows with more hypotheticals.
proof fn lemma_injected_count(facts: Seq<FactView>, hyps: Seq<HypView>, n: nat, m: nat, now: UtcTime)
    requires
        n <= m,
    ensures
        cf_apply(facts, hyps, n, now).injected == injections(facts, hyps, n),
        injections(facts, hyps, n) <= injections(facts, hyps, m),
    decreases m,
{
    if m > n {
        lemma_injected_count(facts, hyps, n, (m - 1) as nat, now);
    } else if n > 0 {
        lemma_injected_count(facts, hyps, (n - 1) as nat, (n - 1) as nat, now);
        lemma_cf_apply_bounds(facts, hyps, (n - 1) as nat, now);
        let s = cf_apply(facts, hyps, (n - 1) as nat, now);
        lemma_override_records_by_len(s.facts.take(facts.len() as int), facts, facts, hyps[n - 1], (n - 1) as nat);
    }
}

/// The hypotheticals applied to the facts at time `now`, in request order:
/// each replaces the text, relevance and validity of every input fact whose
/// entity and label match it ignoring case, or, matching no input fact,
/// joins the facts as a new fact made at `now` (facts added for earlier
/// hypotheticals are not scanned).  The facts come back in descending
/// relevance, ties in their order, with the record of what changed.
#[verifier::spinoff_prover]
#[verifier::rlimit(40)]
pub fn apply_hypotheticals_at(
    facts: Vec<FactSummary>,
    hypotheticals: &[HypotheticalFact],
    now: UtcTime,
) -> (r: (Vec<FactSummary>, CounterfactualDiff))
    requires
        injections(
            facts@.map_values(|f: FactSummary| fact_view(f)),
            hypotheticals@.map_values(|h: HypotheticalFact| hyp_view(h)),
            hypotheticals@.len(),
        ) <= usize::MAX,
    ensures
        is_counterfactual(facts@, hypotheticals@, now, r),
        forall|i: int| 0 <= i < r.1.overridden_facts@.len() ==> replaces_same_entity(#[trigger] r.1.overridden_facts@[i]),
{
    let ghost fv0 = facts@.map_values(|f: FactSummary| fact_view(f));
    let ghost hv = hypotheticals@.map_values(|h: HypotheticalFact| hyp_view(h));
    let mut inputs: Vec<FactSummary> = Vec::new();
    let mut c: usize = 0;
    while c < facts.len()
        invariant
            c <= facts.len(),
            inputs@ =~= facts@.take(c as int),
        decreases facts.len() - c,
    {
        inputs.push(copy_fact(&facts[c]));
        proof {
            assert(facts@.take(c + 1) =~= facts@.take(c as int).push(facts@[c as int]));
        }
        c = c + 1;
    }
    proof {
        assert(facts@.take(facts@.len() as int) =~= facts@);
    }
    let n_inputs = inputs.len();
    let mut facts = facts;
    let mut overridden_facts: Vec<OverriddenFact> = Vec::new();
    let mut novel: Vec<HypotheticalFact> = Vec::new();
    let mut injected: usize = 0;
    let mut i: usize = 0;
    proof {
        assert(overridden_facts@.map_values(|o: OverriddenFact| override_view(o)) =~= Seq::<OverrideView>::empty());
        assert(novel@.map_values(|h: HypotheticalFact| hyp_view(h)) =~= Seq::<HypView>::empty());
    }
    while i < hypotheticals.len()
        invariant
            injections(fv0, hv, hv.len()) <= usize::MAX,
            hv == hypotheticals@.map_values(|h: HypotheticalFact| hyp_view(h)),
            inputs@.map_values(|f: FactSummary| fact_view(f)) == fv0,
            n_inputs == inputs@.len(),
            i <= hypotheticals.len(),
            ({
                let st = cf_apply(fv0, hv, i as nat, now);
                &&& facts@.map_values(|f: FactSummary| fact_view(f)) == st.facts
                &&& overridden_facts@.map_values(|o: OverriddenFact| override_view(o)) == st.overridden
                &&& injected == st.injected
                &&& novel@.map_values(|h: HypotheticalFact| hyp_view(h)) == st.novel
            }),
        decreases hypotheticals.len() - i,
    {
        let h = &hypotheticals[i];
        let ghost hw = hv[i as int];
        let ghost st = cf_apply(fv0, hv, i as nat, now);
        let ghost fs = st.facts;
        let ghost ov0 = st.overridden;
        let ghost nr = fv0.len() as int;
        proof {
            lemma_cf_apply_bounds(fv0, hv, (i + 1) as nat, now);
            lemma_cf_apply_bounds(fv0, hv, i as nat, now);
            lemma_injected_count(fv0, hv, (i + 1) as nat, hv.len(), now);
            assert(hw == hyp_view(*h));
        }
        let entity_lower = to_lowercase(h.entity.as_str());
        let attr_lower = to_lowercase(h.attribute.as_str());
        let mut k: usize = 0;
        let mut matched: usize = 0;
        proof {
            assert(fs.take(0) =~= Seq::<FactView>::empty());
            assert(fs.skip(0) =~= fs);
            assert(override_pass(fs.take(0), fv0, hw, i as nat).0 + fs.skip(0) =~= fs);
            assert(ov0 + override_pass(fs.take(0), fv0, hw, i as nat).1 =~= ov0);
        }
        while k < n_inputs
            invariant
                fs.len() == facts@.len(),
                fs.len() >= nr,
                nr == n_inputs,
                inputs@.map_values(|f: FactSummary| fact_view(f)) == fv0,
                n_inputs == inputs@.len(),
                k <= n_inputs,
                hw == hyp_view(*h),
                entity_lower@ == unicode_lowercase(h.entity@),
                attr_lower@ == unicode_lowercase(h.attribute@),
                facts@.map_values(|f: FactSummary| fact_view(f)) == override_pass(fs.take(k as int), fv0, hw, i as nat).0 + fs.skip(k as int),
                overridden_facts@.map_values(|o: OverriddenFact| override_view(o)) == ov0 + override_pass(fs.take(k as int), fv0, hw, i as nat).1,
                matched as nat == override_pass(fs.take(k as int), fv0, hw, i as nat).1.len(),
                matched <= k,
            decreases n_inputs - k,
        {
            let ghost pre = override_pass(fs.take(k as int), fv0, hw, i as nat);
            proof {
                lemma_override_pass_len(fs.take(k as int), fv0, hw, i as nat);
                assert(fs.take(k + 1).drop_last() =~= fs.take(k as int));
                assert(fs.take(k + 1).last() == fs[k as int]);
                assert(facts@.map_values(|f: FactSummary| fact_view(f))[k as int] == fs[k as int]);
                assert(inputs@.map_values(|f: FactSummary| fact_view(f))[k as int] == fv0[k as int]);
            }
            let src_lower = to_lowercase(inputs[k].source_entity.as_str());
            let label_lower = to_lowercase(inputs[k].label.as_str());
            if same_text(src_lower.as_str(), entity_lower.as_str()) && same_text(label_lower.as_str(), attr_lower.as_str()) {
                let original = copy_fact(&inputs[k]);
                let ghost ob = overridden_facts@;
                overridden_facts.push(OverriddenFact { original, replaced_by_index: i, hypothetical: copy_hyp(h) });
                let mut nf = copy_fact(&inputs[k]);
                nf.fact = hyp_text_exec(h);
                nf.relevance = h.confidence;
                nf.invalid_at = None;
                let ghost fb = facts@;
                facts.set(k, nf);
                matched = matched + 1;
                proof {
                    assert(overridden_facts@.map_values(|o: OverriddenFact| override_view(o)) =~= ob.map_values(|o: OverriddenFact| override_view(o)).push(
                        OverrideView { original: fv0[k as int], index: i as nat, hypothetical: hw }));
                    assert(fact_view(nf) == overridden(fv0[k as int], hw));
                    assert(facts@.map_values(|f: FactSummary| fact_view(f)) =~= fb.map_values(|f: FactSummary| fact_view(f)).update(k as int, fact_view(nf)));
                    assert(override_pass(fs.take(k + 1), fv0, hw, i as nat).0 + fs.skip(k + 1) =~= (pre.0 + fs.skip(k as int)).update(k as int, overridden(fv0[k as int], hw)));
                    assert(ov0 + override_pass(fs.take(k + 1), fv0, hw, i as nat).1 =~= (ov0 + pre.1).push(OverrideView { original: fv0[k as int], index: i as nat, hypothetical: hw }));
                }
            } else {
                proof {
                    assert(override_pass(fs.take(k + 1), fv0, hw, i as nat).0 + fs.skip(k + 1) =~= pre.0 + fs.skip(k as int));
                }
            }
            k = k + 1;
        }
        proof {
            lemma_override_pass_len(fs.take(nr), fv0, hw, i as nat);
        }
        if matched > 0 {
            injected = injected + matched;
        } else {
            let ghost nb = novel@;
            novel.push(copy_hyp(h));
            let synth = FactSummary {
                id: 0xCF00_0000u128 + i as u128,
                source_entity: h.entity.clone(),
                target_entity: h.value.clone(),
                label: h.attribute.clone(),
                fact: hyp_text_exec(h),
                classification: Classification::Internal,
                valid_at: now,
                invalid_at: None,
                relevance: h.confidence,
                access_count: 0,
                last_accessed_at: None,
                temporal_scope: None,
            };
            let ghost fb = facts@;
            facts.push(synth);
            injected = injected + 1;
            proof {
                assert(novel@.map_values(|h: HypotheticalFact| hyp_view(h)) =~= nb.map_values(|h: HypotheticalFact| hyp_view(h)).push(hw));
                assert(facts@.map_values(|f: FactSummary| fact_view(f)) =~= fb.map_values(|f: FactSummary| fact_view(f)).push(synthetic(hw, i as nat, now)));
                lemma_override_pass_none(fs.take(nr), fv0, hw, i as nat);
                assert(override_pass(fs.take(nr), fv0, hw, i as nat).1 =~= Seq::<OverrideView>::empty());
                assert(ov0 + Seq::<OverrideView>::empty() =~= ov0);
                assert(fs.take(nr) + fs.skip(nr) =~= fs);
                assert(fb.map_values(|f: FactSummary| fact_view(f)) == fs);
            }
        }
        i = i + 1;
    }
    // Descending relevance, ties in order.
    let ghost fin = facts@.map_values(|f: FactSummary| fact_view(f));
    let order = order_by_relevance(&facts);
    let mut out: Vec<FactSummary> = Vec::new();
    let mut j: usize = 0;
    proof {
        assert(relevance_keys(facts@) =~= fin.map_values(|f: FactView| f.relevance));
    }
    let ghost ord = order@.map_values(|i: usize| i as int);
    while j < order.len()
        invariant
            ord == order@.map_values(|i: usize| i as int),
            fin == facts@.map_values(|f: FactSummary| fact_view(f)),
            forall|p: int| 0 <= p < order@.len() ==> #[trigger] order@[p] < facts@.len(),
            j <= order.len(),
            out@.map_values(|f: FactSummary| fact_view(f)) =~= ord.take(j as int).map_values(|i: int| fin[i]),
        decreases order.len() - j,
    {
        proof {
            assert(order@[j as int] < facts@.len());
        }
        let f = copy_fact(&facts[order[j]]);
        let ghost ob = out@;
        out.push(f);
        proof {
            assert(out@.map_values(|f: FactSummary| fact_view(f)) =~= ob.map_values(|f: FactSummary| fact_view(f)).push(fact_view(f)));
            assert(ord.take(j + 1) =~= ord.take(j as int).push(ord[j as int]));
        }
        j = j + 1;
    }
    proof {
        assert(ord.take(order@.len() as int) =~= ord);
    }
    proof {
        lemma_overrides_match_entity_and_attribute(fv0, hv, hv.len(), now);
        let ov = overridden_facts@.map_values(|o: OverriddenFact| override_view(o));
        assert forall|i: int| 0 <= i < overridden_facts@.len() implies replaces_same_entity(#[trigger] overridden_facts@[i]) by {
            assert(ov[i] == override_view(overridden_facts@[i]));
            assert(ov[i] == cf_apply(fv0, hv, hv.len(), now).overridden[i]);
        }
    }
    (out, CounterfactualDiff { overridden_facts, injected_count: injected, novel_hypotheticals: novel })
}

/// `apply_hypotheticals_at` at the current time.
pub fn apply_hypotheticals(facts: Vec<FactSummary>, hypotheticals: &[HypotheticalFact]) -> (r: (Vec<FactSummary>, CounterfactualDiff))
    requires
        injections(
            facts@.map_values(|f: FactSummary| fact_view(f)),
            hypotheticals@.map_values(|h: HypotheticalFact| hyp_view(h)),
            hypotheticals@.len(),
        ) <= usize::MAX,
    ensures
        exists|now: UtcTime| #[trigger] is_counterfactual(facts@, hypotheticals@, now, r),
        forall|i: int| 0 <= i < r.1.overridden_facts@.len() ==> replaces_same_entity(#[trigger] r.1.overridden_facts@[i]),
{
    let now = crate::time::now();
    apply_hypotheticals_at(facts, hypotheticals, now)
}

/// The context of the facts, one `- fact` line each, joined by newlines.
pub open spec fn fact_lines_text(facts: Seq<FactSummary>) -> Seq<char>
    decreases facts.len(),
{
    if facts.len() == 0 {
        Seq::empty()
    } else if facts.len() == 1 {
        "- "@ + facts[0].fact@
    } else {
        fact_lines_text(facts.drop_last()) + "\n- "@ + facts.last().fact@
    }
}

/// The context string of modified facts: `- fact` per fact, joined by
/// newlines.
pub fn rebuild_context_string(facts: &[FactSummary]) -> (r: String)
    ensures
        r@ == fact_lines_text(facts@),
{
    let mut s = String::new();
    let mut i: usize = 0;
    while i < facts.len()
        invariant
            i <= facts.len(),
            s@ == fact_lines_text(facts@.take(i as int)),
        decreases facts.len() - i,
    {
        if i > 0 {
            push_str(&mut s, "\n- ");
        } else {
            push_str(&mut s, "- ");
        }
        push_str(&mut s, facts[i].fact.as_str());
        proof {
            assert(facts@.take(i + 1).drop_last() =~= facts@.take(i as int));
            if i == 0 {
                assert(s@ =~= "- "@ + facts@[0].fact@);
            } else {
                assert(s@ =~= fact_lines_text(facts@.take(i as int)) + "\n- "@ + facts@[i as int].fact@);
            }
        }
        i = i + 1;
    }
    proof {
        assert(facts@.take(facts@.len() as int) =~= facts@);
    }
    s
}

/// Every hypothetical is injected once per fact it replaces, or once as a
/// new fact; the simulation ends with the input facts plus one new fact per
/// unmatched hypothetical.
pub proof fn lemma_injections_accounted(facts: Seq<FactView>, hyps: Seq<HypView>, n: nat, now: UtcTime)
    ensures
        cf_apply(facts, hyps, n, now).injected == cf_apply(facts, hyps, n, now).overridden.len() + cf_apply(facts, hyps, n, now).novel.len(),
        cf_apply(facts, hyps, n, now).facts.len() == facts.len() + cf_apply(facts, hyps, n, now).novel.len(),
    decreases n,
{
    if n > 0 {
        lemma_injections_accounted(facts, hyps, (n - 1) as nat, now);
        lemma_cf_apply_bounds(facts, hyps, (n - 1) as nat, now);
        let s = cf_apply(facts, hyps, (n - 1) as nat, now);
        lemma_override_pass_len(s.facts.take(facts.len() as int), facts, hyps[n - 1], (n - 1) as nat);
    }
}

proof fn lemma_pass_matches(cur: Seq<FactView>, inputs: Seq<FactView>, h: HypView, idx: nat)
    requires
        cur.len() <= inputs.len(),
    ensures
        (override_pass(cur, inputs, h, idx).1.len() == 0) <==> (forall|i: int| 0 <= i < cur.len() ==> !hyp_matches(#[trigger] inputs[i], h)),
    decreases cur.len(),
{
    if cur.len() > 0 {
        lemma_pass_matches(cur.drop_last(), inputs, h, idx);
    }
}

/// A hypothetical is new exactly when no input fact has its entity and
/// attribute (ignoring case): it then ends up as a fact of its own, with its
/// text and confidence; otherwise it is not recorded as new.
pub proof fn lemma_novel_hypothetical_injected(facts: Seq<FactView>, hyps: Seq<HypView>, n: nat, now: UtcTime)
    requires
        n < hyps.len(),
    ensures
        ({
            let s = cf_apply(facts, hyps, n, now);
            let t = cf_apply(facts, hyps, n + 1, now);
            &&& (t.novel == s.novel.push(hyps[n as int])) <==> (forall|i: int| 0 <= i < facts.len() ==> !hyp_matches(#[trigger] facts[i], hyps[n as int]))
            &&& (forall|i: int| 0 <= i < facts.len() ==> !hyp_matches(#[trigger] facts[i], hyps[n as int]))
                ==> t.facts == s.facts.push(synthetic(hyps[n as int], n, now))
        }),
{
    let s = cf_apply(facts, hyps, n, now);
    lemma_cf_apply_bounds(facts, hyps, n, now);
    let cur = s.facts.take(facts.len() as int);
    lemma_pass_matches(cur, facts, hyps[n as int], n);
    let t = cf_apply(facts, hyps, n + 1, now);
    assert(t == cf_step(s, facts, hyps[n as int], n, now));
    if t.novel == s.novel.push(hyps[n as int]) {
        if override_pass(cur, facts, hyps[n as int], n).1.len() > 0 {
            assert(t.novel.len() == s.novel.len());
        }
    }
}

proof fn lemma_pass_originals(cur: Seq<FactView>, inputs: Seq<FactView>, h: HypView, idx: nat)
    requires
        cur.len() <= inputs.len(),
    ensures
        forall|j: int| 0 <= j < override_pass(cur, inputs, h, idx).1.len() ==>
            exists|i: int| 0 <= i < cur.len() && (#[trigger] override_pass(cur, inputs, h, idx).1[j]).original == inputs[i],
    decreases cur.len(),
{
    if cur.len() > 0 {
        lemma_pass_originals(cur.drop_last(), inputs, h, idx);
        let r = override_pass(cur.drop_last(), inputs, h, idx);
        let p = override_pass(cur, inputs, h, idx);
        assert forall|j: int| 0 <= j < p.1.len() implies
            exists|i: int| 0 <= i < cur.len() && (#[trigger] p.1[j]).original == inputs[i] by {
            if j < r.1.len() {
                assert(p.1[j] == r.1[j]);
                let i = choose|i: int| 0 <= i < cur.drop_last().len() && r.1[j].original == inputs[i];
                assert(p.1[j].original == inputs[i]);
            } else {
                assert(p.1[j].original == inputs[cur.len() - 1]);
            }
        }
    }
}

/// Every replaced fact that the simulation records is one of the input
/// facts.
pub proof fn lemma_override_originals_are_inputs(facts: Seq<FactView>, hyps: Seq<HypView>, n: nat, now: UtcTime)
    ensures
        forall|j: int| 0 <= j < cf_apply(facts, hyps, n, now).overridden.len() ==>
            exists|i: int| 0 <= i < facts.len() && (#[trigger] cf_apply(facts, hyps, n, now).overridden[j]).original == facts[i],
    decreases n,
{
    if n > 0 {
        lemma_override_originals_are_inputs(facts, hyps, (n - 1) as nat, now);
        lemma_cf_apply_bounds(facts, hyps, (n - 1) as nat, now);
        let s = cf_apply(facts, hyps, (n - 1) as nat, now);
        let cur = s.facts.take(facts.len() as int);
        lemma_pass_originals(cur, facts, hyps[n - 1], (n - 1) as nat);
        let p = override_pass(cur, facts, hyps[n - 1], (n - 1) as nat);
        let t = cf_apply(facts, hyps, n, now);
        if p.1.len() > 0 {
            assert forall|j: int| 0 <= j < t.overridden.len() implies
                exists|i: int| 0 <= i < facts.len() && (#[trigger] t.overridden[j]).original == facts[i] by {
                if j < s.overridden.len() {
                    assert(t.overridden[j] == s.overridden[j]);
                } else {
                    assert(t.overridden[j] == p.1[j - s.overridden.len()]);
                }
            }
        }
    }
}

/// A hypothetical replaces every input fact it matches: each such position
/// takes its text and confidence, and every other position is kept.
pub proof fn lemma_override_replaces(cur: Seq<FactView>, inputs: Seq<FactView>, h: HypView, idx: nat, i: int)
    requires
        0 <= i < cur.len() <= inputs.len(),
    ensures
        override_pass(cur, inputs, h, idx).0[i] == (if hyp_matches(inputs[i], h) { overridden(inputs[i], h) } else { cur[i] }),
    decreases cur.len(),
{
    lemma_override_pass_len(cur.drop_last(), inputs, h, idx);
    if i < cur.len() - 1 {
        lemma_override_replaces(cur.drop_last(), inputs, h, idx, i);
    }
}

proof fn lemma_pass_records_match(cur: Seq<FactView>, inputs: Seq<FactView>, h: HypView, idx: nat)
    requires
        cur.len() <= inputs.len(),
    ensures
        forall|j: int| 0 <= j < override_pass(cur, inputs, h, idx).1.len() ==> {
            let o = #[trigger] override_pass(cur, inputs, h, idx).1[j];
            &&& unicode_lowercase(o.original.source_entity) == unicode_lowercase(o.hypothetical.entity)
            &&& unicode_lowercase(o.original.label) == unicode_lowercase(o.hypothetical.attribute)
            &&& o.hypothetical == h
        },
    decreases cur.len(),
{
    if cur.len() > 0 {
        lemma_pass_records_match(cur.drop_last(), inputs, h, idx);
        let r = override_pass(cur.drop_last(), inputs, h, idx);
        let p = override_pass(cur, inputs, h, idx);
        assert forall|j: int| 0 <= j < p.1.len() implies {
            let o = #[trigger] p.1[j];
            &&& unicode_lowercase(o.original.source_entity) == unicode_lowercase(o.hypothetical.entity)
            &&& unicode_lowercase(o.original.label) == unicode_lowercase(o.hypothetical.attribute)
            &&& o.hypothetical == h
        } by {
            if j < r.1.len() {
                assert(p.1[j] == r.1[j]);
            }
        }
    }
}

proof fn lemma_pass_keeps_other_entities(cur: Seq<FactView>, inputs: Seq<FactView>, h: HypView, idx: nat, k: int)
    requires
        0 <= k < cur.len(),
        cur.len() <= inputs.len(),
        unicode_lowercase(inputs[k].source_entity) != unicode_lowercase(h.entity),
    ensures
        override_pass(cur, inputs, h, idx).0[k] == cur[k],
    decreases cur.len(),
{
    lemma_override_pass_len(cur.drop_last(), inputs, h, idx);
    if k < cur.len() - 1 {
        lemma_pass_keeps_other_entities(cur.drop_last(), inputs, h, idx, k);
    }
}

/// Every replacement the simulation records is of a fact whose source entity
/// and label are the hypothetical's entity and attribute, ignoring case.
pub proof fn lemma_overrides_match_entity_and_attribute(facts: Seq<FactView>, hyps: Seq<HypView>, n: nat, now: UtcTime)
    ensures
        forall|j: int| 0 <= j < cf_apply(facts, hyps, n, now).overridden.len() ==> {
            let o = #[trigger] cf_apply(facts, hyps, n, now).overridden[j];
            &&& unicode_lowercase(o.original.source_entity) == unicode_lowercase(o.hypothetical.entity)
            &&& unicode_lowercase(o.original.label) == unicode_lowercase(o.hypothetical.attribute)
        },
    decreases n,
{
    if n > 0 {
        lemma_overrides_match_entity_and_attribute(facts, hyps, (n - 1) as nat, now);
        lemma_cf_apply_bounds(facts, hyps, (n - 1) as nat, now);
        let s = cf_apply(facts, hyps, (n - 1) as nat, now);
        let cur = s.facts.take(facts.len() as int);
        lemma_pass_records_match(cur, facts, hyps[n - 1], (n - 1) as nat);
        let p = override_pass(cur, facts, hyps[n - 1], (n - 1) as nat);
        let t = cf_apply(facts, hyps, n, now);
        assert forall|j: int| 0 <= j < t.overridden.len() implies {
            let o = #[trigger] t.overridden[j];
            &&& unicode_lowercase(o.original.source_entity) == unicode_lowercase(o.hypothetical.entity)
            &&& unicode_lowercase(o.original.label) == unicode_lowercase(o.hypothetical.attribute)
        } by {
            if j < s.overridden.len() {
                assert(t.overridden[j] == s.overridden[j]);
            } else {
                assert(t.overridden[j] == p.1[j - s.overridden.len()]);
            }
        }
    }
}

/// An input fact whose source entity is, ignoring case, the entity of none
/// of the hypotheticals comes out of the simulation unchanged.
pub proof fn lemma_other_entities_untouched(facts: Seq<FactView>, hyps: Seq<HypView>, n: nat, now: UtcTime, k: int)
    requires
        0 <= k < facts.len(),
        forall|i: int| 0 <= i < n ==> unicode_lowercase(facts[k].source_entity) != unicode_lowercase(#[trigger] hyps[i].entity),
    ensures
        cf_apply(facts, hyps, n, now).facts[k] == facts[k],
    decreases n,
{
    if n > 0 {
        lemma_other_entities_untouched(facts, hyps, (n - 1) as nat, now, k);
        lemma_cf_apply_bounds(facts, hyps, (n - 1) as nat, now);
        let s = cf_apply(facts, hyps, (n - 1) as nat, now);
        let cur = s.facts.take(facts.len() as int);
        assert(unicode_lowercase(facts[k].source_entity) != unicode_lowercase(hyps[n - 1].entity));
        lemma_pass_keeps_other_entities(cur, facts, hyps[n - 1], (n - 1) as nat, k);
        lemma_override_pass_len(cur, facts, hyps[n - 1], (n - 1) as nat);
        let p = override_pass(cur, facts, hyps[n - 1], (n - 1) as nat);
        assert(cur[k] == s.facts[k]);
        if p.1.len() > 0 {
            assert((p.0 + s.facts.skip(facts.len() as int))[k] == p.0[k]);
        }
    }
}

} // verus!
