//! Memory guardrails: a rule engine whose conditions form a tree of
//! predicates over what is being written or read, and whose actions block,
//! redact, reclassify, audit or warn.  Rules run in priority order and the
//! first matching block stops the evaluation.

use vstd::prelude::*;
use vstd::utf8::encode_utf8;
use crate::models::api_key::{ApiKeyRole, role_rank};
use crate::models::classification::{Classification, classification_rank};
use crate::text::{
    ascii_lower, ascii_lower_exec, byte_len, chars_of, eq_ignore_ascii_case, is_ascii_alnum,
    is_ascii_alnum_exec, lemma_encode_utf8_len, lemma_utf8_len_ge, owned, push_str,
};
use crate::time::UtcTime;

verus! {

/// What `regex::Regex::new` reports for a pattern: `None` when it compiles,
/// else the text of the error.
pub uninterp spec fn regex_new_error(pattern: Seq<char>) -> Option<Seq<char>>;

/// What `Regex::is_match` of the compiled pattern returns for a text.
pub uninterp spec fn regex_is_match(pattern: Seq<char>, text: Seq<char>) -> bool;

/// `regex::Regex::new(pattern)`, reduced to its error text: `None` when the
/// pattern compiles, else `Some` of the error's `Display` text.
#[verifier::external_body]
pub(crate) fn regex_compile_error(pattern: &str) -> (r: Option<String>)
    ensures
        match r {
            None => regex_new_error(pattern@) is None,
            Some(m) => regex_new_error(pattern@) == Some(m@),
        },
{
    match regex::Regex::new(pattern) {
        Ok(_) => None,
        Err(e) => Some(e.to_string()),
    }
}

/// `regex::Regex::new(pattern)` then `is_match(text)`; `false` when the
/// pattern does not compile.
#[verifier::external_body]
fn regex_matches(pattern: &str, text: &str) -> (r: bool)
    ensures
        r == (regex_new_error(pattern@) is None && regex_is_match(pattern@, text@)),
{
    regex::Regex::new(pattern).map(|re| re.is_match(text)).unwrap_or(false)
}

/// `str::eq_ignore_ascii_case`.
pub fn eq_ignore_ascii_case_exec(a: &str, b: &str) -> (r: bool)
    ensures
        r == eq_ignore_ascii_case(a@, b@),
{
    let v = chars_of(a);
    let w = chars_of(b);
    if v.len() != w.len() {
        return false;
    }
    let mut i: usize = 0;
    while i < v.len()
        invariant
            v@ == a@,
            w@ == b@,
            v.len() == w.len(),
            i <= v.len(),
            forall|j: int| 0 <= j < i ==> ascii_lower(v@[j]) == ascii_lower(w@[j]),
        decreases v.len() - i,
    {
        if ascii_lower_exec(v[i]) != ascii_lower_exec(w[i]) {
            return false;
        }
        i = i + 1;
    }
    true
}

/// When a guardrail rule fires.
#[derive(Clone, Copy, PartialEq, Eq, Debug, Structural)]
pub enum GuardrailTrigger {
    /// When episodes are ingested.
    OnIngest,
    /// When edges are created from extraction.
    OnFactCreation,
    /// During context assembly.
    OnRetrieval,
    /// When entities are created.
    OnEntityCreation,
    /// All of the above.
    OnAny,
}

impl GuardrailTrigger {
    /// `self` fires for the given operation: it is `OnAny` or that very
    /// operation.
    pub fn matches(&self, operation: &GuardrailTrigger) -> (r: bool)
        ensures
            r == (*self == GuardrailTrigger::OnAny || *self == *operation),
    {
        *self == GuardrailTrigger::OnAny || *self == *operation
    }
}

/// What a guardrail rule checks.  Confidence thresholds are order keys: a
/// `u32` for each score such that keys compare as the scores do.
#[derive(Debug)]
pub enum GuardrailCondition {
    /// Classification strictly above the threshold.
    ClassificationAbove { classification: Classification },
    /// Entity type in the list, ignoring ASCII case.
    EntityTypeIn { entity_types: Vec<String> },
    /// Edge label in the list, ignoring ASCII case.
    EdgeLabelIn { labels: Vec<String> },
    /// Content matches a regular expression.
    ContentMatchesRegex { pattern: String },
    /// Caller role strictly below the given role.
    CallerRoleBelow { role: ApiKeyRole },
    /// Fact older than the given number of days.
    FactAgeAboveDays { days: u32 },
    /// Fact confidence below the threshold (by order key).
    ConfidenceBelow { confidence: u32 },
    /// All sub-conditions hold.
    And { conditions: Vec<GuardrailCondition> },
    /// Some sub-condition holds.
    Or { conditions: Vec<GuardrailCondition> },
    /// The sub-condition does not hold.
    Not { condition: Box<GuardrailCondition> },
}

/// What happens when a guardrail condition matches.
#[derive(Debug, PartialEq, Eq)]
pub enum GuardrailAction {
    /// Reject the operation.
    Block { reason: String },
    /// Remove the matching content from output.
    Redact,
    /// Raise the classification of the fact or entity.
    Reclassify { classification: Classification },
    /// Allow, and log to the governance audit.
    AuditOnly { severity: String },
    /// Allow, and include a warning in the response.
    Warn { message: String },
}

impl Clone for GuardrailAction {
    fn clone(&self) -> (r: GuardrailAction)
        ensures
            r == *self,
    {
        match self {
            GuardrailAction::Block { reason } => GuardrailAction::Block { reason: reason.clone() },
            GuardrailAction::Redact => GuardrailAction::Redact,
            GuardrailAction::Reclassify { classification } =>
                GuardrailAction::Reclassify { classification: *classification },
            GuardrailAction::AuditOnly { severity } => GuardrailAction::AuditOnly { severity: severity.clone() },
            GuardrailAction::Warn { message } => GuardrailAction::Warn { message: message.clone() },
        }
    }
}

/// Whether a rule applies globally or to one user.
#[derive(Clone, Copy, PartialEq, Eq, Debug, Structural)]
pub enum GuardrailScope {
    Global,
    User { user_id: u128 },
}

/// A guardrail rule.
#[derive(Debug)]
pub struct GuardrailRule {
    pub id: u128,
    pub name: String,
    pub description: String,
    pub trigger: GuardrailTrigger,
    pub condition: GuardrailCondition,
    pub action: GuardrailAction,
    /// Lower is evaluated first.
    pub priority: u32,
    /// Disabled rules are skipped.
    pub enabled: bool,
    pub scope: GuardrailScope,
    pub created_at: UtcTime,
    pub updated_at: UtcTime,
}

/// What the evaluator knows of the operation.  The confidence is an order
/// key, as in `GuardrailCondition::ConfidenceBelow`.
#[derive(Clone, Debug)]
pub struct EvalContext {
    pub classification: Option<Classification>,
    pub entity_type: Option<String>,
    pub edge_label: Option<String>,
    pub content: Option<String>,
    pub caller_role: Option<ApiKeyRole>,
    pub fact_age_days: Option<u32>,
    pub confidence: Option<u32>,
    pub user_id: Option<u128>,
}

impl Default for EvalContext {
    fn default() -> (r: EvalContext)
        ensures
            r.classification is None,
            r.entity_type is None,
            r.edge_label is None,
            r.content is None,
            r.caller_role is None,
            r.fact_age_days is None,
            r.confidence is None,
            r.user_id is None,
    {
        EvalContext {
            classification: None,
            entity_type: None,
            edge_label: None,
            content: None,
            caller_role: None,
            fact_age_days: None,
            confidence: None,
            user_id: None,
        }
    }
}

/// One of the words equals `w` ignoring ASCII case.
pub open spec fn lists_word(words: Seq<String>, w: Seq<char>) -> bool {
    exists|i: int| 0 <= i < words.len() && eq_ignore_ascii_case(#[trigger] words[i]@, w)
}

/// The condition holds in the context.
pub open spec fn condition_holds(c: GuardrailCondition, ctx: EvalContext) -> bool
    decreases c, 0nat,
{
    match c {
        GuardrailCondition::ClassificationAbove { classification } => match ctx.classification {
            Some(x) => classification_rank(x) > classification_rank(classification),
            None => false,
        },
        GuardrailCondition::EntityTypeIn { entity_types } => match ctx.entity_type {
            Some(et) => lists_word(entity_types@, et@),
            None => false,
        },
        GuardrailCondition::EdgeLabelIn { labels } => match ctx.edge_label {
            Some(el) => lists_word(labels@, el@),
            None => false,
        },
        GuardrailCondition::ContentMatchesRegex { pattern } => match ctx.content {
            Some(t) => regex_new_error(pattern@) is None && regex_is_match(pattern@, t@),
            None => false,
        },
        GuardrailCondition::CallerRoleBelow { role } => match ctx.caller_role {
            Some(cr) => role_rank(cr) < role_rank(role),
            None => false,
        },
        GuardrailCondition::FactAgeAboveDays { days } => match ctx.fact_age_days {
            Some(age) => age > days,
            None => false,
        },
        GuardrailCondition::ConfidenceBelow { confidence } => match ctx.confidence {
            Some(x) => x < confidence,
            None => false,
        },
        GuardrailCondition::And { conditions } => all_hold(conditions@, ctx, conditions@.len()),
        GuardrailCondition::Or { conditions } => any_holds(conditions@, ctx, conditions@.len()),
        GuardrailCondition::Not { condition } => !condition_holds(*condition, ctx),
    }
}

/// Each of the first `n` conditions holds.
pub open spec fn all_hold(cs: Seq<GuardrailCondition>, ctx: EvalContext, n: nat) -> bool
    decreases cs, n,
{
    if n == 0 || n > cs.len() {
        true
    } else {
        all_hold(cs, ctx, (n - 1) as nat) && condition_holds(cs[n - 1], ctx)
    }
}

/// One of the first `n` conditions holds.
pub open spec fn any_holds(cs: Seq<GuardrailCondition>, ctx: EvalContext, n: nat) -> bool
    decreases cs, n,
{
    if n == 0 || n > cs.len() {
        false
    } else {
        any_holds(cs, ctx, (n - 1) as nat) || condition_holds(cs[n - 1], ctx)
    }
}

proof fn lemma_all_hold_fails(cs: Seq<GuardrailCondition>, ctx: EvalContext, m: nat, n: nat)
    requires
        m <= n <= cs.len(),
        !all_hold(cs, ctx, m),
    ensures
        !all_hold(cs, ctx, n),
    decreases n - m,
{
    if m < n {
        lemma_all_hold_fails(cs, ctx, m, (n - 1) as nat);
    }
}

proof fn lemma_any_holds_stays(cs: Seq<GuardrailCondition>, ctx: EvalContext, m: nat, n: nat)
    requires
        m <= n <= cs.len(),
        any_holds(cs, ctx, m),
    ensures
        any_holds(cs, ctx, n),
    decreases n - m,
{
    if m < n {
        lemma_any_holds_stays(cs, ctx, m, (n - 1) as nat);
    }
}

fn lists_word_exec(words: &Vec<String>, w: &str) -> (r: bool)
    ensures
        r == lists_word(words@, w@),
{
    let mut i: usize = 0;
    while i < words.len()
        invariant
            i <= words.len(),
            forall|j: int| 0 <= j < i ==> !eq_ignore_ascii_case(#[trigger] words@[j]@, w@),
        decreases words.len() - i,
    {
        if eq_ignore_ascii_case_exec(words[i].as_str(), w) {
            return true;
        }
        i = i + 1;
    }
    false
}

impl GuardrailCondition {
    /// Evaluate this condition tree against the context.
    #[verifier::loop_isolation(false)]
    pub fn evaluate(&self, ctx: &EvalContext) -> (r: bool)
        ensures
            r == condition_holds(*self, *ctx),
        decreases self,
    {
        match self {
            GuardrailCondition::ClassificationAbove { classification } => match ctx.classification {
                Some(c) => c.rank() > classification.rank(),
                None => false,
            },
            GuardrailCondition::EntityTypeIn { entity_types } => match &ctx.entity_type {
                Some(et) => lists_word_exec(entity_types, et.as_str()),
                None => false,
            },
            GuardrailCondition::EdgeLabelIn { labels } => match &ctx.edge_label {
                Some(el) => lists_word_exec(labels, el.as_str()),
                None => false,
            },
            GuardrailCondition::ContentMatchesRegex { pattern } => match &ctx.content {
                Some(content) => regex_matches(pattern.as_str(), content.as_str()),
                None => false,
            },
            GuardrailCondition::CallerRoleBelow { role } => match ctx.caller_role {
                Some(cr) => cr.rank() < role.rank(),
                None => false,
            },
            GuardrailCondition::FactAgeAboveDays { days } => match ctx.fact_age_days {
                Some(age) => age > *days,
                None => false,
            },
            GuardrailCondition::ConfidenceBelow { confidence } => match ctx.confidence {
                Some(c) => c < *confidence,
                None => false,
            },
            GuardrailCondition::And { conditions } => {
                let mut i: usize = 0;
                while i < conditions.len()
                    invariant
                        i <= conditions.len(),
                        all_hold(conditions@, *ctx, i as nat),
                    decreases conditions.len() - i,
                {
                    proof {
                        assert(decreases_to!(*self => *conditions));
                        assert(decreases_to!(*conditions => conditions@));
                        assert(decreases_to!(conditions@ => conditions@[i as int]));
                    }
                    if !conditions[i].evaluate(ctx) {
                        proof {
                            lemma_all_hold_fails(conditions@, *ctx, (i + 1) as nat, conditions@.len());
                        }
                        return false;
                    }
                    i = i + 1;
                }
                true
            },
            GuardrailCondition::Or { conditions } => {
                let mut i: usize = 0;
                while i < conditions.len()
                    invariant
                        i <= conditions.len(),
                        !any_holds(conditions@, *ctx, i as nat),
                    decreases conditions.len() - i,
                {
                    proof {
                        assert(decreases_to!(*self => *conditions));
                        assert(decreases_to!(*conditions => conditions@));
                        assert(decreases_to!(conditions@ => conditions@[i as int]));
                    }
                    if conditions[i].evaluate(ctx) {
                        proof {
                            lemma_any_holds_stays(conditions@, *ctx, (i + 1) as nat, conditions@.len());
                        }
                        return true;
                    }
                    i = i + 1;
                }
                false
            },
            GuardrailCondition::Not { condition } => !condition.evaluate(ctx),
        }
    }
}

/// The rule takes part in an operation: it is enabled, its trigger matches
/// and its scope is global or the operation's user.
pub open spec fn rule_applies(rule: GuardrailRule, trigger: GuardrailTrigger, user_id: Option<u128>) -> bool {
    &&& rule.enabled
    &&& (rule.trigger == GuardrailTrigger::OnAny || rule.trigger == trigger)
    &&& match rule.scope {
        GuardrailScope::Global => true,
        GuardrailScope::User { user_id: u } => user_id == Some(u),
    }
}

impl GuardrailRule {
    /// The rule applies to the operation and user.
    pub fn applies_to(&self, trigger: &GuardrailTrigger, user_id: Option<u128>) -> (r: bool)
        ensures
            r == rule_applies(*self, *trigger, user_id),
    {
        if !self.enabled {
            return false;
        }
        if !self.trigger.matches(trigger) {
            return false;
        }
        match self.scope {
            GuardrailScope::Global => true,
            GuardrailScope::User { user_id: rule_user } => match user_id {
                Some(u) => u == rule_user,
                None => false,
            },
        }
    }
}

/// Result of evaluating one rule.
#[derive(Clone, Debug)]
pub struct GuardrailEvalResult {
    pub rule_id: u128,
    pub rule_name: String,
    pub matched: bool,
    pub action: GuardrailAction,
}

/// Aggregate result of evaluating the applicable rules.
#[derive(Clone, Debug)]
pub struct GuardrailVerdict {
    /// The operation is blocked.
    pub blocked: bool,
    /// Reason of the first matching block.
    pub block_reason: Option<String>,
    /// The content is to be redacted.
    pub redact: bool,
    /// Highest classification that a matching rule asks for.
    pub reclassify_to: Option<Classification>,
    pub warnings: Vec<String>,
    /// `(rule name, severity)` of each matching audit rule.
    pub audit_entries: Vec<(String, String)>,
    /// One entry per applicable rule that was evaluated.
    pub details: Vec<GuardrailEvalResult>,
}

impl Default for GuardrailVerdict {
    fn default() -> (r: GuardrailVerdict)
        ensures
            verdict_view(r) == empty_verdict(),
    {
        let r = GuardrailVerdict {
            blocked: false,
            block_reason: None,
            redact: false,
            reclassify_to: None,
            warnings: Vec::new(),
            audit_entries: Vec::new(),
            details: Vec::new(),
        };
        proof {
            assert(verdict_view(r).warnings =~= Seq::<Seq<char>>::empty());
            assert(verdict_view(r).audit_entries =~= Seq::<(Seq<char>, Seq<char>)>::empty());
            assert(verdict_view(r).details =~= Seq::<(u128, Seq<char>, bool, GuardrailAction)>::empty());
        }
        r
    }
}

/// A verdict as values: texts as character sequences, each evaluated rule
/// as its identifier, name, whether it matched, and its action.
pub struct VerdictView {
    pub blocked: bool,
    pub block_reason: Option<Seq<char>>,
    pub redact: bool,
    pub reclassify_to: Option<Classification>,
    pub warnings: Seq<Seq<char>>,
    pub audit_entries: Seq<(Seq<char>, Seq<char>)>,
    pub details: Seq<(u128, Seq<char>, bool, GuardrailAction)>,
}

pub open spec fn empty_verdict() -> VerdictView {
    VerdictView {
        blocked: false,
        block_reason: None,
        redact: false,
        reclassify_to: None,
        warnings: Seq::empty(),
        audit_entries: Seq::empty(),
        details: Seq::empty(),
    }
}

pub open spec fn verdict_view(v: GuardrailVerdict) -> VerdictView {
    VerdictView {
        blocked: v.blocked,
        block_reason: match v.block_reason {
            Some(s) => Some(s@),
            None => None,
        },
        redact: v.redact,
        reclassify_to: v.reclassify_to,
        warnings: v.warnings@.map_values(|s: String| s@),
        audit_entries: v.audit_entries@.map_values(|e: (String, String)| (e.0@, e.1@)),
        details: v.details@.map_values(|d: GuardrailEvalResult| (d.rule_id, d.rule_name@, d.matched, d.action)),
    }
}

/// The higher of a current reclassification and a new one.
pub open spec fn raise_to(cur: Option<Classification>, c: Classification) -> Option<Classification> {
    match cur {
        None => Some(c),
        Some(e) => if classification_rank(c) > classification_rank(e) { Some(c) } else { Some(e) },
    }
}

/// The verdict after one more rule.
pub open spec fn verdict_step(v: VerdictView, rule: GuardrailRule, trigger: GuardrailTrigger, ctx: EvalContext) -> VerdictView {
    if !rule_applies(rule, trigger, ctx.user_id) {
        v
    } else {
        let matched = condition_holds(rule.condition, ctx);
        let v1 = VerdictView { details: v.details.push((rule.id, rule.name@, matched, rule.action)), ..v };
        if !matched {
            v1
        } else {
            match rule.action {
                GuardrailAction::Block { reason } => VerdictView { blocked: true, block_reason: Some(reason@), ..v1 },
                GuardrailAction::Redact => VerdictView { redact: true, ..v1 },
                GuardrailAction::Reclassify { classification } =>
                    VerdictView { reclassify_to: raise_to(v1.reclassify_to, classification), ..v1 },
                GuardrailAction::AuditOnly { severity } =>
                    VerdictView { audit_entries: v1.audit_entries.push((rule.name@, severity@)), ..v1 },
                GuardrailAction::Warn { message } => VerdictView { warnings: v1.warnings.push(message@), ..v1 },
            }
        }
    }
}

/// The verdict after the first `n` rules, which stops changing once a block
/// matched.
pub open spec fn verdict_after(rules: Seq<GuardrailRule>, n: nat, trigger: GuardrailTrigger, ctx: EvalContext) -> VerdictView
    decreases n,
{
    if n == 0 {
        empty_verdict()
    } else {
        let v = verdict_after(rules, (n - 1) as nat, trigger, ctx);
        if v.blocked {
            v
        } else {
            verdict_step(v, rules[n - 1], trigger, ctx)
        }
    }
}

/// Once a verdict blocks, later rules leave it unchanged.
pub proof fn lemma_blocked_verdict_stays(rules: Seq<GuardrailRule>, m: nat, n: nat, trigger: GuardrailTrigger, ctx: EvalContext)
    requires
        m <= n,
        verdict_after(rules, m, trigger, ctx).blocked,
    ensures
        verdict_after(rules, n, trigger, ctx) == verdict_after(rules, m, trigger, ctx),
    decreases n - m,
{
    if m < n {
        lemma_blocked_verdict_stays(rules, m, (n - 1) as nat, trigger, ctx);
    }
}

/// Evaluate the rules, in the given order, for an operation: each
/// applicable rule is evaluated and recorded; a matching block blocks and
/// stops, a matching redact redacts, reclassifications keep the highest
/// classification, audit and warn actions are collected.
pub fn evaluate_rules(rules: &[GuardrailRule], trigger: &GuardrailTrigger, ctx: &EvalContext) -> (r: GuardrailVerdict)
    ensures
        verdict_view(r) == verdict_after(rules@, rules@.len(), *trigger, *ctx),
{
    let mut verdict = GuardrailVerdict::default();
    let mut i: usize = 0;
    while i < rules.len()
        invariant
            i <= rules.len(),
            verdict_view(verdict) == verdict_after(rules@, i as nat, *trigger, *ctx),
            !verdict.blocked,
        decreases rules.len() - i,
    {
        let rule = &rules[i];
        let ghost before = verdict_view(verdict);
        proof {
            assert(verdict_after(rules@, (i + 1) as nat, *trigger, *ctx)
                == verdict_step(before, rules@[i as int], *trigger, *ctx));
        }
        if rule.applies_to(trigger, ctx.user_id) {
            let matched = rule.condition.evaluate(ctx);
            let ghost d0 = verdict.details@;
            verdict.details.push(GuardrailEvalResult {
                rule_id: rule.id,
                rule_name: rule.name.clone(),
                matched,
                action: rule.action.clone(),
            });
            proof {
                assert(verdict.details@.map_values(|d: GuardrailEvalResult| (d.rule_id, d.rule_name@, d.matched, d.action))
                    =~= d0.map_values(|d: GuardrailEvalResult| (d.rule_id, d.rule_name@, d.matched, d.action))
                        .push((rule.id, rule.name@, matched, rule.action)));
            }
            if matched {
                match &rule.action {
                    GuardrailAction::Block { reason } => {
                        verdict.blocked = true;
                        verdict.block_reason = Some(reason.clone());
                        proof {
                            lemma_blocked_verdict_stays(rules@, (i + 1) as nat, rules@.len(), *trigger, *ctx);
                        }
                        return verdict;
                    },
                    GuardrailAction::Redact => {
                        verdict.redact = true;
                    },
                    GuardrailAction::Reclassify { classification } => {
                        match verdict.reclassify_to {
                            None => {
                                verdict.reclassify_to = Some(*classification);
                            },
                            Some(existing) => {
                                if classification.rank() > existing.rank() {
                                    verdict.reclassify_to = Some(*classification);
                                }
                            },
                        }
                    },
                    GuardrailAction::AuditOnly { severity } => {
                        let ghost a0 = verdict.audit_entries@;
                        verdict.audit_entries.push((rule.name.clone(), severity.clone()));
                        proof {
                            assert(verdict.audit_entries@.map_values(|e: (String, String)| (e.0@, e.1@))
                                =~= a0.map_values(|e: (String, String)| (e.0@, e.1@)).push((rule.name@, severity@)));
                        }
                    },
                    GuardrailAction::Warn { message } => {
                        let ghost w0 = verdict.warnings@;
                        verdict.warnings.push(message.clone());
                        proof {
                            assert(verdict.warnings@.map_values(|s: String| s@) =~= w0.map_values(|s: String| s@).push(message@));
                        }
                    },
                }
            }
        }
        i = i + 1;
    }
    verdict
}

/// An audit entry of the dry-run response.
#[derive(Clone, Debug)]
pub struct AuditEntry {
    pub rule_name: String,
    pub severity: String,
}

/// Check of a guardrail rule name: 1 to 64 bytes of ASCII letters, digits,
/// underscores and hyphens.
pub open spec fn guardrail_name_error(s: Seq<char>) -> Option<Seq<char>> {
    if s.len() == 0 || encode_utf8(s).len() > 64 {
        Some("Guardrail name must be 1-64 characters"@)
    } else if exists|i: int| 0 <= i < s.len() && !is_guardrail_name_char(#[trigger] s[i]) {
        Some("Guardrail name must contain only alphanumeric characters, underscores, and hyphens"@)
    } else {
        None
    }
}

pub open spec fn is_guardrail_name_char(c: char) -> bool {
    is_ascii_alnum(c) || c == '_' || c == '-'
}

/// Validate a guardrail rule name.
#[verifier::loop_isolation(false)]
pub fn validate_guardrail_name(name: &str) -> (r: Result<(), String>)
    ensures
        match r {
            Ok(_) => guardrail_name_error(name@) is None,
            Err(e) => guardrail_name_error(name@) == Some(e@),
        },
{
    proof {
        lemma_encode_utf8_len(name@);
        lemma_utf8_len_ge(name@);
    }
    let n = byte_len(name);
    if n == 0 || n > 64 {
        return Err(owned("Guardrail name must be 1-64 characters"));
    }
    let v = chars_of(name);
    let mut i: usize = 0;
    while i < v.len()
        invariant
            v@ == name@,
            i <= v.len(),
            forall|j: int| 0 <= j < i ==> is_guardrail_name_char(#[trigger] v@[j]),
        decreases v.len() - i,
    {
        let c = v[i];
        if !(is_ascii_alnum_exec(c) || c == '_' || c == '-') {
            assert(!is_guardrail_name_char(name@[i as int]));
            return Err(owned("Guardrail name must contain only alphanumeric characters, underscores, and hyphens"));
        }
        i = i + 1;
    }
    Ok(())
}

/// Request body of the dry-run evaluation; the confidence is an order key.
#[derive(Clone, Debug)]
pub struct EvaluateGuardrailsRequest {
    pub trigger: GuardrailTrigger,
    pub classification: Option<Classification>,
    pub entity_type: Option<String>,
    pub edge_label: Option<String>,
    pub content: Option<String>,
    pub caller_role: Option<ApiKeyRole>,
    pub fact_age_days: Option<u32>,
    pub confidence: Option<u32>,
    pub user_id: Option<u128>,
}

impl EvaluateGuardrailsRequest {
    /// The evaluation context that the request describes, field by field.
    pub fn into_eval_context(self) -> (r: EvalContext)
        ensures
            r.classification == self.classification,
            r.entity_type == self.entity_type,
            r.edge_label == self.edge_label,
            r.content == self.content,
            r.caller_role == self.caller_role,
            r.fact_age_days == self.fact_age_days,
            r.confidence == self.confidence,
            r.user_id == self.user_id,
    {
        EvalContext {
            classification: self.classification,
            entity_type: self.entity_type,
            edge_label: self.edge_label,
            content: self.content,
            caller_role: self.caller_role,
            fact_age_days: self.fact_age_days,
            confidence: self.confidence,
            user_id: self.user_id,
        }
    }
}

/// Response of the dry-run evaluation.
#[derive(Clone, Debug)]
pub struct EvaluateGuardrailsResponse {
    pub blocked: bool,
    pub block_reason: Option<String>,
    pub redact: bool,
    pub reclassify_to: Option<Classification>,
    pub warnings: Vec<String>,
    pub audit_entries: Vec<AuditEntry>,
    pub rule_results: Vec<GuardrailEvalResult>,
}

impl EvaluateGuardrailsResponse {
    /// The dry-run response of an evaluation outcome: its fields, with each
    /// audit pair as an `AuditEntry`.
    pub fn from(v: GuardrailVerdict) -> (r: EvaluateGuardrailsResponse)
        ensures
            r.blocked == v.blocked,
            r.block_reason == v.block_reason,
            r.redact == v.redact,
            r.reclassify_to == v.reclassify_to,
            r.warnings@ == v.warnings@,
            r.rule_results@ == v.details@,
            r.audit_entries@.len() == v.audit_entries@.len(),
            forall|i: int| 0 <= i < r.audit_entries@.len() ==>
                (#[trigger] r.audit_entries@[i]).rule_name == v.audit_entries@[i].0
                && r.audit_entries@[i].severity == v.audit_entries@[i].1,
    {
        let mut audit_entries: Vec<AuditEntry> = Vec::new();
        let mut i: usize = 0;
        while i < v.audit_entries.len()
            invariant
                i <= v.audit_entries.len(),
                audit_entries@.len() == i,
                forall|j: int| 0 <= j < i ==>
                    (#[trigger] audit_entries@[j]).rule_name == v.audit_entries@[j].0
                    && audit_entries@[j].severity == v.audit_entries@[j].1,
            decreases v.audit_entries.len() - i,
        {
            let rule_name = v.audit_entries[i].0.clone();
            let severity = v.audit_entries[i].1.clone();
            audit_entries.push(AuditEntry { rule_name, severity });
            i = i + 1;
        }
        EvaluateGuardrailsResponse {
            blocked: v.blocked,
            block_reason: v.block_reason,
            redact: v.redact,
            reclassify_to: v.reclassify_to,
            warnings: v.warnings,
            audit_entries,
            rule_results: v.details,
        }
    }
}

/// The message for a pattern that does not compile.
pub open spec fn regex_error_message(pattern: Seq<char>, err: Seq<char>) -> Seq<char> {
    "Invalid regex pattern '"@ + pattern + "': "@ + err
}

/// The first pattern in the tree, depth first, that does not compile,
/// reported as its message.
pub open spec fn condition_regex_error(c: GuardrailCondition) -> Option<Seq<char>>
    decreases c, 0nat,
{
    match c {
        GuardrailCondition::ContentMatchesRegex { pattern } => match regex_new_error(pattern@) {
            None => None,
            Some(e) => Some(regex_error_message(pattern@, e)),
        },
        GuardrailCondition::And { conditions } => first_regex_error(conditions@, conditions@.len()),
        GuardrailCondition::Or { conditions } => first_regex_error(conditions@, conditions@.len()),
        GuardrailCondition::Not { condition } => condition_regex_error(*condition),
        _ => None,
    }
}

/// The first error among the first `n` conditions.
pub open spec fn first_regex_error(cs: Seq<GuardrailCondition>, n: nat) -> Option<Seq<char>>
    decreases cs, n,
{
    if n == 0 || n > cs.len() {
        None
    } else {
        match first_regex_error(cs, (n - 1) as nat) {
            Some(e) => Some(e),
            None => condition_regex_error(cs[n - 1]),
        }
    }
}

proof fn lemma_first_regex_error_stays(cs: Seq<GuardrailCondition>, m: nat, n: nat)
    requires
        m <= n <= cs.len(),
        first_regex_error(cs, m) is Some,
    ensures
        first_regex_error(cs, n) == first_regex_error(cs, m),
    decreases n - m,
{
    if m < n {
        lemma_first_regex_error_stays(cs, m, (n - 1) as nat);
    }
}

fn first_error_of(conditions: &Vec<GuardrailCondition>) -> (r: Result<(), String>)
    ensures
        match r {
            Ok(_) => first_regex_error(conditions@, conditions@.len()) is None,
            Err(e) => first_regex_error(conditions@, conditions@.len()) == Some(e@),
        },
    decreases conditions, 1nat,
{
    let mut i: usize = 0;
    while i < conditions.len()
        invariant
            i <= conditions.len(),
            first_regex_error(conditions@, i as nat) is None,
        decreases conditions.len() - i,
    {
        proof {
            assert(decreases_to!(*conditions => conditions@));
            assert(decreases_to!(conditions@ => conditions@[i as int]));
        }
        match validate_condition_regexes(&conditions[i]) {
            Ok(_) => {},
            Err(e) => {
                proof {
                    lemma_first_regex_error_stays(conditions@, (i + 1) as nat, conditions@.len());
                }
                return Err(e);
            },
        }
        i = i + 1;
    }
    Ok(())
}

/// Check that every regular expression in a condition tree compiles;
/// `Err` with the message of the first one, depth first, that does not.
pub fn validate_condition_regexes(condition: &GuardrailCondition) -> (r: Result<(), String>)
    ensures
        match r {
            Ok(_) => condition_regex_error(*condition) is None,
            Err(e) => condition_regex_error(*condition) == Some(e@),
        },
    decreases condition, 0nat,
{
    match condition {
        GuardrailCondition::ContentMatchesRegex { pattern } => match regex_compile_error(pattern.as_str()) {
            None => Ok(()),
            Some(e) => {
                let mut m = owned("Invalid regex pattern '");
                push_str(&mut m, pattern.as_str());
                push_str(&mut m, "': ");
                push_str(&mut m, e.as_str());
                Err(m)
            },
        },
        GuardrailCondition::And { conditions } => {
            proof {
                assert(decreases_to!(*condition => *conditions));
            }
            first_error_of(conditions)
        },
        GuardrailCondition::Or { conditions } => {
            proof {
                assert(decreases_to!(*condition => *conditions));
            }
            first_error_of(conditions)
        },
        GuardrailCondition::Not { condition: inner } => validate_condition_regexes(inner),
        _ => Ok(()),
    }
}

/// Request to create a guardrail rule.
#[derive(Debug)]
pub struct CreateGuardrailRequest {
    pub name: String,
    pub description: String,
    pub trigger: GuardrailTrigger,
    pub condition: GuardrailCondition,
    pub action: GuardrailAction,
    pub priority: u32,
    pub enabled: bool,
    pub scope: GuardrailScope,
}

/// A rule is enabled unless the request says otherwise.
pub fn default_true() -> (r: bool)
    ensures
        r,
{
    true
}

/// A rule applies to everyone unless the request scopes it.
pub fn default_scope() -> (r: GuardrailScope)
    ensures
        r == GuardrailScope::Global,
{
    GuardrailScope::Global
}

} // verus!
