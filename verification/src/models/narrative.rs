//! Cross-session narratives: an evolving, versioned story of a user, the
//! prompt that asks a language model to write it, and the framing of the
//! model's reply.

use vstd::prelude::*;
use crate::models::context::{format_utc, formatted_time};
use crate::text::{
    chars_of, decimal, owned, push_str, seq_starts_with, string_from_chars, trim, trimmed, u64_to_decimal,
};
use crate::time::UtcTime;

verus! {

/// One chapter of a narrative: a period, its summary, the key changes and
/// the sessions it draws on.
#[derive(Clone, Debug)]
pub struct NarrativeChapter {
    pub period: String,
    pub summary: String,
    pub key_changes: Vec<String>,
    pub session_ids: Vec<u128>,
}

/// The evolving story of a user, versioned like an agent identity.
#[derive(Clone, Debug)]
pub struct UserNarrative {
    pub user_id: u128,
    /// Starts at 1 and grows by one per evolution.
    pub version: u64,
    pub narrative_text: String,
    pub chapters: Vec<NarrativeChapter>,
    /// Sessions incorporated so far.
    pub session_count: u64,
    pub created_at: UtcTime,
    pub updated_at: UtcTime,
}

/// Request to refresh a user's narrative.
#[derive(Clone, Copy, Debug)]
pub struct RefreshNarrativeRequest {
    /// Regenerate from scratch instead of updating incrementally.
    pub full_rebuild: bool,
    /// Maximum number of chapters to include.
    pub max_chapters: u32,
}

/// The chapter limit of a refresh when the request has none.
pub fn default_max_chapters() -> (r: u32)
    ensures
        r == 20,
{
    20
}

impl Default for RefreshNarrativeRequest {
    /// An incremental refresh of at most 20 chapters.
    fn default() -> (r: RefreshNarrativeRequest)
        ensures
            !r.full_rebuild,
            r.max_chapters == 20,
    {
        RefreshNarrativeRequest { full_rebuild: false, max_chapters: default_max_chapters() }
    }
}

/// The number of key changes of the chapters.
pub open spec fn key_change_total(chapters: Seq<NarrativeChapter>) -> nat
    decreases chapters.len(),
{
    if chapters.len() == 0 {
        0
    } else {
        key_change_total(chapters.drop_last()) + chapters.last().key_changes@.len()
    }
}

/// The sessions the chapters refer to.
pub open spec fn referenced_sessions(chapters: Seq<NarrativeChapter>) -> Set<u128> {
    Set::new(|id: u128| exists|c: int, k: int| 0 <= c < chapters.len() && 0 <= k < chapters[c].session_ids@.len()
        && #[trigger] chapters[c].session_ids@[k] == id)
}

impl UserNarrative {
    /// A first version of a user's narrative, made at `now`.
    pub fn new_at(user_id: u128, narrative_text: String, chapters: Vec<NarrativeChapter>, now: UtcTime) -> (r: UserNarrative)
        ensures
            r.user_id == user_id,
            r.version == 1,
            r.narrative_text == narrative_text,
            r.chapters == chapters,
            r.session_count == 0,
            r.created_at == now,
            r.updated_at == now,
    {
        UserNarrative { user_id, version: 1, narrative_text, chapters, session_count: 0, created_at: now, updated_at: now }
    }

    /// A first version of a user's narrative, made now.
    pub fn new(user_id: u128, narrative_text: String, chapters: Vec<NarrativeChapter>) -> (r: UserNarrative)
        ensures
            r.user_id == user_id,
            r.version == 1,
            r.narrative_text == narrative_text,
            r.chapters == chapters,
            r.session_count == 0,
            r.created_at == r.updated_at,
    {
        UserNarrative::new_at(user_id, narrative_text, chapters, crate::time::now())
    }

    /// The next version at `now`: new text and chapters, `sessions_added`
    /// more sessions, the same user and creation time.
    pub fn evolve_at(&self, new_text: String, new_chapters: Vec<NarrativeChapter>, sessions_added: u64, now: UtcTime) -> (r: UserNarrative)
        requires
            self.version < u64::MAX,
            self.session_count + sessions_added <= u64::MAX,
        ensures
            r.user_id == self.user_id,
            r.version == self.version + 1,
            r.narrative_text == new_text,
            r.chapters == new_chapters,
            r.session_count == self.session_count + sessions_added,
            r.created_at == self.created_at,
            r.updated_at == now,
    {
        UserNarrative {
            user_id: self.user_id,
            version: self.version + 1,
            narrative_text: new_text,
            chapters: new_chapters,
            session_count: self.session_count + sessions_added,
            created_at: self.created_at,
            updated_at: now,
        }
    }

    /// The next version, made now.
    pub fn evolve(&self, new_text: String, new_chapters: Vec<NarrativeChapter>, sessions_added: u64) -> (r: UserNarrative)
        requires
            self.version < u64::MAX,
            self.session_count + sessions_added <= u64::MAX,
        ensures
            r.user_id == self.user_id,
            r.version == self.version + 1,
            r.narrative_text == new_text,
            r.chapters == new_chapters,
            r.session_count == self.session_count + sessions_added,
            r.created_at == self.created_at,
    {
        self.evolve_at(new_text, new_chapters, sessions_added, crate::time::now())
    }

    /// The narrative text is blank.
    pub fn is_empty(&self) -> (r: bool)
        ensures
            r == (trim(self.narrative_text@).len() == 0),
    {
        let t = trimmed(self.narrative_text.as_str());
        chars_of(t.as_str()).len() == 0
    }

    /// Key changes over all chapters.
    pub fn total_key_changes(&self) -> (r: usize)
        requires
            key_change_total(self.chapters@) <= usize::MAX,
        ensures
            r == key_change_total(self.chapters@),
    {
        let mut total: usize = 0;
        let mut i: usize = 0;
        while i < self.chapters.len()
            invariant
                i <= self.chapters.len(),
                key_change_total(self.chapters@) <= usize::MAX,
                total == key_change_total(self.chapters@.take(i as int)),
            decreases self.chapters.len() - i,
        {
            proof {
                assert(self.chapters@.take(i + 1).drop_last() =~= self.chapters@.take(i as int));
                lemma_key_change_total_prefix(self.chapters@, i + 1);
            }
            total = total + self.chapters[i].key_changes.len();
            i = i + 1;
        }
        proof {
            assert(self.chapters@.take(i as int) =~= self.chapters@);
        }
        total
    }

    /// Distinct sessions referred to by the chapters.
    pub fn total_referenced_sessions(&self) -> (r: usize)
        ensures
            r == referenced_sessions(self.chapters@).len(),
    {
        let mut seen: Vec<u128> = Vec::new();
        let mut c: usize = 0;
        while c < self.chapters.len()
            invariant
                c <= self.chapters.len(),
                seen@.no_duplicates(),
                seen@.to_set() == referenced_sessions(self.chapters@.take(c as int)),
            decreases self.chapters.len() - c,
        {
            let ids = &self.chapters[c].session_ids;
            let ghost prev = referenced_sessions(self.chapters@.take(c as int));
            let mut k: usize = 0;
            while k < ids.len()
                invariant
                    c < self.chapters.len(),
                    ids == self.chapters@[c as int].session_ids,
                    k <= ids.len(),
                    seen@.no_duplicates(),
                    seen@.to_set() == prev.union(ids@.take(k as int).to_set()),
                decreases ids.len() - k,
            {
                let id = ids[k];
                let mut present = false;
                let mut j: usize = 0;
                while j < seen.len()
                    invariant
                        j <= seen.len(),
                        present == exists|q: int| 0 <= q < j && seen@[q] == id,
                    decreases seen.len() - j,
                {
                    if seen[j] == id {
                        present = true;
                    }
                    j = j + 1;
                }
                let ghost before = seen@;
                if !present {
                    seen.push(id);
                    proof {
                        assert forall|a: int, b: int| 0 <= a < b < seen@.len() implies seen@[a] != seen@[b] by {
                            if b == seen@.len() - 1 {
                                assert(before[a] != id);
                            } else {
                                assert(before[a] != before[b]);
                            }
                        }
                        assert(seen@.to_set() =~= before.to_set().insert(id)) by {
                            assert forall|x: u128| #[trigger] seen@.to_set().contains(x) <==> before.to_set().insert(id).contains(x) by {
                                if seen@.to_set().contains(x) {
                                    let q = choose|q: int| 0 <= q < seen@.len() && seen@[q] == x;
                                    if q < before.len() {
                                        assert(before[q] == x);
                                        assert(before.contains(x));
                                    }
                                }
                                if before.to_set().contains(x) {
                                    let q = choose|q: int| 0 <= q < before.len() && before[q] == x;
                                    assert(seen@[q] == x);
                                }
                                if x == id {
                                    assert(seen@[seen@.len() - 1] == id);
                                }
                            }
                        }
                    }
                } else {
                    proof {
                        let q = choose|q: int| 0 <= q < j && seen@[q] == id;
                        assert(seen@.contains(id));
                        assert(seen@.to_set().insert(id) =~= seen@.to_set());
                    }
                }
                proof {
                    assert(ids@.take(k + 1) =~= ids@.take(k as int).push(id));
                    assert(ids@.take(k + 1).to_set() =~= ids@.take(k as int).to_set().insert(id)) by {
                        ids@.take(k as int).lemma_push_to_set_commute(id);
                    }
                    assert(seen@.to_set() =~= prev.union(ids@.take(k + 1).to_set()));
                }
                k = k + 1;
            }
            proof {
                assert(ids@.take(ids@.len() as int) =~= ids@);
                lemma_referenced_step(self.chapters@, c as int);
            }
            c = c + 1;
        }
        proof {
            assert(self.chapters@.take(c as int) =~= self.chapters@);
            seen@.unique_seq_to_set();
        }
        seen.len()
    }
}

proof fn lemma_key_change_total_prefix(chapters: Seq<NarrativeChapter>, n: int)
    requires
        0 <= n <= chapters.len(),
    ensures
        key_change_total(chapters.take(n)) <= key_change_total(chapters),
    decreases chapters.len(),
{
    if n < chapters.len() {
        assert(chapters.drop_last().take(n) =~= chapters.take(n));
        lemma_key_change_total_prefix(chapters.drop_last(), n);
    } else {
        assert(chapters.take(n) =~= chapters);
    }
}

proof fn lemma_referenced_step(chapters: Seq<NarrativeChapter>, c: int)
    requires
        0 <= c < chapters.len(),
    ensures
        referenced_sessions(chapters.take(c + 1)) == referenced_sessions(chapters.take(c)).union(chapters[c].session_ids@.to_set()),
{
    let a = chapters.take(c + 1);
    let b = chapters.take(c);
    assert forall|id: u128| #[trigger] referenced_sessions(a).contains(id) <==> referenced_sessions(b).union(chapters[c].session_ids@.to_set()).contains(id) by {
        if referenced_sessions(a).contains(id) {
            let (x, k) = choose|x: int, k: int| 0 <= x < a.len() && 0 <= k < a[x].session_ids@.len() && #[trigger] a[x].session_ids@[k] == id;
            if x < c {
                assert(b[x].session_ids@[k] == id);
            } else {
                assert(chapters[c].session_ids@.contains(id));
            }
        }
        if referenced_sessions(b).contains(id) {
            let (x, k) = choose|x: int, k: int| 0 <= x < b.len() && 0 <= k < b[x].session_ids@.len() && #[trigger] b[x].session_ids@[k] == id;
            assert(a[x].session_ids@[k] == id);
        }
        if chapters[c].session_ids@.to_set().contains(id) {
            let k = choose|k: int| 0 <= k < chapters[c].session_ids@.len() && chapters[c].session_ids@[k] == id;
            assert(a[c].session_ids@[k] == id);
        }
    }
    assert(referenced_sessions(a) =~= referenced_sessions(b).union(chapters[c].session_ids@.to_set()));
}

// ─── Prompt ────────────────────────────────────────────────────────

/// A session's summary as handed to narrative generation.
#[derive(Clone, Debug)]
pub struct SessionSummaryInput {
    pub session_id: u128,
    pub session_name: Option<String>,
    pub summary: String,
    pub created_at: UtcTime,
}

/// The numbered line of the `n`-th session summary.
pub open spec fn summary_line(n: nat, s: SessionSummaryInput) -> Seq<char> {
    let name = match s.session_name {
        Some(x) => x@,
        None => "Untitled session"@,
    };
    decimal(n) + ". **"@ + name + "** ("@ + formatted_time(s.created_at, "%Y-%m-%d"@) + "): "@ + s.summary@ + "\n"@
}

/// The numbered lines of the session summaries.
pub open spec fn summary_lines(ss: Seq<SessionSummaryInput>) -> Seq<char>
    decreases ss.len(),
{
    if ss.len() == 0 {
        Seq::empty()
    } else {
        summary_lines(ss.drop_last()) + summary_line(ss.len(), ss.last())
    }
}

/// One bullet line per key fact change.
pub open spec fn change_lines(cs: Seq<String>) -> Seq<char>
    decreases cs.len(),
{
    if cs.len() == 0 {
        Seq::empty()
    } else {
        change_lines(cs.drop_last()) + "- "@ + cs.last()@ + "\n"@
    }
}

/// The closing instructions, with the chapter limit.
pub open spec fn prompt_instructions(max_chapters: u32) -> Seq<char> {
    "## Instructions\n\nWrite a concise narrative (2-5 paragraphs) that tells the story of this user's \
     evolution. Include at most "@ + decimal(max_chapters as nat) + " chapters. Each chapter should cover a \
     distinct period and note what changed, what was reinforced, and what decayed.\n\n\
     Format your response as JSON with this schema:\n\
     {\n  \
       \"narrative_text\": \"<full prose narrative>\",\n  \
       \"chapters\": [\n    \
         {\n      \
           \"period\": \"<time label>\",\n      \
           \"summary\": \"<chapter summary>\",\n      \
           \"key_changes\": [\"<change1>\", \"<change2>\"]\n    \
         }\n  \
       ]\n\
     }\n"@
}

/// The prompt asking for a new or updated narrative: the previous
/// narrative (or the task), the session summaries, the key fact changes,
/// then the instructions.
pub open spec fn narrative_prompt(
    previous: Option<Seq<char>>,
    ss: Seq<SessionSummaryInput>,
    cs: Seq<String>,
    max_chapters: u32,
) -> Seq<char> {
    let head = match previous {
        Some(p) => "## Previous Narrative\n\n"@ + p + "\n\n## New Information Since Last Update\n\n"@,
        None => "## Task\n\nGenerate a narrative summary of this user's history.\n\n"@,
    };
    let sessions = if ss.len() == 0 { Seq::empty() } else { "### Session Summaries\n\n"@ + summary_lines(ss) + "\n"@ };
    let changes = if cs.len() == 0 { Seq::empty() } else { "### Key Fact Changes\n\n"@ + change_lines(cs) + "\n"@ };
    head + sessions + changes + prompt_instructions(max_chapters)
}

/// The prompt for a language model to write or update a user's narrative.
pub fn build_narrative_prompt(
    previous_narrative: Option<&str>,
    session_summaries: &[SessionSummaryInput],
    key_fact_changes: &[String],
    max_chapters: u32,
) -> (r: String)
    ensures
        r@ == narrative_prompt(
            match previous_narrative {
                Some(p) => Some(p@),
                None => None,
            },
            session_summaries@,
            key_fact_changes@,
            max_chapters,
        ),
{
    let mut prompt = String::new();
    match previous_narrative {
        Some(prev) => {
            push_str(&mut prompt, "## Previous Narrative\n\n");
            push_str(&mut prompt, prev);
            push_str(&mut prompt, "\n\n## New Information Since Last Update\n\n");
        },
        None => {
            push_str(&mut prompt, "## Task\n\nGenerate a narrative summary of this user's history.\n\n");
        },
    }
    let ghost head = prompt@;
    if session_summaries.len() > 0 {
        push_str(&mut prompt, "### Session Summaries\n\n");
        let ghost base = prompt@;
        let mut i: usize = 0;
        proof {
            assert(session_summaries@.take(0) =~= Seq::<SessionSummaryInput>::empty());
            assert(prompt@ =~= base + summary_lines(session_summaries@.take(0)));
        }
        while i < session_summaries.len()
            invariant
                i <= session_summaries.len(),
                prompt@ == base + summary_lines(session_summaries@.take(i as int)),
            decreases session_summaries.len() - i,
        {
            let s = &session_summaries[i];
            let num = u64_to_decimal(i as u64 + 1);
            push_str(&mut prompt, num.as_str());
            push_str(&mut prompt, ". **");
            match &s.session_name {
                Some(n) => push_str(&mut prompt, n.as_str()),
                None => push_str(&mut prompt, "Untitled session"),
            }
            push_str(&mut prompt, "** (");
            match format_utc(&s.created_at, "%Y-%m-%d") {
                Some(d) => push_str(&mut prompt, d.as_str()),
                None => {},
            }
            push_str(&mut prompt, "): ");
            push_str(&mut prompt, s.summary.as_str());
            push_str(&mut prompt, "\n");
            proof {
                let t = session_summaries@.take(i + 1);
                assert(t.drop_last() =~= session_summaries@.take(i as int));
                assert(t.last() == *s);
                assert(prompt@ =~= base + summary_lines(session_summaries@.take(i as int)) + summary_line((i + 1) as nat, *s));
            }
            i = i + 1;
        }
        push_str(&mut prompt, "\n");
        proof {
            assert(session_summaries@.take(i as int) =~= session_summaries@);
        }
    }
    let ghost mid = prompt@;
    if key_fact_changes.len() > 0 {
        push_str(&mut prompt, "### Key Fact Changes\n\n");
        let ghost base = prompt@;
        let mut i: usize = 0;
        proof {
            assert(key_fact_changes@.take(0) =~= Seq::<String>::empty());
            assert(prompt@ =~= base + change_lines(key_fact_changes@.take(0)));
        }
        while i < key_fact_changes.len()
            invariant
                i <= key_fact_changes.len(),
                prompt@ == base + change_lines(key_fact_changes@.take(i as int)),
            decreases key_fact_changes.len() - i,
        {
            push_str(&mut prompt, "- ");
            push_str(&mut prompt, key_fact_changes[i].as_str());
            push_str(&mut prompt, "\n");
            proof {
                let t = key_fact_changes@.take(i + 1);
                assert(t.drop_last() =~= key_fact_changes@.take(i as int));
                assert(prompt@ =~= base + change_lines(key_fact_changes@.take(i as int)) + "- "@ + key_fact_changes@[i as int]@ + "\n"@);
            }
            i = i + 1;
        }
        push_str(&mut prompt, "\n");
        proof {
            assert(key_fact_changes@.take(i as int) =~= key_fact_changes@);
        }
    }
    let ghost tail = prompt@;
    push_str(&mut prompt, "## Instructions\n\nWrite a concise narrative (2-5 paragraphs) that tells the story of this user's \
     evolution. Include at most ");
    let n = u64_to_decimal(max_chapters as u64);
    push_str(&mut prompt, n.as_str());
    push_str(&mut prompt, " chapters. Each chapter should cover a \
     distinct period and note what changed, what was reinforced, and what decayed.\n\n\
     Format your response as JSON with this schema:\n\
     {\n  \
       \"narrative_text\": \"<full prose narrative>\",\n  \
       \"chapters\": [\n    \
         {\n      \
           \"period\": \"<time label>\",\n      \
           \"summary\": \"<chapter summary>\",\n      \
           \"key_changes\": [\"<change1>\", \"<change2>\"]\n    \
         }\n  \
       ]\n\
     }\n");
    proof {
        assert(prompt@ =~= tail + prompt_instructions(max_chapters));
    }
    prompt
}

// ─── Reading the model's reply ─────────────────────────────────────

/// A narrative as a language model wrote it.
#[derive(Clone, Debug)]
pub struct NarrativeGenerationOutput {
    pub narrative_text: String,
    pub chapters: Vec<NarrativeChapter>,
}

/// Position of the first `c` in `s`, or its length when there is none.
pub open spec fn first_index(s: Seq<char>, c: char) -> int
    decreases s.len(),
{
    if s.len() == 0 {
        0
    } else if s[0] == c {
        0
    } else {
        1 + first_index(s.drop_first(), c)
    }
}

/// Position of the last `c` in `s`, or -1 when there is none.
pub open spec fn last_index(s: Seq<char>, c: char) -> int
    decreases s.len(),
{
    if s.len() == 0 {
        -1
    } else if s.last() == c {
        s.len() - 1
    } else {
        last_index(s.drop_last(), c)
    }
}

/// The text between an opening code fence's marker and a closing fence,
/// trimmed; `None` without a closing fence.
pub open spec fn fence_body(rest: Seq<char>) -> Option<Seq<char>> {
    if rest.len() >= 3 && rest.subrange(rest.len() - 3, rest.len() as int) == "```"@ {
        Some(trim(rest.take(rest.len() - 3)))
    } else {
        None
    }
}

/// The body of a Markdown code block (```` ```json ```` or plain ```` ``` ````)
/// that makes up the whole trimmed reply.
pub open spec fn fenced_json(raw: Seq<char>) -> Option<Seq<char>> {
    let t = trim(raw);
    if seq_starts_with(t, "```json"@) {
        fence_body(t.skip("```json"@.len() as int))
    } else if seq_starts_with(t, "```"@) {
        fence_body(t.skip("```"@.len() as int))
    } else {
        None
    }
}

/// The span from the first `{` to the last `}`, when the reply has both.
pub open spec fn braced_json(raw: Seq<char>) -> Option<Seq<char>> {
    let a = first_index(raw, '{');
    let b = last_index(raw, '}');
    if a < raw.len() && b >= 0 {
        Some(raw.subrange(a, b + 1))
    } else {
        None
    }
}

/// The reply has no `}` before its first `{` unless it also has one after:
/// the braced span is well formed whenever it exists.
pub open spec fn braces_in_order(raw: Seq<char>) -> bool {
    let a = first_index(raw, '{');
    let b = last_index(raw, '}');
    !(a < raw.len() && b >= 0 && b < a)
}

/// The texts to read as JSON, in order: the whole reply, the body of the
/// code block it is, and the span from its first `{` to its last `}`.
pub open spec fn narrative_candidates(raw: Seq<char>) -> Seq<Seq<char>> {
    let fenced = match fenced_json(raw) {
        Some(f) => seq![f],
        None => Seq::empty(),
    };
    let braced = match braced_json(raw) {
        Some(b) => seq![b],
        None => Seq::empty(),
    };
    seq![raw] + fenced + braced
}

proof fn lemma_last_index_bound(s: Seq<char>, c: char)
    ensures
        -1 <= last_index(s, c) < s.len(),
    decreases s.len(),
{
    if s.len() > 0 && s.last() != c {
        lemma_last_index_bound(s.drop_last(), c);
    }
}

fn first_index_exec(v: &Vec<char>, c: char) -> (r: usize)
    ensures
        r == first_index(v@, c),
{
    let mut i: usize = 0;
    proof {
        assert(v@.skip(0) =~= v@);
    }
    while i < v.len() && v[i] != c
        invariant
            i <= v.len(),
            first_index(v@, c) == i + first_index(v@.skip(i as int), c),
        decreases v.len() - i,
    {
        proof {
            assert(v@.skip(i as int)[0] == v@[i as int]);
            assert(v@.skip(i as int).drop_first() =~= v@.skip(i + 1));
        }
        i = i + 1;
    }
    proof {
        if i < v.len() {
            assert(v@.skip(i as int)[0] == v@[i as int]);
        } else {
            assert(v@.skip(i as int) =~= Seq::<char>::empty());
        }
    }
    i
}

/// Position of the last `c`, or `None` (for -1).
fn last_index_exec(v: &Vec<char>, c: char) -> (r: Option<usize>)
    ensures
        match r {
            Some(i) => i == last_index(v@, c),
            None => last_index(v@, c) == -1,
        },
{
    let mut n: usize = v.len();
    proof {
        assert(v@.take(n as int) =~= v@);
    }
    while n > 0 && v[n - 1] != c
        invariant
            n <= v.len(),
            last_index(v@, c) == last_index(v@.take(n as int), c),
        decreases n,
    {
        proof {
            assert(v@.take(n as int).drop_last() =~= v@.take(n - 1));
        }
        n = n - 1;
    }
    if n == 0 {
        None
    } else {
        Some(n - 1)
    }
}

/// The text after a fence marker, read as a code block body.
fn fence_body_exec(rest: &Vec<char>) -> (r: Option<String>)
    ensures
        match r {
            Some(b) => fence_body(rest@) == Some(b@),
            None => fence_body(rest@) is None,
        },
{
    let n = rest.len();
    if n >= 3 && rest[n - 3] == '`' && rest[n - 2] == '`' && rest[n - 1] == '`' {
        let body = string_from_chars(&rest.as_slice()[0..n - 3]);
        proof {
            reveal_strlit("```");
            assert(rest@.subrange(n - 3, n as int) =~= "```"@);
            assert(rest@.subrange(0, n - 3) =~= rest@.take(n - 3));
        }
        Some(trimmed(body.as_str()))
    } else {
        proof {
            reveal_strlit("```");
            if n >= 3 {
                assert(rest@.subrange(n - 3, n as int)[0] == rest@[n - 3]);
                assert(rest@.subrange(n - 3, n as int)[1] == rest@[n - 2]);
                assert(rest@.subrange(n - 3, n as int)[2] == rest@[n - 1]);
            }
        }
        None
    }
}

/// The body of the code block the reply is, if it is one.
pub fn narrative_fenced_json(raw: &str) -> (r: Option<String>)
    ensures
        match r {
            Some(f) => fenced_json(raw@) == Some(f@),
            None => fenced_json(raw@) is None,
        },
{
    let t = trimmed(raw);
    let tv = chars_of(t.as_str());
    proof {
        reveal_strlit("```json");
        reveal_strlit("```");
    }
    if crate::text::starts_with(t.as_str(), "```json") {
        let rest_text = string_from_chars(&tv.as_slice()[7..tv.len()]);
        let rest = chars_of(rest_text.as_str());
        proof {
            assert(rest@ =~= t@.skip(7));
        }
        fence_body_exec(&rest)
    } else if crate::text::starts_with(t.as_str(), "```") {
        let rest_text = string_from_chars(&tv.as_slice()[3..tv.len()]);
        let rest = chars_of(rest_text.as_str());
        proof {
            assert(rest@ =~= t@.skip(3));
        }
        fence_body_exec(&rest)
    } else {
        None
    }
}

/// Whether the reply's braces are in order, the condition under which the
/// braced span can be taken.
pub fn narrative_braces_ordered(raw: &str) -> (r: bool)
    ensures
        r == braces_in_order(raw@),
{
    let v = chars_of(raw);
    let a = first_index_exec(&v, '{');
    let b = last_index_exec(&v, '}');
    match b {
        Some(e) => !(a < v.len() && e < a),
        None => true,
    }
}

/// The texts to try to read as the narrative's JSON, in order: the whole
/// reply, the body of the Markdown code block that the trimmed reply is,
/// and the span from the first `{` to the last `}`.
pub fn narrative_json_candidates(raw: &str) -> (r: Vec<String>)
    requires
        braces_in_order(raw@),
    ensures
        r@.map_values(|t: String| t@) == narrative_candidates(raw@),
{
    let mut out: Vec<String> = Vec::new();
    out.push(owned(raw));
    let fenced = narrative_fenced_json(raw);
    let ghost o1 = out@;
    match fenced {
        Some(f) => out.push(f),
        None => {},
    }
    let v = chars_of(raw);
    let a = first_index_exec(&v, '{');
    let b = last_index_exec(&v, '}');
    let ghost o2 = out@;
    if a < v.len() {
        match b {
            Some(e) => {
                proof {
                    lemma_last_index_bound(v@, '}');
                }
                let span = string_from_chars(&v.as_slice()[a..e + 1]);
                out.push(span);
            },
            None => {},
        }
    }
    proof {
        assert(out@.map_values(|t: String| t@) =~= narrative_candidates(raw@));
    }
    out
}

/// What is left when no candidate reads as JSON: the trimmed reply as the
/// narrative, without chapters; an error for a blank reply.
pub fn narrative_fallback(raw: &str) -> (r: Result<NarrativeGenerationOutput, String>)
    ensures
        match r {
            Ok(o) => trim(raw@).len() > 0 && o.narrative_text@ == trim(raw@) && o.chapters@.len() == 0,
            Err(e) => trim(raw@).len() == 0 && e@ == "empty or unparseable narrative output"@,
        },
{
    let t = trimmed(raw);
    if chars_of(t.as_str()).len() > 0 {
        Ok(NarrativeGenerationOutput { narrative_text: t, chapters: Vec::new() })
    } else {
        Err(owned("empty or unparseable narrative output"))
    }
}

/// The output for a reply, given how each of its candidate texts read as
/// the JSON output (`None` where one did not): the first that read, else
/// the fallback.
pub fn narrative_choose(
    raw: &str,
    readings: Vec<Option<NarrativeGenerationOutput>>,
) -> (r: Result<NarrativeGenerationOutput, String>)
    ensures
        (exists|k: int| 0 <= k < readings@.len() && #[trigger] readings@[k] is Some) ==> exists|k: int|
            0 <= k < readings@.len() && #[trigger] readings@[k] == Some(r->Ok_0) && r is Ok
                && forall|j: int| 0 <= j < k ==> #[trigger] readings@[j] is None,
        (forall|k: int| 0 <= k < readings@.len() ==> #[trigger] readings@[k] is None) ==> match r {
            Ok(o) => trim(raw@).len() > 0 && o.narrative_text@ == trim(raw@) && o.chapters@.len() == 0,
            Err(e) => trim(raw@).len() == 0 && e@ == "empty or unparseable narrative output"@,
        },
{
    let ghost all = readings@;
    let mut rest = readings;
    let ghost mut k: int = 0;
    while rest.len() > 0
        invariant
            0 <= k <= all.len(),
            all == readings@,
            rest@ == all.skip(k),
            forall|j: int| 0 <= j < k ==> #[trigger] all[j] is None,
        decreases rest.len(),
    {
        let x = rest.remove(0);
        proof {
            assert(x == all[k]);
            assert(rest@ =~= all.skip(k + 1));
        }
        match x {
            Some(o) => {
                proof {
                    assert(readings@[k] == Some(o));
                }
                return Ok(o);
            },
            None => {},
        }
        proof {
            k = k + 1;
        }
    }
    proof {
        assert(k == all.len()) by {
            if k < all.len() {
                assert(all.skip(k).len() > 0);
            }
        }
        assert forall|j: int| 0 <= j < readings@.len() implies #[trigger] readings@[j] is None by {
            assert(all[j] is None);
        }
    }
    narrative_fallback(raw)
}

} // verus!
