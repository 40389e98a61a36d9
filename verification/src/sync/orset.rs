//! Observed-remove sets of texts: every add creates a unique tag, a remove
//! retires the tags it has seen, and a merge unites the tags of both sides
//! less every tag that either side retired, so that a remove survives the
//! merge while an add concurrent with it wins.

use vstd::prelude::*;
use crate::sync::counts::{NodeCounts, count_at};
use crate::sync::node::NodeId;
use crate::text::same_text;

verus! {

/// Unique tag of an add: the node that added and its sequence number there.
#[derive(Clone, PartialEq, Eq, Hash, Debug)]
pub struct AddTag {
    pub node_id: NodeId,
    pub seq: u64,
}

/// A tag as values.
pub open spec fn tag_view(t: AddTag) -> (Seq<char>, u64) {
    (t.node_id.name(), t.seq)
}

/// The tags of a vector, as a set.
pub open spec fn tag_set(v: Seq<AddTag>) -> Set<(Seq<char>, u64)> {
    v.map_values(|t: AddTag| tag_view(t)).to_set()
}

/// An observed-remove set of texts.
#[derive(Clone, Debug)]
pub struct ORSet {
    elements: Vec<(String, Vec<AddTag>)>,
    seq_counters: NodeCounts,
    retired: Vec<AddTag>,
}

pub open spec fn keys_unique(s: Seq<(String, Vec<AddTag>)>) -> bool {
    forall|i: int, j: int| 0 <= i < j < s.len() ==> #[trigger] s[i].0@ != #[trigger] s[j].0@
}

/// Element → the set of tags that added it.
pub open spec fn tags_map(s: Seq<(String, Vec<AddTag>)>) -> Map<Seq<char>, Set<(Seq<char>, u64)>> {
    Map::new(
        |k: Seq<char>| exists|i: int| 0 <= i < s.len() && #[trigger] s[i].0@ == k,
        |k: Seq<char>| tag_set(s[choose|i: int| 0 <= i < s.len() && #[trigger] s[i].0@ == k].1@),
    )
}

/// The tags of an element, empty when it has none.
pub open spec fn tags_of(m: Map<Seq<char>, Set<(Seq<char>, u64)>>, k: Seq<char>) -> Set<(Seq<char>, u64)> {
    if m.contains_key(k) {
        m[k]
    } else {
        Set::empty()
    }
}

/// The element is in the set: some tag that added it is present.
pub open spec fn present(m: Map<Seq<char>, Set<(Seq<char>, u64)>>, k: Seq<char>) -> bool {
    m.contains_key(k) && !m[k].is_empty()
}

/// The tags of each element, less the given tags.
pub open spec fn tags_minus(
    m: Map<Seq<char>, Set<(Seq<char>, u64)>>,
    r: Set<(Seq<char>, u64)>,
) -> Map<Seq<char>, Set<(Seq<char>, u64)>> {
    Map::new(|k: Seq<char>| m.contains_key(k), |k: Seq<char>| m[k].difference(r))
}

/// The live tags after merging two replicas, each given by its live tags
/// and the tags it has retired: the union of the live tags, less every tag
/// retired on either side.
pub open spec fn orset_merged(
    a: Map<Seq<char>, Set<(Seq<char>, u64)>>,
    ra: Set<(Seq<char>, u64)>,
    b: Map<Seq<char>, Set<(Seq<char>, u64)>>,
    rb: Set<(Seq<char>, u64)>,
) -> Map<Seq<char>, Set<(Seq<char>, u64)>> {
    tags_minus(tags_union(a, b), ra.union(rb))
}

/// No live tag of any element is among the retired tags.
pub open spec fn live_apart(m: Map<Seq<char>, Set<(Seq<char>, u64)>>, r: Set<(Seq<char>, u64)>) -> bool {
    forall|k: Seq<char>| m.contains_key(k) ==> #[trigger] m[k].disjoint(r)
}

/// The merge of two tag maps: every element of either, with the union of
/// its tags.
pub open spec fn tags_union(
    a: Map<Seq<char>, Set<(Seq<char>, u64)>>,
    b: Map<Seq<char>, Set<(Seq<char>, u64)>>,
) -> Map<Seq<char>, Set<(Seq<char>, u64)>> {
    Map::new(|k: Seq<char>| a.contains_key(k) || b.contains_key(k), |k: Seq<char>| tags_of(a, k).union(tags_of(b, k)))
}

proof fn lemma_tags_at(s: Seq<(String, Vec<AddTag>)>, i: int)
    requires
        keys_unique(s),
        0 <= i < s.len(),
    ensures
        tags_map(s).contains_key(s[i].0@),
        tags_map(s)[s[i].0@] == tag_set(s[i].1@),
{
    let k = s[i].0@;
    let j = choose|j: int| 0 <= j < s.len() && #[trigger] s[j].0@ == k;
    if j != i {
        if j < i {
            assert(s[j].0@ != s[i].0@);
        } else {
            assert(s[i].0@ != s[j].0@);
        }
    }
}

proof fn lemma_tag_set_push(v: Seq<AddTag>, t: AddTag)
    ensures
        tag_set(v.push(t)) == tag_set(v).insert(tag_view(t)),
{
    let f = |x: AddTag| tag_view(x);
    assert(v.push(t).map_values(f) =~= v.map_values(f).push(tag_view(t)));
    assert(v.map_values(f).push(tag_view(t)).to_set() =~= v.map_values(f).to_set().insert(tag_view(t))) by {
        broadcast use vstd::seq_lib::group_seq_properties;
    }
}

proof fn lemma_tag_set_empty_iff(v: Seq<AddTag>)
    ensures
        tag_set(v).is_empty() <==> v.len() == 0,
{
    if v.len() > 0 {
        let m = v.map_values(|t: AddTag| tag_view(t));
        assert(m[0] == tag_view(v[0]));
        assert(m.contains(tag_view(v[0])));
        assert(m.to_set().contains(tag_view(v[0])));
    } else {
        assert(tag_set(v) =~= Set::<(Seq<char>, u64)>::empty());
    }
}

/// Copies of the tags, in order.
fn copy_tags(v: &Vec<AddTag>) -> (r: Vec<AddTag>)
    ensures
        r@.map_values(|t: AddTag| tag_view(t)) == v@.map_values(|t: AddTag| tag_view(t)),
        tag_set(r@) == tag_set(v@),
{
    let mut r: Vec<AddTag> = Vec::new();
    let mut i: usize = 0;
    while i < v.len()
        invariant
            i <= v.len(),
            r@.map_values(|t: AddTag| tag_view(t)) =~= v@.take(i as int).map_values(|t: AddTag| tag_view(t)),
        decreases v.len() - i,
    {
        let ghost r0 = r@;
        r.push(AddTag { node_id: v[i].node_id.copy(), seq: v[i].seq });
        proof {
            assert(r@ == r0.push(r@.last()));
            assert(v@.take(i + 1) =~= v@.take(i as int).push(v@[i as int]));
            assert(r@.map_values(|t: AddTag| tag_view(t)) =~= r0.map_values(|t: AddTag| tag_view(t)).push(tag_view(r@.last())));
        }
        i = i + 1;
    }
    proof {
        assert(v@.take(v@.len() as int) =~= v@);
    }
    r
}

/// Append to `dst` the tags of `src` that it lacks.
fn extend_tags(dst: &mut Vec<AddTag>, src: &Vec<AddTag>)
    ensures
        tag_set(final(dst)@) == tag_set(old(dst)@).union(tag_set(src@)),
{
    let ghost base = tag_set(dst@);
    let mut j: usize = 0;
    proof {
        assert(tag_set(src@.take(0)) =~= Set::<(Seq<char>, u64)>::empty());
        assert(base.union(tag_set(src@.take(0))) =~= base);
    }
    while j < src.len()
        invariant
            j <= src.len(),
            base == tag_set(old(dst)@),
            tag_set(dst@) == base.union(tag_set(src@.take(j as int))),
        decreases src.len() - j,
    {
        let t = &src[j];
        proof {
            lemma_tag_set_push(src@.take(j as int), src@[j as int]);
            assert(src@.take(j + 1) =~= src@.take(j as int).push(src@[j as int]));
        }
        if !has_tag(dst, t) {
            let ghost m1 = dst@;
            dst.push(AddTag { node_id: t.node_id.copy(), seq: t.seq });
            proof {
                lemma_tag_set_push(m1, dst@.last());
                assert(dst@ == m1.push(dst@.last()));
            }
        }
        proof {
            assert(tag_set(dst@) =~= base.union(tag_set(src@.take(j + 1))));
        }
        j = j + 1;
    }
    proof {
        assert(src@.take(src@.len() as int) =~= src@);
    }
}

/// The tags of `v` that are not among those of `gone`, in order.
fn live_tags(v: &Vec<AddTag>, gone: &Vec<AddTag>) -> (r: Vec<AddTag>)
    ensures
        tag_set(r@) == tag_set(v@).difference(tag_set(gone@)),
{
    let ghost g = tag_set(gone@);
    let mut r: Vec<AddTag> = Vec::new();
    let mut j: usize = 0;
    proof {
        assert(tag_set(v@.take(0)) =~= Set::<(Seq<char>, u64)>::empty());
        assert(tag_set(r@) =~= tag_set(v@.take(0)).difference(g));
    }
    while j < v.len()
        invariant
            j <= v.len(),
            g == tag_set(gone@),
            tag_set(r@) == tag_set(v@.take(j as int)).difference(g),
        decreases v.len() - j,
    {
        let t = &v[j];
        proof {
            lemma_tag_set_push(v@.take(j as int), v@[j as int]);
            assert(v@.take(j + 1) =~= v@.take(j as int).push(v@[j as int]));
        }
        if !has_tag(gone, t) {
            let ghost r1 = r@;
            r.push(AddTag { node_id: t.node_id.copy(), seq: t.seq });
            proof {
                lemma_tag_set_push(r1, r@.last());
                assert(r@ == r1.push(r@.last()));
            }
        }
        proof {
            assert(tag_set(r@) =~= tag_set(v@.take(j + 1)).difference(g));
        }
        j = j + 1;
    }
    proof {
        assert(v@.take(v@.len() as int) =~= v@);
    }
    r
}

/// The tag is among the vector's tags.
fn has_tag(v: &Vec<AddTag>, t: &AddTag) -> (r: bool)
    ensures
        r == tag_set(v@).contains(tag_view(*t)),
{
    let mut i: usize = 0;
    while i < v.len()
        invariant
            i <= v.len(),
            forall|j: int| 0 <= j < i ==> tag_view(#[trigger] v@[j]) != tag_view(*t),
        decreases v.len() - i,
    {
        if v[i].seq == t.seq && v[i].node_id.same(&t.node_id) {
            proof {
                let m = v@.map_values(|x: AddTag| tag_view(x));
                assert(m[i as int] == tag_view(*t));
                assert(m.contains(tag_view(*t)));
            }
            return true;
        }
        i = i + 1;
    }
    proof {
        let m = v@.map_values(|x: AddTag| tag_view(x));
        assert(!m.contains(tag_view(*t))) by {
            if m.contains(tag_view(*t)) {
                let j = choose|j: int| 0 <= j < m.len() && m[j] == tag_view(*t);
                assert(tag_view(v@[j]) != tag_view(*t));
            }
        }
    }
    false
}

/// The pair is a listed element with tags, among the first `n`.
pub open spec fn listed_live(es: Seq<(String, Vec<AddTag>)>, n: int, e: &String) -> bool {
    exists|b: int| 0 <= b < n && #[trigger] es[b].0@ == e@ && es[b].1@.len() > 0
}

impl ORSet {
    /// No element is listed twice.
    pub closed spec fn wf(&self) -> bool {
        &&& keys_unique(self.elements@)
        &&& self.seq_counters.wf()
    }

    /// Element → the tags that added it.
    pub closed spec fn tags(&self) -> Map<Seq<char>, Set<(Seq<char>, u64)>> {
        tags_map(self.elements@)
    }

    /// Node → the last sequence number it handed out.
    pub closed spec fn counters(&self) -> Map<Seq<char>, u64> {
        self.seq_counters@
    }

    /// The tags that removes have retired, here or on a merged replica.
    pub closed spec fn removed(&self) -> Set<(Seq<char>, u64)> {
        tag_set(self.retired@)
    }

    pub fn new() -> (r: ORSet)
        ensures
            r.wf(),
            r.tags() == Map::<Seq<char>, Set<(Seq<char>, u64)>>::empty(),
            r.removed() == Set::<(Seq<char>, u64)>::empty(),
            r.counters() == Map::<Seq<char>, u64>::empty(),
    {
        let r = ORSet { elements: Vec::new(), seq_counters: NodeCounts::new(), retired: Vec::new() };
        proof {
            assert(r.tags() =~= Map::<Seq<char>, Set<(Seq<char>, u64)>>::empty());
            assert(r.removed() =~= Set::<(Seq<char>, u64)>::empty());
        }
        r
    }

    fn find(&self, element: &str) -> (r: Option<usize>)
        requires
            self.wf(),
        ensures
            match r {
                Some(i) => i < self.elements@.len() && self.elements@[i as int].0@ == element@,
                None => !self.tags().contains_key(element@),
            },
    {
        let mut i: usize = 0;
        while i < self.elements.len()
            invariant
                i <= self.elements.len(),
                forall|j: int| 0 <= j < i ==> #[trigger] self.elements@[j].0@ != element@,
            decreases self.elements.len() - i,
        {
            if same_text(self.elements[i].0.as_str(), element) {
                return Some(i);
            }
            i = i + 1;
        }
        None
    }

    /// Add tags to an element's tags (creating the element if needed).
    fn union_tags(&mut self, element: &str, tags: &Vec<AddTag>)
        requires
            old(self).wf(),
        ensures
            final(self).wf(),
            final(self).counters() == old(self).counters(),
            final(self).removed() == old(self).removed(),
            final(self).tags() == old(self).tags().insert(element@, tags_of(old(self).tags(), element@).union(tag_set(tags@))),
    {
        let ghost m0 = self.tags();
        let ghost k = element@;
        let ghost before = self.elements@;
        let found = self.find(element);
        let mut merged: Vec<AddTag> = match found {
            Some(i) => {
                proof {
                    lemma_tags_at(before, i as int);
                }
                copy_tags(&self.elements[i].1)
            },
            None => {
                let v: Vec<AddTag> = Vec::new();
                proof {
                    assert(tag_set(v@) =~= Set::<(Seq<char>, u64)>::empty());
                }
                v
            },
        };
        let ghost base = tags_of(m0, k);
        assert(tag_set(merged@) == base);
        extend_tags(&mut merged, tags);
        match found {
            Some(i) => {
                let name = self.elements[i].0.clone();
                self.elements.set(i, (name, merged));
                proof {
                    assert forall|a: int, b: int| 0 <= a < b < self.elements@.len() implies
                        #[trigger] self.elements@[a].0@ != #[trigger] self.elements@[b].0@ by {
                        assert(before[a].0@ != before[b].0@);
                    }
                    self.lemma_update_at(before, i as int, m0, k, base.union(tag_set(tags@)));
                }
            },
            None => {
                let name = crate::text::owned(element);
                self.elements.push((name, merged));
                proof {
                    let n = before.len() as int;
                    assert forall|a: int, b: int| 0 <= a < b < self.elements@.len() implies
                        #[trigger] self.elements@[a].0@ != #[trigger] self.elements@[b].0@ by {
                        if b == n {
                            if before[a].0@ == k {
                                assert(m0.contains_key(k));
                            }
                        } else {
                            assert(before[a].0@ != before[b].0@);
                        }
                    }
                    self.lemma_pushed(before, m0, k, base.union(tag_set(tags@)));
                }
            },
        }
    }

    proof fn lemma_update_at(
        &self,
        before: Seq<(String, Vec<AddTag>)>,
        i: int,
        m0: Map<Seq<char>, Set<(Seq<char>, u64)>>,
        k: Seq<char>,
        ts: Set<(Seq<char>, u64)>,
    )
        requires
            keys_unique(before),
            keys_unique(self.elements@),
            m0 == tags_map(before),
            0 <= i < before.len(),
            self.elements@.len() == before.len(),
            before[i].0@ == k,
            self.elements@[i].0@ == k,
            tag_set(self.elements@[i].1@) == ts,
            forall|j: int| 0 <= j < before.len() && j != i ==> #[trigger] self.elements@[j] == before[j],
        ensures
            self.tags() == m0.insert(k, ts),
    {
        let s = self.elements@;
        assert forall|q: Seq<char>| #[trigger] self.tags().contains_key(q) <==> m0.insert(k, ts).contains_key(q) by {
            if m0.contains_key(q) {
                let j = choose|j: int| 0 <= j < before.len() && #[trigger] before[j].0@ == q;
                if j != i {
                    assert(s[j] == before[j]);
                }
                assert(s[j].0@ == q);
            }
            if q == k {
                assert(s[i].0@ == q);
            }
            if self.tags().contains_key(q) {
                let j = choose|j: int| 0 <= j < s.len() && #[trigger] s[j].0@ == q;
                if j != i {
                    assert(s[j] == before[j]);
                    assert(before[j].0@ == q);
                }
            }
        }
        assert forall|q: Seq<char>| #[trigger] self.tags().contains_key(q) implies self.tags()[q] == m0.insert(k, ts)[q] by {
            let j = choose|j: int| 0 <= j < s.len() && #[trigger] s[j].0@ == q;
            lemma_tags_at(s, j);
            if j != i {
                assert(s[j] == before[j]);
                lemma_tags_at(before, j);
            }
        }
        assert(self.tags() =~= m0.insert(k, ts));
    }

    proof fn lemma_pushed(
        &self,
        before: Seq<(String, Vec<AddTag>)>,
        m0: Map<Seq<char>, Set<(Seq<char>, u64)>>,
        k: Seq<char>,
        ts: Set<(Seq<char>, u64)>,
    )
        requires
            keys_unique(before),
            keys_unique(self.elements@),
            m0 == tags_map(before),
            self.elements@.len() == before.len() + 1,
            self.elements@.last().0@ == k,
            tag_set(self.elements@.last().1@) == ts,
            forall|j: int| 0 <= j < before.len() ==> #[trigger] self.elements@[j] == before[j],
        ensures
            self.tags() == m0.insert(k, ts),
    {
        let s = self.elements@;
        let n = before.len() as int;
        assert forall|q: Seq<char>| #[trigger] self.tags().contains_key(q) <==> m0.insert(k, ts).contains_key(q) by {
            if m0.contains_key(q) {
                let j = choose|j: int| 0 <= j < before.len() && #[trigger] before[j].0@ == q;
                assert(s[j] == before[j]);
                assert(s[j].0@ == q);
            }
            if q == k {
                assert(s[n].0@ == q);
            }
            if self.tags().contains_key(q) {
                let j = choose|j: int| 0 <= j < s.len() && #[trigger] s[j].0@ == q;
                if j != n {
                    assert(s[j] == before[j]);
                    assert(before[j].0@ == q);
                }
            }
        }
        assert forall|q: Seq<char>| #[trigger] self.tags().contains_key(q) implies self.tags()[q] == m0.insert(k, ts)[q] by {
            let j = choose|j: int| 0 <= j < s.len() && #[trigger] s[j].0@ == q;
            lemma_tags_at(s, j);
            if j != n {
                assert(s[j] == before[j]);
                lemma_tags_at(before, j);
            }
        }
        assert(self.tags() =~= m0.insert(k, ts));
    }

    /// The next tag of a node: its sequence number goes up by one.
    fn next_tag(&mut self, node_id: &NodeId) -> (r: AddTag)
        requires
            old(self).wf(),
            count_at(old(self).counters(), node_id.name()) < u64::MAX,
        ensures
            final(self).wf(),
            final(self).tags() == old(self).tags(),
            final(self).removed() == old(self).removed(),
            final(self).counters() == old(self).counters().insert(node_id.name(), (count_at(old(self).counters(), node_id.name()) + 1) as u64),
            tag_view(r) == (node_id.name(), (count_at(old(self).counters(), node_id.name()) + 1) as u64),
    {
        let seq = self.seq_counters.get(node_id) + 1;
        self.seq_counters.set(node_id, seq);
        AddTag { node_id: node_id.copy(), seq }
    }

    /// Add an element with a fresh tag of the node; the tag is returned.
    pub fn add(&mut self, element: &str, node_id: &NodeId) -> (r: AddTag)
        requires
            old(self).wf(),
            count_at(old(self).counters(), node_id.name()) < u64::MAX,
        ensures
            final(self).wf(),
            tag_view(r) == (node_id.name(), (count_at(old(self).counters(), node_id.name()) + 1) as u64),
            final(self).counters() == old(self).counters().insert(node_id.name(), r.seq),
            final(self).removed() == old(self).removed(),
            final(self).tags() == old(self).tags().insert(element@, tags_of(old(self).tags(), element@).insert(tag_view(r))),
    {
        let tag = self.next_tag(node_id);
        let one = vec![AddTag { node_id: tag.node_id.copy(), seq: tag.seq }];
        self.union_tags(element, &one);
        proof {
            assert(one@ =~= Seq::<AddTag>::empty().push(one@[0]));
            lemma_tag_set_push(Seq::<AddTag>::empty(), one@[0]);
            assert(tag_set(Seq::<AddTag>::empty()) =~= Set::<(Seq<char>, u64)>::empty());
            assert(tags_of(old(self).tags(), element@).union(tag_set(one@)) =~= tags_of(old(self).tags(), element@).insert(tag_view(tag)));
        }
        tag
    }

    /// Remove an element by retiring every tag seen for it; `true` if it was
    /// present.
    pub fn remove(&mut self, element: &str) -> (r: bool)
        requires
            old(self).wf(),
        ensures
            final(self).wf(),
            r == present(old(self).tags(), element@),
            final(self).tags() == old(self).tags().remove(element@),
            final(self).removed() == old(self).removed().union(tags_of(old(self).tags(), element@)),
            final(self).counters() == old(self).counters(),
    {
        let ghost m0 = self.tags();
        match self.find(element) {
            Some(i) => {
                let ghost before = self.elements@;
                proof {
                    lemma_tags_at(before, i as int);
                    lemma_tag_set_empty_iff(before[i as int].1@);
                }
                let was_live = self.elements[i].1.len() > 0;
                extend_tags(&mut self.retired, &self.elements[i].1);
                self.elements.remove(i);
                proof {
                    let s = self.elements@;
                    assert forall|a: int, b: int| 0 <= a < b < s.len() implies #[trigger] s[a].0@ != #[trigger] s[b].0@ by {
                        let a2 = if a < i { a } else { a + 1 };
                        let b2 = if b < i { b } else { b + 1 };
                        assert(s[a] == before[a2]);
                        assert(s[b] == before[b2]);
                        assert(before[a2].0@ != before[b2].0@);
                    }
                    assert forall|q: Seq<char>| #[trigger] self.tags().contains_key(q) <==> m0.remove(element@).contains_key(q) by {
                        if m0.contains_key(q) && q != element@ {
                            let j = choose|j: int| 0 <= j < before.len() && #[trigger] before[j].0@ == q;
                            assert(j != i);
                            let j2 = if j < i { j } else { j - 1 };
                            assert(s[j2] == before[j]);
                        }
                        if self.tags().contains_key(q) {
                            let j = choose|j: int| 0 <= j < s.len() && #[trigger] s[j].0@ == q;
                            let j2 = if j < i { j } else { j + 1 };
                            assert(s[j] == before[j2]);
                            assert(before[j2].0@ == q);
                            if q == element@ {
                                assert(before[i as int].0@ == before[j2].0@);
                                if j2 < i {
                                    assert(before[j2].0@ != before[i as int].0@);
                                } else {
                                    assert(before[i as int].0@ != before[j2].0@);
                                }
                            }
                        }
                    }
                    assert forall|q: Seq<char>| #[trigger] self.tags().contains_key(q) implies self.tags()[q] == m0.remove(element@)[q] by {
                        let j = choose|j: int| 0 <= j < s.len() && #[trigger] s[j].0@ == q;
                        lemma_tags_at(s, j);
                        let j2 = if j < i { j } else { j + 1 };
                        assert(s[j] == before[j2]);
                        lemma_tags_at(before, j2);
                    }
                    assert(self.tags() =~= m0.remove(element@));
                }
                was_live
            },
            None => {
                assert(m0.remove(element@) =~= m0);
                assert(self.removed().union(tags_of(m0, element@)) =~= self.removed());
                false
            },
        }
    }

    /// The element is in the set.
    pub fn contains(&self, element: &str) -> (r: bool)
        requires
            self.wf(),
        ensures
            r == present(self.tags(), element@),
    {
        match self.find(element) {
            Some(i) => {
                proof {
                    lemma_tags_at(self.elements@, i as int);
                    lemma_tag_set_empty_iff(self.elements@[i as int].1@);
                }
                self.elements[i].1.len() > 0
            },
            None => false,
        }
    }

    /// The elements present in the set, each once.
    pub fn elements(&self) -> (r: Vec<&String>)
        requires
            self.wf(),
        ensures
            forall|i: int| 0 <= i < r@.len() ==> present(self.tags(), #[trigger] r@[i]@),
            forall|k: Seq<char>| #[trigger] present(self.tags(), k) ==> exists|i: int| 0 <= i < r@.len() && #[trigger] r@[i]@ == k,
            forall|i: int, j: int| 0 <= i < j < r@.len() ==> #[trigger] r@[i]@ != #[trigger] r@[j]@,
    {
        let mut r: Vec<&String> = Vec::new();
        let mut i: usize = 0;
        while i < self.elements.len()
            invariant
                self.wf(),
                i <= self.elements.len(),
                forall|a: int| 0 <= a < r@.len() ==> listed_live(self.elements@, i as int, #[trigger] r@[a]),
                forall|b: int| 0 <= b < i && (#[trigger] self.elements@[b]).1@.len() > 0 ==>
                    exists|a: int| 0 <= a < r@.len() && #[trigger] r@[a]@ == self.elements@[b].0@,
                forall|a: int, c: int| 0 <= a < c < r@.len() ==> #[trigger] r@[a]@ != #[trigger] r@[c]@,
            decreases self.elements.len() - i,
        {
            let e = &self.elements[i];
            let ghost before = r@;
            if e.1.len() > 0 {
                r.push(&e.0);
            }
            proof {
                assert forall|a: int| 0 <= a < r@.len() implies listed_live(self.elements@, i + 1, #[trigger] r@[a]) by {
                    if a < before.len() {
                        assert(r@[a] == before[a]);
                        assert(listed_live(self.elements@, i as int, before[a]));
                        let b = choose|b: int| 0 <= b < i && #[trigger] self.elements@[b].0@ == before[a]@ && self.elements@[b].1@.len() > 0;
                        assert(self.elements@[b].0@ == r@[a]@);
                    } else {
                        assert(self.elements@[i as int].0@ == r@[a]@);
                    }
                }
                assert forall|a: int, c: int| 0 <= a < c < r@.len() implies #[trigger] r@[a]@ != #[trigger] r@[c]@ by {
                    if c == before.len() {
                        assert(r@[a] == before[a]);
                        assert(listed_live(self.elements@, i as int, before[a]));
                        let b = choose|b: int| 0 <= b < i && #[trigger] self.elements@[b].0@ == before[a]@ && self.elements@[b].1@.len() > 0;
                        assert(self.elements@[b].0@ != self.elements@[i as int].0@);
                    } else {
                        assert(r@[a] == before[a] && r@[c] == before[c]);
                    }
                }
                assert forall|b: int| 0 <= b < i + 1 && (#[trigger] self.elements@[b]).1@.len() > 0 implies
                    exists|a: int| 0 <= a < r@.len() && #[trigger] r@[a]@ == self.elements@[b].0@ by {
                    if b == i as int {
                        assert(r@[before.len() as int]@ == self.elements@[b].0@);
                    } else {
                        let a = choose|a: int| 0 <= a < before.len() && #[trigger] before[a]@ == self.elements@[b].0@;
                        assert(r@[a] == before[a]);
                    }
                }
            }
            i = i + 1;
        }
        proof {
            assert forall|a: int| 0 <= a < r@.len() implies present(self.tags(), #[trigger] r@[a]@) by {
                assert(listed_live(self.elements@, self.elements@.len() as int, r@[a]));
                let b = choose|b: int| 0 <= b < self.elements@.len() && #[trigger] self.elements@[b].0@ == r@[a]@ && self.elements@[b].1@.len() > 0;
                lemma_tags_at(self.elements@, b);
                lemma_tag_set_empty_iff(self.elements@[b].1@);
            }
            assert forall|k: Seq<char>| #[trigger] present(self.tags(), k) implies exists|a: int| 0 <= a < r@.len() && #[trigger] r@[a]@ == k by {
                let b = choose|b: int| 0 <= b < self.elements@.len() && #[trigger] self.elements@[b].0@ == k;
                lemma_tags_at(self.elements@, b);
                lemma_tag_set_empty_iff(self.elements@[b].1@);
            }
        }
        r
    }

    /// Number of elements present.
    pub fn len(&self) -> (r: usize)
        requires
            self.wf(),
        ensures
            r == self.tags().dom().filter(|k: Seq<char>| present(self.tags(), k)).len(),
    {
        let live = self.elements();
        proof {
            let s = self.tags().dom().filter(|k: Seq<char>| present(self.tags(), k));
            let keys = live@.map_values(|e: &String| e@);
            assert forall|a: int, c: int| 0 <= a < c < keys.len() implies keys[a] != keys[c] by {
                assert(live@[a]@ != live@[c]@);
            }
            assert(keys.no_duplicates());
            assert(keys.to_set() =~= s) by {
                assert forall|k: Seq<char>| keys.to_set().contains(k) <==> s.contains(k) by {
                    if s.contains(k) {
                        let a = choose|a: int| 0 <= a < live@.len() && #[trigger] live@[a]@ == k;
                        assert(keys[a] == k);
                    }
                    if keys.to_set().contains(k) {
                        let a = choose|a: int| 0 <= a < keys.len() && keys[a] == k;
                        assert(live@[a]@ == k);
                    }
                }
            }
            keys.unique_seq_to_set();
        }
        live.len()
    }

    /// No element is present.
    pub fn is_empty(&self) -> (r: bool)
        requires
            self.wf(),
        ensures
            r == (self.tags().dom().filter(|k: Seq<char>| present(self.tags(), k)).len() == 0),
    {
        self.len() == 0
    }

    /// Drop from every element the tags that have been retired.
    fn drop_retired(&mut self)
        requires
            old(self).wf(),
        ensures
            final(self).wf(),
            final(self).counters() == old(self).counters(),
            final(self).removed() == old(self).removed(),
            final(self).tags() == tags_minus(old(self).tags(), old(self).removed()),
    {
        let ghost before = self.elements@;
        let ghost m0 = self.tags();
        let ghost g = self.removed();
        let mut i: usize = 0;
        while i < self.elements.len()
            invariant
                keys_unique(before),
                m0 == tags_map(before),
                g == tag_set(self.retired@),
                self.seq_counters == old(self).seq_counters,
                self.retired == old(self).retired,
                self.elements@.len() == before.len(),
                i <= self.elements@.len(),
                forall|j: int| 0 <= j < before.len() ==> (#[trigger] self.elements@[j]).0@ == before[j].0@,
                forall|j: int| 0 <= j < i ==> tag_set((#[trigger] self.elements@[j]).1@) == tag_set(before[j].1@).difference(g),
                forall|j: int| i <= j < before.len() ==> #[trigger] self.elements@[j] == before[j],
            decreases before.len() - i,
        {
            let kept = live_tags(&self.elements[i].1, &self.retired);
            let name = self.elements[i].0.clone();
            self.elements.set(i, (name, kept));
            i = i + 1;
        }
        proof {
            let s = self.elements@;
            assert forall|a: int, b: int| 0 <= a < b < s.len() implies #[trigger] s[a].0@ != #[trigger] s[b].0@ by {
                assert(s[a].0@ == before[a].0@);
                assert(s[b].0@ == before[b].0@);
                assert(before[a].0@ != before[b].0@);
            }
            assert forall|q: Seq<char>| #[trigger] self.tags().contains_key(q) <==> m0.contains_key(q) by {
                if m0.contains_key(q) {
                    let j = choose|j: int| 0 <= j < before.len() && #[trigger] before[j].0@ == q;
                    assert(s[j].0@ == q);
                }
                if self.tags().contains_key(q) {
                    let j = choose|j: int| 0 <= j < s.len() && #[trigger] s[j].0@ == q;
                    assert(before[j].0@ == q);
                }
            }
            assert forall|q: Seq<char>| #[trigger] self.tags().contains_key(q) implies self.tags()[q] == m0[q].difference(g) by {
                let j = choose|j: int| 0 <= j < s.len() && #[trigger] s[j].0@ == q;
                lemma_tags_at(s, j);
                assert(s[j].0@ == before[j].0@);
                lemma_tags_at(before, j);
            }
            assert(self.tags() =~= tags_minus(m0, g));
        }
    }

    /// Merge another set: every element of either, with the union of its
    /// tags less every tag that either side has retired; the retired tags
    /// are united and sequence numbers take the larger value per node.
    pub fn merge(&mut self, other: &ORSet)
        requires
            old(self).wf(),
            other.wf(),
        ensures
            final(self).wf(),
            final(self).removed() == old(self).removed().union(other.removed()),
            final(self).tags() == orset_merged(old(self).tags(), old(self).removed(), other.tags(), other.removed()),
            final(self).counters() == crate::sync::counts::pointwise_max(old(self).counters(), other.counters()),
    {
        let ghost r0 = self.removed();
        let ghost m0 = self.tags();
        let ghost om = other.tags();
        let mut i: usize = 0;
        proof {
            assert(other.elements@.take(0) =~= Seq::<(String, Vec<AddTag>)>::empty());
            assert(prefix_tags(other.elements@, 0) =~= Map::<Seq<char>, Set<(Seq<char>, u64)>>::empty());
            assert forall|q: Seq<char>| #[trigger] m0.contains_key(q) implies
                tags_of(m0, q).union(tags_of(prefix_tags(other.elements@, 0), q)) == m0[q] by {
                assert(tags_of(m0, q).union(Set::<(Seq<char>, u64)>::empty()) =~= m0[q]);
            }
            assert(tags_union(m0, prefix_tags(other.elements@, 0)) =~= m0);
        }
        while i < other.elements.len()
            invariant
                self.wf(),
                other.wf(),
                m0 == old(self).tags(),
                om == other.tags(),
                r0 == old(self).removed(),
                self.removed() == r0,
                self.counters() == old(self).counters(),
                i <= other.elements.len(),
                self.tags() == tags_union(m0, prefix_tags(other.elements@, i as int)),
            decreases other.elements.len() - i,
        {
            let name = &other.elements[i].0;
            let tags = &other.elements[i].1;
            let ghost start = self.tags();
            self.union_tags(name.as_str(), tags);
            proof {
                lemma_tags_at(other.elements@, i as int);
                lemma_prefix_tags_step(other.elements@, i as int);
                let p = prefix_tags(other.elements@, i as int);
                let p1 = prefix_tags(other.elements@, i + 1);
                assert(!p.contains_key(name@)) by {
                    if p.contains_key(name@) {
                        let q = choose|q: int| 0 <= q < other.elements@.take(i as int).len() && #[trigger] other.elements@.take(i as int)[q].0@ == name@;
                        assert(other.elements@[q].0@ != other.elements@[i as int].0@);
                    }
                }
                assert(tags_of(start, name@) =~= tags_of(m0, name@)) by {
                    if m0.contains_key(name@) {
                        assert(start[name@] =~= tags_of(m0, name@).union(tags_of(p, name@)));
                    }
                }
                assert forall|q: Seq<char>| #[trigger] self.tags().contains_key(q) implies
                    self.tags()[q] == tags_union(m0, p1)[q] by {
                    if q != name@ {
                        assert(self.tags()[q] == start[q]);
                    } else {
                        assert(tags_of(p1, q) == tag_set(tags@));
                    }
                }
                assert(self.tags() =~= tags_union(m0, p1));
            }
            i = i + 1;
        }
        proof {
            assert(other.elements@.take(other.elements@.len() as int) =~= other.elements@);
            assert(prefix_tags(other.elements@, other.elements@.len() as int) =~= om);
        }
        extend_tags(&mut self.retired, &other.retired);
        self.drop_retired();
        self.seq_counters.merge_max(&other.seq_counters);
    }
}

impl Default for ORSet {
    /// The empty set.
    fn default() -> (r: ORSet)
        ensures
            r.wf(),
            r.tags() == Map::<Seq<char>, Set<(Seq<char>, u64)>>::empty(),
            r.removed() == Set::<(Seq<char>, u64)>::empty(),
            r.counters() == Map::<Seq<char>, u64>::empty(),
    {
        ORSet::new()
    }
}

/// The tag map of the first `n` elements.
pub open spec fn prefix_tags(s: Seq<(String, Vec<AddTag>)>, n: int) -> Map<Seq<char>, Set<(Seq<char>, u64)>> {
    tags_map(s.take(n))
}

proof fn lemma_prefix_tags_step(s: Seq<(String, Vec<AddTag>)>, n: int)
    requires
        keys_unique(s),
        0 <= n < s.len(),
    ensures
        prefix_tags(s, n + 1) == prefix_tags(s, n).insert(s[n].0@, tag_set(s[n].1@)),
{
    let a = s.take(n);
    let b = s.take(n + 1);
    assert(b =~= a.push(s[n]));
    assert forall|q: Seq<char>| #[trigger] tags_map(b).contains_key(q) <==> tags_map(a).insert(s[n].0@, tag_set(s[n].1@)).contains_key(q) by {
        if tags_map(a).contains_key(q) {
            let j = choose|j: int| 0 <= j < a.len() && #[trigger] a[j].0@ == q;
            assert(b[j].0@ == q);
        }
        if q == s[n].0@ {
            assert(b[n].0@ == q);
        }
        if tags_map(b).contains_key(q) {
            let j = choose|j: int| 0 <= j < b.len() && #[trigger] b[j].0@ == q;
            if j < n {
                assert(a[j].0@ == q);
            }
        }
    }
    assert(keys_unique(a)) by {
        assert forall|x: int, y: int| 0 <= x < y < a.len() implies #[trigger] a[x].0@ != #[trigger] a[y].0@ by {
            assert(s[x].0@ != s[y].0@);
        }
    }
    assert(keys_unique(b)) by {
        assert forall|x: int, y: int| 0 <= x < y < b.len() implies #[trigger] b[x].0@ != #[trigger] b[y].0@ by {
            assert(s[x].0@ != s[y].0@);
        }
    }
    assert forall|q: Seq<char>| #[trigger] tags_map(b).contains_key(q) implies tags_map(b)[q] == tags_map(a).insert(s[n].0@, tag_set(s[n].1@))[q] by {
        let j = choose|j: int| 0 <= j < b.len() && #[trigger] b[j].0@ == q;
        lemma_tags_at(b, j);
        if j < n {
            assert(b[j] == a[j]);
            lemma_tags_at(a, j);
        }
    }
    assert(tags_map(b) =~= tags_map(a).insert(s[n].0@, tag_set(s[n].1@)));
}

} // verus!
