//! Merkle digests for anti-entropy: nodes exchange digests of their state
//! and synchronise only the key prefixes whose hashes differ.

use vstd::prelude::*;
use vstd::utf8::encode_utf8;
use crate::digest::{sha256_hex, sha256_spec, hex_lower, sha256_hex_of_text};
use crate::sync::node::{NodeId, name_lt, lemma_name_order};
use crate::sync::counts::{NodeCounts, count_at, abstract_entries};
use crate::text::{chars_of, owned, string_from_chars, push_char};
use crate::time::{UtcTime, now};

verus! {

/// The kind of resource a delta or digest is about.
#[derive(Clone, Copy, PartialEq, Eq, Debug, Structural)]
pub enum DeltaResourceType {
    Entity,
    Edge,
    Episode,
    User,
    Session,
    AgentIdentity,
}

/// A node of a Merkle digest: the hash of the resources under a key prefix.
#[derive(Clone, PartialEq, Eq, Debug)]
pub struct MerkleNode {
    /// Hex SHA-256 of the node's content.
    pub hash: String,
    /// Key prefix this node covers.
    pub prefix: String,
    /// Number of leaf resources under this node.
    pub count: u64,
}

/// Merkle digest of one resource type within a user's data.
pub struct MerkleDigest {
    pub resource_type: DeltaResourceType,
    /// User scope (`None` = global).
    pub user_id: Option<u128>,
    /// Root hash of the tree.
    pub root_hash: String,
    /// Total leaf count.
    pub total_items: u64,
    /// When the digest was computed.
    pub computed_at: UtcTime,
    /// One node per key prefix, in order of prefix.
    pub nodes: Vec<MerkleNode>,
}

/// The (key, hash) pairs as texts.
pub open spec fn items_view(items: Seq<(String, String)>) -> Seq<(Seq<char>, Seq<char>)> {
    items.map_values(|it: (String, String)| (it.0@, it.1@))
}

/// The bucket of a key: its first character, `?` for an empty key.
pub open spec fn key_bucket(key: Seq<char>) -> Seq<char> {
    if key.len() > 0 {
        seq![key[0]]
    } else {
        "?"@
    }
}

/// The UTF-8 bytes of all hashes, in order.
pub open spec fn hashes_bytes(items: Seq<(Seq<char>, Seq<char>)>) -> Seq<u8>
    decreases items.len(),
{
    if items.len() == 0 {
        Seq::empty()
    } else {
        hashes_bytes(items.drop_last()) + encode_utf8(items.last().1)
    }
}

/// The UTF-8 bytes of the hashes of the items in bucket `p`, in order.
pub open spec fn bucket_bytes(items: Seq<(Seq<char>, Seq<char>)>, p: Seq<char>) -> Seq<u8>
    decreases items.len(),
{
    if items.len() == 0 {
        Seq::empty()
    } else if key_bucket(items.last().0) == p {
        bucket_bytes(items.drop_last(), p) + encode_utf8(items.last().1)
    } else {
        bucket_bytes(items.drop_last(), p)
    }
}

/// Number of items in bucket `p`.
pub open spec fn bucket_count(items: Seq<(Seq<char>, Seq<char>)>, p: Seq<char>) -> nat
    decreases items.len(),
{
    if items.len() == 0 {
        0
    } else if key_bucket(items.last().0) == p {
        bucket_count(items.drop_last(), p) + 1
    } else {
        bucket_count(items.drop_last(), p)
    }
}

/// The buckets with their item counts.
pub open spec fn bucket_counts(items: Seq<(Seq<char>, Seq<char>)>) -> Map<Seq<char>, u64> {
    Map::new(|p: Seq<char>| bucket_count(items, p) > 0, |p: Seq<char>| bucket_count(items, p) as u64)
}

/// The root hash of a digest of the given items.
pub open spec fn digest_root(items: Seq<(Seq<char>, Seq<char>)>) -> Seq<char> {
    if items.len() == 0 {
        sha256_hex_of_text("empty"@)
    } else {
        hex_lower(sha256_spec(hashes_bytes(items)))
    }
}

/// The nodes are those of the digest of `items`: one per bucket, in order of
/// bucket, each with the hash and count of its bucket.
pub open spec fn digest_nodes_of(nodes: Seq<MerkleNode>, items: Seq<(Seq<char>, Seq<char>)>) -> bool {
    &&& forall|i: int, j: int| 0 <= i < j < nodes.len() ==> name_lt(#[trigger] nodes[i].prefix@, #[trigger] nodes[j].prefix@)
    &&& forall|i: int| 0 <= i < nodes.len() ==> {
        &&& bucket_count(items, #[trigger] nodes[i].prefix@) > 0
        &&& nodes[i].count == bucket_count(items, nodes[i].prefix@)
        &&& nodes[i].hash@ == hex_lower(sha256_spec(bucket_bytes(items, nodes[i].prefix@)))
    }
    &&& forall|k: int| 0 <= k < items.len() ==> has_node_for(nodes, key_bucket(#[trigger] items[k].0))
}

/// Some node covers bucket `p`.
pub open spec fn has_node_for(nodes: Seq<MerkleNode>, p: Seq<char>) -> bool {
    exists|i: int| 0 <= i < nodes.len() && #[trigger] nodes[i].prefix@ == p
}

proof fn lemma_bucket_count_bound(items: Seq<(Seq<char>, Seq<char>)>, p: Seq<char>)
    ensures
        bucket_count(items, p) <= items.len(),
    decreases items.len(),
{
    if items.len() > 0 {
        lemma_bucket_count_bound(items.drop_last(), p);
    }
}

proof fn lemma_bucket_of_member(items: Seq<(Seq<char>, Seq<char>)>, k: int)
    requires
        0 <= k < items.len(),
    ensures
        bucket_count(items, key_bucket(items[k].0)) > 0,
    decreases items.len(),
{
    if k < items.len() - 1 {
        assert(items.drop_last()[k] == items[k]);
        lemma_bucket_of_member(items.drop_last(), k);
    }
}

/// The bucket of a key, as a string.
fn bucket_of(key: &String) -> (r: String)
    ensures
        r@ == key_bucket(key@),
{
    let v = chars_of(key.as_str());
    if v.len() > 0 {
        let mut s = String::new();
        push_char(&mut s, v[0]);
        assert(s@ =~= seq![v@[0]]);
        s
    } else {
        owned("?")
    }
}

fn append_bytes(v: &mut Vec<u8>, b: &[u8])
    ensures
        final(v)@ == old(v)@ + b@,
{
    v.extend_from_slice(b);
    assert(v@ =~= old(v)@ + b@);
}

/// The hex SHA-256 of the UTF-8 bytes of a text.
pub fn compute_sha256(data: &str) -> (r: String)
    ensures
        r@ == sha256_hex_of_text(data@),
{
    sha256_hex(data.as_bytes())
}

/// Concatenation of the UTF-8 bytes of the hashes of the items in bucket
/// `p` (or of all items when `p` is `None`).
fn collect_hash_bytes(items: &[(String, String)], p: Option<&String>) -> (r: Vec<u8>)
    ensures
        p is None ==> r@ == hashes_bytes(items_view(items@)),
        p matches Some(q) ==> r@ == bucket_bytes(items_view(items@), q@),
{
    let ghost iv = items_view(items@);
    let mut out: Vec<u8> = Vec::new();
    let mut i: usize = 0;
    assert(iv.take(0) =~= Seq::<(Seq<char>, Seq<char>)>::empty());
    while i < items.len()
        invariant
            i <= items@.len(),
            iv == items_view(items@),
            p is None ==> out@ == hashes_bytes(iv.take(i as int)),
            p matches Some(q) ==> out@ == bucket_bytes(iv.take(i as int), q@),
        decreases items.len() - i,
    {
        let ghost t = iv.take(i + 1);
        assert(t.drop_last() =~= iv.take(i as int));
        assert(t.last() == (items@[i as int].0@, items@[i as int].1@));
        match p {
            None => {
                append_bytes(&mut out, items[i].1.as_str().as_bytes());
            },
            Some(q) => {
                let b = bucket_of(&items[i].0);
                if b == *q {
                    append_bytes(&mut out, items[i].1.as_str().as_bytes());
                }
            },
        }
        i = i + 1;
    }
    assert(iv.take(i as int) =~= iv);
    out
}

/// The hash recorded for prefix `p`: that of the last node with that
/// prefix (as a map built from the nodes keeps), if any.
pub open spec fn node_hash_at(nodes: Seq<MerkleNode>, p: Seq<char>) -> Option<Seq<char>>
    decreases nodes.len(),
{
    if nodes.len() == 0 {
        None
    } else if nodes.last().prefix@ == p {
        Some(nodes.last().hash@)
    } else {
        node_hash_at(nodes.drop_last(), p)
    }
}

/// Prefix `p` is out of sync between two digests.
pub open spec fn prefix_differs(a: MerkleDigest, b: MerkleDigest, p: Seq<char>) -> bool {
    a.root_hash@ != b.root_hash@ && node_hash_at(a.nodes@, p) != node_hash_at(b.nodes@, p)
}

/// `r` lists the prefixes out of sync between `a` and `b`, each once, in
/// ascending order.
pub open spec fn lists_differing(a: MerkleDigest, b: MerkleDigest, r: Seq<Seq<char>>) -> bool {
    &&& forall|i: int, j: int| 0 <= i < j < r.len() ==> name_lt(#[trigger] r[i], #[trigger] r[j])
    &&& forall|i: int| 0 <= i < r.len() ==> prefix_differs(a, b, #[trigger] r[i])
    &&& forall|p: Seq<char>| prefix_differs(a, b, p) ==> r.contains(p)
}

/// Two ascending lists of names with the same members are equal.
proof fn lemma_ascending_names_equal(r1: Seq<Seq<char>>, r2: Seq<Seq<char>>)
    requires
        forall|i: int, j: int| 0 <= i < j < r1.len() ==> name_lt(#[trigger] r1[i], #[trigger] r1[j]),
        forall|i: int, j: int| 0 <= i < j < r2.len() ==> name_lt(#[trigger] r2[i], #[trigger] r2[j]),
        forall|p: Seq<char>| r1.contains(p) <==> r2.contains(p),
    ensures
        r1 == r2,
    decreases r1.len(),
{
    if r1.len() == 0 {
        if r2.len() > 0 {
            assert(r2.contains(r2[0]));
        }
        assert(r1 =~= r2);
    } else {
        assert(r1.contains(r1[0]));
        assert(r2.len() > 0);
        assert(r2.contains(r2[0]));
        let j = choose|j: int| 0 <= j < r2.len() && r2[j] == r1[0];
        let i = choose|i: int| 0 <= i < r1.len() && r1[i] == r2[0];
        lemma_name_order(r1[0], r2[0], r1[0]);
        if j > 0 {
            assert(name_lt(r2[0], r2[j]));
            if i > 0 {
                assert(name_lt(r1[0], r1[i]));
            }
        }
        assert(r1[0] == r2[0]);
        let t1 = r1.drop_first();
        let t2 = r2.drop_first();
        assert forall|p: Seq<char>| t1.contains(p) <==> t2.contains(p) by {
            if t1.contains(p) {
                let a = choose|a: int| 0 <= a < t1.len() && t1[a] == p;
                assert(r1[a + 1] == p);
                assert(r1.contains(p));
                let b = choose|b: int| 0 <= b < r2.len() && r2[b] == p;
                assert(name_lt(r1[0], r1[a + 1]));
                lemma_name_order(p, p, p);
                assert(b != 0);
                assert(t2[b - 1] == p);
            }
            if t2.contains(p) {
                let b = choose|b: int| 0 <= b < t2.len() && t2[b] == p;
                assert(r2[b + 1] == p);
                assert(r2.contains(p));
                let a = choose|a: int| 0 <= a < r1.len() && r1[a] == p;
                assert(name_lt(r2[0], r2[b + 1]));
                lemma_name_order(p, p, p);
                assert(a != 0);
                assert(t1[a - 1] == p);
            }
        }
        lemma_ascending_names_equal(t1, t2);
        assert(r1 =~= seq![r1[0]] + t1);
        assert(r2 =~= seq![r2[0]] + t2);
    }
}

/// Comparing two digests gives the same prefixes in either direction, and
/// none when their root hashes agree.
pub proof fn lemma_diff_prefixes_symmetric(a: MerkleDigest, b: MerkleDigest, r1: Seq<Seq<char>>, r2: Seq<Seq<char>>)
    requires
        lists_differing(a, b, r1),
        lists_differing(b, a, r2),
    ensures
        r1 == r2,
        a.root_hash@ == b.root_hash@ ==> r1.len() == 0,
{
    assert forall|p: Seq<char>| r1.contains(p) <==> r2.contains(p) by {
        if r1.contains(p) {
            let i = choose|i: int| 0 <= i < r1.len() && r1[i] == p;
            assert(prefix_differs(a, b, r1[i]));
            assert(prefix_differs(b, a, p));
        }
        if r2.contains(p) {
            let i = choose|i: int| 0 <= i < r2.len() && r2[i] == p;
            assert(prefix_differs(b, a, r2[i]));
            assert(prefix_differs(a, b, p));
        }
    }
    lemma_ascending_names_equal(r1, r2);
    if a.root_hash@ == b.root_hash@ && r1.len() > 0 {
        assert(prefix_differs(a, b, r1[0]));
    }
}

proof fn lemma_node_hash_at_some(nodes: Seq<MerkleNode>, p: Seq<char>)
    ensures
        node_hash_at(nodes, p) is Some <==> has_node_for(nodes, p),
    decreases nodes.len(),
{
    if nodes.len() > 0 {
        lemma_node_hash_at_some(nodes.drop_last(), p);
        if has_node_for(nodes, p) && nodes.last().prefix@ != p {
            let i = choose|i: int| 0 <= i < nodes.len() && #[trigger] nodes[i].prefix@ == p;
            assert(nodes.drop_last()[i].prefix@ == p);
        }
        if has_node_for(nodes.drop_last(), p) {
            let i = choose|i: int| 0 <= i < nodes.len() - 1 && #[trigger] nodes.drop_last()[i].prefix@ == p;
            assert(nodes[i].prefix@ == p);
        }
    }
}

/// The hash recorded for prefix `p` in `nodes`.
fn lookup_hash(nodes: &Vec<MerkleNode>, p: &String) -> (r: Option<String>)
    ensures
        match r {
            Some(h) => node_hash_at(nodes@, p@) == Some(h@),
            None => node_hash_at(nodes@, p@) is None,
        },
{
    let mut i = nodes.len();
    assert(nodes@.take(i as int) =~= nodes@);
    while i > 0
        invariant
            i <= nodes@.len(),
            node_hash_at(nodes@, p@) == node_hash_at(nodes@.take(i as int), p@),
        decreases i,
    {
        let ghost t = nodes@.take(i as int);
        assert(t.last() == nodes@[i - 1]);
        assert(t.drop_last() =~= nodes@.take(i - 1));
        if nodes[i - 1].prefix == *p {
            return Some(nodes[i - 1].hash.clone());
        }
        i = i - 1;
    }
    None
}

/// Records every prefix of `nodes` as a key of `keys`.
fn add_prefixes(keys: &mut NodeCounts, nodes: &Vec<MerkleNode>)
    requires
        old(keys).wf(),
    ensures
        final(keys).wf(),
        forall|p: Seq<char>| #[trigger] final(keys)@.contains_key(p) <==> old(keys)@.contains_key(p) || has_node_for(nodes@, p),
{
    let ghost start = keys@;
    let mut i: usize = 0;
    while i < nodes.len()
        invariant
            i <= nodes@.len(),
            keys.wf(),
            forall|p: Seq<char>| #[trigger] keys@.contains_key(p) <==> start.contains_key(p) || has_node_for(nodes@.take(i as int), p),
        decreases nodes.len() - i,
    {
        let k = NodeId(nodes[i].prefix.clone());
        keys.set(&k, 0);
        proof {
            assert forall|p: Seq<char>| #[trigger] keys@.contains_key(p) <==> start.contains_key(p) || has_node_for(nodes@.take(i + 1), p) by {
                if has_node_for(nodes@.take(i + 1), p) && p != k.name() {
                    let j = choose|j: int| 0 <= j < i + 1 && #[trigger] nodes@.take(i + 1)[j].prefix@ == p;
                    assert(nodes@.take(i as int)[j] == nodes@[j]);
                }
                if has_node_for(nodes@.take(i as int), p) {
                    let j = choose|j: int| 0 <= j < i && #[trigger] nodes@.take(i as int)[j].prefix@ == p;
                    assert(nodes@.take(i + 1)[j] == nodes@[j]);
                }
                if p == k.name() {
                    assert(nodes@.take(i + 1)[i as int].prefix@ == p);
                }
            }
        }
        i = i + 1;
    }
    assert(nodes@.take(i as int) =~= nodes@);
}

impl MerkleDigest {
    /// The prefixes whose hashes differ between two digests, in order; none
    /// when the root hashes agree.
    pub fn diff_prefixes(&self, other: &MerkleDigest) -> (r: Vec<String>)
        ensures
            forall|i: int, j: int| 0 <= i < j < r@.len() ==> name_lt(#[trigger] r@[i]@, #[trigger] r@[j]@),
            forall|i: int| 0 <= i < r@.len() ==> prefix_differs(*self, *other, #[trigger] r@[i]@),
            forall|p: Seq<char>| prefix_differs(*self, *other, p) ==> exists|i: int| 0 <= i < r@.len() && #[trigger] r@[i]@ == p,
            lists_differing(*self, *other, r@.map_values(|x: String| x@)),
    {
        if self.root_hash == other.root_hash {
            return Vec::new();
        }
        let mut keys = NodeCounts::new();
        add_prefixes(&mut keys, &self.nodes);
        add_prefixes(&mut keys, &other.nodes);
        proof {
            keys.lemma_ordered();
        }
        let ordered = keys.to_vec();
        let ghost o = keys.ordered();
        let mut out: Vec<String> = Vec::new();
        let ghost mut picked: Seq<int> = Seq::empty();
        let mut j: usize = 0;
        while j < ordered.len()
            invariant
                j <= ordered@.len(),
                abstract_entries(ordered@) == o,
                o == keys.ordered(),
                keys.wf(),
                out@.len() == picked.len(),
                forall|a: int| 0 <= a < picked.len() ==> 0 <= #[trigger] picked[a] < j && out@[a]@ == o[picked[a]].0,
                forall|a: int, b: int| 0 <= a < b < picked.len() ==> #[trigger] picked[a] < #[trigger] picked[b],
                forall|a: int| 0 <= a < out@.len() ==> prefix_differs(*self, *other, #[trigger] out@[a]@),
                forall|c: int| 0 <= c < j && prefix_differs(*self, *other, #[trigger] o[c].0) ==> exists|a: int| 0 <= a < out@.len() && #[trigger] out@[a]@ == o[c].0,
                self.root_hash@ != other.root_hash@,
            decreases ordered.len() - j,
        {
            let p = ordered[j].0.to_string();
            assert(abstract_entries(ordered@)[j as int] == (ordered@[j as int].0.name(), ordered@[j as int].1));
            let mine = lookup_hash(&self.nodes, &p);
            let theirs = lookup_hash(&other.nodes, &p);
            let ghost old_out = out@;
            let same = match (&mine, &theirs) {
                (Some(a), Some(b)) => *a == *b,
                (None, None) => true,
                _ => false,
            };
            if !same {
                out.push(p);
                proof {
                    picked = picked.push(j as int);
                    assert(out@[out@.len() - 1]@ == o[j as int].0);
                }
            }
            proof {
                assert forall|c: int| 0 <= c < j + 1 && prefix_differs(*self, *other, #[trigger] o[c].0) implies exists|a: int| 0 <= a < out@.len() && #[trigger] out@[a]@ == o[c].0 by {
                    if c == j {
                        assert(!same);
                        assert(out@[out@.len() - 1]@ == o[c].0);
                    } else {
                        let a = choose|a: int| 0 <= a < old_out.len() && #[trigger] old_out[a]@ == o[c].0;
                        assert(out@[a] == old_out[a]);
                    }
                }
            }
            j = j + 1;
        }
        proof {
            assert forall|a: int, b: int| 0 <= a < b < out@.len() implies name_lt(#[trigger] out@[a]@, #[trigger] out@[b]@) by {
                assert(picked[a] < picked[b]);
            }
            assert forall|p: Seq<char>| prefix_differs(*self, *other, p) implies exists|a: int| 0 <= a < out@.len() && #[trigger] out@[a]@ == p by {
                lemma_node_hash_at_some(self.nodes@, p);
                lemma_node_hash_at_some(other.nodes@, p);
                assert(keys@.contains_key(p));
                let c = choose|c: int| 0 <= c < o.len() && o[c].0 == p;
                assert(prefix_differs(*self, *other, o[c].0));
            }
            let names = out@.map_values(|x: String| x@);
            assert forall|a: int, b: int| 0 <= a < b < names.len() implies name_lt(#[trigger] names[a], #[trigger] names[b]) by {
                assert(name_lt(out@[a]@, out@[b]@));
            }
            assert forall|a: int| 0 <= a < names.len() implies prefix_differs(*self, *other, #[trigger] names[a]) by {
                assert(prefix_differs(*self, *other, out@[a]@));
            }
            assert forall|p: Seq<char>| prefix_differs(*self, *other, p) implies names.contains(p) by {
                let a = choose|a: int| 0 <= a < out@.len() && #[trigger] out@[a]@ == p;
                assert(names[a] == p);
            }
        }
        out
    }

    /// Digest of a set of (key, hash) pairs computed at time `at`: the root
    /// hashes all item hashes in order; one node per bucket (first character
    /// of the key) hashes the item hashes of that bucket.
    pub fn from_items_at(
        resource_type: DeltaResourceType,
        user_id: Option<u128>,
        items: &[(String, String)],
        at: UtcTime,
    ) -> (r: MerkleDigest)
        ensures
            r.resource_type == resource_type,
            r.user_id == user_id,
            r.computed_at == at,
            r.total_items == items@.len(),
            r.root_hash@ == digest_root(items_view(items@)),
            digest_nodes_of(r.nodes@, items_view(items@)),
    {
        let ghost iv = items_view(items@);
        if items.len() == 0 {
            let root = compute_sha256("empty");
            let r = MerkleDigest {
                resource_type,
                user_id,
                root_hash: root,
                total_items: 0,
                computed_at: at,
                nodes: Vec::new(),
            };
            return r;
        }
        let all = collect_hash_bytes(items, None);
        let root_hash = sha256_hex(all.as_slice());

        // Count the items of each bucket, in bucket order.
        let mut counts = NodeCounts::new();
        let mut i: usize = 0;
        proof {
            assert(iv.take(0) =~= Seq::<(Seq<char>, Seq<char>)>::empty());
            assert(bucket_counts(iv.take(0)) =~= Map::<Seq<char>, u64>::empty());
        }
        while i < items.len()
            invariant
                i <= items@.len(),
                iv == items_view(items@),
                counts.wf(),
                counts@ == bucket_counts(iv.take(i as int)),
            decreases items.len() - i,
        {
            let key = NodeId(bucket_of(&items[i].0));
            let c = counts.get(&key);
            proof {
                lemma_bucket_count_bound(iv.take(i as int), key.name());
            }
            counts.set(&key, c + 1);
            proof {
                let t = iv.take(i + 1);
                assert(t.drop_last() =~= iv.take(i as int));
                assert(t.last().0 == items@[i as int].0@);
                assert(counts@ =~= bucket_counts(t));
            }
            i = i + 1;
        }
        proof {
            assert(iv.take(i as int) =~= iv);
            counts.lemma_ordered();
        }
        let ordered = counts.to_vec();
        let mut nodes: Vec<MerkleNode> = Vec::new();
        let mut j: usize = 0;
        while j < ordered.len()
            invariant
                j <= ordered@.len(),
                abstract_entries(ordered@) == counts.ordered(),
                counts@ == bucket_counts(iv),
                iv == items_view(items@),
                nodes@.len() == j,
                forall|a: int| 0 <= a < j ==> {
                    &&& (#[trigger] nodes@[a]).prefix@ == counts.ordered()[a].0
                    &&& nodes@[a].count == counts.ordered()[a].1
                    &&& nodes@[a].hash@ == hex_lower(sha256_spec(bucket_bytes(iv, nodes@[a].prefix@)))
                },
            decreases ordered.len() - j,
        {
            let prefix = ordered[j].0.to_string();
            let bytes = collect_hash_bytes(items, Some(&prefix));
            let hash = sha256_hex(bytes.as_slice());
            assert(abstract_entries(ordered@)[j as int] == (ordered@[j as int].0.name(), ordered@[j as int].1));
            nodes.push(MerkleNode { hash, prefix, count: ordered[j].1 });
            j = j + 1;
        }
        proof {
            let o = counts.ordered();
            assert(o.len() == nodes@.len());
            assert forall|a: int, b: int| 0 <= a < b < nodes@.len() implies name_lt(#[trigger] nodes@[a].prefix@, #[trigger] nodes@[b].prefix@) by {
                assert(name_lt(o[a].0, o[b].0));
            }
            assert forall|a: int| 0 <= a < nodes@.len() implies {
                &&& bucket_count(iv, #[trigger] nodes@[a].prefix@) > 0
                &&& nodes@[a].count == bucket_count(iv, nodes@[a].prefix@)
                &&& nodes@[a].hash@ == hex_lower(sha256_spec(bucket_bytes(iv, nodes@[a].prefix@)))
            } by {
                assert(counts@.contains_key(o[a].0));
                assert(counts@[o[a].0] == o[a].1);
                lemma_bucket_count_bound(iv, o[a].0);
            }
            assert forall|k: int| 0 <= k < iv.len() implies has_node_for(nodes@, key_bucket(#[trigger] iv[k].0)) by {
                lemma_bucket_of_member(iv, k);
                let p = key_bucket(iv[k].0);
                assert(counts@.contains_key(p));
                let a = choose|a: int| 0 <= a < o.len() && o[a].0 == p;
                assert(nodes@[a].prefix@ == p);
            }
            assert(digest_nodes_of(nodes@, iv));
        }
        MerkleDigest {
            resource_type,
            user_id,
            root_hash,
            total_items: items.len() as u64,
            computed_at: at,
            nodes,
        }
    }

    /// Digest of a set of (key, hash) pairs, stamped with the current time.
    pub fn from_items(resource_type: DeltaResourceType, user_id: Option<u128>, items: &[(String, String)]) -> (r: MerkleDigest)
        ensures
            r.resource_type == resource_type,
            r.user_id == user_id,
            r.total_items == items@.len(),
            r.root_hash@ == digest_root(items_view(items@)),
            digest_nodes_of(r.nodes@, items_view(items@)),
    {
        MerkleDigest::from_items_at(resource_type, user_id, items, now())
    }
}

} // verus!
