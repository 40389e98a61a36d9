//! The Merkle tree of the identity allowlist: leaves are the sorted keys
//! hashed with a domain separator, an odd layer is completed by repeating
//! its last hash, and membership proofs are the sibling hashes on the path
//! from a leaf to the root.

use vstd::prelude::*;
use vstd::utf8::encode_utf8;
use vstd::relations::{sorted_by, total_ordering};
use crate::digest::{hex_decode, hex_decoded, hex_digit, hex_encode, hex_lower, hex_value, sha256, sha256_spec};
use crate::sync::node::{bytes_less, lemma_name_order, name_lt};
use crate::text::{
    ascii_lowercase,
    ascii_lower, ascii_lower_exec, chars_of, contains_text, decimal, has_substring, owned, push_char,
    push_str, same_text, u64_to_decimal,
};

verus! {

// ─── Sorting of the keys ───────────────────────────────────────────

/// `k` inserted into `s` before the first element it orders before.
pub open spec fn insert_sorted(s: Seq<Seq<char>>, k: Seq<char>) -> Seq<Seq<char>>
    decreases s.len(),
{
    if s.len() == 0 {
        seq![k]
    } else if name_lt(k, s[0]) {
        seq![k] + s
    } else {
        seq![s[0]] + insert_sorted(s.drop_first(), k)
    }
}

/// The keys in `String` order (insertion sort, which is what a stable sort
/// yields).
pub open spec fn sort_names(ks: Seq<Seq<char>>) -> Seq<Seq<char>>
    decreases ks.len(),
{
    if ks.len() == 0 {
        Seq::empty()
    } else {
        insert_sorted(sort_names(ks.drop_last()), ks.last())
    }
}

/// No element orders before an earlier one.
pub open spec fn names_sorted(s: Seq<Seq<char>>) -> bool {
    forall|i: int, j: int| 0 <= i < j < s.len() ==> !name_lt(#[trigger] s[j], #[trigger] s[i])
}

pub open spec fn views_of(v: Seq<String>) -> Seq<Seq<char>> {
    v.map_values(|s: String| s@)
}

proof fn lemma_insert_sorted_at(s: Seq<Seq<char>>, k: Seq<char>, p: int)
    requires
        0 <= p <= s.len(),
        forall|q: int| 0 <= q < p ==> !name_lt(k, #[trigger] s[q]),
        p < s.len() ==> name_lt(k, s[p]),
    ensures
        insert_sorted(s, k) == s.insert(p, k),
    decreases s.len(),
{
    if s.len() == 0 {
        assert(s.insert(p, k) =~= seq![k]);
    } else if p == 0 {
        assert(s.insert(0, k) =~= seq![k] + s);
    } else {
        assert forall|q: int| 0 <= q < p - 1 implies !name_lt(k, #[trigger] s.drop_first()[q]) by {
            assert(s.drop_first()[q] == s[q + 1]);
        }
        lemma_insert_sorted_at(s.drop_first(), k, p - 1);
        assert(s.insert(p, k) =~= seq![s[0]] + s.drop_first().insert(p - 1, k));
    }
}

proof fn lemma_insert_keeps_sorted(s: Seq<Seq<char>>, k: Seq<char>, p: int)
    requires
        names_sorted(s),
        0 <= p <= s.len(),
        forall|q: int| 0 <= q < p ==> !name_lt(k, #[trigger] s[q]),
        p < s.len() ==> name_lt(k, s[p]),
    ensures
        names_sorted(s.insert(p, k)),
{
    let t = s.insert(p, k);
    assert forall|i: int, j: int| 0 <= i < j < t.len() implies !name_lt(#[trigger] t[j], #[trigger] t[i]) by {
        if i < p && j == p {
            lemma_name_order(t[j], t[i], t[i]);
            assert(t[i] == s[i]);
            if name_lt(k, s[i]) {
                assert(false);
            }
        } else if i == p && j > p {
            assert(t[j] == s[j - 1]);
            assert(t[i] == k);
            if j - 1 > p {
                assert(!name_lt(s[j - 1], s[p]));
            } else {
                lemma_name_order(s[p], s[p], s[p]);
            }
            lemma_name_order(k, s[p], s[j - 1]);
            lemma_name_order(s[p], s[j - 1], k);
            lemma_name_order(s[j - 1], k, s[p]);
            lemma_name_order(k, s[j - 1], s[j - 1]);
        } else if i < p && j > p {
            assert(t[i] == s[i]);
            assert(t[j] == s[j - 1]);
        } else if j < p {
            assert(t[i] == s[i]);
            assert(t[j] == s[j]);
        } else {
            assert(t[i] == s[i - 1]);
            assert(t[j] == s[j - 1]);
        }
    }
}

/// The sorted keys are in `String` order.
pub proof fn lemma_sort_names_sorted(ks: Seq<Seq<char>>)
    ensures
        names_sorted(sort_names(ks)),
        sort_names(ks).len() == ks.len(),
    decreases ks.len(),
{
    if ks.len() > 0 {
        let s = sort_names(ks.drop_last());
        lemma_sort_names_sorted(ks.drop_last());
        let k = ks.last();
        let p = first_after(s, k);
        lemma_first_after(s, k);
        lemma_insert_sorted_at(s, k, p);
        lemma_insert_keeps_sorted(s, k, p);
    }
}

proof fn lemma_insert_sorted_multiset(s: Seq<Seq<char>>, k: Seq<char>)
    ensures
        insert_sorted(s, k).to_multiset() == s.to_multiset().insert(k),
    decreases s.len(),
{
    broadcast use vstd::multiset::group_multiset_axioms;
    broadcast use vstd::seq_lib::group_to_multiset_ensures;

    let one = seq![k];
    assert(one =~= Seq::<Seq<char>>::empty().push(k));
    if s.len() == 0 {
        assert(insert_sorted(s, k) == one);
        assert(s.to_multiset() =~= vstd::multiset::Multiset::empty());
    } else if name_lt(k, s[0]) {
        vstd::seq_lib::lemma_multiset_commutative(one, s);
        assert(one.to_multiset().add(s.to_multiset()) =~= s.to_multiset().insert(k));
    } else {
        let h = seq![s[0]];
        assert(h =~= Seq::<Seq<char>>::empty().push(s[0]));
        lemma_insert_sorted_multiset(s.drop_first(), k);
        vstd::seq_lib::lemma_multiset_commutative(h, insert_sorted(s.drop_first(), k));
        vstd::seq_lib::lemma_multiset_commutative(h, s.drop_first());
        assert(h + s.drop_first() =~= s);
        assert(h.to_multiset().add(s.drop_first().to_multiset().insert(k)) =~= h.to_multiset().add(s.drop_first().to_multiset()).insert(k));
    }
}

proof fn lemma_sort_names_multiset(ks: Seq<Seq<char>>)
    ensures
        sort_names(ks).to_multiset() == ks.to_multiset(),
    decreases ks.len(),
{
    broadcast use vstd::seq_lib::group_to_multiset_ensures;

    if ks.len() == 0 {
        assert(sort_names(ks) =~= ks);
    } else {
        lemma_sort_names_multiset(ks.drop_last());
        lemma_insert_sorted_multiset(sort_names(ks.drop_last()), ks.last());
        assert(ks.drop_last().push(ks.last()) =~= ks);
    }
}

/// Sorting keys does not depend on their arrangement: any two arrangements
/// of the same keys sort to the same sequence, so trees built over them have
/// the same leaves and root.
pub proof fn lemma_sort_names_permutation(a: Seq<Seq<char>>, b: Seq<Seq<char>>)
    requires
        a.to_multiset() == b.to_multiset(),
    ensures
        sort_names(a) == sort_names(b),
{
    let leq = |x: Seq<char>, y: Seq<char>| !name_lt(y, x);
    assert(total_ordering(leq)) by {
        assert forall|x: Seq<char>, y: Seq<char>, z: Seq<char>| #[trigger] leq(x, y) && #[trigger] leq(y, z) implies leq(x, z) by {
            lemma_name_order(z, x, y);
            lemma_name_order(x, y, z);
        }
        assert forall|x: Seq<char>, y: Seq<char>| #[trigger] leq(x, y) && #[trigger] leq(y, x) implies x == y by {
            lemma_name_order(x, y, x);
        }
        assert forall|x: Seq<char>, y: Seq<char>| #[trigger] leq(x, y) || #[trigger] leq(y, x) by {
            lemma_name_order(x, y, x);
        }
        assert forall|x: Seq<char>| #[trigger] leq(x, x) by {
            lemma_name_order(x, x, x);
        }
    }
    lemma_sort_names_sorted(a);
    lemma_sort_names_sorted(b);
    lemma_sort_names_multiset(a);
    lemma_sort_names_multiset(b);
    assert(sorted_by(sort_names(a), leq));
    assert(sorted_by(sort_names(b), leq));
    vstd::seq_lib::lemma_sorted_unique(sort_names(a), sort_names(b), leq);
}

/// The first position whose element `k` orders before, or the length.
pub open spec fn first_after(s: Seq<Seq<char>>, k: Seq<char>) -> int
    decreases s.len(),
{
    if s.len() == 0 {
        0
    } else if name_lt(k, s[0]) {
        0
    } else {
        1 + first_after(s.drop_first(), k)
    }
}

proof fn lemma_first_after(s: Seq<Seq<char>>, k: Seq<char>)
    ensures
        0 <= first_after(s, k) <= s.len(),
        forall|q: int| 0 <= q < first_after(s, k) ==> !name_lt(k, #[trigger] s[q]),
        first_after(s, k) < s.len() ==> name_lt(k, s[first_after(s, k)]),
    decreases s.len(),
{
    if s.len() > 0 && !name_lt(k, s[0]) {
        lemma_first_after(s.drop_first(), k);
        assert forall|q: int| 0 <= q < first_after(s, k) implies !name_lt(k, #[trigger] s[q]) by {
            if q > 0 {
                assert(s[q] == s.drop_first()[q - 1]);
            }
        }
    }
}

/// The keys in `String` order (`Vec::sort`).
pub fn sort_keys(keys: Vec<String>) -> (r: Vec<String>)
    ensures
        views_of(r@) == sort_names(views_of(keys@)),
{
    let mut r: Vec<String> = Vec::new();
    let mut i: usize = 0;
    proof {
        assert(views_of(keys@).take(0) =~= Seq::<Seq<char>>::empty());
        assert(views_of(r@) =~= Seq::<Seq<char>>::empty());
    }
    while i < keys.len()
        invariant
            i <= keys.len(),
            views_of(r@) == sort_names(views_of(keys@).take(i as int)),
        decreases keys.len() - i,
    {
        let k = &keys[i];
        let ghost s = views_of(r@);
        let mut p: usize = 0;
        while p < r.len() && !bytes_less(k.as_str().as_bytes(), r[p].as_str().as_bytes())
            invariant
                s == views_of(r@),
                p <= r.len(),
                forall|q: int| 0 <= q < p ==> !name_lt(k@, #[trigger] s[q]),
            decreases r.len() - p,
        {
            p = p + 1;
        }
        proof {
            lemma_insert_sorted_at(s, k@, p as int);
            assert(views_of(keys@).take(i + 1).drop_last() =~= views_of(keys@).take(i as int));
            assert(views_of(keys@).take(i + 1).last() == k@);
        }
        r.insert(p, k.clone());
        proof {
            assert(views_of(r@) =~= s.insert(p as int, k@));
        }
        i = i + 1;
    }
    proof {
        assert(views_of(keys@).take(keys@.len() as int) =~= views_of(keys@));
    }
    r
}

// ─── Hashes ────────────────────────────────────────────────────────

/// The bytes of `leaf:`.
pub open spec fn leaf_tag() -> Seq<u8> {
    seq![108u8, 101u8, 97u8, 102u8, 58u8]
}

/// The bytes of `node:`.
pub open spec fn node_tag() -> Seq<u8> {
    seq![110u8, 111u8, 100u8, 101u8, 58u8]
}

/// Hash of a leaf: `SHA256("leaf:" || key)`.
pub open spec fn leaf_digest(key: Seq<char>) -> Seq<u8> {
    sha256_spec(leaf_tag() + encode_utf8(key))
}

/// Hash of an inner node: `SHA256("node:" || left || right)`.
pub open spec fn node_digest(l: Seq<u8>, r: Seq<u8>) -> Seq<u8> {
    sha256_spec(node_tag() + l + r)
}

fn append_bytes(v: &mut Vec<u8>, b: &[u8])
    ensures
        final(v)@ == old(v)@ + b@,
{
    let mut i: usize = 0;
    let ghost v0 = v@;
    while i < b.len()
        invariant
            i <= b.len(),
            v@ == v0 + b@.take(i as int),
        decreases b.len() - i,
    {
        v.push(b[i]);
        proof {
            assert(b@.take(i + 1) =~= b@.take(i as int).push(b@[i as int]));
        }
        i = i + 1;
    }
    proof {
        assert(b@.take(b@.len() as int) =~= b@);
    }
}

fn copy_bytes(b: &Vec<u8>) -> (r: Vec<u8>)
    ensures
        r@ == b@,
{
    let mut r: Vec<u8> = Vec::new();
    append_bytes(&mut r, b.as_slice());
    proof {
        assert(Seq::<u8>::empty() + b@ =~= b@);
    }
    r
}

fn leaf_hash(key: &str) -> (r: Vec<u8>)
    ensures
        r@ == leaf_digest(key@),
        r@.len() == 32,
{
    let mut buf: Vec<u8> = vec![108u8, 101u8, 97u8, 102u8, 58u8];
    proof {
        assert(buf@ =~= leaf_tag());
    }
    append_bytes(&mut buf, key.as_bytes());
    sha256(buf.as_slice())
}

fn node_hash(l: &Vec<u8>, r: &Vec<u8>) -> (h: Vec<u8>)
    ensures
        h@ == node_digest(l@, r@),
        h@.len() == 32,
{
    let mut buf: Vec<u8> = vec![110u8, 111u8, 100u8, 101u8, 58u8];
    proof {
        assert(buf@ =~= node_tag());
    }
    append_bytes(&mut buf, l.as_slice());
    append_bytes(&mut buf, r.as_slice());
    sha256(buf.as_slice())
}

// ─── Layers ────────────────────────────────────────────────────────

/// A layer of odd length completed by repeating its last hash.
pub open spec fn pad_even(h: Seq<Seq<u8>>) -> Seq<Seq<u8>> {
    if h.len() % 2 == 1 {
        h.push(h.last())
    } else {
        h
    }
}

/// The layer above: each pair hashed together, a lone last hash paired
/// with itself.
pub open spec fn parent_layer(cur: Seq<Seq<u8>>) -> Seq<Seq<u8>> {
    Seq::new(
        ((cur.len() + 1) / 2) as nat,
        |j: int| if 2 * j + 1 < cur.len() { node_digest(cur[2 * j], cur[2 * j + 1]) } else { node_digest(cur[2 * j], cur[2 * j]) },
    )
}

/// The layers from `cur` up to a layer of at most one hash.
pub open spec fn layers_from(cur: Seq<Seq<u8>>) -> Seq<Seq<Seq<u8>>>
    decreases cur.len(),
{
    if cur.len() <= 1 {
        seq![cur]
    } else {
        seq![cur] + layers_from(parent_layer(cur))
    }
}

/// The layers of the tree over the sorted keys.
pub open spec fn tree_layers(sorted: Seq<Seq<char>>) -> Seq<Seq<Seq<u8>>> {
    layers_from(pad_even(sorted.map_values(|k: Seq<char>| leaf_digest(k))))
}

/// The root hash: the hash of the top layer, or 32 zero bytes for no keys.
pub open spec fn root_digest(layers: Seq<Seq<Seq<u8>>>) -> Seq<u8> {
    if layers.len() > 0 && layers.last().len() > 0 {
        layers.last()[0]
    } else {
        Seq::new(32, |i: int| 0u8)
    }
}

/// The hexadecimal root of the tree over the sorted keys.
pub open spec fn root_text(sorted: Seq<Seq<char>>) -> Seq<char> {
    hex_lower(root_digest(tree_layers(sorted)))
}

pub open spec fn layer_view(l: Vec<Vec<u8>>) -> Seq<Seq<u8>> {
    l@.map_values(|h: Vec<u8>| h@)
}

pub open spec fn layers_view(ls: Seq<Vec<Vec<u8>>>) -> Seq<Seq<Seq<u8>>> {
    ls.map_values(|l: Vec<Vec<u8>>| layer_view(l))
}

/// Every hash of every layer is 32 bytes long.
pub open spec fn all_digests(ls: Seq<Seq<Seq<u8>>>) -> bool {
    forall|l: int, j: int| 0 <= l < ls.len() && 0 <= j < ls[l].len() ==> (#[trigger] ls[l][j]).len() == 32
}

proof fn lemma_layers_from_shape(cur: Seq<Seq<u8>>)
    ensures
        layers_from(cur).len() >= 1,
        layers_from(cur)[0] == cur,
        layers_from(cur).last().len() <= 1,
        cur.len() >= 1 ==> layers_from(cur).last().len() == 1,
        forall|l: int| 0 <= l < layers_from(cur).len() - 1 ==>
            #[trigger] layers_from(cur)[l + 1] == parent_layer(layers_from(cur)[l])
            && layers_from(cur)[l].len() > 1,
    decreases cur.len(),
{
    if cur.len() > 1 {
        let p = parent_layer(cur);
        lemma_layers_from_shape(p);
        let rest = layers_from(p);
        assert(layers_from(cur) == seq![cur] + rest);
        assert forall|l: int| 0 <= l < layers_from(cur).len() - 1 implies
            #[trigger] layers_from(cur)[l + 1] == parent_layer(layers_from(cur)[l])
            && layers_from(cur)[l].len() > 1 by {
            if l > 0 {
                assert(layers_from(cur)[l] == rest[l - 1]);
                assert(layers_from(cur)[l + 1] == rest[l]);
                let l1 = l - 1;
                assert(rest[l1 + 1] == parent_layer(rest[l1]) && rest[l1].len() > 1);
            } else {
                assert(layers_from(cur)[0] == cur);
                assert(layers_from(cur)[1] == rest[0]);
            }
        }
    }
}

/// The Merkle tree of the identity allowlist.
#[derive(Clone, Debug)]
pub struct AllowlistMerkleTree {
    /// The root hash, in lowercase hexadecimal.
    pub root: String,
    /// The sorted keys.
    pub leaves: Vec<String>,
    /// All layers, leaves first, root last.
    pub layers: Vec<Vec<Vec<u8>>>,
}

impl AllowlistMerkleTree {
    /// The tree is the one built over its sorted leaves.
    pub closed spec fn wf(&self) -> bool {
        &&& names_sorted(views_of(self.leaves@))
        &&& layers_view(self.layers@) == tree_layers(views_of(self.leaves@))
        &&& all_digests(layers_view(self.layers@))
        &&& self.root@ == root_text(views_of(self.leaves@))
    }

    /// Build a tree over the given keys, which are sorted first.
    pub fn from_keys(keys: Vec<String>) -> (r: AllowlistMerkleTree)
        ensures
            r.wf(),
            views_of(r.leaves@) == sort_names(views_of(keys@)),
            r.root@ == root_text(sort_names(views_of(keys@))),
    {
        let sorted = sort_keys(keys);
        let ghost ks = views_of(sorted@);
        proof {
            lemma_sort_names_sorted(views_of(keys@));
        }
        let mut leaf_hashes: Vec<Vec<u8>> = Vec::new();
        let mut i: usize = 0;
        while i < sorted.len()
            invariant
                ks == views_of(sorted@),
                i <= sorted.len(),
                layer_view(leaf_hashes) =~= ks.take(i as int).map_values(|k: Seq<char>| leaf_digest(k)),
                forall|j: int| 0 <= j < leaf_hashes@.len() ==> (#[trigger] leaf_hashes@[j])@.len() == 32,
            decreases sorted.len() - i,
        {
            let h = leaf_hash(sorted[i].as_str());
            let ghost lv0 = layer_view(leaf_hashes);
            leaf_hashes.push(h);
            proof {
                assert(layer_view(leaf_hashes) =~= lv0.push(h@));
                assert(ks.take(i + 1) =~= ks.take(i as int).push(ks[i as int]));
            }
            i = i + 1;
        }
        proof {
            assert(ks.take(ks.len() as int) =~= ks);
        }
        if leaf_hashes.len() % 2 == 1 {
            let last = copy_bytes(&leaf_hashes[leaf_hashes.len() - 1]);
            leaf_hashes.push(last);
        }
        let ghost leaves0 = layer_view(leaf_hashes);
        assert(leaves0 =~= pad_even(ks.map_values(|k: Seq<char>| leaf_digest(k))));
        let mut layers: Vec<Vec<Vec<u8>>> = Vec::new();
        let mut current: Vec<Vec<u8>> = Vec::new();
        let mut j: usize = 0;
        while j < leaf_hashes.len()
            invariant
                j <= leaf_hashes.len(),
                layer_view(current) =~= layer_view(leaf_hashes).take(j as int),
                forall|q: int| 0 <= q < leaf_hashes@.len() ==> (#[trigger] leaf_hashes@[q])@.len() == 32,
                forall|q: int| 0 <= q < current@.len() ==> (#[trigger] current@[q])@.len() == 32,
            decreases leaf_hashes.len() - j,
        {
            let c = copy_bytes(&leaf_hashes[j]);
            let ghost lv0 = layer_view(current);
            current.push(c);
            proof {
                assert(layer_view(current) =~= lv0.push(c@));
                assert(layer_view(leaf_hashes).take(j + 1) =~= layer_view(leaf_hashes).take(j as int).push(leaf_hashes@[j as int]@));
            }
            j = j + 1;
        }
        layers.push(leaf_hashes);
        proof {
            assert(layer_view(current) =~= leaves0);
            assert(layers_view(layers@) =~= seq![leaves0]);
            lemma_layers_from_shape(leaves0);
            assert(layers_from(leaves0) =~= layers_view(layers@) + layers_from(layer_view(current)).drop_first());
        }
        while current.len() > 1
            invariant
                layers_from(leaves0) == layers_view(layers@) + layers_from(layer_view(current)).drop_first(),
                layers_view(layers@).len() >= 1,
                layers_view(layers@).last() == layer_view(current),
                all_digests(layers_view(layers@)),
                forall|q: int| 0 <= q < current@.len() ==> (#[trigger] current@[q])@.len() == 32,
            decreases current.len(),
        {
            let ghost cv = layer_view(current);
            let mut next: Vec<Vec<u8>> = Vec::new();
            let mut k: usize = 0;
            while k < current.len()
                invariant
                    cv == layer_view(current),
                    k <= current.len(),
                    k % 2 == 0 || k == current.len(),
                    layer_view(next) =~= parent_layer(cv).take(((k + 1) / 2) as int),
                    forall|q: int| 0 <= q < next@.len() ==> (#[trigger] next@[q])@.len() == 32,
                decreases current.len() - k,
            {
                let ghost lv0 = layer_view(next);
                let ghost m = (k / 2) as int;
                proof {
                    assert(parent_layer(cv).take(m + 1) =~= parent_layer(cv).take(m).push(parent_layer(cv)[m]));
                }
                if k + 1 < current.len() {
                    let h = node_hash(&current[k], &current[k + 1]);
                    next.push(h);
                    proof {
                        assert(layer_view(next) =~= lv0.push(h@));
                    }
                    k = k + 2;
                } else {
                    let h = node_hash(&current[k], &current[k]);
                    next.push(h);
                    proof {
                        assert(layer_view(next) =~= lv0.push(h@));
                    }
                    k = k + 1;
                }
            }
            proof {
                assert(layer_view(next) =~= parent_layer(cv));
            }
            let mut copy: Vec<Vec<u8>> = Vec::new();
            let mut q: usize = 0;
            while q < next.len()
                invariant
                    q <= next.len(),
                    layer_view(copy) =~= layer_view(next).take(q as int),
                    forall|t: int| 0 <= t < next@.len() ==> (#[trigger] next@[t])@.len() == 32,
                    forall|t: int| 0 <= t < copy@.len() ==> (#[trigger] copy@[t])@.len() == 32,
                decreases next.len() - q,
            {
                let c = copy_bytes(&next[q]);
                let ghost lv0 = layer_view(copy);
                copy.push(c);
                proof {
                    assert(layer_view(copy) =~= lv0.push(c@));
                    assert(layer_view(next).take(q + 1) =~= layer_view(next).take(q as int).push(next@[q as int]@));
                }
                q = q + 1;
            }
            let ghost before = layers_view(layers@);
            layers.push(next);
            proof {
                assert(layer_view(copy) =~= parent_layer(cv));
                assert(layers_view(layers@) =~= before.push(parent_layer(cv)));
                assert(layers_from(cv) =~= seq![cv] + layers_from(parent_layer(cv)));
                lemma_layers_from_shape(parent_layer(cv));
                assert(layers_from(cv).drop_first() =~= seq![parent_layer(cv)] + layers_from(parent_layer(cv)).drop_first());
                assert(layers_from(leaves0) =~= layers_view(layers@) + layers_from(parent_layer(cv)).drop_first());
                assert forall|l: int, t: int| 0 <= l < layers_view(layers@).len() && 0 <= t < layers_view(layers@)[l].len()
                    implies (#[trigger] layers_view(layers@)[l][t]).len() == 32 by {
                    if l < before.len() {
                        assert(layers_view(layers@)[l] == before[l]);
                    }
                }
            }
            current = copy;
        }
        proof {
            assert(layers_from(layer_view(current)).drop_first() =~= Seq::<Seq<Seq<u8>>>::empty());
            assert(layers_view(layers@) =~= layers_from(leaves0));
        }
        let root_hash: Vec<u8> = if current.len() > 0 {
            copy_bytes(&current[0])
        } else {
            let z = vec![0u8, 0u8, 0u8, 0u8, 0u8, 0u8, 0u8, 0u8, 0u8, 0u8, 0u8, 0u8, 0u8, 0u8, 0u8, 0u8,
                0u8, 0u8, 0u8, 0u8, 0u8, 0u8, 0u8, 0u8, 0u8, 0u8, 0u8, 0u8, 0u8, 0u8, 0u8, 0u8];
            proof {
                assert(z@ =~= Seq::new(32, |i: int| 0u8));
            }
            z
        };
        let root = hex_encode(root_hash.as_slice());
        AllowlistMerkleTree { root, leaves: sorted, layers }
    }
}


// ─── Membership proofs ─────────────────────────────────────────────

/// Which side the sibling is on in a proof path.
#[derive(Clone, Copy, PartialEq, Eq, Debug, Structural)]
pub enum SiblingPosition {
    Left,
    Right,
}

/// One sibling in a proof path.
#[derive(Clone, Debug)]
pub struct ProofSibling {
    /// The sibling hash in hexadecimal.
    pub hash: String,
    pub position: SiblingPosition,
}

/// Proof that a key is a leaf of the allowlist tree.
#[derive(Clone, Debug)]
pub struct AllowlistMembershipProof {
    /// The key being proved.
    pub key: String,
    /// Index of the leaf among the sorted keys.
    pub leaf_index: u32,
    /// Sibling hashes from the leaf up to the root.
    pub siblings: Vec<ProofSibling>,
    /// The root the proof targets.
    pub root: String,
}

/// Index of the node above leaf `idx` at layer `l`.
pub open spec fn idx_at(idx: nat, l: nat) -> nat
    decreases l,
{
    if l == 0 {
        idx
    } else {
        idx_at(idx, (l - 1) as nat) / 2
    }
}

/// The sibling of node `i` in a layer; the node itself where it has none.
pub open spec fn sibling_hash(layer: Seq<Seq<u8>>, i: nat) -> Seq<u8> {
    let s: int = if i % 2 == 0 { i as int + 1 } else { i as int - 1 };
    if s < layer.len() {
        layer[s]
    } else {
        layer[i as int]
    }
}

pub open spec fn sibling_pos(i: nat) -> SiblingPosition {
    if i % 2 == 0 {
        SiblingPosition::Right
    } else {
        SiblingPosition::Left
    }
}

/// The proof path of leaf `idx`: at each layer but the last, the sibling
/// hash in hexadecimal and its side.
pub open spec fn proof_path(layers: Seq<Seq<Seq<u8>>>, idx: nat) -> Seq<(Seq<char>, SiblingPosition)> {
    Seq::new(
        (layers.len() - 1) as nat,
        |l: int| (hex_lower(sibling_hash(layers[l], idx_at(idx, l as nat))), sibling_pos(idx_at(idx, l as nat))),
    )
}

pub open spec fn siblings_view(s: Seq<ProofSibling>) -> Seq<(Seq<char>, SiblingPosition)> {
    s.map_values(|x: ProofSibling| (x.hash@, x.position))
}

/// One step up the path.
pub open spec fn climb_step(cur: Seq<u8>, h: Seq<u8>, pos: SiblingPosition) -> Seq<u8> {
    match pos {
        SiblingPosition::Right => node_digest(cur, h),
        SiblingPosition::Left => node_digest(h, cur),
    }
}

/// The hash reached from `cur` along the siblings; `None` if a sibling is
/// not 32 bytes of hexadecimal.
pub open spec fn climb(cur: Seq<u8>, sibs: Seq<(Seq<char>, SiblingPosition)>) -> Option<Seq<u8>>
    decreases sibs.len(),
{
    if sibs.len() == 0 {
        Some(cur)
    } else {
        match hex_decoded(sibs[0].0) {
            Some(h) => if h.len() == 32 {
                climb(climb_step(cur, h, sibs[0].1), sibs.drop_first())
            } else {
                None
            },
            None => None,
        }
    }
}

/// The proof leads from its key's leaf hash to the given hexadecimal root.
pub open spec fn proof_verifies(root: Seq<char>, key: Seq<char>, sibs: Seq<(Seq<char>, SiblingPosition)>) -> bool {
    match climb(leaf_digest(key), sibs) {
        Some(h) => hex_lower(h) == root,
        None => false,
    }
}

/// Position of the first occurrence of `k`, if any.
pub open spec fn first_index(s: Seq<Seq<char>>, k: Seq<char>) -> Option<nat>
    decreases s.len(),
{
    if s.len() == 0 {
        None
    } else if s[0] == k {
        Some(0)
    } else {
        match first_index(s.drop_first(), k) {
            Some(i) => Some(i + 1),
            None => None,
        }
    }
}

proof fn lemma_first_index(s: Seq<Seq<char>>, k: Seq<char>)
    ensures
        match first_index(s, k) {
            Some(i) => i < s.len() && s[i as int] == k && forall|j: int| 0 <= j < i ==> #[trigger] s[j] != k,
            None => forall|j: int| 0 <= j < s.len() ==> #[trigger] s[j] != k,
        },
    decreases s.len(),
{
    if s.len() > 0 && s[0] != k {
        lemma_first_index(s.drop_first(), k);
        assert forall|j: int| 0 < j < s.len() implies #[trigger] s[j] == s.drop_first()[j - 1] by {}
    }
}

proof fn lemma_hex_digit_value(n: int)
    requires
        0 <= n < 16,
    ensures
        hex_value(hex_digit(n)) == Some(n as u8),
{
    let c = hex_digit(n);
    if n < 10 {
        assert(c as u32 == 48 + n);
    } else {
        assert(c as u32 == 97 + n - 10);
    }
}

/// Hexadecimal text decodes to the bytes it was made from.
pub proof fn lemma_hex_roundtrip(b: Seq<u8>)
    ensures
        hex_decoded(hex_lower(b)) == Some(b),
    decreases b.len(),
{
    if b.len() > 0 {
        let s = hex_lower(b);
        lemma_hex_roundtrip(b.drop_first());
        lemma_hex_digit_value((b[0] / 16) as int);
        lemma_hex_digit_value((b[0] % 16) as int);
        assert(s.skip(2) =~= hex_lower(b.drop_first()));
        assert(((b[0] / 16) * 16 + b[0] % 16) as u8 == b[0]);
        assert(seq![b[0]] + b.drop_first() =~= b);
    } else {
        assert(hex_lower(b) =~= Seq::<char>::empty());
    }
}

proof fn lemma_idx_in_range(layers: Seq<Seq<Seq<u8>>>, idx: nat, l: nat)
    requires
        layers.len() >= 1,
        forall|q: int| 0 <= q < layers.len() - 1 ==>
            #[trigger] layers[q + 1] == parent_layer(layers[q]) && layers[q].len() > 1,
        idx < layers[0].len(),
        l < layers.len(),
    ensures
        idx_at(idx, l) < layers[l as int].len(),
    decreases l,
{
    if l > 0 {
        lemma_idx_in_range(layers, idx, (l - 1) as nat);
        let q = l - 1;
        assert(layers[q + 1] == parent_layer(layers[q]));
    }
}

proof fn lemma_climb_path(layers: Seq<Seq<Seq<u8>>>, idx: nat, l: nat)
    requires
        layers.len() >= 1,
        forall|q: int| 0 <= q < layers.len() - 1 ==>
            #[trigger] layers[q + 1] == parent_layer(layers[q]) && layers[q].len() > 1,
        all_digests(layers),
        idx < layers[0].len(),
        l < layers.len(),
    ensures
        climb(layers[l as int][idx_at(idx, l) as int], proof_path(layers, idx).skip(l as int))
            == Some(layers.last()[idx_at(idx, (layers.len() - 1) as nat) as int]),
    decreases layers.len() - l,
{
    let path = proof_path(layers, idx);
    lemma_idx_in_range(layers, idx, l);
    if l == layers.len() - 1 {
        assert(path.skip(l as int) =~= Seq::<(Seq<char>, SiblingPosition)>::empty());
    } else {
        let i = idx_at(idx, l);
        let layer = layers[l as int];
        let cur = layer[i as int];
        let sib = sibling_hash(layer, i);
        let q = l as int;
        assert(layers[q + 1] == parent_layer(layers[q]));
        assert(path.skip(l as int)[0] == path[l as int]);
        assert(path.skip(l as int).drop_first() =~= path.skip(l as int + 1));
        lemma_hex_roundtrip(sib);
        let s = if i % 2 == 0 { i + 1 } else { (i - 1) as nat };
        if s < layer.len() {
            assert(sib == layer[s as int]);
        }
        assert(sib.len() == 32);
        let up = climb_step(cur, sib, sibling_pos(i));
        assert(up == parent_layer(layer)[(i / 2) as int]);
        assert(idx_at(idx, l + 1) == i / 2);
        lemma_climb_path(layers, idx, l + 1);
    }
}

impl AllowlistMerkleTree {
    /// Build a tree over the canonical allowlist.
    pub fn from_allowlist() -> (r: AllowlistMerkleTree)
        ensures
            r.wf(),
            views_of(r.leaves@) == sort_names(allowlist_words()),
            r.root@ == canonical_root(),
    {
        let words = identity_allowlist();
        let mut keys: Vec<String> = Vec::new();
        let mut i: usize = 0;
        while i < words.len()
            invariant
                i <= words.len(),
                words@.map_values(|w: &str| w@) == allowlist_words(),
                views_of(keys@) =~= allowlist_words().take(i as int),
            decreases words.len() - i,
        {
            let ghost k0 = views_of(keys@);
            keys.push(owned(words[i]));
            proof {
                assert(views_of(keys@) =~= k0.push(words@[i as int]@));
                assert(allowlist_words().take(i + 1) =~= allowlist_words().take(i as int).push(allowlist_words()[i as int]));
            }
            i = i + 1;
        }
        proof {
            assert(allowlist_words().take(words@.len() as int) =~= allowlist_words());
        }
        AllowlistMerkleTree::from_keys(keys)
    }

    /// The membership proof of a key: `None` if it is not a leaf; else the
    /// key, its first leaf index, the sibling on each layer but the root's,
    /// and the root.  Such a proof verifies against the root.
    pub fn prove(&self, key: &str) -> (r: Option<AllowlistMembershipProof>)
        requires
            self.wf(),
        ensures
            match first_index(views_of(self.leaves@), key@) {
                None => r is None,
                Some(idx) => r matches Some(p) && {
                    &&& p.key@ == key@
                    &&& p.leaf_index == idx as u32
                    &&& siblings_view(p.siblings@) == proof_path(layers_view(self.layers@), idx)
                    &&& p.root@ == self.root@
                    &&& proof_verifies(self.root@, key@, siblings_view(p.siblings@))
                },
            },
    {
        let ghost names = views_of(self.leaves@);
        let ghost ls = layers_view(self.layers@);
        proof {
            lemma_first_index(names, key@);
        }
        let mut idx: usize = 0;
        let mut found = false;
        while idx < self.leaves.len() && !found
            invariant
                names == views_of(self.leaves@),
                idx <= self.leaves.len(),
                found ==> idx < self.leaves.len() && names[idx as int] == key@,
                forall|j: int| 0 <= j < idx ==> #[trigger] names[j] != key@,
            decreases self.leaves.len() - idx + (if found { 0int } else { 1int }),
        {
            if same_text(self.leaves[idx].as_str(), key) {
                found = true;
            } else {
                idx = idx + 1;
            }
        }
        if !found {
            return None;
        }
        proof {
            assert(first_index(names, key@) == Some(idx as nat));
            lemma_layers_from_shape(pad_even(names.map_values(|k: Seq<char>| leaf_digest(k))));
            assert(ls[0] == pad_even(names.map_values(|k: Seq<char>| leaf_digest(k))));
            assert(idx < ls[0].len());
        }
        let mut siblings: Vec<ProofSibling> = Vec::new();
        let mut current_idx: usize = idx;
        let mut l: usize = 0;
        let top = self.layers.len() - 1;
        while l < top
            invariant
                ls == layers_view(self.layers@),
                top == ls.len() - 1,
                l <= top,
                current_idx == idx_at(idx as nat, l as nat),
                forall|q: int| 0 <= q < ls.len() - 1 ==>
                    #[trigger] ls[q + 1] == parent_layer(ls[q]) && ls[q].len() > 1,
                idx < ls[0].len(),
                siblings_view(siblings@) =~= proof_path(ls, idx as nat).take(l as int),
            decreases top - l,
        {
            let layer = &self.layers[l];
            proof {
                lemma_idx_in_range(ls, idx as nat, l as nat);
                assert(layer_view(*layer) == ls[l as int]);
            }
            let even = current_idx % 2 == 0;
            let sibling_idx = if even { current_idx + 1 } else { current_idx - 1 };
            let h = if sibling_idx < layer.len() { &layer[sibling_idx] } else { &layer[current_idx] };
            let sib = ProofSibling {
                hash: hex_encode(h.as_slice()),
                position: if even { SiblingPosition::Right } else { SiblingPosition::Left },
            };
            let ghost s0 = siblings_view(siblings@);
            siblings.push(sib);
            proof {
                assert(siblings_view(siblings@) =~= s0.push((sib.hash@, sib.position)));
                assert(proof_path(ls, idx as nat).take(l + 1) =~= proof_path(ls, idx as nat).take(l as int).push(proof_path(ls, idx as nat)[l as int]));
            }
            current_idx = current_idx / 2;
            l = l + 1;
        }
        proof {
            assert(proof_path(ls, idx as nat).take(top as int) =~= proof_path(ls, idx as nat));
            lemma_climb_path(ls, idx as nat, 0);
            assert(proof_path(ls, idx as nat).skip(0) =~= proof_path(ls, idx as nat));
            assert(ls[0][idx as int] == leaf_digest(key@));
            lemma_idx_in_range(ls, idx as nat, top as nat);
            assert(ls.last().len() == 1);
        }
        Some(AllowlistMembershipProof {
            key: owned(key),
            leaf_index: idx as u32,
            siblings,
            root: self.root.clone(),
        })
    }

    /// The proof leads to this tree's root.
    pub fn verify(&self, proof: &AllowlistMembershipProof) -> (r: bool)
        ensures
            r == proof_verifies(self.root@, proof.key@, siblings_view(proof.siblings@)),
    {
        AllowlistMerkleTree::verify_against_root(self.root.as_str(), proof)
    }

    /// The proof leads from the hash of its key to the given hexadecimal root.
    pub fn verify_against_root(root: &str, proof: &AllowlistMembershipProof) -> (r: bool)
        ensures
            r == proof_verifies(root@, proof.key@, siblings_view(proof.siblings@)),
    {
        let ghost sibs = siblings_view(proof.siblings@);
        let mut current = leaf_hash(proof.key.as_str());
        let mut i: usize = 0;
        proof {
            assert(sibs.skip(0) =~= sibs);
        }
        while i < proof.siblings.len()
            invariant
                sibs == siblings_view(proof.siblings@),
                i <= proof.siblings.len(),
                climb(leaf_digest(proof.key@), sibs) == climb(current@, sibs.skip(i as int)),
            decreases proof.siblings.len() - i,
        {
            let sibling = &proof.siblings[i];
            proof {
                assert(sibs.skip(i as int)[0] == (sibling.hash@, sibling.position));
                assert(sibs.skip(i as int).drop_first() =~= sibs.skip(i + 1));
            }
            let decoded = hex_decode(sibling.hash.as_str());
            let h = match decoded {
                Some(h) => h,
                None => {
                    return false;
                },
            };
            if h.len() != 32 {
                return false;
            }
            current = match sibling.position {
                SiblingPosition::Right => node_hash(&current, &h),
                SiblingPosition::Left => node_hash(&h, &current),
            };
            i = i + 1;
        }
        proof {
            assert(sibs.skip(i as int) =~= Seq::<(Seq<char>, SiblingPosition)>::empty());
        }
        let text = hex_encode(current.as_slice());
        same_text(text.as_str(), root)
    }
}

/// The allowlisted top-level keys of an identity core.
pub open spec fn allowlist_words() -> Seq<Seq<char>> {
    seq!["boundaries"@, "capabilities"@, "mission"@, "persona"@, "style"@, "values"@]
}

/// The root of the tree over the canonical allowlist.
pub open spec fn canonical_root() -> Seq<char> {
    root_text(sort_names(allowlist_words()))
}

/// The canonical allowlist of identity keys.
pub fn identity_allowlist() -> (r: Vec<&'static str>)
    ensures
        r@.map_values(|w: &str| w@) == allowlist_words(),
{
    let r = vec!["boundaries", "capabilities", "mission", "persona", "style", "values"];
    proof {
        assert(r@.map_values(|w: &str| w@) =~= allowlist_words());
    }
    r
}

// ─── Verifying an identity update ──────────────────────────────────

/// A JSON document as the identity checks read it: object members in the
/// order the document's map yields them; numbers by their text.
#[derive(Debug)]
pub enum JsonValue {
    Null,
    Bool(bool),
    Number(String),
    Str(String),
    Array(Vec<JsonValue>),
    Object(Vec<(String, JsonValue)>),
}

/// Substrings that no key may contain, at any depth, in ASCII lowercase.
pub open spec fn forbidden_words() -> Seq<Seq<char>> {
    seq!["address"@, "email"@, "episode"@, "external_id"@, "phone"@, "session"@, "user"@]
}

/// The forbidden substrings of identity keys.
pub fn identity_forbidden_substrings() -> (r: Vec<&'static str>)
    ensures
        r@.map_values(|w: &str| w@) == forbidden_words(),
{
    let r = vec!["address", "email", "episode", "external_id", "phone", "session", "user"];
    proof {
        assert(r@.map_values(|w: &str| w@) =~= forbidden_words());
    }
    r
}

/// The key contains a forbidden word once lowercased.
pub open spec fn key_is_forbidden(k: Seq<char>) -> bool {
    exists|i: int| 0 <= i < forbidden_words().len() && has_substring(ascii_lowercase(k), #[trigger] forbidden_words()[i])
}

/// The path of the first forbidden key, depth first, below `path`.
pub open spec fn forbidden_path(v: JsonValue, path: Seq<char>) -> Option<Seq<char>>
    decreases v, 0nat,
{
    match v {
        JsonValue::Object(entries) => forbidden_in_members(entries@, path, entries@.len()),
        JsonValue::Array(items) => forbidden_in_items(items@, path, items@.len()),
        _ => None,
    }
}

/// The first forbidden path among the first `n` members.
pub open spec fn forbidden_in_members(es: Seq<(String, JsonValue)>, path: Seq<char>, n: nat) -> Option<Seq<char>>
    decreases es, n,
{
    if n == 0 || n > es.len() {
        None
    } else {
        match forbidden_in_members(es, path, (n - 1) as nat) {
            Some(p) => Some(p),
            None => {
                let k = es[n - 1].0@;
                if key_is_forbidden(k) {
                    Some(path + k)
                } else {
                    forbidden_path(es[n - 1].1, path + k + "/"@)
                }
            },
        }
    }
}

/// The first forbidden path among the first `n` array items.
pub open spec fn forbidden_in_items(items: Seq<JsonValue>, path: Seq<char>, n: nat) -> Option<Seq<char>>
    decreases items, n,
{
    if n == 0 || n > items.len() {
        None
    } else {
        match forbidden_in_items(items, path, (n - 1) as nat) {
            Some(p) => Some(p),
            None => forbidden_path(items[n - 1], path + "["@ + decimal((n - 1) as nat) + "]/"@),
        }
    }
}

proof fn lemma_members_stay(es: Seq<(String, JsonValue)>, path: Seq<char>, m: nat, n: nat)
    requires
        m <= n <= es.len(),
        forbidden_in_members(es, path, m) is Some,
    ensures
        forbidden_in_members(es, path, n) == forbidden_in_members(es, path, m),
    decreases n - m,
{
    if m < n {
        lemma_members_stay(es, path, m, (n - 1) as nat);
    }
}

proof fn lemma_items_stay(items: Seq<JsonValue>, path: Seq<char>, m: nat, n: nat)
    requires
        m <= n <= items.len(),
        forbidden_in_items(items, path, m) is Some,
    ensures
        forbidden_in_items(items, path, n) == forbidden_in_items(items, path, m),
    decreases n - m,
{
    if m < n {
        lemma_items_stay(items, path, m, (n - 1) as nat);
    }
}

fn ascii_lowercase_exec(s: &str) -> (r: String)
    ensures
        r@ == ascii_lowercase(s@),
{
    let v = chars_of(s);
    let mut out = String::new();
    let mut i: usize = 0;
    while i < v.len()
        invariant
            v@ == s@,
            i <= v.len(),
            out@ =~= ascii_lowercase(s@).take(i as int),
        decreases v.len() - i,
    {
        push_char(&mut out, ascii_lower_exec(v[i]));
        i = i + 1;
    }
    out
}

fn key_is_forbidden_exec(k: &str) -> (r: bool)
    ensures
        r == key_is_forbidden(k@),
{
    let normalized = ascii_lowercase_exec(k);
    let words = identity_forbidden_substrings();
    let mut i: usize = 0;
    while i < words.len()
        invariant
            words@.map_values(|w: &str| w@) == forbidden_words(),
            normalized@ == ascii_lowercase(k@),
            i <= words.len(),
            forall|j: int| 0 <= j < i ==> !has_substring(ascii_lowercase(k@), #[trigger] forbidden_words()[j]),
        decreases words.len() - i,
    {
        proof {
            assert(forbidden_words()[i as int] == words@[i as int]@);
        }
        if contains_text(normalized.as_str(), words[i]) {
            return true;
        }
        i = i + 1;
    }
    false
}

fn concat3(a: &str, b: &str, c: &str) -> (r: String)
    ensures
        r@ == a@ + b@ + c@,
{
    let mut s = owned(a);
    push_str(&mut s, b);
    push_str(&mut s, c);
    s
}

/// The path of the first key, depth first, that contains a forbidden word
/// (ignoring ASCII case): `Err` with that path, `Ok` if there is none.
/// Object members extend the path with `key/`, array items with `[index]/`.
pub fn check_forbidden_substrings(value: &JsonValue, path: &str) -> (r: Result<(), String>)
    ensures
        match r {
            Ok(_) => forbidden_path(*value, path@) is None,
            Err(p) => forbidden_path(*value, path@) == Some(p@),
        },
    decreases value, 1nat,
{
    match value {
        JsonValue::Object(entries) => {
            proof {
                assert(decreases_to!(*value => *entries));
            }
            check_members(entries, path)
        },
        JsonValue::Array(items) => {
            proof {
                assert(decreases_to!(*value => *items));
            }
            check_items(items, path)
        },
        _ => Ok(()),
    }
}

fn check_members(entries: &Vec<(String, JsonValue)>, path: &str) -> (r: Result<(), String>)
    ensures
        match r {
            Ok(_) => forbidden_in_members(entries@, path@, entries@.len()) is None,
            Err(p) => forbidden_in_members(entries@, path@, entries@.len()) == Some(p@),
        },
    decreases entries, 0nat,
{
    let mut i: usize = 0;
    while i < entries.len()
        invariant
            i <= entries.len(),
            forbidden_in_members(entries@, path@, i as nat) is None,
        decreases entries.len() - i,
    {
        let k = &entries[i].0;
        if key_is_forbidden_exec(k.as_str()) {
            let p = concat3(path, k.as_str(), "");
            proof {
                assert(""@ =~= Seq::<char>::empty()) by {
                    reveal_strlit("");
                }
                assert(p@ =~= path@ + k@);
                lemma_members_stay(entries@, path@, (i + 1) as nat, entries@.len());
            }
            return Err(p);
        }
        let next = concat3(path, k.as_str(), "/");
        proof {
            assert(decreases_to!(*entries => entries@));
            assert(decreases_to!(entries@ => entries@[i as int]));
            assert(decreases_to!(entries@[i as int] => entries@[i as int].1));
        }
        match check_forbidden_substrings(&entries[i].1, next.as_str()) {
            Ok(_) => {},
            Err(p) => {
                proof {
                    lemma_members_stay(entries@, path@, (i + 1) as nat, entries@.len());
                }
                return Err(p);
            },
        }
        i = i + 1;
    }
    Ok(())
}

fn check_items(items: &Vec<JsonValue>, path: &str) -> (r: Result<(), String>)
    ensures
        match r {
            Ok(_) => forbidden_in_items(items@, path@, items@.len()) is None,
            Err(p) => forbidden_in_items(items@, path@, items@.len()) == Some(p@),
        },
    decreases items, 0nat,
{
    let mut i: usize = 0;
    while i < items.len()
        invariant
            i <= items.len(),
            items.len() <= u64::MAX,
            forbidden_in_items(items@, path@, i as nat) is None,
        decreases items.len() - i,
    {
        let mut next = concat3(path, "[", u64_to_decimal(i as u64).as_str());
        push_str(&mut next, "]/");
        proof {
            assert(decreases_to!(*items => items@));
            assert(decreases_to!(items@ => items@[i as int]));
        }
        match check_forbidden_substrings(&items[i], next.as_str()) {
            Ok(_) => {},
            Err(p) => {
                proof {
                    lemma_items_stay(items@, path@, (i + 1) as nat, items@.len());
                }
                return Err(p);
            },
        }
        i = i + 1;
    }
    Ok(())
}

/// Proofs for the top-level keys of a candidate identity core.
#[derive(Clone, Debug)]
pub struct IdentityUpdateProof {
    /// Root, in hexadecimal, the proofs are checked against.
    pub merkle_root: String,
    /// One membership proof per top-level key of the core.
    pub key_proofs: Vec<AllowlistMembershipProof>,
}

/// Request to replace an identity core, with proofs for its keys.
#[derive(Debug)]
pub struct VerifiedIdentityUpdateRequest {
    pub core: JsonValue,
    pub proof: IdentityUpdateProof,
}

/// Per-key result of the verification.
#[derive(Clone, Debug)]
pub struct KeyVerificationResult {
    pub key: String,
    pub valid: bool,
    /// Why the key failed, if it did.
    pub error: Option<String>,
}

/// Result of verifying an identity update.
#[derive(Clone, Debug)]
pub struct ProofVerificationResult {
    /// Every key result is valid.
    pub verified: bool,
    pub key_results: Vec<KeyVerificationResult>,
    /// The root used for verification.
    pub merkle_root: String,
}

/// A key result as values.
pub open spec fn key_result_view(r: KeyVerificationResult) -> (Seq<char>, bool, Option<Seq<char>>) {
    (r.key@, r.valid, match r.error {
        Some(e) => Some(e@),
        None => None,
    })
}

pub open spec fn key_results_view(rs: Seq<KeyVerificationResult>) -> Seq<(Seq<char>, bool, Option<Seq<char>>)> {
    rs.map_values(|r: KeyVerificationResult| key_result_view(r))
}

/// The first proof for key `k`.
pub open spec fn find_proof(proofs: Seq<AllowlistMembershipProof>, k: Seq<char>) -> Option<AllowlistMembershipProof>
    decreases proofs.len(),
{
    if proofs.len() == 0 {
        None
    } else if proofs[0].key@ == k {
        Some(proofs[0])
    } else {
        find_proof(proofs.drop_first(), k)
    }
}

/// The result for a key of the core.
pub open spec fn core_key_result(k: Seq<char>, proofs: Seq<AllowlistMembershipProof>) -> (Seq<char>, bool, Option<Seq<char>>) {
    match find_proof(proofs, k) {
        None => (k, false, Some("no proof provided for this key"@)),
        Some(p) => if proof_verifies(canonical_root(), p.key@, siblings_view(p.siblings@)) {
            (k, true, None)
        } else {
            (k, false, Some("Merkle proof verification failed"@))
        },
    }
}

pub open spec fn member_keys(es: Seq<(String, JsonValue)>) -> Seq<Seq<char>> {
    es.map_values(|e: (String, JsonValue)| e.0@)
}

/// Results for proofs of keys that the core does not have, in order.
pub open spec fn extra_proof_results(proofs: Seq<AllowlistMembershipProof>, keys: Seq<Seq<char>>) -> Seq<(Seq<char>, bool, Option<Seq<char>>)>
    decreases proofs.len(),
{
    if proofs.len() == 0 {
        Seq::empty()
    } else {
        let rest = extra_proof_results(proofs.drop_last(), keys);
        if keys.contains(proofs.last().key@) {
            rest
        } else {
            rest.push((proofs.last().key@, false, Some("proof provided for key not present in core"@)))
        }
    }
}

/// The result for a forbidden key anywhere in the core, if there is one.
pub open spec fn forbidden_results(core: JsonValue) -> Seq<(Seq<char>, bool, Option<Seq<char>>)> {
    match forbidden_path(core, "core/"@) {
        Some(fk) => seq![(fk, false, Some("forbidden substring detected at "@ + fk))],
        None => Seq::empty(),
    }
}

/// All key results of verifying an identity update.
pub open spec fn identity_key_results(core: JsonValue, proof: IdentityUpdateProof) -> Seq<(Seq<char>, bool, Option<Seq<char>>)> {
    if proof.merkle_root@ != canonical_root() {
        seq![("<merkle_root>"@, false, Some("proof merkle_root "@ + proof.merkle_root@ + " does not match canonical root "@ + canonical_root()))]
    } else {
        match core {
            JsonValue::Object(entries) =>
                member_keys(entries@).map_values(|k: Seq<char>| core_key_result(k, proof.key_proofs@))
                    + extra_proof_results(proof.key_proofs@, member_keys(entries@))
                    + forbidden_results(core),
            _ => seq![("<core>"@, false, Some("core must be a JSON object"@))],
        }
    }
}

pub open spec fn all_valid(rs: Seq<(Seq<char>, bool, Option<Seq<char>>)>) -> bool {
    forall|i: int| 0 <= i < rs.len() ==> (#[trigger] rs[i]).1
}

fn find_proof_exec(proofs: &Vec<AllowlistMembershipProof>, k: &str) -> (r: Option<usize>)
    ensures
        match r {
            None => find_proof(proofs@, k@) is None,
            Some(i) => i < proofs@.len() && find_proof(proofs@, k@) == Some(proofs@[i as int]),
        },
{
    let mut i: usize = 0;
    proof {
        assert(proofs@.skip(0) =~= proofs@);
    }
    while i < proofs.len()
        invariant
            i <= proofs.len(),
            find_proof(proofs@, k@) == find_proof(proofs@.skip(i as int), k@),
        decreases proofs.len() - i,
    {
        proof {
            assert(proofs@.skip(i as int)[0] == proofs@[i as int]);
            assert(proofs@.skip(i as int).drop_first() =~= proofs@.skip(i + 1));
        }
        if same_text(proofs[i].key.as_str(), k) {
            return Some(i);
        }
        i = i + 1;
    }
    None
}

fn key_listed(entries: &Vec<(String, JsonValue)>, k: &str) -> (r: bool)
    ensures
        r == member_keys(entries@).contains(k@),
{
    let mut i: usize = 0;
    while i < entries.len()
        invariant
            i <= entries.len(),
            forall|j: int| 0 <= j < i ==> #[trigger] member_keys(entries@)[j] != k@,
        decreases entries.len() - i,
    {
        if same_text(entries[i].0.as_str(), k) {
            assert(member_keys(entries@)[i as int] == k@);
            return true;
        }
        i = i + 1;
    }
    false
}

fn key_result(key: String, valid: bool, error: Option<String>) -> (r: KeyVerificationResult)
    ensures
        key_result_view(r) == (key@, valid, match error {
            Some(e) => Some(e@),
            None => None,
        }),
{
    KeyVerificationResult { key, valid, error }
}

/// Verify the proofs of an identity update against the canonical allowlist
/// root: the root must be the canonical one, the core must be an object,
/// every top-level key needs a valid membership proof, no proof may be for a
/// key the core lacks, and no key at any depth may contain a forbidden
/// word.
pub fn verify_identity_update_proof(core: &JsonValue, proof: &IdentityUpdateProof) -> (r: ProofVerificationResult)
    ensures
        key_results_view(r.key_results@) == identity_key_results(*core, *proof),
        r.verified == all_valid(identity_key_results(*core, *proof)),
        r.merkle_root@ == canonical_root(),
{
    let tree = AllowlistMerkleTree::from_allowlist();
    let root = &tree.root;
    let mut key_results: Vec<KeyVerificationResult> = Vec::new();
    if !same_text(proof.merkle_root.as_str(), root.as_str()) {
        let mut msg = concat3("proof merkle_root ", proof.merkle_root.as_str(), " does not match canonical root ");
        push_str(&mut msg, root.as_str());
        key_results.push(key_result(owned("<merkle_root>"), false, Some(msg)));
        proof {
            assert(key_results_view(key_results@) =~= identity_key_results(*core, *proof));
            assert(!identity_key_results(*core, *proof)[0].1);
        }
        return ProofVerificationResult { verified: false, key_results, merkle_root: root.clone() };
    }
    let entries = match core {
        JsonValue::Object(entries) => entries,
        _ => {
            key_results.push(key_result(owned("<core>"), false, Some(owned("core must be a JSON object"))));
            proof {
                assert(key_results_view(key_results@) =~= identity_key_results(*core, *proof));
                assert(!identity_key_results(*core, *proof)[0].1);
            }
            return ProofVerificationResult { verified: false, key_results, merkle_root: root.clone() };
        },
    };
    let ghost keys = member_keys(entries@);
    let ghost proofs = proof.key_proofs@;
    let mut i: usize = 0;
    while i < entries.len()
        invariant
            keys == member_keys(entries@),
            proofs == proof.key_proofs@,
            root@ == canonical_root(),
            i <= entries.len(),
            key_results_view(key_results@) =~= keys.take(i as int).map_values(|k: Seq<char>| core_key_result(k, proofs)),
        decreases entries.len() - i,
    {
        let k = &entries[i].0;
        let res = match find_proof_exec(&proof.key_proofs, k.as_str()) {
            None => key_result(k.clone(), false, Some(owned("no proof provided for this key"))),
            Some(j) => {
                if AllowlistMerkleTree::verify_against_root(root.as_str(), &proof.key_proofs[j]) {
                    key_result(k.clone(), true, None)
                } else {
                    key_result(k.clone(), false, Some(owned("Merkle proof verification failed")))
                }
            },
        };
        let ghost before = key_results_view(key_results@);
        key_results.push(res);
        proof {
            assert(keys[i as int] == k@);
            assert(key_results_view(key_results@) =~= before.push(key_result_view(res)));
            assert(keys.take(i + 1) =~= keys.take(i as int).push(keys[i as int]));
        }
        i = i + 1;
    }
    proof {
        assert(keys.take(entries@.len() as int) =~= keys);
    }
    let ghost part1 = key_results_view(key_results@);
    let mut j: usize = 0;
    proof {
        assert(proofs.take(0) =~= Seq::<AllowlistMembershipProof>::empty());
        assert(part1 + extra_proof_results(proofs.take(0), keys) =~= part1);
    }
    while j < proof.key_proofs.len()
        invariant
            keys == member_keys(entries@),
            proofs == proof.key_proofs@,
            j <= proofs.len(),
            key_results_view(key_results@) =~= part1 + extra_proof_results(proofs.take(j as int), keys),
        decreases proof.key_proofs.len() - j,
    {
        let kp = &proof.key_proofs[j];
        proof {
            assert(proofs.take(j + 1).drop_last() =~= proofs.take(j as int));
            assert(proofs.take(j + 1).last() == proofs[j as int]);
        }
        if !key_listed(entries, kp.key.as_str()) {
            let ghost before = key_results_view(key_results@);
            let res = key_result(kp.key.clone(), false, Some(owned("proof provided for key not present in core")));
            key_results.push(res);
            proof {
                assert(key_results_view(key_results@) =~= before.push(key_result_view(res)));
            }
        }
        j = j + 1;
    }
    proof {
        assert(proofs.take(proofs.len() as int) =~= proofs);
    }
    let ghost part2 = key_results_view(key_results@);
    match check_forbidden_substrings(core, "core/") {
        Ok(_) => {},
        Err(fk) => {
            let msg = concat3("forbidden substring detected at ", fk.as_str(), "");
            proof {
                assert(""@ =~= Seq::<char>::empty()) by {
                    reveal_strlit("");
                }
            }
            let res = key_result(fk, false, Some(msg));
            key_results.push(res);
            proof {
                assert(key_results_view(key_results@) =~= part2.push(key_result_view(res)));
            }
        },
    }
    proof {
        assert(key_results_view(key_results@) =~= identity_key_results(*core, *proof));
    }
    let mut verified = true;
    let mut q: usize = 0;
    while q < key_results.len()
        invariant
            q <= key_results.len(),
            verified == (forall|t: int| 0 <= t < q ==> (#[trigger] key_results@[t]).valid),
        decreases key_results.len() - q,
    {
        verified = verified && key_results[q].valid;
        q = q + 1;
    }
    proof {
        let rs = key_results_view(key_results@);
        assert forall|t: int| 0 <= t < rs.len() implies (#[trigger] rs[t]).1 == key_results@[t].valid by {}
        if verified {
            assert forall|t: int| 0 <= t < rs.len() implies (#[trigger] rs[t]).1 by {
                assert(key_results@[t].valid);
            }
        } else {
            let t = choose|t: int| 0 <= t < q && !(#[trigger] key_results@[t]).valid;
            assert(!rs[t].1);
        }
    }
    ProofVerificationResult { verified, key_results, merkle_root: root.clone() }
}

} // verus!

