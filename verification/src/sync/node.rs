//! Node identities and the order in which they are compared.

use vstd::prelude::*;
use vstd::utf8::*;
use crate::text::owned;

verus! {

/// Unique identifier of a node in a multi-node deployment.
#[derive(Clone, PartialEq, Eq, PartialOrd, Ord, Hash, Debug)]
pub struct NodeId(pub String);

/// Lexicographic order of byte strings (a proper prefix comes first).
pub open spec fn bytes_lt(a: Seq<u8>, b: Seq<u8>) -> bool
    decreases a.len(),
{
    if a.len() == 0 {
        b.len() > 0
    } else if b.len() == 0 {
        false
    } else if a[0] != b[0] {
        a[0] < b[0]
    } else {
        bytes_lt(a.drop_first(), b.drop_first())
    }
}

/// Order of node names: that of `String`, which compares the UTF-8 bytes.
pub open spec fn name_lt(a: Seq<char>, b: Seq<char>) -> bool {
    bytes_lt(encode_utf8(a), encode_utf8(b))
}

impl NodeId {
    /// The name of the node.
    pub open spec fn name(&self) -> Seq<char> {
        self.0@
    }

    pub fn new(id: &str) -> (r: NodeId)
        ensures
            r.name() == id@,
    {
        NodeId(owned(id))
    }

    /// The name as `Display` writes it.
    pub fn to_string(&self) -> (r: String)
        ensures
            r@ == self.name(),
    {
        self.0.clone()
    }

    /// Equality of node names.
    pub fn same(&self, other: &NodeId) -> (r: bool)
        ensures
            r == (self.name() == other.name()),
    {
        self.0 == other.0
    }

    /// `self` orders strictly before `other`.
    pub fn less(&self, other: &NodeId) -> (r: bool)
        ensures
            r == name_lt(self.name(), other.name()),
    {
        bytes_less(self.0.as_str().as_bytes(), other.0.as_str().as_bytes())
    }

    pub fn copy(&self) -> (r: NodeId)
        ensures
            r.name() == self.name(),
    {
        NodeId(self.0.clone())
    }
}

proof fn lemma_bytes_lt_step(a: Seq<u8>, b: Seq<u8>, i: int)
    requires
        0 <= i < a.len(),
        i < b.len(),
        a[i] == b[i],
    ensures
        bytes_lt(a.skip(i), b.skip(i)) == bytes_lt(a.skip(i + 1), b.skip(i + 1)),
{
    assert(a.skip(i).drop_first() =~= a.skip(i + 1));
    assert(b.skip(i).drop_first() =~= b.skip(i + 1));
}

/// Lexicographic comparison of two byte slices.
pub fn bytes_less(a: &[u8], b: &[u8]) -> (r: bool)
    ensures
        r == bytes_lt(a@, b@),
{
    let mut i: usize = 0;
    assert(a@.skip(0) =~= a@);
    assert(b@.skip(0) =~= b@);
    while i < a.len() && i < b.len()
        invariant
            i <= a@.len(),
            i <= b@.len(),
            bytes_lt(a@, b@) == bytes_lt(a@.skip(i as int), b@.skip(i as int)),
        decreases a.len() - i,
    {
        if a[i] != b[i] {
            assert(a@.skip(i as int)[0] == a@[i as int]);
            assert(b@.skip(i as int)[0] == b@[i as int]);
            return a[i] < b[i];
        }
        proof {
            lemma_bytes_lt_step(a@, b@, i as int);
        }
        i = i + 1;
    }
    assert(a@.skip(i as int).len() == a@.len() - i);
    a.len() < b.len() || (i < a.len() && i < b.len())
}

pub proof fn lemma_bytes_lt_irreflexive(a: Seq<u8>)
    ensures
        !bytes_lt(a, a),
    decreases a.len(),
{
    if a.len() > 0 {
        lemma_bytes_lt_irreflexive(a.drop_first());
    }
}

pub proof fn lemma_bytes_lt_asymmetric(a: Seq<u8>, b: Seq<u8>)
    ensures
        !(bytes_lt(a, b) && bytes_lt(b, a)),
    decreases a.len(),
{
    if a.len() > 0 && b.len() > 0 && a[0] == b[0] {
        lemma_bytes_lt_asymmetric(a.drop_first(), b.drop_first());
    }
}

pub proof fn lemma_bytes_lt_transitive(a: Seq<u8>, b: Seq<u8>, c: Seq<u8>)
    requires
        bytes_lt(a, b),
        bytes_lt(b, c),
    ensures
        bytes_lt(a, c),
    decreases a.len(),
{
    if a.len() > 0 && b.len() > 0 && c.len() > 0 && a[0] == b[0] && b[0] == c[0] {
        lemma_bytes_lt_transitive(a.drop_first(), b.drop_first(), c.drop_first());
    }
}

pub proof fn lemma_bytes_lt_total(a: Seq<u8>, b: Seq<u8>)
    requires
        a != b,
    ensures
        bytes_lt(a, b) || bytes_lt(b, a),
    decreases a.len(),
{
    if a.len() > 0 && b.len() > 0 && a[0] == b[0] {
        if a.drop_first() == b.drop_first() {
            assert(a =~= seq![a[0]] + a.drop_first());
            assert(b =~= seq![b[0]] + b.drop_first());
        }
        lemma_bytes_lt_total(a.drop_first(), b.drop_first());
    } else if a.len() == 0 && b.len() == 0 {
        assert(a =~= b);
    }
}

/// The order of node names is a strict total order.
pub proof fn lemma_name_order(a: Seq<char>, b: Seq<char>, c: Seq<char>)
    ensures
        !name_lt(a, a),
        !(name_lt(a, b) && name_lt(b, a)),
        name_lt(a, b) && name_lt(b, c) ==> name_lt(a, c),
        a != b ==> name_lt(a, b) || name_lt(b, a),
{
    broadcast use vstd::utf8::encode_utf8_decode_utf8;

    lemma_bytes_lt_irreflexive(encode_utf8(a));
    lemma_bytes_lt_asymmetric(encode_utf8(a), encode_utf8(b));
    if name_lt(a, b) && name_lt(b, c) {
        lemma_bytes_lt_transitive(encode_utf8(a), encode_utf8(b), encode_utf8(c));
    }
    if a != b {
        assert(decode_utf8(encode_utf8(a)) == a);
        assert(decode_utf8(encode_utf8(b)) == b);
        lemma_bytes_lt_total(encode_utf8(a), encode_utf8(b));
    }
}

} // verus!
