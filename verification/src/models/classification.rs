//! Data classification labels for access control:
//! `Public` < `Internal` < `Confidential` < `Restricted`.

use vstd::prelude::*;
use crate::text::{
    ascii_lowercase, is_ascii_text, lemma_trim_end_is_prefix, lemma_trim_start_is_suffix, lemma_trim_unpadded, owned,
    same_text, to_lowercase, trim, trimmed, unicode_lowercase,
};

verus! {

/// Sensitivity classification for data (edges, entities, API key scopes).
#[derive(Clone, Copy, PartialEq, Eq, PartialOrd, Ord, Hash, Debug, Structural)]
pub enum Classification {
    /// Safe for any audience.
    Public,
    /// Safe for internal agents and operators.
    Internal,
    /// Restricted to authorized agents and users.
    Confidential,
    /// Highest sensitivity.
    Restricted,
}

/// Position of a classification in the order `Public < Internal <
/// Confidential < Restricted`.
pub open spec fn classification_rank(c: Classification) -> nat {
    match c {
        Classification::Public => 0,
        Classification::Internal => 1,
        Classification::Confidential => 2,
        Classification::Restricted => 3,
    }
}

/// The snake-case label of a classification.
pub open spec fn classification_label(c: Classification) -> Seq<char> {
    match c {
        Classification::Public => "public"@,
        Classification::Internal => "internal"@,
        Classification::Confidential => "confidential"@,
        Classification::Restricted => "restricted"@,
    }
}

/// The classification named by an already trimmed and lowercased word;
/// `Internal` for any other word.
pub open spec fn classification_of_word(w: Seq<char>) -> Classification {
    if w == "public"@ {
        Classification::Public
    } else if w == "internal"@ {
        Classification::Internal
    } else if w == "confidential"@ {
        Classification::Confidential
    } else if w == "restricted"@ {
        Classification::Restricted
    } else {
        Classification::Internal
    }
}

impl Classification {
    pub fn as_str(&self) -> (r: &'static str)
        ensures
            r@ == classification_label(*self),
    {
        match self {
            Classification::Public => "public",
            Classification::Internal => "internal",
            Classification::Confidential => "confidential",
            Classification::Restricted => "restricted",
        }
    }

    /// The label as an owned string (what `Display` writes).
    pub fn to_string(&self) -> (r: String)
        ensures
            r@ == classification_label(*self),
    {
        owned(self.as_str())
    }

    /// Parse from a string: trimmed, lowercased, and `Internal` for any
    /// unrecognized value.
    pub fn from_str_flexible(s: &str) -> (r: Classification)
        ensures
            r == classification_of_word(unicode_lowercase(trim(s@))),
            is_ascii_text(s@) ==> r == classification_of_word(ascii_lowercase(trim(s@))),
    {
        let t = trimmed(s);
        proof {
            lemma_trim_ascii(s@);
        }
        let w = to_lowercase(t.as_str());
        if same_text(w.as_str(), "public") {
            Classification::Public
        } else if same_text(w.as_str(), "internal") {
            Classification::Internal
        } else if same_text(w.as_str(), "confidential") {
            Classification::Confidential
        } else if same_text(w.as_str(), "restricted") {
            Classification::Restricted
        } else {
            Classification::Internal
        }
    }

    /// `self` is strictly above `other` in the order.
    pub fn is_above(&self, other: &Classification) -> (r: bool)
        ensures
            r == (classification_rank(*self) > classification_rank(*other)),
    {
        self.rank() > other.rank()
    }

    pub fn rank(&self) -> (r: u8)
        ensures
            r == classification_rank(*self),
    {
        match self {
            Classification::Public => 0,
            Classification::Internal => 1,
            Classification::Confidential => 2,
            Classification::Restricted => 3,
        }
    }
}

impl Default for Classification {
    fn default() -> (r: Classification)
        ensures
            r == Classification::Internal,
    {
        Classification::Internal
    }
}

/// The trim of ASCII text is ASCII.
proof fn lemma_trim_ascii(s: Seq<char>)
    ensures
        is_ascii_text(s) ==> is_ascii_text(trim(s)),
{
    lemma_trim_start_is_suffix(s);
    let a = crate::text::trim_start(s);
    lemma_trim_end_is_prefix(a);
    if is_ascii_text(s) {
        assert forall|i: int| 0 <= i < trim(s).len() implies (#[trigger] trim(s)[i]) as u32 <= 0x7f by {
            assert(trim(s)[i] == a[i]);
            assert(a[i] == s[s.len() - a.len() + i]);
        }
    }
}

/// A classification's label is ASCII, and parsing it gives the
/// classification back.
pub proof fn lemma_label_round_trip(c: Classification)
    ensures
        is_ascii_text(classification_label(c)),
        classification_of_word(ascii_lowercase(trim(classification_label(c)))) == c,
{
    reveal_strlit("public");
    reveal_strlit("internal");
    reveal_strlit("confidential");
    reveal_strlit("restricted");
    let l = classification_label(c);
    lemma_trim_unpadded(l);
    assert(ascii_lowercase(l) =~= l);
}

} // verus!
