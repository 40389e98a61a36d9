//! Character-level helpers shared by the validators and parsers of the
//! library: classification of characters, trimming, UTF-8 byte lengths and
//! small string builders.

use vstd::prelude::*;
use vstd::utf8::*;

verus! {

/// `char::is_ascii_alphanumeric`.
pub open spec fn is_ascii_alnum(c: char) -> bool {
    ||| ('0' as u32 <= c as u32 && c as u32 <= '9' as u32)
    ||| ('a' as u32 <= c as u32 && c as u32 <= 'z' as u32)
    ||| ('A' as u32 <= c as u32 && c as u32 <= 'Z' as u32)
}

/// `char::is_whitespace`: the Unicode `White_Space` property, which is
/// what `str::trim` strips.
pub open spec fn is_unicode_whitespace(c: char) -> bool {
    let u = c as u32;
    ||| (0x09 <= u && u <= 0x0D)
    ||| u == 0x20
    ||| u == 0x85
    ||| u == 0xA0
    ||| u == 0x1680
    ||| (0x2000 <= u && u <= 0x200A)
    ||| u == 0x2028
    ||| u == 0x2029
    ||| u == 0x202F
    ||| u == 0x205F
    ||| u == 0x3000
}

/// `char::is_control`: general category `Cc`.
pub open spec fn is_control_char(c: char) -> bool {
    let u = c as u32;
    u <= 0x1F || (0x7F <= u && u <= 0x9F)
}

/// Number of bytes of the UTF-8 encoding of one character.
pub open spec fn char_utf8_len(c: char) -> nat {
    let u = c as u32;
    if u <= 0x7F {
        1
    } else if u <= 0x7FF {
        2
    } else if u <= 0xFFFF {
        3
    } else {
        4
    }
}

/// Number of bytes of the UTF-8 encoding of a character sequence.
pub open spec fn utf8_len(s: Seq<char>) -> nat
    decreases s.len(),
{
    if s.len() == 0 {
        0
    } else {
        char_utf8_len(s[0]) + utf8_len(s.drop_first())
    }
}

/// The sequence with leading whitespace removed.
pub open spec fn trim_start(s: Seq<char>) -> Seq<char>
    decreases s.len(),
{
    if s.len() > 0 && is_unicode_whitespace(s[0]) {
        trim_start(s.drop_first())
    } else {
        s
    }
}

/// The sequence with trailing whitespace removed.
pub open spec fn trim_end(s: Seq<char>) -> Seq<char>
    decreases s.len(),
{
    if s.len() > 0 && is_unicode_whitespace(s.last()) {
        trim_end(s.drop_last())
    } else {
        s
    }
}

/// `str::trim` on the character view.
pub open spec fn trim(s: Seq<char>) -> Seq<char> {
    trim_end(trim_start(s))
}

/// `true` when `c` occurs in `s`.
pub open spec fn has_char(s: Seq<char>, c: char) -> bool {
    exists|i: int| 0 <= i < s.len() && s[i] == c
}

/// `true` when two consecutive dots occur in `s`.
pub open spec fn has_double_dot(s: Seq<char>) -> bool {
    exists|i: int| 0 <= i && i + 1 < s.len() && #[trigger] s[i] == '.' && s[i + 1] == '.'
}

/// `true` when `p` is a prefix of `s`.
pub open spec fn seq_starts_with(s: Seq<char>, p: Seq<char>) -> bool {
    p.len() <= s.len() && s.subrange(0, p.len() as int) == p
}

/// ASCII case folding of one character (`char::to_ascii_lowercase`).
pub open spec fn ascii_lower(c: char) -> char {
    if 'A' as u32 <= c as u32 && c as u32 <= 'Z' as u32 {
        ((c as u32) + 32) as char
    } else {
        c
    }
}

/// ASCII lowercase of a text (`str::to_ascii_lowercase`).
pub open spec fn ascii_lowercase(s: Seq<char>) -> Seq<char> {
    s.map_values(|c: char| ascii_lower(c))
}

/// Every character of the text is ASCII.
pub open spec fn is_ascii_text(s: Seq<char>) -> bool {
    forall|i: int| 0 <= i < s.len() ==> (#[trigger] s[i]) as u32 <= 0x7f
}

/// A text that neither starts nor ends with whitespace is its own trim.
pub proof fn lemma_trim_unpadded(s: Seq<char>)
    requires
        s.len() > 0,
        !is_unicode_whitespace(s[0]),
        !is_unicode_whitespace(s.last()),
    ensures
        trim(s) == s,
{
}

/// `str::eq_ignore_ascii_case`.
pub open spec fn eq_ignore_ascii_case(a: Seq<char>, b: Seq<char>) -> bool {
    a.len() == b.len() && forall|i: int| 0 <= i < a.len() ==> ascii_lower(a[i]) == ascii_lower(b[i])
}

pub proof fn lemma_encode_scalar_len(c: char)
    ensures
        encode_scalar(c as u32).len() == char_utf8_len(c),
{
    broadcast use vstd::utf8::char_is_scalar;
    assert(is_scalar(c as u32));
}

/// The byte length that `str::len` reports is the sum of the character widths.
pub proof fn lemma_encode_utf8_len(s: Seq<char>)
    ensures
        encode_utf8(s).len() == utf8_len(s),
    decreases s.len(),
{
    if s.len() > 0 {
        lemma_encode_scalar_len(s[0]);
        lemma_encode_utf8_len(s.drop_first());
    }
}

pub proof fn lemma_utf8_len_ge(s: Seq<char>)
    ensures
        utf8_len(s) >= s.len(),
    decreases s.len(),
{
    if s.len() > 0 {
        lemma_utf8_len_ge(s.drop_first());
    }
}

pub proof fn lemma_utf8_len_push(s: Seq<char>, c: char)
    ensures
        utf8_len(s.push(c)) == utf8_len(s) + char_utf8_len(c),
    decreases s.len(),
{
    if s.len() == 0 {
        assert(s.push(c).drop_first() =~= Seq::<char>::empty());
        assert(s.push(c)[0] == c);
        assert(utf8_len(Seq::<char>::empty()) == 0);
        assert(utf8_len(s) == 0);
    } else {
        assert(s.push(c).drop_first() =~= s.drop_first().push(c));
        assert(s.push(c)[0] == s[0]);
        lemma_utf8_len_push(s.drop_first(), c);
    }
}

pub proof fn lemma_trim_start_is_suffix(s: Seq<char>)
    ensures
        trim_start(s).len() <= s.len(),
        trim_start(s) == s.subrange(s.len() - trim_start(s).len(), s.len() as int),
        forall|i: int| 0 <= i < s.len() - trim_start(s).len() ==> is_unicode_whitespace(#[trigger] s[i]),
        trim_start(s).len() > 0 ==> !is_unicode_whitespace(trim_start(s)[0]),
    decreases s.len(),
{
    if s.len() > 0 && is_unicode_whitespace(s[0]) {
        lemma_trim_start_is_suffix(s.drop_first());
        let k = trim_start(s).len();
        assert(s.drop_first().subrange(s.len() - 1 - k, s.len() - 1) =~= s.subrange(s.len() - k, s.len() as int));
        assert forall|i: int| 0 <= i < s.len() - trim_start(s).len() implies is_unicode_whitespace(#[trigger] s[i]) by {
            if i > 0 {
                assert(s[i] == s.drop_first()[i - 1]);
            }
        }
    } else {
        assert(s == s.subrange(0, s.len() as int));
    }
}

pub proof fn lemma_trim_end_is_prefix(s: Seq<char>)
    ensures
        trim_end(s).len() <= s.len(),
        trim_end(s) == s.subrange(0, trim_end(s).len() as int),
        forall|i: int| trim_end(s).len() <= i < s.len() ==> is_unicode_whitespace(#[trigger] s[i]),
        trim_end(s).len() > 0 ==> !is_unicode_whitespace(trim_end(s).last()),
    decreases s.len(),
{
    if s.len() > 0 && is_unicode_whitespace(s.last()) {
        lemma_trim_end_is_prefix(s.drop_last());
        let k = trim_end(s).len();
        assert(s.drop_last().subrange(0, k as int) =~= s.subrange(0, k as int));
        assert forall|i: int| trim_end(s).len() <= i < s.len() implies is_unicode_whitespace(#[trigger] s[i]) by {
            if i < s.len() - 1 {
                assert(s[i] == s.drop_last()[i]);
            }
        }
    } else {
        assert(s == s.subrange(0, s.len() as int));
    }
}

/// Number of bytes of the UTF-8 encoding of a string slice (`str::len`).
pub fn byte_len(s: &str) -> (r: usize)
    ensures
        r == encode_utf8(s@).len(),
{
    s.as_bytes().len()
}

/// Characters of a string slice.
pub fn chars_of(s: &str) -> (r: Vec<char>)
    ensures
        r@ == s@,
{
    let mut v: Vec<char> = Vec::new();
    for c in iter: s.chars()
        invariant
            v@ == iter.seq().take(iter.index() as int),
    {
        v.push(c);
    }
    v
}

pub fn is_ascii_alnum_exec(c: char) -> (r: bool)
    ensures
        r == is_ascii_alnum(c),
{
    ('0' <= c && c <= '9') || ('a' <= c && c <= 'z') || ('A' <= c && c <= 'Z')
}

pub fn is_whitespace_exec(c: char) -> (r: bool)
    ensures
        r == is_unicode_whitespace(c),
{
    let u = c as u32;
    (0x09 <= u && u <= 0x0D) || u == 0x20 || u == 0x85 || u == 0xA0 || u == 0x1680 || (0x2000
        <= u && u <= 0x200A) || u == 0x2028 || u == 0x2029 || u == 0x202F || u == 0x205F || u
        == 0x3000
}

pub fn is_control_exec(c: char) -> (r: bool)
    ensures
        r == is_control_char(c),
{
    let u = c as u32;
    u <= 0x1F || (0x7F <= u && u <= 0x9F)
}

pub fn ascii_lower_exec(c: char) -> (r: char)
    ensures
        r == ascii_lower(c),
{
    if 'A' <= c && c <= 'Z' {
        let b = (c as u32 + 32) as u8;
        b as char
    } else {
        c
    }
}

pub fn char_utf8_len_exec(c: char) -> (r: usize)
    ensures
        r == char_utf8_len(c),
{
    let u = c as u32;
    if u <= 0x7F {
        1
    } else if u <= 0x7FF {
        2
    } else if u <= 0xFFFF {
        3
    } else {
        4
    }
}

/// Byte length of the UTF-8 encoding of `v[lo..hi]`, saturating at `cap + 1`.
pub fn utf8_len_capped(v: &Vec<char>, lo: usize, hi: usize, cap: usize) -> (r: usize)
    requires
        lo <= hi <= v.len(),
        cap < usize::MAX - 4,
    ensures
        r <= cap ==> r == utf8_len(v@.subrange(lo as int, hi as int)),
        r > cap <==> utf8_len(v@.subrange(lo as int, hi as int)) > cap,
{
    let mut total: usize = 0;
    let mut i = lo;
    while i < hi
        invariant
            lo <= i <= hi <= v.len(),
            cap < usize::MAX - 4,
            total <= cap,
            total == utf8_len(v@.subrange(lo as int, i as int)),
        decreases hi - i,
    {
        proof {
            assert(v@.subrange(lo as int, i + 1) == v@.subrange(lo as int, i as int).push(v@[i as int]));
            lemma_utf8_len_push(v@.subrange(lo as int, i as int), v@[i as int]);
        }
        total = total + char_utf8_len_exec(v[i]);
        i = i + 1;
        if total > cap {
            proof {
                lemma_utf8_len_monotone(v@, lo as int, i as int, hi as int);
            }
            return total;
        }
    }
    total
}

pub proof fn lemma_utf8_len_monotone(s: Seq<char>, lo: int, mid: int, hi: int)
    requires
        0 <= lo <= mid <= hi <= s.len(),
    ensures
        utf8_len(s.subrange(lo, mid)) <= utf8_len(s.subrange(lo, hi)),
    decreases hi - mid,
{
    if mid < hi {
        lemma_utf8_len_monotone(s, lo, mid, hi - 1);
        assert(s.subrange(lo, hi) == s.subrange(lo, hi - 1).push(s[hi - 1]));
        lemma_utf8_len_push(s.subrange(lo, hi - 1), s[hi - 1]);
    }
}

pub proof fn lemma_trim_start_at(s: Seq<char>, a: int)
    requires
        0 <= a <= s.len(),
        forall|i: int| 0 <= i < a ==> is_unicode_whitespace(#[trigger] s[i]),
        a == s.len() || !is_unicode_whitespace(s[a]),
    ensures
        trim_start(s) == s.subrange(a, s.len() as int),
    decreases a,
{
    if a == 0 {
        assert(s.subrange(0, s.len() as int) =~= s);
    } else {
        let t = s.drop_first();
        assert forall|i: int| 0 <= i < a - 1 implies is_unicode_whitespace(#[trigger] t[i]) by {
            assert(t[i] == s[i + 1]);
        }
        if a - 1 < t.len() {
            assert(t[a - 1] == s[a]);
        }
        assert(is_unicode_whitespace(s[0]));
        lemma_trim_start_at(t, a - 1);
        assert(t.subrange(a - 1, t.len() as int) =~= s.subrange(a, s.len() as int));
    }
}

pub proof fn lemma_trim_end_at(s: Seq<char>, b: int)
    requires
        0 <= b <= s.len(),
        forall|i: int| b <= i < s.len() ==> is_unicode_whitespace(#[trigger] s[i]),
        b == 0 || !is_unicode_whitespace(s[b - 1]),
    ensures
        trim_end(s) == s.subrange(0, b),
    decreases s.len() - b,
{
    if b == s.len() {
        assert(s.subrange(0, s.len() as int) =~= s);
        if s.len() > 0 {
            assert(s.last() == s[b - 1]);
        }
    } else {
        let t = s.drop_last();
        assert forall|i: int| b <= i < t.len() implies is_unicode_whitespace(#[trigger] t[i]) by {
            assert(t[i] == s[i]);
        }
        if b > 0 {
            assert(t[b - 1] == s[b - 1]);
        }
        assert(is_unicode_whitespace(s[s.len() - 1]));
        lemma_trim_end_at(t, b);
        assert(t.subrange(0, b) =~= s.subrange(0, b));
    }
}

/// Bounds `[start, end)` of the trimmed part of `v`.
pub fn trim_bounds(v: &Vec<char>) -> (r: (usize, usize))
    ensures
        r.0 <= r.1 <= v.len(),
        v@.subrange(r.0 as int, r.1 as int) == trim(v@),
{
    let mut start: usize = 0;
    while start < v.len() && is_whitespace_exec(v[start])
        invariant
            start <= v.len(),
            forall|i: int| 0 <= i < start ==> is_unicode_whitespace(#[trigger] v@[i]),
        decreases v.len() - start,
    {
        start = start + 1;
    }
    proof {
        lemma_trim_start_at(v@, start as int);
    }
    let ghost t = v@.subrange(start as int, v.len() as int);
    let mut end: usize = v.len();
    while end > start && is_whitespace_exec(v[end - 1])
        invariant
            start <= end <= v.len(),
            t == v@.subrange(start as int, v.len() as int),
            forall|i: int| end <= i < v.len() ==> is_unicode_whitespace(#[trigger] v@[i]),
        decreases end,
    {
        end = end - 1;
    }
    proof {
        assert forall|i: int| end - start <= i < t.len() implies is_unicode_whitespace(#[trigger] t[i]) by {
            assert(t[i] == v@[start + i]);
        }
        if end > start {
            assert(t[end - start - 1] == v@[end - 1]);
        }
        lemma_trim_end_at(t, end - start);
        assert(t.subrange(0, end - start) =~= v@.subrange(start as int, end as int));
    }
    (start, end)
}

/// `true` when `v[lo..hi]` contains `c`.
pub fn range_has_char(v: &Vec<char>, lo: usize, hi: usize, c: char) -> (r: bool)
    requires
        lo <= hi <= v.len(),
    ensures
        r == has_char(v@.subrange(lo as int, hi as int), c),
{
    let mut i = lo;
    while i < hi
        invariant
            lo <= i <= hi <= v.len(),
            forall|j: int| lo <= j < i ==> v@[j] != c,
        decreases hi - i,
    {
        if v[i] == c {
            assert(v@.subrange(lo as int, hi as int)[i - lo] == c);
            return true;
        }
        i = i + 1;
    }
    assert forall|j: int| 0 <= j < hi - lo implies v@.subrange(lo as int, hi as int)[j] != c by {
        assert(v@.subrange(lo as int, hi as int)[j] == v@[lo + j]);
    }
    false
}

/// `true` when `v[lo..hi]` contains two consecutive dots.
pub fn range_has_double_dot(v: &Vec<char>, lo: usize, hi: usize) -> (r: bool)
    requires
        lo <= hi <= v.len(),
    ensures
        r == has_double_dot(v@.subrange(lo as int, hi as int)),
{
    let ghost s = v@.subrange(lo as int, hi as int);
    let mut i = lo;
    while i < hi && hi - i > 1
        invariant
            lo <= i <= hi <= v.len(),
            s == v@.subrange(lo as int, hi as int),
            forall|j: int| lo <= j < i && j + 1 < hi ==> !(#[trigger] v@[j] == '.' && v@[j + 1] == '.'),
        decreases hi - i,
    {
        if v[i] == '.' && v[i + 1] == '.' {
            assert(s[i - lo] == '.' && s[i - lo + 1] == '.');
            return true;
        }
        i = i + 1;
    }
    assert forall|j: int| 0 <= j && j + 1 < s.len() implies !(#[trigger] s[j] == '.' && s[j + 1] == '.') by {
        assert(s[j] == v@[lo + j]);
        assert(s[j + 1] == v@[lo + j + 1]);
    }
    false
}

/// Appends one character to a string (`String::push`).
#[verifier::external_body]
pub(crate) fn push_char(s: &mut String, c: char)
    ensures
        final(s)@ == old(s)@.push(c),
{
    s.push(c);
}

/// Appends a string slice to a string (`String::push_str`).
#[verifier::external_body]
pub(crate) fn push_str(s: &mut String, t: &str)
    ensures
        final(s)@ == old(s)@ + t@,
{
    s.push_str(t);
}

/// A string made of the given characters.
pub fn string_from_chars(v: &[char]) -> (r: String)
    ensures
        r@ == v@,
{
    let mut s = String::new();
    let mut i: usize = 0;
    while i < v.len()
        invariant
            i <= v.len(),
            s@ == v@.subrange(0, i as int),
        decreases v.len() - i,
    {
        push_char(&mut s, v[i]);
        proof {
            assert(v@.subrange(0, i + 1) == v@.subrange(0, i as int).push(v@[i as int]));
        }
        i = i + 1;
    }
    proof {
        assert(v@.subrange(0, v@.len() as int) == v@);
    }
    s
}

/// The first `n` bytes of a string, which must end at a character boundary
/// (`&s[..n]`).
pub fn prefix_of_bytes(s: &str, n: usize) -> (r: String)
    requires
        exists|k: int| 0 <= k <= s@.len() && #[trigger] utf8_len(s@.subrange(0, k)) == n,
    ensures
        exists|k: int| 0 <= k <= s@.len() && #[trigger] utf8_len(s@.subrange(0, k)) == n
            && r@ == s@.subrange(0, k),
{
    let v = chars_of(s);
    let ghost k = choose|k: int| 0 <= k <= s@.len() && #[trigger] utf8_len(s@.subrange(0, k)) == n;
    let mut i: usize = 0;
    let mut total: usize = 0;
    proof {
        assert(v@.subrange(0, 0) =~= Seq::<char>::empty());
    }
    while total < n
        invariant
            v@ == s@,
            v.len() == v@.len(),
            0 <= k <= v@.len(),
            utf8_len(v@.subrange(0, k)) == n,
            i <= k,
            total == utf8_len(v@.subrange(0, i as int)),
            total <= n,
        decreases k - i,
    {
        proof {
            if i >= k {
                lemma_utf8_len_monotone(v@, 0, k, i as int);
            }
            assert(v@.subrange(0, i + 1) == v@.subrange(0, i as int).push(v@[i as int]));
            lemma_utf8_len_push(v@.subrange(0, i as int), v@[i as int]);
            lemma_utf8_len_monotone(v@, 0, i + 1, k);
        }
        total = total + char_utf8_len_exec(v[i]);
        i = i + 1;
    }
    string_from_chars(&v.as_slice()[0..i])
}

/// `p` occurs in `s` starting at position `i`.
pub open spec fn occurs_at(s: Seq<char>, p: Seq<char>, i: int) -> bool {
    0 <= i && i + p.len() <= s.len() && s.subrange(i, i + p.len()) == p
}

/// `p` occurs somewhere in `s` (`str::contains`).
pub open spec fn has_substring(s: Seq<char>, p: Seq<char>) -> bool {
    exists|i: int| #[trigger] occurs_at(s, p, i)
}

fn chars_match_at(v: &Vec<char>, w: &Vec<char>, i: usize) -> (r: bool)
    requires
        i + w.len() <= v.len(),
    ensures
        r == occurs_at(v@, w@, i as int),
{
    let mut j: usize = 0;
    while j < w.len()
        invariant
            i + w.len() <= v.len(),
            j <= w.len(),
            forall|k: int| 0 <= k < j ==> v@[i + k] == w@[k],
        decreases w.len() - j,
    {
        if v[i + j] != w[j] {
            proof {
                assert(v@.subrange(i as int, i + w@.len())[j as int] != w@[j as int]);
            }
            return false;
        }
        j = j + 1;
    }
    proof {
        assert(v@.subrange(i as int, i + w@.len()) =~= w@);
    }
    true
}

/// `s` starts with `p` (`str::starts_with`).
pub fn starts_with(s: &str, p: &str) -> (r: bool)
    ensures
        r == seq_starts_with(s@, p@),
{
    let v = chars_of(s);
    let w = chars_of(p);
    if w.len() > v.len() {
        return false;
    }
    chars_match_at(&v, &w, 0)
}

/// `p` occurs in `s` (`str::contains`).
pub fn contains_text(s: &str, p: &str) -> (r: bool)
    ensures
        r == has_substring(s@, p@),
{
    let v = chars_of(s);
    let w = chars_of(p);
    if w.len() > v.len() {
        assert forall|i: int| !occurs_at(s@, p@, i) by {}
        return false;
    }
    let last = v.len() - w.len();
    let mut i: usize = 0;
    while i < last
        invariant
            v@ == s@,
            w@ == p@,
            last == v.len() - w.len(),
            i <= last,
            forall|k: int| 0 <= k < i ==> !#[trigger] occurs_at(s@, p@, k),
        decreases last - i,
    {
        if chars_match_at(&v, &w, i) {
            return true;
        }
        i = i + 1;
    }
    if chars_match_at(&v, &w, last) {
        return true;
    }
    assert forall|k: int| !#[trigger] occurs_at(s@, p@, k) by {
        if 0 <= k && k < i {
        }
    }
    false
}

/// A fresh `String` equal to a string slice.
pub fn owned(s: &str) -> (r: String)
    ensures
        r@ == s@,
{
    s.to_owned()
}

/// Decimal digits of a number, most significant first.
pub open spec fn decimal(n: nat) -> Seq<char>
    decreases n,
{
    if n < 10 {
        seq![digit_char((n % 10) as nat)]
    } else {
        decimal(n / 10).push(digit_char((n % 10) as nat))
    }
}

pub open spec fn digit_char(d: nat) -> char {
    (('0' as u32) + d) as char
}

/// Decimal rendering of a `u64` (`u64::to_string`).
pub fn u64_to_decimal(n: u64) -> (r: String)
    ensures
        r@ == decimal(n as nat),
    decreases n,
{
    let d = (n % 10) as u8;
    let c = (0x30u8 + d) as char;
    assert(c == digit_char((n % 10) as nat));
    if n < 10 {
        let mut s = String::new();
        push_char(&mut s, c);
        s
    } else {
        let mut s = u64_to_decimal(n / 10);
        push_char(&mut s, c);
        s
    }
}

/// Decimal rendering of an integer, with a leading `-` when negative.
pub open spec fn signed_decimal(x: int) -> Seq<char> {
    if x < 0 {
        "-"@ + decimal((-x) as nat)
    } else {
        decimal(x as nat)
    }
}

/// Decimal rendering of an `i64` (`i64::to_string`).
pub fn i64_to_decimal(n: i64) -> (r: String)
    ensures
        r@ == signed_decimal(n as int),
{
    if n < 0 {
        let m: u64 = (0i128 - (n as i128)) as u64;
        let mut s = owned("-");
        push_str(&mut s, u64_to_decimal(m).as_str());
        s
    } else {
        u64_to_decimal(n as u64)
    }
}

/// What `str::to_lowercase` returns for a character sequence (the Unicode
/// lowercase mapping, which can change the length of the text).
pub uninterp spec fn unicode_lowercase(s: Seq<char>) -> Seq<char>;

/// `str::to_lowercase`: the Unicode lowercase mapping, which on ASCII text
/// lowers `A`-`Z` and keeps every other character.
#[verifier::external_body]
pub(crate) fn to_lowercase(s: &str) -> (r: String)
    ensures
        r@ == unicode_lowercase(s@),
        is_ascii_text(s@) ==> r@ == ascii_lowercase(s@),
{
    s.to_lowercase()
}

/// The trimmed part of `s` as a new string (`str::trim` then `to_string`).
pub fn trimmed(s: &str) -> (r: String)
    ensures
        r@ == trim(s@),
{
    let v = chars_of(s);
    let (a, b) = trim_bounds(&v);
    string_from_chars(&v.as_slice()[a..b])
}

/// Equality of two strings by their characters.
pub fn same_text(a: &str, b: &str) -> (r: bool)
    ensures
        r == (a@ == b@),
{
    owned(a) == owned(b)
}

/// Number of leading characters before the first whitespace.
pub open spec fn leading_word_len(s: Seq<char>) -> nat
    decreases s.len(),
{
    if s.len() == 0 || is_unicode_whitespace(s[0]) {
        0
    } else {
        1 + leading_word_len(s.drop_first())
    }
}

/// The whitespace-separated words of a text (`str::split_whitespace`).
pub open spec fn words_of(s: Seq<char>) -> Seq<Seq<char>>
    decreases s.len(),
{
    if s.len() == 0 {
        Seq::empty()
    } else if is_unicode_whitespace(s[0]) {
        words_of(s.drop_first())
    } else {
        let n = leading_word_len(s);
        proof {
            lemma_leading_word_len_bound(s);
        }
        seq![s.take(n as int)] + words_of(s.skip(n as int))
    }
}

pub proof fn lemma_leading_word_len_bound(s: Seq<char>)
    ensures
        leading_word_len(s) <= s.len(),
    decreases s.len(),
{
    if s.len() > 0 && !is_unicode_whitespace(s[0]) {
        lemma_leading_word_len_bound(s.drop_first());
    }
}

/// The words of a text, as strings.
pub fn split_words(text: &str) -> (r: Vec<String>)
    ensures
        r@.map_values(|w: String| w@) == words_of(text@),
{
    let v = chars_of(text);
    let ghost s = text@;
    let mut out: Vec<String> = Vec::new();
    let mut i: usize = 0;
    proof {
        assert(s.skip(0) =~= s);
        assert(out@.map_values(|w: String| w@) + words_of(s.skip(0)) =~= words_of(s));
    }
    while i < v.len()
        invariant
            v@ == s,
            i <= v.len(),
            out@.map_values(|w: String| w@) + words_of(s.skip(i as int)) == words_of(s),
        decreases v.len() - i,
    {
        proof {
            assert(s.skip(i as int)[0] == s[i as int]);
            assert(s.skip(i as int).drop_first() =~= s.skip(i + 1));
        }
        if is_whitespace_exec(v[i]) {
            i = i + 1;
        } else {
            let mut j: usize = i;
            while j < v.len() && !is_whitespace_exec(v[j])
                invariant
                    v@ == s,
                    i <= j <= v.len(),
                    j > i || !is_unicode_whitespace(s[i as int]),
                    i < v.len(),
                    leading_word_len(s.skip(i as int)) == (j - i) + leading_word_len(s.skip(j as int)),
                decreases v.len() - j,
            {
                proof {
                    assert(s.skip(j as int)[0] == s[j as int]);
                    assert(s.skip(j as int).drop_first() =~= s.skip(j + 1));
                }
                j = j + 1;
            }
            proof {
                if j < v.len() {
                    assert(s.skip(j as int)[0] == s[j as int]);
                } else {
                    assert(s.skip(j as int) =~= Seq::<char>::empty());
                }
                let t = s.skip(i as int);
                assert(leading_word_len(t) == j - i);
                assert(t.take((j - i) as int) =~= s.subrange(i as int, j as int));
                assert(t.skip((j - i) as int) =~= s.skip(j as int));
            }
            let w = string_from_chars(&v.as_slice()[i..j]);
            let ghost before = out@;
            out.push(w);
            proof {
                assert(out@.map_values(|w: String| w@) =~= before.map_values(|w: String| w@).push(s.subrange(i as int, j as int)));
                assert(out@.map_values(|w: String| w@) + words_of(s.skip(j as int))
                    =~= before.map_values(|w: String| w@) + words_of(s.skip(i as int)));
            }
            i = j;
        }
    }
    proof {
        assert(s.skip(i as int) =~= Seq::<char>::empty());
        assert(out@.map_values(|w: String| w@) + Seq::<Seq<char>>::empty() =~= out@.map_values(|w: String| w@));
    }
    out
}

} // verus!
