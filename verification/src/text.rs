//! Character-level string helpers: whitespace trimming, substring search and
//! byte-bounded truncation.
use vstd::prelude::*;
use vstd::utf8::{encode_utf8, encode_scalar, char_is_scalar};

verus! {

/// The characters of `s`, in order.
pub fn chars_of(s: &str) -> (v: Vec<char>)
    ensures
        v@ == s@,
{
    let mut v: Vec<char> = Vec::new();
    for c in it: s.chars()
        invariant
            v@ == it.seq().take(it.index() as int),
    {
        v.push(c);
    }
    v
}

/// Unicode `White_Space`, the property `char::is_whitespace` tests.
pub open spec fn is_white_space(c: char) -> bool {
    let v = c as u32;
    ||| 0x09 <= v <= 0x0D
    ||| v == 0x20
    ||| v == 0x85
    ||| v == 0xA0
    ||| v == 0x1680
    ||| 0x2000 <= v <= 0x200A
    ||| v == 0x2028
    ||| v == 0x2029
    ||| v == 0x202F
    ||| v == 0x205F
    ||| v == 0x3000
}

/// Whether `c` is Unicode white space, as `char::is_whitespace` tells.
pub fn is_white_space_char(c: char) -> (b: bool)
    ensures
        b == is_white_space(c),
{
    let v = c as u32;
    (0x09 <= v && v <= 0x0D) || v == 0x20 || v == 0x85 || v == 0xA0 || v == 0x1680 || (0x2000 <= v
        && v <= 0x200A) || v == 0x2028 || v == 0x2029 || v == 0x202F || v == 0x205F || v == 0x3000
}

/// `s` without its leading white space.
pub open spec fn trim_start(s: Seq<char>) -> Seq<char>
    decreases s.len(),
{
    if s.len() > 0 && is_white_space(s[0]) {
        trim_start(s.drop_first())
    } else {
        s
    }
}

/// `s` without its trailing white space.
pub open spec fn trim_end(s: Seq<char>) -> Seq<char>
    decreases s.len(),
{
    if s.len() > 0 && is_white_space(s.last()) {
        trim_end(s.drop_last())
    } else {
        s
    }
}

/// `s` without leading and trailing white space, as `str::trim` returns it.
pub open spec fn trim(s: Seq<char>) -> Seq<char> {
    trim_end(trim_start(s))
}

proof fn lemma_trim_start_skip(s: Seq<char>, i: int)
    requires
        0 <= i <= s.len(),
        forall|j: int| 0 <= j < i ==> is_white_space(#[trigger] s[j]),
    ensures
        trim_start(s) == trim_start(s.skip(i)),
    decreases i,
{
    if i > 0 {
        assert(s.skip(1) =~= s.drop_first());
        assert forall|j: int| 0 <= j < i - 1 implies is_white_space(#[trigger] s.drop_first()[j]) by {
            assert(s.drop_first()[j] == s[j + 1]);
        }
        lemma_trim_start_skip(s.drop_first(), i - 1);
        assert(s.drop_first().skip(i - 1) =~= s.skip(i));
    } else {
        assert(s.skip(0) =~= s);
    }
}

proof fn lemma_trim_end_take(s: Seq<char>, e: int)
    requires
        0 <= e <= s.len(),
        forall|j: int| e <= j < s.len() ==> is_white_space(#[trigger] s[j]),
    ensures
        trim_end(s) == trim_end(s.take(e)),
    decreases s.len() - e,
{
    if e < s.len() {
        assert(s.drop_last() =~= s.take(s.len() - 1));
        assert forall|j: int| e <= j < s.drop_last().len() implies is_white_space(#[trigger] s.drop_last()[j]) by {
            assert(s.drop_last()[j] == s[j]);
        }
        lemma_trim_end_take(s.drop_last(), e);
        assert(s.drop_last().take(e) =~= s.take(e));
    } else {
        assert(s.take(e) =~= s);
    }
}

/// `trim` of a character sequence.
pub fn trim_chars(s: &Vec<char>) -> (t: Vec<char>)
    ensures
        t@ == trim(s@),
{
    let n = s.len();
    let mut start: usize = 0;
    while start < n && is_white_space_char(s[start])
        invariant
            n == s.len(),
            0 <= start <= n,
            forall|j: int| 0 <= j < start ==> is_white_space(#[trigger] s@[j]),
        decreases n - start,
    {
        start = start + 1;
    }
    proof {
        lemma_trim_start_skip(s@, start as int);
        assert(trim_start(s@.skip(start as int)) == s@.skip(start as int));
    }
    let mut end: usize = n;
    while end > start && is_white_space_char(s[end - 1])
        invariant
            n == s.len(),
            start <= end <= n,
            forall|j: int| end <= j < n ==> is_white_space(#[trigger] s@[j]),
        decreases end - start,
    {
        end = end - 1;
    }
    let ghost mid = s@.skip(start as int);
    proof {
        assert forall|j: int| end - start <= j < mid.len() implies is_white_space(#[trigger] mid[j]) by {
            assert(mid[j] == s@[j + start]);
        }
        lemma_trim_end_take(mid, end - start);
        let m2 = mid.take(end - start);
        if m2.len() > 0 {
            assert(m2.last() == s@[end - 1]);
        }
        assert(trim_end(m2) == m2);
    }
    let mut t: Vec<char> = Vec::new();
    let mut i: usize = start;
    while i < end
        invariant
            n == s.len(),
            start <= i <= end <= n,
            t@ == s@.subrange(start as int, i as int),
        decreases end - i,
    {
        t.push(s[i]);
        i = i + 1;
    }
    assert(t@ =~= mid.take(end - start));
    t
}

/// `needle` occurs in `hay` starting at position `i`.
pub open spec fn occurs_at(hay: Seq<char>, needle: Seq<char>, i: int) -> bool {
    0 <= i && i + needle.len() <= hay.len() && hay.subrange(i, i + needle.len()) == needle
}

/// `needle` occurs somewhere in `hay`, as `str::contains` tests it (the empty
/// string occurs in every string).
pub open spec fn contains_seq(hay: Seq<char>, needle: Seq<char>) -> bool {
    exists|i: int| occurs_at(hay, needle, i)
}

fn matches_at(hay: &Vec<char>, needle: &Vec<char>, i: usize) -> (b: bool)
    requires
        i + needle.len() <= hay.len(),
    ensures
        b == occurs_at(hay@, needle@, i as int),
{
    let m = needle.len();
    let mut k: usize = 0;
    while k < m
        invariant
            m == needle.len(),
            i + m <= hay.len(),
            0 <= k <= m,
            forall|j: int| 0 <= j < k ==> hay@[i + j] == needle@[j],
        decreases m - k,
    {
        if hay[i + k] != needle[k] {
            assert(hay@.subrange(i as int, i + m)[k as int] != needle@[k as int]);
            return false;
        }
        k = k + 1;
    }
    assert(hay@.subrange(i as int, i + m) =~= needle@);
    true
}

/// Whether `needle` occurs in `hay`.
pub fn contains_chars(hay: &Vec<char>, needle: &Vec<char>) -> (b: bool)
    ensures
        b == contains_seq(hay@, needle@),
{
    let n = hay.len();
    let m = needle.len();
    if m > n {
        return false;
    }
    let mut i: usize = 0;
    loop
        invariant
            n == hay.len(),
            m == needle.len(),
            m <= n,
            0 <= i <= n - m,
            forall|j: int| 0 <= j < i ==> !#[trigger] occurs_at(hay@, needle@, j),
        decreases n - m - i,
    {
        if matches_at(hay, needle, i) {
            return true;
        }
        if i == n - m {
            return false;
        }
        i = i + 1;
    }
}

/// Whether string `needle` occurs in string `hay`.
pub fn str_contains(hay: &str, needle: &str) -> (b: bool)
    ensures
        b == contains_seq(hay@, needle@),
{
    let h = chars_of(hay);
    let n = chars_of(needle);
    contains_chars(&h, &n)
}

/// Number of bytes in the UTF-8 encoding of `c`.
pub open spec fn utf8_width(c: char) -> int {
    let v = c as u32;
    if v <= 0x7F {
        1
    } else if v <= 0x7FF {
        2
    } else if v <= 0xFFFF {
        3
    } else {
        4
    }
}

/// Number of bytes in the UTF-8 encoding of `s`.
pub open spec fn utf8_size(s: Seq<char>) -> int
    decreases s.len(),
{
    if s.len() == 0 {
        0
    } else {
        utf8_size(s.drop_last()) + utf8_width(s.last())
    }
}

/// The number of bytes `c` takes in UTF-8.
pub fn utf8_width_of(c: char) -> (w: usize)
    ensures
        w == utf8_width(c),
        1 <= w <= 4,
{
    let v = c as u32;
    if v <= 0x7F {
        1
    } else if v <= 0x7FF {
        2
    } else if v <= 0xFFFF {
        3
    } else {
        4
    }
}

proof fn lemma_utf8_size_monotone(s: Seq<char>, i: int, j: int)
    requires
        0 <= i <= j <= s.len(),
    ensures
        utf8_size(s.take(i)) <= utf8_size(s.take(j)),
        utf8_size(s.take(i)) >= i,
    decreases j,
{
    if j > i {
        assert(s.take(j).drop_last() =~= s.take(j - 1));
        lemma_utf8_size_monotone(s, i, j - 1);
    } else if i > 0 {
        assert(s.take(i).drop_last() =~= s.take(i - 1));
        lemma_utf8_size_monotone(s, i - 1, i - 1);
    } else {
        assert(s.take(0).len() == 0);
    }
}

/// The longest prefix of `s` whose UTF-8 encoding fits in `max_bytes`.
pub open spec fn fitting_prefix_len(s: Seq<char>, max_bytes: int) -> int
    decreases s.len(),
{
    if utf8_size(s) <= max_bytes || s.len() == 0 {
        s.len() as int
    } else {
        fitting_prefix_len(s.drop_last(), max_bytes)
    }
}

/// A title cut to at most `max_bytes` bytes of UTF-8 at a character boundary,
/// with an ellipsis appended when anything was cut.
pub open spec fn truncated_title(s: Seq<char>, max_bytes: int) -> Seq<char> {
    if utf8_size(s) <= max_bytes {
        s
    } else {
        s.take(fitting_prefix_len(s, max_bytes)).push('\u{2026}')
    }
}

proof fn lemma_fitting_prefix(s: Seq<char>, max_bytes: int, k: int)
    requires
        0 <= max_bytes,
        0 <= k <= s.len(),
        utf8_size(s.take(k)) <= max_bytes,
        k == s.len() || utf8_size(s.take(k + 1)) > max_bytes,
    ensures
        fitting_prefix_len(s, max_bytes) == k,
    decreases s.len(),
{
    assert(s.take(s.len() as int) =~= s);
    if k < s.len() {
        lemma_utf8_size_monotone(s, k + 1, s.len() as int);
        assert(utf8_size(s) > max_bytes);
        assert(s.drop_last().take(k) =~= s.take(k));
        if k + 1 <= s.len() - 1 {
            assert(s.drop_last().take(k + 1) =~= s.take(k + 1));
        }
        lemma_fitting_prefix(s.drop_last(), max_bytes, k);
    }
}

proof fn lemma_utf8_size_front(s: Seq<char>)
    requires
        s.len() > 0,
    ensures
        utf8_size(s) == utf8_width(s[0]) + utf8_size(s.drop_first()),
    decreases s.len(),
{
    if s.len() > 1 {
        lemma_utf8_size_front(s.drop_last());
        assert(utf8_size(s) == utf8_size(s.drop_last()) + utf8_width(s.last()));
        assert(s.drop_last().drop_first() =~= s.drop_first().drop_last());
        assert(s.drop_last()[0] == s[0]);
        assert(s.drop_first().last() == s.last());
        assert(utf8_size(s.drop_first()) == utf8_size(s.drop_first().drop_last()) + utf8_width(s.drop_first().last()));
    } else {
        assert(s.drop_first().len() == 0);
        assert(s.drop_last().len() == 0);
        assert(utf8_size(s.drop_first()) == 0);
        assert(utf8_size(s.drop_last()) == 0);
        assert(s.last() == s[0]);
    }
}

/// `utf8_size` is the length of the UTF-8 encoding.
pub proof fn lemma_utf8_size_is_encoded_length(s: Seq<char>)
    ensures
        utf8_size(s) == encode_utf8(s).len(),
    decreases s.len(),
{
    if s.len() > 0 {
        lemma_utf8_size_front(s);
        lemma_utf8_size_is_encoded_length(s.drop_first());
        char_is_scalar(s[0]);
        assert(encode_scalar(s[0] as u32).len() == utf8_width(s[0]));
    }
}

/// A title whose UTF-8 encoding fits in `max_bytes` comes back unchanged;
/// otherwise the kept part fits in `max_bytes`, is a prefix of the title, and
/// is followed by an ellipsis.
pub proof fn lemma_truncation_bounds(s: Seq<char>, max_bytes: nat)
    ensures
        encode_utf8(s).len() <= max_bytes ==> truncated_title(s, max_bytes as int) == s,
        encode_utf8(s).len() > max_bytes ==> {
            let r = truncated_title(s, max_bytes as int);
            &&& r.last() == '\u{2026}'
            &&& r.drop_last().is_prefix_of(s)
            &&& encode_utf8(r.drop_last()).len() <= max_bytes
        },
{
    lemma_utf8_size_is_encoded_length(s);
    if encode_utf8(s).len() > max_bytes {
        let k = fitting_prefix_len(s, max_bytes as int);
        lemma_fitting_prefix_props(s, max_bytes as int);
        let r = truncated_title(s, max_bytes as int);
        assert(r.drop_last() =~= s.take(k));
        lemma_utf8_size_is_encoded_length(s.take(k));
    }
}

proof fn lemma_fitting_prefix_props(s: Seq<char>, max_bytes: int)
    requires
        0 <= max_bytes,
    ensures
        0 <= fitting_prefix_len(s, max_bytes) <= s.len(),
        utf8_size(s.take(fitting_prefix_len(s, max_bytes))) <= max_bytes,
    decreases s.len(),
{
    assert(s.take(s.len() as int) =~= s);
    if !(utf8_size(s) <= max_bytes || s.len() == 0) {
        lemma_fitting_prefix_props(s.drop_last(), max_bytes);
        let k = fitting_prefix_len(s.drop_last(), max_bytes);
        assert(s.drop_last().take(k) =~= s.take(k));
    }
}

/// Appends `c` to `s` with `String::push`.
#[verifier::external_body]
fn string_push(s: &mut String, c: char)
    ensures
        final(s)@ == old(s)@.push(c),
{
    s.push(c);
}

/// A `String` holding the characters of `v`.
pub fn string_from_chars(v: &Vec<char>) -> (s: String)
    ensures
        s@ == v@,
{
    let mut s = String::new();
    let mut i: usize = 0;
    while i < v.len()
        invariant
            0 <= i <= v.len(),
            s@ == v@.take(i as int),
        decreases v.len() - i,
    {
        string_push(&mut s, v[i]);
        i = i + 1;
        assert(s@ =~= v@.take(i as int));
    }
    assert(v@.take(v.len() as int) =~= v@);
    s
}

/// Truncate a title to at most `max_bytes` bytes of UTF-8 without splitting a
/// character; an ellipsis marks a cut.
pub fn truncate_title(s: &str, max_bytes: usize) -> (r: String)
    ensures
        r@ == truncated_title(s@, max_bytes as int),
{
    let v = truncated_chars(s, max_bytes);
    string_from_chars(&v)
}

fn truncated_chars(s: &str, max_bytes: usize) -> (r: Vec<char>)
    ensures
        r@ == truncated_title(s@, max_bytes as int),
{
    let v = chars_of(s);
    let n = v.len();
    let mut k: usize = 0;
    let mut used: usize = 0;
    while k < n && utf8_width_of(v[k]) <= max_bytes - used
        invariant
            n == v.len(),
            v@ == s@,
            0 <= k <= n,
            used == utf8_size(v@.take(k as int)),
            used <= max_bytes,
        decreases n - k,
    {
        let w = utf8_width_of(v[k]);
        assert(v@.take(k + 1).drop_last() =~= v@.take(k as int));
        used = used + w;
        k = k + 1;
    }
    proof {
        if k < n {
            assert(v@.take(k + 1).drop_last() =~= v@.take(k as int));
        }
        lemma_fitting_prefix(v@, max_bytes as int, k as int);
        assert(v@.take(n as int) =~= v@);
    }
    if k == n {
        return v;
    }
    let mut r: Vec<char> = Vec::new();
    let mut i: usize = 0;
    while i < k
        invariant
            k <= n == v.len(),
            0 <= i <= k,
            r@ == v@.take(i as int),
        decreases k - i,
    {
        r.push(v[i]);
        i = i + 1;
        assert(r@ =~= v@.take(i as int));
    }
    r.push('\u{2026}');
    proof {
        lemma_utf8_size_monotone(v@, k + 1, n as int);
        assert(v@.take(n as int) =~= v@);
    }
    r
}

} // verus!
