//! Text stored in the registry: UTF-16 code units, little-endian as Windows
//! stores them, ended by a NUL unit.
use vstd::prelude::*;
use crate::text::string_from_chars;

verus! {

/// The code units of `b`, two bytes each, low byte first; a trailing odd byte
/// is ignored.
pub open spec fn le_units(b: Seq<u8>) -> Seq<u16> {
    Seq::new(b.len() / 2, |i: int| (b[2 * i] + 256 * b[2 * i + 1]) as u16)
}

/// The units before the first NUL unit (all of them when there is none).
pub open spec fn until_nul(u: Seq<u16>) -> Seq<u16>
    decreases u.len(),
{
    if u.len() == 0 || u[0] == 0 {
        seq![]
    } else {
        seq![u[0]] + until_nul(u.drop_first())
    }
}

pub open spec fn is_surrogate(u: u16) -> bool {
    0xD800 <= u <= 0xDFFF
}

pub open spec fn is_high_surrogate(u: u16) -> bool {
    0xD800 <= u <= 0xDBFF
}

pub open spec fn is_low_surrogate(u: u16) -> bool {
    0xDC00 <= u <= 0xDFFF
}

/// The code point a surrogate pair stands for.
pub open spec fn pair_code_point(high: u16, low: u16) -> int {
    0x10000 + (high - 0xD800) * 0x400 + (low - 0xDC00)
}

/// The replacement character U+FFFD.
pub open spec fn replacement() -> char {
    '\u{FFFD}'
}

/// UTF-16 decoding in which every unit that is not part of a valid surrogate
/// pair becomes U+FFFD, as `String::from_utf16_lossy` decodes.
pub open spec fn decode_lossy(u: Seq<u16>) -> Seq<char>
    decreases u.len(),
{
    if u.len() == 0 {
        seq![]
    } else if !is_surrogate(u[0]) {
        seq![u[0] as char] + decode_lossy(u.drop_first())
    } else if is_high_surrogate(u[0]) && u.len() >= 2 && is_low_surrogate(u[1]) {
        seq![pair_code_point(u[0], u[1]) as char] + decode_lossy(u.skip(2))
    } else {
        seq![replacement()] + decode_lossy(u.drop_first())
    }
}

/// The text of a registry string value holding the bytes `b`.
pub open spec fn registry_text_of(b: Seq<u8>) -> Seq<char> {
    decode_lossy(until_nul(le_units(b)))
}

/// `char::from_u32`: the character with code point `v`, `None` for a
/// surrogate code point or one above U+10FFFF.
#[verifier::external_body]
fn char_from_u32(v: u32) -> (c: Option<char>)
    ensures
        (v < 0xD800 || (0xE000 <= v && v <= 0x10FFFF)) ==> c == Some(v as char),
        !(v < 0xD800 || (0xE000 <= v && v <= 0x10FFFF)) ==> c is None,
{
    char::from_u32(v)
}

fn units_of(b: &Vec<u8>) -> (u: Vec<u16>)
    ensures
        u@ == le_units(b@),
{
    let n = b.len() / 2;
    let mut u: Vec<u16> = Vec::new();
    let mut i: usize = 0;
    while i < n
        invariant
            n == b.len() / 2,
            0 <= i <= n,
            u@.len() == i,
            forall|j: int| 0 <= j < i ==> u@[j] == le_units(b@)[j],
        decreases n - i,
    {
        let lo = b[2 * i] as u16;
        let hi = b[2 * i + 1] as u16;
        u.push(lo + 256 * hi);
        i = i + 1;
    }
    assert(u@ =~= le_units(b@));
    u
}

proof fn lemma_until_nul(u: Seq<u16>, k: int)
    requires
        0 <= k <= u.len(),
        forall|j: int| 0 <= j < k ==> u[j] != 0,
        k < u.len() ==> u[k] == 0,
    ensures
        until_nul(u) == u.take(k),
    decreases k,
{
    if k > 0 {
        let d = u.drop_first();
        assert forall|j: int| 0 <= j < k - 1 implies d[j] != 0 by {
            assert(d[j] == u[j + 1]);
        }
        lemma_until_nul(d, k - 1);
        assert(seq![u[0]] + d.take(k - 1) =~= u.take(k));
    } else {
        assert(u.take(0) =~= seq![]);
    }
}

fn text_units(u: &Vec<u16>) -> (t: Vec<u16>)
    ensures
        t@ == until_nul(u@),
{
    let mut k: usize = 0;
    while k < u.len() && u[k] != 0
        invariant
            0 <= k <= u.len(),
            forall|j: int| 0 <= j < k ==> u@[j] != 0,
        decreases u.len() - k,
    {
        k = k + 1;
    }
    proof {
        lemma_until_nul(u@, k as int);
    }
    let mut t: Vec<u16> = Vec::new();
    let mut i: usize = 0;
    while i < k
        invariant
            0 <= i <= k <= u.len(),
            t@ == u@.take(i as int),
        decreases k - i,
    {
        t.push(u[i]);
        i = i + 1;
        assert(t@ =~= u@.take(i as int));
    }
    t
}

/// The characters UTF-16 code units stand for, with U+FFFD for every unit
/// that is not part of a valid surrogate pair.
pub fn decode_units(u: &Vec<u16>) -> (v: Vec<char>)
    ensures
        v@ == decode_lossy(u@),
{
    let mut v: Vec<char> = Vec::new();
    let mut i: usize = 0;
    proof {
        assert(u@.skip(0) =~= u@);
    }
    while i < u.len()
        invariant
            0 <= i <= u.len(),
            v@ + decode_lossy(u@.skip(i as int)) == decode_lossy(u@),
        decreases u.len() - i,
    {
        let ghost rest = u@.skip(i as int);
        let c = u[i];
        if c < 0xD800 || c > 0xDFFF {
            let ch = char_from_u32(c as u32).unwrap();
            assert(rest.drop_first() =~= u@.skip(i + 1));
            v.push(ch);
            i = i + 1;
            assert(v@ + decode_lossy(u@.skip(i as int)) =~= decode_lossy(u@));
        } else if c <= 0xDBFF && i + 1 < u.len() && 0xDC00 <= u[i + 1] && u[i + 1] <= 0xDFFF {
            let low = u[i + 1];
            let cp = 0x10000 + (c as u32 - 0xD800) * 0x400 + (low as u32 - 0xDC00);
            let ch = char_from_u32(cp).unwrap();
            assert(rest.skip(2) =~= u@.skip(i + 2));
            assert(rest[1] == low);
            v.push(ch);
            i = i + 2;
            assert(v@ + decode_lossy(u@.skip(i as int)) =~= decode_lossy(u@));
        } else {
            assert(rest.drop_first() =~= u@.skip(i + 1));
            v.push('\u{FFFD}');
            i = i + 1;
            assert(v@ + decode_lossy(u@.skip(i as int)) =~= decode_lossy(u@));
        }
    }
    assert(decode_lossy(u@.skip(i as int)) =~= seq![]);
    assert(v@ + seq![] =~= v@);
    v
}

/// The string UTF-16 code units stand for, with U+FFFD for every unit that
/// is not part of a valid surrogate pair.
pub fn string_of_units(u: &Vec<u16>) -> (s: String)
    ensures
        s@ == decode_lossy(u@),
{
    let v = decode_units(u);
    string_from_chars(&v)
}

/// The text of a registry string value (REG_SZ) from its raw bytes: UTF-16
/// code units, low byte first, up to the first NUL, decoded with U+FFFD for
/// every unit that is not part of a valid surrogate pair.
pub fn registry_text(b: &Vec<u8>) -> (s: String)
    ensures
        s@ == registry_text_of(b@),
{
    let u = units_of(b);
    let t = text_units(&u);
    string_of_units(&t)
}

} // verus!
