//! Parsing of virtual-desktop GUID strings such as
//! "{XXXXXXXX-XXXX-XXXX-XXXX-XXXXXXXXXXXX}" into their 16-byte binary form.
use vstd::prelude::*;
use crate::text::{chars_of, is_white_space, trim, trim_chars, trim_end, trim_start, utf8_size, utf8_width, utf8_width_of};

verus! {

/// The value of a hexadecimal digit, if `c` is one.
pub open spec fn hex_digit(c: char) -> Option<int> {
    if '0' <= c && c <= '9' {
        Some(c as int - '0' as int)
    } else if 'a' <= c && c <= 'f' {
        Some(c as int - 'a' as int + 10)
    } else if 'A' <= c && c <= 'F' {
        Some(c as int - 'A' as int + 10)
    } else {
        None
    }
}

pub open spec fn all_hex(ds: Seq<char>) -> bool {
    forall|i: int| 0 <= i < ds.len() ==> #[trigger] hex_digit(ds[i]) is Some
}

/// The number a sequence of hexadecimal digits denotes.
pub open spec fn hex_value(ds: Seq<char>) -> int
    decreases ds.len(),
{
    if ds.len() == 0 {
        0
    } else {
        hex_value(ds.drop_last()) * 16 + hex_digit(ds.last())->0
    }
}

/// What `from_str_radix(s, 16)` gives for an unsigned type whose values are
/// below `bound`: an optional leading `+`, then at least one hexadecimal
/// digit, denoting a value below `bound`.
pub open spec fn radix16(s: Seq<char>, bound: int) -> Option<int> {
    if s.len() == 0 {
        None
    } else if s.len() == 1 && (s[0] == '+' || s[0] == '-') {
        None
    } else {
        let ds = if s[0] == '+' { s.drop_first() } else { s };
        if all_hex(ds) && hex_value(ds) < bound {
            Some(hex_value(ds))
        } else {
            None
        }
    }
}

pub open spec fn is_ascii_char(c: char) -> bool {
    (c as u32) < 0x80
}

/// Bytes read from pairs of characters, two bytes of UTF-8 at a time. `None`
/// stands for a two-byte slice whose end falls inside a multi-byte character
/// (string slicing panics there); `Some(None)` for a pair that is not a
/// hexadecimal byte.
pub open spec fn hex_pairs(t: Seq<char>) -> Option<Option<Seq<u8>>>
    decreases t.len(),
{
    if t.len() == 0 {
        Some(Some(seq![]))
    } else if is_ascii_char(t[0]) {
        if t.len() >= 2 && is_ascii_char(t[1]) {
            match radix16(t.take(2), 256) {
                Some(b) => prepend_byte(b as u8, hex_pairs(t.skip(2))),
                None => Some(None),
            }
        } else {
            None
        }
    } else if utf8_width(t[0]) == 2 {
        Some(None)
    } else {
        None
    }
}

pub open spec fn prepend_byte(b: u8, o: Option<Option<Seq<u8>>>) -> Option<Option<Seq<u8>>> {
    prepend_bytes(seq![b], o)
}

pub open spec fn prepend_bytes(p: Seq<u8>, o: Option<Option<Seq<u8>>>) -> Option<Option<Seq<u8>>> {
    match o {
        Some(Some(rest)) => Some(Some(p + rest)),
        other => other,
    }
}

/// The bytes a string of hexadecimal digit pairs denotes, after trimming
/// white space; `Some(None)` when it is not such a string.
pub open spec fn hex_bytes(s: Seq<char>) -> Option<Option<Seq<u8>>> {
    let t = trim(s);
    if utf8_size(t) % 2 != 0 {
        Some(None)
    } else {
        hex_pairs(t)
    }
}

/// `s` split at every '-', as `str::split('-')` does.
pub open spec fn split_dash(s: Seq<char>) -> Seq<Seq<char>>
    decreases s.len(),
{
    if s.len() == 0 {
        seq![seq![]]
    } else {
        let init = split_dash(s.drop_last());
        if s.last() == '-' {
            init.push(seq![])
        } else {
            init.update(init.len() - 1, init.last().push(s.last()))
        }
    }
}

pub open spec fn strip_open_brace(s: Seq<char>) -> Seq<char> {
    if s.len() > 0 && s[0] == '{' { s.drop_first() } else { s }
}

pub open spec fn strip_close_brace(s: Seq<char>) -> Seq<char> {
    if s.len() > 0 && s.last() == '}' { s.drop_last() } else { s }
}

/// Little-endian bytes of the `n`-byte unsigned value `v`.
pub open spec fn le_bytes(v: int, n: nat) -> Seq<u8>
    decreases n,
{
    if n == 0 {
        seq![]
    } else {
        seq![(v % 256) as u8] + le_bytes(v / 256, (n - 1) as nat)
    }
}

/// The outcome of parsing a GUID string: the first three groups are numbers
/// stored little-endian (4, 2 and 2 bytes), the last two are byte strings
/// stored in order. `None` stands for the slice panic described at
/// `hex_pairs`; `Some(None)` for a string that is not a GUID.
pub open spec fn guid_outcome(s: Seq<char>) -> Option<Option<Seq<u8>>> {
    let parts = split_dash(strip_close_brace(strip_open_brace(trim(s))));
    if parts.len() != 5 {
        Some(None)
    } else {
        match (radix16(parts[0], 0x1_0000_0000), radix16(parts[1], 0x1_0000), radix16(parts[2], 0x1_0000)) {
            (Some(d1), Some(d2), Some(d3)) => match hex_bytes(parts[3]) {
                Some(Some(d4)) => prepend_bytes(
                    le_bytes(d1, 4) + le_bytes(d2, 2) + le_bytes(d3, 2) + d4,
                    hex_bytes(parts[4]),
                ),
                other => other,
            },
            _ => Some(None),
        }
    }
}

/// The three outcomes of the internal parsers.
enum Parsed {
    Bytes(Vec<u8>),
    Rejected,
    SliceInsideChar,
}

spec fn parsed_view(p: Parsed) -> Option<Option<Seq<u8>>> {
    match p {
        Parsed::Bytes(v) => Some(Some(v@)),
        Parsed::Rejected => Some(None),
        Parsed::SliceInsideChar => None,
    }
}

fn hex_digit_of(c: char) -> (d: Option<u64>)
    ensures
        d is Some <==> hex_digit(c) is Some,
        d is Some ==> d->0 == hex_digit(c)->0 && d->0 < 16,
{
    if '0' <= c && c <= '9' {
        Some((c as u32 - '0' as u32) as u64)
    } else if 'a' <= c && c <= 'f' {
        Some((c as u32 - 'a' as u32 + 10) as u64)
    } else if 'A' <= c && c <= 'F' {
        Some((c as u32 - 'A' as u32 + 10) as u64)
    } else {
        None
    }
}

proof fn lemma_hex_value_grows(ds: Seq<char>, k: int)
    requires
        0 <= k <= ds.len(),
        all_hex(ds),
    ensures
        hex_value(ds.take(k)) <= hex_value(ds),
        0 <= hex_value(ds.take(k)),
    decreases ds.len() - k,
{
    if k < ds.len() {
        lemma_hex_value_grows(ds, k + 1);
        assert(ds.take(k + 1).drop_last() =~= ds.take(k));
        assert(hex_digit(ds.take(k + 1).last()) is Some);
    } else {
        assert(ds.take(k) =~= ds);
    }
    lemma_hex_value_nonneg(ds.take(k));
}

proof fn lemma_hex_value_nonneg(ds: Seq<char>)
    ensures
        all_hex(ds) ==> 0 <= hex_value(ds),
    decreases ds.len(),
{
    if ds.len() > 0 {
        if all_hex(ds) {
            assert(all_hex(ds.drop_last())) by {
                assert forall|i: int| 0 <= i < ds.drop_last().len() implies #[trigger] hex_digit(ds.drop_last()[i]) is Some by {
                    assert(ds.drop_last()[i] == ds[i]);
                }
            }
            assert(hex_digit(ds[ds.len() - 1]) is Some);
        }
        lemma_hex_value_nonneg(ds.drop_last());
    }
}

/// `from_str_radix(s, 16)` for an unsigned type with values below `bound`.
#[verifier::spinoff_prover]
#[verifier::rlimit(40)]
fn parse_radix16(s: &Vec<char>, bound: u64) -> (r: Option<u64>)
    requires
        0 < bound <= 0x1_0000_0000,
    ensures
        r is Some <==> radix16(s@, bound as int) is Some,
        r is Some ==> r->0 == radix16(s@, bound as int)->0,
{
    let n = s.len();
    if n == 0 {
        return None;
    }
    if n == 1 && (s[0] == '+' || s[0] == '-') {
        return None;
    }
    let start: usize = if s[0] == '+' { 1 } else { 0 };
    let ghost ds = if s@[0] == '+' { s@.drop_first() } else { s@ };
    assert(ds =~= s@.skip(start as int));
    let mut acc: u64 = 0;
    let mut i: usize = start;
    while i < n
        invariant
            n == s.len(),
            0 < bound <= 0x1_0000_0000,
            start <= i <= n,
            ds == s@.skip(start as int),
            n > 0,
            !(n == 1 && (s@[0] == '+' || s@[0] == '-')),
            ds == (if s@[0] == '+' { s@.drop_first() } else { s@ }),
            forall|j: int| 0 <= j < i - start ==> #[trigger] hex_digit(ds[j]) is Some,
            acc == hex_value(ds.take(i - start)),
            acc < bound,
        decreases n - i,
    {
        let d = hex_digit_of(s[i]);
        assert(ds[i - start] == s@[i as int]);
        assert(ds.take(i - start + 1).drop_last() =~= ds.take(i - start));
        match d {
            None => {
                assert(hex_digit(ds[i - start]) is None);
                assert(!all_hex(ds));
                return None;
            },
            Some(v) => {
                let next = acc * 16 + v;
                if next >= bound {
                    proof {
                        let k = i - start + 1;
                        if all_hex(ds) {
                            lemma_hex_value_grows(ds, k);
                            assert(ds.take(k).last() == ds[i - start]);
                            assert(hex_value(ds.take(k)) == next);
                            assert(hex_value(ds) >= bound);
                        }
                        assert(!(all_hex(ds) && hex_value(ds) < bound));
                    }
                    return None;
                }
                acc = next;
            },
        }
        i = i + 1;
    }
    assert(ds.take(n - start) =~= ds);
    Some(acc)
}

proof fn lemma_radix16_pair(t: Seq<char>)
    requires
        t.len() == 2,
    ensures
        radix16(t, 256) is Some ==> 0 <= radix16(t, 256)->0 < 256,
{
    if radix16(t, 256) is Some {
        let ds = if t[0] == '+' { t.drop_first() } else { t };
        lemma_hex_value_nonneg(ds);
    }
}

/// Bytes from pairs of characters, starting at position `from` of `t`.
fn hex_pairs_from(t: &Vec<char>) -> (r: Parsed)
    ensures
        parsed_view(r) == hex_pairs(t@),
{
    let n = t.len();
    let mut out: Vec<u8> = Vec::new();
    let mut i: usize = 0;
    proof {
        assert(t@.skip(0) =~= t@);
        match hex_pairs(t@) {
            Some(Some(x)) => {
                assert(out@ + x =~= x);
            },
            _ => {},
        }
    }
    while i < n
        invariant
            n == t.len(),
            0 <= i <= n,
            hex_pairs(t@) == prepend_bytes(out@, hex_pairs(t@.skip(i as int))),
        decreases n - i,
    {
        let ghost rest = t@.skip(i as int);
        let c0 = t[i];
        assert(rest[0] == c0);
        if (c0 as u32) < 0x80 {
            if i + 1 < n && (t[i + 1] as u32) < 0x80 {
                let mut pair: Vec<char> = Vec::new();
                pair.push(c0);
                pair.push(t[i + 1]);
                assert(rest[1] == t@[i + 1]);
                assert(pair@ =~= rest.take(2));
                let b = parse_radix16(&pair, 256);
                match b {
                    None => {
                        return Parsed::Rejected;
                    },
                    Some(v) => {
                        proof {
                            lemma_radix16_pair(rest.take(2));
                            assert(rest.skip(2) =~= t@.skip(i + 2));
                            assert(out@.push(v as u8) =~= out@ + seq![v as u8]);
                            let o = hex_pairs(t@.skip(i + 2));
                            match o {
                                Some(Some(x)) => {
                                    assert(out@ + (seq![v as u8] + x) =~= out@.push(v as u8) + x);
                                },
                                _ => {},
                            }
                        }
                        out.push(v as u8);
                        i = i + 2;
                    },
                }
            } else {
                return Parsed::SliceInsideChar;
            }
        } else if utf8_width_of(c0) == 2 {
            return Parsed::Rejected;
        } else {
            return Parsed::SliceInsideChar;
        }
    }
    assert(t@.skip(n as int).len() == 0);
    assert(out@ + seq![] =~= out@);
    Parsed::Bytes(out)
}

proof fn lemma_utf8_size_parity_step(s: Seq<char>, k: int)
    requires
        0 <= k < s.len(),
    ensures
        utf8_size(s.take(k + 1)) == utf8_size(s.take(k)) + utf8_width(s[k]),
{
    assert(s.take(k + 1).drop_last() =~= s.take(k));
}

/// `hex_bytes` of a character sequence.
fn hex_str_to_bytes(s: &Vec<char>) -> (r: Parsed)
    ensures
        parsed_view(r) == hex_bytes(s@),
{
    let t = trim_chars(s);
    let n = t.len();
    let mut odd = false;
    let mut i: usize = 0;
    while i < n
        invariant
            n == t.len(),
            0 <= i <= n,
            odd == (utf8_size(t@.take(i as int)) % 2 != 0),
        decreases n - i,
    {
        proof {
            lemma_utf8_size_parity_step(t@, i as int);
        }
        let w = utf8_width_of(t[i]);
        if w % 2 == 1 {
            odd = !odd;
        }
        i = i + 1;
    }
    assert(t@.take(n as int) =~= t@);
    if odd {
        return Parsed::Rejected;
    }
    hex_pairs_from(&t)
}

pub open spec fn views_of(v: Seq<Vec<char>>) -> Seq<Seq<char>> {
    v.map_values(|x: Vec<char>| x@)
}

/// `split_dash` of a character sequence.
fn split_on_dash(s: &Vec<char>) -> (parts: Vec<Vec<char>>)
    ensures
        views_of(parts@) == split_dash(s@),
{
    let n = s.len();
    let mut parts: Vec<Vec<char>> = Vec::new();
    let mut cur: Vec<char> = Vec::new();
    let mut i: usize = 0;
    assert(s@.take(0).len() == 0);
    assert(split_dash(s@.take(0)) =~= views_of(parts@).push(cur@));
    while i < n
        invariant
            n == s.len(),
            0 <= i <= n,
            split_dash(s@.take(i as int)) == views_of(parts@).push(cur@),
        decreases n - i,
    {
        let c = s[i];
        let ghost before = views_of(parts@);
        assert(s@.take(i + 1).drop_last() =~= s@.take(i as int));
        assert(s@.take(i + 1).last() == c);
        if c == '-' {
            let done = cur;
            parts.push(done);
            cur = Vec::new();
            assert(views_of(parts@) =~= before.push(done@));
            assert(split_dash(s@.take(i + 1)) =~= views_of(parts@).push(cur@));
        } else {
            let ghost old_cur = cur@;
            cur.push(c);
            assert(views_of(parts@) =~= before);
            assert(split_dash(s@.take(i + 1)) =~= before.push(old_cur).update(before.len() as int, old_cur.push(c)));
            assert(split_dash(s@.take(i + 1)) =~= views_of(parts@).push(cur@));
        }
        i = i + 1;
    }
    assert(s@.take(n as int) =~= s@);
    let ghost before = views_of(parts@);
    let last = cur;
    parts.push(last);
    assert(views_of(parts@) =~= before.push(last@));
    parts
}

fn strip_braces(s: &Vec<char>) -> (r: Vec<char>)
    ensures
        r@ == strip_close_brace(strip_open_brace(s@)),
{
    let n = s.len();
    let start: usize = if n > 0 && s[0] == '{' { 1 } else { 0 };
    let ghost a = strip_open_brace(s@);
    assert(a =~= s@.skip(start as int));
    let end: usize = if n > start && s[n - 1] == '}' { n - 1 } else { n };
    proof {
        if a.len() > 0 {
            assert(a.last() == s@[n - 1]);
        }
    }
    let mut r: Vec<char> = Vec::new();
    let mut i: usize = start;
    while i < end
        invariant
            start <= i <= end <= n == s.len(),
            r@ == s@.subrange(start as int, i as int),
        decreases end - i,
    {
        r.push(s[i]);
        i = i + 1;
    }
    assert(r@ =~= strip_close_brace(a));
    r
}

/// Append the `n` little-endian bytes of `v` to `out`.
pub fn push_le_bytes(out: &mut Vec<u8>, v: u32, n: usize)
    requires
        n <= 4,
        (v as int) < pow256(n as nat),
    ensures
        final(out)@ == old(out)@ + le_bytes(v as int, n as nat),
{
    let mut x = v;
    let mut k: usize = 0;
    let ghost start = old(out)@;
    while k < n
        invariant
            0 <= k <= n <= 4,
            start + le_bytes(v as int, n as nat) == out@ + le_bytes(x as int, (n - k) as nat),
        decreases n - k,
    {
        let ghost rem = le_bytes(x as int, (n - k) as nat);
        assert(rem =~= seq![(x % 256) as u8] + le_bytes(x as int / 256, (n - k - 1) as nat));
        out.push((x % 256) as u8);
        x = x / 256;
        k = k + 1;
        assert(out@ + le_bytes(x as int, (n - k) as nat) =~= start + le_bytes(v as int, n as nat));
    }
    assert(out@ + le_bytes(x as int, 0) =~= out@);
}

pub open spec fn pow256(n: nat) -> int
    decreases n,
{
    if n == 0 { 1 } else { 256 * pow256((n - 1) as nat) }
}

fn parse_guid_chars(s: &Vec<char>) -> (r: Parsed)
    ensures
        parsed_view(r) == guid_outcome(s@),
{
    let t = trim_chars(s);
    let stripped = strip_braces(&t);
    let parts = split_on_dash(&stripped);
    let ghost pv = views_of(parts@);
    if parts.len() != 5 {
        return Parsed::Rejected;
    }
    assert(pv[0] == parts@[0]@ && pv[1] == parts@[1]@ && pv[2] == parts@[2]@);
    assert(pv[3] == parts@[3]@ && pv[4] == parts@[4]@);
    let d1 = match parse_radix16(&parts[0], 0x1_0000_0000) {
        Some(v) => v,
        None => {
            return Parsed::Rejected;
        },
    };
    let d2 = match parse_radix16(&parts[1], 0x1_0000) {
        Some(v) => v,
        None => {
            return Parsed::Rejected;
        },
    };
    let d3 = match parse_radix16(&parts[2], 0x1_0000) {
        Some(v) => v,
        None => {
            return Parsed::Rejected;
        },
    };
    let d4 = match hex_str_to_bytes(&parts[3]) {
        Parsed::Bytes(b) => b,
        Parsed::Rejected => {
            return Parsed::Rejected;
        },
        Parsed::SliceInsideChar => {
            return Parsed::SliceInsideChar;
        },
    };
    let d5 = match hex_str_to_bytes(&parts[4]) {
        Parsed::Bytes(b) => b,
        Parsed::Rejected => {
            return Parsed::Rejected;
        },
        Parsed::SliceInsideChar => {
            return Parsed::SliceInsideChar;
        },
    };
    let mut bytes: Vec<u8> = Vec::new();
    proof {
        reveal_with_fuel(pow256, 5);
        assert(pow256(4) == 0x1_0000_0000);
        assert(pow256(2) == 0x1_0000);
    }
    push_le_bytes(&mut bytes, d1 as u32, 4);
    push_le_bytes(&mut bytes, d2 as u32, 2);
    push_le_bytes(&mut bytes, d3 as u32, 2);
    let mut i: usize = 0;
    let ghost head = bytes@;
    while i < d4.len()
        invariant
            0 <= i <= d4.len(),
            bytes@ == head + d4@.take(i as int),
        decreases d4.len() - i,
    {
        bytes.push(d4[i]);
        i = i + 1;
        assert(bytes@ =~= head + d4@.take(i as int));
    }
    assert(d4@.take(d4.len() as int) =~= d4@);
    let mut j: usize = 0;
    let ghost head2 = bytes@;
    while j < d5.len()
        invariant
            0 <= j <= d5.len(),
            bytes@ == head2 + d5@.take(j as int),
        decreases d5.len() - j,
    {
        bytes.push(d5[j]);
        j = j + 1;
        assert(bytes@ =~= head2 + d5@.take(j as int));
    }
    assert(d5@.take(d5.len() as int) =~= d5@);
    Parsed::Bytes(bytes)
}

/// The groups of a GUID string: split at '-' after trimming white space and
/// removing an optional opening and closing brace.
pub open spec fn guid_groups(s: Seq<char>) -> Seq<Seq<char>> {
    split_dash(strip_close_brace(strip_open_brace(trim(s))))
}

/// The number of hexadecimal digits of group `i` of a GUID: 8-4-4-4-12.
pub open spec fn group_len(i: int) -> int {
    if i == 0 {
        8
    } else if i == 4 {
        12
    } else {
        4
    }
}

/// `s` is a GUID string: once trimmed and without its optional braces, five
/// groups of 8, 4, 4, 4 and 12 hexadecimal digits separated by '-'.
pub open spec fn is_guid_text(s: Seq<char>) -> bool {
    let g = guid_groups(s);
    g.len() == 5 && forall|i: int| 0 <= i < 5 ==> #[trigger] g[i].len() == group_len(i) && all_hex(g[i])
}

/// The bytes a string of hexadecimal digit pairs denotes, in order.
pub open spec fn pair_bytes(t: Seq<char>) -> Seq<u8> {
    Seq::new((t.len() / 2) as nat, |i: int| hex_value(t.subrange(2 * i, 2 * i + 2)) as u8)
}

/// The binary GUID a GUID string denotes: the first three groups as
/// little-endian numbers of 4, 2 and 2 bytes, the last two byte by byte.
/// `None` for a string that is not a GUID.
pub open spec fn guid_bytes(s: Seq<char>) -> Option<Seq<u8>> {
    let g = guid_groups(s);
    if is_guid_text(s) {
        Some(
            le_bytes(hex_value(g[0]), 4) + le_bytes(hex_value(g[1]), 2) + le_bytes(hex_value(g[2]), 2)
                + pair_bytes(g[3]) + pair_bytes(g[4]),
        )
    } else {
        None
    }
}

pub open spec fn pow16(n: nat) -> int
    decreases n,
{
    if n == 0 { 1 } else { 16 * pow16((n - 1) as nat) }
}

proof fn lemma_hex_value_bound(ds: Seq<char>)
    requires
        all_hex(ds),
    ensures
        0 <= hex_value(ds) < pow16(ds.len()),
    decreases ds.len(),
{
    if ds.len() > 0 {
        let d = ds.drop_last();
        assert forall|i: int| 0 <= i < d.len() implies #[trigger] hex_digit(d[i]) is Some by {
            assert(d[i] == ds[i]);
        }
        lemma_hex_value_bound(d);
        assert(hex_digit(ds[ds.len() - 1]) is Some);
        let h = hex_value(d);
        let p = pow16(d.len());
        let x = hex_digit(ds.last())->0;
        assert(0 <= x < 16);
        assert(0 <= h * 16 + x < 16 * p) by (nonlinear_arith)
            requires
                0 <= h < p,
                0 <= x < 16,
        ;
    }
}

proof fn lemma_le_bytes_len(v: int, n: nat)
    ensures
        le_bytes(v, n).len() == n,
    decreases n,
{
    if n > 0 {
        lemma_le_bytes_len(v / 256, (n - 1) as nat);
    }
}

proof fn lemma_hex_char(c: char)
    requires
        hex_digit(c) is Some,
    ensures
        is_ascii_char(c),
        !is_white_space(c),
        utf8_width(c) == 1,
        c != '+' && c != '-',
        0 <= hex_digit(c)->0 < 16,
{
}

proof fn lemma_ascii_size(t: Seq<char>)
    requires
        all_hex(t),
    ensures
        utf8_size(t) == t.len(),
    decreases t.len(),
{
    if t.len() > 0 {
        let d = t.drop_last();
        assert forall|i: int| 0 <= i < d.len() implies #[trigger] hex_digit(d[i]) is Some by {
            assert(d[i] == t[i]);
        }
        lemma_ascii_size(d);
        lemma_hex_char(t[t.len() - 1]);
    }
}

/// A group of hexadecimal digits that `from_str_radix` reads as its value.
proof fn lemma_radix16_of_digits(ds: Seq<char>, bound: int)
    requires
        ds.len() >= 2,
        all_hex(ds),
        pow16(ds.len()) <= bound,
    ensures
        radix16(ds, bound) == Some(hex_value(ds)),
{
    lemma_hex_char(ds[0]);
    lemma_hex_value_bound(ds);
}

proof fn lemma_hex_pairs_of_digits(t: Seq<char>)
    requires
        all_hex(t),
        t.len() % 2 == 0,
    ensures
        hex_pairs(t) == Some(Some(pair_bytes(t))),
    decreases t.len(),
{
    if t.len() == 0 {
        assert(pair_bytes(t) =~= seq![]);
    } else {
        lemma_hex_char(t[0]);
        lemma_hex_char(t[1]);
        let h = t.take(2);
        let r = t.skip(2);
        assert forall|i: int| 0 <= i < h.len() implies #[trigger] hex_digit(h[i]) is Some by {
            assert(h[i] == t[i]);
        }
        assert forall|i: int| 0 <= i < r.len() implies #[trigger] hex_digit(r[i]) is Some by {
            assert(r[i] == t[i + 2]);
        }
        reveal_with_fuel(pow16, 3);
        lemma_radix16_of_digits(h, 256);
        lemma_hex_value_bound(h);
        lemma_hex_pairs_of_digits(r);
        let b = hex_value(h) as u8;
        let lhs = seq![b] + pair_bytes(r);
        assert(h =~= t.subrange(0, 2));
        assert forall|i: int| 0 <= i < pair_bytes(t).len() implies #[trigger] pair_bytes(t)[i] == lhs[i] by {
            if i > 0 {
                assert(r.subrange(2 * (i - 1), 2 * (i - 1) + 2) =~= t.subrange(2 * i, 2 * i + 2));
            }
        }
        assert(lhs =~= pair_bytes(t));
    }
}

proof fn lemma_hex_bytes_of_digits(t: Seq<char>)
    requires
        all_hex(t),
        t.len() % 2 == 0,
        t.len() > 0,
    ensures
        hex_bytes(t) == Some(Some(pair_bytes(t))),
{
    lemma_hex_char(t[0]);
    lemma_hex_char(t[t.len() - 1]);
    assert(trim_start(t) == t);
    assert(trim_end(t) == t);
    lemma_ascii_size(t);
    lemma_hex_pairs_of_digits(t);
}

/// GUID text is parsed by the group reader without error and gives 16 bytes.
proof fn lemma_guid_text_parses(s: Seq<char>)
    requires
        is_guid_text(s),
    ensures
        guid_outcome(s) == Some(guid_bytes(s)),
        guid_bytes(s)->0.len() == 16,
{
    let g = guid_groups(s);
    assert(g[0].len() == group_len(0) && all_hex(g[0]));
    assert(g[1].len() == group_len(1) && all_hex(g[1]));
    assert(g[2].len() == group_len(2) && all_hex(g[2]));
    assert(g[3].len() == group_len(3) && all_hex(g[3]));
    assert(g[4].len() == group_len(4) && all_hex(g[4]));
    reveal_with_fuel(pow16, 9);
    assert(pow16(8) == 0x1_0000_0000);
    assert(pow16(4) == 0x1_0000);
    lemma_radix16_of_digits(g[0], 0x1_0000_0000);
    lemma_radix16_of_digits(g[1], 0x1_0000);
    lemma_radix16_of_digits(g[2], 0x1_0000);
    lemma_hex_bytes_of_digits(g[3]);
    lemma_hex_bytes_of_digits(g[4]);
    lemma_le_bytes_len(hex_value(g[0]), 4);
    lemma_le_bytes_len(hex_value(g[1]), 2);
    lemma_le_bytes_len(hex_value(g[2]), 2);
}

fn all_hex_digits(v: &Vec<char>) -> (b: bool)
    ensures
        b == all_hex(v@),
{
    let mut i: usize = 0;
    while i < v.len()
        invariant
            0 <= i <= v.len(),
            forall|j: int| 0 <= j < i ==> #[trigger] hex_digit(v@[j]) is Some,
        decreases v.len() - i,
    {
        if hex_digit_of(v[i]).is_none() {
            return false;
        }
        i = i + 1;
    }
    true
}

fn guid_shape(v: &Vec<char>) -> (b: bool)
    ensures
        b == is_guid_text(v@),
{
    let t = trim_chars(v);
    let stripped = strip_braces(&t);
    let parts = split_on_dash(&stripped);
    let ghost g = guid_groups(v@);
    assert(views_of(parts@) == g);
    if parts.len() != 5 {
        return false;
    }
    let mut i: usize = 0;
    while i < 5
        invariant
            parts.len() == 5,
            views_of(parts@) == g,
            g == guid_groups(v@),
            g.len() == 5,
            0 <= i <= 5,
            forall|j: int| 0 <= j < i ==> #[trigger] g[j].len() == group_len(j) && all_hex(g[j]),
        decreases 5 - i,
    {
        let want: usize = if i == 0 { 8 } else if i == 4 { 12 } else { 4 };
        assert(g[i as int] == parts@[i as int]@);
        assert(want == group_len(i as int));
        if parts[i].len() != want || !all_hex_digits(&parts[i]) {
            assert(!(g[i as int].len() == group_len(i as int) && all_hex(g[i as int])));
            return false;
        }
        i = i + 1;
    }
    true
}

/// Convert a GUID string "{XXXXXXXX-XXXX-XXXX-XXXX-XXXXXXXXXXXX}" (braces
/// optional, surrounding white space ignored) to the 16-byte binary GUID
/// layout: the first three groups as little-endian numbers, the last two
/// groups byte by byte. `None` when the string is not of that form.
pub fn parse_guid_string(s: &str) -> (r: Option<Vec<u8>>)
    ensures
        r is Some <==> guid_bytes(s@) is Some,
        r is Some ==> r->0@ == guid_bytes(s@)->0,
        r is Some ==> r->0@.len() == 16,
{
    let v = chars_of(s);
    if !guid_shape(&v) {
        return None;
    }
    proof {
        lemma_guid_text_parses(s@);
    }
    match parse_guid_chars(&v) {
        Parsed::Bytes(b) => Some(b),
        _ => None,
    }
}

} // verus!
