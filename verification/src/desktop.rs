//! Virtual desktop bookkeeping: numbering, the registry data that names the
//! current desktop, and moving between neighbouring desktops.
use vstd::prelude::*;
use crate::geometry::fits_i32;
use crate::guid::{guid_bytes, parse_guid_string};
use crate::utf16::{registry_text, registry_text_of};

verus! {

/// The desktop numbers shown on the taskbar: 1 to `count`.
pub open spec fn numbers_up_to(count: int) -> Seq<i32> {
    Seq::new(if count > 0 { count as nat } else { 0 }, |i: int| (i + 1) as i32)
}

/// The desktop numbers 1..=count (none when `count` is not positive).
pub fn desktop_numbers(count: i32) -> (v: Vec<i32>)
    ensures
        v@ == numbers_up_to(count as int),
{
    let mut v: Vec<i32> = Vec::new();
    if count < 1 {
        assert(v@ =~= numbers_up_to(count as int));
        return v;
    }
    let mut i: i32 = 1;
    loop
        invariant
            1 <= i <= count,
            v@ == numbers_up_to((i - 1) as int),
        decreases count - i,
    {
        v.push(i);
        assert(v@ =~= numbers_up_to(i as int));
        if i == count {
            return v;
        }
        i = i + 1;
    }
}

/// Number of desktops from the size in bytes of the registry value that
/// lists their GUIDs (16 bytes each).
pub fn desktop_count_from_ids_size(ids_size: u32) -> (n: i32)
    ensures
        n == ids_size / 16,
{
    (ids_size / 16) as i32
}

/// The 16-byte chunk `k` of `ids` equals `guid`.
pub open spec fn chunk_is(ids: Seq<u8>, k: int, guid: Seq<u8>) -> bool {
    16 * k + 16 <= ids.len() && ids.subrange(16 * k, 16 * k + 16) == guid
}

/// The 1-based number of the first 16-byte chunk of `ids` equal to `guid`.
pub open spec fn desktop_number_in(ids: Seq<u8>, guid: Seq<u8>) -> Option<int> {
    if exists|k: int| 0 <= k && #[trigger] chunk_is(ids, k, guid) {
        let k = choose|k: int| 0 <= k && #[trigger] chunk_is(ids, k, guid) && forall|j: int| 0 <= j < k ==> !chunk_is(ids, j, guid);
        Some(k + 1)
    } else {
        None
    }
}

fn chunk_equals(ids: &Vec<u8>, k: usize, guid: &Vec<u8>) -> (b: bool)
    requires
        16 * k + 16 <= ids.len(),
    ensures
        b == chunk_is(ids@, k as int, guid@),
{
    if guid.len() != 16 {
        return false;
    }
    let base = 16 * k;
    let mut j: usize = 0;
    while j < 16
        invariant
            base == 16 * k,
            base + 16 <= ids.len(),
            guid.len() == 16,
            0 <= j <= 16,
            forall|m: int| 0 <= m < j ==> ids@[base + m] == guid@[m],
        decreases 16 - j,
    {
        if ids[base + j] != guid[j] {
            assert(ids@.subrange(base as int, base + 16)[j as int] != guid@[j as int]);
            return false;
        }
        j = j + 1;
    }
    assert(ids@.subrange(base as int, base + 16) =~= guid@);
    true
}

/// Find the current desktop's number: the position (from 1) of the first
/// 16-byte chunk of the desktop-ID list that equals the current GUID.
pub fn desktop_number_of(ids: &Vec<u8>, guid: &Vec<u8>) -> (r: Option<i32>)
    requires
        ids.len() <= u32::MAX,
    ensures
        r is Some <==> desktop_number_in(ids@, guid@) is Some,
        r is Some ==> r->0 == desktop_number_in(ids@, guid@)->0,
{
    let chunks = ids.len() / 16;
    let mut k: usize = 0;
    while k < chunks
        invariant
            chunks == ids.len() / 16,
            ids.len() <= u32::MAX,
            0 <= k <= chunks,
            forall|j: int| 0 <= j < k ==> !#[trigger] chunk_is(ids@, j, guid@),
        decreases chunks - k,
    {
        if chunk_equals(ids, k, guid) {
            proof {
                let kk = k as int;
                assert(chunk_is(ids@, kk, guid@));
                let w = choose|w: int| 0 <= w && #[trigger] chunk_is(ids@, w, guid@) && forall|j: int| 0 <= j < w ==> !chunk_is(ids@, j, guid@);
                assert(0 <= kk && chunk_is(ids@, kk, guid@) && forall|j: int| 0 <= j < kk ==> !chunk_is(ids@, j, guid@));
                if w < kk {
                    assert(!chunk_is(ids@, w, guid@));
                } else if w > kk {
                    assert(!chunk_is(ids@, kk, guid@));
                }
            }
            return Some((k + 1) as i32);
        }
        k = k + 1;
    }
    proof {
        assert forall|j: int| 0 <= j implies !#[trigger] chunk_is(ids@, j, guid@) by {
            if j >= chunks {
                assert(16 * j + 16 > ids.len());
            }
        }
    }
    None
}

proof fn lemma_first_chunk_exists(ids: Seq<u8>, guid: Seq<u8>, k0: int)
    requires
        0 <= k0,
        chunk_is(ids, k0, guid),
    ensures
        exists|k: int| 0 <= k && #[trigger] chunk_is(ids, k, guid) && forall|j: int| 0 <= j < k ==> !chunk_is(ids, j, guid),
    decreases k0,
{
    if exists|j: int| 0 <= j < k0 && chunk_is(ids, j, guid) {
        let j = choose|j: int| 0 <= j < k0 && chunk_is(ids, j, guid);
        lemma_first_chunk_exists(ids, guid, j);
    } else {
        assert(forall|j: int| 0 <= j < k0 ==> !chunk_is(ids, j, guid));
    }
}

/// The current desktop's number is a valid 1-based desktop number: read from
/// the same desktop-ID list whose size gives the desktop count, it lies
/// between 1 and that count.
pub proof fn lemma_number_within_count(ids: Seq<u8>, guid: Seq<u8>)
    ensures
        desktop_number_in(ids, guid) is Some ==> 1 <= desktop_number_in(ids, guid)->0 <= ids.len() / 16,
{
    if desktop_number_in(ids, guid) is Some {
        let k0 = choose|k: int| 0 <= k && #[trigger] chunk_is(ids, k, guid);
        lemma_first_chunk_exists(ids, guid, k0);
        let k = choose|k: int| 0 <= k && #[trigger] chunk_is(ids, k, guid) && forall|j: int| 0 <= j < k ==> !chunk_is(ids, j, guid);
        assert(16 * k + 16 <= ids.len());
        assert(k + 1 <= ids.len() / 16) by (nonlinear_arith)
            requires
                16 * k + 16 <= ids.len(),
                k >= 0,
        ;
    }
}

/// A registry value as read: binary data (REG_BINARY), the raw bytes of a
/// string (REG_SZ), or something else.
pub enum RegistryValue {
    Binary(Vec<u8>),
    Text(Vec<u8>),
    Other,
}

/// The current desktop's GUID bytes as stored in the registry value: binary
/// data of exactly 16 bytes, or a GUID string.
pub open spec fn current_guid_from(v: RegistryValue) -> Option<Seq<u8>> {
    match v {
        RegistryValue::Binary(b) => if b@.len() == 16 { Some(b@) } else { None },
        RegistryValue::Text(b) => guid_bytes(registry_text_of(b@)),
        RegistryValue::Other => None,
    }
}

/// The current desktop's GUID from the `CurrentVirtualDesktop` registry value.
pub fn current_desktop_guid(v: &RegistryValue) -> (r: Option<Vec<u8>>)
    ensures
        r is Some <==> current_guid_from(*v) is Some,
        r is Some ==> r->0@ == current_guid_from(*v)->0,
{
    match v {
        RegistryValue::Binary(b) => {
            if b.len() != 16 {
                None
            } else {
                Some(b.clone())
            }
        },
        RegistryValue::Text(bytes) => {
            let text = registry_text(bytes);
            parse_guid_string(text.as_str())
        },
        RegistryValue::Other => None,
    }
}

/// Position of `current` in `ids`: the first index holding it.
pub open spec fn first_index_of(ids: Seq<u128>, current: u128) -> Option<int> {
    if ids.contains(current) {
        Some(choose|i: int| 0 <= i < ids.len() && ids[i] == current && forall|j: int| 0 <= j < i ==> ids[j] != current)
    } else {
        None
    }
}

/// Find the index of the current desktop in the list of desktop IDs.
pub fn find_desktop_index(ids: &Vec<u128>, current: u128) -> (r: Option<usize>)
    ensures
        r is Some <==> first_index_of(ids@, current) is Some,
        r is Some ==> r->0 == first_index_of(ids@, current)->0,
{
    let mut i: usize = 0;
    while i < ids.len()
        invariant
            0 <= i <= ids.len(),
            forall|j: int| 0 <= j < i ==> ids@[j] != current,
        decreases ids.len() - i,
    {
        if ids[i] == current {
            proof {
                let ii = i as int;
                assert(ids@.contains(current));
                let w = choose|w: int| 0 <= w < ids@.len() && ids@[w] == current && forall|j: int| 0 <= j < w ==> ids@[j] != current;
                assert(0 <= ii < ids@.len() && ids@[ii] == current && forall|j: int| 0 <= j < ii ==> ids@[j] != current);
                if w < ii {
                    assert(ids@[w] != current);
                } else if w > ii {
                    assert(ids@[ii] != current);
                }
            }
            return Some(i);
        }
        i = i + 1;
    }
    None
}

/// The desktop `direction` steps away from `current`, wrapping around at both
/// ends (Euclidean remainder).
pub open spec fn neighbor(current: int, direction: int, count: int) -> int {
    (current + direction) % count
}

/// Index of the desktop `direction` steps from `current_index` among `count`
/// desktops, wrapping around.
pub fn neighbor_desktop_index(current_index: usize, direction: i32, count: usize) -> (t: usize)
    requires
        0 < count <= i32::MAX,
        current_index < count,
        fits_i32(current_index + direction),
    ensures
        t == neighbor(current_index as int, direction as int, count as int),
        t < count,
{
    let a: i64 = current_index as i64 + direction as i64;
    let m: i64 = count as i64;
    if a >= 0 {
        (a % m) as usize
    } else {
        let k: i64 = (-a) % m;
        proof {
            let aa = a as int;
            let mm = m as int;
            let kk = k as int;
            assert((-aa) == ((-aa) / mm) * mm + kk) by (nonlinear_arith)
                requires
                    -aa >= 0,
                    mm > 0,
                    kk == (-aa) % mm,
            ;
            if kk == 0 {
                assert(aa == -((-aa) / mm) * mm) by (nonlinear_arith)
                    requires
                        (-aa) == ((-aa) / mm) * mm,
                ;
                vstd::arithmetic::div_mod::lemma_mod_multiples_basic(-((-aa) / mm), mm);
            } else {
                assert(aa == (-((-aa) / mm) - 1) * mm + (mm - kk)) by (nonlinear_arith)
                    requires
                        (-aa) == ((-aa) / mm) * mm + kk,
                ;
                vstd::arithmetic::div_mod::lemma_fundamental_div_mod_converse(
                    aa,
                    mm,
                    -((-aa) / mm) - 1,
                    mm - kk,
                );
            }
        }
        if k == 0 {
            0
        } else {
            (m - k) as usize
        }
    }
}

/// Moving one desktop right and then one left (or the other way round)
/// returns to the starting desktop.
pub proof fn lemma_move_right_then_left(i: int, count: int)
    requires
        0 <= i < count,
    ensures
        neighbor(neighbor(i, 1, count), -1, count) == i,
        neighbor(neighbor(i, -1, count), 1, count) == i,
        0 <= neighbor(i, 1, count) < count,
        0 <= neighbor(i, -1, count) < count,
{
    if i + 1 < count {
        vstd::arithmetic::div_mod::lemma_small_mod((i + 1) as nat, count as nat);
    } else {
        vstd::arithmetic::div_mod::lemma_mod_self_0(count);
    }
    if i >= 1 {
        vstd::arithmetic::div_mod::lemma_small_mod((i - 1) as nat, count as nat);
    } else {
        vstd::arithmetic::div_mod::lemma_fundamental_div_mod_converse(-1, count, -1, count - 1);
    }
    let r = neighbor(i, 1, count);
    let l = neighbor(i, -1, count);
    if r >= 1 {
        vstd::arithmetic::div_mod::lemma_small_mod((r - 1) as nat, count as nat);
    } else {
        vstd::arithmetic::div_mod::lemma_fundamental_div_mod_converse(-1, count, -1, count - 1);
    }
    if l + 1 < count {
        vstd::arithmetic::div_mod::lemma_small_mod((l + 1) as nat, count as nat);
    } else {
        vstd::arithmetic::div_mod::lemma_mod_self_0(count);
    }
}

/// Whether a switch to desktop `number` is needed from desktop `current`.
pub fn needs_switch(number: i32, current: i32) -> (b: bool)
    requires
        fits_i32(number - current),
        number - current != i32::MIN,
    ensures
        b == (number != current),
{
    let diff = number - current;
    let d = if diff < 0 { -diff } else { diff };
    d != 0
}

/// The index into the desktop list that desktop number `number` (1-based)
/// refers to, if the list has such an entry.
pub fn switch_target(number: i32, desktop_count: usize) -> (t: Option<usize>)
    requires
        fits_i32(number - 1),
        desktop_count <= isize::MAX,
    ensures
        t is Some <==> 1 <= number && number - 1 < desktop_count,
        t is Some ==> t->0 == number - 1,
{
    let idx = number - 1;
    if idx < 0 {
        return None;
    }
    let target = idx as usize;
    if target < desktop_count {
        Some(target)
    } else {
        None
    }
}

} // verus!
