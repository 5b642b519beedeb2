//! GPU counter instance names.
//!
//! ```text
//! pid_8420_luid_0x00000000_0x00013C64_phys_0_eng_0_engtype_3D
//! luid_0x00000000_0x00013C64_phys_0
//! ```
//!
//! The LUID's high and low halves are the adapter key; the engine type is what
//! utilisation is grouped by.
use vstd::prelude::*;

use crate::text::{chars_of, string_of};

verus! {

/// The first position at or after `from` where `pat` occurs in `s`.
pub open spec fn find_from(s: Seq<char>, pat: Seq<char>, from: int) -> Option<int>
    decreases s.len() + 1 - from,
{
    if from < 0 || from + pat.len() > s.len() {
        None
    } else if s.subrange(from, from + pat.len()) == pat {
        Some(from)
    } else {
        find_from(s, pat, from + 1)
    }
}

/// The second piece of `s` split on `pat`: what lies between the first
/// occurrence and the next one, or the end. `pat` is never empty here.
pub open spec fn second_piece(s: Seq<char>, pat: Seq<char>) -> Option<Seq<char>> {
    match find_from(s, pat, 0) {
        Some(a) => {
            let start = a + pat.len();
            match find_from(s, pat, start) {
                Some(b) => Some(s.subrange(start, b)),
                None => Some(s.subrange(start, s.len() as int)),
            }
        },
        None => None,
    }
}

pub open spec fn hex_digit_value(c: char) -> Option<nat> {
    if '0' <= c && c <= '9' {
        Some((c as nat - '0' as nat) as nat)
    } else if 'a' <= c && c <= 'f' {
        Some((c as nat - 'a' as nat + 10) as nat)
    } else if 'A' <= c && c <= 'F' {
        Some((c as nat - 'A' as nat + 10) as nat)
    } else {
        None
    }
}

/// The value of hex digits, read left to right; none when any is not one.
pub open spec fn hex_value(d: Seq<char>) -> Option<nat>
    decreases d.len(),
{
    if d.len() == 0 {
        Some(0)
    } else {
        match (hex_value(d.drop_last()), hex_digit_value(d.last())) {
            (Some(v), Some(x)) => Some(v * 16 + x),
            _ => None,
        }
    }
}

/// `u32::from_str_radix(t, 16)`: an optional `+`, then at least one hex digit
/// in either case, the value fitting 32 bits.
pub open spec fn parse_hex_u32(t: Seq<char>) -> Option<u32> {
    let d = if t.len() > 0 && t[0] == '+' { t.skip(1) } else { t };
    if d.len() == 0 {
        None
    } else {
        match hex_value(d) {
            Some(v) => if v <= u32::MAX { Some(v as u32) } else { None },
            None => None,
        }
    }
}

/// One `0x`-prefixed half of a LUID.
pub open spec fn luid_half(seg: Seq<char>) -> Option<u32> {
    if seg.len() >= 2 && seg[0] == '0' && seg[1] == 'x' {
        parse_hex_u32(seg.skip(2))
    } else {
        None
    }
}

/// `..._luid_0xHIGH_0xLOW_...` to one 64-bit key: the text after the first
/// `luid_`, split on `_`, whose first two pieces are the high and low halves.
pub open spec fn spec_parse_luid(instance: Seq<char>) -> Option<u64> {
    match second_piece(instance, "luid_"@) {
        Some(after) => match find_from(after, "_"@, 0) {
            Some(u) => {
                let high = after.take(u);
                let rest = after.skip(u + 1);
                let low = match find_from(rest, "_"@, 0) {
                    Some(v) => rest.take(v),
                    None => rest,
                };
                match (luid_half(high), luid_half(low)) {
                    (Some(h), Some(l)) => Some((h as int * 0x1_0000_0000 + l as int) as u64),
                    _ => None,
                }
            },
            None => None,
        },
        None => None,
    }
}

/// The engine type of an engine instance: the text after `engtype_`.
pub open spec fn spec_engine_type(instance: Seq<char>) -> Option<Seq<char>> {
    second_piece(instance, "engtype_"@)
}

fn find(s: &[char], pat: &[char], from: usize) -> (r: Option<usize>)
    requires
        from <= s@.len(),
    ensures
        match r {
            Some(k) => find_from(s@, pat@, from as int) == Some(k as int),
            None => find_from(s@, pat@, from as int) is None,
        },
    decreases s@.len() - from,
{
    let n = s.len();
    if pat.len() > n || from > n - pat.len() {
        return None;
    }
    let mut j: usize = 0;
    let mut same = true;
    while same && j < pat.len()
        invariant
            n == s@.len(),
            from + pat@.len() <= s@.len(),
            j <= pat@.len(),
            forall|k: int| 0 <= k < j ==> s@[from + k] == pat@[k],
            !same ==> j < pat@.len() && s@[from + j] != pat@[j as int],
        decreases pat@.len() - j + (if same { 1int } else { 0int }),
    {
        let k = from + j;
        if s[k] == pat[j] {
            j = j + 1;
        } else {
            same = false;
        }
    }
    if j == pat.len() {
        proof {
            assert(s@.subrange(from as int, from + pat@.len()) =~= pat@);
        }
        Some(from)
    } else {
        proof {
            assert(s@.subrange(from as int, from + pat@.len())[j as int] != pat@[j as int]);
        }
        find(s, pat, from + 1)
    }
}

fn slice(s: &[char], start: usize, end: usize) -> (r: Vec<char>)
    requires
        start <= end <= s@.len(),
    ensures
        r@ == s@.subrange(start as int, end as int),
{
    let mut r: Vec<char> = Vec::new();
    let mut i = start;
    while i < end
        invariant
            start <= i <= end <= s@.len(),
            r@ == s@.subrange(start as int, i as int),
        decreases end - i,
    {
        r.push(s[i]);
        proof {
            assert(s@.subrange(start as int, i as int).push(s@[i as int]) =~= s@.subrange(
                start as int,
                i + 1,
            ));
        }
        i = i + 1;
    }
    r
}

fn second(s: &[char], pat: &[char]) -> (r: Option<Vec<char>>)
    requires
        pat@.len() > 0,
    ensures
        match r {
            Some(v) => second_piece(s@, pat@) == Some(v@),
            None => second_piece(s@, pat@) is None,
        },
{
    let n = s.len();
    match find(s, pat, 0) {
        Some(a) => {
            proof {
                lemma_find_bounds(s@, pat@, 0);
            }
            let start = a + pat.len();
            match find(s, pat, start) {
                Some(b) => {
                    proof {
                        lemma_find_bounds(s@, pat@, start as int);
                    }
                    Some(slice(s, start, b))
                },
                None => Some(slice(s, start, s.len())),
            }
        },
        None => None,
    }
}

proof fn lemma_find_bounds(s: Seq<char>, pat: Seq<char>, from: int)
    ensures
        match find_from(s, pat, from) {
            Some(k) => from <= k && k + pat.len() <= s.len(),
            None => true,
        },
    decreases s.len() + 1 - from,
{
    if !(from < 0 || from + pat.len() > s.len()) && s.subrange(from, from + pat.len()) != pat {
        lemma_find_bounds(s, pat, from + 1);
    }
}

fn hex_u32(t: &[char]) -> (r: Option<u32>)
    ensures
        r == parse_hex_u32(t@),
{
    let start: usize = if t.len() > 0 && t[0] == '+' { 1 } else { 0 };
    let ghost d = if t@.len() > 0 && t@[0] == '+' { t@.skip(1) } else { t@ };
    if start == t.len() {
        return None;
    }
    let mut acc: u64 = 0;
    let mut i: usize = start;
    proof {
        assert(t@.skip(0) =~= t@);
        assert(d.take(0) =~= Seq::<char>::empty());
    }
    while i < t.len()
        invariant
            start <= i <= t@.len(),
            start < t@.len(),
            d == t@.skip(start as int),
            d == (if t@.len() > 0 && t@[0] == '+' { t@.skip(1) } else { t@ }),
            hex_value(d.take(i - start)) == Some(acc as nat),
            acc <= u32::MAX,
        decreases t@.len() - i,
    {
        let c = t[i];
        let x: u64 = if '0' <= c && c <= '9' {
            (c as u64) - 48
        } else if 'a' <= c && c <= 'f' {
            (c as u64) - 87
        } else if 'A' <= c && c <= 'F' {
            (c as u64) - 55
        } else {
            proof {
                assert(d.take(i - start + 1).drop_last() =~= d.take(i - start));
                assert(d.take(i - start + 1).last() == c);
                assert(hex_digit_value(c) is None);
                assert(hex_value(d.take(i - start + 1)) is None);
                lemma_hex_prefix_none(d, i - start + 1);
            }
            return None;
        };
        proof {
            assert(d.take(i - start + 1).drop_last() =~= d.take(i - start));
            assert(d.take(i - start + 1).last() == c);
            assert(hex_digit_value(c) == Some(x as nat));
            assert(hex_value(d.take(i - start + 1)) == Some((acc * 16 + x) as nat));
        }
        let next = acc * 16 + x;
        if next > 0xFFFF_FFFF {
            proof {
                lemma_hex_prefix_grows(d, i - start + 1);
            }
            return None;
        }
        acc = next;
        i = i + 1;
    }
    proof {
        assert(d.take(d.len() as int) =~= d);
    }
    Some(acc as u32)
}

/// A prefix with a non-digit makes the whole value none.
proof fn lemma_hex_prefix_none(d: Seq<char>, n: int)
    requires
        0 < n <= d.len(),
        hex_value(d.take(n)) is None,
    ensures
        hex_value(d) is None,
    decreases d.len() - n,
{
    if n < d.len() {
        assert(d.take(n + 1).drop_last() =~= d.take(n));
        lemma_hex_prefix_none(d, n + 1);
    } else {
        assert(d.take(n) =~= d);
    }
}

/// A prefix past 32 bits keeps the whole value past 32 bits (or none).
proof fn lemma_hex_prefix_grows(d: Seq<char>, n: int)
    requires
        0 < n <= d.len(),
        match hex_value(d.take(n)) {
            Some(v) => v > u32::MAX,
            None => true,
        },
    ensures
        match hex_value(d) {
            Some(v) => v > u32::MAX,
            None => true,
        },
    decreases d.len() - n,
{
    if n < d.len() {
        assert(d.take(n + 1).drop_last() =~= d.take(n));
        lemma_hex_prefix_grows(d, n + 1);
    } else {
        assert(d.take(n) =~= d);
    }
}

fn half(seg: &[char]) -> (r: Option<u32>)
    ensures
        r == luid_half(seg@),
{
    if seg.len() >= 2 && seg[0] == '0' && seg[1] == 'x' {
        let rest = slice(seg, 2, seg.len());
        proof {
            assert(rest@ =~= seg@.skip(2));
        }
        hex_u32(rest.as_slice())
    } else {
        None
    }
}

/// The adapter key in a GPU counter instance name. Both halves count: the
/// high half is part of the LUID, and dropping it would collide two adapters
/// where it is not zero.
pub fn parse_luid(instance: &str) -> (r: Option<u64>)
    ensures
        r == spec_parse_luid(instance@),
{
    let s = chars_of(instance);
    let pat = chars_of("luid_");
    let underscore = chars_of("_");
    proof {
        reveal_strlit("luid_");
        reveal_strlit("_");
    }
    let after = match second(s.as_slice(), pat.as_slice()) {
        Some(a) => a,
        None => return None,
    };
    let after_len = after.len();
    let u = match find(after.as_slice(), underscore.as_slice(), 0) {
        Some(u) => u,
        None => return None,
    };
    proof {
        lemma_find_bounds(after@, underscore@, 0);
    }
    let high = slice(after.as_slice(), 0, u);
    let rest = slice(after.as_slice(), u + 1, after.len());
    proof {
        assert(high@ =~= after@.take(u as int));
        assert(rest@ =~= after@.skip(u + 1));
    }
    let low = match find(rest.as_slice(), underscore.as_slice(), 0) {
        Some(v) => {
            proof {
                lemma_find_bounds(rest@, underscore@, 0);
            }
            let l = slice(rest.as_slice(), 0, v);
            proof {
                assert(l@ =~= rest@.take(v as int));
            }
            l
        },
        None => rest,
    };
    match (half(high.as_slice()), half(low.as_slice())) {
        (Some(h), Some(l)) => Some((h as u64) * 0x1_0000_0000 + (l as u64)),
        _ => None,
    }
}

/// The engine type of a GPU engine instance name: everything after
/// `engtype_`, spaces included, since it is the grouping key.
pub fn engine_type(instance: &str) -> (r: Option<String>)
    ensures
        match r {
            Some(t) => spec_engine_type(instance@) == Some(t@),
            None => spec_engine_type(instance@) is None,
        },
{
    let s = chars_of(instance);
    let pat = chars_of("engtype_");
    proof {
        reveal_strlit("engtype_");
    }
    match second(s.as_slice(), pat.as_slice()) {
        Some(t) => Some(string_of(t.as_slice())),
        None => None,
    }
}


// ------------------------------------------------------------------ memory

/// Memory in use on one adapter.
#[derive(Debug, Clone, Copy, PartialEq, Eq, Structural)]
pub struct GpuMemory {
    pub adapter: u64,
    pub dedicated_used_bytes: u64,
    pub shared_used_bytes: u64,
}

/// A reading: an adapter key and a byte count.
pub type MemoryReading = (u64, u64);

/// The last reading for `adapter`, if any.
pub open spec fn last_for(readings: Seq<MemoryReading>, adapter: u64) -> Option<u64>
    decreases readings.len(),
{
    if readings.len() == 0 {
        None
    } else if readings.last().0 == adapter {
        Some(readings.last().1)
    } else {
        last_for(readings.drop_last(), adapter)
    }
}

/// The adapter keys in order of first appearance.
pub open spec fn adapters_in(keys: Seq<u64>) -> Seq<u64>
    decreases keys.len(),
{
    if keys.len() == 0 {
        seq![]
    } else {
        let rest = adapters_in(keys.drop_last());
        if rest.contains(keys.last()) {
            rest
        } else {
            rest.push(keys.last())
        }
    }
}

pub open spec fn keys_of(readings: Seq<MemoryReading>) -> Seq<u64> {
    readings.map_values(|r: MemoryReading| r.0)
}

pub open spec fn or_zero(v: Option<u64>) -> u64 {
    match v {
        Some(x) => x,
        None => 0,
    }
}

/// Dedicated and shared usage paired by adapter: one row per adapter, in
/// order of first appearance (dedicated readings first), each half the last
/// reading for that adapter or zero when there was none.
pub open spec fn spec_paired(dedicated: Seq<MemoryReading>, shared: Seq<MemoryReading>) -> Seq<GpuMemory> {
    let adapters = adapters_in(keys_of(dedicated) + keys_of(shared));
    Seq::new(
        adapters.len(),
        |i: int|
            GpuMemory {
                adapter: adapters[i],
                dedicated_used_bytes: or_zero(last_for(dedicated, adapters[i])),
                shared_used_bytes: or_zero(last_for(shared, adapters[i])),
            },
    )
}

/// The row index holding `adapter`, if any.
fn row_of(rows: &Vec<GpuMemory>, adapter: u64) -> (r: Option<usize>)
    ensures
        match r {
            Some(i) => i < rows@.len() && rows@[i as int].adapter == adapter,
            None => forall|i: int| 0 <= i < rows@.len() ==> rows@[i].adapter != adapter,
        },
{
    let mut i: usize = 0;
    while i < rows.len()
        invariant
            i <= rows@.len(),
            forall|k: int| 0 <= k < i ==> rows@[k].adapter != adapter,
        decreases rows@.len() - i,
    {
        if rows[i].adapter == adapter {
            return Some(i);
        }
        i = i + 1;
    }
    None
}

proof fn lemma_adapters_in_push(keys: Seq<u64>, k: u64)
    ensures
        adapters_in(keys.push(k)) == if adapters_in(keys).contains(k) {
            adapters_in(keys)
        } else {
            adapters_in(keys).push(k)
        },
{
    assert(keys.push(k).drop_last() =~= keys);
}

proof fn lemma_adapters_in_contains(keys: Seq<u64>, k: u64)
    ensures
        adapters_in(keys).contains(k) <==> keys.contains(k),
    decreases keys.len(),
{
    if keys.len() > 0 {
        lemma_adapters_in_contains(keys.drop_last(), k);
        let rest = adapters_in(keys.drop_last());
        if keys.drop_last().contains(k) {
            let j = choose|j: int| 0 <= j < keys.drop_last().len() && keys.drop_last()[j] == k;
            assert(keys[j] == k);
        }
        if keys.contains(k) && keys.last() != k {
            let j = choose|j: int| 0 <= j < keys.len() && keys[j] == k;
            assert(keys.drop_last()[j] == k);
        }
        if rest.contains(keys.last()) {
        } else {
            if rest.push(keys.last()).contains(k) && k != keys.last() {
                let j = choose|j: int| 0 <= j < rest.push(keys.last()).len() && rest.push(keys.last())[j] == k;
                assert(rest[j] == k);
            }
            if k == keys.last() {
                assert(rest.push(keys.last())[rest.len() as int] == k);
            }
            if rest.contains(k) {
                let j = choose|j: int| 0 <= j < rest.len() && rest[j] == k;
                assert(rest.push(keys.last())[j] == k);
            }
        }
        if keys.last() == k {
            assert(keys[keys.len() - 1] == k);
        }
    }
}

/// Pair dedicated and shared usage readings by adapter. A later reading for
/// an adapter replaces an earlier one; a half never read is zero.
pub fn pair_memory(dedicated: &[MemoryReading], shared: &[MemoryReading]) -> (rows: Vec<GpuMemory>)
    ensures
        rows@ == spec_paired(dedicated@, shared@),
{
    let mut rows: Vec<GpuMemory> = Vec::new();
    let mut i: usize = 0;
    while i < dedicated.len()
        invariant
            i <= dedicated@.len(),
            rows@ == spec_paired(dedicated@.take(i as int), seq![]),
        decreases dedicated@.len() - i,
    {
        let (adapter, value) = dedicated[i];
        let ghost before = rows@;
        let ghost d_old = dedicated@.take(i as int);
        let ghost d_new = dedicated@.take(i + 1);
        proof {
            assert(d_new.drop_last() =~= d_old);
            assert(d_new.last() == (adapter, value));
            assert(keys_of(d_new) + keys_of(Seq::<MemoryReading>::empty()) =~= (keys_of(d_old) + keys_of(Seq::<MemoryReading>::empty())).push(adapter));
            lemma_adapters_in_push(keys_of(d_old) + keys_of(Seq::<MemoryReading>::empty()), adapter);
        }
        match row_of(&rows, adapter) {
            Some(k) => {
                let r = rows[k];
                rows.set(k, GpuMemory { dedicated_used_bytes: value, ..r });
                proof {
                    let a = adapters_in(keys_of(d_old) + keys_of(Seq::<MemoryReading>::empty()));
                    assert(a.contains(adapter)) by {
                        assert(a[k as int] == adapter);
                    }
                    lemma_adapters_unique(keys_of(d_old) + keys_of(Seq::<MemoryReading>::empty()));
                    assert(rows@ =~= spec_paired(d_new, seq![]));
                }
            },
            None => {
                rows.push(GpuMemory { adapter, dedicated_used_bytes: value, shared_used_bytes: 0 });
                proof {
                    let a = adapters_in(keys_of(d_old) + keys_of(Seq::<MemoryReading>::empty()));
                    assert(!a.contains(adapter)) by {
                        if a.contains(adapter) {
                            let j = choose|j: int| 0 <= j < a.len() && a[j] == adapter;
                            assert(before[j].adapter == adapter);
                        }
                    }
                    assert forall|j: int| 0 <= j < a.len() implies last_for(d_new, a[j]) == last_for(d_old, a[j]) by {
                        assert(a[j] != adapter);
                    }
                    assert(rows@ =~= spec_paired(d_new, seq![]));
                }
            },
        }
        i = i + 1;
    }
    proof {
        assert(dedicated@.take(dedicated@.len() as int) =~= dedicated@);
    }
    let mut j: usize = 0;
    while j < shared.len()
        invariant
            j <= shared@.len(),
            rows@ == spec_paired(dedicated@, shared@.take(j as int)),
        decreases shared@.len() - j,
    {
        let (adapter, value) = shared[j];
        let ghost before = rows@;
        let ghost s_old = shared@.take(j as int);
        let ghost s_new = shared@.take(j + 1);
        proof {
            assert(s_new.drop_last() =~= s_old);
            assert(s_new.last() == (adapter, value));
            assert(keys_of(dedicated@) + keys_of(s_new) =~= (keys_of(dedicated@) + keys_of(s_old)).push(adapter));
            lemma_adapters_in_push(keys_of(dedicated@) + keys_of(s_old), adapter);
        }
        match row_of(&rows, adapter) {
            Some(k) => {
                let r = rows[k];
                rows.set(k, GpuMemory { shared_used_bytes: value, ..r });
                proof {
                    let a = adapters_in(keys_of(dedicated@) + keys_of(s_old));
                    assert(a.contains(adapter)) by {
                        assert(a[k as int] == adapter);
                    }
                    lemma_adapters_unique(keys_of(dedicated@) + keys_of(s_old));
                    assert(rows@ =~= spec_paired(dedicated@, s_new));
                }
            },
            None => {
                rows.push(GpuMemory { adapter, dedicated_used_bytes: 0, shared_used_bytes: value });
                proof {
                    let a = adapters_in(keys_of(dedicated@) + keys_of(s_old));
                    assert(!a.contains(adapter)) by {
                        if a.contains(adapter) {
                            let q = choose|q: int| 0 <= q < a.len() && a[q] == adapter;
                            assert(before[q].adapter == adapter);
                        }
                    }
                    assert(last_for(dedicated@, adapter) is None) by {
                        lemma_adapters_in_contains(keys_of(dedicated@) + keys_of(s_old), adapter);
                        lemma_last_for_none(dedicated@, adapter);
                        if keys_of(dedicated@).contains(adapter) {
                            let q = choose|q: int| 0 <= q < keys_of(dedicated@).len() && keys_of(dedicated@)[q] == adapter;
                            assert((keys_of(dedicated@) + keys_of(s_old))[q] == adapter);
                        }
                    }
                    assert forall|q: int| 0 <= q < a.len() implies last_for(s_new, a[q]) == last_for(s_old, a[q]) by {
                        assert(a[q] != adapter);
                    }
                    assert(rows@ =~= spec_paired(dedicated@, s_new));
                }
            },
        }
        j = j + 1;
    }
    proof {
        assert(shared@.take(shared@.len() as int) =~= shared@);
    }
    rows
}

proof fn lemma_last_for_none(readings: Seq<MemoryReading>, adapter: u64)
    ensures
        !keys_of(readings).contains(adapter) ==> last_for(readings, adapter) is None,
    decreases readings.len(),
{
    if readings.len() > 0 {
        if !keys_of(readings).contains(adapter) {
            assert(keys_of(readings)[readings.len() - 1] == readings.last().0);
            assert(!keys_of(readings.drop_last()).contains(adapter)) by {
                if keys_of(readings.drop_last()).contains(adapter) {
                    let q = choose|q: int| 0 <= q < keys_of(readings.drop_last()).len() && keys_of(readings.drop_last())[q] == adapter;
                    assert(keys_of(readings)[q] == adapter);
                }
            }
        }
        lemma_last_for_none(readings.drop_last(), adapter);
    }
}

/// First appearances hold each adapter once.
proof fn lemma_adapters_unique(keys: Seq<u64>)
    ensures
        forall|a: int, b: int|
            0 <= a < b < adapters_in(keys).len() ==> adapters_in(keys)[a] != adapters_in(keys)[b],
    decreases keys.len(),
{
    if keys.len() > 0 {
        lemma_adapters_unique(keys.drop_last());
        let rest = adapters_in(keys.drop_last());
        if !rest.contains(keys.last()) {
            assert forall|a: int, b: int| 0 <= a < b < rest.push(keys.last()).len() implies rest.push(
                keys.last(),
            )[a] != rest.push(keys.last())[b] by {
                if b == rest.len() {
                    if rest[a] == keys.last() {
                        assert(rest.contains(keys.last()));
                    }
                }
            }
        }
    }
}

proof fn lemma_last_reading(readings: Seq<MemoryReading>, adapter: u64, k: int)
    requires
        0 <= k < readings.len(),
        readings[k].0 == adapter,
        forall|j: int| k < j < readings.len() ==> (#[trigger] readings[j]).0 != adapter,
    ensures
        last_for(readings, adapter) == Some(readings[k].1),
    decreases readings.len(),
{
    if k < readings.len() - 1 {
        let rest = readings.drop_last();
        assert(readings[readings.len() - 1].0 != adapter);
        assert forall|j: int| k < j < rest.len() implies (#[trigger] rest[j]).0 != adapter by {
            assert(rest[j] == readings[j]);
        }
        assert(rest[k] == readings[k]);
        lemma_last_reading(rest, adapter, k);
    }
}

proof fn lemma_no_reading(readings: Seq<MemoryReading>, adapter: u64)
    requires
        forall|j: int| 0 <= j < readings.len() ==> (#[trigger] readings[j]).0 != adapter,
    ensures
        last_for(readings, adapter) is None,
    decreases readings.len(),
{
    if readings.len() > 0 {
        let rest = readings.drop_last();
        assert(readings[readings.len() - 1].0 != adapter);
        assert forall|j: int| 0 <= j < rest.len() implies (#[trigger] rest[j]).0 != adapter by {
            assert(rest[j] == readings[j]);
        }
        lemma_no_reading(rest, adapter);
    }
}

/// How the two kinds of reading pair up. There is one row per adapter
/// read, and no other: each adapter appears once. A row's dedicated bytes
/// are the last dedicated reading for its adapter and its shared bytes the
/// last shared reading, and a kind never read for that adapter is zero; the
/// two kinds never trade places.
pub proof fn law_memory_pairs_by_adapter(dedicated: Seq<MemoryReading>, shared: Seq<MemoryReading>)
    ensures
        ({
            let rows = spec_paired(dedicated, shared);
            &&& forall|a: int, b: int| 0 <= a < b < rows.len() ==> #[trigger] rows[a].adapter != #[trigger] rows[b].adapter
            &&& forall|k: int| 0 <= k < dedicated.len() ==> exists|a: int|
                0 <= a < rows.len() && #[trigger] rows[a].adapter == (#[trigger] dedicated[k]).0
            &&& forall|k: int| 0 <= k < shared.len() ==> exists|a: int|
                0 <= a < rows.len() && #[trigger] rows[a].adapter == (#[trigger] shared[k]).0
            &&& forall|a: int| 0 <= a < rows.len() ==> (exists|k: int| 0 <= k < dedicated.len() && #[trigger] dedicated[k].0
                == (#[trigger] rows[a]).adapter) || (exists|k: int| 0 <= k < shared.len() && #[trigger] shared[k].0 == rows[a].adapter)
            &&& forall|a: int, k: int|
                0 <= a < rows.len() && 0 <= k < dedicated.len() && #[trigger] dedicated[k].0 == #[trigger] rows[a].adapter
                    && (forall|j: int| k < j < dedicated.len() ==> (#[trigger] dedicated[j]).0 != rows[a].adapter)
                    ==> rows[a].dedicated_used_bytes == dedicated[k].1
            &&& forall|a: int, k: int|
                0 <= a < rows.len() && 0 <= k < shared.len() && #[trigger] shared[k].0 == #[trigger] rows[a].adapter
                    && (forall|j: int| k < j < shared.len() ==> (#[trigger] shared[j]).0 != rows[a].adapter)
                    ==> rows[a].shared_used_bytes == shared[k].1
            &&& forall|a: int|
                0 <= a < rows.len() && (forall|k: int| 0 <= k < dedicated.len() ==> (#[trigger] dedicated[k]).0
                    != rows[a].adapter) ==> #[trigger] rows[a].dedicated_used_bytes == 0
            &&& forall|a: int|
                0 <= a < rows.len() && (forall|k: int| 0 <= k < shared.len() ==> (#[trigger] shared[k]).0
                    != rows[a].adapter) ==> #[trigger] rows[a].shared_used_bytes == 0
        }),
{
    let keys = keys_of(dedicated) + keys_of(shared);
    let adapters = adapters_in(keys);
    let rows = spec_paired(dedicated, shared);
    lemma_adapters_unique(keys);
    assert forall|k: int| 0 <= k < dedicated.len() implies exists|a: int|
        0 <= a < rows.len() && #[trigger] rows[a].adapter == (#[trigger] dedicated[k]).0 by {
        assert(keys[k] == dedicated[k].0);
        lemma_adapters_in_contains(keys, dedicated[k].0);
        let a = choose|a: int| 0 <= a < adapters.len() && adapters[a] == dedicated[k].0;
        assert(rows[a].adapter == dedicated[k].0);
    }
    assert forall|k: int| 0 <= k < shared.len() implies exists|a: int|
        0 <= a < rows.len() && #[trigger] rows[a].adapter == (#[trigger] shared[k]).0 by {
        assert(keys[dedicated.len() + k] == shared[k].0);
        lemma_adapters_in_contains(keys, shared[k].0);
        let a = choose|a: int| 0 <= a < adapters.len() && adapters[a] == shared[k].0;
        assert(rows[a].adapter == shared[k].0);
    }
    assert forall|a: int| 0 <= a < rows.len() implies (exists|k: int| 0 <= k < dedicated.len() && #[trigger] dedicated[k].0
        == (#[trigger] rows[a]).adapter) || (exists|k: int| 0 <= k < shared.len() && #[trigger] shared[k].0 == rows[a].adapter) by {
        lemma_adapters_in_contains(keys, adapters[a]);
        assert(adapters.contains(adapters[a]));
        let j = choose|j: int| 0 <= j < keys.len() && keys[j] == adapters[a];
        if j < dedicated.len() {
            assert(dedicated[j].0 == rows[a].adapter);
        } else {
            assert(shared[j - dedicated.len()].0 == rows[a].adapter);
        }
    }
    assert forall|a: int, k: int|
        0 <= a < rows.len() && 0 <= k < dedicated.len() && #[trigger] dedicated[k].0 == #[trigger] rows[a].adapter
            && (forall|j: int| k < j < dedicated.len() ==> (#[trigger] dedicated[j]).0 != rows[a].adapter)
        implies rows[a].dedicated_used_bytes == dedicated[k].1 by {
        lemma_last_reading(dedicated, rows[a].adapter, k);
    }
    assert forall|a: int, k: int|
        0 <= a < rows.len() && 0 <= k < shared.len() && #[trigger] shared[k].0 == #[trigger] rows[a].adapter
            && (forall|j: int| k < j < shared.len() ==> (#[trigger] shared[j]).0 != rows[a].adapter)
        implies rows[a].shared_used_bytes == shared[k].1 by {
        lemma_last_reading(shared, rows[a].adapter, k);
    }
    assert forall|a: int|
        0 <= a < rows.len() && (forall|k: int| 0 <= k < dedicated.len() ==> (#[trigger] dedicated[k]).0
            != rows[a].adapter) implies #[trigger] rows[a].dedicated_used_bytes == 0 by {
        lemma_no_reading(dedicated, rows[a].adapter);
    }
    assert forall|a: int|
        0 <= a < rows.len() && (forall|k: int| 0 <= k < shared.len() ==> (#[trigger] shared[k]).0
            != rows[a].adapter) implies #[trigger] rows[a].shared_used_bytes == 0 by {
        lemma_no_reading(shared, rows[a].adapter);
    }
}

/// In the order of first appearance, an earlier adapter is read before any
/// reading of a later one.
proof fn lemma_adapters_in_order(keys: Seq<u64>, a: int, b: int, j: int)
    requires
        0 <= a < b < adapters_in(keys).len(),
        0 <= j < keys.len(),
        keys[j] == adapters_in(keys)[b],
    ensures
        exists|i: int| 0 <= i < j && keys[i] == adapters_in(keys)[a],
    decreases keys.len(),
{
    let rest = keys.drop_last();
    let x = keys.last();
    let ar = adapters_in(rest);
    let ak = adapters_in(keys);
    lemma_adapters_in_contains(rest, x);
    assert(a < ar.len());
    assert(ak[a] == ar[a]);
    if j < rest.len() {
        assert(keys[j] == rest[j]);
        if b == ar.len() {
            assert(ak[b] == x);
            assert(rest.contains(x));
            assert(false);
        }
        assert(ak[b] == ar[b]);
        lemma_adapters_in_order(rest, a, b, j);
        let i = choose|i: int| 0 <= i < j && rest[i] == ar[a];
        assert(keys[i] == rest[i]);
    } else {
        lemma_adapters_in_contains(rest, ar[a]);
        assert(ar.contains(ar[a]));
        let i = choose|i: int| 0 <= i < rest.len() && rest[i] == ar[a];
        assert(keys[i] == rest[i]);
    }
}

/// Whether `adapter` was read somewhere before position `j` of `readings`.
pub open spec fn read_before(readings: Seq<u64>, adapter: u64, j: int) -> bool {
    exists|i: int| 0 <= i < j && readings[i] == adapter
}

/// Rows come in the order their adapters were first read, dedicated
/// readings before shared ones: of two rows, wherever the later row's
/// adapter is read, the earlier row's adapter was read before it.
pub proof fn law_rows_in_order_of_first_reading(dedicated: Seq<MemoryReading>, shared: Seq<MemoryReading>)
    ensures
        ({
            let rows = spec_paired(dedicated, shared);
            let read = keys_of(dedicated) + keys_of(shared);
            forall|a: int, b: int, j: int|
                0 <= a < b < rows.len() && 0 <= j < read.len() && #[trigger] read[j] == (#[trigger] rows[b]).adapter
                    ==> #[trigger] read_before(read, rows[a].adapter, j)
        }),
{
    let rows = spec_paired(dedicated, shared);
    let read = keys_of(dedicated) + keys_of(shared);
    assert forall|a: int, b: int, j: int|
        0 <= a < b < rows.len() && 0 <= j < read.len() && #[trigger] read[j] == (#[trigger] rows[b]).adapter
        implies #[trigger] read_before(read, rows[a].adapter, j) by {
        lemma_adapters_in_order(read, a, b, j);
        let i = choose|i: int| 0 <= i < j && read[i] == adapters_in(read)[a];
        assert(read[i] == rows[a].adapter);
    }
}

} // verus!
