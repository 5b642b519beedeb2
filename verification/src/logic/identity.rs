//! Reading a process identity back apart.
//!
//! `{pid}-{startedAt}` is split at the *first* hyphen: the timestamp carries
//! hyphens of its own (`8420-2026-08-28T09:00:00.000Z`).
use vstd::prelude::*;

use crate::models::{spec_process_id, ProcessId};
use crate::text::{chars_of, decimal, digit_char, digits, is_ascii_digit, string_of};

verus! {

/// A process identity, taken apart.
#[derive(Debug, Clone)]
pub struct ParsedIdentity {
    pub pid: u32,
    /// The creation time exactly as the snapshot rendered it, compared later
    /// as a string and never interpreted as a date.
    pub started_at: String,
}

/// Index of the first `c` in `s`, or `s.len()` when there is none.
pub open spec fn first_index(s: Seq<char>, c: char) -> int
    decreases s.len(),
{
    if s.len() == 0 {
        0
    } else if s[0] == c {
        0
    } else {
        1 + first_index(s.drop_first(), c)
    }
}

pub open spec fn all_digits(s: Seq<char>) -> bool {
    forall|i: int| 0 <= i < s.len() ==> is_ascii_digit(#[trigger] s[i])
}

/// The value of a string of decimal digits, read left to right.
pub open spec fn digits_value(s: Seq<char>) -> nat
    decreases s.len(),
{
    if s.len() == 0 {
        0
    } else {
        digits_value(s.drop_last()) * 10 + ((s.last() as u32) - ('0' as u32)) as nat
    }
}

/// What `parse` returns for an identity's text: the PID and the creation
/// time, or nothing when the text is not exactly `{pid}-{startedAt}` with a
/// plain-digit, non-zero PID that fits a `u32`, written without a leading
/// zero, and a non-empty creation time.
pub open spec fn spec_parse(id: Seq<char>) -> Option<(u32, Seq<char>)> {
    let cut = first_index(id, '-');
    let pid = id.take(cut);
    let started = id.skip(cut + 1);
    if cut < id.len() && pid.len() > 0 && all_digits(pid) && pid[0] != '0' && digits_value(pid)
        <= u32::MAX && digits_value(pid) != 0 && started.len() > 0 {
        Some((digits_value(pid) as u32, started))
    } else {
        None
    }
}

proof fn lemma_first_index_bounds(s: Seq<char>, c: char)
    ensures
        0 <= first_index(s, c) <= s.len(),
    decreases s.len(),
{
    if s.len() > 0 && s[0] != c {
        lemma_first_index_bounds(s.drop_first(), c);
    }
}

proof fn lemma_first_index_is_hyphen(s: Seq<char>, c: char)
    ensures
        first_index(s, c) < s.len() ==> s[first_index(s, c)] == c,
    decreases s.len(),
{
    if s.len() > 0 && s[0] != c {
        lemma_first_index_is_hyphen(s.drop_first(), c);
        lemma_first_index_bounds(s.drop_first(), c);
        if first_index(s, c) < s.len() {
            assert(s[first_index(s, c)] == s.drop_first()[first_index(s.drop_first(), c)]);
        }
    }
}

proof fn lemma_first_index_of_prefix(s: Seq<char>, i: int, c: char)
    requires
        0 <= i <= s.len(),
        forall|j: int| 0 <= j < i ==> s[j] != c,
        i == s.len() || s[i] == c,
    ensures
        first_index(s, c) == i,
    decreases i,
{
    if i > 0 {
        assert forall|j: int| 0 <= j < i - 1 implies s.drop_first()[j] != c by {
            assert(s.drop_first()[j] == s[j + 1]);
        }
        lemma_first_index_of_prefix(s.drop_first(), i - 1, c);
    }
}

proof fn lemma_digits_value_push(s: Seq<char>, c: char)
    ensures
        digits_value(s.push(c)) == digits_value(s) * 10 + ((c as u32) - ('0' as u32)) as nat,
{
    assert(s.push(c).drop_last() =~= s);
    assert(s.push(c).last() == c);
    assert(s.push(c).len() > 0);
}

/// Decimal text is made of digits and reads back as the number it wrote.
pub proof fn lemma_decimal_reads_back(n: nat)
    ensures
        all_digits(decimal(n)),
        decimal(n).len() > 0,
        digits_value(decimal(n)) == n,
    decreases n,
{
    if n >= 10 {
        crate::text::lemma_div_smaller(n, 10);
        lemma_decimal_reads_back(n / 10);
        let prefix = digits(n / 10, 10, false);
        assert(decimal(n) == prefix.push(digit_char(n % 10, false)));
        lemma_digits_value_push(prefix, digit_char(n % 10, false));
        assert(digit_char(n % 10, false) as u32 == 48 + n % 10);
        vstd::arithmetic::div_mod::lemma_fundamental_div_mod(n as int, 10);
        assert forall|i: int| 0 <= i < decimal(n).len() implies is_ascii_digit(
            #[trigger] decimal(n)[i],
        ) by {
            if i < prefix.len() {
                assert(decimal(n)[i] == prefix[i]);
            }
        }
    } else {
        assert(decimal(n) == seq![digit_char(n, false)]);
        assert(seq![digit_char(n, false)].drop_last() =~= Seq::<char>::empty());
        assert(digit_char(n, false) as u32 == 48 + n);
        assert(digits_value(Seq::<char>::empty()) == 0);
    }
}

/// Parse `{pid}-{startedAt}`, rejecting anything that is not exactly that.
///
/// A sign, padding or anything else before the first hyphen is refused, so
/// an identity has exactly one spelling. PID 0 (the Idle process) is refused.
pub fn parse(id: &ProcessId) -> (r: Option<ParsedIdentity>)
    ensures
        match (r, spec_parse(id@)) {
            (Some(p), Some((pid, started))) => p.pid == pid && p.started_at@ == started,
            (None, None) => true,
            _ => false,
        },
{
    let chars = chars_of(id.as_str());
    let n = chars.len();
    let mut cut: usize = 0;
    while cut < n && chars[cut] != '-'
        invariant
            cut <= n == chars@.len(),
            forall|j: int| 0 <= j < cut ==> chars@[j] != '-',
        decreases n - cut,
    {
        cut = cut + 1;
    }
    proof {
        lemma_first_index_of_prefix(chars@, cut as int, '-');
    }
    if cut == n || cut == 0 || chars[0] == '0' {
        proof {
            assert(chars@ == id@);
            assert(cut > 0 ==> chars@.take(cut as int)[0] == chars@[0]);
        }
        return None;
    }
    // Accumulate the PID, refusing anything but digits and anything that
    // does not fit a u32.
    let mut value: u64 = 0;
    let mut i: usize = 0;
    while i < cut
        invariant
            cut < n == chars@.len(),
            chars@ == id@,
            first_index(chars@, '-') == cut,
            i <= cut,
            all_digits(chars@.take(i as int)),
            value == digits_value(chars@.take(i as int)),
            value <= u32::MAX,
        decreases cut - i,
    {
        let c = chars[i];
        proof {
            assert(chars@.take(i + 1) =~= chars@.take(i as int).push(c));
            lemma_digits_value_push(chars@.take(i as int), c);
        }
        if !('0' <= c && c <= '9') {
            proof {
                assert(!is_ascii_digit(chars@.take(cut as int)[i as int]));
                assert(!all_digits(chars@.take(cut as int)));
                assert(chars@ == id@);
                assert(spec_parse(id@) is None);
            }
            return None;
        }
        let d = (c as u32 - '0' as u32) as u64;
        let next = value * 10 + d;
        proof {
            assert forall|j: int| 0 <= j < i + 1 implies is_ascii_digit(
                #[trigger] chars@.take(i + 1)[j],
            ) by {
                if j < i {
                    assert(chars@.take(i + 1)[j] == chars@.take(i as int)[j]);
                }
            }
        }
        if next > 0xFFFF_FFFF {
            proof {
                assert(chars@.take(cut as int).take(i + 1) =~= chars@.take(i + 1));
                if all_digits(chars@.take(cut as int)) {
                    lemma_digits_value_monotone(chars@.take(cut as int), i as int + 1);
                }
                assert(chars@ == id@);
                assert(spec_parse(id@) is None);
            }
            return None;
        }
        value = next;
        i = i + 1;
    }
    proof {
        assert(chars@.take(cut as int).take(cut as int) =~= chars@.take(cut as int));
        assert(chars@.take(cut as int)[0] == chars@[0]);
    }
    if value == 0 || cut + 1 >= n {
        return None;
    }
    let mut rest: Vec<char> = Vec::new();
    let mut k: usize = cut + 1;
    while k < n
        invariant
            cut + 1 <= k <= n == chars@.len(),
            rest@ == chars@.subrange(cut + 1, k as int),
        decreases n - k,
    {
        rest.push(chars[k]);
        proof {
            assert(chars@.subrange(cut + 1, k as int).push(chars@[k as int]) =~= chars@.subrange(
                cut + 1,
                k + 1,
            ));
        }
        k = k + 1;
    }
    proof {
        assert(rest@ =~= chars@.skip(cut + 1));
    }
    Some(ParsedIdentity { pid: value as u32, started_at: string_of(rest.as_slice()) })
}

/// The value of a digit string never decreases as digits are appended.
proof fn lemma_digits_value_monotone(s: Seq<char>, k: int)
    requires
        0 <= k <= s.len(),
        all_digits(s),
    ensures
        digits_value(s.take(k)) <= digits_value(s),
    decreases s.len() - k,
{
    if k < s.len() {
        lemma_digits_value_monotone(s, k + 1);
        assert(s.take(k + 1) =~= s.take(k).push(s[k]));
        lemma_digits_value_push(s.take(k), s[k]);
        assert(is_ascii_digit(s[k]));
    } else {
        assert(s.take(k) =~= s);
    }
}

proof fn lemma_decimal_leads_with_nonzero(n: nat)
    requires
        n > 0,
    ensures
        decimal(n)[0] != '0',
    decreases n,
{
    if n >= 10 {
        crate::text::lemma_div_smaller(n, 10);
        lemma_decimal_leads_with_nonzero(n / 10);
        crate::logic::identity::lemma_decimal_reads_back(n / 10);
        assert(decimal(n) == digits(n / 10, 10, false).push(digit_char(n % 10, false)));
        assert(decimal(n)[0] == decimal(n / 10)[0]);
    } else {
        assert(decimal(n) == seq![digit_char(n, false)]);
    }
}

/// Reading an identity back gives exactly the PID and creation time it was
/// built from, whatever hyphens the creation time contains, for every real
/// PID (not 0) and every non-empty creation time.
pub proof fn law_identity_round_trip(pid: u32, started_at: Seq<char>)
    requires
        pid != 0,
        started_at.len() > 0,
    ensures
        spec_parse(spec_process_id(pid, started_at)) == Some((pid, started_at)),
{
    let d = decimal(pid as nat);
    let id = spec_process_id(pid, started_at);
    lemma_decimal_reads_back(pid as nat);
    lemma_decimal_leads_with_nonzero(pid as nat);
    assert forall|j: int| 0 <= j < d.len() implies id[j] != '-' by {
        assert(id[j] == d[j]);
        assert(is_ascii_digit(d[j]));
    }
    assert(id[d.len() as int] == '-');
    lemma_first_index_of_prefix(id, d.len() as int, '-');
    assert(id.take(d.len() as int) =~= d);
    assert(id.skip(d.len() as int + 1) =~= started_at);
}

/// Two identities are equal only when their PIDs and creation times are.
pub proof fn lemma_process_id_injective(p1: u32, a: Seq<char>, p2: u32, b: Seq<char>)
    requires
        spec_process_id(p1, a) == spec_process_id(p2, b),
    ensures
        p1 == p2,
        a == b,
{
    let d1 = decimal(p1 as nat);
    let d2 = decimal(p2 as nat);
    let id = spec_process_id(p1, a);
    lemma_decimal_reads_back(p1 as nat);
    lemma_decimal_reads_back(p2 as nat);
    assert forall|j: int| 0 <= j < d1.len() implies id[j] != '-' by {
        assert(id[j] == d1[j]);
        assert(is_ascii_digit(d1[j]));
    }
    assert(id[d1.len() as int] == '-');
    lemma_first_index_of_prefix(id, d1.len() as int, '-');
    assert forall|j: int| 0 <= j < d2.len() implies id[j] != '-' by {
        assert(id[j] == d2[j]);
        assert(is_ascii_digit(d2[j]));
    }
    assert(id[d2.len() as int] == '-');
    lemma_first_index_of_prefix(id, d2.len() as int, '-');
    assert(id.take(d1.len() as int) =~= d1);
    assert(id.take(d2.len() as int) =~= d2);
    assert(id.skip(d1.len() as int + 1) =~= a);
    assert(id.skip(d2.len() as int + 1) =~= b);
}

/// A digit string with no leading zero is the decimal text of its value.
proof fn lemma_canonical_digits(s: Seq<char>)
    requires
        s.len() > 0,
        all_digits(s),
        s[0] != '0',
    ensures
        decimal(digits_value(s)) == s,
        digits_value(s) > 0,
    decreases s.len(),
{
    let last = s.last();
    let d = ((last as u32) - ('0' as u32)) as nat;
    assert(is_ascii_digit(s[s.len() - 1]));
    if s.len() == 1 {
        assert(s.drop_last() =~= Seq::<char>::empty());
        assert(digits_value(Seq::<char>::empty()) == 0);
        assert(digits_value(s) == d);
        assert(digit_char(d, false) == last);
        assert(decimal(d) == seq![digit_char(d, false)]);
        assert(seq![last] =~= s);
    } else {
        let front = s.drop_last();
        assert(front[0] == s[0]);
        assert forall|i: int| 0 <= i < front.len() implies is_ascii_digit(#[trigger] front[i]) by {
            assert(front[i] == s[i]);
        }
        lemma_canonical_digits(front);
        let v = digits_value(front);
        assert(digits_value(s) == v * 10 + d);
        let n = digits_value(s);
        assert(n >= 10);
        assert(n / 10 == v && n % 10 == d) by {
            vstd::arithmetic::div_mod::lemma_fundamental_div_mod_converse(n as int, 10, v as int, d as int);
        }
        assert(digit_char(d, false) == last);
        assert(decimal(n) == digits(n / 10, 10, false).push(digit_char(n % 10, false)));
        assert(front.push(last) =~= s);
    }
}

/// Parsing succeeds only on the one spelling: formatting what was read gives
/// back exactly the text that was parsed.
pub proof fn law_identity_has_one_spelling(id: Seq<char>)
    requires
        spec_parse(id) is Some,
    ensures
        spec_process_id(spec_parse(id)->Some_0.0, spec_parse(id)->Some_0.1) == id,
{
    let cut = first_index(id, '-');
    let pid = id.take(cut);
    lemma_first_index_bounds(id, '-');
    lemma_first_index_is_hyphen(id, '-');
    lemma_canonical_digits(pid);
    assert(decimal(digits_value(pid) as u32 as nat) == pid);
    assert(pid + seq!['-'] + id.skip(cut + 1) =~= id);
}

} // verus!
