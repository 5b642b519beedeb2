//! Orderings the tables are sorted by, and the stable sort that applies them.
//!
//! Text compares the way `str` does: character by character by code point,
//! a proper prefix first. Rows sort by a strict weak order; rows the order
//! cannot tell apart keep their input order.
use vstd::prelude::*;

use crate::text::chars_of;

verus! {

/// `a` sorts strictly before `b`, comparing from position `i` on.
pub open spec fn text_lt_from(a: Seq<char>, b: Seq<char>, i: int) -> bool
    decreases a.len() - i,
{
    if i >= a.len() {
        i < b.len()
    } else if i >= b.len() {
        false
    } else if a[i] != b[i] {
        (a[i] as int) < (b[i] as int)
    } else {
        text_lt_from(a, b, i + 1)
    }
}

/// `a` sorts strictly before `b`.
pub open spec fn text_lt(a: Seq<char>, b: Seq<char>) -> bool {
    text_lt_from(a, b, 0)
}

proof fn lemma_text_lt_irreflexive_from(a: Seq<char>, i: int)
    requires
        0 <= i,
    ensures
        !text_lt_from(a, a, i),
    decreases a.len() - i,
{
    if i < a.len() {
        lemma_text_lt_irreflexive_from(a, i + 1);
    }
}

proof fn lemma_text_lt_from_two(a: Seq<char>, b: Seq<char>, i: int)
    requires
        0 <= i,
        i <= a.len() && i <= b.len(),
        a.take(i) == b.take(i),
    ensures
        text_lt_from(a, b, i) || text_lt_from(b, a, i) || a == b,
    decreases a.len() - i,
{
    if i < a.len() && i < b.len() && a[i] == b[i] {
        assert(a.take(i + 1) =~= a.take(i).push(a[i]));
        assert(b.take(i + 1) =~= b.take(i).push(b[i]));
        lemma_text_lt_from_two(a, b, i + 1);
    } else if i == a.len() && i == b.len() {
        assert(a =~= a.take(i));
        assert(b =~= b.take(i));
    } else if i < a.len() && i < b.len() {
        assert(a[i] != b[i]);
        assert((a[i] as int) != (b[i] as int));
    }
}

proof fn lemma_text_lt_trans_from(a: Seq<char>, b: Seq<char>, c: Seq<char>, i: int)
    requires
        0 <= i,
        text_lt_from(a, b, i),
        text_lt_from(b, c, i),
    ensures
        text_lt_from(a, c, i),
    decreases a.len() - i,
{
    if i < a.len() && i < b.len() && i < c.len() && a[i] == b[i] && b[i] == c[i] {
        lemma_text_lt_trans_from(a, b, c, i + 1);
    }
}

/// `text_lt` is a strict total order.
pub proof fn lemma_text_order(a: Seq<char>, b: Seq<char>, c: Seq<char>)
    ensures
        !text_lt(a, a),
        text_lt(a, b) && text_lt(b, c) ==> text_lt(a, c),
        text_lt(a, b) || text_lt(b, a) || a == b,
{
    lemma_text_lt_irreflexive_from(a, 0);
    if text_lt(a, b) && text_lt(b, c) {
        lemma_text_lt_trans_from(a, b, c, 0);
    }
    assert(a.take(0) =~= b.take(0));
    lemma_text_lt_from_two(a, b, 0);
}

/// `a` and `b` agree on every position before `i`.
pub open spec fn agree_before(a: Seq<char>, b: Seq<char>, i: int) -> bool {
    forall|j: int| 0 <= j < i ==> #[trigger] a[j] == b[j]
}

/// Lexicographic order by code point, written out: at the first position
/// where the two differ, `a` has the smaller character; or `a` is a proper
/// prefix of `b`.
pub open spec fn lexically_before(a: Seq<char>, b: Seq<char>) -> bool {
    ||| exists|i: int|
        0 <= i < a.len() && i < b.len() && #[trigger] agree_before(a, b, i) && (a[i] as int) < (b[i] as int)
    ||| a.len() < b.len() && agree_before(a, b, a.len() as int)
}

proof fn lemma_text_lt_from_is_lexical(a: Seq<char>, b: Seq<char>, k: int)
    requires
        0 <= k <= a.len(),
        k <= b.len(),
        agree_before(a, b, k),
    ensures
        text_lt_from(a, b, k) == lexically_before(a, b),
    decreases a.len() - k,
{
    if k >= a.len() {
        if exists|i: int|
            0 <= i < a.len() && i < b.len() && #[trigger] agree_before(a, b, i) && (a[i] as int) < (b[i] as int) {
            let i = choose|i: int|
                0 <= i < a.len() && i < b.len() && #[trigger] agree_before(a, b, i) && (a[i] as int) < (b[i] as int);
            assert(a[i] == b[i]);
        }
    } else if k >= b.len() {
        if exists|i: int|
            0 <= i < a.len() && i < b.len() && #[trigger] agree_before(a, b, i) && (a[i] as int) < (b[i] as int) {
            let i = choose|i: int|
                0 <= i < a.len() && i < b.len() && #[trigger] agree_before(a, b, i) && (a[i] as int) < (b[i] as int);
            assert(a[i] == b[i]);
        }
    } else if a[k] != b[k] {
        if (a[k] as int) < (b[k] as int) {
            assert(agree_before(a, b, k));
        } else {
            if exists|i: int|
                0 <= i < a.len() && i < b.len() && #[trigger] agree_before(a, b, i) && (a[i] as int) < (b[i]
                    as int) {
                let i = choose|i: int|
                    0 <= i < a.len() && i < b.len() && #[trigger] agree_before(a, b, i) && (a[i] as int) < (b[i]
                        as int);
                if i < k {
                    assert(a[i] == b[i]);
                } else if i > k {
                    assert(a[k] == b[k]);
                }
            }
            if a.len() < b.len() && agree_before(a, b, a.len() as int) {
                assert(a[k] == b[k]);
            }
        }
    } else {
        assert(agree_before(a, b, k + 1));
        lemma_text_lt_from_is_lexical(a, b, k + 1);
    }
}

/// Text sorts the way `str` does: by the first character that differs,
/// compared by code point, and a proper prefix before what extends it.
pub proof fn law_text_order_is_lexical(a: Seq<char>, b: Seq<char>)
    ensures
        text_lt(a, b) == lexically_before(a, b),
{
    lemma_text_lt_from_is_lexical(a, b, 0);
}

/// Whether `a` sorts strictly before `b`, as `str` orders them.
pub fn text_less(a: &str, b: &str) -> (r: bool)
    ensures
        r == text_lt(a@, b@),
{
    let x = chars_of(a);
    let y = chars_of(b);
    let mut i: usize = 0;
    while i < x.len() && i < y.len() && x[i] == y[i]
        invariant
            x@ == a@,
            y@ == b@,
            i <= x@.len(),
            i <= y@.len(),
            text_lt_from(a@, b@, 0) == text_lt_from(a@, b@, i as int),
        decreases x@.len() - i,
    {
        i = i + 1;
    }
    if i >= x.len() {
        i < y.len()
    } else if i >= y.len() {
        false
    } else {
        x[i] < y[i]
    }
}

/// Rows that sort by a strict weak order.
pub trait Ranked: Sized {
    /// `self` sorts strictly before `other`.
    spec fn precedes(&self, other: &Self) -> bool;

    proof fn lemma_irreflexive(a: &Self)
        ensures
            !a.precedes(a),
    ;

    proof fn lemma_transitive(a: &Self, b: &Self, c: &Self)
        requires
            a.precedes(b),
            b.precedes(c),
        ensures
            a.precedes(c),
    ;

    /// Whatever sits between two rows in the order, it is after the first or
    /// before the second.
    proof fn lemma_split(a: &Self, b: &Self, c: &Self)
        requires
            a.precedes(b),
        ensures
            a.precedes(c) || c.precedes(b),
    ;

    fn goes_before(&self, other: &Self) -> (r: bool)
        ensures
            r == self.precedes(other),
    ;
}

/// `r` holds the rows of `s` rearranged by `perm` (row `i` of `r` is row
/// `perm[i]` of `s`), sorted, with rows the order cannot tell apart in their
/// input order.
pub open spec fn is_stable_arrangement<T: Ranked>(r: Seq<T>, s: Seq<T>, perm: Seq<int>) -> bool {
    &&& r.len() == s.len()
    &&& perm.len() == s.len()
    &&& forall|i: int| 0 <= i < perm.len() ==> 0 <= #[trigger] perm[i] < s.len()
    &&& forall|i: int, j: int| 0 <= i < j < perm.len() ==> #[trigger] perm[i] != #[trigger] perm[j]
    &&& forall|i: int| 0 <= i < r.len() ==> #[trigger] r[i] == s[perm[i]]
    &&& forall|i: int, j: int|
        #![trigger r[i], r[j]]
        0 <= i < j < r.len() ==> !r[j].precedes(&r[i]) && (!r[i].precedes(&r[j]) ==> perm[i] < perm[j])
}

/// `r` is `s` sorted stably.
pub open spec fn is_stable_sort_of<T: Ranked>(r: Seq<T>, s: Seq<T>) -> bool {
    exists|perm: Seq<int>| is_stable_arrangement(r, s, perm)
}

/// Sorts `v` stably by insertion.
pub fn sort_stably<T: Ranked>(v: Vec<T>) -> (r: Vec<T>)
    ensures
        is_stable_sort_of(r@, v@),
{
    let ghost s = v@;
    let mut rest = v;
    let mut out: Vec<T> = Vec::new();
    let ghost mut perm: Seq<int> = Seq::empty();
    let mut taken: usize = 0;
    let n = rest.len();
    // Take rows from the front in input order: reverse the remainder first so
    // each `pop` yields the next input row.
    let mut pending: Vec<T> = Vec::new();
    while rest.len() > 0
        invariant
            rest@.len() + pending@.len() == s.len(),
            forall|i: int| 0 <= i < rest@.len() ==> #[trigger] rest@[i] == s[i],
            forall|i: int|
                0 <= i < pending@.len() ==> #[trigger] pending@[i] == s[s.len() - 1 - i],
        decreases rest@.len(),
    {
        let x = rest.pop().unwrap();
        pending.push(x);
    }
    while taken < n
        invariant
            n == s.len(),
            taken <= n,
            pending@.len() == n - taken,
            forall|i: int|
                0 <= i < pending@.len() ==> #[trigger] pending@[i] == s[s.len() - 1 - i],
            is_stable_arrangement(out@, s.take(taken as int), perm),
        decreases n - taken,
    {
        let x = pending.pop().unwrap();
        assert(x == s[taken as int]);
        let mut pos: usize = 0;
        while pos < out.len() && !x.goes_before(&out[pos])
            invariant
                pos <= out@.len(),
                n == s.len(),
                taken < n,
                x == s[taken as int],
                is_stable_arrangement(out@, s.take(taken as int), perm),
                forall|k: int| #![trigger out@[k]] 0 <= k < pos ==> !x.precedes(&out@[k]),
            decreases out@.len() - pos,
        {
            pos = pos + 1;
        }
        let ghost old_out = out@;
        let ghost old_perm = perm;
        proof {
            // Everything at or after `pos` comes strictly after `x`.
            assert forall|k: int| #![trigger old_out[k]] pos <= k < old_out.len() implies x.precedes(&old_out[k]) by {
                if k > pos {
                    T::lemma_split(&x, &old_out[pos as int], &old_out[k]);
                }
            }
        }
        out.insert(pos, x);
        proof {
            perm = old_perm.insert(pos as int, taken as int);
            let t = s.take(taken as int + 1);
            assert(t.len() == taken + 1);
            assert forall|i: int| 0 <= i < perm.len() implies 0 <= #[trigger] perm[i] < t.len() by {
                if i < pos {
                    assert(perm[i] == old_perm[i]);
                } else if i > pos {
                    assert(perm[i] == old_perm[i - 1]);
                }
            }
            assert forall|i: int, j: int| 0 <= i < j < perm.len() implies #[trigger] perm[i]
                != #[trigger] perm[j] by {
                if i < pos && j < pos {
                } else if i < pos && j == pos {
                } else if i < pos {
                    assert(perm[j] == old_perm[j - 1]);
                } else if i == pos {
                    assert(perm[j] == old_perm[j - 1]);
                } else {
                    assert(perm[i] == old_perm[i - 1]);
                    assert(perm[j] == old_perm[j - 1]);
                }
            }
            assert forall|i: int| 0 <= i < out@.len() implies #[trigger] out@[i] == t[perm[i]] by {
                if i < pos {
                    assert(out@[i] == old_out[i]);
                    assert(perm[i] == old_perm[i]);
                } else if i > pos {
                    assert(out@[i] == old_out[i - 1]);
                    assert(perm[i] == old_perm[i - 1]);
                }
            }
            assert forall|i: int, j: int| #![trigger out@[i], out@[j]] 0 <= i < j < out@.len() implies !out@[j].precedes(
                &out@[i],
            ) && (!out@[i].precedes(&out@[j]) ==> perm[i] < perm[j]) by {
                if i < pos && j < pos {
                    assert(out@[i] == old_out[i] && out@[j] == old_out[j]);
                } else if i < pos && j == pos {
                    assert(out@[i] == old_out[i]);
                } else if i < pos {
                    assert(out@[i] == old_out[i] && out@[j] == old_out[j - 1]);
                    assert(perm[j] == old_perm[j - 1]);
                    assert(!old_out[j - 1].precedes(&old_out[i]));
                } else if i == pos {
                    assert(out@[j] == old_out[j - 1]);
                    assert(x.precedes(&old_out[j - 1]));
                    if old_out[j - 1].precedes(&x) {
                        T::lemma_transitive(&x, &old_out[j - 1], &x);
                        T::lemma_irreflexive(&x);
                    }
                } else {
                    assert(out@[i] == old_out[i - 1] && out@[j] == old_out[j - 1]);
                    assert(perm[i] == old_perm[i - 1] && perm[j] == old_perm[j - 1]);
                }
            }
        }
        taken = taken + 1;
    }
    proof {
        assert(s.take(n as int) =~= s);
    }
    out
}

/// A stable arrangement leaves nothing out: every row of `s` is placed
/// somewhere in `r`.
pub proof fn lemma_arrangement_is_onto<T: Ranked>(r: Seq<T>, s: Seq<T>, perm: Seq<int>, j: int)
    requires
        is_stable_arrangement(r, s, perm),
        0 <= j < s.len(),
    ensures
        exists|k: int| 0 <= k < r.len() && perm[k] == j,
{
    assert(perm.no_duplicates());
    perm.unique_seq_to_set();
    vstd::seq_lib::seq_to_set_is_finite(perm);
    vstd::set_lib::lemma_int_range(0, s.len() as int);
    let range = vstd::set_lib::set_int_range(0, s.len() as int);
    assert(perm.to_set().subset_of(range)) by {
        assert forall|x: int| perm.to_set().contains(x) implies range.contains(x) by {
            let k = choose|k: int| 0 <= k < perm.len() && perm[k] == x;
        }
    }
    vstd::set_lib::lemma_subset_equality(perm.to_set(), range);
    assert(range.contains(j));
    assert(perm.to_set().contains(j));
}

} // verus!
