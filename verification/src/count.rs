//! Counting the marked positions of a boolean sequence.
//!
//! Mines, flags and revealed cells are each modelled as a `Seq<bool>` over the
//! cells of a board in row-major order. The budget rules of the game are
//! statements about how many positions of such a sequence are marked.

use vstd::prelude::*;

verus! {

/// `1` for a marked position, `0` for an unmarked one.
pub open spec fn unit(b: bool) -> nat {
    if b {
        1
    } else {
        0
    }
}

/// Number of `true` entries of `s`.
pub open spec fn count_true(s: Seq<bool>) -> nat
    decreases s.len(),
{
    if s.len() == 0 {
        0
    } else {
        count_true(s.drop_last()) + unit(s.last())
    }
}

/// `a` marks no position that `b` leaves unmarked.
pub open spec fn marks_within(a: Seq<bool>, b: Seq<bool>) -> bool {
    &&& a.len() == b.len()
    &&& forall|i: int| 0 <= i < a.len() ==> (#[trigger] a[i] ==> b[i])
}

/// A sequence cannot hold more marks than positions.
pub proof fn lemma_count_bounded(s: Seq<bool>)
    ensures
        count_true(s) <= s.len(),
    decreases s.len(),
{
    if s.len() > 0 {
        lemma_count_bounded(s.drop_last());
    }
}

/// Appending one position adds its mark to the count.
pub proof fn lemma_count_push(s: Seq<bool>, v: bool)
    ensures
        count_true(s.push(v)) == count_true(s) + unit(v),
{
    assert(s.push(v).drop_last() =~= s);
}

/// A sequence without marks counts zero, and only such a sequence does.
pub proof fn lemma_count_zero(s: Seq<bool>)
    ensures
        count_true(s) == 0 <==> (forall|i: int| 0 <= i < s.len() ==> !#[trigger] s[i]),
    decreases s.len(),
{
    if s.len() > 0 {
        let t = s.drop_last();
        lemma_count_zero(t);
        if count_true(s) == 0 {
            assert forall|i: int| 0 <= i < s.len() implies !#[trigger] s[i] by {
                if i < t.len() {
                    assert(s[i] == t[i]);
                }
            }
        }
        if forall|i: int| 0 <= i < s.len() ==> !#[trigger] s[i] {
            assert(!s[s.len() - 1]);
            assert forall|i: int| 0 <= i < t.len() implies !#[trigger] t[i] by {
                assert(t[i] == s[i]);
            }
        }
    }
}

/// A sequence marked at every position counts its length.
pub proof fn lemma_count_full(s: Seq<bool>)
    requires
        forall|i: int| 0 <= i < s.len() ==> #[trigger] s[i],
    ensures
        count_true(s) == s.len(),
    decreases s.len(),
{
    if s.len() > 0 {
        let t = s.drop_last();
        assert forall|i: int| 0 <= i < t.len() implies #[trigger] t[i] by {
            assert(t[i] == s[i]);
        }
        lemma_count_full(t);
        assert(s[s.len() - 1]);
    }
}

/// Changing one position changes the count by the difference of the marks.
pub proof fn lemma_count_update(s: Seq<bool>, i: int, v: bool)
    requires
        0 <= i < s.len(),
    ensures
        count_true(s.update(i, v)) + unit(s[i]) == count_true(s) + unit(v),
    decreases s.len(),
{
    let u = s.update(i, v);
    if i == s.len() - 1 {
        assert(u.drop_last() =~= s.drop_last());
    } else {
        lemma_count_update(s.drop_last(), i, v);
        assert(u.drop_last() =~= s.drop_last().update(i, v));
    }
}

/// Fewer marks position by position means no greater count.
pub proof fn lemma_count_monotone(a: Seq<bool>, b: Seq<bool>)
    requires
        marks_within(a, b),
    ensures
        count_true(a) <= count_true(b),
    decreases a.len(),
{
    if a.len() > 0 {
        let a0 = a.drop_last();
        let b0 = b.drop_last();
        assert forall|i: int| 0 <= i < a0.len() && #[trigger] a0[i] implies b0[i] by {
            assert(a0[i] == a[i] && b0[i] == b[i]);
        }
        lemma_count_monotone(a0, b0);
        assert(a[a.len() - 1] ==> b[a.len() - 1]);
    }
}

/// Two sequences of equal count, one within the other, are the same sequence.
pub proof fn lemma_count_tight(a: Seq<bool>, b: Seq<bool>)
    requires
        marks_within(a, b),
        count_true(a) == count_true(b),
    ensures
        a =~= b,
    decreases a.len(),
{
    if a.len() > 0 {
        let a0 = a.drop_last();
        let b0 = b.drop_last();
        assert forall|i: int| 0 <= i < a0.len() && #[trigger] a0[i] implies b0[i] by {
            assert(a0[i] == a[i] && b0[i] == b[i]);
        }
        lemma_count_monotone(a0, b0);
        assert(a[a.len() - 1] ==> b[a.len() - 1]);
        lemma_count_tight(a0, b0);
        assert forall|i: int| 0 <= i < a.len() implies a[i] == b[i] by {
            if i < a0.len() {
                assert(a0[i] == a[i] && b0[i] == b[i]);
            }
        }
    }
}

} // verus!
