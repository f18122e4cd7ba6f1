//! Facts about rounded-down division and sums of integer sequences.

use vstd::prelude::*;

verus! {

/// Sum of the elements of `s`.
pub open spec fn seq_sum(s: Seq<int>) -> int
    decreases s.len(),
{
    if s.len() == 0 {
        0
    } else {
        seq_sum(s.drop_last()) + s.last()
    }
}

/// The quotient brackets the dividend: `d * (a / d) <= a < d * (a / d) + d`.
pub proof fn lemma_div_brackets(a: int, d: int)
    requires
        0 <= a,
        0 < d,
    ensures
        0 <= a / d,
        d * (a / d) <= a,
        a < d * (a / d) + d,
{
    vstd::arithmetic::div_mod::lemma_fundamental_div_mod(a, d);
    vstd::arithmetic::div_mod::lemma_mod_bound(a, d);
    vstd::arithmetic::div_mod::lemma_div_pos_is_pos(a, d);
}

/// A share `a` of `d`, applied to `b`, is at most `b`.
pub proof fn lemma_share_at_most_whole(a: int, b: int, d: int)
    requires
        0 <= a <= d,
        0 < d,
        0 <= b,
    ensures
        0 <= (a * b) / d <= b,
{
    assert(0 <= a * b <= d * b) by (nonlinear_arith)
        requires
            0 <= a <= d,
            0 <= b,
    ;
    lemma_div_brackets(a * b, d);
    let q = (a * b) / d;
    assert(q <= b) by (nonlinear_arith)
        requires
            d * q <= a * b,
            a * b <= d * b,
            0 < d,
    ;
}

/// Sum of `f` over the elements of `s`.
pub open spec fn sum_by<T>(s: Seq<T>, f: spec_fn(T) -> int) -> int
    decreases s.len(),
{
    if s.len() == 0 {
        0
    } else {
        sum_by(s.drop_last(), f) + f(s.last())
    }
}

/// Of terms that are not negative, no sum of the first few exceeds the sum of all.
pub proof fn lemma_seq_sum_prefix(s: Seq<int>, k: int)
    requires
        0 <= k <= s.len(),
        forall|i: int| 0 <= i < s.len() ==> 0 <= #[trigger] s[i],
    ensures
        0 <= seq_sum(s.take(k)) <= seq_sum(s),
    decreases s.len() - k,
{
    if k == s.len() {
        assert(s.take(k) =~= s);
        lemma_seq_sum_nonnegative(s);
    } else {
        lemma_seq_sum_prefix(s, k + 1);
        assert(s.take(k + 1).drop_last() =~= s.take(k));
        lemma_seq_sum_nonnegative(s.take(k));
    }
}

/// A sum of terms that are not negative is not negative.
pub proof fn lemma_seq_sum_nonnegative(s: Seq<int>)
    requires
        forall|i: int| 0 <= i < s.len() ==> 0 <= #[trigger] s[i],
    ensures
        0 <= seq_sum(s),
    decreases s.len(),
{
    if s.len() > 0 {
        lemma_seq_sum_nonnegative(s.drop_last());
    }
}

/// Taking one element out of a sequence takes its term out of the sum.
pub proof fn lemma_sum_by_remove<T>(s: Seq<T>, f: spec_fn(T) -> int, j: int)
    requires
        0 <= j < s.len(),
    ensures
        sum_by(s, f) == sum_by(s.remove(j), f) + f(s[j]),
    decreases s.len(),
{
    if j == s.len() - 1 {
        assert(s.remove(j) =~= s.drop_last());
    } else {
        lemma_sum_by_remove(s.drop_last(), f, j);
        assert(s.remove(j).drop_last() =~= s.drop_last().remove(j));
        assert(s.remove(j).last() == s.last());
    }
}

/// A sum does not depend on the order of its terms.
pub proof fn lemma_sum_by_permutation<T>(a: Seq<T>, b: Seq<T>, f: spec_fn(T) -> int)
    requires
        a.to_multiset() == b.to_multiset(),
    ensures
        sum_by(a, f) == sum_by(b, f),
    decreases a.len(),
{
    vstd::seq_lib::to_multiset_len(a);
    vstd::seq_lib::to_multiset_len(b);
    if a.len() > 0 {
        let x = a.last();
        vstd::seq_lib::to_multiset_contains(a, x);
        vstd::seq_lib::to_multiset_contains(b, x);
        assert(a.contains(x));
        let j = choose|j: int| 0 <= j < b.len() && b[j] == x;
        vstd::seq_lib::to_multiset_remove(a, a.len() - 1);
        vstd::seq_lib::to_multiset_remove(b, j);
        assert(a.remove(a.len() - 1) =~= a.drop_last());
        lemma_sum_by_permutation(a.drop_last(), b.remove(j), f);
        lemma_sum_by_remove(b, f, j);
    }
}

/// `(j * d + x) / d` is `j` more than `x / d`.
pub proof fn lemma_div_hoist(x: int, j: int, d: int)
    requires
        0 < d,
    ensures
        (j * d + x) / d == j + x / d,
{
    vstd::arithmetic::div_mod::lemma_hoist_over_denominator(x, j, d as nat);
}

} // verus!
