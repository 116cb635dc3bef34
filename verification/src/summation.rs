//! Sums of an integer-valued function over a sequence and over a finite set,
//! and the facts about them that the pricing proofs rest on.

use vstd::prelude::*;

verus! {

/// The sum of `f` over the elements of `s`, one term for each position.
pub open spec fn seq_sum<A>(s: Seq<A>, f: spec_fn(A) -> int) -> int
    decreases s.len(),
{
    if s.len() == 0 {
        0
    } else {
        seq_sum(s.drop_last(), f) + f(s.last())
    }
}

/// The sum of `f` over the members of the finite set `s`, one term for each
/// member, in no particular order.
pub open spec fn set_sum<A>(s: Set<A>, f: spec_fn(A) -> int) -> int {
    s.fold(0int, |sum: int, a: A| sum + f(a))
}

/// Two sequences of equal length whose terms agree position by position
/// have the same sum.
pub proof fn lemma_seq_sum_pointwise<A, B>(
    s: Seq<A>,
    f: spec_fn(A) -> int,
    t: Seq<B>,
    g: spec_fn(B) -> int,
)
    requires
        s.len() == t.len(),
        forall|i: int| 0 <= i < s.len() ==> f(#[trigger] s[i]) == g(t[i]),
    ensures
        seq_sum(s, f) == seq_sum(t, g),
    decreases s.len(),
{
    if s.len() > 0 {
        lemma_seq_sum_pointwise(s.drop_last(), f, t.drop_last(), g);
        assert(f(s[s.len() - 1]) == g(t[s.len() - 1]));
    }
}

/// Where no term is negative, the sum of a prefix is at most the sum of the
/// whole, and no sum is negative.
pub proof fn lemma_seq_sum_prefix<A>(s: Seq<A>, f: spec_fn(A) -> int, n: int)
    requires
        0 <= n <= s.len(),
        forall|i: int| 0 <= i < s.len() ==> 0 <= f(#[trigger] s[i]),
    ensures
        0 <= seq_sum(s.take(n), f) <= seq_sum(s, f),
    decreases s.len() - n,
{
    if n == s.len() {
        assert(s.take(n) =~= s);
        lemma_seq_sum_nonnegative(s, f);
    } else {
        lemma_seq_sum_prefix(s, f, n + 1);
        assert(s.take(n + 1).drop_last() =~= s.take(n));
        assert(s.take(n + 1).last() == s[n]);
        lemma_seq_sum_nonnegative(s.take(n), f);
    }
}

/// A sum without negative terms is not negative.
pub proof fn lemma_seq_sum_nonnegative<A>(s: Seq<A>, f: spec_fn(A) -> int)
    requires
        forall|i: int| 0 <= i < s.len() ==> 0 <= f(#[trigger] s[i]),
    ensures
        0 <= seq_sum(s, f),
    decreases s.len(),
{
    if s.len() > 0 {
        lemma_seq_sum_nonnegative(s.drop_last(), f);
        assert(0 <= f(s[s.len() - 1]));
    }
}

/// The sum over the empty set is zero.
pub proof fn lemma_set_sum_empty<A>(f: spec_fn(A) -> int)
    ensures
        set_sum(Set::<A>::empty(), f) == 0,
{
    vstd::set::fold::lemma_fold_empty(0int, |sum: int, a: A| sum + f(a));
}

/// A new member adds its term to the sum.
pub proof fn lemma_set_sum_insert<A>(s: Set<A>, f: spec_fn(A) -> int, a: A)
    requires
        s.finite(),
        !s.contains(a),
    ensures
        set_sum(s.insert(a), f) == set_sum(s, f) + f(a),
{
    let step = |sum: int, a: A| sum + f(a);
    assert(vstd::set::fold::is_fun_commutative(step));
    vstd::set::fold::lemma_fold_insert(s, 0int, step, a);
}

/// Taking a member out takes its term out of the sum.
pub proof fn lemma_set_sum_remove<A>(s: Set<A>, f: spec_fn(A) -> int, a: A)
    requires
        s.finite(),
        s.contains(a),
    ensures
        set_sum(s, f) == set_sum(s.remove(a), f) + f(a),
{
    lemma_set_sum_insert(s.remove(a), f, a);
    assert(s.remove(a).insert(a) =~= s);
}

/// Two functions that agree on every member of a set have the same sum
/// over it.
pub proof fn lemma_set_sum_agree<A>(s: Set<A>, f: spec_fn(A) -> int, g: spec_fn(A) -> int)
    requires
        s.finite(),
        forall|a: A| s.contains(a) ==> #[trigger] f(a) == g(a),
    ensures
        set_sum(s, f) == set_sum(s, g),
    decreases s.len(),
{
    if s.len() == 0 {
        s.lemma_len0_is_empty();
        assert(s =~= Set::<A>::empty());
        lemma_set_sum_empty(f);
        lemma_set_sum_empty(g);
    } else {
        let a = s.choose();
        lemma_set_sum_remove(s, f, a);
        lemma_set_sum_remove(s, g, a);
        lemma_set_sum_agree(s.remove(a), f, g);
    }
}

/// A sum over a finite set without negative terms is not negative, and no
/// term exceeds it.
pub proof fn lemma_set_sum_bounds<A>(s: Set<A>, f: spec_fn(A) -> int)
    requires
        s.finite(),
        forall|a: A| s.contains(a) ==> 0 <= #[trigger] f(a),
    ensures
        0 <= set_sum(s, f),
        forall|a: A| s.contains(a) ==> #[trigger] f(a) <= set_sum(s, f),
    decreases s.len(),
{
    if s.len() == 0 {
        s.lemma_len0_is_empty();
        assert(s =~= Set::<A>::empty());
        lemma_set_sum_empty(f);
    } else {
        let a = s.choose();
        lemma_set_sum_remove(s, f, a);
        lemma_set_sum_bounds(s.remove(a), f);
        assert forall|b: A| s.contains(b) implies #[trigger] f(b) <= set_sum(s, f) by {
            if b != a {
                assert(s.remove(a).contains(b));
            }
        }
    }
}

/// Summing over a sequence without repeated elements is summing over the
/// set of its elements: the order of the terms does not matter.
pub proof fn lemma_seq_sum_is_set_sum<A>(s: Seq<A>, f: spec_fn(A) -> int)
    requires
        s.no_duplicates(),
    ensures
        s.to_set().finite(),
        seq_sum(s, f) == set_sum(s.to_set(), f),
    decreases s.len(),
{
    vstd::seq_lib::seq_to_set_is_finite(s);
    if s.len() == 0 {
        assert(s.to_set() =~= Set::<A>::empty());
        lemma_set_sum_empty(f);
    } else {
        let rest = s.drop_last();
        lemma_seq_sum_is_set_sum(rest, f);
        rest.lemma_push_to_set_commute(s.last());
        assert(rest.push(s.last()) =~= s);
        assert(!rest.to_set().contains(s.last())) by {
            if rest.contains(s.last()) {
                let i = choose|i: int| 0 <= i < rest.len() && rest[i] == s.last();
                assert(s[i] == s[s.len() - 1]);
            }
        }
        lemma_set_sum_insert(rest.to_set(), f, s.last());
    }
}

} // verus!
