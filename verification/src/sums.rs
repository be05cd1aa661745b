//! Sums over finite sets.

use vstd::prelude::*;

verus! {

/// The sum of `f` over the members of `s`.
pub open spec fn sum_over<A>(s: Set<A>, f: spec_fn(A) -> nat) -> nat
    decreases s.len(),
    when s.finite()
{
    if s.len() == 0 {
        0
    } else {
        let a = s.choose();
        f(a) + sum_over(s.remove(a), f)
    }
}

/// A sum is the value at any one member and the sum over the others.
pub proof fn lemma_sum_remove<A>(s: Set<A>, f: spec_fn(A) -> nat, a: A)
    requires
        s.finite(),
        s.contains(a),
    ensures
        sum_over(s, f) == f(a) + sum_over(s.remove(a), f),
    decreases s.len(),
{
    let b = s.choose();
    assert(s.len() != 0) by {
        if s.len() == 0 {
            s.lemma_len0_is_empty();
        }
    }
    if a != b {
        lemma_sum_remove(s.remove(b), f, a);
        lemma_sum_remove(s.remove(a), f, b);
        assert(s.remove(b).remove(a) =~= s.remove(a).remove(b));
    }
}

/// A sum grows by the value at a member that is added.
pub proof fn lemma_sum_insert<A>(s: Set<A>, f: spec_fn(A) -> nat, a: A)
    requires
        s.finite(),
        !s.contains(a),
    ensures
        sum_over(s.insert(a), f) == f(a) + sum_over(s, f),
{
    lemma_sum_remove(s.insert(a), f, a);
    assert(s.insert(a).remove(a) =~= s);
}

/// Functions that agree on the members have the same sum.
pub proof fn lemma_sum_same<A>(s: Set<A>, f: spec_fn(A) -> nat, g: spec_fn(A) -> nat)
    requires
        s.finite(),
        forall|a: A| #[trigger] s.contains(a) ==> f(a) == g(a),
    ensures
        sum_over(s, f) == sum_over(s, g),
    decreases s.len(),
{
    if s.len() != 0 {
        let a = s.choose();
        assert(s.contains(a));
        lemma_sum_same(s.remove(a), f, g);
    }
}

/// A function that is 0 on every member sums to 0.
pub proof fn lemma_sum_zero<A>(s: Set<A>, f: spec_fn(A) -> nat)
    requires
        s.finite(),
        forall|a: A| #[trigger] s.contains(a) ==> f(a) == 0,
    ensures
        sum_over(s, f) == 0,
    decreases s.len(),
{
    if s.len() != 0 {
        let a = s.choose();
        assert(s.contains(a));
        lemma_sum_zero(s.remove(a), f);
    }
}

/// A sum over fewer members is no greater.
pub proof fn lemma_sum_subset<A>(s: Set<A>, t: Set<A>, f: spec_fn(A) -> nat)
    requires
        s.subset_of(t),
        t.finite(),
    ensures
        s.finite(),
        sum_over(s, f) <= sum_over(t, f),
    decreases t.len(),
{
    vstd::set_lib::lemma_len_subset(s, t);
    if s.len() != 0 {
        let a = s.choose();
        assert(s.contains(a));
        lemma_sum_remove(t, f, a);
        lemma_sum_subset(s.remove(a), t.remove(a), f);
    }
}

/// The sum of two functions together is the sum of the one and the sum of the other.
pub proof fn lemma_sum_add<A>(
    s: Set<A>,
    f: spec_fn(A) -> nat,
    g: spec_fn(A) -> nat,
    h: spec_fn(A) -> nat,
)
    requires
        s.finite(),
        forall|a: A| #[trigger] s.contains(a) ==> h(a) == f(a) + g(a),
    ensures
        sum_over(s, h) == sum_over(s, f) + sum_over(s, g),
    decreases s.len(),
{
    if s.len() != 0 {
        let a = s.choose();
        assert(s.contains(a));
        lemma_sum_add(s.remove(a), f, g, h);
    }
}

/// A function that is 0 on every member but one sums to its value there.
pub proof fn lemma_sum_single<A>(s: Set<A>, f: spec_fn(A) -> nat, a: A)
    requires
        s.finite(),
        s.contains(a),
        forall|b: A| #[trigger] s.contains(b) && b != a ==> f(b) == 0,
    ensures
        sum_over(s, f) == f(a),
{
    lemma_sum_remove(s, f, a);
    lemma_sum_zero(s.remove(a), f);
}

/// What the members of `s` weigh, gathered under the labels `t` that they bear, is
/// what they weigh together.
pub proof fn lemma_sum_gather<A, B>(
    s: Set<A>,
    t: Set<B>,
    label: spec_fn(A) -> B,
    weight: spec_fn(A) -> nat,
)
    requires
        s.finite(),
        t.finite(),
        forall|a: A| #[trigger] s.contains(a) ==> t.contains(label(a)),
    ensures
        sum_over(t, |b: B| sum_over(s, |a: A| if label(a) == b { weight(a) } else { 0 }))
            == sum_over(s, weight),
    decreases s.len(),
{
    let gathered = |b: B| sum_over(s, |a: A| if label(a) == b { weight(a) } else { 0 });
    if s.len() == 0 {
        lemma_sum_zero(t, gathered);
    } else {
        let a = s.choose();
        assert(s.contains(a));
        let fewer = s.remove(a);
        lemma_sum_gather(fewer, t, label, weight);
        let rest = |b: B| sum_over(fewer, |a: A| if label(a) == b { weight(a) } else { 0 });
        let one = |b: B| if label(a) == b { weight(a) } else { 0 };
        assert forall|b: B| #[trigger] t.contains(b) implies gathered(b) == one(b) + rest(b) by {
            lemma_sum_remove(s, |a: A| if label(a) == b { weight(a) } else { 0 }, a);
        }
        lemma_sum_add(t, one, rest, gathered);
        lemma_sum_single(t, one, label(a));
    }
}

} // verus!
