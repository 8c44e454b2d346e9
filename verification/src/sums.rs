//! Sums over finite sets of addresses, as the ledger's invariants need them.

use vstd::prelude::*;

verus! {

/// The sum of `f` over the members of `who`.
pub open spec fn sum_over(who: Set<Seq<char>>, f: spec_fn(Seq<char>) -> int) -> int
    decreases who.len(),
    when who.finite()
{
    if who.is_empty() {
        0
    } else {
        let d = who.choose();
        f(d) + sum_over(who.remove(d), f)
    }
}

/// Any member can be taken out of a sum first.
pub proof fn lemma_sum_remove(who: Set<Seq<char>>, f: spec_fn(Seq<char>) -> int, d: Seq<char>)
    requires
        who.finite(),
        who.contains(d),
    ensures
        sum_over(who, f) == f(d) + sum_over(who.remove(d), f),
    decreases who.len(),
{
    let c = who.choose();
    if c != d {
        lemma_sum_remove(who.remove(c), f, d);
        lemma_sum_remove(who.remove(d), f, c);
        assert(who.remove(c).remove(d) =~= who.remove(d).remove(c));
    }
}

/// A sum grows by the value of a new member.
pub proof fn lemma_sum_insert(who: Set<Seq<char>>, f: spec_fn(Seq<char>) -> int, d: Seq<char>)
    requires
        who.finite(),
        !who.contains(d),
    ensures
        sum_over(who.insert(d), f) == f(d) + sum_over(who, f),
{
    lemma_sum_remove(who.insert(d), f, d);
    assert(who.insert(d).remove(d) =~= who);
}

/// Two functions that agree on the members of a set have the same sum over
/// it.
pub proof fn lemma_sum_agree(
    who: Set<Seq<char>>,
    f: spec_fn(Seq<char>) -> int,
    g: spec_fn(Seq<char>) -> int,
)
    requires
        who.finite(),
        forall|d: Seq<char>| who.contains(d) ==> #[trigger] f(d) == g(d),
    ensures
        sum_over(who, f) == sum_over(who, g),
    decreases who.len(),
{
    if !who.is_empty() {
        let c = who.choose();
        lemma_sum_agree(who.remove(c), f, g);
        assert(f(c) == g(c));
    }
}

/// A sum of terms that are not negative is not negative, and no member's
/// term is more than the sum.
pub proof fn lemma_sum_bounds(who: Set<Seq<char>>, f: spec_fn(Seq<char>) -> int, d: Seq<char>)
    requires
        who.finite(),
        forall|x: Seq<char>| who.contains(x) ==> 0 <= #[trigger] f(x),
    ensures
        0 <= sum_over(who, f),
        who.contains(d) ==> f(d) <= sum_over(who, f),
    decreases who.len(),
{
    if !who.is_empty() {
        let c = who.choose();
        lemma_sum_bounds(who.remove(c), f, d);
        assert(0 <= f(c));
    }
}

} // verus!
