//! Sums of a non-negative quantity over a finite set of keys.

use vstd::prelude::*;

verus! {

/// The step of a sum of `f` over keys.
pub open spec fn sum_adder(f: spec_fn(u64) -> int) -> spec_fn(int, u64) -> int {
    |acc: int, k: u64| acc + f(k)
}

/// The sum of `f` over the keys.
pub open spec fn set_sum(keys: Set<u64>, f: spec_fn(u64) -> int) -> int {
    keys.fold(0int, sum_adder(f))
}

/// The sum over no key is zero.
pub proof fn lemma_set_sum_empty(f: spec_fn(u64) -> int)
    ensures
        set_sum(Set::empty(), f) == 0,
{
    vstd::set::fold::lemma_fold_empty(0int, sum_adder(f));
}

/// Adding a key adds its term.
pub proof fn lemma_set_sum_insert(keys: Set<u64>, k: u64, f: spec_fn(u64) -> int)
    requires
        keys.finite(),
        !keys.contains(k),
    ensures
        set_sum(keys.insert(k), f) == set_sum(keys, f) + f(k),
{
    assert(vstd::set::fold::is_fun_commutative(sum_adder(f)));
    vstd::set::fold::lemma_fold_insert(keys, 0int, sum_adder(f), k);
}

/// With non-negative terms, a sum over fewer keys is no larger.
pub proof fn lemma_set_sum_subset(a: Set<u64>, b: Set<u64>, f: spec_fn(u64) -> int)
    requires
        b.finite(),
        a.subset_of(b),
        forall|k: u64| #[trigger] f(k) >= 0,
    ensures
        0 <= set_sum(a, f) <= set_sum(b, f),
    decreases b.len(),
{
    if b.len() == 0 {
        assert(b =~= Set::empty());
        assert(a =~= Set::empty());
        lemma_set_sum_empty(f);
    } else {
        let x = b.choose();
        let b1 = b.remove(x);
        assert(b1.insert(x) =~= b);
        lemma_set_sum_insert(b1, x, f);
        if a.contains(x) {
            let a1 = a.remove(x);
            assert(a1.insert(x) =~= a);
            lemma_set_sum_subset(a1, b1, f);
            lemma_set_sum_insert(a1, x, f);
        } else {
            lemma_set_sum_subset(a, b1, f);
        }
    }
}

/// Keys whose term is zero add nothing.
pub proof fn lemma_set_sum_zero_terms(a: Set<u64>, z: Set<u64>, f: spec_fn(u64) -> int)
    requires
        a.finite(),
        z.finite(),
        a.disjoint(z),
        forall|k: u64| #[trigger] z.contains(k) ==> f(k) == 0,
    ensures
        set_sum(a.union(z), f) == set_sum(a, f),
    decreases z.len(),
{
    if z.len() == 0 {
        assert(z =~= Set::empty());
        assert(a.union(z) =~= a);
    } else {
        let x = z.choose();
        let z1 = z.remove(x);
        lemma_set_sum_zero_terms(a, z1, f);
        assert(a.union(z1).insert(x) =~= a.union(z));
        lemma_set_sum_insert(a.union(z1), x, f);
    }
}


/// The sum of two quantities is the sum of their sums.
pub proof fn lemma_set_sum_add(
    keys: Set<u64>,
    f: spec_fn(u64) -> int,
    g: spec_fn(u64) -> int,
    h: spec_fn(u64) -> int,
)
    requires
        keys.finite(),
        forall|k: u64| keys.contains(k) ==> #[trigger] h(k) == f(k) + g(k),
    ensures
        set_sum(keys, h) == set_sum(keys, f) + set_sum(keys, g),
    decreases keys.len(),
{
    if keys.len() == 0 {
        assert(keys =~= Set::empty());
        lemma_set_sum_empty(f);
        lemma_set_sum_empty(g);
        lemma_set_sum_empty(h);
    } else {
        let x = keys.choose();
        let k1 = keys.remove(x);
        assert(k1.insert(x) =~= keys);
        lemma_set_sum_add(k1, f, g, h);
        lemma_set_sum_insert(k1, x, f);
        lemma_set_sum_insert(k1, x, g);
        lemma_set_sum_insert(k1, x, h);
    }
}

} // verus!
