//! The total order on validator identifiers that the registry relies on.
use core::cmp::Ordering;
use vstd::laws_cmp::*;
use vstd::laws_eq::*;
use vstd::prelude::*;
use vstd::std_specs::cmp::{OrdSpec, PartialOrdSpec};

verus! {

/// `T`'s `Ord` impl is a lawful total order whose `Equal` is plain equality.
pub open spec fn lawful_order<T: Ord>() -> bool {
    &&& obeys_cmp::<T>()
    &&& obeys_concrete_eq::<T>()
}

/// `a` sorts strictly before `b`.
pub open spec fn id_lt<T: Ord>(a: T, b: T) -> bool {
    a.cmp_spec(&b) == Ordering::Less
}

/// What `Ord::cmp` returns is its specification.
pub proof fn lemma_cmp_is_spec<T: Ord>()
    requires
        lawful_order::<T>(),
    ensures
        T::obeys_cmp_spec(),
{
    reveal(obeys_cmp_ord);
}

/// Two identifiers compare `Equal` exactly when they are the same value.
pub proof fn lemma_equal_iff_same<T: Ord>(a: T, b: T)
    requires
        lawful_order::<T>(),
    ensures
        (a.cmp_spec(&b) == Ordering::Equal) <==> (a == b),
{
    reveal(obeys_cmp_ord);
    reveal(obeys_partial_cmp_spec_properties);
    reveal(obeys_concrete_eq);
    assert(a.partial_cmp_spec(&b) == Some(a.cmp_spec(&b)));
}

/// `Greater` one way is `Less` the other way.
pub proof fn lemma_greater_flips<T: Ord>(a: T, b: T)
    requires
        lawful_order::<T>(),
    ensures
        (a.cmp_spec(&b) == Ordering::Greater) <==> id_lt(b, a),
{
    reveal(obeys_cmp_ord);
    reveal(obeys_partial_cmp_spec_properties);
    assert(a.partial_cmp_spec(&b) == Some(a.cmp_spec(&b)));
    assert(b.partial_cmp_spec(&a) == Some(b.cmp_spec(&a)));
}

/// Strictly-before is irreflexive and asymmetric.
pub proof fn lemma_lt_asym<T: Ord>(a: T, b: T)
    requires
        lawful_order::<T>(),
        id_lt(a, b),
    ensures
        !id_lt(b, a),
        a != b,
{
    lemma_greater_flips(b, a);
    lemma_equal_iff_same(a, b);
}

/// Strictly-before is transitive.
pub proof fn lemma_lt_trans<T: Ord>(a: T, b: T, c: T)
    requires
        lawful_order::<T>(),
        id_lt(a, b),
        id_lt(b, c),
    ensures
        id_lt(a, c),
{
    reveal(obeys_cmp_ord);
    reveal(obeys_partial_cmp_spec_properties);
    assert(a.partial_cmp_spec(&b) == Some(a.cmp_spec(&b)));
    assert(b.partial_cmp_spec(&c) == Some(b.cmp_spec(&c)));
    assert(a.partial_cmp_spec(&c) == Some(a.cmp_spec(&c)));
}

} // verus!
