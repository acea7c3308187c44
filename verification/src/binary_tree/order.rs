//! The ordering vocabulary of the search tree: when a value type is totally ordered, what
//! "less" means in contracts, and what it is for a sequence to ascend.

use core::cmp::Ordering;
use vstd::laws_cmp::obeys_cmp;
use vstd::laws_eq::obeys_concrete_eq;
use vstd::prelude::*;
use vstd::std_specs::cmp::{OrdSpec, PartialEqSpec, PartialOrdSpec};

verus! {

/// `T` is totally ordered: `cmp` computes `cmp_spec`, which agrees with `partial_cmp_spec`
/// and makes `less` a strict total order, and two values compare equal exactly when they are
/// the same value. vstd proves this of the integer types.
pub open spec fn total_order<T: Ord>() -> bool {
    obeys_cmp::<T>() && obeys_concrete_eq::<T>()
}

/// `a` is ordered strictly before `b`.
pub open spec fn less<T: Ord>(a: T, b: T) -> bool {
    a.cmp_spec(&b) == Ordering::Less
}

/// Every element is strictly less than all that follow it.
pub open spec fn ascending<T: Ord>(s: Seq<T>) -> bool {
    forall|i: int, j: int| 0 <= i < j < s.len() ==> less(#[trigger] s[i], #[trigger] s[j])
}

/// Every element of `s` is strictly less than `bound`.
pub open spec fn all_less<T: Ord>(s: Seq<T>, bound: T) -> bool {
    forall|x: T| #[trigger] s.contains(x) ==> less(x, bound)
}

/// Every element of `s` is strictly greater than `bound`.
pub open spec fn all_greater<T: Ord>(s: Seq<T>, bound: T) -> bool {
    forall|x: T| #[trigger] s.contains(x) ==> less(bound, x)
}

/// The comparison does not tell `a` and `b` apart.
pub open spec fn tied<T: Ord>(a: T, b: T) -> bool {
    a.cmp_spec(&b) == Ordering::Equal
}

/// What a total order gives: `cmp` computes `cmp_spec`, only a value ties with itself, of
/// two different values one is less than the other, and `less` is irreflexive and
/// transitive.
pub proof fn lemma_total_order<T: Ord>()
    requires
        total_order::<T>(),
    ensures
        T::obeys_cmp_spec(),
        forall|a: T, b: T| #![trigger tied(a, b)] tied(a, b) <==> a == b,
        forall|a: T, b: T| #![trigger less(a, b)] less(a, b) || tied(a, b) || less(b, a),
        forall|a: T, b: T| #![trigger less(a, b)] !(less(a, b) && less(b, a)),
        forall|a: T| #![trigger less(a, a)] !less(a, a),
        forall|a: T, b: T, c: T|
            #![trigger less(a, b), less(b, c)]
            less(a, b) && less(b, c) ==> less(a, c),
{
    reveal(vstd::laws_cmp::obeys_cmp_partial_ord);
    reveal(vstd::laws_cmp::obeys_cmp_ord);
    reveal(vstd::laws_cmp::obeys_partial_cmp_spec_properties);
    reveal(vstd::laws_eq::obeys_eq_spec_properties);
    reveal(obeys_concrete_eq);
    assert forall|a: T, b: T| #![trigger tied(a, b)] tied(a, b) <==> a == b by {
        assert(a.partial_cmp_spec(&b) == Some(a.cmp_spec(&b)));
        assert(a.eq_spec(&b) <==> a == b);
    }
    assert forall|a: T, b: T| #![trigger less(a, b)] less(a, b) || tied(a, b) || less(b, a) by {
        assert(a.partial_cmp_spec(&b) == Some(a.cmp_spec(&b)));
        assert(b.partial_cmp_spec(&a) == Some(b.cmp_spec(&a)));
    }
    assert forall|a: T, b: T| #![trigger less(a, b)] !(less(a, b) && less(b, a)) by {
        assert(a.partial_cmp_spec(&b) == Some(a.cmp_spec(&b)));
        assert(b.partial_cmp_spec(&a) == Some(b.cmp_spec(&a)));
    }
    assert forall|a: T| #![trigger less(a, a)] !less(a, a) by {
        assert(tied(a, a));
    }
    assert forall|a: T, b: T, c: T|
        #![trigger less(a, b), less(b, c)]
        less(a, b) && less(b, c) implies less(a, c) by {
        assert(a.partial_cmp_spec(&b) == Some(a.cmp_spec(&b)));
        assert(b.partial_cmp_spec(&c) == Some(b.cmp_spec(&c)));
        assert(a.partial_cmp_spec(&c) == Some(a.cmp_spec(&c)));
    }
}

} // verus!
