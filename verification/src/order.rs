//! The total order that the tree asks of its values.

use std::cmp::Ordering;
use vstd::laws_cmp::{
    group_laws_cmp, obeys_cmp, obeys_cmp_ord, obeys_cmp_partial_ord,
    obeys_partial_cmp_spec_properties,
};
use vstd::laws_eq::{group_laws_eq, obeys_concrete_eq};
use vstd::prelude::*;
use vstd::std_specs::cmp::{OrdSpec, PartialEqSpec, PartialOrdSpec};

verus! {

/// The comparisons of `T` form a total order in which two values compare
/// equal exactly when they are the same value.
pub open spec fn total_order<T: Ord>() -> bool {
    obeys_cmp::<T>() && obeys_concrete_eq::<T>()
}

/// `a` comes strictly before `b`.
pub open spec fn less<T: Ord>(a: T, b: T) -> bool {
    a.partial_cmp_spec(&b) == Some(Ordering::Less)
}

/// `values` ascends strictly: each value comes before all that follow it.
pub open spec fn ascending<T: Ord>(values: Seq<T>) -> bool {
    forall|i: int, j: int| 0 <= i < j < values.len() ==> less(values[i], values[j])
}

/// The primitive integer types are totally ordered.
pub proof fn lemma_integers_totally_ordered()
    ensures
        total_order::<u8>(),
        total_order::<u16>(),
        total_order::<u32>(),
        total_order::<u64>(),
        total_order::<u128>(),
        total_order::<usize>(),
        total_order::<i8>(),
        total_order::<i16>(),
        total_order::<i32>(),
        total_order::<i64>(),
        total_order::<i128>(),
        total_order::<isize>(),
{
    broadcast use group_laws_cmp;
    broadcast use group_laws_eq;

}

/// What the comparison operators compute for a totally ordered type.
pub proof fn lemma_comparisons<T: Ord>(a: T, b: T)
    requires
        total_order::<T>(),
    ensures
        T::obeys_partial_cmp_spec(),
        T::obeys_eq_spec(),
        a.eq_spec(&b) <==> a == b,
        a.partial_cmp_spec(&b) == Some(Ordering::Equal) <==> a == b,
        a.partial_cmp_spec(&b) == Some(Ordering::Greater) <==> less(b, a),
        less(a, b) || a == b || less(b, a),
{
    reveal(obeys_cmp_partial_ord);
    reveal(obeys_cmp_ord);
    reveal(obeys_partial_cmp_spec_properties);
    reveal(obeys_concrete_eq);
    assert(a.partial_cmp_spec(&b) == Some(a.cmp_spec(&b)));
    assert(b.partial_cmp_spec(&a) == Some(Ordering::Less) <==> a.partial_cmp_spec(&b) == Some(
        Ordering::Greater,
    ));
    match a.cmp_spec(&b) {
        Ordering::Less => {},
        Ordering::Equal => {},
        Ordering::Greater => {},
    }
}

/// Of two values exactly one holds: the first comes before the second, they
/// are the same, or the second comes before the first.
pub proof fn lemma_trichotomy<T: Ord>(a: T, b: T)
    requires
        total_order::<T>(),
    ensures
        less(a, b) || a == b || less(b, a),
        !(less(a, b) && a == b),
        !(less(a, b) && less(b, a)),
        !(a == b && less(b, a)),
{
    lemma_comparisons(a, b);
    lemma_comparisons(b, a);
}

/// What comes before a value comes before all that the value comes before.
pub proof fn lemma_less_transitive<T: Ord>(a: T, b: T, c: T)
    requires
        total_order::<T>(),
        less(a, b),
        less(b, c),
    ensures
        less(a, c),
{
    reveal(obeys_partial_cmp_spec_properties);
}

/// No value occurs twice in a sequence that ascends strictly.
pub proof fn lemma_ascending_distinct<T: Ord>(values: Seq<T>)
    requires
        total_order::<T>(),
        ascending(values),
    ensures
        values.no_duplicates(),
{
    assert forall|i: int, j: int| 0 <= i < values.len() && 0 <= j < values.len() && i != j implies values[i]
        != values[j] by {
        lemma_trichotomy(values[i], values[j]);
        if i < j {
            assert(less(values[i], values[j]));
        } else {
            assert(less(values[j], values[i]));
        }
    }
}

/// Two sequences that ascend strictly and hold the same values are the
/// same sequence.
pub proof fn lemma_ascending_unique<T: Ord>(a: Seq<T>, b: Seq<T>)
    requires
        total_order::<T>(),
        ascending(a),
        ascending(b),
        a.to_set() == b.to_set(),
    ensures
        a == b,
    decreases a.len(),
{
    lemma_ascending_distinct(a);
    lemma_ascending_distinct(b);
    a.unique_seq_to_set();
    b.unique_seq_to_set();
    if a.len() > 0 {
        let n = a.len() - 1;
        let x = a[n];
        let y = b[n];
        assert(a.to_set().contains(x));
        assert(b.to_set().contains(y));
        let j = choose|j: int| 0 <= j < b.len() && b[j] == x;
        let i = choose|i: int| 0 <= i < a.len() && a[i] == y;
        if i < n && j < n {
            lemma_trichotomy(x, y);
            assert(less(a[i], a[n]));
            assert(less(b[j], b[n]));
        }
        assert(x == y);
        let front_a = a.drop_last();
        let front_b = b.drop_last();
        assert forall|e: T| front_a.to_set().contains(e) <==> front_b.to_set().contains(e) by {
            if front_a.to_set().contains(e) {
                let k = choose|k: int| 0 <= k < front_a.len() && front_a[k] == e;
                assert(a[k] == e);
                assert(a.to_set().contains(e));
                let m = choose|m: int| 0 <= m < b.len() && b[m] == e;
                assert(m != n);
                assert(front_b[m] == e);
            }
            if front_b.to_set().contains(e) {
                let k = choose|k: int| 0 <= k < front_b.len() && front_b[k] == e;
                assert(b[k] == e);
                assert(b.to_set().contains(e));
                let m = choose|m: int| 0 <= m < a.len() && a[m] == e;
                assert(m != n);
                assert(front_a[m] == e);
            }
        }
        assert(front_a.to_set() =~= front_b.to_set());
        lemma_ascending_unique(front_a, front_b);
        assert(a =~= front_a.push(x));
        assert(b =~= front_b.push(y));
    }
    assert(a =~= b);
}

} // verus!
