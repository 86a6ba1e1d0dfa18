//! What is meant by the order of positions and checkpoints.

use vstd::prelude::*;
use vstd::std_specs::cmp::PartialOrdSpec;

verus! {

/// Whether `<`, `<=`, `>` and `>=` on `T` compare as the contracts of this crate
/// say they do.
///
/// It holds of the integer types.
pub open spec fn comparable<T: PartialOrd>() -> bool {
    T::obeys_partial_cmp_spec()
}

/// `a >= b`.
pub open spec fn at_least<T: PartialOrd>(a: T, b: T) -> bool {
    vstd::std_specs::cmp::PartialOrdIs::is_ge(&a, &b)
}

/// `a <= b`.
pub open spec fn at_most<T: PartialOrd>(a: T, b: T) -> bool {
    vstd::std_specs::cmp::PartialOrdIs::is_le(&a, &b)
}

/// `a > b`.
pub open spec fn above<T: PartialOrd>(a: T, b: T) -> bool {
    vstd::std_specs::cmp::PartialOrdIs::is_gt(&a, &b)
}

/// `a == b`, as `T` compares.
pub open spec fn equal<T: PartialEq>(a: T, b: T) -> bool {
    vstd::std_specs::cmp::PartialEqIs::is_eq(&a, &b)
}

/// `a >= b` on cursors, where no cursor at all comes before every other.
pub open spec fn cursor_at_least<T: PartialOrd>(a: Option<T>, b: Option<T>) -> bool {
    match (a, b) {
        (_, None) => true,
        (None, Some(_)) => false,
        (Some(a), Some(b)) => at_least(a, b),
    }
}

/// The further of two cursors.
pub open spec fn furthest<T: PartialOrd>(a: Option<T>, b: Option<T>) -> Option<T> {
    if cursor_at_least(a, b) {
        a
    } else {
        b
    }
}

/// Whether the order of `T` is total: any two values compare, the comparison is
/// transitive, and only equal values are on a level.
pub open spec fn total<T: PartialOrd>() -> bool {
    &&& comparable::<T>()
    &&& forall|a: T, b: T| #[trigger] at_least(a, b) || above(b, a)
    &&& forall|a: T, b: T| #[trigger] above(a, b) <==> at_least(a, b) && a != b
    &&& forall|a: T, b: T| #[trigger] at_most(a, b) <==> at_least(b, a)
    &&& forall|a: T, b: T, c: T| #[trigger]
        at_least(a, b) && #[trigger] at_least(b, c) ==> at_least(a, c)
    &&& forall|a: T| #[trigger] at_least(a, a)
    &&& forall|a: T, b: T| #[trigger] at_least(a, b) && at_least(b, a) ==> a == b
}

/// The order of the `u64` positions of the in-memory store is total.
pub proof fn u64_is_total()
    ensures
        total::<u64>(),
{
}

/// `a >= b` on cursors.
pub fn has_reached<T: PartialOrd>(a: &Option<T>, b: &Option<T>) -> (r: bool)
    requires
        comparable::<T>(),
    ensures
        r == cursor_at_least(*a, *b),
{
    match (a, b) {
        (_, None) => true,
        (None, Some(_)) => false,
        (Some(a), Some(b)) => *a >= *b,
    }
}

/// On the positions of the in-memory store the comparisons are those of numbers, on
/// cursors too, where no cursor at all comes first.
pub proof fn u64_compares_as_numbers(a: u64, b: u64)
    ensures
        at_least(a, b) <==> a >= b,
        at_most(a, b) <==> a <= b,
        above(a, b) <==> a > b,
        equal(a, b) <==> a == b,
        cursor_at_least(Some(a), Some(b)) <==> a >= b,
        cursor_at_least(Some(a), None),
        cursor_at_least(None::<u64>, None),
        !cursor_at_least(None, Some(b)),
        furthest(Some(a), Some(b)) == Some(if a < b {
            b
        } else {
            a
        }),
        furthest(Some(a), None) == Some(a),
        furthest(None, Some(b)) == Some(b),
{
}

} // verus!
