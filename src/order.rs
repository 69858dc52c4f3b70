//! The mathematical vocabulary in which the sort's contract is stated.
use vstd::prelude::*;
use vstd::std_specs::cmp::PartialOrdSpec;
use core::cmp::Ordering;

verus! {

/// `x` is ordered at all: comparing it with itself gives an answer.
/// Floating-point NaN is the usual value that fails this.
pub open spec fn comparable<T: PartialOrd>(x: T) -> bool {
    x.partial_cmp_spec(&x) is Some
}

/// `x` comes no later than `y`: they compare as less or equal.
pub open spec fn precedes<T: PartialOrd>(x: T, y: T) -> bool {
    x.partial_cmp_spec(&y) matches Some(Ordering::Less | Ordering::Equal)
}

/// `x` and `y` have equal sort keys.
pub open spec fn equivalent<T: PartialOrd>(x: T, y: T) -> bool {
    x.partial_cmp_spec(&y) == Some(Ordering::Equal)
}

/// The comparison of `T` behaves like that of floating-point numbers:
/// `partial_cmp` follows its specification; the comparable values are
/// totally preordered; a value that is not comparable with itself is
/// comparable with nothing; and the type's default value is comparable.
pub open spec fn nan_like_order<T: PartialOrd + Default>() -> bool {
    &&& T::obeys_partial_cmp_spec()
    &&& forall|x: T, y: T|
        #![trigger x.partial_cmp_spec(&y)]
        (x.partial_cmp_spec(&y) is None) == !(comparable(x) && comparable(y))
    &&& forall|x: T, y: T|
        #![trigger x.partial_cmp_spec(&y)]
        (x.partial_cmp_spec(&y) == Some(Ordering::Less)) == (y.partial_cmp_spec(&x) == Some(
            Ordering::Greater,
        ))
    &&& forall|x: T, y: T, z: T|
        #![trigger precedes(x, y), precedes(y, z)]
        precedes(x, y) && precedes(y, z) ==> precedes(x, z)
    &&& forall|d: T| #![trigger call_ensures(T::default, (), d)]
        call_ensures(T::default, (), d) ==> comparable(d)
}

/// The first `count` elements of `s` are comparable and sorted, pairwise,
/// and every element from `count` on is not comparable.
pub open spec fn sorted_then_incomparable<T: PartialOrd>(s: Seq<T>, count: int) -> bool {
    &&& 0 <= count <= s.len()
    &&& forall|k: int| 0 <= k < count ==> comparable(#[trigger] s[k])
    &&& forall|k: int| count <= k < s.len() ==> !comparable(#[trigger] s[k])
    &&& forall|k: int, m: int|
        0 <= k < m < count ==> precedes(#[trigger] s[k], #[trigger] s[m])
}

/// `perm` tells, for each position of `after`, the position of `before`
/// that its element came from, one to one.
pub open spec fn rearranges<T>(before: Seq<T>, after: Seq<T>, perm: Seq<int>) -> bool {
    &&& before.len() == after.len()
    &&& perm.len() == after.len()
    &&& forall|k: int|
        0 <= k < perm.len() ==> 0 <= #[trigger] perm[k] < before.len() && after[k]
            == before[perm[k]]
    &&& forall|k: int, m: int| 0 <= k < m < perm.len() ==> #[trigger] perm[k] != #[trigger] perm[m]
}

/// Under the rearrangement `perm`, elements with equal keys keep their
/// relative order.
pub open spec fn keeps_equal_keys_in_order<T: PartialOrd>(after: Seq<T>, perm: Seq<int>) -> bool {
    forall|k: int, m: int|
        0 <= k < m < after.len() && equivalent(#[trigger] after[k], #[trigger] after[m])
            ==> perm[k] < perm[m]
}

/// `after` is a stable rearrangement of `before`.
pub open spec fn stable_rearrangement<T: PartialOrd>(before: Seq<T>, after: Seq<T>) -> bool {
    exists|perm: Seq<int>| rearranges(before, after, perm) && keeps_equal_keys_in_order(after, perm)
}

/// Every element of `s` is comparable.
pub open spec fn all_comparable<T: PartialOrd>(s: Seq<T>) -> bool {
    forall|k: int| 0 <= k < s.len() ==> comparable(#[trigger] s[k])
}

/// Swapping two elements keeps the multiset of a sequence.
pub proof fn lemma_swap_keeps_multiset<T>(s: Seq<T>, p: int, q: int)
    requires
        0 <= p < s.len(),
        0 <= q < s.len(),
    ensures
        s.update(p, s[q]).update(q, s[p]).to_multiset() == s.to_multiset(),
{
    broadcast use vstd::multiset::group_multiset_axioms;

    let s1 = s.update(p, s[q]);
    let m0 = s.to_multiset();
    vstd::seq_lib::to_multiset_update(s, p, s[q]);
    vstd::seq_lib::to_multiset_update(s1, q, s[p]);
    vstd::seq_lib::to_multiset_contains(s, s[p]);
    vstd::seq_lib::to_multiset_contains(s, s[q]);
    assert(s.contains(s[p]));
    assert(s.contains(s[q]));
    assert(s1[q] == s[q]);
    assert(m0.insert(s[q]).remove(s[p]).insert(s[p]).remove(s[q]) =~= m0);
}

} // verus!
