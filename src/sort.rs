//! The sort itself, and the laws that follow from its contract.
use vstd::prelude::*;
use vstd::std_specs::cmp::PartialOrdSpec;
use core::cmp::Ordering;
use crate::order::{
    all_comparable, comparable, keeps_equal_keys_in_order, lemma_swap_keeps_multiset, nan_like_order,
    precedes, rearranges, sorted_then_incomparable, stable_rearrangement,
};

verus! {

/// Relies on `<[T]>::swap`, which exchanges the elements at the two
/// positions (and leaves the slice as it is when they are the same) and
/// panics when either position is out of bounds.
pub assume_specification<Item>[ <[Item]>::swap ](slots: &mut [Item], first: usize, second: usize)
    requires
        first < old(slots)@.len(),
        second < old(slots)@.len(),
    ensures
        final(slots)@ == old(slots)@.update(first as int, old(slots)@[second as int]).update(
            second as int,
            old(slots)@[first as int],
        ),
;

/// Sorts `array` in place with at most a quadratic number of comparisons,
/// and returns the length of the sorted run at its front.
///
/// A pair that does not compare is resolved by testing its first element
/// against `T::default()`: if that test fails too, the first element is
/// moved to the end of the active range, else the second one is. The
/// returned length is `0` when the first element ends up incomparable with
/// the default value.
///
/// The result is always a rearrangement of the input. Where the order of
/// `T` is NaN-like, the run is sorted and holds exactly the comparable
/// elements; where in addition every element is comparable, the sort is
/// stable. (Moving an incomparable element out of the way can carry another
/// element past its equals.)
pub fn bubble_sort<T: PartialOrd + Default>(array: &mut [T]) -> (r: usize)
    ensures
        final(array)@.len() == old(array)@.len(),
        final(array)@.to_multiset() == old(array)@.to_multiset(),
        r <= final(array)@.len(),
        old(array)@.len() == 0 ==> r == 0,
        nan_like_order::<T>() ==> sorted_then_incomparable(final(array)@, r as int),
        nan_like_order::<T>() && all_comparable(old(array)@) ==> r == final(array)@.len()
            && stable_rearrangement(old(array)@, final(array)@),
{
    let n = array.len();
    if n == 0 {
        proof {
            let none = Seq::<int>::empty();
            assert(rearranges(array@, array@, none) && keeps_equal_keys_in_order(array@, none));
        }
        return 0;
    }
    let ghost before = array@;
    let ghost law = nan_like_order::<T>();
    let ghost stab = law && all_comparable(before);
    let ghost mut perm: Seq<int> = Seq::new(n as nat, |k: int| k);
    // the next position that an incomparable element is moved to
    let mut nan_index: usize = n - 1;
    let mut i: usize = 0;
    let mut done = false;
    while !done && i <= nan_index
        invariant
            n == array@.len(),
            nan_index < n,
            i <= nan_index + 1,
            array@.to_multiset() == before.to_multiset(),
            rearranges(before, array@, perm),
            stab ==> keeps_equal_keys_in_order(array@, perm),
            stab ==> nan_index == n - 1,
            law == nan_like_order::<T>(),
            stab == (law && all_comparable(before)),
            law ==> forall|k: int| nan_index < k < n ==> !comparable(#[trigger] array@[k]),
            law && i > 0 && nan_index > 0 ==> forall|k: int|
                0 <= k <= nan_index ==> comparable(#[trigger] array@[k]),
            law ==> forall|k: int, m: int|
                nan_index - i < k < m <= nan_index ==> precedes(
                    #[trigger] array@[k],
                    #[trigger] array@[m],
                ),
            law ==> forall|k: int, m: int|
                0 <= k <= nan_index - i < m <= nan_index ==> precedes(
                    #[trigger] array@[k],
                    #[trigger] array@[m],
                ),
            law && done ==> forall|k: int, m: int|
                0 <= k < m <= nan_index ==> precedes(#[trigger] array@[k], #[trigger] array@[m]),
            law && done && nan_index > 0 ==> forall|k: int|
                0 <= k <= nan_index ==> comparable(#[trigger] array@[k]),
        decreases nan_index + 1 - i + (if done { 0int } else { 1int }),
    {
        let mut moved = false;
        let mut j: usize = 0;
        let ghost start = nan_index;
        while j < nan_index - i
            invariant
                n == array@.len(),
                nan_index < n,
                i <= nan_index,
                j <= nan_index - i,
                nan_index <= start,
                !moved ==> nan_index == start,
                !done,
                array@.to_multiset() == before.to_multiset(),
                rearranges(before, array@, perm),
                stab ==> keeps_equal_keys_in_order(array@, perm),
                stab ==> nan_index == n - 1,
                law == nan_like_order::<T>(),
                stab == (law && all_comparable(before)),
                law ==> forall|k: int| nan_index < k < n ==> !comparable(#[trigger] array@[k]),
                law && i > 0 ==> forall|k: int|
                    0 <= k <= nan_index ==> comparable(#[trigger] array@[k]),
                law && j > 0 ==> forall|k: int| 0 <= k <= j ==> comparable(#[trigger] array@[k]),
                law ==> forall|k: int| 0 <= k < j ==> precedes(#[trigger] array@[k], array@[j as int]),
                law ==> forall|k: int, m: int|
                    nan_index - i < k < m <= nan_index ==> precedes(
                        #[trigger] array@[k],
                        #[trigger] array@[m],
                    ),
                law ==> forall|k: int, m: int|
                    0 <= k <= nan_index - i < m <= nan_index ==> precedes(
                        #[trigger] array@[k],
                        #[trigger] array@[m],
                    ),
                law && !moved ==> forall|k: int, m: int|
                    0 <= k < m <= j ==> precedes(#[trigger] array@[k], #[trigger] array@[m]),
            decreases nan_index - i - j,
        {
            let c = array[j].partial_cmp(&array[j + 1]);
            match c {
                Some(Ordering::Greater) => {
                    let ghost a0 = array@;
                    proof {
                        lemma_swap_keeps_multiset(array@, j as int, j + 1);
                        perm = perm.update(j as int, perm[j + 1]).update(j + 1, perm[j as int]);
                    }
                    array.swap(j, j + 1);
                    moved = true;
                    j = j + 1;
                    proof {
                        if law {
                            assert(precedes(array@[j - 1], array@[j as int]));
                            assert forall|k: int| 0 <= k < j implies precedes(
                                #[trigger] array@[k],
                                array@[j as int],
                            ) by {
                                if k < j - 1 {
                                    assert(precedes(a0[k], a0[j - 1]));
                                }
                            }
                        }
                    }
                },
                None => {
                    let probe = T::default();
                    let q = if array[j].partial_cmp(&probe).is_none() {
                        j
                    } else {
                        j + 1
                    };
                    proof {
                        lemma_swap_keeps_multiset(array@, q as int, nan_index as int);
                        perm = perm.update(q as int, perm[nan_index as int]).update(
                            nan_index as int,
                            perm[q as int],
                        );
                    }
                    array.swap(q, nan_index);
                    moved = true;
                    nan_index = nan_index - 1;
                },
                _ => {
                    proof {
                        if law {
                            assert(precedes(array@[j as int], array@[j + 1]));
                            assert forall|k: int| 0 <= k < j implies precedes(
                                #[trigger] array@[k],
                                array@[j + 1],
                            ) by {
                                assert(precedes(array@[k], array@[j as int]));
                            }
                        }
                    }
                    j = j + 1;
                },
            }
        }
        if !moved {
            done = true;
        } else {
            i = i + 1;
        }
    }
    proof {
        if stab {
            assert(comparable(before[perm[0]]));
            assert(comparable(array@[0]));
            assert(rearranges(before, array@, perm) && keeps_equal_keys_in_order(array@, perm));
        }
    }
    let probe = T::default();
    if array[0].partial_cmp(&probe).is_none() {
        0
    } else {
        nan_index + 1
    }
}

/// The run and the tail are told apart by the default value: an element
/// before `count` compares with it, an element from `count` on does not,
/// and compares with no value at all.
pub proof fn lemma_tail_is_what_the_probe_cannot_order<T: PartialOrd + Default>(
    after: Seq<T>,
    count: int,
    probe: T,
)
    requires
        nan_like_order::<T>(),
        sorted_then_incomparable(after, count),
        call_ensures(T::default, (), probe),
    ensures
        forall|k: int|
            0 <= k < after.len() ==> ((#[trigger] after[k].partial_cmp_spec(&probe) is None) == (
            count <= k)),
        forall|k: int, y: T|
            count <= k < after.len() ==> #[trigger] after[k].partial_cmp_spec(&y) is None,
{
    assert forall|k: int| 0 <= k < after.len() implies ((#[trigger] after[k].partial_cmp_spec(
        &probe,
    ) is None) == (count <= k)) by {
        assert(comparable(after[k]) == (k < count));
    }
}

/// Sorting values of which none is comparable leaves no sorted run.
pub proof fn lemma_nothing_comparable_leaves_no_run<T: PartialOrd + Default>(
    before: Seq<T>,
    after: Seq<T>,
    count: int,
)
    requires
        nan_like_order::<T>(),
        forall|k: int| 0 <= k < before.len() ==> !comparable(#[trigger] before[k]),
        after.to_multiset() == before.to_multiset(),
        sorted_then_incomparable(after, count),
    ensures
        count == 0,
{
    if count > 0 {
        let x = after[0];
        vstd::seq_lib::to_multiset_contains(after, x);
        vstd::seq_lib::to_multiset_contains(before, x);
        assert(after.contains(x));
        let k = choose|k: int| 0 <= k < before.len() && before[k] == x;
        assert(!comparable(before[k]));
    }
}

} // verus!
