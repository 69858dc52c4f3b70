use bubble_sort::{bubble_sort, Poker, Suit};
use std::cmp::Ordering;

fn card(id: i16, number: i16, suit: Suit) -> Poker {
    Poker { id, number, suit }
}

#[test]
fn empty_input_returns_zero() {
    let mut array: [i32; 0] = [];
    assert_eq!(bubble_sort(&mut array), 0);
    assert!(array.is_empty());
}

#[test]
fn singleton_comparable_returns_one() {
    let mut array = [5];
    assert_eq!(bubble_sort(&mut array), 1);
    assert_eq!(array, [5]);
}

#[test]
fn singleton_nan_returns_zero() {
    let mut array = [f64::NAN];
    assert_eq!(bubble_sort(&mut array), 0);
    assert_eq!(array.len(), 1);
    assert!(array[0].is_nan());
}

#[test]
fn reverse_input_returns_full_length() {
    let mut array = [4, 3, 2, 1, 0, -1, -2];
    assert_eq!(bubble_sort(&mut array), 7);
    assert_eq!(array, [-2, -1, 0, 1, 2, 3, 4]);
}

#[test]
fn two_elements_are_swapped() {
    let mut array = [2u8, 1u8];
    assert_eq!(bubble_sort(&mut array), 2);
    assert_eq!(array, [1, 2]);
}

#[test]
fn many_nan_go_to_the_tail() {
    let mut array = [f32::NAN, f32::NAN, 0.0, f32::NAN, -1.0, f32::NAN];
    let len = bubble_sort(&mut array);
    assert_eq!(len, 2);
    assert_eq!(array[0], -1.0);
    assert_eq!(array[1], 0.0);
    assert!(array[2..].iter().all(|x| x.is_nan()));
}

#[test]
fn all_nan_leave_no_sorted_run() {
    let mut array = [f64::NAN; 5];
    assert_eq!(bubble_sort(&mut array), 0);
    assert_eq!(array.len(), 5);
    assert!(array.iter().all(|x| x.is_nan()));
}

#[test]
fn nan_partition_is_exact() {
    let mut array = [3.5, f32::NAN, -1.0, 2.0, f32::NAN, 0.0, f32::NAN];
    let len = bubble_sort(&mut array);
    assert_eq!(len, 4);
    assert!(array[..len].iter().all(|x| !x.is_nan()));
    assert!(array[len..].iter().all(|x| x.is_nan()));
    assert_eq!(&array[..len], &[-1.0, 0.0, 2.0, 3.5]);
}

#[test]
fn nan_in_last_place_is_kept_there() {
    let mut array = [1.0, f32::NAN];
    assert_eq!(bubble_sort(&mut array), 1);
    assert_eq!(array[0], 1.0);
    assert!(array[1].is_nan());
}

#[test]
fn sort_is_a_permutation() {
    let mut array = [5, -3, 5, 0, 7, -3, 2];
    let mut counted = array.to_vec();
    assert_eq!(bubble_sort(&mut array), 7);
    counted.sort();
    assert_eq!(array.to_vec(), counted);
}

#[test]
fn equal_cards_keep_input_order() {
    let mut pokers = vec![
        card(1, 4, Suit::Heart),
        card(2, 3, Suit::Club),
        card(3, 4, Suit::Heart),
        card(4, 3, Suit::Club),
        card(5, 4, Suit::Heart),
    ];
    assert_eq!(bubble_sort(&mut pokers), 5);
    let ids: Vec<i16> = pokers.iter().map(|p| p.id).collect();
    assert_eq!(ids, vec![2, 4, 1, 3, 5]);
}

#[test]
fn cards_compare_by_number_then_suit() {
    assert_eq!(
        card(0, 3, Suit::Spade).cmp(&card(0, 4, Suit::Diamond)),
        Ordering::Less
    );
    assert_eq!(
        card(0, 9, Suit::Diamond).cmp(&card(0, 4, Suit::Spade)),
        Ordering::Greater
    );
    assert_eq!(
        card(0, 5, Suit::Heart).cmp(&card(0, 5, Suit::Club)),
        Ordering::Greater
    );
    assert_eq!(
        card(7, 5, Suit::Club).cmp(&card(8, 5, Suit::Club)),
        Ordering::Equal
    );
    assert_eq!(
        card(7, 5, Suit::Club).partial_cmp(&card(8, 5, Suit::Spade)),
        Some(Ordering::Less)
    );
}

#[test]
fn suit_ranks_follow_declaration_order() {
    assert_eq!(Suit::Diamond.rank(), 0);
    assert_eq!(Suit::Club.rank(), 1);
    assert_eq!(Suit::Heart.rank(), 2);
    assert_eq!(Suit::Spade.rank(), 3);
}

#[test]
fn defaults_are_the_lowest_diamond() {
    assert_eq!(Suit::default(), Suit::Diamond);
    assert_eq!(Poker::default(), card(0, 0, Suit::Diamond));
}
