//! Playing cards, ordered by number and then by suit. The `id` of a card
//! takes no part in the order, so that equal cards can be told apart.
use vstd::prelude::*;
use vstd::std_specs::cmp::PartialOrdSpec;
use core::cmp::Ordering;
use crate::order::{comparable, nan_like_order, precedes};

verus! {

/// The four suits, from lowest to highest.
#[derive(Debug, PartialEq, Eq, PartialOrd, Ord, Clone, Structural)]
pub enum Suit {
    Diamond,
    Club,
    Heart,
    Spade,
}

/// The place of a suit in the order of suits.
pub open spec fn suit_rank(s: Suit) -> int {
    match s {
        Suit::Diamond => 0,
        Suit::Club => 1,
        Suit::Heart => 2,
        Suit::Spade => 3,
    }
}

impl Suit {
    /// The place of this suit in the order of suits.
    pub fn rank(&self) -> (r: u8)
        ensures
            r == suit_rank(*self),
    {
        match self {
            Suit::Diamond => 0,
            Suit::Club => 1,
            Suit::Heart => 2,
            Suit::Spade => 3,
        }
    }
}

impl Default for Suit {
    fn default() -> (r: Suit)
        ensures
            r == Suit::Diamond,
    {
        Suit::Diamond
    }
}

/// A playing card.
#[derive(Debug, PartialEq, Eq, Clone, Structural)]
pub struct Poker {
    /// Takes no part in the order; it tells equal cards apart.
    pub id: i16,
    /// The card's number, from 3 up to 9.
    pub number: i16,
    /// Orders cards of the same number.
    pub suit: Suit,
}

/// How two cards compare: by number, then by suit.
pub open spec fn card_order(a: Poker, b: Poker) -> Ordering {
    if a.number < b.number {
        Ordering::Less
    } else if a.number > b.number {
        Ordering::Greater
    } else if suit_rank(a.suit) < suit_rank(b.suit) {
        Ordering::Less
    } else if suit_rank(a.suit) > suit_rank(b.suit) {
        Ordering::Greater
    } else {
        Ordering::Equal
    }
}

impl Poker {
    /// Compares two cards by number, then by suit.
    pub fn cmp(&self, other: &Poker) -> (r: Ordering)
        ensures
            r == card_order(*self, *other),
    {
        if self.number < other.number {
            Ordering::Less
        } else if self.number > other.number {
            Ordering::Greater
        } else {
            let a = self.suit.rank();
            let b = other.suit.rank();
            if a < b {
                Ordering::Less
            } else if a > b {
                Ordering::Greater
            } else {
                Ordering::Equal
            }
        }
    }
}

impl Default for Poker {
    fn default() -> (r: Poker)
        ensures
            r == (Poker { id: 0, number: 0, suit: Suit::Diamond }),
    {
        Poker { id: 0, number: 0, suit: Suit::Diamond }
    }
}

impl PartialOrd for Poker {
    fn partial_cmp(&self, other: &Poker) -> (r: Option<Ordering>) {
        Some(self.cmp(other))
    }
}

impl vstd::std_specs::cmp::PartialOrdSpecImpl for Poker {
    open spec fn obeys_partial_cmp_spec() -> bool {
        true
    }

    open spec fn partial_cmp_spec(&self, other: &Poker) -> Option<Ordering> {
        Some(card_order(*self, *other))
    }
}

/// Cards are totally ordered, so the sort's contract applies to them in
/// full: every card is comparable, and sorting cards is stable.
pub proof fn lemma_cards_are_totally_ordered()
    ensures
        nan_like_order::<Poker>(),
        forall|c: Poker| comparable(c),
{
    assert forall|x: Poker, y: Poker, z: Poker|
        precedes(x, y) && precedes(y, z) implies precedes(x, z) by {}
}

} // verus!
