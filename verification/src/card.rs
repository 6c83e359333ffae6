//! Card identity and the pairwise legality predicates.
//!
//! A card is a suit together with a rank in `0..=12` (0 is the Ace, 12 the
//! King). Cards are small immutable values; everything here is a pure
//! function of the two fields.

use vstd::prelude::*;

verus! {

/// The four suits. Diamond and Heart are the red suits.
#[derive(Clone, Copy, Debug, PartialEq, Eq, Structural, Hash)]
pub enum Suit {
    Club,
    Diamond,
    Heart,
    Spade,
}

/// Highest rank a card can carry (the King); ranks run `0..=MAX_RANK`.
pub const MAX_RANK: u8 = 12;

/// A playing card: a suit and a rank in `0..=MAX_RANK`.
#[derive(Clone, Copy, Debug, PartialEq, Eq, Structural, Hash)]
pub struct Card {
    suit: Suit,
    rank: u8,
}

impl Card {
    /// The card's suit.
    pub closed spec fn spec_suit(self) -> Suit {
        self.suit
    }

    /// The card's rank, 0 for an Ace up to 12 for a King.
    pub closed spec fn spec_rank(self) -> u8 {
        self.rank
    }

    /// A card is well formed when its rank is in range; every constructor of
    /// this crate only ever builds such cards.
    pub open spec fn wf(self) -> bool {
        self.spec_rank() <= MAX_RANK
    }

    pub open spec fn spec_is_red(self) -> bool {
        self.spec_suit() == Suit::Diamond || self.spec_suit() == Suit::Heart
    }

    pub open spec fn spec_is_ace(self) -> bool {
        self.spec_rank() == 0
    }

    pub open spec fn spec_same_suit(self, other: Card) -> bool {
        self.spec_suit() == other.spec_suit()
    }

    /// `self` is the card that follows `other`: exactly one rank higher.
    pub open spec fn spec_is_next_card_of(self, other: Card) -> bool {
        self.spec_rank() == other.spec_rank() + 1
    }

    /// Builds a card; an out-of-range rank is a defect in the caller, so it
    /// is excluded rather than handled.
    pub fn new(suit: Suit, rank: u8) -> (c: Card)
        requires
            rank <= MAX_RANK,
        ensures
            c.spec_suit() == suit,
            c.spec_rank() == rank,
            c.wf(),
    {
        Card { suit, rank }
    }

    pub fn suit(&self) -> (s: Suit)
        ensures
            s == self.spec_suit(),
    {
        self.suit
    }

    pub fn rank(&self) -> (r: u8)
        ensures
            r == self.spec_rank(),
    {
        self.rank
    }

    pub fn is_ace(&self) -> (r: bool)
        ensures
            r == self.spec_is_ace(),
    {
        self.rank == 0
    }

    pub fn is_red(&self) -> (r: bool)
        ensures
            r == self.spec_is_red(),
    {
        self.suit == Suit::Diamond || self.suit == Suit::Heart
    }

    pub fn same_suit(&self, other: &Card) -> (r: bool)
        ensures
            r == self.spec_same_suit(*other),
    {
        self.suit == other.suit
    }

    /// True iff `self`'s rank is exactly one above `other`'s.
    pub fn is_next_card_of(&self, other: &Card) -> (r: bool)
        ensures
            r == self.spec_is_next_card_of(*other),
    {
        self.rank > 0 && other.rank == self.rank - 1
    }
}

/// Maps a draw in `0..4` to a suit; the order matches the uniform draw the
/// procedural deck makes.
pub fn suit_from_index(n: u8) -> (s: Suit)
    requires
        n < 4,
    ensures
        (n == 0 ==> s == Suit::Club),
        (n == 1 ==> s == Suit::Diamond),
        (n == 2 ==> s == Suit::Heart),
        (n == 3 ==> s == Suit::Spade),
{
    match n {
        0 => Suit::Club,
        1 => Suit::Diamond,
        2 => Suit::Heart,
        _ => Suit::Spade,
    }
}

} // verus!
