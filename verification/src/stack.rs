//! An ordered pile of cards, stored bottom-first.
//!
//! A stack has no structural constraint of its own: legality of a move is the
//! caller's business. Every stack is owned by exactly one place at a time —
//! a column's visible portion or the grab/drop session's hand — and cards
//! move between stacks without duplication or loss.

use vstd::prelude::*;

use crate::card::Card;

verus! {

/// Whether `candidate` may be placed on top of a pile whose contents are
/// `pile` (bottom-first): an empty pile accepts anything; otherwise the
/// candidate must be exactly one rank below the pile's top card and of the
/// other colour.
pub open spec fn can_stack_on(pile: Seq<Card>, candidate: Card) -> bool {
    ||| pile.len() == 0
    ||| (pile.last().spec_is_next_card_of(candidate) && pile.last().spec_is_red()
        != candidate.spec_is_red())
}

/// An ordered pile of cards, bottom-first.
#[derive(Debug)]
pub struct Stack {
    cards: Vec<Card>,
}

impl View for Stack {
    type V = Seq<Card>;

    closed spec fn view(&self) -> Seq<Card> {
        self.cards@
    }
}

impl Stack {
    /// Every card on the pile has a rank in range.
    pub open spec fn wf(self) -> bool {
        forall|i: int| 0 <= i < self@.len() ==> (#[trigger] self@[i]).wf()
    }

    pub fn empty() -> (s: Stack)
        ensures
            s@ == Seq::<Card>::empty(),
            s.wf(),
    {
        Stack { cards: Vec::new() }
    }

    pub fn len(&self) -> (n: usize)
        ensures
            n == self@.len(),
    {
        self.cards.len()
    }

    pub fn is_empty(&self) -> (r: bool)
        ensures
            r == (self@.len() == 0),
    {
        self.cards.len() == 0
    }

    /// The card at position `i`, counted from the bottom.
    pub fn card_at(&self, i: usize) -> (c: Card)
        requires
            i < self@.len(),
        ensures
            c == self@[i as int],
    {
        self.cards[i]
    }

    /// Appends a card on top.
    pub fn push(&mut self, c: Card)
        ensures
            final(self)@ == old(self)@.push(c),
    {
        self.cards.push(c);
    }

    /// Removes and returns the top card, if any.
    pub fn pop(&mut self) -> (r: Option<Card>)
        ensures
            old(self)@.len() == 0 ==> r is None && final(self)@ == old(self)@,
            old(self)@.len() > 0 ==> r == Some(old(self)@.last()) && final(self)@ == old(
                self,
            )@.drop_last(),
    {
        self.cards.pop()
    }

    /// The top card, without removing it.
    pub fn top(&self) -> (r: Option<Card>)
        ensures
            self@.len() == 0 ==> r is None,
            self@.len() > 0 ==> r == Some(self@.last()),
    {
        if self.cards.len() == 0 {
            None
        } else {
            Some(self.cards[self.cards.len() - 1])
        }
    }

    /// The bottom card, without removing it; for a held run this is the card
    /// that must land on the destination's top.
    pub fn bottom(&self) -> (r: Option<Card>)
        ensures
            self@.len() == 0 ==> r is None,
            self@.len() > 0 ==> r == Some(self@[0]),
    {
        if self.cards.len() == 0 {
            None
        } else {
            Some(self.cards[0])
        }
    }

    /// Removes the cards from position `index` up to the top and returns them
    /// as a stack of their own, in unchanged order.
    pub fn split_off(&mut self, index: usize) -> (r: Stack)
        requires
            index <= old(self)@.len(),
        ensures
            final(self)@ == old(self)@.take(index as int),
            r@ == old(self)@.skip(index as int),
    {
        let taken = self.cards.split_off(index);
        Stack { cards: taken }
    }

    /// Moves every card of `other` onto the top of `self`, preserving order;
    /// `other` is left empty.
    pub fn append(&mut self, other: &mut Stack)
        ensures
            final(self)@ == old(self)@ + old(other)@,
            final(other)@ == Seq::<Card>::empty(),
    {
        self.cards.append(&mut other.cards);
    }

    /// Whether `candidate` may be placed on top of this pile.
    pub fn can_stack(&self, candidate: &Card) -> (r: bool)
        ensures
            r == can_stack_on(self@, *candidate),
    {
        match self.top() {
            None => true,
            Some(t) => t.is_next_card_of(candidate) && (t.is_red() != candidate.is_red()),
        }
    }
}

} // verus!
