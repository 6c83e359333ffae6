//! The foundation row: a sparse, unbounded mapping from foundation index to
//! the single card currently on top of that pile.
//!
//! Only the top of each pile is kept — the cards below it are implied, since
//! a pile can only ever have been built Ace-first by consecutive ranks of one
//! suit. Entries are inserted or overwritten, never removed.

use std::collections::HashMap;

use vstd::prelude::*;

use crate::card::Card;

verus! {

broadcast use vstd::std_specs::hash::group_hash_axioms;

/// Whether `card` may be placed on a foundation pile whose current top is
/// `cur`: an empty pile takes exactly an Ace; a non-empty pile takes exactly
/// the next rank of its own suit.
pub open spec fn foundation_accepts(cur: Option<Card>, card: Card) -> bool {
    match cur {
        None => card.spec_is_ace(),
        Some(t) => t.spec_same_suit(card) && card.spec_is_next_card_of(t),
    }
}

/// Whether each card of `placed` would have been accepted in turn on a pile
/// that started empty: the first from an empty pile, each later one on top
/// of its predecessor.
pub open spec fn accepted_in_turn(placed: Seq<Card>) -> bool {
    forall|i: int|
        0 <= i < placed.len() ==> foundation_accepts(
            if i == 0 {
                None
            } else {
                Some(placed[i - 1])
            },
            #[trigger] placed[i],
        )
}

/// Foundation monotonicity: any sequence of cards a foundation pile accepts
/// in turn starts at the Ace, rises in rank by exactly one per placement,
/// and stays in a single suit throughout.
pub proof fn lemma_foundation_run(placed: Seq<Card>)
    requires
        accepted_in_turn(placed),
    ensures
        forall|i: int|
            0 <= i < placed.len() ==> (#[trigger] placed[i]).spec_rank() == i
                && placed[i].spec_suit() == placed[0].spec_suit(),
    decreases placed.len(),
{
    if placed.len() > 0 {
        let prefix = placed.drop_last();
        assert forall|i: int|
            0 <= i < prefix.len() implies foundation_accepts(
            if i == 0 {
                None
            } else {
                Some(prefix[i - 1])
            },
            #[trigger] prefix[i],
        ) by {
            assert(prefix[i] == placed[i]);
            if i > 0 {
                assert(prefix[i - 1] == placed[i - 1]);
            }
        }
        lemma_foundation_run(prefix);
        assert forall|i: int|
            0 <= i < placed.len() implies (#[trigger] placed[i]).spec_rank() == i
            && placed[i].spec_suit() == placed[0].spec_suit() by {
            if i < placed.len() - 1 {
                assert(placed[i] == prefix[i]);
            } else if i > 0 {
                assert(prefix[i - 1] == placed[i - 1]);
            }
        }
    }
}

/// The foundation piles, keyed by foundation index; an absent key is an
/// empty pile.
#[derive(Debug)]
pub struct Foundations {
    tops: HashMap<usize, Card>,
}

impl Foundations {
    /// The mapping from pile index to the pile's top card.
    pub closed spec fn spec_tops(self) -> Map<usize, Card> {
        self.tops@
    }

    /// The top of pile `index`, or `None` while that pile is still empty.
    pub open spec fn spec_top_of(self, index: usize) -> Option<Card> {
        if self.spec_tops().contains_key(index) {
            Some(self.spec_tops()[index])
        } else {
            None
        }
    }

    /// Every recorded top has a rank in range.
    pub open spec fn wf(self) -> bool {
        forall|i: usize|
            self.spec_tops().contains_key(i) ==> (#[trigger] self.spec_tops()[i]).wf()
    }

    /// A fresh row in which every pile is empty.
    pub fn new() -> (f: Foundations)
        ensures
            f.spec_tops() == Map::<usize, Card>::empty(),
            f.wf(),
    {
        Foundations { tops: HashMap::new() }
    }

    pub fn top_of(&self, index: usize) -> (r: Option<Card>)
        ensures
            r == self.spec_top_of(index),
    {
        match self.tops.get(&index) {
            Some(c) => Some(*c),
            None => None,
        }
    }

    /// Attempts to place `card` on pile `index`. On acceptance the entry is
    /// overwritten (burying the previous top for good) and the call returns
    /// true; otherwise nothing changes and it returns false.
    pub fn try_place(&mut self, index: usize, card: Card) -> (accepted: bool)
        ensures
            accepted == foundation_accepts(old(self).spec_top_of(index), card),
            accepted ==> final(self).spec_tops() == old(self).spec_tops().insert(index, card),
            !accepted ==> final(self).spec_tops() == old(self).spec_tops(),
            old(self).wf() && card.wf() ==> final(self).wf(),
    {
        let accepted = match self.top_of(index) {
            None => card.is_ace(),
            Some(t) => t.same_suit(&card) && card.is_next_card_of(&t),
        };
        if accepted {
            self.tops.insert(index, card);
        }
        accepted
    }
}

} // verus!
