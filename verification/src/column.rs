//! A tableau column: a count of face-down cards below a visible pile.
//!
//! The hidden part is only a count — the deck is procedural, so a face-down
//! card has no identity until it is revealed, at which point a fresh random
//! card is manufactured. The count never grows; it shrinks by exactly one per
//! reveal, and a reveal happens only when the visible pile has just been
//! emptied.

use vstd::prelude::*;

use crate::card::Card;
use crate::deal::draw_card;
use crate::stack::Stack;

verus! {

/// How one `reveal_if_empty` call relates a column's state after (`post`) to
/// its state before (`pre`): when the visible pile was empty and hidden cards
/// remained, exactly one hidden card becomes one fresh visible card;
/// otherwise nothing changes.
pub open spec fn reveal_step(pre: Column, post: Column) -> bool {
    if pre.spec_visible().len() == 0 && pre.spec_hidden_count() > 0 {
        &&& post.spec_hidden_count() == pre.spec_hidden_count() - 1
        &&& post.spec_visible().len() == 1
        &&& post.spec_visible()[0].wf()
    } else {
        &&& post.spec_hidden_count() == pre.spec_hidden_count()
        &&& post.spec_visible() == pre.spec_visible()
    }
}

/// One tableau pile: `hidden` face-down cards below a visible stack.
#[derive(Debug)]
pub struct Column {
    hidden: usize,
    visible: Stack,
}

impl Column {
    /// Number of face-down cards still below the visible pile.
    pub closed spec fn spec_hidden_count(self) -> usize {
        self.hidden
    }

    /// The visible pile's contents, bottom-first.
    pub closed spec fn spec_visible(self) -> Seq<Card> {
        self.visible@
    }

    /// Every visible card has a rank in range.
    pub open spec fn wf(self) -> bool {
        forall|i: int|
            0 <= i < self.spec_visible().len() ==> (#[trigger] self.spec_visible()[i]).wf()
    }

    /// Creates the column at tableau position `index`: `index` hidden cards
    /// below a single visible card. Deeper columns start with more hidden
    /// cards; that is how the unbounded board shapes its difficulty.
    pub fn new(index: usize, first: Card) -> (c: Column)
        ensures
            c.spec_hidden_count() == index,
            c.spec_visible() == seq![first],
            first.wf() ==> c.wf(),
    {
        let mut visible = Stack::empty();
        visible.push(first);
        proof {
            assert(visible@ =~= seq![first]);
        }
        Column { hidden: index, visible }
    }

    pub fn hidden_count(&self) -> (n: usize)
        ensures
            n == self.spec_hidden_count(),
    {
        self.hidden
    }

    /// Read access to the visible pile.
    pub fn visible(&self) -> (s: &Stack)
        ensures
            s@ == self.spec_visible(),
    {
        &self.visible
    }

    /// Mutable access to the visible pile; the hidden count is untouched by
    /// whatever the caller does through the borrow.
    pub fn visible_mut(&mut self) -> (s: &mut Stack)
        ensures
            s@ == old(self).spec_visible(),
            final(self).spec_visible() == final(s)@,
            final(self).spec_hidden_count() == old(self).spec_hidden_count(),
    {
        &mut self.visible
    }

    /// Moves every card of `moving` onto the top of the visible pile,
    /// preserving order; used both for a successful drop and for returning a
    /// cancelled grab.
    pub fn append(&mut self, moving: &mut Stack)
        ensures
            final(self).spec_visible() == old(self).spec_visible() + old(moving)@,
            final(moving)@ == Seq::<Card>::empty(),
            final(self).spec_hidden_count() == old(self).spec_hidden_count(),
            old(self).wf() && old(moving).wf() ==> final(self).wf(),
    {
        self.visible.append(moving);
    }

    /// Picks up the visible cards from position `index` to the top. When
    /// `index` falls at or past the top, only the single top card is taken
    /// (or nothing, if the visible pile is empty) — the interaction's
    /// fallback when the pointer lands past the last card.
    pub fn take_from(&mut self, index: usize) -> (r: Stack)
        ensures
            final(self).spec_hidden_count() == old(self).spec_hidden_count(),
            ({
                let pre = old(self).spec_visible();
                let post = final(self).spec_visible();
                &&& (index < pre.len() ==> post == pre.take(index as int) && r@ == pre.skip(
                    index as int,
                ))
                &&& (index >= pre.len() && pre.len() > 0 ==> post == pre.drop_last() && r@ == seq![
                    pre.last(),
                ])
                &&& (index >= pre.len() && pre.len() == 0 ==> post == pre && r@ == Seq::<
                    Card,
                >::empty())
            }),
            old(self).wf() ==> final(self).wf() && r.wf(),
    {
        if index < self.visible.len() {
            self.visible.split_off(index)
        } else {
            match self.visible.pop() {
                Some(c) => {
                    let mut taken = Stack::empty();
                    taken.push(c);
                    proof {
                        assert(taken@ =~= seq![old(self).spec_visible().last()]);
                    }
                    taken
                },
                None => Stack::empty(),
            }
        }
    }

    /// The only way a hidden card ever becomes visible: when the visible pile
    /// is empty and hidden cards remain, manufacture one fresh random card
    /// and decrement the hidden count by exactly one. A no-op otherwise.
    pub fn reveal_if_empty(&mut self)
        ensures
            reveal_step(*old(self), *final(self)),
            final(self).spec_hidden_count() <= old(self).spec_hidden_count(),
            old(self).wf() ==> final(self).wf(),
    {
        if self.visible.is_empty() && self.hidden > 0 {
            let c = draw_card();
            self.visible.push(c);
            self.hidden = self.hidden - 1;
        }
    }
}

} // verus!
