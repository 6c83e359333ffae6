//! The grab/drop session: the transient holder for cards the player has
//! picked up, and the state machine that resolves each click.
//!
//! The session is Idle while its hand is empty and Holding otherwise. A
//! pick-up moves a run from one column's visible pile into the hand; a drop
//! moves the hand onto a column, onto a foundation pile, or — on any illegal
//! destination — back where it came from. No illegal action surfaces an
//! error: the cards simply bounce back, and no invalid state is ever
//! observable between clicks.

use vstd::multiset::Multiset;
use vstd::prelude::*;

use crate::board::cards_in_columns;
use crate::board::lemma_append_moves_cards;
use crate::board::lemma_reveal_moves_cards;
use crate::board::lemma_take_moves_cards;
use crate::board::Board;
use crate::card::Card;
use crate::column::reveal_step;
use crate::column::Column;
use crate::foundation::foundation_accepts;
use crate::stack::can_stack_on;
use crate::stack::Stack;

verus! {

broadcast use vstd::multiset::group_multiset_axioms;

/// The foundation row sits this many logical columns right of the tableau's
/// left edge; a drop over the foundation row at tableau index `t` lands on
/// foundation pile `t - FOUNDATION_OFFSET`.
pub const FOUNDATION_OFFSET: usize = 3;

/// Every card in motion: the visible piles of all columns plus whatever the
/// session holds. Pick-ups and drops only shuffle cards within this pool; a
/// reveal adds exactly one to it and a foundation placement removes exactly
/// one from it.
pub open spec fn loose_cards(board: Board, session: Session) -> Multiset<Card> {
    cards_in_columns(board.spec_columns()).add(session.spec_held().to_multiset())
}

/// A cancelled drop: the held run goes back on top of its origin column in
/// its original relative order, and nothing else on the board moves. The
/// pool of loose cards is exactly preserved.
pub open spec fn cancel_outcome(
    pre_b: Board,
    pre_s: Session,
    post_b: Board,
    post_s: Session,
) -> bool {
    let o = pre_s.spec_origin() as int;
    &&& post_s.spec_held().len() == 0
    &&& post_b.spec_columns().len() == pre_b.spec_columns().len()
    &&& post_b.spec_columns()[o].spec_visible() == pre_b.spec_columns()[o].spec_visible()
        + pre_s.spec_held()
    &&& post_b.spec_columns()[o].spec_hidden_count() == pre_b.spec_columns()[o].spec_hidden_count()
    &&& forall|j: int|
        0 <= j < pre_b.spec_columns().len() && j != o ==> post_b.spec_columns()[j]
            == pre_b.spec_columns()[j]
    &&& post_b.spec_foundations().spec_tops() == pre_b.spec_foundations().spec_tops()
    &&& loose_cards(post_b, post_s) == loose_cards(pre_b, pre_s)
}

/// A successful tableau drop of the held run onto column `target`: the run
/// lands on top of the target's visible pile in order, the origin column
/// reveals if the drop left it empty over hidden cards, and every other
/// column and the foundations are untouched. The pool of loose cards gains
/// exactly the revealed card, if any, and loses nothing.
pub open spec fn tableau_drop_outcome(
    pre_b: Board,
    pre_s: Session,
    post_b: Board,
    post_s: Session,
    target: usize,
) -> bool {
    let t = target as int;
    let o = pre_s.spec_origin() as int;
    let pre_o = pre_b.spec_columns()[o];
    &&& post_s.spec_held().len() == 0
    &&& post_b.spec_columns().len() == pre_b.spec_columns().len()
    &&& post_b.spec_foundations().spec_tops() == pre_b.spec_foundations().spec_tops()
    &&& post_b.spec_columns()[t].spec_visible() == pre_b.spec_columns()[t].spec_visible()
        + pre_s.spec_held()
    &&& post_b.spec_columns()[t].spec_hidden_count() == pre_b.spec_columns()[t].spec_hidden_count()
    &&& forall|j: int|
        0 <= j < pre_b.spec_columns().len() && j != t && j != o ==> post_b.spec_columns()[j]
            == pre_b.spec_columns()[j]
    &&& (t != o ==> reveal_step(pre_o, post_b.spec_columns()[o]))
    &&& if t != o && pre_o.spec_visible().len() == 0 && pre_o.spec_hidden_count() > 0 {
        loose_cards(post_b, post_s) == loose_cards(pre_b, pre_s).insert(
            post_b.spec_columns()[o].spec_visible()[0],
        )
    } else {
        loose_cards(post_b, post_s) == loose_cards(pre_b, pre_s)
    }
}

/// A successful foundation drop of the single held card `placed` onto pile
/// `index`: the pile's top becomes `placed` (burying the previous top for
/// good), the origin column reveals if it stands empty over hidden cards,
/// and the columns are otherwise untouched. Exactly `placed` leaves the
/// pool of loose cards; exactly the revealed card, if any, enters it.
pub open spec fn foundation_drop_outcome(
    pre_b: Board,
    pre_s: Session,
    post_b: Board,
    post_s: Session,
    index: usize,
    placed: Card,
) -> bool {
    let o = pre_s.spec_origin() as int;
    let pre_o = pre_b.spec_columns()[o];
    &&& post_s.spec_held().len() == 0
    &&& post_b.spec_columns().len() == pre_b.spec_columns().len()
    &&& post_b.spec_foundations().spec_tops() == pre_b.spec_foundations().spec_tops().insert(
        index,
        placed,
    )
    &&& forall|j: int|
        0 <= j < pre_b.spec_columns().len() && j != o ==> post_b.spec_columns()[j]
            == pre_b.spec_columns()[j]
    &&& reveal_step(pre_o, post_b.spec_columns()[o])
    &&& if pre_o.spec_visible().len() == 0 && pre_o.spec_hidden_count() > 0 {
        loose_cards(pre_b, pre_s).insert(post_b.spec_columns()[o].spec_visible()[0])
            == loose_cards(post_b, post_s).insert(placed)
    } else {
        loose_cards(pre_b, pre_s) == loose_cards(post_b, post_s).insert(placed)
    }
}

/// A cancelled grab is a no-op: a pick-up leaves the origin pile's prefix
/// in place and carries off the suffix, so returning the held run to the
/// pile it was split from restores the original pile, card for card and in
/// the original relative order.
pub proof fn lemma_cancel_restores_pile(pile: Seq<Card>, i: int)
    requires
        0 <= i <= pile.len(),
    ensures
        pile.take(i) + pile.skip(i) == pile,
{
    assert(pile.take(i) + pile.skip(i) =~= pile);
}

/// Conservation accounting for a successful foundation drop: the placed
/// card is exactly what leaves the loose pool.
proof fn lemma_foundation_case(
    pre_b: Board,
    pre_s: Session,
    post_b: Board,
    post_s: Session,
    placed: Card,
)
    requires
        pre_s.spec_held().len() == 1,
        pre_s.spec_held()[0] == placed,
        post_s.spec_held().len() == 0,
        pre_s.spec_origin() < pre_b.spec_columns().len(),
        post_b.spec_columns() == pre_b.spec_columns().update(
            pre_s.spec_origin() as int,
            post_b.spec_columns()[pre_s.spec_origin() as int],
        ),
        reveal_step(
            pre_b.spec_columns()[pre_s.spec_origin() as int],
            post_b.spec_columns()[pre_s.spec_origin() as int],
        ),
    ensures
        ({
            let o = pre_s.spec_origin() as int;
            let pre_o = pre_b.spec_columns()[o];
            if pre_o.spec_visible().len() == 0 && pre_o.spec_hidden_count() > 0 {
                loose_cards(pre_b, pre_s).insert(post_b.spec_columns()[o].spec_visible()[0])
                    == loose_cards(post_b, post_s).insert(placed)
            } else {
                loose_cards(pre_b, pre_s) == loose_cards(post_b, post_s).insert(placed)
            }
        }),
{
    broadcast use vstd::seq_lib::group_to_multiset_ensures;

    let o = pre_s.spec_origin() as int;
    let pre_cols = pre_b.spec_columns();
    let pre_o = pre_cols[o];
    let post_col = post_b.spec_columns()[o];
    lemma_reveal_moves_cards(pre_cols, o, post_col);
    assert(pre_s.spec_held() =~= Seq::<Card>::empty().push(placed));
    assert(pre_s.spec_held().to_multiset() =~= Seq::<Card>::empty().to_multiset().insert(placed));
    assert(post_s.spec_held().to_multiset().len() == 0);
    if pre_o.spec_visible().len() == 0 && pre_o.spec_hidden_count() > 0 {
        assert(loose_cards(pre_b, pre_s).insert(post_col.spec_visible()[0]) =~= loose_cards(
            post_b,
            post_s,
        ).insert(placed));
    } else {
        assert(loose_cards(pre_b, pre_s) =~= loose_cards(post_b, post_s).insert(placed));
    }
}

/// Conservation accounting for a successful tableau drop: the held run
/// lands once at the target and nowhere else, and only a reveal adds a
/// card.
proof fn lemma_tableau_case(
    pre_b: Board,
    pre_s: Session,
    post_b: Board,
    post_s: Session,
    mid_cols: Seq<Column>,
    target: usize,
)
    requires
        pre_s.spec_held().len() > 0,
        post_s.spec_held().len() == 0,
        pre_s.spec_origin() < pre_b.spec_columns().len(),
        (target as int) < pre_b.spec_columns().len(),
        mid_cols == pre_b.spec_columns().update(target as int, mid_cols[target as int]),
        mid_cols[target as int].spec_visible() == pre_b.spec_columns()[target as int].spec_visible()
            + pre_s.spec_held(),
        mid_cols[target as int].spec_hidden_count() == pre_b.spec_columns()[
            target as int
        ].spec_hidden_count(),
        post_b.spec_columns() == mid_cols.update(
            pre_s.spec_origin() as int,
            post_b.spec_columns()[pre_s.spec_origin() as int],
        ),
        reveal_step(
            mid_cols[pre_s.spec_origin() as int],
            post_b.spec_columns()[pre_s.spec_origin() as int],
        ),
    ensures
        ({
            let o = pre_s.spec_origin() as int;
            let t = target as int;
            let pre_o = pre_b.spec_columns()[o];
            &&& (t != o ==> reveal_step(pre_o, post_b.spec_columns()[o]))
            &&& post_b.spec_columns()[t].spec_visible() == pre_b.spec_columns()[t].spec_visible()
                + pre_s.spec_held()
            &&& post_b.spec_columns()[t].spec_hidden_count() == pre_b.spec_columns()[
                t
            ].spec_hidden_count()
            &&& if t != o && pre_o.spec_visible().len() == 0 && pre_o.spec_hidden_count() > 0 {
                loose_cards(post_b, post_s) == loose_cards(pre_b, pre_s).insert(
                    post_b.spec_columns()[o].spec_visible()[0],
                )
            } else {
                loose_cards(post_b, post_s) == loose_cards(pre_b, pre_s)
            }
        }),
{
    broadcast use vstd::seq_lib::group_to_multiset_ensures;

    let o = pre_s.spec_origin() as int;
    let t = target as int;
    let pre_cols = pre_b.spec_columns();
    let mid_col = mid_cols[t];
    let post_col = post_b.spec_columns()[o];
    lemma_append_moves_cards(pre_cols, t, mid_col, pre_s.spec_held());
    lemma_reveal_moves_cards(mid_cols, o, post_col);
    assert(post_s.spec_held().to_multiset().len() == 0);
    if t == o {
        // the run went back onto its own column; the mid state is non-empty,
        // so the reveal was a no-op
        assert(mid_cols[o].spec_visible().len() > 0);
        assert(post_b.spec_columns()[t].spec_visible() =~= pre_cols[t].spec_visible()
            + pre_s.spec_held());
        assert(loose_cards(post_b, post_s) =~= loose_cards(pre_b, pre_s));
    } else {
        assert(mid_cols[o] == pre_cols[o]);
        if pre_cols[o].spec_visible().len() == 0 && pre_cols[o].spec_hidden_count() > 0 {
            assert(loose_cards(post_b, post_s) =~= loose_cards(pre_b, pre_s).insert(
                post_b.spec_columns()[o].spec_visible()[0],
            ));
        } else {
            assert(loose_cards(post_b, post_s) =~= loose_cards(pre_b, pre_s));
        }
    }
}

/// The transient holder for picked-up cards: the hand itself and the index
/// of the column the cards were lifted from.
#[derive(Debug)]
pub struct Session {
    held: Stack,
    origin: usize,
}

impl Session {
    /// The cards in hand, bottom-first.
    pub closed spec fn spec_held(self) -> Seq<Card> {
        self.held@
    }

    /// The column the hand was lifted from; meaningful only while holding.
    pub closed spec fn spec_origin(self) -> usize {
        self.origin
    }

    /// Idle means nothing in hand; the session is Holding otherwise.
    pub open spec fn spec_is_idle(self) -> bool {
        self.spec_held().len() == 0
    }

    /// Every held card has a rank in range.
    pub open spec fn wf(self) -> bool {
        forall|i: int| 0 <= i < self.spec_held().len() ==> (#[trigger] self.spec_held()[i]).wf()
    }

    /// A fresh, idle session.
    pub fn new() -> (s: Session)
        ensures
            s.spec_is_idle(),
            s.spec_origin() == 0,
            s.wf(),
    {
        Session { held: Stack::empty(), origin: 0 }
    }

    pub fn is_idle(&self) -> (r: bool)
        ensures
            r == self.spec_is_idle(),
    {
        self.held.is_empty()
    }

    /// Read access to the hand.
    pub fn held(&self) -> (s: &Stack)
        ensures
            s@ == self.spec_held(),
    {
        &self.held
    }

    pub fn origin_column(&self) -> (o: usize)
        ensures
            o == self.spec_origin(),
    {
        self.origin
    }

    /// Returns the whole hand to the origin column. Used for every illegal
    /// drop; always succeeds.
    fn cancel(&mut self, board: &mut Board)
        requires
            old(self).spec_origin() < old(board).spec_columns().len(),
        ensures
            cancel_outcome(*old(board), *old(self), *final(board), *final(self)),
            final(self).spec_origin() == old(self).spec_origin(),
            old(board).wf() && old(self).wf() ==> final(board).wf(),
            final(self).wf(),
    {
        let ghost pre_cols = board.spec_columns();
        let ghost held_seq = self.held@;
        let o = self.origin;
        let col = board.column_mut(o);
        col.append(&mut self.held);
        proof {
            broadcast use vstd::seq_lib::group_to_multiset_ensures;

            let post_col = board.spec_columns()[o as int];
            lemma_append_moves_cards(pre_cols, o as int, post_col, held_seq);
            assert(self.spec_held().to_multiset().len() == 0);
            assert(loose_cards(*board, *self) =~= loose_cards(*old(board), *old(self)));
        }
    }

    /// Pick-up, valid only while Idle: the viewport layer has resolved the
    /// pointer to `column` and a vertical `slot`. A slot inside the hidden
    /// region is a no-op; otherwise the cards from visible position
    /// `slot - hidden_count` to the top move into the hand (degenerating to
    /// the single top card when that position lies past the pile, and to
    /// nothing when the pile is empty) and the origin is recorded. The pool
    /// of loose cards is exactly preserved.
    pub fn pick_up(&mut self, board: &mut Board, column: usize, slot: usize)
        requires
            old(self).spec_is_idle(),
            column < old(board).spec_columns().len(),
        ensures
            final(board).spec_columns().len() == old(board).spec_columns().len(),
            final(board).spec_foundations() == old(board).spec_foundations(),
            forall|j: int|
                0 <= j < old(board).spec_columns().len() && j != column
                    ==> final(board).spec_columns()[j] == old(board).spec_columns()[j],
            ({
                let pre = old(board).spec_columns()[column as int];
                let post = final(board).spec_columns()[column as int];
                let held = final(self).spec_held();
                let h = pre.spec_hidden_count();
                let v = pre.spec_visible();
                &&& post.spec_hidden_count() == h
                &&& (slot < h ==> post.spec_visible() == v && held == old(self).spec_held()
                    && final(self).spec_origin() == old(self).spec_origin())
                &&& (slot >= h ==> {
                    let vi = slot - h;
                    &&& final(self).spec_origin() == column
                    &&& (vi < v.len() ==> post.spec_visible() == v.take(vi) && held == v.skip(vi))
                    &&& (vi >= v.len() && v.len() > 0 ==> post.spec_visible() == v.drop_last()
                        && held == seq![v.last()])
                    &&& (vi >= v.len() && v.len() == 0 ==> post.spec_visible() == v && held
                        == Seq::<Card>::empty())
                })
            }),
            loose_cards(*final(board), *final(self)) == loose_cards(*old(board), *old(self)),
            !final(self).spec_is_idle()
                ==> final(self).spec_origin() < final(board).spec_columns().len(),
            old(board).wf() ==> final(board).wf(),
            old(board).wf() ==> final(self).wf(),
            old(self).spec_origin() < old(board).spec_columns().len() ==> final(self).spec_origin()
                < final(board).spec_columns().len(),
    {
        let ghost pre_cols = board.spec_columns();
        let hidden = board.column(column).hidden_count();
        if slot >= hidden {
            let vi = slot - hidden;
            let col = board.column_mut(column);
            let mut taken = col.take_from(vi);
            let ghost taken_seq = taken@;
            self.held.append(&mut taken);
            self.origin = column;
            proof {
                broadcast use vstd::seq_lib::group_to_multiset_ensures;

                let pre = pre_cols[column as int];
                let post = board.spec_columns()[column as int];
                assert(self.spec_held() =~= taken_seq);
                assert(pre.spec_visible() =~= post.spec_visible() + taken_seq);
                lemma_take_moves_cards(pre_cols, column as int, post, taken_seq);
                assert(loose_cards(*board, *self) =~= loose_cards(*old(board), *old(self)));
            }
        }
    }

    /// Drop, valid only while Holding. With no column under the pointer the
    /// drop cancels. Over the foundation row with exactly one card in hand,
    /// a pointer at tableau index `t >= FOUNDATION_OFFSET` aims at
    /// foundation pile `t - FOUNDATION_OFFSET`: the card is placed there if
    /// the pile accepts it, and the hand bounces back otherwise; an index
    /// left of the offset falls through to an ordinary tableau drop. An
    /// ordinary tableau drop succeeds exactly when the target's visible
    /// pile can take the hand's bottom card, and cancels otherwise. Every
    /// branch leaves the session Idle.
    pub fn drop_held(&mut self, board: &mut Board, target: Option<usize>, on_foundation: bool)
        requires
            !old(self).spec_is_idle(),
            old(self).spec_origin() < old(board).spec_columns().len(),
            match target {
                Some(t) => (on_foundation && old(self).spec_held().len() == 1 && t
                    >= FOUNDATION_OFFSET) || t < old(board).spec_columns().len(),
                None => true,
            },
        ensures
            final(self).spec_is_idle(),
            final(self).spec_origin() == old(self).spec_origin(),
            final(board).spec_columns().len() == old(board).spec_columns().len(),
            match target {
                None => cancel_outcome(*old(board), *old(self), *final(board), *final(self)),
                Some(t) => {
                    if on_foundation && old(self).spec_held().len() == 1 && t >= FOUNDATION_OFFSET {
                        let fi = (t - FOUNDATION_OFFSET) as usize;
                        if foundation_accepts(
                            old(board).spec_foundations().spec_top_of(fi),
                            old(self).spec_held()[0],
                        ) {
                            foundation_drop_outcome(
                                *old(board),
                                *old(self),
                                *final(board),
                                *final(self),
                                fi,
                                old(self).spec_held()[0],
                            )
                        } else {
                            cancel_outcome(*old(board), *old(self), *final(board), *final(self))
                        }
                    } else {
                        if can_stack_on(
                            old(board).spec_columns()[t as int].spec_visible(),
                            old(self).spec_held()[0],
                        ) {
                            tableau_drop_outcome(
                                *old(board),
                                *old(self),
                                *final(board),
                                *final(self),
                                t,
                            )
                        } else {
                            cancel_outcome(*old(board), *old(self), *final(board), *final(self))
                        }
                    }
                },
            },
            old(board).wf() && old(self).wf() ==> final(board).wf(),
            final(self).wf(),
    {
        match target {
            None => {
                self.cancel(board);
            },
            Some(t) => {
                if on_foundation && self.held.len() == 1 && t >= FOUNDATION_OFFSET {
                    let fi = t - FOUNDATION_OFFSET;
                    let card = self.held.card_at(0);
                    let fnd = board.foundations_mut();
                    let accepted = fnd.try_place(fi, card);
                    if accepted {
                        let _ = self.held.pop();
                        let o = self.origin;
                        let col = board.column_mut(o);
                        col.reveal_if_empty();
                        proof {
                            lemma_foundation_case(*old(board), *old(self), *board, *self, card);
                        }
                    } else {
                        self.cancel(board);
                    }
                } else {
                    let bottom = self.held.card_at(0);
                    let fits = board.column(t).visible().can_stack(&bottom);
                    if fits {
                        let tc = board.column_mut(t);
                        tc.append(&mut self.held);
                        let ghost mid_cols = board.spec_columns();
                        let o = self.origin;
                        let oc = board.column_mut(o);
                        oc.reveal_if_empty();
                        proof {
                            lemma_tableau_case(
                                *old(board),
                                *old(self),
                                *board,
                                *self,
                                mid_cols,
                                t,
                            );
                        }
                    } else {
                        self.cancel(board);
                    }
                }
            },
        }
    }
}

} // verus!
