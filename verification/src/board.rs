//! The board: the growable tableau of columns plus the foundation row.
//!
//! Columns are appended only, never removed or reindexed; the sequence grows
//! on demand as the viewport widens and each new column is seeded with one
//! fresh card above as many hidden cards as its position.

use vstd::multiset::Multiset;
use vstd::prelude::*;

use crate::card::Card;
use crate::column::Column;
use crate::deal::draw_card;
use crate::foundation::Foundations;

verus! {

broadcast use vstd::multiset::group_multiset_axioms;

/// The column count after growing a tableau of `current` columns to a
/// requested width of `required`: growth never shrinks the tableau.
pub open spec fn grown_width(current: nat, required: nat) -> nat {
    if required > current {
        required
    } else {
        current
    }
}

/// Idempotent growth: asking for the same width a second time changes
/// nothing — the count after two identical requests equals the count after
/// one.
pub proof fn lemma_grown_width_idempotent(current: nat, required: nat)
    ensures
        grown_width(grown_width(current, required), required) == grown_width(current, required),
{
}

/// The multiset of cards lying open on the tableau: the visible piles of all
/// columns taken together.
pub open spec fn cards_in_columns(cols: Seq<Column>) -> Multiset<Card>
    decreases cols.len(),
{
    if cols.len() == 0 {
        Multiset::empty()
    } else {
        cards_in_columns(cols.drop_last()).add(cols.last().spec_visible().to_multiset())
    }
}

/// Replacing one column changes the tableau's card multiset by exactly the
/// difference between the two visible piles — every other card is counted
/// exactly once on both sides.
pub proof fn lemma_cards_in_columns_update(cols: Seq<Column>, i: int, c: Column)
    requires
        0 <= i < cols.len(),
    ensures
        cards_in_columns(cols.update(i, c)).add(cols[i].spec_visible().to_multiset())
            == cards_in_columns(cols).add(c.spec_visible().to_multiset()),
    decreases cols.len(),
{
    let updated = cols.update(i, c);
    if i == cols.len() - 1 {
        assert(updated.drop_last() =~= cols.drop_last());
        assert(updated.last() == c);
    } else {
        let rest = cols.drop_last().update(i, c);
        assert(updated.drop_last() =~= rest);
        assert(updated.last() == cols.last());
        lemma_cards_in_columns_update(cols.drop_last(), i, c);
        assert(cols.drop_last()[i] == cols[i]);
        assert(cards_in_columns(rest).add(cols[i].spec_visible().to_multiset())
            == cards_in_columns(cols.drop_last()).add(c.spec_visible().to_multiset()));
        assert(cards_in_columns(updated) == cards_in_columns(rest).add(
            cols.last().spec_visible().to_multiset(),
        ));
        assert(cards_in_columns(cols) == cards_in_columns(cols.drop_last()).add(
            cols.last().spec_visible().to_multiset(),
        ));
        assert forall|x: Card|
            cards_in_columns(updated).add(cols[i].spec_visible().to_multiset()).count(x)
                == cards_in_columns(cols).add(c.spec_visible().to_multiset()).count(x) by {
            assert(cards_in_columns(rest).add(cols[i].spec_visible().to_multiset()).count(x)
                == cards_in_columns(cols.drop_last()).add(c.spec_visible().to_multiset()).count(x));
        }
        assert(cards_in_columns(updated).add(cols[i].spec_visible().to_multiset())
            =~= cards_in_columns(cols).add(c.spec_visible().to_multiset()));
    }
}

/// Moving a run onto a column's visible pile adds exactly that run to the
/// tableau's card multiset: no card is duplicated, none is lost.
pub proof fn lemma_append_moves_cards(cols: Seq<Column>, o: int, post: Column, moved: Seq<Card>)
    requires
        0 <= o < cols.len(),
        post.spec_visible() == cols[o].spec_visible() + moved,
    ensures
        cards_in_columns(cols.update(o, post)) == cards_in_columns(cols).add(moved.to_multiset()),
{
    lemma_cards_in_columns_update(cols, o, post);
    vstd::seq_lib::lemma_multiset_commutative(cols[o].spec_visible(), moved);
    assert forall|x: Card|
        cards_in_columns(cols.update(o, post)).count(x) == cards_in_columns(cols).add(
            moved.to_multiset(),
        ).count(x) by {
        assert(cards_in_columns(cols.update(o, post)).add(
            cols[o].spec_visible().to_multiset(),
        ).count(x) == cards_in_columns(cols).add(post.spec_visible().to_multiset()).count(x));
    }
    assert(cards_in_columns(cols.update(o, post)) =~= cards_in_columns(cols).add(
        moved.to_multiset(),
    ));
}

/// Taking a run off a column's visible pile removes exactly that run from
/// the tableau's card multiset: no card is duplicated, none is lost.
pub proof fn lemma_take_moves_cards(cols: Seq<Column>, o: int, post: Column, taken: Seq<Card>)
    requires
        0 <= o < cols.len(),
        cols[o].spec_visible() == post.spec_visible() + taken,
    ensures
        cards_in_columns(cols.update(o, post)).add(taken.to_multiset()) == cards_in_columns(cols),
{
    lemma_cards_in_columns_update(cols, o, post);
    vstd::seq_lib::lemma_multiset_commutative(post.spec_visible(), taken);
    assert forall|x: Card|
        cards_in_columns(cols.update(o, post)).add(taken.to_multiset()).count(x)
            == cards_in_columns(cols).count(x) by {
        assert(cards_in_columns(cols.update(o, post)).add(
            cols[o].spec_visible().to_multiset(),
        ).count(x) == cards_in_columns(cols).add(post.spec_visible().to_multiset()).count(x));
    }
    assert(cards_in_columns(cols.update(o, post)).add(taken.to_multiset()) =~= cards_in_columns(
        cols,
    ));
}

/// A reveal changes the tableau's card multiset by at most the one fresh
/// card it manufactures: exactly one new card when it fires, nothing at all
/// otherwise.
pub proof fn lemma_reveal_moves_cards(cols: Seq<Column>, o: int, post: Column)
    requires
        0 <= o < cols.len(),
        crate::column::reveal_step(cols[o], post),
    ensures
        cols[o].spec_visible().len() == 0 && cols[o].spec_hidden_count() > 0
            ==> cards_in_columns(cols.update(o, post)) == cards_in_columns(cols).insert(
            post.spec_visible()[0],
        ),
        !(cols[o].spec_visible().len() == 0 && cols[o].spec_hidden_count() > 0)
            ==> cards_in_columns(cols.update(o, post)) == cards_in_columns(cols),
{
    broadcast use vstd::seq_lib::group_to_multiset_ensures;

    lemma_cards_in_columns_update(cols, o, post);
    if cols[o].spec_visible().len() == 0 && cols[o].spec_hidden_count() > 0 {
        let f = post.spec_visible()[0];
        assert(post.spec_visible() =~= Seq::<Card>::empty().push(f));
        assert(post.spec_visible().to_multiset() =~= Seq::<Card>::empty().to_multiset().insert(f));
        assert forall|x: Card|
            cards_in_columns(cols.update(o, post)).count(x) == cards_in_columns(cols).insert(
                f,
            ).count(x) by {
            assert(cards_in_columns(cols.update(o, post)).add(
                cols[o].spec_visible().to_multiset(),
            ).count(x) == cards_in_columns(cols).add(post.spec_visible().to_multiset()).count(x));
            assert(cols[o].spec_visible().to_multiset().count(x) == 0) by {
                assert(cols[o].spec_visible().to_multiset().len() == 0);
            }
        }
        assert(cards_in_columns(cols.update(o, post)) =~= cards_in_columns(cols).insert(f));
    } else {
        assert forall|x: Card|
            cards_in_columns(cols.update(o, post)).count(x) == cards_in_columns(cols).count(
                x,
            ) by {
            assert(cards_in_columns(cols.update(o, post)).add(
                cols[o].spec_visible().to_multiset(),
            ).count(x) == cards_in_columns(cols).add(post.spec_visible().to_multiset()).count(x));
        }
        assert(cards_in_columns(cols.update(o, post)) =~= cards_in_columns(cols));
    }
}

/// The tableau and the foundation row.
#[derive(Debug)]
pub struct Board {
    columns: Vec<Column>,
    foundations: Foundations,
}

impl Board {
    /// The materialized columns, in stable index order.
    pub closed spec fn spec_columns(self) -> Seq<Column> {
        self.columns@
    }

    /// The foundation row.
    pub closed spec fn spec_foundations(self) -> Foundations {
        self.foundations
    }

    /// Every column and every foundation top is well formed.
    pub open spec fn wf(self) -> bool {
        &&& forall|i: int|
            0 <= i < self.spec_columns().len() ==> (#[trigger] self.spec_columns()[i]).wf()
        &&& self.spec_foundations().wf()
    }

    /// A board with no columns materialized yet and every foundation empty.
    pub fn new() -> (b: Board)
        ensures
            b.spec_columns() == Seq::<Column>::empty(),
            b.spec_foundations().spec_tops() == Map::<usize, Card>::empty(),
            b.wf(),
    {
        Board { columns: Vec::new(), foundations: Foundations::new() }
    }

    pub fn column_count(&self) -> (n: usize)
        ensures
            n == self.spec_columns().len(),
    {
        self.columns.len()
    }

    /// Read access to the column at `index`; an index past the materialized
    /// length is a defect in the caller.
    pub fn column(&self, index: usize) -> (c: &Column)
        requires
            index < self.spec_columns().len(),
        ensures
            *c == self.spec_columns()[index as int],
    {
        &self.columns[index]
    }

    /// Mutable access to the column at `index`; the rest of the board is
    /// untouched by whatever the caller does through the borrow.
    pub fn column_mut(&mut self, index: usize) -> (c: &mut Column)
        requires
            index < old(self).spec_columns().len(),
        ensures
            *c == old(self).spec_columns()[index as int],
            final(self).spec_columns() == old(self).spec_columns().update(
                index as int,
                *final(c),
            ),
            final(self).spec_foundations() == old(self).spec_foundations(),
    {
        &mut self.columns[index]
    }

    /// Read access to the foundation row.
    pub fn foundations(&self) -> (f: &Foundations)
        ensures
            *f == self.spec_foundations(),
    {
        &self.foundations
    }

    /// Mutable access to the foundation row; the columns are untouched by
    /// whatever the caller does through the borrow.
    pub fn foundations_mut(&mut self) -> (f: &mut Foundations)
        ensures
            *f == old(self).spec_foundations(),
            final(self).spec_foundations() == *final(f),
            final(self).spec_columns() == old(self).spec_columns(),
    {
        &mut self.foundations
    }

    /// Grows the tableau so that at least `required` columns exist,
    /// appending fresh columns with strictly increasing indices; a
    /// smaller-or-equal requirement is a no-op, so the call is idempotent.
    /// Each new column starts with as many hidden cards as its index and a
    /// single fresh visible card; existing columns and the foundations are
    /// untouched.
    pub fn ensure_width(&mut self, required: usize)
        ensures
            final(self).spec_columns().len() == grown_width(
                old(self).spec_columns().len(),
                required as nat,
            ),
            forall|j: int|
                0 <= j < old(self).spec_columns().len() ==> final(self).spec_columns()[j] == old(
                    self,
                ).spec_columns()[j],
            forall|j: int|
                old(self).spec_columns().len() <= j < final(self).spec_columns().len() ==> {
                    let c = #[trigger] final(self).spec_columns()[j];
                    &&& c.spec_hidden_count() == j
                    &&& c.spec_visible().len() == 1
                    &&& c.wf()
                },
            final(self).spec_foundations() == old(self).spec_foundations(),
            old(self).wf() ==> final(self).wf(),
    {
        while self.columns.len() < required
            invariant
                old(self).spec_columns().len() <= self.columns@.len(),
                self.columns@.len() <= grown_width(old(self).spec_columns().len(), required as nat),
                forall|j: int|
                    0 <= j < old(self).spec_columns().len() ==> self.columns@[j] == old(
                        self,
                    ).spec_columns()[j],
                forall|j: int|
                    old(self).spec_columns().len() <= j < self.columns@.len() ==> {
                        let c = #[trigger] self.columns@[j];
                        &&& c.spec_hidden_count() == j
                        &&& c.spec_visible().len() == 1
                        &&& c.wf()
                    },
                self.foundations == old(self).spec_foundations(),
            decreases required - self.columns.len(),
        {
            let index = self.columns.len();
            let first = draw_card();
            self.columns.push(Column::new(index, first));
        }
        proof {
            if old(self).wf() {
                assert forall|i: int|
                    0 <= i < self.spec_columns().len() implies (
                #[trigger] self.spec_columns()[i]).wf() by {
                    if i < old(self).spec_columns().len() {
                        assert(old(self).spec_columns()[i].wf());
                    } else {
                        assert(self.columns@[i].wf());
                    }
                }
            }
        }
    }
}

} // verus!
