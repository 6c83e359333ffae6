//! The procedural deck.
//!
//! This variant has no fixed 52-card shuffle: every card that enters play is
//! manufactured on demand, with a uniformly random suit and rank. The single
//! call into the random-number crate lives here; everything built on top of
//! it only relies on the drawn numbers being in range.

use rand::Rng;
use vstd::prelude::*;

use crate::card::suit_from_index;
use crate::card::Card;

verus! {

/// Relies on rand::Rng::gen_range on rand::thread_rng(): a draw from the
/// non-empty range `0..n` returns a value below `n` and does not panic.
#[verifier::external_body]
fn random_below(n: u8) -> (r: u8)
    requires
        1 <= n,
    ensures
        r < n,
{
    rand::thread_rng().gen_range(0..n)
}

/// Draws a fresh card: one of the four suits and a rank in `0..=12`. Nothing
/// beyond well-formedness can be promised of a random draw.
pub fn draw_card() -> (c: Card)
    ensures
        c.wf(),
{
    let s = random_below(4);
    let r = random_below(13);
    Card::new(suit_from_index(s), r)
}

} // verus!
