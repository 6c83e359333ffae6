use infinite_klondike::Board;
use infinite_klondike::Card;
use infinite_klondike::Session;
use infinite_klondike::Suit;

/// Replaces the whole visible pile of one column with the given cards,
/// bottom-first, leaving the hidden count alone.
fn set_visible(board: &mut Board, column: usize, cards: &[Card]) {
    let pile = board.column_mut(column).visible_mut();
    while pile.pop().is_some() {}
    for c in cards {
        pile.push(*c);
    }
}

fn visible_of(board: &Board, column: usize) -> Vec<Card> {
    let pile = board.column(column).visible();
    let mut out = Vec::new();
    let mut i = 0;
    while i < pile.len() {
        out.push(pile.card_at(i));
        i += 1;
    }
    out
}

#[test]
fn board_grows_with_indexed_hidden_counts() {
    let mut board = Board::new();
    assert_eq!(board.column_count(), 0);
    board.ensure_width(10);
    assert_eq!(board.column_count(), 10);
    for i in 0..10 {
        assert_eq!(board.column(i).hidden_count(), i);
        assert_eq!(board.column(i).visible().len(), 1);
        assert!(board.column(i).visible().card_at(0).rank() <= 12);
    }
}

#[test]
fn board_growth_extends_without_touching_existing_columns() {
    let mut board = Board::new();
    board.ensure_width(10);
    let before: Vec<Vec<Card>> = (0..10).map(|i| visible_of(&board, i)).collect();
    board.ensure_width(15);
    assert_eq!(board.column_count(), 15);
    for i in 0..10 {
        assert_eq!(visible_of(&board, i), before[i]);
        assert_eq!(board.column(i).hidden_count(), i);
    }
    for i in 10..15 {
        assert_eq!(board.column(i).hidden_count(), i);
        assert_eq!(board.column(i).visible().len(), 1);
    }
}

#[test]
fn board_growth_is_idempotent() {
    let mut board = Board::new();
    board.ensure_width(15);
    let after_once: Vec<Vec<Card>> = (0..15).map(|i| visible_of(&board, i)).collect();
    board.ensure_width(15);
    assert_eq!(board.column_count(), 15);
    for i in 0..15 {
        assert_eq!(visible_of(&board, i), after_once[i]);
    }
    // a smaller requirement is a no-op too
    board.ensure_width(5);
    assert_eq!(board.column_count(), 15);
}

#[test]
fn pick_up_and_legal_tableau_drop() {
    let mut board = Board::new();
    board.ensure_width(2);
    let seven_spade = Card::new(Suit::Spade, 7);
    let eight_diamond = Card::new(Suit::Diamond, 8);
    set_visible(&mut board, 0, &[seven_spade]);
    set_visible(&mut board, 1, &[eight_diamond]);

    let mut session = Session::new();
    session.pick_up(&mut board, 0, 0);
    assert!(!session.is_idle());
    assert_eq!(session.held().len(), 1);
    assert_eq!(session.held().card_at(0), seven_spade);
    assert_eq!(session.origin_column(), 0);
    assert!(board.column(0).visible().is_empty());

    session.drop_held(&mut board, Some(1), false);
    assert!(session.is_idle());
    assert_eq!(visible_of(&board, 1), vec![eight_diamond, seven_spade]);
    assert!(board.column(0).visible().is_empty());
    assert_eq!(board.column(0).hidden_count(), 0);
}

#[test]
fn illegal_tableau_drop_bounces_back() {
    let mut board = Board::new();
    board.ensure_width(2);
    let seven_spade = Card::new(Suit::Spade, 7);
    let nine_diamond = Card::new(Suit::Diamond, 9);
    set_visible(&mut board, 0, &[seven_spade]);
    set_visible(&mut board, 1, &[nine_diamond]);

    let mut session = Session::new();
    session.pick_up(&mut board, 0, 0);
    session.drop_held(&mut board, Some(1), false);
    assert!(session.is_idle());
    // everything is exactly as before the pick-up
    assert_eq!(visible_of(&board, 0), vec![seven_spade]);
    assert_eq!(visible_of(&board, 1), vec![nine_diamond]);
}

#[test]
fn drop_with_no_target_cancels() {
    let mut board = Board::new();
    board.ensure_width(1);
    let run = [
        Card::new(Suit::Club, 9),
        Card::new(Suit::Diamond, 8),
        Card::new(Suit::Spade, 7),
    ];
    set_visible(&mut board, 0, &run);

    let mut session = Session::new();
    session.pick_up(&mut board, 0, 1);
    assert_eq!(session.held().len(), 2);
    session.drop_held(&mut board, None, false);
    assert!(session.is_idle());
    assert_eq!(visible_of(&board, 0), run.to_vec());
}

#[test]
fn pick_up_in_hidden_region_is_a_no_op() {
    let mut board = Board::new();
    board.ensure_width(3);
    let before = visible_of(&board, 2);
    let mut session = Session::new();
    // column 2 has two hidden cards, so slots 0 and 1 fall in the hidden region
    session.pick_up(&mut board, 2, 0);
    assert!(session.is_idle());
    session.pick_up(&mut board, 2, 1);
    assert!(session.is_idle());
    assert_eq!(visible_of(&board, 2), before);
    assert_eq!(board.column(2).hidden_count(), 2);
}

#[test]
fn pick_up_past_top_takes_single_card() {
    let mut board = Board::new();
    board.ensure_width(1);
    let nine = Card::new(Suit::Club, 9);
    let eight = Card::new(Suit::Diamond, 8);
    set_visible(&mut board, 0, &[nine, eight]);

    let mut session = Session::new();
    session.pick_up(&mut board, 0, 9);
    assert_eq!(session.held().len(), 1);
    assert_eq!(session.held().card_at(0), eight);
    assert_eq!(visible_of(&board, 0), vec![nine]);
}

#[test]
fn pick_up_from_empty_column_stays_idle() {
    let mut board = Board::new();
    board.ensure_width(1);
    set_visible(&mut board, 0, &[]);
    let mut session = Session::new();
    session.pick_up(&mut board, 0, 0);
    assert!(session.is_idle());
}

#[test]
fn multi_card_run_drops_in_order() {
    let mut board = Board::new();
    board.ensure_width(2);
    let run = [
        Card::new(Suit::Club, 9),
        Card::new(Suit::Diamond, 8),
        Card::new(Suit::Spade, 7),
    ];
    let ten_heart = Card::new(Suit::Heart, 10);
    set_visible(&mut board, 0, &run);
    set_visible(&mut board, 1, &[ten_heart]);

    let mut session = Session::new();
    session.pick_up(&mut board, 0, 0);
    assert_eq!(session.held().len(), 3);
    session.drop_held(&mut board, Some(1), false);
    assert!(session.is_idle());
    assert_eq!(visible_of(&board, 1), vec![ten_heart, run[0], run[1], run[2]]);
    assert!(board.column(0).visible().is_empty());
}

#[test]
fn foundation_drop_rejected_when_not_an_ace() {
    let mut board = Board::new();
    board.ensure_width(1);
    let five_heart = Card::new(Suit::Heart, 5);
    set_visible(&mut board, 0, &[five_heart]);

    let mut session = Session::new();
    session.pick_up(&mut board, 0, 0);
    // foundation index 2 sits at tableau index 5
    session.drop_held(&mut board, Some(5), true);
    assert!(session.is_idle());
    assert_eq!(board.foundations().top_of(2), None);
    assert_eq!(visible_of(&board, 0), vec![five_heart]);
}

#[test]
fn foundation_drop_accepts_next_rank_of_same_suit() {
    let mut board = Board::new();
    board.ensure_width(1);
    let ace_heart = Card::new(Suit::Heart, 0);
    let two_heart = Card::new(Suit::Heart, 1);
    assert!(board.foundations_mut().try_place(2, ace_heart));
    set_visible(&mut board, 0, &[two_heart]);

    let mut session = Session::new();
    session.pick_up(&mut board, 0, 0);
    session.drop_held(&mut board, Some(5), true);
    assert!(session.is_idle());
    assert_eq!(board.foundations().top_of(2), Some(two_heart));
    assert!(board.column(0).visible().is_empty());
}

#[test]
fn foundation_drop_left_of_offset_falls_through_to_tableau() {
    let mut board = Board::new();
    board.ensure_width(2);
    let seven_spade = Card::new(Suit::Spade, 7);
    let eight_diamond = Card::new(Suit::Diamond, 8);
    set_visible(&mut board, 0, &[seven_spade]);
    set_visible(&mut board, 1, &[eight_diamond]);

    let mut session = Session::new();
    session.pick_up(&mut board, 0, 0);
    // over the foundation row, but at tableau index 1 < 3: a tableau drop
    session.drop_held(&mut board, Some(1), true);
    assert!(session.is_idle());
    assert_eq!(board.foundations().top_of(0), None);
    assert_eq!(visible_of(&board, 1), vec![eight_diamond, seven_spade]);
}

#[test]
fn foundation_row_ignored_for_multi_card_hand() {
    let mut board = Board::new();
    board.ensure_width(6);
    let two_club = Card::new(Suit::Club, 1);
    let ace_club = Card::new(Suit::Club, 0);
    set_visible(&mut board, 0, &[two_club, ace_club]);
    set_visible(&mut board, 5, &[]);

    let mut session = Session::new();
    session.pick_up(&mut board, 0, 0);
    assert_eq!(session.held().len(), 2);
    // two cards in hand: the pointer over the foundation row still means a
    // tableau drop, here onto the empty column 5
    session.drop_held(&mut board, Some(5), true);
    assert!(session.is_idle());
    assert_eq!(board.foundations().top_of(2), None);
    assert_eq!(visible_of(&board, 5), vec![two_club, ace_club]);
}

#[test]
fn successful_drop_reveals_origin() {
    let mut board = Board::new();
    board.ensure_width(4);
    let seven_spade = Card::new(Suit::Spade, 7);
    let eight_diamond = Card::new(Suit::Diamond, 8);
    // column 3 starts with three hidden cards; leave exactly one visible card
    set_visible(&mut board, 3, &[seven_spade]);
    set_visible(&mut board, 1, &[eight_diamond]);

    let mut session = Session::new();
    session.pick_up(&mut board, 3, 3);
    assert_eq!(session.held().len(), 1);
    assert!(board.column(3).visible().is_empty());
    assert_eq!(board.column(3).hidden_count(), 3);

    session.drop_held(&mut board, Some(1), false);
    assert!(session.is_idle());
    assert_eq!(visible_of(&board, 1), vec![eight_diamond, seven_spade]);
    // the origin revealed one hidden card
    assert_eq!(board.column(3).hidden_count(), 2);
    assert_eq!(board.column(3).visible().len(), 1);
    assert!(board.column(3).visible().card_at(0).rank() <= 12);
}

#[test]
fn cancelled_drop_does_not_reveal_origin() {
    let mut board = Board::new();
    board.ensure_width(4);
    let seven_spade = Card::new(Suit::Spade, 7);
    let nine_club = Card::new(Suit::Club, 9);
    set_visible(&mut board, 3, &[seven_spade]);
    set_visible(&mut board, 1, &[nine_club]);

    let mut session = Session::new();
    session.pick_up(&mut board, 3, 3);
    assert!(board.column(3).visible().is_empty());

    // illegal drop: 7 of Spades on 9 of Clubs
    session.drop_held(&mut board, Some(1), false);
    assert!(session.is_idle());
    assert_eq!(visible_of(&board, 3), vec![seven_spade]);
    assert_eq!(board.column(3).hidden_count(), 3);
    assert_eq!(visible_of(&board, 1), vec![nine_club]);
}

#[test]
fn empty_column_accepts_any_card() {
    let mut board = Board::new();
    board.ensure_width(2);
    let king_heart = Card::new(Suit::Heart, 12);
    set_visible(&mut board, 0, &[king_heart]);
    set_visible(&mut board, 1, &[]);

    let mut session = Session::new();
    session.pick_up(&mut board, 0, 0);
    session.drop_held(&mut board, Some(1), false);
    assert!(session.is_idle());
    assert_eq!(visible_of(&board, 1), vec![king_heart]);
    assert!(board.column(0).visible().is_empty());
}
