use turn_games::blackjack::{
    create_deck, dealer_play, rank_label, round_outcome, shuffled_deck, RoundOutcome,
};
use turn_games::grid::{ai_move, check_winner, Board, Cell, GameError, GameResult, GridGame};
use turn_games::hand::{card_value, hand_value, Card};
use turn_games::line21::{
    check_win, empty_positions, play_card, random_empty_position, shuffled_tactic_deck,
    tactic_deck, Slot,
};

fn card(value: u8) -> Card {
    Card { value, suit: 'S' }
}

#[test]
fn tictactoe_winner_rows() {
    let b = [Some(Cell::X), Some(Cell::X), Some(Cell::X), None, None, None, None, None, None];
    assert_eq!(check_winner(&b), Some(Cell::X));
}

#[test]
fn blackjack_hand_value() {
    let hand = [Card { value: 1, suit: 'S' }, Card { value: 13, suit: 'H' }];
    assert_eq!(hand_value(&hand), 21);
}

#[test]
fn as_char_shows_marks() {
    assert_eq!(Cell::X.as_char(), 'X');
    assert_eq!(Cell::O.as_char(), 'O');
}

#[test]
fn check_winner_columns_and_diagonals() {
    let col = [None, Some(Cell::O), None, None, Some(Cell::O), None, Some(Cell::X), Some(Cell::O), None];
    assert_eq!(check_winner(&col), Some(Cell::O));
    let diag = [Some(Cell::X), Some(Cell::O), Some(Cell::O), None, Some(Cell::X), None, None, None, Some(Cell::X)];
    assert_eq!(check_winner(&diag), Some(Cell::X));
    let none: Board = [None; 9];
    assert_eq!(check_winner(&none), None);
    let mixed = [Some(Cell::X), Some(Cell::O), Some(Cell::X), None, None, None, None, None, None];
    assert_eq!(check_winner(&mixed), None);
}

#[test]
fn place_changes_exactly_one_cell() {
    let mut g = GridGame::new();
    g.place(0, Cell::X).unwrap();
    let before = g.board();
    assert_eq!(g.place(4, Cell::O), Ok(()));
    let after = g.board();
    for i in 0..9 {
        if i == 4 {
            assert_eq!(after[i], Some(Cell::O));
        } else {
            assert_eq!(after[i], before[i]);
        }
    }
}

#[test]
fn place_rejects_occupied_and_out_of_range() {
    let mut g = GridGame::new();
    g.place(2, Cell::X).unwrap();
    let before = g.board();
    assert_eq!(g.place(2, Cell::O), Err(GameError::InvalidMove));
    assert_eq!(g.board(), before);
    assert_eq!(g.place(9, Cell::O), Err(GameError::InvalidMove));
    assert_eq!(g.board(), before);
}

#[test]
fn place_after_win_is_game_over() {
    let b = [Some(Cell::X), Some(Cell::X), Some(Cell::X), Some(Cell::O), Some(Cell::O), None, None, None, None];
    let mut g = GridGame::from_board(b);
    assert_eq!(g.status(), GameResult::Won(Cell::X));
    assert_eq!(g.place(5, Cell::O), Err(GameError::GameOver));
    assert_eq!(g.board(), b);
    assert_eq!(g.place(0, Cell::O), Err(GameError::InvalidMove));
}

#[test]
fn winner_at_ignores_other_cells() {
    let b = [Some(Cell::O), Some(Cell::X), Some(Cell::O), None, Some(Cell::X), Some(Cell::O), None, Some(Cell::X), None];
    let g = GridGame::from_board(b);
    assert_eq!(g.winner_at(1), Some(Cell::X));
    assert_eq!(g.winner_at(4), Some(Cell::X));
    assert_eq!(g.winner_at(7), Some(Cell::X));
    assert_eq!(g.winner_at(0), None);
    assert_eq!(g.winner_at(20), None);
}

#[test]
fn full_board_without_line_is_draw() {
    let x = Some(Cell::X);
    let o = Some(Cell::O);
    let b = [x, o, x, x, o, o, o, x, x];
    let g = GridGame::from_board(b);
    assert!(g.is_full());
    assert_eq!(check_winner(&b), None);
    assert_eq!(g.status(), GameResult::Draw);
}

#[test]
fn winning_final_move_wins_not_draws() {
    let x = Some(Cell::X);
    let o = Some(Cell::O);
    let mut g = GridGame::from_board([x, o, x, o, x, o, o, x, None]);
    assert_eq!(g.play(8, Cell::X), Ok(GameResult::Won(Cell::X)));
    assert!(g.is_full());
}

#[test]
fn play_reports_progress_and_draw() {
    let mut g = GridGame::new();
    assert_eq!(g.status(), GameResult::InProgress);
    assert_eq!(g.play(4, Cell::X), Ok(GameResult::InProgress));
    assert!(!g.is_full());
    let x = Some(Cell::X);
    let o = Some(Cell::O);
    let mut g = GridGame::from_board([x, o, x, x, o, o, o, x, None]);
    assert_eq!(g.play(8, Cell::X), Ok(GameResult::Draw));
    assert_eq!(g.play(8, Cell::O), Err(GameError::InvalidMove));
}

#[test]
fn ai_move_fills_first_empty_cell() {
    let mut b: Board = [Some(Cell::X), Some(Cell::O), None, None, None, None, None, None, None];
    ai_move(&mut b, Cell::O);
    assert_eq!(b[2], Some(Cell::O));
    assert_eq!(b[3], None);
    let full: Board = [Some(Cell::X); 9];
    let mut f = full;
    ai_move(&mut f, Cell::O);
    assert_eq!(f, full);
}

#[test]
fn score_of_empty_hand_is_zero() {
    assert_eq!(hand_value(&[]), 0);
}

#[test]
fn score_ace_and_king_is_21() {
    assert_eq!(hand_value(&[card(1), card(13)]), 21);
}

#[test]
fn score_four_aces_is_14() {
    assert_eq!(hand_value(&[card(1), card(1), card(1), card(1)]), 14);
}

#[test]
fn score_ten_and_nine_is_19() {
    assert_eq!(hand_value(&[card(10), card(9)]), 19);
}

#[test]
fn score_ignores_card_order() {
    let a = [card(1), card(5), card(12), card(1)];
    let b = [card(12), card(1), card(1), card(5)];
    assert_eq!(hand_value(&a), 17);
    assert_eq!(hand_value(&b), 17);
    assert_eq!(hand_value(&[card(9), card(1)]), hand_value(&[card(1), card(9)]));
}

#[test]
fn score_ace_falls_back_to_one() {
    assert_eq!(hand_value(&[card(9), card(8), card(1)]), 18);
    assert_eq!(hand_value(&[card(10), card(1), card(1)]), 22);
}

#[test]
fn card_value_caps_face_cards() {
    assert_eq!(card_value(card(11)), 10);
    assert_eq!(card_value(card(13)), 10);
    assert_eq!(card_value(card(7)), 7);
    assert_eq!(card_value(card(1)), 1);
}

#[test]
fn deck_holds_each_rank_in_four_suits() {
    let d = create_deck();
    assert_eq!(d.len(), 52);
    assert_eq!(d[0], Card { value: 1, suit: '\u{2660}' });
    assert_eq!(d[1], Card { value: 1, suit: '\u{2665}' });
    assert_eq!(d[51], Card { value: 13, suit: '\u{2663}' });
}

#[test]
fn shuffled_deck_keeps_cards_and_reorders() {
    let fresh = create_deck();
    let d = shuffled_deck();
    assert_eq!(d.len(), 52);
    for c in fresh.iter() {
        assert_eq!(d.iter().filter(|x| *x == c).count(), 1);
    }
    assert_ne!(d, fresh);
}

#[test]
fn rank_labels() {
    assert_eq!(rank_label(card(1)), "A");
    assert_eq!(rank_label(card(7)), "7");
    assert_eq!(rank_label(card(10)), "10");
    assert_eq!(rank_label(card(11)), "J");
    assert_eq!(rank_label(card(13)), "K");
}

#[test]
fn dealer_draws_until_seventeen() {
    let mut dealer = vec![card(5)];
    let deck = [card(2), card(3), card(4), card(6), card(9)];
    let next = dealer_play(&mut dealer, &deck, 0);
    assert_eq!(next, 4);
    assert_eq!(hand_value(&dealer), 20);
    let mut stands = vec![card(10), card(8)];
    assert_eq!(dealer_play(&mut stands, &deck, 1), 1);
    assert_eq!(stands.len(), 2);
    let mut short = vec![card(2)];
    assert_eq!(dealer_play(&mut short, &deck, 3), 5);
    assert_eq!(hand_value(&short), 17);
}

#[test]
fn round_outcomes() {
    assert_eq!(round_outcome(18, 22), RoundOutcome::PlayerWins);
    assert_eq!(round_outcome(20, 19), RoundOutcome::PlayerWins);
    assert_eq!(round_outcome(19, 19), RoundOutcome::Draw);
    assert_eq!(round_outcome(17, 20), RoundOutcome::DealerWins);
}

fn line_board(values: [u8; 3]) -> Vec<Slot> {
    let mut b: Vec<Slot> = vec![None; 9];
    b[0] = Some((0, values[0]));
    b[4] = Some((0, values[1]));
    b[8] = Some((0, values[2]));
    b
}

#[test]
fn line_summing_to_21_wins() {
    let b = line_board([5, 8, 8]);
    assert!(check_win(&b, 4));
    assert!(check_win(&b, 8));
    assert!(!check_win(&b, 1));
}

#[test]
fn line_summing_to_22_does_not_win() {
    let b = line_board([5, 8, 9]);
    assert!(!check_win(&b, 4));
}

#[test]
fn line_of_two_players_does_not_win() {
    let mut b = line_board([5, 8, 8]);
    b[8] = Some((1, 8));
    assert!(!check_win(&b, 8));
}

#[test]
fn tactic_deck_has_four_of_each_value() {
    let d = tactic_deck();
    assert_eq!(d.len(), 44);
    assert_eq!(&d[0..4], &[1, 1, 1, 1]);
    assert_eq!(&d[40..44], &[11, 11, 11, 11]);
    let s = shuffled_tactic_deck();
    for v in 1..=11u8 {
        assert_eq!(s.iter().filter(|x| **x == v).count(), 4);
    }
    assert_ne!(s, d);
}

#[test]
fn empty_positions_lists_free_cells() {
    let mut b: Vec<Slot> = vec![Some((0, 1)); 9];
    b[2] = None;
    b[7] = None;
    assert_eq!(empty_positions(&b), vec![2, 7]);
    for _ in 0..20 {
        let p = random_empty_position(&b).unwrap();
        assert!(p == 2 || p == 7);
    }
    let full: Vec<Slot> = vec![Some((1, 3)); 9];
    assert_eq!(random_empty_position(&full), None);
}

#[test]
fn play_card_moves_card_to_board() {
    let mut b: Vec<Slot> = vec![None; 9];
    b[0] = Some((0, 5));
    b[1] = Some((0, 8));
    let mut hand = vec![3, 8, 4];
    assert_eq!(play_card(&mut b, &mut hand, 0, 1, 2), Ok(true));
    assert_eq!(hand, vec![3, 4]);
    assert_eq!(b[2], Some((0, 8)));
    assert_eq!(play_card(&mut b, &mut hand, 1, 0, 3), Ok(false));
    assert_eq!(hand, vec![4]);
    assert_eq!(play_card(&mut b, &mut hand, 1, 0, 3), Err(GameError::InvalidMove));
    assert_eq!(play_card(&mut b, &mut hand, 1, 1, 5), Err(GameError::InvalidMove));
    assert_eq!(play_card(&mut b, &mut hand, 1, 0, 9), Err(GameError::InvalidMove));
    assert_eq!(hand, vec![4]);
    assert_eq!(b[5], None);
}
