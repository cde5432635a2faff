use skat_aug23::consts::{HEARTS, SPADES};
use skat_aug23::context::GameContext;
use skat_aug23::convert::BitConverter;
use skat_aug23::defs::{Game, Player};
use skat_aug23::move_order::{get_sorted_by_zugebung, get_sorted_main, get_suit_analysis};
use skat_aug23::position::Position;

fn position() -> Position {
    let ctx = GameContext::create(
        "CJ SA ST S7 HA".__bit(),
        "SK SQ H7 D7 DA".__bit(),
        "HK HQ DT D9 D8".__bit(),
        Game::Suit,
        Player::Declarer,
    );
    Position::create_initial_position(&ctx)
}

#[test]
fn suits_held_by_two_players_come_first() {
    let pos = position();
    let moves = pos.player_cards;
    let (arr, n) = get_sorted_by_zugebung(pos, moves);
    assert_eq!(n, 5);
    // Spades and hearts are held by two players; the jack of clubs by the declarer alone.
    assert_eq!(&arr[0..n], &["SA".__bit(), "ST".__bit(), "S7".__bit(), "HA".__bit(), "CJ".__bit()]);
}

#[test]
fn suit_analysis_counts_and_runs() {
    let spades = get_suit_analysis(SPADES, "SA ST S7".__bit(), "SK SQ".__bit(), 0);
    assert_eq!((spades.cnt_p1, spades.cnt_p2, spades.cnt_p3), (3, 2, 0));
    assert_eq!(spades.ups_p1, 2);
    assert_eq!(spades.factor, 6);
    let hearts = get_suit_analysis(HEARTS, "HA".__bit(), "H7".__bit(), "HK HQ".__bit());
    assert_eq!(hearts.factor, 20);
    assert_eq!(hearts.ups_p1, 1);
}

#[test]
fn main_order_leads_trump_and_keeps_every_move() {
    let pos = position();
    let moves = pos.player_cards;
    let (arr, n) = get_sorted_main(pos, moves, Game::Suit);
    assert_eq!(n, 5);
    assert_eq!(arr[0], "CJ".__bit());
    let mut all = 0u32;
    for c in &arr[0..n] {
        assert_eq!(all & c, 0);
        all |= c;
    }
    assert_eq!(all, moves);
}
