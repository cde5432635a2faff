use skat_aug23::cli_playout::{
    highest_bit, null_rank, run_perfect_play, would_win_trick_null, would_win_trick_regular,
    FactsTracker,
};
use skat_aug23::consts::{CLUBS, NULL_CLUBS, SPADES, TRUMP_SUIT};
use skat_aug23::convert::BitConverter;
use skat_aug23::defs::{Game, Player};
use skat_aug23::pimc_problem_builder::PimcProblemBuilder;

#[test]
fn highest_card_of_a_set() {
    assert_eq!(highest_bit("HA D7".__bit()), "HA".__bit());
    assert_eq!(highest_bit("CJ D7".__bit()), "CJ".__bit());
    assert_eq!(highest_bit(0), 0);
}

#[test]
fn third_card_takes_the_trick() {
    let trick = "SA SK".__bit();
    assert!(would_win_trick_regular("C7".__bit(), trick, SPADES, Game::Suit));
    assert!(!would_win_trick_regular("D7".__bit(), trick, SPADES, Game::Suit));
    assert!(!would_win_trick_regular("S7".__bit(), trick, SPADES, Game::Grand));
    assert!(!would_win_trick_regular("H7".__bit(), trick, SPADES, Game::Grand));
    let trumped = "SA C7".__bit();
    assert!(would_win_trick_regular("CA".__bit(), trumped, SPADES, Game::Suit));
    assert!(!would_win_trick_regular("C8".__bit() >> 1, trumped, SPADES, Game::Suit));
    assert!(!would_win_trick_regular("CA".__bit(), 0, SPADES, Game::Suit));
}

#[test]
fn null_ranks_and_null_tricks() {
    assert_eq!(null_rank("C7".__bit()), 1);
    assert_eq!(null_rank("CJ".__bit()), 4);
    assert_eq!(null_rank("CT".__bit()), 7);
    assert_eq!(null_rank("CA".__bit()), 8);
    assert!(would_win_trick_null("CK".__bit(), NULL_CLUBS, "CJ".__bit()));
    assert!(!would_win_trick_null("C9".__bit(), NULL_CLUBS, "CJ".__bit()));
    assert!(!would_win_trick_null("SA".__bit(), NULL_CLUBS, "CJ".__bit()));
    assert!(!would_win_trick_null("CA".__bit(), 0, "CJ".__bit()));
}

#[test]
fn voids_are_recorded_for_the_player() {
    let mut t = FactsTracker::new();
    t.update_voids("HA".__bit(), Player::Left, TRUMP_SUIT, Game::Suit);
    assert!(t.left.no_trump && !t.declarer.no_trump && !t.right.no_trump);
    t.update_voids("HA".__bit(), Player::Right, SPADES, Game::Suit);
    assert!(t.right.no_spades);
    t.update_voids("CA".__bit(), Player::Declarer, CLUBS, Game::Grand);
    assert!(!t.declarer.no_clubs);
    t.update_voids("CA".__bit(), Player::Declarer, 0, Game::Grand);
    assert!(!t.declarer.no_clubs);
}

#[test]
fn perfect_play_takes_all_tricks() {
    let up = PimcProblemBuilder::new_farbspiel()
        .cards(Player::Declarer, "CJ SJ D7")
        .remaining_cards("HJ DJ DA DT H7 H8")
        .threshold_half()
        .build();
    let ctx = up.generate_concrete_problem();
    let play = run_perfect_play(&ctx);
    assert_eq!(play.tricks.len(), 3);
    assert!(play.result >= 0 && play.result <= 29);
}
