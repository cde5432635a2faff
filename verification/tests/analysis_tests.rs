use skat_aug23::analysis::{analyze_random_hand, best_option, best_variant, discard_options};
use skat_aug23::best_game::{calculate_best_game, BestGameError};
use skat_aug23::consts::{CLUBS, HEARTS, TRUMP_GRAND, TRUMP_SUIT};
use skat_aug23::convert::BitConverter;
use skat_aug23::defs::{Game, Player};
use skat_aug23::input::{context_from_input, trick_suit_from_name};

#[test]
fn discard_options_pair_each_two_cards() {
    let cards = "CA ST D7".__bit();
    let options = discard_options(cards);
    assert_eq!(options.len(), 3);
    let d7 = "D7".__bit();
    let st = "ST".__bit();
    let ca = "CA".__bit();
    assert_eq!(options[0], (ca, d7 | st));
    assert_eq!(options[1], (st, d7 | ca));
    assert_eq!(options[2], (d7, st | ca));
}

#[test]
fn best_option_takes_the_last_of_the_most_wins() {
    assert_eq!(best_option(&vec![Some(3), Some(5), Some(5), Some(1)]), Some(2));
    assert_eq!(best_option(&vec![Some(3), None]), None);
    assert_eq!(best_option(&vec![]), None);
}

#[test]
fn best_variant_takes_the_first_of_the_most_wins() {
    assert_eq!(best_variant(&[1, 4, 4, 0, 2, 3]), 1);
    assert_eq!(best_variant(&[0, 0, 0, 0, 0, 0]), 0);
    assert_eq!(best_variant(&[0, 0, 0, 0, 0, 9]), 5);
}

#[test]
fn best_game_needs_ten_cards() {
    match calculate_best_game("CJ SJ", Player::Declarer, 1) {
        Err(e) => assert_eq!(e, BestGameError::WrongCardCount(2)),
        Ok(_) => panic!("two cards are not a hand"),
    }
}

#[test]
fn suits_are_named_in_lower_case() {
    assert_eq!(trick_suit_from_name("clubs", Game::Suit), CLUBS);
    assert_eq!(trick_suit_from_name("h", Game::Suit), HEARTS);
    assert_eq!(trick_suit_from_name("trump", Game::Grand), TRUMP_GRAND);
    assert_eq!(trick_suit_from_name("t", Game::Suit), TRUMP_SUIT);
    assert_eq!(trick_suit_from_name("Clubs", Game::Suit), 0);
    assert_eq!(trick_suit_from_name("x", Game::Suit), 0);
}

#[test]
fn skat_points_count_for_the_declarer_of_thirty_cards() {
    let d = "CJ SJ HJ DJ CA CT CK CQ C9 C8".__bit();
    let l = "SA ST SK SQ S9 S8 S7 HA HT HK".__bit();
    let r = "HQ H9 H8 H7 DA DT DK DQ D9 D8".__bit();
    // The skat holds C7 and D7: no points.
    let (ctx, from_skat) = context_from_input(d, l, r, Game::Suit, Player::Declarer, None, None, None, 120);
    assert_eq!(from_skat, Some(0));
    assert_eq!(ctx.declarer_start_points, 0);
    assert_eq!(ctx.threshold_upper, 120);
    let l2 = "SA ST SK SQ S9 S8 S7 HA HT C7".__bit();
    let (ctx, from_skat) = context_from_input(d, l2, r, Game::Suit, Player::Left, None, None, None, 61);
    assert_eq!(from_skat, Some(4));
    assert_eq!(ctx.declarer_start_points, 4);
    let (ctx, from_skat) = context_from_input(d, l2, r, Game::Null, Player::Left, None, None, None, 61);
    assert_eq!(from_skat, None);
    assert_eq!(ctx.declarer_start_points, 0);
    let (ctx, from_skat) = context_from_input(d, l2, r, Game::Suit, Player::Left, Some(0), Some(CLUBS), Some(7), 61);
    assert_eq!(from_skat, None);
    assert_eq!(ctx.declarer_start_points, 7);
    assert_eq!(ctx.trick_suit, CLUBS);
}

#[test]
fn random_hand_always_gives_an_analysis() {
    let a = analyze_random_hand(0).expect("every random deal can be played");
    assert_eq!(a.my_hand.count_ones(), 10);
    assert_eq!(a.wins, [0, 0, 0, 0, 0, 0]);
    assert_eq!(a.best_variant, 0);
}

#[test]
fn twelve_cards_give_sixty_six_discard_options() {
    let options = discard_options("CJ SJ HJ DJ CA CT CK CQ C9 C8 C7 SA".__bit());
    assert_eq!(options.len(), 66);
}
