use skat_aug23::consts::{
    ACEOFCLUBS, ACEOFHEARTS, ACEOFSPADES, ALLCARDS, CLUBS, DIAMONDS, FARB_CONN, FARB_CONN_EQ,
    GRAND_CONN, HEARTS, NULL_CLUBS, NULL_CONN_EQ, NULL_DIAMONDS, NULL_HEARTS, NULL_SPADES, SPADES,
    TRUMP_FARBE, TRUMP_GRAND,
};
use skat_aug23::convert::BitConverter;
use skat_aug23::defs::{Game, Player};
use skat_aug23::position::Position;
use skat_aug23::context::GameContext;
use skat_aug23::rules::{
    get_connections, get_hash, get_legal_moves, get_reduced_equal_core, get_trick_winner,
};

#[test]
fn easy() {
    let x = get_connections("CA CT CK".__bit(), "CA CT CK CQ C9 C8 C7 SA ST".__bit(), &FARB_CONN);
    assert_eq!(x[0].0, 1);
    assert_eq!(x[0].1, 0);
    assert_eq!(x[0].2, 0);
    assert_eq!(x[1].0, "CA CT CK".__bit());
    assert_eq!(x[1].1, "CA".__bit());
    assert_eq!(x[1].2, "CK".__bit());
    assert_eq!(x[2].0, 0);
    assert_eq!(x[2].1, 0);
    assert_eq!(x[2].2, 0);
}

#[test]
fn advanced() {
    let x = get_connections("DJ CA CT".__bit(), "DJ CA CT CQ C9 C8 C7 SA ST".__bit(), &FARB_CONN);
    assert_eq!(x[0].0, 1);
    assert_eq!(x[0].1, 0);
    assert_eq!(x[0].2, 0);
    assert_eq!(x[1].0, "DJ CA CT".__bit());
    assert_eq!(x[1].1, "CA".__bit());
    assert_eq!(x[1].2, "DJ".__bit());
    assert_eq!(x[2].0, 0);
    assert_eq!(x[2].1, 0);
    assert_eq!(x[2].2, 0);
}

#[test]
fn advanced_2() {
    let x = get_connections("DJ CA CK".__bit(), "DJ CA CK CQ C9 C8 C7 SA ST".__bit(), &FARB_CONN);
    assert_eq!(x[0].0, 1);
    assert_eq!(x[0].1, 0);
    assert_eq!(x[0].2, 0);
    assert_eq!(x[1].0, "DJ CA CK".__bit());
    assert_eq!(x[1].1, "CA".__bit());
    assert_eq!(x[1].2, "DJ".__bit());
    assert_eq!(x[2].0, 0);
    assert_eq!(x[2].1, 0);
    assert_eq!(x[2].2, 0);
}

#[test]
fn advanced_3() {
    let x = get_connections(
        "DJ CA CK".__bit(),
        "\
                    DJ CA CK | \
                    CT C9 C8 | \
                    C7 SA ST"
            .__bit(),
        &FARB_CONN,
    );
    assert_eq!(x[0].0, 1);
    assert_eq!(x[0].1, "CK".__bit());
    assert_eq!(x[0].2, x[0].1);
    assert_eq!(x[1].0, "DJ CA".__bit());
    assert_eq!(x[1].1, "CA".__bit());
    assert_eq!(x[1].2, "DJ".__bit());
    assert_eq!(x[2].0, 0);
    assert_eq!(x[2].1, 0);
    assert_eq!(x[2].2, 0);
}

#[test]
fn advanced_4() {
    let x = get_connections(
        "CK CQ C7 SA ST".__bit(),
        "\
                    CK CQ C7 SA ST | \
                    H9 H8 H7 DA DT | \
                    S9 S8 S7 HA HT"
            .__bit(),
        &FARB_CONN,
    );
    assert_eq!(x[0].0, 2);
    assert_eq!(x[0].1, 0);
    assert_eq!(x[0].2, x[0].1);
    assert_eq!(x[1].0, "CK CQ C7".__bit());
    assert_eq!(x[1].1, "CK".__bit());
    assert_eq!(x[1].2, "C7".__bit());
    assert_eq!(x[2].0, "SA ST".__bit());
    assert_eq!(x[2].1, "SA".__bit());
    assert_eq!(x[2].2, "ST".__bit());
    assert_eq!(x[3].0, 0);
    assert_eq!(x[3].1, 0);
    assert_eq!(x[3].2, 0);
}

#[test]
fn advanced_5() {
    let x = get_connections(
        "C9 C8 C7 SA ST".__bit(),
        "\
                    C9 C8 C7 SA ST | \
                    H9 H8 H7 DA DT | \
                    S9 S8 S7 HA HT"
            .__bit(),
        &FARB_CONN,
    );
    assert_eq!(x[0].0, 2);
    assert_eq!(x[0].1, 0);
    assert_eq!(x[0].2, x[0].1);
    assert_eq!(x[1].0, "C9 C8 C7".__bit());
    assert_eq!(x[1].1, "C9".__bit());
    assert_eq!(x[1].2, "C7".__bit());
    assert_eq!(x[2].0, "SA ST".__bit());
    assert_eq!(x[2].1, "SA".__bit());
    assert_eq!(x[2].2, "ST".__bit());
    assert_eq!(x[3].0, 0);
    assert_eq!(x[3].1, 0);
    assert_eq!(x[3].2, 0);
}

#[test]
fn advanced_6() {
    let x = get_connections(
        "CK CQ C7 SA ST".__bit(),
        "\
                    CK CQ C7 SA ST | \
                    C9 H8 H7 DA DT | \
                    S9 S8 S7 HA HT"
            .__bit(),
        &FARB_CONN,
    );
    assert_eq!(x[0].0, 2);
    assert_eq!(x[0].1, "C7".__bit());
    assert_eq!(x[0].2, x[0].1);
    assert_eq!(x[1].0, "CK CQ".__bit());
    assert_eq!(x[1].1, "CK".__bit());
    assert_eq!(x[1].2, "CQ".__bit());
    assert_eq!(x[2].0, "SA ST".__bit());
    assert_eq!(x[2].1, "SA".__bit());
    assert_eq!(x[2].2, "ST".__bit());
    assert_eq!(x[3].0, 0);
    assert_eq!(x[3].1, 0);
    assert_eq!(x[3].2, 0);
}

#[test]
fn grand_1() {
    let x = get_connections(
        "SJ DJ CT CQ D7".__bit(),
        "\
                    SJ DJ CT CQ D7| \
                    HA HT H9 H8 D8| \
                    SA ST S9 S8 D9"
            .__bit(),
        &GRAND_CONN,
    );
    assert_eq!(x[0].0, 2);
    assert_eq!(x[0].1, "D7".__bit());
    assert_eq!(x[0].2, x[0].1);
    assert_eq!(x[1].0, "SJ DJ".__bit());
    assert_eq!(x[1].1, "SJ".__bit());
    assert_eq!(x[1].2, "DJ".__bit());
    assert_eq!(x[2].0, "CT CQ".__bit());
    assert_eq!(x[2].1, "CT".__bit());
    assert_eq!(x[2].2, "CQ".__bit());
    assert_eq!(x[3].0, 0);
    assert_eq!(x[3].1, 0);
    assert_eq!(x[3].2, 0);
}

#[test]
fn calc_one_hash() {
    let x = get_hash(Player::Declarer, ACEOFSPADES, ACEOFCLUBS, ACEOFHEARTS, 0);
    println!("{}", x);
    assert!(x > 0);
}

fn get_hand() -> u32 {
    "[CJ DJ CA CT CQ SA ST HK HQ]".__bit()
}

fn position_with_trick_suit(trick_suit: u32) -> Position {
    Position::new(Player::Declarer, 0, 0, trick_suit, 0, 0, 0, 0, get_hand(), 0, 0, 0, false)
}

#[test]
fn farb() {
    let hand = get_hand();
    let trump = get_legal_moves(TRUMP_FARBE, hand);
    let spades = get_legal_moves(SPADES, hand);
    let hearts = get_legal_moves(HEARTS, hand);
    let diamonds = get_legal_moves(DIAMONDS, hand);
    assert_eq!(trump, "[CJ DJ CA CT CQ]".__bit());
    assert_eq!(spades, "[SA ST]".__bit());
    assert_eq!(hearts, "[HK HQ]".__bit());
    assert_eq!(diamonds, hand);
}

#[test]
fn grand() {
    let hand = get_hand();
    let trumpgrand = get_legal_moves(TRUMP_GRAND, hand);
    let clubs = get_legal_moves(CLUBS, hand);
    assert_eq!(trumpgrand, "[CJ DJ]".__bit());
    assert_eq!(clubs, "[CA CT CQ]".__bit());
}

#[test]
fn null() {
    let hand = get_hand();
    let clubs = get_legal_moves(NULL_CLUBS, hand);
    let spades = get_legal_moves(NULL_SPADES, hand);
    let hearts = get_legal_moves(NULL_HEARTS, hand);
    let diamonds = get_legal_moves(NULL_DIAMONDS, hand);
    assert_eq!(clubs, "[CJ CA CT CQ]".__bit());
    assert_eq!(spades, "[SA ST]".__bit());
    assert_eq!(hearts, "[HK HQ]".__bit());
    assert_eq!(diamonds, "[DJ]".__bit());
}

#[test]
fn from_state() {
    let state_empty = position_with_trick_suit(0);
    let state_not_empty = position_with_trick_suit(TRUMP_GRAND);
    let trick_empty = state_empty.get_legal_moves();
    let trick_not_empty = state_not_empty.get_legal_moves();
    assert_eq!(trick_empty, get_hand());
    assert_eq!(trick_not_empty, "[CJ DJ]".__bit());
}

#[test]
fn test_easiest() {
    let res = get_reduced_equal_core("CJ SJ HJ DJ CA CT CK CQ".__bit(), ALLCARDS, &FARB_CONN_EQ);
    assert_eq!(res, "CJ CA CT CK CQ".__bit());
}

#[test]
fn test_movecard_to_hole() {
    let res = get_reduced_equal_core(
        "CJ HJ DJ CA CT CK CQ".__bit(),
        ALLCARDS & !"SJ".__bit(),
        &FARB_CONN_EQ,
    );
    assert_eq!(res, "CJ CA CT CK CQ".__bit());
}

#[test]
fn test_null_easy() {
    let res = get_reduced_equal_core("CA CK C9 C8 C7".__bit(), ALLCARDS, &NULL_CONN_EQ);
    assert_eq!(res, "CA C9".__bit());
}

#[test]
fn test_null_add_ten() {
    let res = get_reduced_equal_core("CA CT CK C9 C8 C7".__bit(), ALLCARDS, &NULL_CONN_EQ);
    assert_eq!(res, "CA CT".__bit());
}

#[test]
fn standard() {
    let winner = get_trick_winner(
        0b_1110_0000000_0000000_0000000_0000000u32,
        TRUMP_FARBE,
        Game::Suit,
        0b_1000_0000000_0000000_0000000_0000000u32,
        0b_0100_0000000_0000000_0000000_0000000u32,
        0b_0010_0000000_0000000_0000000_0000000u32,
    );
    assert_eq!(winner, Player::Declarer);
}

#[test]
fn trump() {
    let winner = get_trick_winner(
        0b_0000_0000001_1100000_0000000_0000000u32,
        SPADES,
        Game::Suit,
        0b_0000_0000000_1000000_0000000_0000000u32,
        0b_0000_0000001_0000000_0000000_0000000u32,
        0b_0000_0000000_0100000_0000000_0000000u32,
    );
    assert_eq!(winner, Player::Left);
}

#[test]
fn rotate() {
    let arr = [(SPADES, Player::Declarer), (HEARTS, Player::Left), (DIAMONDS, Player::Right)];
    for el in &arr {
        let winner = get_trick_winner(
            0b_0000_0000000_1000000_0001000_0000001u32,
            el.0,
            Game::Suit,
            0b_0000_0000000_1000000_0000000_0000000u32,
            0b_0000_0000000_0000000_0001000_0000000u32,
            0b_0000_0000000_0000000_0000000_0000001u32,
        );
        assert_eq!(winner, el.1);
    }
}

#[test]
fn ueberstich() {
    let winner = get_trick_winner(
        0b_0000_0000011_1000000_0000000_0000000u32,
        SPADES,
        Game::Suit,
        0b_0000_0000001_0000000_0000000_0000000u32,
        0b_0000_0000010_0000000_0000000_0000000u32,
        0b_0000_0000000_1000000_0000000_0000000u32,
    );
    assert_eq!(winner, Player::Left);
}

#[test]
fn get_trick_winner_ueberstich() {
    let winner = get_trick_winner(
        0b_0011_1000000_0000000_0000000_0000000u32,
        CLUBS,
        Game::Grand,
        0b_0001_0000000_0000000_0000000_0000000u32,
        0b_0000_1000000_0000000_0000000_0000000u32,
        0b_0010_0000000_0000000_0000000_0000000u32,
    );
    assert_eq!(winner, Player::Right);
}

#[test]
fn clubs_no_trump() {
    let winner = get_trick_winner(
        0b_0000_1000000_1100000_0000000_0000000u32,
        SPADES,
        Game::Grand,
        0b_0000_1000000_0000000_0000000_0000000u32,
        0b_0000_0000000_1000000_0000000_0000000u32,
        0b_0000_0000000_0100000_0000000_0000000u32,
    );
    assert_eq!(winner, Player::Left);
}

#[test]
fn einreihung_1() {
    let winner = get_trick_winner(
        0b_1000_0101000_0000000_0000000_0000000u32,
        NULL_CLUBS,
        Game::Null,
        0b_1000_0000000_0000000_0000000_0000000u32,
        0b_0000_0100000_0000000_0000000_0000000u32,
        0b_0000_0001000_0000000_0000000_0000000u32,
    );
    assert_eq!(winner, Player::Right);
}

#[test]
fn validate_names_the_unequal_hand_sizes() {
    let ctx = GameContext::create("CA CT".__bit(), "SA".__bit(), "HA".__bit(), Game::Suit, Player::Declarer);
    assert_eq!(
        ctx.validate(),
        Err("Card counts mismatch: Declarer=2, Left=1, Right=1. They must be equal when no trick is active.".to_string())
    );
}
