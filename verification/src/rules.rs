//! The rules of Skat on card sets: legal moves, suits, trick winners, hashing, move
//! sorting and the reduction of equivalent moves.
use vstd::prelude::*;
use crate::cards::{
    bit, card_count, cards_of, has_card, is_card, lemma_cards_of_members, lemma_set_algebra,
    lemma_empty_set, lemma_highest, lemma_union, subset,
};
use crate::consts::{
    ACES, CLUBS, DIAMONDS, EIGHTS, HEARTS, HSH_INIT, HSH_MUL, JACKOFCLUBS, JACKS, KINGS, NINES,
    NULL_CLUBS, NULL_DIAMONDS, NULL_HEARTS, NULL_SPADES, QUEENS, SEVENS, SPADES, TENS, TRUMP_GRAND,
    TRUMP_SUIT, TT_SIZE, TT_SIZE_U64, FARB_CONN, GRAND_CONN, FARB_CONN_EQ, GRAND_CONN_EQ,
    NULL_CONN_EQ,
};
use crate::defs::{Game, Player, player_index, trump_of};

verus! {

/// Row 0: number of connections, single moves, single moves.
/// Rows 1 to n: connection pattern, its highest card, its lowest card. Then zero rows.
pub type Connections = [(u32, u32, u32); 7];

// -----------------------------------------------------------------------------
// UNPLAYED CARDS AND HANDS
// -----------------------------------------------------------------------------

/// All cards still in the hands of the three players.
pub fn get_all_unplayed_cards(declarer_cards: u32, left_cards: u32, right_cards: u32) -> (r: u32)
    ensures
        r == declarer_cards | left_cards | right_cards,
{
    declarer_cards | left_cards | right_cards
}

/// The hand of `player` among the three hands.
pub open spec fn cards_for_player(
    declarer_cards: u32,
    left_cards: u32,
    right_cards: u32,
    player: Player,
) -> u32 {
    match player {
        Player::Declarer => declarer_cards,
        Player::Left => left_cards,
        Player::Right => right_cards,
    }
}

/// The hand of `player` among the three hands.
pub fn get_cards_for_player(
    declarer_cards: u32,
    left_cards: u32,
    right_cards: u32,
    player: Player,
) -> (r: u32)
    ensures
        r == cards_for_player(declarer_cards, left_cards, right_cards, player),
{
    match player {
        Player::Declarer => declarer_cards,
        Player::Left => left_cards,
        Player::Right => right_cards,
    }
}

// -----------------------------------------------------------------------------
// HASHING
// -----------------------------------------------------------------------------

/// One FNV step on the low byte of `x`.
pub open spec fn fnv_byte(h: u64, x: u64) -> u64 {
    (h ^ (x & 0xFFu64)).wrapping_mul(HSH_MUL)
}

/// Four FNV steps on the bytes of `w`, lowest byte first.
pub open spec fn fnv_word(h: u64, w: u32) -> u64 {
    let x = w as u64;
    fnv_byte(fnv_byte(fnv_byte(fnv_byte(h, x), x >> 8u64), x >> 16u64), x >> 24u64)
}

/// The FNV hash of four card sets and a player.
pub open spec fn hash_of(player: Player, a: u32, b: u32, c: u32, d: u32) -> u64 {
    fnv_byte(
        fnv_word(fnv_word(fnv_word(fnv_word(HSH_INIT, a), b), c), d),
        player_index(player) as u64,
    )
}

proof fn lemma_shifts(x: u64)
    by (bit_vector)
    ensures
        (x >> 8u64) >> 8u64 == x >> 16u64,
        (x >> 16u64) >> 8u64 == x >> 24u64,
{
}

fn hash_word(hash: u64, w: u32) -> (r: u64)
    ensures
        r == fnv_word(hash, w),
{
    let mut h = hash;
    let mut x = w as u64;
    let ghost x0 = x;
    proof {
        lemma_shifts(x0);
    }
    h ^= x & 0xFF;
    h = h.wrapping_mul(HSH_MUL);
    x >>= 8;
    h ^= x & 0xFF;
    h = h.wrapping_mul(HSH_MUL);
    x >>= 8;
    h ^= x & 0xFF;
    h = h.wrapping_mul(HSH_MUL);
    x >>= 8;
    h ^= x & 0xFF;
    h = h.wrapping_mul(HSH_MUL);
    h
}

/// The FNV hash of four card sets and a player.
pub fn get_hash(
    player: Player,
    left_cards: u32,
    right_cards: u32,
    declarer_cards: u32,
    trick_cards: u32,
) -> (r: u64)
    ensures
        r == hash_of(player, left_cards, right_cards, declarer_cards, trick_cards),
{
    let mut hash = HSH_INIT;
    hash = hash_word(hash, left_cards);
    hash = hash_word(hash, right_cards);
    hash = hash_word(hash, declarer_cards);
    hash = hash_word(hash, trick_cards);
    let p: u64 = match player {
        Player::Declarer => 0,
        Player::Left => 1,
        Player::Right => 2,
    };
    hash ^= p & 0xFF;
    hash = hash.wrapping_mul(HSH_MUL);
    hash
}

/// The slot of the transposition table for a hash.
pub fn get_mapped_hash(hash: u64) -> (r: usize)
    ensures
        r == hash % (TT_SIZE as u64),
        r < TT_SIZE,
{
    let mapped_hash = hash % TT_SIZE_U64;
    mapped_hash as usize
}

// -----------------------------------------------------------------------------
// LEGAL MOVES
// -----------------------------------------------------------------------------

/// The cards a player may play: those of the led suit if there are any, else all.
pub open spec fn legal_moves(trick_suit: u32, player_cards: u32) -> u32 {
    if trick_suit & player_cards != 0 {
        trick_suit & player_cards
    } else {
        player_cards
    }
}

/// The cards a player may play: those of the led suit if there are any, else all.
pub fn get_legal_moves(trick_suit: u32, player_cards: u32) -> (r: u32)
    ensures
        r == legal_moves(trick_suit, player_cards),
        subset(r, player_cards),
        player_cards != 0 ==> r != 0,
{
    let mapped_player_cards = trick_suit & player_cards;
    proof {
        lemma_set_algebra(trick_suit, player_cards, 0);
        lemma_set_algebra(player_cards, 0, 0);
    }
    if mapped_player_cards > 0 {
        mapped_player_cards
    } else {
        player_cards
    }
}

// -----------------------------------------------------------------------------
// SUIT DETERMINATION
// -----------------------------------------------------------------------------

/// The suit that a card belongs to in a game; trump counts as a suit of its own.
pub open spec fn suit_for_card(card: u32, game_type: Game) -> u32 {
    match game_type {
        Game::Suit => if TRUMP_SUIT & card != 0 {
            TRUMP_SUIT
        } else if SPADES & card != 0 {
            SPADES
        } else if HEARTS & card != 0 {
            HEARTS
        } else if DIAMONDS & card != 0 {
            DIAMONDS
        } else {
            0
        },
        Game::Grand => if TRUMP_GRAND & card != 0 {
            TRUMP_GRAND
        } else if CLUBS & card != 0 {
            CLUBS
        } else if SPADES & card != 0 {
            SPADES
        } else if HEARTS & card != 0 {
            HEARTS
        } else if DIAMONDS & card != 0 {
            DIAMONDS
        } else {
            0
        },
        Game::Null => if NULL_CLUBS & card != 0 {
            NULL_CLUBS
        } else if NULL_SPADES & card != 0 {
            NULL_SPADES
        } else if NULL_HEARTS & card != 0 {
            NULL_HEARTS
        } else if NULL_DIAMONDS & card != 0 {
            NULL_DIAMONDS
        } else {
            0
        },
    }
}

/// The suit that a card belongs to in a game; trump counts as a suit of its own.
pub fn get_suit_for_card(card: u32, game_type: Game) -> (r: u32)
    ensures
        r == suit_for_card(card, game_type),
{
    match game_type {
        Game::Suit => {
            if TRUMP_SUIT & card != 0 {
                TRUMP_SUIT
            } else if SPADES & card != 0 {
                SPADES
            } else if HEARTS & card != 0 {
                HEARTS
            } else if DIAMONDS & card != 0 {
                DIAMONDS
            } else {
                0u32
            }
        },
        Game::Grand => {
            if TRUMP_GRAND & card != 0 {
                TRUMP_GRAND
            } else if CLUBS & card != 0 {
                CLUBS
            } else if SPADES & card != 0 {
                SPADES
            } else if HEARTS & card != 0 {
                HEARTS
            } else if DIAMONDS & card != 0 {
                DIAMONDS
            } else {
                0u32
            }
        },
        Game::Null => {
            if NULL_CLUBS & card != 0 {
                NULL_CLUBS
            } else if NULL_SPADES & card != 0 {
                NULL_SPADES
            } else if NULL_HEARTS & card != 0 {
                NULL_HEARTS
            } else if NULL_DIAMONDS & card != 0 {
                NULL_DIAMONDS
            } else {
                0u32
            }
        },
    }
}

// -----------------------------------------------------------------------------
// TRICK WINNER
// -----------------------------------------------------------------------------

/// The rank of a card in a null game (seven lowest, ace highest); 0 for no card.
pub open spec fn null_rank(card: u32) -> Option<u32> {
    if SEVENS & card != 0 {
        Some(1)
    } else if EIGHTS & card != 0 {
        Some(2)
    } else if NINES & card != 0 {
        Some(3)
    } else if TENS & card != 0 {
        Some(4)
    } else if JACKS & card != 0 {
        Some(5)
    } else if QUEENS & card != 0 {
        Some(6)
    } else if KINGS & card != 0 {
        Some(7)
    } else if ACES & card != 0 {
        Some(8)
    } else if card == 0 {
        Some(0)
    } else {
        None
    }
}

/// The player with the strongest card of the deciding suit; the declarer wins ties.
pub open spec fn winner_of(lead_declarer: u32, lead_left: u32, lead_right: u32) -> Player {
    if lead_left > lead_declarer || lead_right > lead_declarer {
        if lead_left < lead_right {
            Player::Right
        } else {
            Player::Left
        }
    } else {
        Player::Declarer
    }
}

/// Strength of a player's card of the deciding suit: the card itself, or its null rank.
pub open spec fn lead_strength(game_type: Game, lead: u32) -> u32 {
    if game_type == Game::Null {
        match null_rank(lead) {
            Some(v) => v,
            None => 0,
        }
    } else {
        lead
    }
}

/// The winner of a trick: trump decides if any was played, else the led suit; within it the
/// higher card wins (by rank order in a null game).
pub open spec fn trick_winner(
    trick_cards: u32,
    trick_suit: u32,
    game_type: Game,
    declarer_cards_all: u32,
    left_cards_all: u32,
    right_cards_all: u32,
) -> Player {
    let trump = trump_of(game_type);
    let effective_suit = if trick_cards & trump != 0 {
        trump
    } else {
        trick_suit
    };
    let lead_cards = effective_suit & trick_cards;
    winner_of(
        lead_strength(game_type, lead_cards & declarer_cards_all),
        lead_strength(game_type, lead_cards & left_cards_all),
        lead_strength(game_type, lead_cards & right_cards_all),
    )
}

/// The mask of a suit in a null game, where the jack belongs to its suit: clubs, spades,
/// hearts, diamonds for `s` from 0 to 3.
pub open spec fn null_suit_mask(s: int) -> u32 {
    if s == 0 {
        NULL_CLUBS
    } else if s == 1 {
        NULL_SPADES
    } else if s == 2 {
        NULL_HEARTS
    } else {
        NULL_DIAMONDS
    }
}

/// The card of suit `s` (clubs, spades, hearts, diamonds) at place `k` of the null order
/// 7, 8, 9, 10, J, Q, K, A, lowest first.
pub open spec fn null_ladder_card(s: int, k: int) -> u32 {
    if s == 0 && k == 0 {
        crate::consts::SEVENOFCLUBS
    } else if s == 0 && k == 1 {
        crate::consts::EIGHTOFCLUBS
    } else if s == 0 && k == 2 {
        crate::consts::NINEOFCLUBS
    } else if s == 0 && k == 3 {
        crate::consts::TENOFCLUBS
    } else if s == 0 && k == 4 {
        crate::consts::JACKOFCLUBS
    } else if s == 0 && k == 5 {
        crate::consts::QUEENOFCLUBS
    } else if s == 0 && k == 6 {
        crate::consts::KINGOFCLUBS
    } else if s == 0 && k == 7 {
        crate::consts::ACEOFCLUBS
    } else if s == 1 && k == 0 {
        crate::consts::SEVENOFSPADES
    } else if s == 1 && k == 1 {
        crate::consts::EIGHTOFSPADES
    } else if s == 1 && k == 2 {
        crate::consts::NINEOFSPADES
    } else if s == 1 && k == 3 {
        crate::consts::TENOFSPADES
    } else if s == 1 && k == 4 {
        crate::consts::JACKOFSPADES
    } else if s == 1 && k == 5 {
        crate::consts::QUEENOFSPADES
    } else if s == 1 && k == 6 {
        crate::consts::KINGOFSPADES
    } else if s == 1 && k == 7 {
        crate::consts::ACEOFSPADES
    } else if s == 2 && k == 0 {
        crate::consts::SEVENOFHEARTS
    } else if s == 2 && k == 1 {
        crate::consts::EIGHTOFHEARTS
    } else if s == 2 && k == 2 {
        crate::consts::NINEOFHEARTS
    } else if s == 2 && k == 3 {
        crate::consts::TENOFHEARTS
    } else if s == 2 && k == 4 {
        crate::consts::JACKOFHEARTS
    } else if s == 2 && k == 5 {
        crate::consts::QUEENOFHEARTS
    } else if s == 2 && k == 6 {
        crate::consts::KINGOFHEARTS
    } else if s == 2 && k == 7 {
        crate::consts::ACEOFHEARTS
    } else if s == 3 && k == 0 {
        crate::consts::SEVENOFDIAMONDS
    } else if s == 3 && k == 1 {
        crate::consts::EIGHTOFDIAMONDS
    } else if s == 3 && k == 2 {
        crate::consts::NINEOFDIAMONDS
    } else if s == 3 && k == 3 {
        crate::consts::TENOFDIAMONDS
    } else if s == 3 && k == 4 {
        crate::consts::JACKOFDIAMONDS
    } else if s == 3 && k == 5 {
        crate::consts::QUEENOFDIAMONDS
    } else if s == 3 && k == 6 {
        crate::consts::KINGOFDIAMONDS
    } else if s == 3 && k == 7 {
        crate::consts::ACEOFDIAMONDS
    } else {
        0
    }
}

/// The clubs in null order: each in its suit, of its rank class, and no two alike.
proof fn lemma_null_ladder_clubs()
    by (bit_vector)
    ensures
        crate::consts::SEVENOFCLUBS & NULL_CLUBS == crate::consts::SEVENOFCLUBS,
        SEVENS & crate::consts::SEVENOFCLUBS != 0,
        crate::consts::SEVENOFCLUBS & crate::consts::EIGHTOFCLUBS == 0,
        crate::consts::SEVENOFCLUBS & crate::consts::NINEOFCLUBS == 0,
        crate::consts::SEVENOFCLUBS & crate::consts::TENOFCLUBS == 0,
        crate::consts::SEVENOFCLUBS & crate::consts::JACKOFCLUBS == 0,
        crate::consts::SEVENOFCLUBS & crate::consts::QUEENOFCLUBS == 0,
        crate::consts::SEVENOFCLUBS & crate::consts::KINGOFCLUBS == 0,
        crate::consts::SEVENOFCLUBS & crate::consts::ACEOFCLUBS == 0,
        crate::consts::EIGHTOFCLUBS & NULL_CLUBS == crate::consts::EIGHTOFCLUBS,
        SEVENS & crate::consts::EIGHTOFCLUBS == 0,
        EIGHTS & crate::consts::EIGHTOFCLUBS != 0,
        crate::consts::EIGHTOFCLUBS & crate::consts::NINEOFCLUBS == 0,
        crate::consts::EIGHTOFCLUBS & crate::consts::TENOFCLUBS == 0,
        crate::consts::EIGHTOFCLUBS & crate::consts::JACKOFCLUBS == 0,
        crate::consts::EIGHTOFCLUBS & crate::consts::QUEENOFCLUBS == 0,
        crate::consts::EIGHTOFCLUBS & crate::consts::KINGOFCLUBS == 0,
        crate::consts::EIGHTOFCLUBS & crate::consts::ACEOFCLUBS == 0,
        crate::consts::NINEOFCLUBS & NULL_CLUBS == crate::consts::NINEOFCLUBS,
        SEVENS & crate::consts::NINEOFCLUBS == 0,
        EIGHTS & crate::consts::NINEOFCLUBS == 0,
        NINES & crate::consts::NINEOFCLUBS != 0,
        crate::consts::NINEOFCLUBS & crate::consts::TENOFCLUBS == 0,
        crate::consts::NINEOFCLUBS & crate::consts::JACKOFCLUBS == 0,
        crate::consts::NINEOFCLUBS & crate::consts::QUEENOFCLUBS == 0,
        crate::consts::NINEOFCLUBS & crate::consts::KINGOFCLUBS == 0,
        crate::consts::NINEOFCLUBS & crate::consts::ACEOFCLUBS == 0,
        crate::consts::TENOFCLUBS & NULL_CLUBS == crate::consts::TENOFCLUBS,
        SEVENS & crate::consts::TENOFCLUBS == 0,
        EIGHTS & crate::consts::TENOFCLUBS == 0,
        NINES & crate::consts::TENOFCLUBS == 0,
        TENS & crate::consts::TENOFCLUBS != 0,
        crate::consts::TENOFCLUBS & crate::consts::JACKOFCLUBS == 0,
        crate::consts::TENOFCLUBS & crate::consts::QUEENOFCLUBS == 0,
        crate::consts::TENOFCLUBS & crate::consts::KINGOFCLUBS == 0,
        crate::consts::TENOFCLUBS & crate::consts::ACEOFCLUBS == 0,
        crate::consts::JACKOFCLUBS & NULL_CLUBS == crate::consts::JACKOFCLUBS,
        SEVENS & crate::consts::JACKOFCLUBS == 0,
        EIGHTS & crate::consts::JACKOFCLUBS == 0,
        NINES & crate::consts::JACKOFCLUBS == 0,
        TENS & crate::consts::JACKOFCLUBS == 0,
        JACKS & crate::consts::JACKOFCLUBS != 0,
        crate::consts::JACKOFCLUBS & crate::consts::QUEENOFCLUBS == 0,
        crate::consts::JACKOFCLUBS & crate::consts::KINGOFCLUBS == 0,
        crate::consts::JACKOFCLUBS & crate::consts::ACEOFCLUBS == 0,
        crate::consts::QUEENOFCLUBS & NULL_CLUBS == crate::consts::QUEENOFCLUBS,
        SEVENS & crate::consts::QUEENOFCLUBS == 0,
        EIGHTS & crate::consts::QUEENOFCLUBS == 0,
        NINES & crate::consts::QUEENOFCLUBS == 0,
        TENS & crate::consts::QUEENOFCLUBS == 0,
        JACKS & crate::consts::QUEENOFCLUBS == 0,
        QUEENS & crate::consts::QUEENOFCLUBS != 0,
        crate::consts::QUEENOFCLUBS & crate::consts::KINGOFCLUBS == 0,
        crate::consts::QUEENOFCLUBS & crate::consts::ACEOFCLUBS == 0,
        crate::consts::KINGOFCLUBS & NULL_CLUBS == crate::consts::KINGOFCLUBS,
        SEVENS & crate::consts::KINGOFCLUBS == 0,
        EIGHTS & crate::consts::KINGOFCLUBS == 0,
        NINES & crate::consts::KINGOFCLUBS == 0,
        TENS & crate::consts::KINGOFCLUBS == 0,
        JACKS & crate::consts::KINGOFCLUBS == 0,
        QUEENS & crate::consts::KINGOFCLUBS == 0,
        KINGS & crate::consts::KINGOFCLUBS != 0,
        crate::consts::KINGOFCLUBS & crate::consts::ACEOFCLUBS == 0,
        crate::consts::ACEOFCLUBS & NULL_CLUBS == crate::consts::ACEOFCLUBS,
        SEVENS & crate::consts::ACEOFCLUBS == 0,
        EIGHTS & crate::consts::ACEOFCLUBS == 0,
        NINES & crate::consts::ACEOFCLUBS == 0,
        TENS & crate::consts::ACEOFCLUBS == 0,
        JACKS & crate::consts::ACEOFCLUBS == 0,
        QUEENS & crate::consts::ACEOFCLUBS == 0,
        KINGS & crate::consts::ACEOFCLUBS == 0,
        ACES & crate::consts::ACEOFCLUBS != 0,
{
}

/// The spades in null order: each in its suit, of its rank class, and no two alike.
proof fn lemma_null_ladder_spades()
    by (bit_vector)
    ensures
        crate::consts::SEVENOFSPADES & NULL_SPADES == crate::consts::SEVENOFSPADES,
        SEVENS & crate::consts::SEVENOFSPADES != 0,
        crate::consts::SEVENOFSPADES & crate::consts::EIGHTOFSPADES == 0,
        crate::consts::SEVENOFSPADES & crate::consts::NINEOFSPADES == 0,
        crate::consts::SEVENOFSPADES & crate::consts::TENOFSPADES == 0,
        crate::consts::SEVENOFSPADES & crate::consts::JACKOFSPADES == 0,
        crate::consts::SEVENOFSPADES & crate::consts::QUEENOFSPADES == 0,
        crate::consts::SEVENOFSPADES & crate::consts::KINGOFSPADES == 0,
        crate::consts::SEVENOFSPADES & crate::consts::ACEOFSPADES == 0,
        crate::consts::EIGHTOFSPADES & NULL_SPADES == crate::consts::EIGHTOFSPADES,
        SEVENS & crate::consts::EIGHTOFSPADES == 0,
        EIGHTS & crate::consts::EIGHTOFSPADES != 0,
        crate::consts::EIGHTOFSPADES & crate::consts::NINEOFSPADES == 0,
        crate::consts::EIGHTOFSPADES & crate::consts::TENOFSPADES == 0,
        crate::consts::EIGHTOFSPADES & crate::consts::JACKOFSPADES == 0,
        crate::consts::EIGHTOFSPADES & crate::consts::QUEENOFSPADES == 0,
        crate::consts::EIGHTOFSPADES & crate::consts::KINGOFSPADES == 0,
        crate::consts::EIGHTOFSPADES & crate::consts::ACEOFSPADES == 0,
        crate::consts::NINEOFSPADES & NULL_SPADES == crate::consts::NINEOFSPADES,
        SEVENS & crate::consts::NINEOFSPADES == 0,
        EIGHTS & crate::consts::NINEOFSPADES == 0,
        NINES & crate::consts::NINEOFSPADES != 0,
        crate::consts::NINEOFSPADES & crate::consts::TENOFSPADES == 0,
        crate::consts::NINEOFSPADES & crate::consts::JACKOFSPADES == 0,
        crate::consts::NINEOFSPADES & crate::consts::QUEENOFSPADES == 0,
        crate::consts::NINEOFSPADES & crate::consts::KINGOFSPADES == 0,
        crate::consts::NINEOFSPADES & crate::consts::ACEOFSPADES == 0,
        crate::consts::TENOFSPADES & NULL_SPADES == crate::consts::TENOFSPADES,
        SEVENS & crate::consts::TENOFSPADES == 0,
        EIGHTS & crate::consts::TENOFSPADES == 0,
        NINES & crate::consts::TENOFSPADES == 0,
        TENS & crate::consts::TENOFSPADES != 0,
        crate::consts::TENOFSPADES & crate::consts::JACKOFSPADES == 0,
        crate::consts::TENOFSPADES & crate::consts::QUEENOFSPADES == 0,
        crate::consts::TENOFSPADES & crate::consts::KINGOFSPADES == 0,
        crate::consts::TENOFSPADES & crate::consts::ACEOFSPADES == 0,
        crate::consts::JACKOFSPADES & NULL_SPADES == crate::consts::JACKOFSPADES,
        SEVENS & crate::consts::JACKOFSPADES == 0,
        EIGHTS & crate::consts::JACKOFSPADES == 0,
        NINES & crate::consts::JACKOFSPADES == 0,
        TENS & crate::consts::JACKOFSPADES == 0,
        JACKS & crate::consts::JACKOFSPADES != 0,
        crate::consts::JACKOFSPADES & crate::consts::QUEENOFSPADES == 0,
        crate::consts::JACKOFSPADES & crate::consts::KINGOFSPADES == 0,
        crate::consts::JACKOFSPADES & crate::consts::ACEOFSPADES == 0,
        crate::consts::QUEENOFSPADES & NULL_SPADES == crate::consts::QUEENOFSPADES,
        SEVENS & crate::consts::QUEENOFSPADES == 0,
        EIGHTS & crate::consts::QUEENOFSPADES == 0,
        NINES & crate::consts::QUEENOFSPADES == 0,
        TENS & crate::consts::QUEENOFSPADES == 0,
        JACKS & crate::consts::QUEENOFSPADES == 0,
        QUEENS & crate::consts::QUEENOFSPADES != 0,
        crate::consts::QUEENOFSPADES & crate::consts::KINGOFSPADES == 0,
        crate::consts::QUEENOFSPADES & crate::consts::ACEOFSPADES == 0,
        crate::consts::KINGOFSPADES & NULL_SPADES == crate::consts::KINGOFSPADES,
        SEVENS & crate::consts::KINGOFSPADES == 0,
        EIGHTS & crate::consts::KINGOFSPADES == 0,
        NINES & crate::consts::KINGOFSPADES == 0,
        TENS & crate::consts::KINGOFSPADES == 0,
        JACKS & crate::consts::KINGOFSPADES == 0,
        QUEENS & crate::consts::KINGOFSPADES == 0,
        KINGS & crate::consts::KINGOFSPADES != 0,
        crate::consts::KINGOFSPADES & crate::consts::ACEOFSPADES == 0,
        crate::consts::ACEOFSPADES & NULL_SPADES == crate::consts::ACEOFSPADES,
        SEVENS & crate::consts::ACEOFSPADES == 0,
        EIGHTS & crate::consts::ACEOFSPADES == 0,
        NINES & crate::consts::ACEOFSPADES == 0,
        TENS & crate::consts::ACEOFSPADES == 0,
        JACKS & crate::consts::ACEOFSPADES == 0,
        QUEENS & crate::consts::ACEOFSPADES == 0,
        KINGS & crate::consts::ACEOFSPADES == 0,
        ACES & crate::consts::ACEOFSPADES != 0,
{
}

/// The hearts in null order: each in its suit, of its rank class, and no two alike.
proof fn lemma_null_ladder_hearts()
    by (bit_vector)
    ensures
        crate::consts::SEVENOFHEARTS & NULL_HEARTS == crate::consts::SEVENOFHEARTS,
        SEVENS & crate::consts::SEVENOFHEARTS != 0,
        crate::consts::SEVENOFHEARTS & crate::consts::EIGHTOFHEARTS == 0,
        crate::consts::SEVENOFHEARTS & crate::consts::NINEOFHEARTS == 0,
        crate::consts::SEVENOFHEARTS & crate::consts::TENOFHEARTS == 0,
        crate::consts::SEVENOFHEARTS & crate::consts::JACKOFHEARTS == 0,
        crate::consts::SEVENOFHEARTS & crate::consts::QUEENOFHEARTS == 0,
        crate::consts::SEVENOFHEARTS & crate::consts::KINGOFHEARTS == 0,
        crate::consts::SEVENOFHEARTS & crate::consts::ACEOFHEARTS == 0,
        crate::consts::EIGHTOFHEARTS & NULL_HEARTS == crate::consts::EIGHTOFHEARTS,
        SEVENS & crate::consts::EIGHTOFHEARTS == 0,
        EIGHTS & crate::consts::EIGHTOFHEARTS != 0,
        crate::consts::EIGHTOFHEARTS & crate::consts::NINEOFHEARTS == 0,
        crate::consts::EIGHTOFHEARTS & crate::consts::TENOFHEARTS == 0,
        crate::consts::EIGHTOFHEARTS & crate::consts::JACKOFHEARTS == 0,
        crate::consts::EIGHTOFHEARTS & crate::consts::QUEENOFHEARTS == 0,
        crate::consts::EIGHTOFHEARTS & crate::consts::KINGOFHEARTS == 0,
        crate::consts::EIGHTOFHEARTS & crate::consts::ACEOFHEARTS == 0,
        crate::consts::NINEOFHEARTS & NULL_HEARTS == crate::consts::NINEOFHEARTS,
        SEVENS & crate::consts::NINEOFHEARTS == 0,
        EIGHTS & crate::consts::NINEOFHEARTS == 0,
        NINES & crate::consts::NINEOFHEARTS != 0,
        crate::consts::NINEOFHEARTS & crate::consts::TENOFHEARTS == 0,
        crate::consts::NINEOFHEARTS & crate::consts::JACKOFHEARTS == 0,
        crate::consts::NINEOFHEARTS & crate::consts::QUEENOFHEARTS == 0,
        crate::consts::NINEOFHEARTS & crate::consts::KINGOFHEARTS == 0,
        crate::consts::NINEOFHEARTS & crate::consts::ACEOFHEARTS == 0,
        crate::consts::TENOFHEARTS & NULL_HEARTS == crate::consts::TENOFHEARTS,
        SEVENS & crate::consts::TENOFHEARTS == 0,
        EIGHTS & crate::consts::TENOFHEARTS == 0,
        NINES & crate::consts::TENOFHEARTS == 0,
        TENS & crate::consts::TENOFHEARTS != 0,
        crate::consts::TENOFHEARTS & crate::consts::JACKOFHEARTS == 0,
        crate::consts::TENOFHEARTS & crate::consts::QUEENOFHEARTS == 0,
        crate::consts::TENOFHEARTS & crate::consts::KINGOFHEARTS == 0,
        crate::consts::TENOFHEARTS & crate::consts::ACEOFHEARTS == 0,
        crate::consts::JACKOFHEARTS & NULL_HEARTS == crate::consts::JACKOFHEARTS,
        SEVENS & crate::consts::JACKOFHEARTS == 0,
        EIGHTS & crate::consts::JACKOFHEARTS == 0,
        NINES & crate::consts::JACKOFHEARTS == 0,
        TENS & crate::consts::JACKOFHEARTS == 0,
        JACKS & crate::consts::JACKOFHEARTS != 0,
        crate::consts::JACKOFHEARTS & crate::consts::QUEENOFHEARTS == 0,
        crate::consts::JACKOFHEARTS & crate::consts::KINGOFHEARTS == 0,
        crate::consts::JACKOFHEARTS & crate::consts::ACEOFHEARTS == 0,
        crate::consts::QUEENOFHEARTS & NULL_HEARTS == crate::consts::QUEENOFHEARTS,
        SEVENS & crate::consts::QUEENOFHEARTS == 0,
        EIGHTS & crate::consts::QUEENOFHEARTS == 0,
        NINES & crate::consts::QUEENOFHEARTS == 0,
        TENS & crate::consts::QUEENOFHEARTS == 0,
        JACKS & crate::consts::QUEENOFHEARTS == 0,
        QUEENS & crate::consts::QUEENOFHEARTS != 0,
        crate::consts::QUEENOFHEARTS & crate::consts::KINGOFHEARTS == 0,
        crate::consts::QUEENOFHEARTS & crate::consts::ACEOFHEARTS == 0,
        crate::consts::KINGOFHEARTS & NULL_HEARTS == crate::consts::KINGOFHEARTS,
        SEVENS & crate::consts::KINGOFHEARTS == 0,
        EIGHTS & crate::consts::KINGOFHEARTS == 0,
        NINES & crate::consts::KINGOFHEARTS == 0,
        TENS & crate::consts::KINGOFHEARTS == 0,
        JACKS & crate::consts::KINGOFHEARTS == 0,
        QUEENS & crate::consts::KINGOFHEARTS == 0,
        KINGS & crate::consts::KINGOFHEARTS != 0,
        crate::consts::KINGOFHEARTS & crate::consts::ACEOFHEARTS == 0,
        crate::consts::ACEOFHEARTS & NULL_HEARTS == crate::consts::ACEOFHEARTS,
        SEVENS & crate::consts::ACEOFHEARTS == 0,
        EIGHTS & crate::consts::ACEOFHEARTS == 0,
        NINES & crate::consts::ACEOFHEARTS == 0,
        TENS & crate::consts::ACEOFHEARTS == 0,
        JACKS & crate::consts::ACEOFHEARTS == 0,
        QUEENS & crate::consts::ACEOFHEARTS == 0,
        KINGS & crate::consts::ACEOFHEARTS == 0,
        ACES & crate::consts::ACEOFHEARTS != 0,
{
}

/// The diamonds in null order: each in its suit, of its rank class, and no two alike.
proof fn lemma_null_ladder_diamonds()
    by (bit_vector)
    ensures
        crate::consts::SEVENOFDIAMONDS & NULL_DIAMONDS == crate::consts::SEVENOFDIAMONDS,
        SEVENS & crate::consts::SEVENOFDIAMONDS != 0,
        crate::consts::SEVENOFDIAMONDS & crate::consts::EIGHTOFDIAMONDS == 0,
        crate::consts::SEVENOFDIAMONDS & crate::consts::NINEOFDIAMONDS == 0,
        crate::consts::SEVENOFDIAMONDS & crate::consts::TENOFDIAMONDS == 0,
        crate::consts::SEVENOFDIAMONDS & crate::consts::JACKOFDIAMONDS == 0,
        crate::consts::SEVENOFDIAMONDS & crate::consts::QUEENOFDIAMONDS == 0,
        crate::consts::SEVENOFDIAMONDS & crate::consts::KINGOFDIAMONDS == 0,
        crate::consts::SEVENOFDIAMONDS & crate::consts::ACEOFDIAMONDS == 0,
        crate::consts::EIGHTOFDIAMONDS & NULL_DIAMONDS == crate::consts::EIGHTOFDIAMONDS,
        SEVENS & crate::consts::EIGHTOFDIAMONDS == 0,
        EIGHTS & crate::consts::EIGHTOFDIAMONDS != 0,
        crate::consts::EIGHTOFDIAMONDS & crate::consts::NINEOFDIAMONDS == 0,
        crate::consts::EIGHTOFDIAMONDS & crate::consts::TENOFDIAMONDS == 0,
        crate::consts::EIGHTOFDIAMONDS & crate::consts::JACKOFDIAMONDS == 0,
        crate::consts::EIGHTOFDIAMONDS & crate::consts::QUEENOFDIAMONDS == 0,
        crate::consts::EIGHTOFDIAMONDS & crate::consts::KINGOFDIAMONDS == 0,
        crate::consts::EIGHTOFDIAMONDS & crate::consts::ACEOFDIAMONDS == 0,
        crate::consts::NINEOFDIAMONDS & NULL_DIAMONDS == crate::consts::NINEOFDIAMONDS,
        SEVENS & crate::consts::NINEOFDIAMONDS == 0,
        EIGHTS & crate::consts::NINEOFDIAMONDS == 0,
        NINES & crate::consts::NINEOFDIAMONDS != 0,
        crate::consts::NINEOFDIAMONDS & crate::consts::TENOFDIAMONDS == 0,
        crate::consts::NINEOFDIAMONDS & crate::consts::JACKOFDIAMONDS == 0,
        crate::consts::NINEOFDIAMONDS & crate::consts::QUEENOFDIAMONDS == 0,
        crate::consts::NINEOFDIAMONDS & crate::consts::KINGOFDIAMONDS == 0,
        crate::consts::NINEOFDIAMONDS & crate::consts::ACEOFDIAMONDS == 0,
        crate::consts::TENOFDIAMONDS & NULL_DIAMONDS == crate::consts::TENOFDIAMONDS,
        SEVENS & crate::consts::TENOFDIAMONDS == 0,
        EIGHTS & crate::consts::TENOFDIAMONDS == 0,
        NINES & crate::consts::TENOFDIAMONDS == 0,
        TENS & crate::consts::TENOFDIAMONDS != 0,
        crate::consts::TENOFDIAMONDS & crate::consts::JACKOFDIAMONDS == 0,
        crate::consts::TENOFDIAMONDS & crate::consts::QUEENOFDIAMONDS == 0,
        crate::consts::TENOFDIAMONDS & crate::consts::KINGOFDIAMONDS == 0,
        crate::consts::TENOFDIAMONDS & crate::consts::ACEOFDIAMONDS == 0,
        crate::consts::JACKOFDIAMONDS & NULL_DIAMONDS == crate::consts::JACKOFDIAMONDS,
        SEVENS & crate::consts::JACKOFDIAMONDS == 0,
        EIGHTS & crate::consts::JACKOFDIAMONDS == 0,
        NINES & crate::consts::JACKOFDIAMONDS == 0,
        TENS & crate::consts::JACKOFDIAMONDS == 0,
        JACKS & crate::consts::JACKOFDIAMONDS != 0,
        crate::consts::JACKOFDIAMONDS & crate::consts::QUEENOFDIAMONDS == 0,
        crate::consts::JACKOFDIAMONDS & crate::consts::KINGOFDIAMONDS == 0,
        crate::consts::JACKOFDIAMONDS & crate::consts::ACEOFDIAMONDS == 0,
        crate::consts::QUEENOFDIAMONDS & NULL_DIAMONDS == crate::consts::QUEENOFDIAMONDS,
        SEVENS & crate::consts::QUEENOFDIAMONDS == 0,
        EIGHTS & crate::consts::QUEENOFDIAMONDS == 0,
        NINES & crate::consts::QUEENOFDIAMONDS == 0,
        TENS & crate::consts::QUEENOFDIAMONDS == 0,
        JACKS & crate::consts::QUEENOFDIAMONDS == 0,
        QUEENS & crate::consts::QUEENOFDIAMONDS != 0,
        crate::consts::QUEENOFDIAMONDS & crate::consts::KINGOFDIAMONDS == 0,
        crate::consts::QUEENOFDIAMONDS & crate::consts::ACEOFDIAMONDS == 0,
        crate::consts::KINGOFDIAMONDS & NULL_DIAMONDS == crate::consts::KINGOFDIAMONDS,
        SEVENS & crate::consts::KINGOFDIAMONDS == 0,
        EIGHTS & crate::consts::KINGOFDIAMONDS == 0,
        NINES & crate::consts::KINGOFDIAMONDS == 0,
        TENS & crate::consts::KINGOFDIAMONDS == 0,
        JACKS & crate::consts::KINGOFDIAMONDS == 0,
        QUEENS & crate::consts::KINGOFDIAMONDS == 0,
        KINGS & crate::consts::KINGOFDIAMONDS != 0,
        crate::consts::KINGOFDIAMONDS & crate::consts::ACEOFDIAMONDS == 0,
        crate::consts::ACEOFDIAMONDS & NULL_DIAMONDS == crate::consts::ACEOFDIAMONDS,
        SEVENS & crate::consts::ACEOFDIAMONDS == 0,
        EIGHTS & crate::consts::ACEOFDIAMONDS == 0,
        NINES & crate::consts::ACEOFDIAMONDS == 0,
        TENS & crate::consts::ACEOFDIAMONDS == 0,
        JACKS & crate::consts::ACEOFDIAMONDS == 0,
        QUEENS & crate::consts::ACEOFDIAMONDS == 0,
        KINGS & crate::consts::ACEOFDIAMONDS == 0,
        ACES & crate::consts::ACEOFDIAMONDS != 0,
{
}

/// The card at place `k` of the null order of suit `s` belongs to the suit and has a null
/// rank above that of no card.
proof fn lemma_null_ladder_card(s: int, k: int)
    requires
        0 <= s < 4,
        0 <= k < 8,
    ensures
        null_rank(null_ladder_card(s, k)) matches Some(a) && a > 0,
        null_ladder_card(s, k) & null_suit_mask(s) == null_ladder_card(s, k),
{
    lemma_null_ladder_clubs();
    lemma_null_ladder_spades();
    lemma_null_ladder_hearts();
    lemma_null_ladder_diamonds();
}

/// A later place of the null order of a suit holds a different card of higher null rank.
proof fn lemma_null_ladder_apart(s: int, k: int, k2: int)
    requires
        0 <= s < 4,
        0 <= k < k2 < 8,
    ensures
        null_ladder_card(s, k) & null_ladder_card(s, k2) == 0,
        null_rank(null_ladder_card(s, k)) matches Some(a) && null_rank(null_ladder_card(s, k2))
            matches Some(b) && a < b,
{
    lemma_null_ladder_clubs();
    lemma_null_ladder_spades();
    lemma_null_ladder_hearts();
    lemma_null_ladder_diamonds();
}

/// The split of a null trick whose first two cards are of the led suit and whose third is not.
proof fn lemma_null_lead_split(lo: u32, hi: u32, c: u32, suit: u32)
    by (bit_vector)
    requires
        lo & suit == lo,
        hi & suit == hi,
        c & suit == 0,
        lo & hi == 0,
    ensures
        (lo | hi | c) & 0u32 == 0,
        suit & (lo | hi | c) == lo | hi,
        (lo | hi) & lo == lo,
        (lo | hi) & hi == hi,
        (lo | hi) & c == 0,
        SEVENS & 0u32 == 0,
        EIGHTS & 0u32 == 0,
        NINES & 0u32 == 0,
        TENS & 0u32 == 0,
        JACKS & 0u32 == 0,
        QUEENS & 0u32 == 0,
        KINGS & 0u32 == 0,
        ACES & 0u32 == 0,
{
}

/// In a null game the cards of a suit rank 7, 8, 9, 10, J, Q, K, A from low to high: when two
/// cards of the led suit fall in a trick and the third card is of another suit, the player of
/// the higher card wins the trick, whichever player that is.
pub proof fn lemma_null_higher_card_wins(s: int, i: int, j: int, c: u32)
    requires
        0 <= s < 4,
        0 <= i < j < 8,
        c & null_suit_mask(s) == 0,
    ensures
        ({
            let lo = null_ladder_card(s, i);
            let hi = null_ladder_card(s, j);
            let suit = null_suit_mask(s);
            &&& trick_winner(lo | hi | c, suit, Game::Null, lo, hi, c) == Player::Left
            &&& trick_winner(lo | hi | c, suit, Game::Null, hi, lo, c) == Player::Declarer
            &&& trick_winner(lo | hi | c, suit, Game::Null, c, lo, hi) == Player::Right
        }),
{
    let lo = null_ladder_card(s, i);
    let hi = null_ladder_card(s, j);
    let suit = null_suit_mask(s);
    lemma_null_ladder_card(s, i);
    lemma_null_ladder_card(s, j);
    lemma_null_ladder_apart(s, i, j);
    lemma_null_lead_split(lo, hi, c, suit);
    assert(null_rank(0) == Some(0u32));
}

/// The winner of a trick.
pub fn get_trick_winner(
    trick_cards: u32,
    trick_suit: u32,
    game_type: Game,
    declarer_cards_all: u32,
    left_cards_all: u32,
    right_cards_all: u32,
) -> (r: Player)
    ensures
        r == trick_winner(
            trick_cards,
            trick_suit,
            game_type,
            declarer_cards_all,
            left_cards_all,
            right_cards_all,
        ),
{
    let trump = game_type.get_trump();

    let is_trump_played = (trick_cards & trump) > 0;
    let effective_suit = if is_trump_played {
        trump
    } else {
        trick_suit
    };
    let lead_cards = effective_suit & trick_cards;

    let mut lead_declarer = lead_cards & declarer_cards_all;
    let mut lead_left = lead_cards & left_cards_all;
    let mut lead_right = lead_cards & right_cards_all;

    if let Game::Null = game_type {
        lead_declarer = unwrap_or_zero(nullmap(lead_declarer));
        lead_left = unwrap_or_zero(nullmap(lead_left));
        lead_right = unwrap_or_zero(nullmap(lead_right));
    }
    determine_winner(lead_declarer, lead_left, lead_right)
}

fn unwrap_or_zero(v: Option<u32>) -> (r: u32)
    ensures
        r == match v {
            Some(x) => x,
            None => 0,
        },
{
    match v {
        Some(x) => x,
        None => 0,
    }
}

fn determine_winner(lead_declarer: u32, lead_left: u32, lead_right: u32) -> (r: Player)
    ensures
        r == winner_of(lead_declarer, lead_left, lead_right),
{
    if lead_left > lead_declarer || lead_right > lead_declarer {
        if lead_left < lead_right {
            Player::Right
        } else {
            Player::Left
        }
    } else {
        Player::Declarer
    }
}

fn nullmap(card: u32) -> (r: Option<u32>)
    ensures
        r == null_rank(card),
{
    if SEVENS & card != 0 {
        Some(1)
    } else if EIGHTS & card != 0 {
        Some(2)
    } else if NINES & card != 0 {
        Some(3)
    } else if TENS & card != 0 {
        Some(4)
    } else if JACKS & card != 0 {
        Some(5)
    } else if QUEENS & card != 0 {
        Some(6)
    } else if KINGS & card != 0 {
        Some(7)
    } else if ACES & card != 0 {
        Some(8)
    } else if card == 0 {
        Some(0)
    } else {
        None
    }
}

/// The trick limit of a game type; no limit is used by the engine.
pub fn get_trick_limit(_game: Game) -> (r: u8)
    ensures
        r == 0,
{
    0
}

// -----------------------------------------------------------------------------
// MOVE SORTING
// -----------------------------------------------------------------------------

/// The nines, eights and sevens: the cards without points apart from the jacks.
pub const BLANKS: u32 = 0b_0000_0000111_0000111_0000111_0000111u32;

/// Moves sorted by value: jacks, aces, tens, kings, queens, then the rest; within a class in
/// standard order.
pub open spec fn sorted_by_value(moves: u32) -> Seq<u32> {
    cards_of(moves & JACKS) + cards_of(moves & ACES) + cards_of(moves & TENS) + cards_of(
        moves & KINGS,
    ) + cards_of(moves & QUEENS) + cards_of(moves & BLANKS)
}

proof fn lemma_split_count(m: u32, a: u32, b: u32)
    requires
        a & b == 0,
    ensures
        card_count(m & (a | b)) == card_count(m & a) + card_count(m & b),
{
    lemma_set_algebra(a, b, m);
    lemma_union(m & a, m & b);
}

/// The six value classes split the cards of a set.
pub proof fn lemma_value_classes(m: u32)
    ensures
        card_count(m) == card_count(m & JACKS) + card_count(m & ACES) + card_count(m & TENS)
            + card_count(m & KINGS) + card_count(m & QUEENS) + card_count(m & BLANKS),
{
    let q = QUEENS | BLANKS;
    let k = KINGS | q;
    let t = TENS | k;
    let a = ACES | t;
    assert(QUEENS & BLANKS == 0 && KINGS & (QUEENS | BLANKS) == 0 && TENS & (KINGS | (QUEENS
        | BLANKS)) == 0 && ACES & (TENS | (KINGS | (QUEENS | BLANKS))) == 0 && JACKS & (ACES | (
    TENS | (KINGS | (QUEENS | BLANKS)))) == 0 && (JACKS | (ACES | (TENS | (KINGS | (QUEENS
        | BLANKS))))) == 0xffff_ffffu32) by (bit_vector);
    lemma_split_count(m, QUEENS, BLANKS);
    lemma_split_count(m, KINGS, q);
    lemma_split_count(m, TENS, k);
    lemma_split_count(m, ACES, t);
    lemma_split_count(m, JACKS, a);
    lemma_set_algebra(m, 0, 0);
}

/// Appends the cards of `x`, highest first, behind the first `len` entries.
fn append_cards(x: u32, arr: &mut [u32; 10], len: &mut usize)
    requires
        *old(len) + card_count(x) <= 10,
    ensures
        *final(len) == *old(len) + card_count(x),
        final(arr)@.subrange(0, *final(len) as int) == old(arr)@.subrange(0, *old(len) as int)
            + cards_of(x),
        forall|i: int| *final(len) <= i < 10 ==> final(arr)@[i] == old(arr)@[i],
{
    let mut rest = x;
    let ghost arr0 = arr@;
    let ghost len0 = *len;
    while rest != 0
        invariant
            *len + card_count(rest) <= 10,
            *len + card_count(rest) == len0 + card_count(x),
            arr@.subrange(0, *len as int) + cards_of(rest) == arr0.subrange(0, len0 as int)
                + cards_of(x),
            forall|i: int| *len <= i < 10 ==> arr@[i] == arr0[i],
        decreases card_count(rest),
    {
        proof {
            lemma_highest(rest);
            crate::cards::lemma_remove_card(rest, 31 - vstd::std_specs::bits::u32_leading_zeros(rest));
        }
        let h = 31 - rest.leading_zeros();
        let c = 1u32 << h;
        let ghost before = arr@.subrange(0, *len as int);
        arr[*len] = c;
        assert(arr@.subrange(0, *len + 1) =~= before.push(c));
        *len = *len + 1;
        rest = rest & !c;
        assert(arr@.subrange(0, *len as int) + cards_of(rest) =~= before + cards_of(
            rest | c,
        )) by {
            assert(cards_of(rest | c) == seq![c] + cards_of(rest));
        }
    }
    proof {
        lemma_empty_set();
    }
    assert(arr@.subrange(0, *len as int) =~= arr0.subrange(0, len0 as int) + cards_of(x));
}

/// The moves sorted by value (jacks first, then aces, tens, kings, queens, the rest).
pub fn get_sorted_by_value(moves: u32) -> (r: ([u32; 10], usize))
    requires
        card_count(moves) <= 10,
    ensures
        r.1 == card_count(moves),
        r.0@.subrange(0, r.1 as int) == sorted_by_value(moves),
        forall|i: int| r.1 <= i < 10 ==> r.0@[i] == 0,
{
    let mut ordered = [0u32; 10];
    let mut i: usize = 0;
    proof {
        lemma_value_classes(moves);
    }
    append_cards(moves & JACKS, &mut ordered, &mut i);
    append_cards(moves & ACES, &mut ordered, &mut i);
    append_cards(moves & TENS, &mut ordered, &mut i);
    append_cards(moves & KINGS, &mut ordered, &mut i);
    append_cards(moves & QUEENS, &mut ordered, &mut i);
    append_cards(moves & BLANKS, &mut ordered, &mut i);
    assert(ordered@.subrange(0, i as int) =~= sorted_by_value(moves));
    (ordered, i)
}

/// Each entry of the sorted moves is a single card among the moves.
#[verifier::spinoff_prover]
pub proof fn lemma_sorted_members(moves: u32)
    ensures
        forall|i: int|
            0 <= i < sorted_by_value(moves).len() ==> #[trigger] is_card(sorted_by_value(moves)[i])
                && subset(sorted_by_value(moves)[i], moves),
{
    lemma_cards_of_members(moves & JACKS);
    lemma_cards_of_members(moves & ACES);
    lemma_cards_of_members(moves & TENS);
    lemma_cards_of_members(moves & KINGS);
    lemma_cards_of_members(moves & QUEENS);
    lemma_cards_of_members(moves & BLANKS);
    let m = moves;
    let s = sorted_by_value(moves);
    let l0 = cards_of(m & JACKS).len();
    let l1 = l0 + cards_of(m & ACES).len();
    let l2 = l1 + cards_of(m & TENS).len();
    let l3 = l2 + cards_of(m & KINGS).len();
    let l4 = l3 + cards_of(m & QUEENS).len();
    assert forall|i: int| 0 <= i < s.len() implies #[trigger] is_card(s[i]) && subset(s[i], moves) by {
        if i < l0 {
            assert(s[i] == cards_of(m & JACKS)[i]);
            assert(is_card(cards_of(m & JACKS)[i]));
            lemma_sub_class(s[i], m, JACKS);
        } else if i < l1 {
            assert(s[i] == cards_of(m & ACES)[i - l0]);
            assert(is_card(cards_of(m & ACES)[i - l0]));
            lemma_sub_class(s[i], m, ACES);
        } else if i < l2 {
            assert(s[i] == cards_of(m & TENS)[i - l1]);
            assert(is_card(cards_of(m & TENS)[i - l1]));
            lemma_sub_class(s[i], m, TENS);
        } else if i < l3 {
            assert(s[i] == cards_of(m & KINGS)[i - l2]);
            assert(is_card(cards_of(m & KINGS)[i - l2]));
            lemma_sub_class(s[i], m, KINGS);
        } else if i < l4 {
            assert(s[i] == cards_of(m & QUEENS)[i - l3]);
            assert(is_card(cards_of(m & QUEENS)[i - l3]));
            lemma_sub_class(s[i], m, QUEENS);
        } else {
            assert(s[i] == cards_of(m & BLANKS)[i - l4]);
            assert(is_card(cards_of(m & BLANKS)[i - l4]));
            lemma_sub_class(s[i], m, BLANKS);
        }
    }
}

proof fn lemma_sub_class(c: u32, m: u32, class: u32)
    requires
        subset(c, m & class),
    ensures
        subset(c, m),
{
    lemma_set_algebra(class, m, c);
}

// -----------------------------------------------------------------------------
// MOVE REDUCTION: EQUAL CARDS
// -----------------------------------------------------------------------------

/// Whether, scanning a run of the list up to (not including) position `p`, the last card
/// that is still in play is one of the moves.
pub open spec fn eq_precseen(moves: u32, all_moves: u32, list: Seq<u32>, p: int) -> bool
    decreases p,
{
    if p <= 0 {
        false
    } else {
        let m = list[p - 1];
        if m == 0 {
            false
        } else if all_moves & m != 0 {
            moves & m != 0
        } else {
            eq_precseen(moves, all_moves, list, p - 1)
        }
    }
}

/// Entry `p` of the list is a move that follows an equivalent move in play, and is dropped.
pub open spec fn eq_dropped_at(moves: u32, all_moves: u32, list: Seq<u32>, p: int) -> bool {
    &&& 0 <= p < list.len()
    &&& list[p] != 0
    &&& all_moves & list[p] != 0
    &&& moves & list[p] != 0
    &&& eq_precseen(moves, all_moves, list, p)
}

/// The entries of a list of cards are cards or breakers (0), and no card occurs twice.
pub open spec fn eq_list_ok(list: Seq<u32>) -> bool {
    &&& forall|i: int| 0 <= i < list.len() ==> (#[trigger] list[i]) == 0 || is_card(list[i])
    &&& forall|i: int, j: int|
        0 <= i < j < list.len() && list[i] != 0 ==> #[trigger] list[i] != #[trigger] list[j]
}

/// A move that follows a move in play has such a move before it in the list.
proof fn lemma_precseen_witness(moves: u32, all_moves: u32, list: Seq<u32>, p: int)
    requires
        p <= list.len(),
        eq_precseen(moves, all_moves, list, p),
    ensures
        exists|q: int|
            0 <= q < p && #[trigger] list[q] != 0 && all_moves & list[q] != 0 && moves & list[q]
                != 0,
    decreases p,
{
    let m = list[p - 1];
    if all_moves & m == 0 && m != 0 {
        lemma_precseen_witness(moves, all_moves, list, p - 1);
    } else {
        assert(list[p - 1] != 0);
    }
}

/// When each move is dropped somewhere, none can be: the first one dropped would need a move
/// before it that is kept.
proof fn lemma_not_dropped(moves: u32, all_moves: u32, list: Seq<u32>, p: int)
    requires
        eq_list_ok(list),
        forall|k: int|
            #![trigger has_card(moves, k)]
            has_card(moves, k) ==> exists|p2: int|
                eq_dropped_at(moves, all_moves, list, p2) && #[trigger] has_card(list[p2], k),
    ensures
        !eq_dropped_at(moves, all_moves, list, p),
    decreases p,
{
    if eq_dropped_at(moves, all_moves, list, p) {
        lemma_precseen_witness(moves, all_moves, list, p);
        let q = choose|q: int|
            0 <= q < p && #[trigger] list[q] != 0 && all_moves & list[q] != 0 && moves & list[q]
                != 0;
        assert(is_card(list[q]));
        let k = crate::cards::lemma_card_index(list[q]);
        assert(has_card(moves, k));
        let p2 = choose|p2: int|
            eq_dropped_at(moves, all_moves, list, p2) && #[trigger] has_card(list[p2], k);
        assert(is_card(list[p2]));
        let k2 = crate::cards::lemma_card_index(list[p2]);
        crate::cards::lemma_has_bit(k2, k);
        assert(list[p2] == list[q]);
        if p2 < q {
            assert(list[p2] != list[q]);
        } else if q < p2 {
            assert(list[q] != list[p2]);
        }
        lemma_not_dropped(moves, all_moves, list, q);
    }
}

/// Some move is never dropped.
proof fn lemma_keeps_a_move(moves: u32, all_moves: u32, list: Seq<u32>)
    requires
        eq_list_ok(list),
        moves != 0,
    ensures
        exists|k: int|
            #![trigger has_card(moves, k)]
            has_card(moves, k) && !exists|p: int|
                eq_dropped_at(moves, all_moves, list, p) && #[trigger] has_card(list[p], k),
{
    if !exists|k: int|
        #![trigger has_card(moves, k)]
        has_card(moves, k) && !exists|p: int|
            eq_dropped_at(moves, all_moves, list, p) && #[trigger] has_card(list[p], k) {
        if forall|k: int| 0 <= k < 32 ==> !#[trigger] has_card(moves, k) {
            assert forall|k: int| 0 <= k < 32 implies has_card(moves, k) == has_card(0u32, k) by {
                crate::cards::lemma_has_consts(k);
            }
            crate::cards::lemma_ext(moves, 0);
        }
        let k = choose|k: int| 0 <= k < 32 && #[trigger] has_card(moves, k);
        let p = choose|p: int| eq_dropped_at(moves, all_moves, list, p) && #[trigger] has_card(list[p], k);
        lemma_not_dropped(moves, all_moves, list, p);
    }
}

/// The moves without those that follow an equivalent move in play within a run of the list.
pub fn get_reduced_equal_core(moves: u32, all_moves: u32, connection_list: &[u32]) -> (r: u32)
    ensures
        subset(r, moves),
        eq_list_ok(connection_list@) && moves != 0 ==> r != 0,
        forall|k: int|
            0 <= k < 32 ==> #[trigger] has_card(r, k) == (has_card(moves, k) && !exists|p: int|
                eq_dropped_at(moves, all_moves, connection_list@, p) && #[trigger] has_card(
                    connection_list@[p],
                    k,
                )),
{
    let mut ret = moves;
    let mut precseen = false;
    let n = connection_list.len();
    let mut i: usize = 0;
    let ghost list = connection_list@;
    while i < n
        invariant
            n == list.len(),
            list == connection_list@,
            i <= n,
            precseen == eq_precseen(moves, all_moves, list, i as int),
            forall|k: int|
                0 <= k < 32 ==> #[trigger] has_card(ret, k) == (has_card(moves, k) && !exists|p: int|
                    p < i && eq_dropped_at(moves, all_moves, list, p) && #[trigger] has_card(
                        list[p],
                        k,
                    )),
        decreases n - i,
    {
        let mov = connection_list[i];
        let ghost old_ret = ret;
        if mov == 0 {
            precseen = false;
        } else if all_moves & mov != 0 {
            if moves & mov != 0 {
                if precseen {
                    ret &= !mov;
                }
                precseen = true;
            } else {
                precseen = false;
            }
        }
        proof {
            assert forall|k: int| 0 <= k < 32 implies #[trigger] has_card(ret, k) == (has_card(
                moves,
                k,
            ) && !exists|p: int|
                p < i + 1 && eq_dropped_at(moves, all_moves, list, p) && #[trigger] has_card(
                    list[p],
                    k,
                )) by {
                crate::cards::lemma_has_ops(old_ret, !mov, k);
                crate::cards::lemma_has_ops(mov, mov, k);
                if eq_dropped_at(moves, all_moves, list, i as int) && has_card(list[i as int], k) {
                    assert(!has_card(ret, k));
                } else {
                    assert(has_card(ret, k) == has_card(old_ret, k));
                    if (exists|p: int|
                        p < i + 1 && eq_dropped_at(moves, all_moves, list, p) && #[trigger] has_card(
                            list[p],
                            k,
                        )) {
                        let p = choose|p: int|
                            p < i + 1 && eq_dropped_at(moves, all_moves, list, p) && #[trigger] has_card(
                                list[p],
                                k,
                            );
                        assert(p < i);
                    }
                }
            }
        }
        i = i + 1;
    }
    proof {
        assert forall|k: int| 0 <= k < 32 implies has_card(ret, k) == (has_card(moves, k) && has_card(ret, k)) by {}
        lemma_subset_of_bits(ret, moves);
        if eq_list_ok(list) && moves != 0 {
            lemma_keeps_a_move(moves, all_moves, list);
            let k = choose|k: int|
                #![trigger has_card(moves, k)]
                has_card(moves, k) && !exists|p: int|
                    eq_dropped_at(moves, all_moves, list, p) && #[trigger] has_card(list[p], k);
            assert(has_card(ret, k));
            crate::cards::lemma_has_consts(k);
        }
    }
    ret
}

/// `a` is a subset of `b` when each card of `a` is in `b`.
pub proof fn lemma_subset_of_bits(a: u32, b: u32)
    requires
        forall|k: int| 0 <= k < 32 ==> has_card(a, k) ==> has_card(b, k),
    ensures
        subset(a, b),
{
    assert forall|k: int| 0 <= k < 32 implies has_card(a & b, k) == has_card(a, k) by {
        crate::cards::lemma_has_ops(a, b, k);
    }
    crate::cards::lemma_ext(a & b, a);
}

// -----------------------------------------------------------------------------
// MOVE REDUCTION: CONNECTIONS
// -----------------------------------------------------------------------------

/// A connection list names single cards (or the breaker 0), each card at most once.
pub open spec fn conn_list_ok(list: Seq<(u32, u8)>) -> bool {
    &&& forall|i: int| 0 <= i < list.len() ==> (#[trigger] list[i]).0 == 0 || is_card(list[i].0)
    &&& forall|i: int, j: int|
        0 <= i < j < list.len() && list[i].0 != 0 ==> #[trigger] list[i].0 != #[trigger] list[j].0
}

/// What `get_connections` promises about its result.
pub open spec fn connections_ok(c: Connections, moves: u32, all_not_played_cards: u32) -> bool {
    let held = moves & all_not_played_cards;
    let n = c[0].0 as int;
    &&& 0 <= n <= 6
    &&& c[0].1 == c[0].2
    &&& subset(c[0].1, held)
    &&& forall|r: int|
        1 <= r <= n ==> (#[trigger] c[r]).0 != 0 && subset(c[r].0, held) && is_card(c[r].1)
            && is_card(c[r].2) && subset(c[r].1, c[r].0) && subset(c[r].2, c[r].0)
    &&& forall|r: int| n < r < 7 ==> #[trigger] c[r] == (0u32, 0u32, 0u32)
}

proof fn lemma_seen_step(list: Seq<(u32, u8)>, i: int, seen: u32)
    requires
        conn_list_ok(list),
        0 <= i < list.len(),
        forall|j: int| i <= j < list.len() ==> #[trigger] list[j].0 & seen == 0,
    ensures
        forall|j: int| i + 1 <= j < list.len() ==> #[trigger] list[j].0 & (seen | list[i].0) == 0,
{
    assert forall|j: int| i + 1 <= j < list.len() implies #[trigger] list[j].0 & (seen | list[i].0)
        == 0 by {
        let a = list[j].0;
        let b = list[i].0;
        assert(list[j].0 == 0 || is_card(list[j].0));
        assert(list[i].0 == 0 || is_card(list[i].0));
        if a == 0 {
            lemma_set_algebra(0, seen, b);
            lemma_set_algebra(seen | b, 0, 0);
        } else if b == 0 {
            lemma_set_algebra(seen, 0, 0);
        } else {
            let ka = crate::cards::lemma_card_index(a);
            let kb = crate::cards::lemma_card_index(b);
            assert(a != b);
            crate::cards::lemma_cards_disjoint(ka, kb);
            lemma_set_algebra(a, seen, b);
        }
    }
}

/// Card `k` is named by an entry of the connection list.
pub open spec fn listed(list: Seq<(u32, u8)>, k: int) -> bool {
    exists|j: int| 0 <= j < list.len() && #[trigger] list[j].0 == bit(k)
}

/// Card `k` is named by an entry of the connection list before position `i`.
pub open spec fn listed_before(list: Seq<(u32, u8)>, i: int, k: int) -> bool {
    exists|j: int| 0 <= j < i && #[trigger] list[j].0 == bit(k)
}

/// Card `k` belongs to one of the runs in rows 1 to `n`.
pub open spec fn in_rows(c: Seq<(u32, u32, u32)>, n: int, k: int) -> bool {
    exists|j: int| 1 <= j <= n && #[trigger] has_card(c[j].0, k)
}

/// Card `k` is accounted for while the list is scanned: in a run of the rows, among the
/// single moves, or the one card of the run being read.
pub open spec fn covered_at(
    c: Seq<(u32, u32, u32)>,
    n: int,
    singles: u32,
    len: u8,
    open: u32,
    k: int,
) -> bool {
    in_rows(c, n, k) || has_card(singles, k) || (len == 1 && has_card(open, k))
}

/// Closing the run being read keeps every card accounted for.
proof fn lemma_cover_invalidate(c: Seq<(u32, u32, u32)>, n: int, s: u32, l: u8, a: u32)
    ensures
        forall|k: int|
            0 <= k < 32 && #[trigger] covered_at(c, n, s, l, a, k) ==> covered_at(
                c,
                n,
                if l == 1 {
                    s | a
                } else {
                    s
                },
                0,
                a,
                k,
            ),
{
    assert forall|k: int| 0 <= k < 32 && #[trigger] covered_at(c, n, s, l, a, k) implies covered_at(
        c,
        n,
        if l == 1 {
            s | a
        } else {
            s
        },
        0,
        a,
        k,
    ) by {
        crate::cards::lemma_has_ops(s, a, k);
    }
}

/// Reading one more held card `bit(k0)` into the run keeps every card accounted for, and
/// accounts for that card.
proof fn lemma_cover_extend(
    c0: Seq<(u32, u32, u32)>,
    n0: int,
    s0: u32,
    l0: u8,
    a0: u32,
    mov: u32,
    k0: int,
    c: Seq<(u32, u32, u32)>,
    n: int,
    l: u8,
    a: u32,
)
    requires
        0 <= k0 < 32,
        mov == bit(k0),
        l == l0 + 1,
        l0 == 0 ==> a == mov | mov,
        l0 >= 1 ==> a == a0 | mov,
        l0 >= 2 ==> c0[n0].0 == a0,
        l == 2 ==> n == n0 + 1,
        l != 2 ==> n == n0,
        l < 2 ==> c == c0,
        l >= 2 ==> c.len() == c0.len() && 1 <= n < c.len() && c[n].0 == a && forall|j: int|
            0 <= j < c.len() && j != n ==> #[trigger] c[j] == c0[j],
    ensures
        forall|k: int|
            0 <= k < 32 && #[trigger] covered_at(c0, n0, s0, l0, a0, k) ==> covered_at(
                c,
                n,
                s0,
                l,
                a,
                k,
            ),
        covered_at(c, n, s0, l, a, k0),
{
    crate::cards::lemma_has_bit(k0, k0);
    crate::cards::lemma_has_ops(mov, mov, k0);
    crate::cards::lemma_has_ops(a0, mov, k0);
    assert forall|k: int| 0 <= k < 32 && #[trigger] covered_at(c0, n0, s0, l0, a0, k) implies covered_at(
        c,
        n,
        s0,
        l,
        a,
        k,
    ) by {
        crate::cards::lemma_has_ops(a0, mov, k);
        if in_rows(c0, n0, k) {
            let j = choose|j: int| 1 <= j <= n0 && #[trigger] has_card(c0[j].0, k);
            if l >= 2 && j == n {
                assert(has_card(c[j].0, k));
            } else if l >= 2 {
                assert(c[j] == c0[j]);
            }
        } else if l0 == 1 && has_card(a0, k) {
            assert(has_card(c[n].0, k));
        }
    }
    if l >= 2 {
        assert(has_card(c[n].0, k0));
    }
}

/// The state of a scan along a connection list: the number of runs of two or more held
/// cards closed or open so far, the held cards that form runs of one card, the length of the
/// run being read, its cards, its first highest and its last lowest card with their values,
/// and the rows of runs.
pub type ConnState = (int, u32, int, u32, (u32, u8), (u32, u8), Seq<(u32, u32, u32)>);

/// Closes the run being read: a run of one card becomes a single move.
pub open spec fn conn_close(st: ConnState) -> ConnState {
    (st.0, if st.2 == 1 {
        st.1 | st.3
    } else {
        st.1
    }, 0, st.3, st.4, st.5, st.6)
}

/// One entry `mov` (with value `aug`) of the list: a breaker closes the run; a held card
/// extends it (a second card opens a new row, later cards widen it); any other card still
/// in play closes it; a played card is skipped.
pub open spec fn conn_step(st: ConnState, mov: u32, aug: u8, moves: u32, all: u32) -> ConnState {
    let st1 = if mov == 0 {
        conn_close(st)
    } else {
        st
    };
    if all & mov != 0 {
        if moves & mov != 0 {
            let len = st1.2 + 1;
            let run0 = if len == 1 {
                mov
            } else {
                st1.3
            };
            let high0 = if len == 1 {
                (mov, aug)
            } else {
                st1.4
            };
            let low0 = if len == 1 {
                (mov, aug)
            } else {
                st1.5
            };
            let run = run0 | mov;
            let high = if aug > high0.1 {
                (mov, aug)
            } else {
                high0
            };
            let low = if aug <= low0.1 {
                (mov, aug)
            } else {
                low0
            };
            let nr = if len == 2 {
                st1.0 + 1
            } else {
                st1.0
            };
            let rows = if len >= 2 {
                st1.6.update(nr, (run, high.0, low.0))
            } else {
                st1.6
            };
            (nr, st1.1, len, run, high, low, rows)
        } else {
            conn_close(st1)
        }
    } else {
        st1
    }
}

/// The state after scanning the first `i` entries of the list.
pub open spec fn conn_scan(list: Seq<(u32, u8)>, moves: u32, all: u32, i: int) -> ConnState
    decreases i,
{
    if i <= 0 {
        (0, 0u32, 0, 0u32, (0u32, 0u8), (0u32, 0u8), Seq::new(7, |j: int| (0u32, 0u32, 0u32)))
    } else {
        conn_step(conn_scan(list, moves, all, i - 1), list[i - 1].0, list[i - 1].1, moves, all)
    }
}

/// The connections of a scan of the whole list: the rows of runs, with the number of runs
/// and the single moves in row 0.
pub open spec fn connections_of(list: Seq<(u32, u8)>, moves: u32, all: u32) -> Seq<(u32, u32, u32)> {
    let st = conn_scan(list, moves, all, list.len() as int);
    st.6.update(0, (st.0 as u32, st.1, st.1))
}

/// The connections of held cards along a connection list: runs of at least two held cards
/// with no other card in play between them, with their highest and lowest card, and the held
/// cards that belong to no run.
pub fn get_connections(
    moves: u32,
    all_not_played_cards: u32,
    connection_list: &[(u32, u8)],
) -> (r: Connections)
    requires
        conn_list_ok(connection_list@),
        card_count(moves) <= 13,
    ensures
        connections_ok(r, moves, all_not_played_cards),
        r@ == connections_of(connection_list@, moves, all_not_played_cards),
        2 * (r[0].0 as int) <= card_count(moves & all_not_played_cards),
        connection_list@.len() > 0 && connection_list@.last().0 == 0 ==> forall|k: int|
            0 <= k < 32 && has_card(moves & all_not_played_cards, k) && listed(
                connection_list@,
                k,
            ) ==> #[trigger] has_card(r[0].1, k) || in_rows(r@, r[0].0 as int, k),
{
    let mut nr_connections = 0usize;
    let mut single_moves = 0u32;
    let mut connections: Connections = [(0, 0, 0); 7];

    let mut conn_length = 0u8;
    let mut conn_all = 0u32;
    let mut conn_high = (0u32, 0u8);
    let mut conn_low = (0u32, 0u8);

    let ghost list = connection_list@;
    let ghost held = moves & all_not_played_cards;
    let ghost mut seen: u32 = 0;
    let ghost mut processed: u32 = 0;
    let n = connection_list.len();
    let mut i: usize = 0;
    proof {
        lemma_empty_set();
        lemma_set_algebra(held, 0, 0);
        assert forall|j: int| 0 <= j < n implies #[trigger] list[j].0 & seen == 0 by {
            lemma_set_algebra(list[j].0, 0, 0);
        }
        lemma_set_algebra(moves, all_not_played_cards, 0);
        crate::cards::lemma_subset_bounds(held, moves, 0);
        lemma_set_algebra(held, 0, 0);
        lemma_set_algebra(0, 0, 0);
    }
    while i < n
        invariant
            n == list.len(),
            list == connection_list@,
            conn_list_ok(list),
            held == moves & all_not_played_cards,
            card_count(held) <= 13,
            i <= n,
            forall|j: int| i <= j < n ==> #[trigger] list[j].0 & seen == 0,
            subset(processed, seen),
            subset(processed, held),
            card_count(processed) >= 2 * nr_connections + if conn_length == 1 {
                1int
            } else {
                0int
            },
            conn_length <= card_count(processed),
            nr_connections <= 6,
            subset(single_moves, held),
            conn_length >= 1 ==> (conn_all != 0 && subset(conn_all, held) && is_card(conn_high.0)
                && is_card(conn_low.0) && subset(conn_high.0, conn_all) && subset(
                conn_low.0,
                conn_all,
            )),
            conn_length >= 2 ==> nr_connections >= 1,
            forall|r: int|
                1 <= r <= nr_connections ==> (#[trigger] connections@[r]).0 != 0 && subset(
                    connections@[r].0,
                    held,
                ) && is_card(connections@[r].1) && is_card(connections@[r].2) && subset(
                    connections@[r].1,
                    connections@[r].0,
                ) && subset(connections@[r].2, connections@[r].0),
            forall|r: int| nr_connections < r < 7 ==> #[trigger] connections@[r] == (0u32, 0u32, 0u32),
            connections@[0] == (0u32, 0u32, 0u32),
            conn_length >= 2 ==> connections@[nr_connections as int].0 == conn_all,
            ({
                let st = conn_scan(list, moves, all_not_played_cards, i as int);
                &&& st.0 == nr_connections
                &&& st.1 == single_moves
                &&& st.2 == conn_length
                &&& st.3 == conn_all
                &&& st.4 == conn_high
                &&& st.5 == conn_low
                &&& st.6 == connections@
            }),
            i > 0 && list[i - 1].0 == 0 ==> conn_length == 0,
            forall|k: int|
                0 <= k < 32 && has_card(held, k) && #[trigger] listed_before(list, i as int, k)
                    ==> covered_at(
                    connections@,
                    nr_connections as int,
                    single_moves,
                    conn_length,
                    conn_all,
                    k,
                ),
        decreases n - i,
    {
        let ghost c0 = connections@;
        let ghost n0 = nr_connections as int;
        let ghost s0 = single_moves;
        let ghost l0 = conn_length;
        let ghost a0 = conn_all;
        let (mov, aug) = connection_list[i];
        proof {
            assert(list[i as int] == (mov, aug));
        }
        proof {
            lemma_seen_step(list, i as int, seen);
            lemma_set_algebra(processed, seen, mov);
            lemma_set_algebra(seen, mov, 0);
            crate::cards::lemma_subset_bounds(processed, held, 0);
        }
        if mov == 0 {
            let (new_single_moves, new_conn_length) = invalidate_connection(
                single_moves,
                conn_length,
                conn_all,
            );
            proof {
                lemma_set_algebra(single_moves, conn_all, held);
                lemma_cover_invalidate(connections@, n0, single_moves, conn_length, conn_all);
            }
            single_moves = new_single_moves;
            conn_length = new_conn_length;
        }
        proof {
            assert(mov == 0 ==> all_not_played_cards & mov == 0) by (bit_vector);
        }
        if all_not_played_cards & mov != 0 {
            if moves & mov != 0 {
                proof {
                    assert(list[i as int].0 == mov);
                    lemma_set_algebra(all_not_played_cards, 0, 0);
                    assert(mov != 0);
                    assert(is_card(mov));
                }
                let ghost k = crate::cards::lemma_card_index(mov);
                proof {
                    assert(mov & seen == 0);
                    assert(subset(mov, held)) by {
                        let kk = k as u32;
                        assert(mov == 1u32 << kk);
                        crate::cards::lemma_bit_facts(moves, kk, 0);
                        crate::cards::lemma_bit_facts(all_not_played_cards, kk, 0);
                        lemma_set_algebra(mov, moves, all_not_played_cards);
                    }
                    crate::cards::lemma_single(k);
                    assert(!has_card(processed, k)) by {
                        crate::cards::lemma_has_ops(processed, seen, k);
                        crate::cards::lemma_has_ops(mov, seen, k);
                        crate::cards::lemma_has_consts(k);
                    }
                    crate::cards::lemma_add_card(processed, k);
                    lemma_set_algebra(processed, mov, held);
                    lemma_set_algebra(seen, mov, 0);
                    lemma_set_algebra(processed, mov, seen | mov);
                    processed = processed | mov;
                    crate::cards::lemma_subset_bounds(processed, held, 0);
                }
                conn_length += 1;

                if conn_length == 1 {
                    conn_high = (mov, aug);
                    conn_low = (mov, aug);
                    conn_all = mov;
                }
                proof {
                    lemma_set_algebra(conn_all, mov, held);
                    lemma_set_algebra(conn_high.0, conn_all, mov);
                    lemma_set_algebra(conn_low.0, conn_all, mov);
                    lemma_set_algebra(mov, conn_all, 0);
                    lemma_set_algebra(conn_all, mov, 0);
                }
                conn_all |= mov;
                if aug > conn_high.1 {
                    conn_high = (mov, aug);
                }
                if aug <= conn_low.1 {
                    conn_low = (mov, aug);
                }
                if conn_length == 2 {
                    nr_connections += 1;
                }
                if conn_length >= 2 {
                    connections[nr_connections] = (conn_all, conn_high.0, conn_low.0);
                }
                proof {
                    lemma_cover_extend(
                        c0,
                        n0,
                        s0,
                        l0,
                        a0,
                        mov,
                        k,
                        connections@,
                        nr_connections as int,
                        conn_length,
                        conn_all,
                    );
                    assert forall|kk: int| 0 <= kk < 32 && list[i as int].0 == bit(kk) implies covered_at(
                        connections@,
                        nr_connections as int,
                        single_moves,
                        conn_length,
                        conn_all,
                        kk,
                    ) by {
                        crate::cards::lemma_has_bit(k, kk);
                        crate::cards::lemma_has_bit(kk, kk);
                    }
                }
            } else {
                let (new_single_moves, new_conn_length) = invalidate_connection(
                    single_moves,
                    conn_length,
                    conn_all,
                );
                proof {
                    lemma_set_algebra(single_moves, conn_all, held);
                    lemma_cover_invalidate(connections@, n0, single_moves, conn_length, conn_all);
                    assert forall|k: int| 0 <= k < 32 && list[i as int].0 == bit(k) implies !has_card(
                        held,
                        k,
                    ) by {
                        crate::cards::lemma_has_ops(moves, all_not_played_cards, k);
                    }
                }
                single_moves = new_single_moves;
                conn_length = new_conn_length;
            }
        } else {
            proof {
                assert forall|k: int| 0 <= k < 32 && list[i as int].0 == bit(k) implies !has_card(
                    held,
                    k,
                ) by {
                    crate::cards::lemma_has_ops(moves, all_not_played_cards, k);
                }
            }
        }
        proof {
            seen = seen | mov;
            assert forall|k: int|
                0 <= k < 32 && has_card(held, k) && #[trigger] listed_before(list, i + 1, k)
                    implies covered_at(
                connections@,
                nr_connections as int,
                single_moves,
                conn_length,
                conn_all,
                k,
            ) by {
                if !listed_before(list, i as int, k) {
                    assert(list[i as int].0 == bit(k));
                } else {
                    assert(covered_at(c0, n0, s0, l0, a0, k));
                }
            }
        }
        i = i + 1;
    }
    proof {
        crate::cards::lemma_subset_bounds(processed, held, 0);
    }
    let ghost before = connections@;
    connections[0] = (nr_connections as u32, single_moves, single_moves);
    proof {
        assert(connections@ =~= connections_of(list, moves, all_not_played_cards));
    }
    proof {
        if n > 0 && list.last().0 == 0 {
            assert forall|k: int|
                0 <= k < 32 && has_card(moves & all_not_played_cards, k) && listed(list, k)
                    implies #[trigger] has_card(connections[0].1, k) || in_rows(
                connections@,
                connections[0].0 as int,
                k,
            ) by {
                let j = choose|j: int| 0 <= j < list.len() && #[trigger] list[j].0 == bit(k);
                assert(listed_before(list, n as int, k));
                assert(covered_at(before, nr_connections as int, single_moves, conn_length, conn_all, k));
                if in_rows(before, nr_connections as int, k) {
                    let r = choose|r: int| 1 <= r <= nr_connections && #[trigger] has_card(before[r].0, k);
                    assert(connections@[r] == before[r]);
                }
            }
        }
    }
    connections
}

/// Closes the current run: a run of one card becomes a single move.
fn invalidate_connection(single_moves: u32, conn_length: u8, conn_all: u32) -> (r: (u32, u8))
    ensures
        r.0 == if conn_length == 1 {
            single_moves | conn_all
        } else {
            single_moves
        },
        r.1 == 0,
{
    let new_single_moves = if conn_length == 1 {
        single_moves | conn_all
    } else {
        single_moves
    };
    (new_single_moves, 0)
}

/// The connection lists of suit and grand games name each card at most once.
pub proof fn lemma_conn_lists_ok()
    ensures
        conn_list_ok(FARB_CONN@),
        conn_list_ok(GRAND_CONN@),
{
    crate::cards::lemma_card_constants();
    assert forall|i: int| 0 <= i < 36 implies (#[trigger] FARB_CONN@[i]).0 == 0 || is_card(FARB_CONN@[i].0) by {
        if i == 0 {
            assert(FARB_CONN@[0].0 == bit(31));
        }
        else if i == 1 {
            assert(FARB_CONN@[1].0 == bit(30));
        }
        else if i == 2 {
            assert(FARB_CONN@[2].0 == bit(29));
        }
        else if i == 3 {
            assert(FARB_CONN@[3].0 == bit(28));
        }
        else if i == 4 {
            assert(FARB_CONN@[4].0 == bit(27));
        }
        else if i == 5 {
            assert(FARB_CONN@[5].0 == bit(26));
        }
        else if i == 6 {
            assert(FARB_CONN@[6].0 == bit(25));
        }
        else if i == 7 {
            assert(FARB_CONN@[7].0 == bit(24));
        }
        else if i == 8 {
            assert(FARB_CONN@[8].0 == bit(23));
        }
        else if i == 9 {
            assert(FARB_CONN@[9].0 == bit(22));
        }
        else if i == 10 {
            assert(FARB_CONN@[10].0 == bit(21));
        }
        else if i == 12 {
            assert(FARB_CONN@[12].0 == bit(20));
        }
        else if i == 13 {
            assert(FARB_CONN@[13].0 == bit(19));
        }
        else if i == 14 {
            assert(FARB_CONN@[14].0 == bit(18));
        }
        else if i == 15 {
            assert(FARB_CONN@[15].0 == bit(17));
        }
        else if i == 16 {
            assert(FARB_CONN@[16].0 == bit(16));
        }
        else if i == 17 {
            assert(FARB_CONN@[17].0 == bit(15));
        }
        else if i == 18 {
            assert(FARB_CONN@[18].0 == bit(14));
        }
        else if i == 20 {
            assert(FARB_CONN@[20].0 == bit(13));
        }
        else if i == 21 {
            assert(FARB_CONN@[21].0 == bit(12));
        }
        else if i == 22 {
            assert(FARB_CONN@[22].0 == bit(11));
        }
        else if i == 23 {
            assert(FARB_CONN@[23].0 == bit(10));
        }
        else if i == 24 {
            assert(FARB_CONN@[24].0 == bit(9));
        }
        else if i == 25 {
            assert(FARB_CONN@[25].0 == bit(8));
        }
        else if i == 26 {
            assert(FARB_CONN@[26].0 == bit(7));
        }
        else if i == 28 {
            assert(FARB_CONN@[28].0 == bit(6));
        }
        else if i == 29 {
            assert(FARB_CONN@[29].0 == bit(5));
        }
        else if i == 30 {
            assert(FARB_CONN@[30].0 == bit(4));
        }
        else if i == 31 {
            assert(FARB_CONN@[31].0 == bit(3));
        }
        else if i == 32 {
            assert(FARB_CONN@[32].0 == bit(2));
        }
        else if i == 33 {
            assert(FARB_CONN@[33].0 == bit(1));
        }
        else if i == 34 {
            assert(FARB_CONN@[34].0 == bit(0));
        }
    }
    assert forall|i: int, j: int| 0 <= i < j < 36 && FARB_CONN@[i].0 != 0 implies #[trigger] FARB_CONN@[i].0 != #[trigger] FARB_CONN@[j].0 by {
        assert(i == 0 || i == 1 || i == 2 || i == 3 || i == 4 || i == 5 || i == 6 || i == 7 || i == 8 || i == 9 || i == 10 || i == 11 || i == 12 || i == 13 || i == 14 || i == 15 || i == 16 || i == 17 || i == 18 || i == 19 || i == 20 || i == 21 || i == 22 || i == 23 || i == 24 || i == 25 || i == 26 || i == 27 || i == 28 || i == 29 || i == 30 || i == 31 || i == 32 || i == 33 || i == 34 || i == 35);
        assert(j == 0 || j == 1 || j == 2 || j == 3 || j == 4 || j == 5 || j == 6 || j == 7 || j == 8 || j == 9 || j == 10 || j == 11 || j == 12 || j == 13 || j == 14 || j == 15 || j == 16 || j == 17 || j == 18 || j == 19 || j == 20 || j == 21 || j == 22 || j == 23 || j == 24 || j == 25 || j == 26 || j == 27 || j == 28 || j == 29 || j == 30 || j == 31 || j == 32 || j == 33 || j == 34 || j == 35);
    }
    assert forall|i: int| 0 <= i < 37 implies (#[trigger] GRAND_CONN@[i]).0 == 0 || is_card(GRAND_CONN@[i].0) by {
        if i == 0 {
            assert(GRAND_CONN@[0].0 == bit(31));
        }
        else if i == 1 {
            assert(GRAND_CONN@[1].0 == bit(30));
        }
        else if i == 2 {
            assert(GRAND_CONN@[2].0 == bit(29));
        }
        else if i == 3 {
            assert(GRAND_CONN@[3].0 == bit(28));
        }
        else if i == 5 {
            assert(GRAND_CONN@[5].0 == bit(27));
        }
        else if i == 6 {
            assert(GRAND_CONN@[6].0 == bit(26));
        }
        else if i == 7 {
            assert(GRAND_CONN@[7].0 == bit(25));
        }
        else if i == 8 {
            assert(GRAND_CONN@[8].0 == bit(24));
        }
        else if i == 9 {
            assert(GRAND_CONN@[9].0 == bit(23));
        }
        else if i == 10 {
            assert(GRAND_CONN@[10].0 == bit(22));
        }
        else if i == 11 {
            assert(GRAND_CONN@[11].0 == bit(21));
        }
        else if i == 13 {
            assert(GRAND_CONN@[13].0 == bit(20));
        }
        else if i == 14 {
            assert(GRAND_CONN@[14].0 == bit(19));
        }
        else if i == 15 {
            assert(GRAND_CONN@[15].0 == bit(18));
        }
        else if i == 16 {
            assert(GRAND_CONN@[16].0 == bit(17));
        }
        else if i == 17 {
            assert(GRAND_CONN@[17].0 == bit(16));
        }
        else if i == 18 {
            assert(GRAND_CONN@[18].0 == bit(15));
        }
        else if i == 19 {
            assert(GRAND_CONN@[19].0 == bit(14));
        }
        else if i == 21 {
            assert(GRAND_CONN@[21].0 == bit(13));
        }
        else if i == 22 {
            assert(GRAND_CONN@[22].0 == bit(12));
        }
        else if i == 23 {
            assert(GRAND_CONN@[23].0 == bit(11));
        }
        else if i == 24 {
            assert(GRAND_CONN@[24].0 == bit(10));
        }
        else if i == 25 {
            assert(GRAND_CONN@[25].0 == bit(9));
        }
        else if i == 26 {
            assert(GRAND_CONN@[26].0 == bit(8));
        }
        else if i == 27 {
            assert(GRAND_CONN@[27].0 == bit(7));
        }
        else if i == 29 {
            assert(GRAND_CONN@[29].0 == bit(6));
        }
        else if i == 30 {
            assert(GRAND_CONN@[30].0 == bit(5));
        }
        else if i == 31 {
            assert(GRAND_CONN@[31].0 == bit(4));
        }
        else if i == 32 {
            assert(GRAND_CONN@[32].0 == bit(3));
        }
        else if i == 33 {
            assert(GRAND_CONN@[33].0 == bit(2));
        }
        else if i == 34 {
            assert(GRAND_CONN@[34].0 == bit(1));
        }
        else if i == 35 {
            assert(GRAND_CONN@[35].0 == bit(0));
        }
    }
    assert forall|i: int, j: int| 0 <= i < j < 37 && GRAND_CONN@[i].0 != 0 implies #[trigger] GRAND_CONN@[i].0 != #[trigger] GRAND_CONN@[j].0 by {
        assert(i == 0 || i == 1 || i == 2 || i == 3 || i == 4 || i == 5 || i == 6 || i == 7 || i == 8 || i == 9 || i == 10 || i == 11 || i == 12 || i == 13 || i == 14 || i == 15 || i == 16 || i == 17 || i == 18 || i == 19 || i == 20 || i == 21 || i == 22 || i == 23 || i == 24 || i == 25 || i == 26 || i == 27 || i == 28 || i == 29 || i == 30 || i == 31 || i == 32 || i == 33 || i == 34 || i == 35 || i == 36);
        assert(j == 0 || j == 1 || j == 2 || j == 3 || j == 4 || j == 5 || j == 6 || j == 7 || j == 8 || j == 9 || j == 10 || j == 11 || j == 12 || j == 13 || j == 14 || j == 15 || j == 16 || j == 17 || j == 18 || j == 19 || j == 20 || j == 21 || j == 22 || j == 23 || j == 24 || j == 25 || j == 26 || j == 27 || j == 28 || j == 29 || j == 30 || j == 31 || j == 32 || j == 33 || j == 34 || j == 35 || j == 36);
    }
}


/// The lists of equivalent cards are cards and breakers, with no card twice.
pub proof fn lemma_eq_lists_ok()
    ensures
        eq_list_ok(FARB_CONN_EQ@),
        eq_list_ok(GRAND_CONN_EQ@),
        eq_list_ok(NULL_CONN_EQ@),
{
    crate::cards::lemma_card_constants();
    assert forall|i: int| 0 <= i < 21 implies (#[trigger] FARB_CONN_EQ@[i]) == 0 || is_card(
        FARB_CONN_EQ@[i],
    ) by {
        if i == 0 {
            assert(FARB_CONN_EQ@[0] == bit(31));
        } else if i == 1 {
            assert(FARB_CONN_EQ@[1] == bit(30));
        } else if i == 2 {
            assert(FARB_CONN_EQ@[2] == bit(29));
        } else if i == 3 {
            assert(FARB_CONN_EQ@[3] == bit(28));
        } else if i == 5 {
            assert(FARB_CONN_EQ@[5] == bit(23));
        } else if i == 6 {
            assert(FARB_CONN_EQ@[6] == bit(22));
        } else if i == 7 {
            assert(FARB_CONN_EQ@[7] == bit(21));
        } else if i == 9 {
            assert(FARB_CONN_EQ@[9] == bit(16));
        } else if i == 10 {
            assert(FARB_CONN_EQ@[10] == bit(15));
        } else if i == 11 {
            assert(FARB_CONN_EQ@[11] == bit(14));
        } else if i == 13 {
            assert(FARB_CONN_EQ@[13] == bit(9));
        } else if i == 14 {
            assert(FARB_CONN_EQ@[14] == bit(8));
        } else if i == 15 {
            assert(FARB_CONN_EQ@[15] == bit(7));
        } else if i == 17 {
            assert(FARB_CONN_EQ@[17] == bit(2));
        } else if i == 18 {
            assert(FARB_CONN_EQ@[18] == bit(1));
        } else if i == 19 {
            assert(FARB_CONN_EQ@[19] == bit(0));
        }
    }
    assert forall|i: int, j: int| 0 <= i < j < 21 && FARB_CONN_EQ@[i] != 0 implies #[trigger] FARB_CONN_EQ@[i]
        != #[trigger] FARB_CONN_EQ@[j] by {
        assert(i == 0 || i == 1 || i == 2 || i == 3 || i == 4 || i == 5 || i == 6 || i == 7 || i == 8 || i == 9 || i == 10 || i == 11 || i == 12 || i == 13 || i == 14 || i == 15 || i == 16 || i == 17 || i == 18 || i == 19 || i == 20);
        assert(j == 0 || j == 1 || j == 2 || j == 3 || j == 4 || j == 5 || j == 6 || j == 7 || j == 8 || j == 9 || j == 10 || j == 11 || j == 12 || j == 13 || j == 14 || j == 15 || j == 16 || j == 17 || j == 18 || j == 19 || j == 20);
    }
    assert forall|i: int| 0 <= i < 21 implies (#[trigger] GRAND_CONN_EQ@[i]) == 0 || is_card(
        GRAND_CONN_EQ@[i],
    ) by {
        if i == 0 {
            assert(GRAND_CONN_EQ@[0] == bit(31));
        } else if i == 1 {
            assert(GRAND_CONN_EQ@[1] == bit(30));
        } else if i == 2 {
            assert(GRAND_CONN_EQ@[2] == bit(29));
        } else if i == 3 {
            assert(GRAND_CONN_EQ@[3] == bit(28));
        } else if i == 5 {
            assert(GRAND_CONN_EQ@[5] == bit(23));
        } else if i == 6 {
            assert(GRAND_CONN_EQ@[6] == bit(22));
        } else if i == 7 {
            assert(GRAND_CONN_EQ@[7] == bit(21));
        } else if i == 9 {
            assert(GRAND_CONN_EQ@[9] == bit(16));
        } else if i == 10 {
            assert(GRAND_CONN_EQ@[10] == bit(15));
        } else if i == 11 {
            assert(GRAND_CONN_EQ@[11] == bit(14));
        } else if i == 13 {
            assert(GRAND_CONN_EQ@[13] == bit(9));
        } else if i == 14 {
            assert(GRAND_CONN_EQ@[14] == bit(8));
        } else if i == 15 {
            assert(GRAND_CONN_EQ@[15] == bit(7));
        } else if i == 17 {
            assert(GRAND_CONN_EQ@[17] == bit(2));
        } else if i == 18 {
            assert(GRAND_CONN_EQ@[18] == bit(1));
        } else if i == 19 {
            assert(GRAND_CONN_EQ@[19] == bit(0));
        }
    }
    assert forall|i: int, j: int| 0 <= i < j < 21 && GRAND_CONN_EQ@[i] != 0 implies #[trigger] GRAND_CONN_EQ@[i]
        != #[trigger] GRAND_CONN_EQ@[j] by {
        assert(i == 0 || i == 1 || i == 2 || i == 3 || i == 4 || i == 5 || i == 6 || i == 7 || i == 8 || i == 9 || i == 10 || i == 11 || i == 12 || i == 13 || i == 14 || i == 15 || i == 16 || i == 17 || i == 18 || i == 19 || i == 20);
        assert(j == 0 || j == 1 || j == 2 || j == 3 || j == 4 || j == 5 || j == 6 || j == 7 || j == 8 || j == 9 || j == 10 || j == 11 || j == 12 || j == 13 || j == 14 || j == 15 || j == 16 || j == 17 || j == 18 || j == 19 || j == 20);
    }
    assert forall|i: int| 0 <= i < 36 implies (#[trigger] NULL_CONN_EQ@[i]) == 0 || is_card(
        NULL_CONN_EQ@[i],
    ) by {
        if i == 0 {
            assert(NULL_CONN_EQ@[0] == bit(27));
        } else if i == 1 {
            assert(NULL_CONN_EQ@[1] == bit(25));
        } else if i == 2 {
            assert(NULL_CONN_EQ@[2] == bit(24));
        } else if i == 3 {
            assert(NULL_CONN_EQ@[3] == bit(31));
        } else if i == 4 {
            assert(NULL_CONN_EQ@[4] == bit(26));
        } else if i == 5 {
            assert(NULL_CONN_EQ@[5] == bit(23));
        } else if i == 6 {
            assert(NULL_CONN_EQ@[6] == bit(22));
        } else if i == 7 {
            assert(NULL_CONN_EQ@[7] == bit(21));
        } else if i == 9 {
            assert(NULL_CONN_EQ@[9] == bit(20));
        } else if i == 10 {
            assert(NULL_CONN_EQ@[10] == bit(18));
        } else if i == 11 {
            assert(NULL_CONN_EQ@[11] == bit(17));
        } else if i == 12 {
            assert(NULL_CONN_EQ@[12] == bit(30));
        } else if i == 13 {
            assert(NULL_CONN_EQ@[13] == bit(19));
        } else if i == 14 {
            assert(NULL_CONN_EQ@[14] == bit(16));
        } else if i == 15 {
            assert(NULL_CONN_EQ@[15] == bit(15));
        } else if i == 16 {
            assert(NULL_CONN_EQ@[16] == bit(14));
        } else if i == 18 {
            assert(NULL_CONN_EQ@[18] == bit(13));
        } else if i == 19 {
            assert(NULL_CONN_EQ@[19] == bit(11));
        } else if i == 20 {
            assert(NULL_CONN_EQ@[20] == bit(10));
        } else if i == 21 {
            assert(NULL_CONN_EQ@[21] == bit(29));
        } else if i == 22 {
            assert(NULL_CONN_EQ@[22] == bit(12));
        } else if i == 23 {
            assert(NULL_CONN_EQ@[23] == bit(9));
        } else if i == 24 {
            assert(NULL_CONN_EQ@[24] == bit(8));
        } else if i == 25 {
            assert(NULL_CONN_EQ@[25] == bit(7));
        } else if i == 27 {
            assert(NULL_CONN_EQ@[27] == bit(6));
        } else if i == 28 {
            assert(NULL_CONN_EQ@[28] == bit(4));
        } else if i == 29 {
            assert(NULL_CONN_EQ@[29] == bit(3));
        } else if i == 30 {
            assert(NULL_CONN_EQ@[30] == bit(28));
        } else if i == 31 {
            assert(NULL_CONN_EQ@[31] == bit(5));
        } else if i == 32 {
            assert(NULL_CONN_EQ@[32] == bit(2));
        } else if i == 33 {
            assert(NULL_CONN_EQ@[33] == bit(1));
        } else if i == 34 {
            assert(NULL_CONN_EQ@[34] == bit(0));
        }
    }
    assert forall|i: int, j: int| 0 <= i < j < 36 && NULL_CONN_EQ@[i] != 0 implies #[trigger] NULL_CONN_EQ@[i]
        != #[trigger] NULL_CONN_EQ@[j] by {
        assert(i == 0 || i == 1 || i == 2 || i == 3 || i == 4 || i == 5 || i == 6 || i == 7 || i == 8 || i == 9 || i == 10 || i == 11 || i == 12 || i == 13 || i == 14 || i == 15 || i == 16 || i == 17 || i == 18 || i == 19 || i == 20 || i == 21 || i == 22 || i == 23 || i == 24 || i == 25 || i == 26 || i == 27 || i == 28 || i == 29 || i == 30 || i == 31 || i == 32 || i == 33 || i == 34 || i == 35);
        assert(j == 0 || j == 1 || j == 2 || j == 3 || j == 4 || j == 5 || j == 6 || j == 7 || j == 8 || j == 9 || j == 10 || j == 11 || j == 12 || j == 13 || j == 14 || j == 15 || j == 16 || j == 17 || j == 18 || j == 19 || j == 20 || j == 21 || j == 22 || j == 23 || j == 24 || j == 25 || j == 26 || j == 27 || j == 28 || j == 29 || j == 30 || j == 31 || j == 32 || j == 33 || j == 34 || j == 35);
    }
}

/// The connection lists of suit and grand games name every card and end with a breaker.
pub proof fn lemma_conn_lists_cover()
    ensures
        forall|k: int| 0 <= k < 32 ==> #[trigger] listed(FARB_CONN@, k) && listed(GRAND_CONN@, k),
        FARB_CONN@.len() > 0 && FARB_CONN@.last().0 == 0,
        GRAND_CONN@.len() > 0 && GRAND_CONN@.last().0 == 0,
{
    crate::cards::lemma_card_constants();
    assert forall|k: int| 0 <= k < 32 implies listed(FARB_CONN@, k) by {
        if k == 0 {
            assert(FARB_CONN@[34].0 == bit(0));
        } else if k == 1 {
            assert(FARB_CONN@[33].0 == bit(1));
        } else if k == 2 {
            assert(FARB_CONN@[32].0 == bit(2));
        } else if k == 3 {
            assert(FARB_CONN@[31].0 == bit(3));
        } else if k == 4 {
            assert(FARB_CONN@[30].0 == bit(4));
        } else if k == 5 {
            assert(FARB_CONN@[29].0 == bit(5));
        } else if k == 6 {
            assert(FARB_CONN@[28].0 == bit(6));
        } else if k == 7 {
            assert(FARB_CONN@[26].0 == bit(7));
        } else if k == 8 {
            assert(FARB_CONN@[25].0 == bit(8));
        } else if k == 9 {
            assert(FARB_CONN@[24].0 == bit(9));
        } else if k == 10 {
            assert(FARB_CONN@[23].0 == bit(10));
        } else if k == 11 {
            assert(FARB_CONN@[22].0 == bit(11));
        } else if k == 12 {
            assert(FARB_CONN@[21].0 == bit(12));
        } else if k == 13 {
            assert(FARB_CONN@[20].0 == bit(13));
        } else if k == 14 {
            assert(FARB_CONN@[18].0 == bit(14));
        } else if k == 15 {
            assert(FARB_CONN@[17].0 == bit(15));
        } else if k == 16 {
            assert(FARB_CONN@[16].0 == bit(16));
        } else if k == 17 {
            assert(FARB_CONN@[15].0 == bit(17));
        } else if k == 18 {
            assert(FARB_CONN@[14].0 == bit(18));
        } else if k == 19 {
            assert(FARB_CONN@[13].0 == bit(19));
        } else if k == 20 {
            assert(FARB_CONN@[12].0 == bit(20));
        } else if k == 21 {
            assert(FARB_CONN@[10].0 == bit(21));
        } else if k == 22 {
            assert(FARB_CONN@[9].0 == bit(22));
        } else if k == 23 {
            assert(FARB_CONN@[8].0 == bit(23));
        } else if k == 24 {
            assert(FARB_CONN@[7].0 == bit(24));
        } else if k == 25 {
            assert(FARB_CONN@[6].0 == bit(25));
        } else if k == 26 {
            assert(FARB_CONN@[5].0 == bit(26));
        } else if k == 27 {
            assert(FARB_CONN@[4].0 == bit(27));
        } else if k == 28 {
            assert(FARB_CONN@[3].0 == bit(28));
        } else if k == 29 {
            assert(FARB_CONN@[2].0 == bit(29));
        } else if k == 30 {
            assert(FARB_CONN@[1].0 == bit(30));
        } else if k == 31 {
            assert(FARB_CONN@[0].0 == bit(31));
        }
    }
    assert(FARB_CONN@.last().0 == 0);
    assert forall|k: int| 0 <= k < 32 implies listed(GRAND_CONN@, k) by {
        if k == 0 {
            assert(GRAND_CONN@[35].0 == bit(0));
        } else if k == 1 {
            assert(GRAND_CONN@[34].0 == bit(1));
        } else if k == 2 {
            assert(GRAND_CONN@[33].0 == bit(2));
        } else if k == 3 {
            assert(GRAND_CONN@[32].0 == bit(3));
        } else if k == 4 {
            assert(GRAND_CONN@[31].0 == bit(4));
        } else if k == 5 {
            assert(GRAND_CONN@[30].0 == bit(5));
        } else if k == 6 {
            assert(GRAND_CONN@[29].0 == bit(6));
        } else if k == 7 {
            assert(GRAND_CONN@[27].0 == bit(7));
        } else if k == 8 {
            assert(GRAND_CONN@[26].0 == bit(8));
        } else if k == 9 {
            assert(GRAND_CONN@[25].0 == bit(9));
        } else if k == 10 {
            assert(GRAND_CONN@[24].0 == bit(10));
        } else if k == 11 {
            assert(GRAND_CONN@[23].0 == bit(11));
        } else if k == 12 {
            assert(GRAND_CONN@[22].0 == bit(12));
        } else if k == 13 {
            assert(GRAND_CONN@[21].0 == bit(13));
        } else if k == 14 {
            assert(GRAND_CONN@[19].0 == bit(14));
        } else if k == 15 {
            assert(GRAND_CONN@[18].0 == bit(15));
        } else if k == 16 {
            assert(GRAND_CONN@[17].0 == bit(16));
        } else if k == 17 {
            assert(GRAND_CONN@[16].0 == bit(17));
        } else if k == 18 {
            assert(GRAND_CONN@[15].0 == bit(18));
        } else if k == 19 {
            assert(GRAND_CONN@[14].0 == bit(19));
        } else if k == 20 {
            assert(GRAND_CONN@[13].0 == bit(20));
        } else if k == 21 {
            assert(GRAND_CONN@[11].0 == bit(21));
        } else if k == 22 {
            assert(GRAND_CONN@[10].0 == bit(22));
        } else if k == 23 {
            assert(GRAND_CONN@[9].0 == bit(23));
        } else if k == 24 {
            assert(GRAND_CONN@[8].0 == bit(24));
        } else if k == 25 {
            assert(GRAND_CONN@[7].0 == bit(25));
        } else if k == 26 {
            assert(GRAND_CONN@[6].0 == bit(26));
        } else if k == 27 {
            assert(GRAND_CONN@[5].0 == bit(27));
        } else if k == 28 {
            assert(GRAND_CONN@[3].0 == bit(28));
        } else if k == 29 {
            assert(GRAND_CONN@[2].0 == bit(29));
        } else if k == 30 {
            assert(GRAND_CONN@[1].0 == bit(30));
        } else if k == 31 {
            assert(GRAND_CONN@[0].0 == bit(31));
        }
    }
    assert(GRAND_CONN@.last().0 == 0);
}

} // verus!
