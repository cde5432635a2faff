//! Card constants in bitboard notation.
//!
//! A set of cards is a `u32`. Bit 31 is the jack of clubs, bit 0 the seven of diamonds;
//! in between come the jacks, then the clubs, spades, hearts and diamonds suits, each
//! ordered ace, ten, king, queen, nine, eight, seven.
use vstd::prelude::*;

verus! {
/// All trump cards of a suit game: the jacks and the clubs suit.
pub const TRUMP_SUIT: u32 = 0b_1111_1111111_0000000_0000000_0000000u32;
/// The same set as `TRUMP_SUIT`, under its older name.
pub const TRUMP_FARBE: u32 = 0b_1111_1111111_0000000_0000000_0000000u32;
/// All trump cards of a grand game: the four jacks.
pub const TRUMP_GRAND: u32 = 0b_1111_0000000_0000000_0000000_0000000u32;
/// A null game has no trump.
pub const TRUMP_NULL: u32 = 0u32;
/// The clubs suit without its jack.
pub const CLUBS: u32 = 0b_0000_1111111_0000000_0000000_0000000u32;
/// The spades suit without its jack.
pub const SPADES: u32 = 0b_0000_0000000_1111111_0000000_0000000u32;
/// The hearts suit without its jack.
pub const HEARTS: u32 = 0b_0000_0000000_0000000_1111111_0000000u32;
/// The diamonds suit without its jack.
pub const DIAMONDS: u32 = 0b_0000_0000000_0000000_0000000_1111111u32;
/// The clubs suit of a null game, jack included.
pub const NULL_CLUBS: u32 = 0b_1000_1111111_0000000_0000000_0000000u32;
/// The spades suit of a null game, jack included.
pub const NULL_SPADES: u32 = 0b_0100_0000000_1111111_0000000_0000000u32;
/// The hearts suit of a null game, jack included.
pub const NULL_HEARTS: u32 = 0b_0010_0000000_0000000_1111111_0000000u32;
/// The diamonds suit of a null game, jack included.
pub const NULL_DIAMONDS: u32 = 0b_0001_0000000_0000000_0000000_1111111u32;
/// The four jacks.
pub const JACKS: u32 = 0b_1111_0000000_0000000_0000000_0000000u32;
/// The four aces.
pub const ACES: u32 = 0b_0000_1000000_1000000_1000000_1000000u32;
/// The four tens.
pub const TENS: u32 = 0b_0000_0100000_0100000_0100000_0100000u32;
/// The four kings.
pub const KINGS: u32 = 0b_0000_0010000_0010000_0010000_0010000u32;
/// The four queens.
pub const QUEENS: u32 = 0b_0000_0001000_0001000_0001000_0001000u32;
/// The four nines.
pub const NINES: u32 = 0b_0000_0000100_0000100_0000100_0000100u32;
/// The four eights.
pub const EIGHTS: u32 = 0b_0000_0000010_0000010_0000010_0000010u32;
/// The four sevens.
pub const SEVENS: u32 = 0b_0000_0000001_0000001_0000001_0000001u32;
/// All 32 cards.
pub const ALLCARDS: u32 = 0b_1111_1111111_1111111_1111111_1111111u32;
pub const JACKOFCLUBS: u32 = 0b_1000_0000000_0000000_0000000_0000000u32;
pub const JACKOFSPADES: u32 = 0b_0100_0000000_0000000_0000000_0000000u32;
pub const JACKOFHEARTS: u32 = 0b_0010_0000000_0000000_0000000_0000000u32;
pub const JACKOFDIAMONDS: u32 = 0b_0001_0000000_0000000_0000000_0000000u32;
pub const ACEOFCLUBS: u32 = 0b_0000_1000000_0000000_0000000_0000000u32;
pub const TENOFCLUBS: u32 = 0b_0000_0100000_0000000_0000000_0000000u32;
pub const KINGOFCLUBS: u32 = 0b_0000_0010000_0000000_0000000_0000000u32;
pub const QUEENOFCLUBS: u32 = 0b_0000_0001000_0000000_0000000_0000000u32;
pub const NINEOFCLUBS: u32 = 0b_0000_0000100_0000000_0000000_0000000u32;
pub const EIGHTOFCLUBS: u32 = 0b_0000_0000010_0000000_0000000_0000000u32;
pub const SEVENOFCLUBS: u32 = 0b_0000_0000001_0000000_0000000_0000000u32;
pub const ACEOFSPADES: u32 = 0b_0000_0000000_1000000_0000000_0000000u32;
pub const TENOFSPADES: u32 = 0b_0000_0000000_0100000_0000000_0000000u32;
pub const KINGOFSPADES: u32 = 0b_0000_0000000_0010000_0000000_0000000u32;
pub const QUEENOFSPADES: u32 = 0b_0000_0000000_0001000_0000000_0000000u32;
pub const NINEOFSPADES: u32 = 0b_0000_0000000_0000100_0000000_0000000u32;
pub const EIGHTOFSPADES: u32 = 0b_0000_0000000_0000010_0000000_0000000u32;
pub const SEVENOFSPADES: u32 = 0b_0000_0000000_0000001_0000000_0000000u32;
pub const ACEOFHEARTS: u32 = 0b_0000_0000000_0000000_1000000_0000000u32;
pub const TENOFHEARTS: u32 = 0b_0000_0000000_0000000_0100000_0000000u32;
pub const KINGOFHEARTS: u32 = 0b_0000_0000000_0000000_0010000_0000000u32;
pub const QUEENOFHEARTS: u32 = 0b_0000_0000000_0000000_0001000_0000000u32;
pub const NINEOFHEARTS: u32 = 0b_0000_0000000_0000000_0000100_0000000u32;
pub const EIGHTOFHEARTS: u32 = 0b_0000_0000000_0000000_0000010_0000000u32;
pub const SEVENOFHEARTS: u32 = 0b_0000_0000000_0000000_0000001_0000000u32;
pub const ACEOFDIAMONDS: u32 = 0b_0000_0000000_0000000_0000000_1000000u32;
pub const TENOFDIAMONDS: u32 = 0b_0000_0000000_0000000_0000000_0100000u32;
pub const KINGOFDIAMONDS: u32 = 0b_0000_0000000_0000000_0000000_0010000u32;
pub const QUEENOFDIAMONDS: u32 = 0b_0000_0000000_0000000_0000000_0001000u32;
pub const NINEOFDIAMONDS: u32 = 0b_0000_0000000_0000000_0000000_0000100u32;
pub const EIGHTOFDIAMONDS: u32 = 0b_0000_0000000_0000000_0000000_0000010u32;
pub const SEVENOFDIAMONDS: u32 = 0b_0000_0000000_0000000_0000000_0000001u32;

/// Marks the end of a run of cards in a connection list.
pub const CONNECTION_BREAKER: u32 = 0u32;

/// Short names of the cards, index 0 (bit 31, CJ) to index 31 (bit 0, D7).
pub const CARDS: [&'static str; 32] = ["CJ", "SJ", "HJ", "DJ", "CA", "CT", "CK", "CQ", "C9", "C8", "C7", "SA", "ST", "SK", "SQ", "S9", "S8", "S7", "HA", "HT", "HK", "HQ", "H9", "H8", "H7", "DA", "DT", "DK", "DQ", "D9", "D8", "D7"];

/// The indices 0 to 31.
pub const RANGE: [usize; 32] = [0, 1, 2, 3, 4, 5, 6, 7, 8, 9, 10, 11, 12, 13, 14, 15, 16, 17, 18, 19, 20, 21, 22, 23, 24, 25, 26, 27, 28, 29, 30, 31];

/// The indices 31 down to 0.
pub const RANGE_INV: [usize; 32] = [31, 30, 29, 28, 27, 26, 25, 24, 23, 22, 21, 20, 19, 18, 17, 16, 15, 14, 13, 12, 11, 10, 9, 8, 7, 6, 5, 4, 3, 2, 1, 0];

/// Point value of each card in standard order (index 0 is CJ).
pub const AUGENLIST: [u8; 32] = [2, 2, 2, 2, 11, 10, 4, 3, 0, 0, 0, 11, 10, 4, 3, 0, 0, 0, 11, 10, 4, 3, 0, 0, 0, 11, 10, 4, 3, 0, 0, 0];

/// Point value of each card by bit index (index 0 is D7, bit 0).
pub const REVERSED_AUGENLIST: [u8; 32] = [0, 0, 0, 3, 4, 10, 11, 0, 0, 0, 3, 4, 10, 11, 0, 0, 0, 3, 4, 10, 11, 0, 0, 0, 3, 4, 10, 11, 2, 2, 2, 2];

/// Values by which moves are sorted, in standard order.
pub const SORT_AUGENLIST: [u8; 32] = [16, 15, 14, 13, 11, 10, 4, 3, 0, 0, 0, 11, 10, 4, 3, 0, 0, 0, 11, 10, 4, 3, 0, 0, 0, 11, 10, 4, 3, 0, 0, 0];

/// Start value of the FNV hash.
pub const HSH_INIT: u64 = 0xcbf29ce484222325u64;
/// Multiplier of the FNV hash.
pub const HSH_MUL: u64 = 0x00000100000001B3u64;
/// Number of slots of the transposition table.
pub const TT_SIZE: usize = 1048576usize;
/// Number of slots of the transposition table, as `u64`.
pub const TT_SIZE_U64: u64 = 1048576u64;

/// Runs of rank-neighbouring cards of a suit game, each closed by a breaker.
pub const FARB_CONN: [(u32, u8); 36] = [(JACKOFCLUBS, 2u8), (JACKOFSPADES, 2u8), (JACKOFHEARTS, 2u8), (JACKOFDIAMONDS, 2u8), (ACEOFCLUBS, 11u8), (TENOFCLUBS, 10u8), (KINGOFCLUBS, 4u8), (QUEENOFCLUBS, 3u8), (NINEOFCLUBS, 0u8), (EIGHTOFCLUBS, 0u8), (SEVENOFCLUBS, 0u8), (CONNECTION_BREAKER, 0u8), (ACEOFSPADES, 11u8), (TENOFSPADES, 10u8), (KINGOFSPADES, 4u8), (QUEENOFSPADES, 3u8), (NINEOFSPADES, 0u8), (EIGHTOFSPADES, 0u8), (SEVENOFSPADES, 0u8), (CONNECTION_BREAKER, 0u8), (ACEOFHEARTS, 11u8), (TENOFHEARTS, 10u8), (KINGOFHEARTS, 4u8), (QUEENOFHEARTS, 3u8), (NINEOFHEARTS, 0u8), (EIGHTOFHEARTS, 0u8), (SEVENOFHEARTS, 0u8), (CONNECTION_BREAKER, 0u8), (ACEOFDIAMONDS, 11u8), (TENOFDIAMONDS, 10u8), (KINGOFDIAMONDS, 4u8), (QUEENOFDIAMONDS, 3u8), (NINEOFDIAMONDS, 0u8), (EIGHTOFDIAMONDS, 0u8), (SEVENOFDIAMONDS, 0u8), (CONNECTION_BREAKER, 0u8)];

/// Runs of rank-neighbouring cards of a grand game, each closed by a breaker.
pub const GRAND_CONN: [(u32, u8); 37] = [(JACKOFCLUBS, 2u8), (JACKOFSPADES, 2u8), (JACKOFHEARTS, 2u8), (JACKOFDIAMONDS, 2u8), (CONNECTION_BREAKER, 0u8), (ACEOFCLUBS, 11u8), (TENOFCLUBS, 10u8), (KINGOFCLUBS, 4u8), (QUEENOFCLUBS, 3u8), (NINEOFCLUBS, 0u8), (EIGHTOFCLUBS, 0u8), (SEVENOFCLUBS, 0u8), (CONNECTION_BREAKER, 0u8), (ACEOFSPADES, 11u8), (TENOFSPADES, 10u8), (KINGOFSPADES, 4u8), (QUEENOFSPADES, 3u8), (NINEOFSPADES, 0u8), (EIGHTOFSPADES, 0u8), (SEVENOFSPADES, 0u8), (CONNECTION_BREAKER, 0u8), (ACEOFHEARTS, 11u8), (TENOFHEARTS, 10u8), (KINGOFHEARTS, 4u8), (QUEENOFHEARTS, 3u8), (NINEOFHEARTS, 0u8), (EIGHTOFHEARTS, 0u8), (SEVENOFHEARTS, 0u8), (CONNECTION_BREAKER, 0u8), (ACEOFDIAMONDS, 11u8), (TENOFDIAMONDS, 10u8), (KINGOFDIAMONDS, 4u8), (QUEENOFDIAMONDS, 3u8), (NINEOFDIAMONDS, 0u8), (EIGHTOFDIAMONDS, 0u8), (SEVENOFDIAMONDS, 0u8), (CONNECTION_BREAKER, 0u8)];

/// Runs of cards of equal value and neighbouring rank in a suit game.
pub const FARB_CONN_EQ: [u32; 21] = [JACKOFCLUBS, JACKOFSPADES, JACKOFHEARTS, JACKOFDIAMONDS, CONNECTION_BREAKER, NINEOFCLUBS, EIGHTOFCLUBS, SEVENOFCLUBS, CONNECTION_BREAKER, NINEOFSPADES, EIGHTOFSPADES, SEVENOFSPADES, CONNECTION_BREAKER, NINEOFHEARTS, EIGHTOFHEARTS, SEVENOFHEARTS, CONNECTION_BREAKER, NINEOFDIAMONDS, EIGHTOFDIAMONDS, SEVENOFDIAMONDS, CONNECTION_BREAKER];

/// Runs of cards of equal value and neighbouring rank in a grand game.
pub const GRAND_CONN_EQ: [u32; 21] = [JACKOFCLUBS, JACKOFSPADES, JACKOFHEARTS, JACKOFDIAMONDS, CONNECTION_BREAKER, NINEOFCLUBS, EIGHTOFCLUBS, SEVENOFCLUBS, CONNECTION_BREAKER, NINEOFSPADES, EIGHTOFSPADES, SEVENOFSPADES, CONNECTION_BREAKER, NINEOFHEARTS, EIGHTOFHEARTS, SEVENOFHEARTS, CONNECTION_BREAKER, NINEOFDIAMONDS, EIGHTOFDIAMONDS, SEVENOFDIAMONDS, CONNECTION_BREAKER];

/// Runs of neighbouring cards of a null game, one per suit.
pub const NULL_CONN_EQ: [u32; 36] = [ACEOFCLUBS, KINGOFCLUBS, QUEENOFCLUBS, JACKOFCLUBS, TENOFCLUBS, NINEOFCLUBS, EIGHTOFCLUBS, SEVENOFCLUBS, CONNECTION_BREAKER, ACEOFSPADES, KINGOFSPADES, QUEENOFSPADES, JACKOFSPADES, TENOFSPADES, NINEOFSPADES, EIGHTOFSPADES, SEVENOFSPADES, CONNECTION_BREAKER, ACEOFHEARTS, KINGOFHEARTS, QUEENOFHEARTS, JACKOFHEARTS, TENOFHEARTS, NINEOFHEARTS, EIGHTOFHEARTS, SEVENOFHEARTS, CONNECTION_BREAKER, ACEOFDIAMONDS, KINGOFDIAMONDS, QUEENOFDIAMONDS, JACKOFDIAMONDS, TENOFDIAMONDS, NINEOFDIAMONDS, EIGHTOFDIAMONDS, SEVENOFDIAMONDS, CONNECTION_BREAKER];

} // verus!
