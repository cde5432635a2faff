use skat_aug23::augen::Augen;
use skat_aug23::cards::Bitboard;
use skat_aug23::convert::{BitConverter, StringConverter};

#[test]
fn test_get() {
    assert_eq!(0b1000_0000000_0000000_0000000_0000000u32.__get_value(), 2);
    assert_eq!(0b1000_1000000_0000000_0000000_0000000u32.__get_value(), 13);
    assert_eq!(0b0000_0000000_0000000_0000000_0001111u32.__get_value(), 3);
    assert_eq!("[CA SA HA DA]".__bit().__get_value(), 44);
}

#[test]
fn test_get_from_one_card() {
    assert_eq!("CJ".__bit().__get_from_one_card(), 2);
}

#[test]
fn test_get_from_three_cards() {
    assert_eq!("[CA SA HA]".__bit().__get_value_of_three_cards(), 33);
    assert_eq!("[CA SA HA D7]".__bit().__get_value_of_three_cards(), 22);
    assert_eq!("[CA D7 HK SQ]".__bit().__get_value_of_three_cards(), 7);
    assert_eq!("[HK DQ CK]".__bit().__get_value_of_three_cards(), 11);
    assert_eq!("[HK HK CJ SJ]".__bit().__get_value_of_three_cards(), 8);
}

#[test]
fn test_bit() {
    assert_eq!("[]".__bit(), 0);
    assert_eq!("[D7]".__bit(), 1u32);
    assert_eq!("[CJ]".__bit(), 0b_1000_0000_0000_0000_0000_0000_0000_0000u32);
    assert_eq!("[CJ HJ CA CK D7]".__bit(), 0b_1010_1010_0000_0000_0000_0000_0000_0001u32);
}

#[test]
fn is_odd() {
    assert!(3u32.__is_odd());
    assert!(!0b_1010_1010_0000_0000_0000_0000_0000_0000u32.__is_odd());
    assert!(0b_1010_1010_0000_0000_0000_0000_0000_0001u32.__is_odd());
}

#[test]
fn test_str() {
    assert_eq!(0u32.__str(), "[]");
    assert_eq!(0b1u32.__str(), "D7");
    assert_eq!(0b11u32.__str(), "[D8 D7]");
    assert_eq!(0b_1111u32.__str(), "[DQ D9 D8 D7]");
    assert_eq!(0b_1111u32.__str(), "[DQ D9 D8 D7]");
    assert_eq!(0b_1000_0000_0000_0000_0000_0000_0000_0000u32.__str(), "CJ");
    assert_eq!(0b_1010_1010_0000_0000_0000_0000_0000_0000u32.__str(), "[CJ HJ CA CK]");
}

#[test]
fn text_round_trip() {
    for x in [0u32, 1, 0b11, 0xFFFF_FFFF, 0b_1010_1010_0000_0000_0000_0000_0000_0001] {
        assert_eq!(x.__str().as_str().__bit(), x);
    }
}

#[test]
fn decompose_lists_cards_highest_first() {
    let (arr, n) = "[CJ CA D7]".__bit().__decompose();
    assert_eq!(n, 3);
    assert_eq!(arr[0], "CJ".__bit());
    assert_eq!(arr[1], "CA".__bit());
    assert_eq!(arr[2], "D7".__bit());
    assert_eq!(arr[3], 0);
}
