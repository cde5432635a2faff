use skat_aug23::consts::{
    ACEOFCLUBS, EIGHTOFDIAMONDS, EIGHTOFHEARTS, JACKOFCLUBS, JACKOFSPADES, KINGOFHEARTS,
    NINEOFDIAMONDS, SEVENOFCLUBS, SEVENOFDIAMONDS, SEVENOFHEARTS, TENOFCLUBS, TENOFHEARTS,
};
use skat_aug23::signature::HandSignature;

#[test]
fn test_signature_extraction() {
    let hand = JACKOFCLUBS
        | JACKOFSPADES
        | ACEOFCLUBS
        | TENOFCLUBS
        | SEVENOFCLUBS
        | KINGOFHEARTS
        | EIGHTOFHEARTS
        | SEVENOFDIAMONDS
        | EIGHTOFDIAMONDS
        | NINEOFDIAMONDS;
    let sig = HandSignature::from_hand(hand);
    assert_eq!(sig.jacks, 12);
    assert_eq!(sig.aces, 1);
    assert_eq!(sig.tens, 1);
    assert_eq!(sig.attached_tens, 1);
    assert_eq!(sig.ten_king_small, 0);

    let hand2 = TENOFHEARTS | KINGOFHEARTS | SEVENOFHEARTS;
    let sig2 = HandSignature::from_hand(hand2);
    assert_eq!(sig2.tens, 1);
    assert_eq!(sig2.ten_king_small, 1);
}

#[test]
fn signature_jacks_text_and_counts() {
    let hand = JACKOFCLUBS | JACKOFSPADES | ACEOFCLUBS | TENOFCLUBS | SEVENOFCLUBS;
    let sig = HandSignature::from_hand(hand);
    assert_eq!(sig.jacks_string(), "CS");
    assert_eq!(sig.card_count, 5);
    assert_eq!(sig.trump_count, 2);
    assert_eq!(sig.max_suit_len, 3);
    let none = HandSignature::from_hand(0);
    assert_eq!(none.jacks_string(), "-");
}

#[test]
fn signature_trump_suit_is_not_a_side_suit() {
    let hand = JACKOFCLUBS | ACEOFCLUBS | TENOFCLUBS | SEVENOFCLUBS;
    let sig = HandSignature::from_hand_and_skat_suit(hand, TENOFHEARTS, Some(0));
    assert_eq!(sig.aces, 0);
    assert_eq!(sig.tens, 0);
    assert_eq!(sig.trump_count, 4);
    assert_eq!(sig.skat_fulls, 1);
}
