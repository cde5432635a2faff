//! Showing a hand in the order a player sorts it for a game: in a null game by suit with the
//! jack between queen and ten, in a suit game the jacks and the trump suit first.
use vstd::prelude::*;
use vstd::string::StringSliceAdditionalSpecFns;
use crate::cards::has_card;
use crate::convert::{card_name, card_text, push_char, StringConverter, CARD_RANK_CHARS, CARD_SUIT_CHARS};

verus! {

/// The bit indices of one null-game suit, from ace down: ace, king, queen, jack, ten, nine,
/// eight, seven.
pub open spec fn null_suit_slots(base: u32, jack: u32) -> Seq<u32> {
    seq![
        (base + 6) as u32,
        (base + 4) as u32,
        (base + 3) as u32,
        jack,
        (base + 5) as u32,
        (base + 2) as u32,
        (base + 1) as u32,
        base,
    ]
}

/// The bit indices in null-game order: clubs, spades, hearts, diamonds.
pub open spec fn null_slots() -> Seq<u32> {
    null_suit_slots(21, 31) + null_suit_slots(14, 30) + null_suit_slots(7, 29) + null_suit_slots(0, 28)
}

/// The bit indices of the plain cards of suit `idx` (3 clubs down to 0 diamonds), from the
/// ace down to the seven.
pub open spec fn plain_slots(idx: u32) -> Seq<u32> {
    let b = (idx * 7) as u32;
    seq![
        (b + 6) as u32,
        (b + 5) as u32,
        (b + 4) as u32,
        (b + 3) as u32,
        (b + 2) as u32,
        (b + 1) as u32,
        b,
    ]
}

/// The bit indices in the order of a suit game with trump suit `t`: the jacks, the trump
/// suit, then the other suits from clubs to diamonds.
pub open spec fn suit_slots(t: u32) -> Seq<u32> {
    seq![31u32, 30u32, 29u32, 28u32] + plain_slots(t) + (if t == 3 {
        seq![]
    } else {
        plain_slots(3)
    }) + (if t == 2 {
        seq![]
    } else {
        plain_slots(2)
    }) + (if t == 1 {
        seq![]
    } else {
        plain_slots(1)
    }) + (if t == 0 {
        seq![]
    } else {
        plain_slots(0)
    })
}

/// The slots that hold a card of the hand, in order.
pub open spec fn kept(slots: Seq<u32>, hand: u32) -> Seq<u32>
    decreases slots.len(),
{
    if slots.len() == 0 {
        seq![]
    } else if has_card(hand, slots.last() as int) {
        kept(slots.drop_last(), hand).push(slots.last())
    } else {
        kept(slots.drop_last(), hand)
    }
}

/// The names of the cards at the bit indices, separated by spaces.
pub open spec fn joined_slots(order: Seq<u32>) -> Seq<char>
    decreases order.len(),
{
    if order.len() == 0 {
        seq![]
    } else if order.len() == 1 {
        card_name(31 - order[0])
    } else {
        joined_slots(order.drop_last()) + seq![' '] + card_name(31 - order.last())
    }
}

/// The text of the cards at the bit indices: their names in brackets.
pub open spec fn list_text(order: Seq<u32>) -> Seq<char> {
    seq!['['] + joined_slots(order) + seq![']']
}

/// The text of a hand for the game named `name`: `Grand` and unknown names give the plain
/// text of the card set; `Null` the null-game order; `Clubs`, `Spades`, `Hearts` and
/// `Diamonds` the suit-game order with that trump suit.
pub open spec fn hand_text_for_game(hand: u32, name: Seq<u8>) -> Seq<char> {
    if name == seq![78u8, 117, 108, 108] {
        list_text(kept(null_slots(), hand))
    } else if name == seq![67u8, 108, 117, 98, 115] {
        list_text(kept(suit_slots(3), hand))
    } else if name == seq![83u8, 112, 97, 100, 101, 115] {
        list_text(kept(suit_slots(2), hand))
    } else if name == seq![72u8, 101, 97, 114, 116, 115] {
        list_text(kept(suit_slots(1), hand))
    } else if name == seq![68u8, 105, 97, 109, 111, 110, 100, 115] {
        list_text(kept(suit_slots(0), hand))
    } else {
        card_text(hand)
    }
}

/// Whether the bytes are those of `expected`.
pub(crate) fn bytes_are(b: &[u8], expected: &[u8]) -> (r: bool)
    ensures
        r == (b@ == expected@),
{
    if b.len() != expected.len() {
        return false;
    }
    let mut i: usize = 0;
    while i < b.len()
        invariant
            i <= b@.len(),
            b@.len() == expected@.len(),
            forall|q: int| 0 <= q < i ==> b@[q] == expected@[q],
        decreases b@.len() - i,
    {
        if b[i] != expected[i] {
            return false;
        }
        i = i + 1;
    }
    assert(b@ =~= expected@);
    true
}

/// The text of the cards of `hand` at `slots`, in the order of the slots.
pub(crate) fn text_in_order(hand: u32, slots: &Vec<u32>) -> (r: String)
    requires
        forall|i: int| 0 <= i < slots@.len() ==> (#[trigger] slots@[i]) < 32,
    ensures
        r@ == list_text(kept(slots@, hand)),
{
    let mut s = String::new();
    push_char(&mut s, '[');
    let ghost start = s@;
    let mut first = true;
    let mut i: usize = 0;
    while i < slots.len()
        invariant
            i <= slots@.len(),
            forall|q: int| 0 <= q < slots@.len() ==> (#[trigger] slots@[q]) < 32,
            start == seq!['['],
            s@ == start + joined_slots(kept(slots@.take(i as int), hand)),
            first == (kept(slots@.take(i as int), hand).len() == 0),
        decreases slots@.len() - i,
    {
        let b = slots[i];
        proof {
            assert(slots@.take(i + 1).drop_last() =~= slots@.take(i as int));
            assert(slots@.take(i + 1).last() == b);
        }
        if hand & (1u32 << b) != 0 {
            let ghost prev = kept(slots@.take(i as int), hand);
            let idx: usize = (31 - b) as usize;
            if !first {
                push_char(&mut s, ' ');
            }
            push_char(&mut s, CARD_SUIT_CHARS[idx]);
            push_char(&mut s, CARD_RANK_CHARS[idx]);
            first = false;
            proof {
                let now = prev.push(b);
                assert(kept(slots@.take(i + 1), hand) == now);
                assert(now.drop_last() =~= prev);
                if prev.len() == 0 {
                    assert(joined_slots(now) == card_name(31 - now[0]));
                }
                assert(s@ =~= start + joined_slots(now));
            }
        }
        i = i + 1;
    }
    push_char(&mut s, ']');
    proof {
        assert(slots@.take(slots@.len() as int) =~= slots@);
        assert(s@ =~= list_text(kept(slots@, hand)));
    }
    s
}

/// The slots of one null-game suit.
fn push_null_suit(slots: &mut Vec<u32>, base: u32, jack: u32)
    requires
        base <= 21,
        jack < 32,
    ensures
        final(slots)@ == old(slots)@ + null_suit_slots(base, jack),
{
    slots.push(base + 6);
    slots.push(base + 4);
    slots.push(base + 3);
    slots.push(jack);
    slots.push(base + 5);
    slots.push(base + 2);
    slots.push(base + 1);
    slots.push(base);
    assert(final(slots)@ =~= old(slots)@ + null_suit_slots(base, jack));
}

/// The slots of the plain cards of one suit.
fn push_plain_suit(slots: &mut Vec<u32>, idx: u32)
    requires
        idx <= 3,
    ensures
        final(slots)@ == old(slots)@ + plain_slots(idx),
{
    let b = idx * 7;
    let mut i: u32 = 7;
    let ghost start = old(slots)@;
    while i > 0
        invariant
            i <= 7,
            b == idx * 7,
            idx <= 3,
            slots@ == start + plain_slots(idx).take(7 - i),
        decreases i,
    {
        proof {
            assert(plain_slots(idx).take(8 - i) =~= plain_slots(idx).take(7 - i).push(plain_slots(idx)[7 - i]));
        }
        slots.push(b + i - 1);
        i = i - 1;
    }
    assert(plain_slots(idx).take(7) =~= plain_slots(idx));
}

/// The hand in null-game order.
fn format_null(hand: u32) -> (r: String)
    ensures
        r@ == list_text(kept(null_slots(), hand)),
{
    let mut slots: Vec<u32> = Vec::new();
    push_null_suit(&mut slots, 21, 31);
    push_null_suit(&mut slots, 14, 30);
    push_null_suit(&mut slots, 7, 29);
    push_null_suit(&mut slots, 0, 28);
    assert(slots@ =~= null_slots());
    text_in_order(hand, &slots)
}

/// The hand in the order of a suit game with trump suit `trump_suit_idx`.
fn format_suit_game(hand: u32, trump_suit_idx: u32) -> (r: String)
    requires
        trump_suit_idx <= 3,
    ensures
        r@ == list_text(kept(suit_slots(trump_suit_idx), hand)),
{
    let mut slots: Vec<u32> = Vec::new();
    slots.push(31);
    slots.push(30);
    slots.push(29);
    slots.push(28);
    push_plain_suit(&mut slots, trump_suit_idx);
    let mut suit_idx: u32 = 4;
    let ghost head = slots@;
    while suit_idx > 0
        invariant
            suit_idx <= 4,
            trump_suit_idx <= 3,
            slots@ == head + (if suit_idx <= 3 && trump_suit_idx != 3 { plain_slots(3) } else { seq![] })
                + (if suit_idx <= 2 && trump_suit_idx != 2 { plain_slots(2) } else { seq![] })
                + (if suit_idx <= 1 && trump_suit_idx != 1 { plain_slots(1) } else { seq![] })
                + (if suit_idx <= 0 && trump_suit_idx != 0 { plain_slots(0) } else { seq![] }),
        decreases suit_idx,
    {
        let idx = suit_idx - 1;
        let ghost before = slots@;
        if idx != trump_suit_idx {
            push_plain_suit(&mut slots, idx);
        }
        proof {
            assert(slots@ =~= head + (if idx <= 3 && trump_suit_idx != 3 { plain_slots(3) } else { seq![] })
                + (if idx <= 2 && trump_suit_idx != 2 { plain_slots(2) } else { seq![] })
                + (if idx <= 1 && trump_suit_idx != 1 { plain_slots(1) } else { seq![] })
                + (if idx <= 0 && trump_suit_idx != 0 { plain_slots(0) } else { seq![] }));
        }
        suit_idx = idx;
    }
    assert(slots@ =~= suit_slots(trump_suit_idx));
    assert forall|i: int| 0 <= i < slots@.len() implies (#[trigger] slots@[i]) < 32 by {}
    text_in_order(hand, &slots)
}

/// The text of a hand in the order of the game named `game_name` (see `hand_text_for_game`).
pub fn format_hand_for_game(hand: u32, game_name: &str) -> (r: String)
    ensures
        r@ == hand_text_for_game(hand, game_name.spec_bytes()),
{
    let name = game_name.as_bytes();
    let null_name: [u8; 4] = [78, 117, 108, 108];
    let clubs_name: [u8; 5] = [67, 108, 117, 98, 115];
    let spades_name: [u8; 6] = [83, 112, 97, 100, 101, 115];
    let hearts_name: [u8; 6] = [72, 101, 97, 114, 116, 115];
    let diamonds_name: [u8; 8] = [68, 105, 97, 109, 111, 110, 100, 115];
    proof {
        assert(null_name@ =~= seq![78u8, 117, 108, 108]);
        assert(clubs_name@ =~= seq![67u8, 108, 117, 98, 115]);
        assert(spades_name@ =~= seq![83u8, 112, 97, 100, 101, 115]);
        assert(hearts_name@ =~= seq![72u8, 101, 97, 114, 116, 115]);
        assert(diamonds_name@ =~= seq![68u8, 105, 97, 109, 111, 110, 100, 115]);
    }
    if bytes_are(name, &null_name) {
        format_null(hand)
    } else if bytes_are(name, &clubs_name) {
        format_suit_game(hand, 3)
    } else if bytes_are(name, &spades_name) {
        format_suit_game(hand, 2)
    } else if bytes_are(name, &hearts_name) {
        format_suit_game(hand, 1)
    } else if bytes_are(name, &diamonds_name) {
        format_suit_game(hand, 0)
    } else {
        hand.__str()
    }
}

} // verus!
