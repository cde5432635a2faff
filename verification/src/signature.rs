//! The features of a hand that decide how strong it is: jacks, aces, tens and their company,
//! trump length, suit lengths, and the full cards in the skat.
use vstd::prelude::*;
use crate::cards::{card_count, count_cards, subset};
use crate::consts::{
    ACEOFCLUBS, ACEOFDIAMONDS, ACEOFHEARTS, ACEOFSPADES, CLUBS, DIAMONDS, EIGHTOFCLUBS,
    EIGHTOFDIAMONDS, EIGHTOFHEARTS, EIGHTOFSPADES, HEARTS, JACKOFCLUBS, JACKOFDIAMONDS,
    JACKOFHEARTS, JACKOFSPADES, JACKS, KINGOFCLUBS, KINGOFDIAMONDS, KINGOFHEARTS, KINGOFSPADES,
    NINEOFCLUBS, NINEOFDIAMONDS, NINEOFHEARTS, NINEOFSPADES, SEVENOFCLUBS, SEVENOFDIAMONDS,
    SEVENOFHEARTS, SEVENOFSPADES, SPADES, TENOFCLUBS, TENOFDIAMONDS, TENOFHEARTS, TENOFSPADES,
};
use crate::convert::push_char;

verus! {

/// The features of a hand: the jacks as a mask (clubs 8, spades 4, hearts 2, diamonds 1),
/// the aces and tens of the side suits, tens with their ace, suits with ten, king and a small
/// card, the number of cards, the full cards in the skat, the trump count, tens with their ace,
/// tens alone in their suit, and the longest suit.
#[derive(Debug, Clone, Copy, PartialEq, Eq, Structural, Hash)]
pub struct HandSignature {
    pub jacks: u8,
    pub aces: u8,
    pub tens: u8,
    pub attached_tens: u8,
    pub ten_king_small: u8,
    pub card_count: u8,
    pub skat_fulls: u8,
    pub trump_count: u8,
    pub standing_tens: u8,
    pub blank_tens: u8,
    pub max_suit_len: u8,
}

/// The suit with index `i` (clubs, spades, hearts, diamonds): its cards, ace, ten and king.
pub open spec fn suit_cards(i: int) -> (u32, u32, u32, u32) {
    if i == 0 {
        (CLUBS, ACEOFCLUBS, TENOFCLUBS, KINGOFCLUBS)
    } else if i == 1 {
        (SPADES, ACEOFSPADES, TENOFSPADES, KINGOFSPADES)
    } else if i == 2 {
        (HEARTS, ACEOFHEARTS, TENOFHEARTS, KINGOFHEARTS)
    } else {
        (DIAMONDS, ACEOFDIAMONDS, TENOFDIAMONDS, KINGOFDIAMONDS)
    }
}

/// The nine, eight and seven of the suit with index `i`.
pub open spec fn small_cards(i: int) -> u32 {
    if i == 0 {
        NINEOFCLUBS | EIGHTOFCLUBS | SEVENOFCLUBS
    } else if i == 1 {
        NINEOFSPADES | EIGHTOFSPADES | SEVENOFSPADES
    } else if i == 2 {
        NINEOFHEARTS | EIGHTOFHEARTS | SEVENOFHEARTS
    } else {
        NINEOFDIAMONDS | EIGHTOFDIAMONDS | SEVENOFDIAMONDS
    }
}

/// The aces and tens.
pub open spec fn fulls_mask() -> u32 {
    ACEOFCLUBS | TENOFCLUBS | ACEOFSPADES | TENOFSPADES | ACEOFHEARTS | TENOFHEARTS
        | ACEOFDIAMONDS | TENOFDIAMONDS
}

/// The suit with index `i` is the trump suit.
pub open spec fn is_trump(suit: Option<u8>, i: int) -> bool {
    suit matches Some(s) && s == i
}

/// The cards of the hand in the suit with index `i`, jacks not counted.
pub open spec fn suit_len(hand: u32, i: int) -> nat {
    card_count(hand & suit_cards(i).0 & !JACKS)
}

/// The kinds of features counted per side suit.
pub enum SideFeature {
    Ace,
    Ten,
    AttachedTen,
    BlankTen,
    TenKingSmall,
}

/// Whether the side suit with index `i` shows the feature: an ace; a ten; a ten with its ace;
/// a ten alone in its suit; ten, king and a small card. A trump suit shows none.
pub open spec fn side_feature(hand: u32, suit: Option<u8>, i: int, f: SideFeature) -> bool {
    let (_, ace, ten, king) = suit_cards(i);
    let has_ace = hand & ace != 0;
    let has_ten = hand & ten != 0;
    !is_trump(suit, i) && match f {
        SideFeature::Ace => has_ace,
        SideFeature::Ten => has_ten,
        SideFeature::AttachedTen => has_ten && has_ace,
        SideFeature::BlankTen => has_ten && suit_len(hand, i) == 1,
        SideFeature::TenKingSmall => has_ten && hand & king != 0 && hand & small_cards(i) != 0,
    }
}

/// The number of suits among the first `n` that show the feature.
pub open spec fn count_feature(hand: u32, suit: Option<u8>, n: int, f: SideFeature) -> nat
    decreases n,
{
    if n <= 0 {
        0
    } else {
        count_feature(hand, suit, n - 1, f) + if side_feature(hand, suit, n - 1, f) {
            1nat
        } else {
            0nat
        }
    }
}

/// The cards of the trump suit among the first `n` suits, jacks not counted.
pub open spec fn trump_suit_len(hand: u32, suit: Option<u8>, n: int) -> nat
    decreases n,
{
    if n <= 0 {
        0
    } else {
        trump_suit_len(hand, suit, n - 1) + if is_trump(suit, n - 1) {
            suit_len(hand, n - 1)
        } else {
            0nat
        }
    }
}

/// The longest of the first `n` suits, jacks not counted.
pub open spec fn longest_suit(hand: u32, n: int) -> nat
    decreases n,
{
    if n <= 0 {
        0
    } else if suit_len(hand, n - 1) > longest_suit(hand, n - 1) {
        suit_len(hand, n - 1)
    } else {
        longest_suit(hand, n - 1)
    }
}

/// The jacks of the hand as a mask: clubs 8, spades 4, hearts 2, diamonds 1.
pub open spec fn jacks_mask(hand: u32) -> u8 {
    ((if hand & JACKOFCLUBS != 0 {
        8int
    } else {
        0int
    }) + (if hand & JACKOFSPADES != 0 {
        4int
    } else {
        0int
    }) + (if hand & JACKOFHEARTS != 0 {
        2int
    } else {
        0int
    }) + (if hand & JACKOFDIAMONDS != 0 {
        1int
    } else {
        0int
    })) as u8
}

/// The features of `hand` with `skat`, in a suit game of the suit with index `suit` if given.
pub open spec fn signature_spec(hand: u32, skat: u32, suit: Option<u8>) -> HandSignature {
    HandSignature {
        jacks: jacks_mask(hand),
        aces: count_feature(hand, suit, 4, SideFeature::Ace) as u8,
        tens: count_feature(hand, suit, 4, SideFeature::Ten) as u8,
        attached_tens: count_feature(hand, suit, 4, SideFeature::AttachedTen) as u8,
        ten_king_small: count_feature(hand, suit, 4, SideFeature::TenKingSmall) as u8,
        card_count: card_count(hand) as u8,
        skat_fulls: card_count(skat & fulls_mask()) as u8,
        trump_count: (card_count(hand & JACKS) + trump_suit_len(hand, suit, 4)) as u8,
        standing_tens: count_feature(hand, suit, 4, SideFeature::AttachedTen) as u8,
        blank_tens: count_feature(hand, suit, 4, SideFeature::BlankTen) as u8,
        max_suit_len: longest_suit(hand, 4) as u8,
    }
}

/// The letters of the jacks in a mask, clubs first; a dash when there is none.
pub open spec fn jacks_text(jacks: u8) -> Seq<char> {
    let s = (if jacks & 8 != 0 {
        seq!['C']
    } else {
        Seq::empty()
    }) + (if jacks & 4 != 0 {
        seq!['S']
    } else {
        Seq::empty()
    }) + (if jacks & 2 != 0 {
        seq!['H']
    } else {
        Seq::empty()
    }) + (if jacks & 1 != 0 {
        seq!['D']
    } else {
        Seq::empty()
    });
    if s.len() == 0 {
        seq!['-']
    } else {
        s
    }
}

/// Makes an owned string of a string literal.
fn owned(s: &str) -> (r: String)
    ensures
        r@ == s@,
{
    s.to_owned()
}

/// The suit table of the signature: cards, ace, ten and king of each suit.
fn suit_table(i: usize) -> (r: (u32, u32, u32, u32))
    requires
        i < 4,
    ensures
        r == suit_cards(i as int),
{
    if i == 0 {
        (CLUBS, ACEOFCLUBS, TENOFCLUBS, KINGOFCLUBS)
    } else if i == 1 {
        (SPADES, ACEOFSPADES, TENOFSPADES, KINGOFSPADES)
    } else if i == 2 {
        (HEARTS, ACEOFHEARTS, TENOFHEARTS, KINGOFHEARTS)
    } else {
        (DIAMONDS, ACEOFDIAMONDS, TENOFDIAMONDS, KINGOFDIAMONDS)
    }
}

/// The small cards of a suit given by its cards.
fn small_cards_of(suit_mask: u32, i: Ghost<int>) -> (r: u32)
    requires
        0 <= i@ < 4,
        suit_mask == suit_cards(i@).0,
    ensures
        r == small_cards(i@),
{
    if suit_mask == CLUBS {
        NINEOFCLUBS | EIGHTOFCLUBS | SEVENOFCLUBS
    } else if suit_mask == SPADES {
        NINEOFSPADES | EIGHTOFSPADES | SEVENOFSPADES
    } else if suit_mask == HEARTS {
        NINEOFHEARTS | EIGHTOFHEARTS | SEVENOFHEARTS
    } else if suit_mask == DIAMONDS {
        NINEOFDIAMONDS | EIGHTOFDIAMONDS | SEVENOFDIAMONDS
    } else {
        0
    }
}

impl HandSignature {
    /// The features of a hand without skat, for no particular trump suit.
    pub fn from_hand(hand: u32) -> (r: Self)
        ensures
            r == signature_spec(hand, 0, None),
    {
        Self::from_hand_and_skat(hand, 0)
    }

    /// The features of a hand with a skat, for no particular trump suit.
    pub fn from_hand_and_skat(hand: u32, skat: u32) -> (r: Self)
        ensures
            r == signature_spec(hand, skat, None),
    {
        Self::from_hand_and_skat_suit(hand, skat, None)
    }

    /// The features of a hand with a skat, in a suit game of the suit with index `suit`
    /// (clubs 0, spades 1, hearts 2, diamonds 3) if given: that suit counts as trump, not as a
    /// side suit.
    pub fn from_hand_and_skat_suit(hand: u32, skat: u32, suit: Option<u8>) -> (r: Self)
        ensures
            r == signature_spec(hand, skat, suit),
    {
        let mut jacks: u8 = 0;
        if (hand & JACKOFCLUBS) != 0 {
            jacks = jacks + 8;
        }
        if (hand & JACKOFSPADES) != 0 {
            jacks = jacks + 4;
        }
        if (hand & JACKOFHEARTS) != 0 {
            jacks = jacks + 2;
        }
        if (hand & JACKOFDIAMONDS) != 0 {
            jacks = jacks + 1;
        }
        let mut aces: u8 = 0;
        let mut tens: u8 = 0;
        let mut attached_tens: u8 = 0;
        let mut ten_king_small: u8 = 0;
        let mut blank_tens: u8 = 0;
        let mut suit_lengths = [0u8; 4];
        proof {
            crate::cards::lemma_bounds(hand & JACKS);
        }
        let mut trump_count: u8 = count_cards(hand & JACKS) as u8;
        let ghost jack_count = card_count(hand & JACKS);

        let mut i: usize = 0;
        while i < 4
            invariant
                i <= 4,
                jack_count <= 32,
                aces == count_feature(hand, suit, i as int, SideFeature::Ace),
                tens == count_feature(hand, suit, i as int, SideFeature::Ten),
                attached_tens == count_feature(hand, suit, i as int, SideFeature::AttachedTen),
                blank_tens == count_feature(hand, suit, i as int, SideFeature::BlankTen),
                ten_king_small == count_feature(hand, suit, i as int, SideFeature::TenKingSmall),
                aces <= i && tens <= i && attached_tens <= i && blank_tens <= i && ten_king_small
                    <= i,
                trump_count == jack_count + trump_suit_len(hand, suit, i as int),
                trump_suit_len(hand, suit, i as int) <= 32,
                forall|j: int| 0 <= j < i ==> #[trigger] suit_lengths@[j] == suit_len(hand, j),
            decreases 4 - i,
        {
            let (suit_mask, ace, ten, king) = suit_table(i);
            let is_trump_suit = match suit {
                Some(s) => s as usize == i,
                None => false,
            };
            proof {
                crate::cards::lemma_bounds(hand & suit_mask & !JACKS);
                lemma_trump_once(hand, suit, i as int);
            }
            if is_trump_suit {
                let trumps_in_suit = count_cards(hand & suit_mask & !JACKS) as u8;
                trump_count = trump_count + trumps_in_suit;
            }
            let cards_in_suit = count_cards(hand & suit_mask & !JACKS) as u8;
            suit_lengths[i] = cards_in_suit;
            let has_ace = (hand & ace) != 0;
            if !is_trump_suit {
                if has_ace {
                    aces = aces + 1;
                }
                let has_ten = (hand & ten) != 0;
                if has_ten {
                    tens = tens + 1;
                    if has_ace {
                        attached_tens = attached_tens + 1;
                    }
                    if cards_in_suit == 1 {
                        blank_tens = blank_tens + 1;
                    }
                }
                if has_ten && (hand & king) != 0 {
                    let small_cards_mask = small_cards_of(suit_mask, Ghost(i as int));
                    if (hand & small_cards_mask) != 0 {
                        ten_king_small = ten_king_small + 1;
                    }
                }
            }
            i = i + 1;
        }

        let mut max_suit_len: u8 = 0;
        let mut k: usize = 0;
        while k < 4
            invariant
                k <= 4,
                forall|j: int| 0 <= j < 4 ==> #[trigger] suit_lengths@[j] == suit_len(hand, j),
                max_suit_len == longest_suit(hand, k as int),
            decreases 4 - k,
        {
            let len = suit_lengths[k];
            if len > max_suit_len {
                max_suit_len = len;
            }
            k = k + 1;
        }

        let fulls_mask = ACEOFCLUBS | TENOFCLUBS | ACEOFSPADES | TENOFSPADES | ACEOFHEARTS
            | TENOFHEARTS | ACEOFDIAMONDS | TENOFDIAMONDS;
        let skat_full_cards = skat & fulls_mask;
        proof {
            crate::cards::lemma_bounds(skat_full_cards);
            crate::cards::lemma_bounds(hand);
        }
        let skat_fulls = count_cards(skat_full_cards) as u8;
        HandSignature {
            jacks,
            aces,
            tens,
            attached_tens,
            ten_king_small,
            card_count: count_cards(hand) as u8,
            skat_fulls,
            trump_count,
            standing_tens: attached_tens,
            blank_tens,
            max_suit_len,
        }
    }

    /// The letters of the jacks held, clubs first; a dash when there is none.
    pub fn jacks_string(&self) -> (r: String)
        ensures
            r@ == jacks_text(self.jacks),
    {
        let mut jacks_str = String::new();
        let mut any = false;
        let j = self.jacks;
        if (j & 8) != 0 {
            push_char(&mut jacks_str, 'C');
            any = true;
        }
        if (j & 4) != 0 {
            push_char(&mut jacks_str, 'S');
            any = true;
        }
        if (j & 2) != 0 {
            push_char(&mut jacks_str, 'H');
            any = true;
        }
        if (j & 1) != 0 {
            push_char(&mut jacks_str, 'D');
            any = true;
        }
        proof {
            let s = (if j & 8 != 0 {
                seq!['C']
            } else {
                Seq::empty()
            }) + (if j & 4 != 0 {
                seq!['S']
            } else {
                Seq::empty()
            }) + (if j & 2 != 0 {
                seq!['H']
            } else {
                Seq::empty()
            }) + (if j & 1 != 0 {
                seq!['D']
            } else {
                Seq::empty()
            });
            assert(jacks_str@ =~= s);
            assert(any == (s.len() != 0));
        }
        if !any {
            push_char(&mut jacks_str, '-');
        }
        proof {
            assert(jacks_str@ =~= jacks_text(j));
        }
        jacks_str
    }

    /// The column names of the CSV rows of signatures.
    pub fn to_csv_header() -> (r: String)
        ensures
            r@
                == "Cards,JacksMask,TrumpCount,Aces,Tens,AttachedTens,BlankTens,MaxSuitLen,TenKingSmall,SkatFulls,SkatCards,SkatPoints,WinProb"@,
    {
        owned(
            "Cards,JacksMask,TrumpCount,Aces,Tens,AttachedTens,BlankTens,MaxSuitLen,TenKingSmall,SkatFulls,SkatCards,SkatPoints,WinProb",
        )
    }
}

/// The suit with index `i` is the trump suit exactly when the index given is `i`.
proof fn lemma_trump_once(hand: u32, suit: Option<u8>, i: int)
    requires
        0 <= i < 4,
    ensures
        trump_suit_len(hand, suit, i + 1) == trump_suit_len(hand, suit, i) + if is_trump(suit, i) {
            suit_len(hand, i)
        } else {
            0nat
        },
        trump_suit_len(hand, suit, i + 1) <= 32,
    decreases i,
{
    crate::cards::lemma_bounds(hand & suit_cards(i).0 & !JACKS);
    if i > 0 {
        lemma_trump_once(hand, suit, i - 1);
        if is_trump(suit, i) {
            lemma_no_earlier_trump(hand, suit, i);
        }
    }
}

/// Only one index is the trump suit, so before it no suit counted as trump.
proof fn lemma_no_earlier_trump(hand: u32, suit: Option<u8>, i: int)
    requires
        0 <= i,
        is_trump(suit, i),
    ensures
        trump_suit_len(hand, suit, i) == 0,
    decreases i,
{
    if i > 0 {
        lemma_no_earlier_trump_below(hand, suit, i, i);
    }
}

proof fn lemma_no_earlier_trump_below(hand: u32, suit: Option<u8>, i: int, n: int)
    requires
        0 <= n <= i,
        is_trump(suit, i),
    ensures
        trump_suit_len(hand, suit, n) == 0,
    decreases n,
{
    if n > 0 {
        lemma_no_earlier_trump_below(hand, suit, i, n - 1);
    }
}

} // verus!
