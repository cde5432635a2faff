//! Conversion between card sets and their text form, such as `"[CJ HJ CA CK]"`.
//!
//! Card `i` in standard order (index 0 is the jack of clubs, index 31 the seven of
//! diamonds) has bit index `31 - i` and a two-letter name: a suit letter (C, S, H, D)
//! followed by a rank letter (J, A, T, K, Q, 9, 8, 7).
use vstd::prelude::*;
use vstd::string::StringSliceAdditionalSpecFns;
use crate::cards::{bit, count_from, count_cards, has_card};

verus! {

/// Suit letter of each card in standard order.
pub const CARD_SUIT_CHARS: [char; 32] = [
    'C', 'S', 'H', 'D',
    'C', 'C', 'C', 'C', 'C', 'C', 'C',
    'S', 'S', 'S', 'S', 'S', 'S', 'S',
    'H', 'H', 'H', 'H', 'H', 'H', 'H',
    'D', 'D', 'D', 'D', 'D', 'D', 'D',
];

/// Rank letter of each card in standard order.
pub const CARD_RANK_CHARS: [char; 32] = [
    'J', 'J', 'J', 'J',
    'A', 'T', 'K', 'Q', '9', '8', '7',
    'A', 'T', 'K', 'Q', '9', '8', '7',
    'A', 'T', 'K', 'Q', '9', '8', '7',
    'A', 'T', 'K', 'Q', '9', '8', '7',
];

/// The two-letter name of card `i` in standard order.
pub open spec fn card_name(i: int) -> Seq<char> {
    seq![CARD_SUIT_CHARS@[i], CARD_RANK_CHARS@[i]]
}

/// The name of card `i` occurs in the byte text `b`.
pub open spec fn text_has_name(b: Seq<u8>, i: int) -> bool {
    exists|p: int|
        0 <= p && p + 1 < b.len() && #[trigger] b[p] == CARD_SUIT_CHARS@[i] as u8 && b[p + 1]
            == CARD_RANK_CHARS@[i] as u8
}

/// The names of the cards of `x` among the first `n` cards in standard order, separated by spaces.
pub open spec fn joined_names(x: u32, n: int) -> Seq<char>
    decreases n,
{
    if n <= 0 {
        seq![]
    } else {
        let prev = joined_names(x, n - 1);
        if has_card(x, 31 - (n - 1)) {
            if prev.len() > 0 {
                prev + seq![' '] + card_name(n - 1)
            } else {
                card_name(n - 1)
            }
        } else {
            prev
        }
    }
}

/// The text of a card set: the names of its cards in standard order separated by spaces,
/// enclosed in brackets unless the set has exactly one card.
pub open spec fn card_text(x: u32) -> Seq<char> {
    let j = joined_names(x, 32);
    if j.len() == 2 {
        j
    } else {
        seq!['['] + j + seq![']']
    }
}

/// `c` holds exactly the cards whose names occur in the byte text `b`.
pub open spec fn names_match(c: u32, b: Seq<u8>) -> bool {
    forall|i: int| 0 <= i < 32 ==> has_card(c, 31 - i) == text_has_name(b, i)
}

/// The set of the cards whose names occur in the byte text `b`.
pub open spec fn text_cards(b: Seq<u8>) -> u32 {
    choose|c: u32| names_match(c, b)
}

/// Only one set holds exactly the cards named in a text.
pub proof fn lemma_text_cards(c: u32, b: Seq<u8>)
    requires
        names_match(c, b),
    ensures
        c == text_cards(b),
{
    let d = text_cards(b);
    assert(names_match(d, b));
    assert forall|k: int| 0 <= k < 32 implies has_card(c, k) == has_card(d, k) by {
        assert(has_card(c, 31 - (31 - k)) == text_has_name(b, 31 - k));
        assert(has_card(d, 31 - (31 - k)) == text_has_name(b, 31 - k));
    }
    crate::cards::lemma_ext(c, d);
}

/// Conversion of a text to the set of cards whose names it holds.
pub trait BitConverter {
    /// The bytes of the text.
    spec fn text_bytes(&self) -> Seq<u8>;

    /// The set of the cards whose names occur in the text.
    fn __bit(&self) -> u32;
}

impl BitConverter for str {
    open spec fn text_bytes(&self) -> Seq<u8> {
        self.spec_bytes()
    }

    fn __bit(&self) -> (r: u32)
        ensures
            forall|i: int| 0 <= i < 32 ==> has_card(r, 31 - i) == text_has_name(self.spec_bytes(), i),
            r == text_cards(self.spec_bytes()),
    {
        let r = bits_of_bytes(self.as_bytes());
        proof {
            lemma_text_cards(r, self.spec_bytes());
        }
        r
    }
}

/// The set of the cards whose names occur in the byte text `b`.
pub fn bits_of_bytes(b: &[u8]) -> (r: u32)
    ensures
        forall|i: int| 0 <= i < 32 ==> has_card(r, 31 - i) == text_has_name(b@, i),
{
    let mut ret: u32 = 0;
    let mut i: usize = 0;
    proof {
        assert forall|k: int| 0 <= k < 32 implies !has_card(0, k) by {
            crate::cards::lemma_has_consts(k);
        }
    }
    while i < 32
        invariant
            i <= 32,
            forall|j: int| 0 <= j < i ==> has_card(ret, 31 - j) == text_has_name(b@, j),
            forall|k: int| 0 <= k < 32 - i ==> !has_card(ret, k),
        decreases 32 - i,
    {
        let found = contains_pair(b, CARD_SUIT_CHARS[i] as u8, CARD_RANK_CHARS[i] as u8);
        let ghost old_ret = ret;
        if found {
            ret = ret | (1u32 << ((31 - i) as u32));
        }
        proof {
            assert forall|k: int| 0 <= k < 32 implies #[trigger] has_card(ret, k) == (if k == 31 - i {
                found
            } else {
                has_card(old_ret, k)
            }) by {
                crate::cards::lemma_has_ops(old_ret, bit(31 - i), k);
                crate::cards::lemma_has_bit(31 - i, k);
            }
        }
        i = i + 1;
    }
    ret
}

/// The bytes `c1 c2` occur next to each other in `b`.
fn contains_pair(b: &[u8], c1: u8, c2: u8) -> (r: bool)
    ensures
        r == exists|p: int| 0 <= p && p + 1 < b@.len() && #[trigger] b@[p] == c1 && b@[p + 1] == c2,
{
    let n = b.len();
    if n < 2 {
        return false;
    }
    let mut p: usize = 0;
    while p < n - 1
        invariant
            n == b@.len(),
            n >= 2,
            forall|q: int| 0 <= q < p && q + 1 < n ==> !(#[trigger] b@[q] == c1 && b@[q + 1] == c2),
        decreases n - p,
    {
        if b[p] == c1 && b[p + 1] == c2 {
            assert(b@[p as int] == c1 && b@[p + 1] == c2);
            return true;
        }
        p = p + 1;
    }
    assert forall|q: int| 0 <= q && q + 1 < n implies !(#[trigger] b@[q] == c1 && b@[q + 1] == c2) by {
        assert(q < p);
    }
    false
}

/// Appends a character to a string.
#[verifier::external_body]
pub(crate) fn push_char(s: &mut String, c: char)
    ensures
        final(s)@ == old(s)@.push(c),
{
    s.push(c);
}

/// Conversion of a card set to its text.
pub trait StringConverter {
    /// The card set that the value stands for.
    spec fn string_set(&self) -> u32;

    /// The text of the card set.
    fn __str(&self) -> String;
}

impl StringConverter for u32 {
    open spec fn string_set(&self) -> u32 {
        *self
    }

    fn __str(&self) -> (r: String)
        ensures
            r@ == card_text(*self),
    {
        card_set_text(*self)
    }
}

/// Length of the joined names: three characters per card, less the missing last separator.
pub proof fn lemma_joined_len(x: u32, n: int)
    requires
        0 <= n <= 32,
    ensures
        joined_names(x, n).len() == if count_from(x, 32 - n) == 0 {
            0
        } else {
            3 * count_from(x, 32 - n) - 1
        },
    decreases n,
{
    if n > 0 {
        lemma_joined_len(x, n - 1);
    }
}

/// The text of a card set.
pub fn card_set_text(x: u32) -> (r: String)
    ensures
        r@ == card_text(x),
{
    let cnt = count_cards(x);
    proof {
        lemma_joined_len(x, 32);
    }
    let mut s = String::new();
    if cnt != 1 {
        push_char(&mut s, '[');
    }
    let ghost start = s@;
    let mut i: usize = 0;
    let mut first = true;
    while i < 32
        invariant
            i <= 32,
            s@ == start + joined_names(x, i as int),
            first == (joined_names(x, i as int).len() == 0),
        decreases 32 - i,
    {
        if x & (1u32 << ((31 - i) as u32)) != 0 {
            if !first {
                push_char(&mut s, ' ');
            }
            push_char(&mut s, CARD_SUIT_CHARS[i]);
            push_char(&mut s, CARD_RANK_CHARS[i]);
            first = false;
            assert(s@ =~= start + joined_names(x, i + 1));
        }
        i = i + 1;
    }
    if cnt != 1 {
        push_char(&mut s, ']');
    }
    assert(s@ =~= card_text(x));
    s
}

/// A suit letter of a card name.
pub open spec fn is_suit_char(c: char) -> bool {
    c == 'C' || c == 'S' || c == 'H' || c == 'D'
}

/// A rank letter of a card name.
pub open spec fn is_rank_char(c: char) -> bool {
    c == 'J' || c == 'A' || c == 'T' || c == 'K' || c == 'Q' || c == '9' || c == '8' || c == '7'
}

/// The bytes of an ASCII text.
pub open spec fn ascii_bytes(s: Seq<char>) -> Seq<u8> {
    Seq::new(s.len(), |i: int| s[i] as u8)
}

/// Each card name is a suit letter then a rank letter, and no two cards share a name.
proof fn lemma_card_names()
    ensures
        forall|i: int| 0 <= i < 32 ==> is_suit_char(#[trigger] CARD_SUIT_CHARS@[i]) && is_rank_char(
            CARD_RANK_CHARS@[i],
        ),
        forall|i: int, j: int|
            0 <= i < 32 && 0 <= j < 32 && #[trigger] CARD_SUIT_CHARS@[i] == #[trigger] CARD_SUIT_CHARS@[j]
                && CARD_RANK_CHARS@[i] == CARD_RANK_CHARS@[j] ==> i == j,
{
    assert(CARD_SUIT_CHARS@ =~= seq![
        'C', 'S', 'H', 'D', 'C', 'C', 'C', 'C', 'C', 'C', 'C', 'S', 'S', 'S', 'S', 'S', 'S', 'S',
        'H', 'H', 'H', 'H', 'H', 'H', 'H', 'D', 'D', 'D', 'D', 'D', 'D', 'D',
    ]);
    assert(CARD_RANK_CHARS@ =~= seq![
        'J', 'J', 'J', 'J', 'A', 'T', 'K', 'Q', '9', '8', '7', 'A', 'T', 'K', 'Q', '9', '8', '7',
        'A', 'T', 'K', 'Q', '9', '8', '7', 'A', 'T', 'K', 'Q', '9', '8', '7',
    ]);
}

/// Every character of the joined names is a letter of a name or a space, and a suit letter
/// followed by a rank letter starts the name of a card of the set among the first `n`.
proof fn lemma_joined_chars(x: u32, n: int)
    requires
        0 <= n <= 32,
    ensures
        forall|p: int|
            0 <= p < joined_names(x, n).len() ==> is_suit_char(#[trigger] joined_names(x, n)[p])
                || is_rank_char(joined_names(x, n)[p]) || joined_names(x, n)[p] == ' ',
        forall|p: int, i: int|
            0 <= p && p + 1 < joined_names(x, n).len() && 0 <= i < 32 && #[trigger] joined_names(
                x,
                n,
            )[p] == #[trigger] CARD_SUIT_CHARS@[i] && joined_names(x, n)[p + 1] == CARD_RANK_CHARS@[i]
                ==> i < n && has_card(x, 31 - i),
        forall|i: int|
            0 <= i < n && #[trigger] has_card(x, 31 - i) ==> exists|p: int|
                0 <= p && p + 1 < joined_names(x, n).len() && #[trigger] joined_names(x, n)[p]
                    == CARD_SUIT_CHARS@[i] && joined_names(x, n)[p + 1] == CARD_RANK_CHARS@[i],
    decreases n,
{
    lemma_card_names();
    if n > 0 {
        lemma_joined_chars(x, n - 1);
        let prev = joined_names(x, n - 1);
        let j = joined_names(x, n);
        let k = n - 1;
        if has_card(x, 31 - k) {
            let name = card_name(k);
            assert(is_suit_char(CARD_SUIT_CHARS@[k]));
            if prev.len() > 0 {
                assert(j == prev + seq![' '] + name);
                let off: int = prev.len() as int + 1;
                assert forall|p: int| 0 <= p < j.len() implies is_suit_char(#[trigger] j[p])
                    || is_rank_char(j[p]) || j[p] == ' ' by {
                    if p < prev.len() {
                        assert(j[p] == prev[p]);
                    }
                }
                assert forall|p: int, i: int|
                    0 <= p && p + 1 < j.len() && 0 <= i < 32 && #[trigger] j[p] == #[trigger] CARD_SUIT_CHARS@[i]
                        && j[p + 1] == CARD_RANK_CHARS@[i] implies i < n && has_card(x, 31 - i) by {
                    assert(is_suit_char(CARD_SUIT_CHARS@[i]));
                    assert(is_rank_char(CARD_RANK_CHARS@[i]));
                    if p + 1 < prev.len() {
                        assert(j[p] == prev[p]);
                        assert(j[p + 1] == prev[p + 1]);
                    } else if p + 1 == prev.len() {
                        assert(j[p + 1] == ' ');
                    } else if p == prev.len() {
                        assert(j[p] == ' ');
                    } else {
                        assert(p == off);
                        assert(j[p] == CARD_SUIT_CHARS@[k]);
                        assert(j[p + 1] == CARD_RANK_CHARS@[k]);
                    }
                }
                assert forall|i: int| 0 <= i < n && #[trigger] has_card(x, 31 - i) implies exists|p: int|
                    0 <= p && p + 1 < j.len() && #[trigger] j[p] == CARD_SUIT_CHARS@[i] && j[p + 1]
                        == CARD_RANK_CHARS@[i] by {
                    if i < k {
                        let p = choose|p: int|
                            0 <= p && p + 1 < prev.len() && #[trigger] prev[p] == CARD_SUIT_CHARS@[i]
                                && prev[p + 1] == CARD_RANK_CHARS@[i];
                        assert(j[p] == prev[p]);
                        assert(j[p + 1] == prev[p + 1]);
                    } else {
                        assert(j[off] == CARD_SUIT_CHARS@[k]);
                        assert(j[off + 1] == CARD_RANK_CHARS@[k]);
                    }
                }
            } else {
                assert(j == name);
                assert forall|i: int| 0 <= i < n && #[trigger] has_card(x, 31 - i) implies exists|p: int|
                    0 <= p && p + 1 < j.len() && #[trigger] j[p] == CARD_SUIT_CHARS@[i] && j[p + 1]
                        == CARD_RANK_CHARS@[i] by {
                    if i < k {
                        assert(false);
                    } else {
                        assert(j[0] == CARD_SUIT_CHARS@[k]);
                    }
                }
            }
        } else {
            assert(j == prev);
        }
    }
}

/// A text that reads as the name text of a card set, such as the text `__str` makes, gives
/// back exactly that set when `__bit` reads it.
pub proof fn lemma_str_bit_round_trip(x: u32, t: &str)
    requires
        t@ == card_text(x),
    ensures
        text_cards(t.text_bytes()) == x,
{
    lemma_joined_chars(x, 32);
    let j = joined_names(x, 32);
    let c = card_text(x);
    assert forall|i: int| 0 <= i < c.len() implies '\0' <= #[trigger] c[i] <= '\u{7f}' by {
        if j.len() != 2 {
            if 0 < i < c.len() - 1 {
                assert(c[i] == j[i - 1]);
            }
        }
    }
    assert(vstd::string::is_ascii(t));
    vstd::string::is_ascii_spec_bytes(t);
    assert(t.spec_bytes() =~= ascii_bytes(c));
    lemma_text_round_trip(x);
}

/// Reading back the text of a card set gives the set.
pub proof fn lemma_text_round_trip(x: u32)
    ensures
        text_cards(ascii_bytes(card_text(x))) == x,
{
    lemma_card_names();
    lemma_joined_chars(x, 32);
    let j = joined_names(x, 32);
    let t = card_text(x);
    let b = ascii_bytes(t);
    let off: int = if j.len() == 2 {
        0
    } else {
        1
    };
    assert(forall|p: int| 0 <= p < j.len() ==> t[p + off] == #[trigger] j[p]);
    assert(forall|p: int| 0 <= p < t.len() ==> (p < off || p >= off + j.len()) ==> t[p] == '['
        || t[p] == ']');
    assert forall|i: int| 0 <= i < 32 implies has_card(x, 31 - i) == text_has_name(b, i) by {
        if has_card(x, 31 - i) {
            let p = choose|p: int|
                0 <= p && p + 1 < j.len() && #[trigger] j[p] == CARD_SUIT_CHARS@[i] && j[p + 1]
                    == CARD_RANK_CHARS@[i];
            assert(b[p + off] == t[p + off] as u8);
            assert(b[p + off] == CARD_SUIT_CHARS@[i] as u8);
            assert(b[p + off + 1] == CARD_RANK_CHARS@[i] as u8);
        }
        if text_has_name(b, i) {
            let q = choose|q: int|
                0 <= q && q + 1 < b.len() && #[trigger] b[q] == CARD_SUIT_CHARS@[i] as u8 && b[q + 1]
                    == CARD_RANK_CHARS@[i] as u8;
            assert(b[q] == t[q] as u8);
            assert(b[q + 1] == t[q + 1] as u8);
            assert(is_suit_char(CARD_SUIT_CHARS@[i]));
            assert(is_rank_char(CARD_RANK_CHARS@[i]));
            if q < off || q >= off + j.len() {
                assert(t[q] == '[' || t[q] == ']');
            } else if q + 1 >= off + j.len() {
                assert(t[q + 1] == '[' || t[q + 1] == ']');
            } else {
                let p = q - off;
                assert(t[q] == j[p]);
                assert(t[q + 1] == j[p + 1]);
                assert(is_suit_char(j[p]) || is_rank_char(j[p]) || j[p] == ' ');
                assert(is_suit_char(j[p + 1]) || is_rank_char(j[p + 1]) || j[p + 1] == ' ');
                assert(j[p] == CARD_SUIT_CHARS@[i]);
                assert(j[p + 1] == CARD_RANK_CHARS@[i]);
            }
        }
    }
    lemma_text_cards(x, b);
}

} // verus!

