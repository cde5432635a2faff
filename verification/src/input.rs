//! Setting up a game from the parts a user gives: the hands, the cards on the table, the suit
//! led by name, and the declarer's points so far.
use vstd::prelude::*;
use vstd::string::StringSliceAdditionalSpecFns;
use crate::augen::Augen;
use crate::cards::{card_count, count_cards, points};
use crate::consts::{CLUBS, DIAMONDS, HEARTS, SPADES, TRUMP_GRAND, TRUMP_SUIT};
use crate::context::GameContext;
use crate::defs::{Game, Player};
use crate::formatter::bytes_are;

verus! {

/// The suit led named by `name` (in lower case): `clubs` or `c`, `spades` or `s`, `hearts` or
/// `h`, `diamonds` or `d`, `trump` or `t` (the jacks in a grand, else the trump of a suit
/// game); any other name gives no suit.
pub open spec fn suit_named(name: Seq<u8>, game: Game) -> u32 {
    if name == seq![99u8, 108, 117, 98, 115] || name == seq![99u8] {
        CLUBS
    } else if name == seq![115u8, 112, 97, 100, 101, 115] || name == seq![115u8] {
        SPADES
    } else if name == seq![104u8, 101, 97, 114, 116, 115] || name == seq![104u8] {
        HEARTS
    } else if name == seq![100u8, 105, 97, 109, 111, 110, 100, 115] || name == seq![100u8] {
        DIAMONDS
    } else if name == seq![116u8, 114, 117, 109, 112] || name == seq![116u8] {
        if game == Game::Grand {
            TRUMP_GRAND
        } else {
            TRUMP_SUIT
        }
    } else {
        0
    }
}

/// The suit led named by `name`, which is in lower case (see `suit_named`).
pub fn trick_suit_from_name(name: &str, game: Game) -> (r: u32)
    ensures
        r == suit_named(name.spec_bytes(), game),
{
    let b = name.as_bytes();
    let clubs: [u8; 5] = [99, 108, 117, 98, 115];
    let spades: [u8; 6] = [115, 112, 97, 100, 101, 115];
    let hearts: [u8; 6] = [104, 101, 97, 114, 116, 115];
    let diamonds: [u8; 8] = [100, 105, 97, 109, 111, 110, 100, 115];
    let trump: [u8; 5] = [116, 114, 117, 109, 112];
    let c: [u8; 1] = [99];
    let s: [u8; 1] = [115];
    let h: [u8; 1] = [104];
    let d: [u8; 1] = [100];
    let t: [u8; 1] = [116];
    proof {
        assert(clubs@ =~= seq![99u8, 108, 117, 98, 115]);
        assert(spades@ =~= seq![115u8, 112, 97, 100, 101, 115]);
        assert(hearts@ =~= seq![104u8, 101, 97, 114, 116, 115]);
        assert(diamonds@ =~= seq![100u8, 105, 97, 109, 111, 110, 100, 115]);
        assert(trump@ =~= seq![116u8, 114, 117, 109, 112]);
        assert(c@ =~= seq![99u8]);
        assert(s@ =~= seq![115u8]);
        assert(h@ =~= seq![104u8]);
        assert(d@ =~= seq![100u8]);
        assert(t@ =~= seq![116u8]);
    }
    if bytes_are(b, &clubs) || bytes_are(b, &c) {
        CLUBS
    } else if bytes_are(b, &spades) || bytes_are(b, &s) {
        SPADES
    } else if bytes_are(b, &hearts) || bytes_are(b, &h) {
        HEARTS
    } else if bytes_are(b, &diamonds) || bytes_are(b, &d) {
        DIAMONDS
    } else if bytes_are(b, &trump) || bytes_are(b, &t) {
        if game == Game::Grand {
            TRUMP_GRAND
        } else {
            TRUMP_SUIT
        }
    } else {
        0
    }
}

/// The declarer's points for a game the user set up: the points given; when none are given,
/// the points of the skat in a suit game or grand where the hands and the table hold thirty
/// cards (the skat was laid away by the declarer); else none.
pub open spec fn start_points_for(ctx: GameContext, given: Option<u8>) -> Option<u8> {
    match given {
        Some(p) => Some(p),
        None => if card_count(ctx.declarer_cards) + card_count(ctx.left_cards) + card_count(
            ctx.right_cards,
        ) + card_count(ctx.trick_cards) == 30 && ctx.game_type != Game::Null {
            Some(points(ctx.get_skat_spec()) as u8)
        } else {
            None
        },
    }
}

/// A game set up from the parts the user gives: the hands, who leads, the cards on the table
/// and the suit led when given, the threshold, and the declarer's points (see
/// `start_points_for`). The second part tells the points taken from the skat, when they were.
pub fn context_from_input(
    declarer_cards: u32,
    left_cards: u32,
    right_cards: u32,
    game_type: Game,
    start_player: Player,
    trick_cards: Option<u32>,
    trick_suit: Option<u32>,
    declarer_start_points: Option<u8>,
    threshold: u8,
) -> (r: (GameContext, Option<u8>))
    ensures
        r.0.declarer_cards == declarer_cards,
        r.0.left_cards == left_cards,
        r.0.right_cards == right_cards,
        r.0.game_type == game_type,
        r.0.start_player == start_player,
        r.0.trick_cards == (match trick_cards {
            Some(t) => t,
            None => 0,
        }),
        r.0.trick_suit == (match trick_suit {
            Some(s) => s,
            None => 0,
        }),
        r.0.threshold_upper == threshold,
        r.0.declarer_start_points == (match start_points_for(r.0, declarer_start_points) {
            Some(p) => p,
            None => 0,
        }),
        r.1 == (if declarer_start_points is None {
            start_points_for(r.0, None)
        } else {
            None
        }),
{
    let mut ctx = GameContext::create(declarer_cards, left_cards, right_cards, game_type, start_player);
    if let Some(t) = trick_cards {
        ctx.set_trick_cards(t);
    }
    if let Some(s) = trick_suit {
        ctx.set_trick_suit(s);
    }
    ctx.set_threshold_upper(threshold);
    let mut from_skat: Option<u8> = None;
    match declarer_start_points {
        Some(p) => {
            ctx.set_declarer_start_points(p);
        },
        None => {
            let total = count_cards(ctx.declarer_cards) + count_cards(ctx.left_cards)
                + count_cards(ctx.right_cards) + count_cards(ctx.trick_cards);
            if total == 30 && ctx.game_type != Game::Null {
                let skat = ctx.get_skat();
                let p = skat.__get_value();
                proof {
                    crate::cards::lemma_bounds(skat);
                }
                ctx.set_declarer_start_points(p);
                from_skat = Some(p);
            }
        },
    }
    (ctx, from_skat)
}

} // verus!
