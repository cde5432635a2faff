//! What is known of a player's hand from the cards played: the suits a player is void in.
use vstd::prelude::*;
use crate::convert::push_char;

verus! {

/// The suits a player has shown to hold no card of: trump and the four suits.
#[derive(Clone, Copy, PartialEq, Eq, Structural, Debug)]
pub struct Facts {
    pub no_trump: bool,
    pub no_clubs: bool,
    pub no_spades: bool,
    pub no_hearts: bool,
    pub no_diamonds: bool,
}

/// The mark of one fact in the text of the facts: `x` when it holds, `-` when it does not.
pub open spec fn fact_mark(b: bool) -> char {
    if b {
        'x'
    } else {
        '-'
    }
}

impl Facts {
    /// Nothing is known.
    pub fn zero_fact() -> (r: Facts)
        ensures
            r == (Facts {
                no_trump: false,
                no_clubs: false,
                no_spades: false,
                no_hearts: false,
                no_diamonds: false,
            }),
    {
        Facts {
            no_trump: false,
            no_clubs: false,
            no_spades: false,
            no_hearts: false,
            no_diamonds: false,
        }
    }

    /// The given facts.
    pub fn one_fact(
        no_trump: bool,
        no_clubs: bool,
        no_spades: bool,
        no_hearts: bool,
        no_diamonds: bool,
    ) -> (r: Facts)
        ensures
            r == (Facts { no_trump, no_clubs, no_spades, no_hearts, no_diamonds }),
    {
        Facts { no_trump, no_clubs, no_spades, no_hearts, no_diamonds }
    }

    /// The facts as five marks, in the order trump, clubs, spades, hearts, diamonds.
    pub fn convert_to_string(&self) -> (r: String)
        ensures
            r@ == seq![
                fact_mark(self.no_trump),
                fact_mark(self.no_clubs),
                fact_mark(self.no_spades),
                fact_mark(self.no_hearts),
                fact_mark(self.no_diamonds),
            ],
    {
        let mut s = String::new();
        push_char(&mut s, if self.no_trump { 'x' } else { '-' });
        push_char(&mut s, if self.no_clubs { 'x' } else { '-' });
        push_char(&mut s, if self.no_spades { 'x' } else { '-' });
        push_char(&mut s, if self.no_hearts { 'x' } else { '-' });
        push_char(&mut s, if self.no_diamonds { 'x' } else { '-' });
        proof {
            assert(s@ =~= seq![
                fact_mark(self.no_trump),
                fact_mark(self.no_clubs),
                fact_mark(self.no_spades),
                fact_mark(self.no_hearts),
                fact_mark(self.no_diamonds),
            ]);
        }
        s
    }
}

} // verus!
