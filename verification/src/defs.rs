//! Players and game types.
use vstd::prelude::*;
use crate::consts::{
    FARB_CONN, FARB_CONN_EQ, GRAND_CONN, GRAND_CONN_EQ, NULL_CONN_EQ, TRUMP_GRAND, TRUMP_NULL,
    TRUMP_SUIT,
};

verus! {

/// The three seats at the table, in playing order.
#[derive(Copy, Clone, PartialEq, Eq, Structural, Debug, Hash)]
pub enum Player {
    Declarer,
    Left,
    Right,
}

/// Position of a player in playing order.
pub open spec fn player_index(p: Player) -> int {
    match p {
        Player::Declarer => 0,
        Player::Left => 1,
        Player::Right => 2,
    }
}

/// The player whose seat comes `n` places after `p` in playing order.
pub open spec fn player_at(p: Player, n: int) -> Player {
    let i = (player_index(p) + n) % 3;
    if i == 0 {
        Player::Declarer
    } else if i == 1 {
        Player::Left
    } else {
        Player::Right
    }
}

/// The player after `p` in playing order.
pub open spec fn next_of(p: Player) -> Player {
    match p {
        Player::Declarer => Player::Left,
        Player::Left => Player::Right,
        Player::Right => Player::Declarer,
    }
}

/// The player before `p` in playing order.
pub open spec fn prev_of(p: Player) -> Player {
    match p {
        Player::Declarer => Player::Right,
        Player::Left => Player::Declarer,
        Player::Right => Player::Left,
    }
}

/// The seats one and two places on are the next and the previous player.
pub proof fn lemma_neighbours(p: Player)
    ensures
        player_at(p, 1) == next_of(p),
        player_at(p, 2) == prev_of(p),
        next_of(p) != p,
        prev_of(p) != p,
        next_of(p) != prev_of(p),
{
}

impl Default for Player {
    fn default() -> (r: Player)
        ensures
            r == Player::Declarer,
    {
        Player::Declarer
    }
}

impl Player {
    /// The next player in playing order.
    pub fn inc(&self) -> (r: Player)
        ensures
            r == player_at(*self, 1),
            r == next_of(*self),
            player_index(r) == (player_index(*self) + 1) % 3,
    {
        match self {
            Player::Declarer => Player::Left,
            Player::Left => Player::Right,
            Player::Right => Player::Declarer,
        }
    }

    /// The previous player in playing order.
    pub fn dec(&self) -> (r: Player)
        ensures
            r == player_at(*self, 2),
            r == prev_of(*self),
            player_index(r) == (player_index(*self) + 2) % 3,
    {
        self.inc().inc()
    }

    /// One-letter name: "D", "L" or "R".
    pub fn str(&self) -> (r: &str)
        ensures
            r@ == match *self {
                Player::Declarer => seq!['D'],
                Player::Left => seq!['L'],
                Player::Right => seq!['R'],
            },
    {
        proof {
            reveal_strlit("D");
            reveal_strlit("L");
            reveal_strlit("R");
        }
        match self {
            Player::Declarer => "D",
            Player::Left => "L",
            Player::Right => "R",
        }
    }

    /// The player defends against the declarer.
    pub fn is_team(&self) -> (r: bool)
        ensures
            r == (*self != Player::Declarer),
    {
        !self.is_declarer()
    }

    /// The player is the declarer.
    pub fn is_declarer(&self) -> (r: bool)
        ensures
            r == (*self == Player::Declarer),
    {
        matches!(self, Player::Declarer)
    }

    /// Both players belong to the same party.
    pub fn is_same_team_as(&self, player: Player) -> (r: bool)
        ensures
            r == ((*self == Player::Declarer) == (player == Player::Declarer)),
    {
        self.is_team() == player.is_team()
    }
}

/// Three steps in playing order lead back to the same player; `dec` undoes `inc`.
pub proof fn lemma_player_cycle(p: Player)
    ensures
        player_at(player_at(player_at(p, 1), 1), 1) == p,
        player_at(player_at(p, 1), 2) == p,
        player_at(player_at(p, 2), 1) == p,
{
}

/// The game types.
#[derive(Copy, Clone, PartialEq, Eq, Structural, Debug)]
pub enum Game {
    /// A suit game; the engine always uses clubs as the trump suit.
    Suit,
    Grand,
    Null,
}

/// The trump cards of a game type.
pub open spec fn trump_of(game: Game) -> u32 {
    match game {
        Game::Suit => TRUMP_SUIT,
        Game::Grand => TRUMP_GRAND,
        Game::Null => TRUMP_NULL,
    }
}

/// Makes an owned string of a string literal.
fn owned(s: &str) -> (r: String)
    ensures
        r@ == s@,
{
    s.to_owned()
}

impl Game {
    /// The name of the game type.
    pub fn convert_to_string(&self) -> (r: String)
        ensures
            r@ == match *self {
                Game::Suit => seq!['F', 'a', 'r', 'b', 'e'],
                Game::Grand => seq!['G', 'r', 'a', 'n', 'd'],
                Game::Null => seq!['N', 'u', 'l', 'l'],
            },
    {
        proof {
            reveal_strlit("Farbe");
            reveal_strlit("Grand");
            reveal_strlit("Null");
        }
        match self {
            Game::Suit => owned("Farbe"),
            Game::Grand => owned("Grand"),
            Game::Null => owned("Null"),
        }
    }

    /// The trump cards of the game type.
    pub fn get_trump(&self) -> (r: u32)
        ensures
            r == trump_of(*self),
    {
        match self {
            Game::Suit => TRUMP_SUIT,
            Game::Grand => TRUMP_GRAND,
            Game::Null => TRUMP_NULL,
        }
    }

    /// The runs of rank-neighbouring cards used to reduce moves; a null game has none.
    pub fn get_unequal_sequence(&self) -> (r: &'static [(u32, u8)])
        requires
            *self != Game::Null,
        ensures
            *self == Game::Suit ==> r@ == FARB_CONN@,
            *self == Game::Grand ==> r@ == GRAND_CONN@,
    {
        match self {
            Game::Suit => &FARB_CONN,
            _ => &GRAND_CONN,
        }
    }

    /// The runs of cards of equal value used to reduce moves.
    pub fn get_equal_sequence(&self) -> (r: &'static [u32])
        ensures
            r@ == match *self {
                Game::Suit => FARB_CONN_EQ@,
                Game::Grand => GRAND_CONN_EQ@,
                Game::Null => NULL_CONN_EQ@,
            },
    {
        match self {
            Game::Suit => &FARB_CONN_EQ,
            Game::Grand => &GRAND_CONN_EQ,
            Game::Null => &NULL_CONN_EQ,
        }
    }
}

} // verus!
