//! The transposition table: one slot per hash value, holding a searched position with its
//! value, the kind of bound the value is, and the best card found there.
use vstd::prelude::*;
use crate::cards::{is_card, subset};
use crate::consts::TT_SIZE;
use crate::counters::{next_count, Counters};
use crate::defs::Player;
use crate::position::Position;
use crate::rules::cards_for_player;

verus! {

/// Whether a stored value is exact or a bound of the true value.
#[derive(Clone, Copy, PartialEq, Eq, Structural, Debug)]
pub enum TranspositionFlag {
    Exact,
    Upper,
    Lower,
}

/// A slot of the table: the position it holds (player to move, hands, trick), its value, the
/// kind of the value and the best card.
#[derive(Clone, Copy, PartialEq, Eq, Structural, Debug)]
pub struct TranspositionEntry {
    pub occupied: bool,
    pub player: Player,
    pub left_cards: u32,
    pub right_cards: u32,
    pub declarer_cards: u32,
    pub trick_cards: u32,
    pub value: i16,
    pub flag: TranspositionFlag,
    pub bestcard: u32,
}

/// The entry holds the position: same player to move, same hands, same trick.
pub open spec fn entry_matches(e: TranspositionEntry, p: Position) -> bool {
    &&& e.player == p.player
    &&& e.left_cards == p.left_cards
    &&& e.right_cards == p.right_cards
    &&& e.declarer_cards == p.declarer_cards
    &&& e.trick_cards == p.trick_cards
}

/// The best card of an occupied entry is none, or a card in the hand of the player to move.
pub open spec fn entry_ok(e: TranspositionEntry) -> bool {
    e.occupied ==> (e.bestcard == 0 || (is_card(e.bestcard) && subset(
        e.bestcard,
        cards_for_player(e.declarer_cards, e.left_cards, e.right_cards, e.player),
    )))
}

/// A value at or below `alpha` is an upper bound, one at or above `beta` a lower bound, and
/// one in between is exact.
pub open spec fn flag_for(value: int, alpha: int, beta: int) -> TranspositionFlag {
    if value <= alpha {
        TranspositionFlag::Upper
    } else if value >= beta {
        TranspositionFlag::Lower
    } else {
        TranspositionFlag::Exact
    }
}

/// The occupied entry for a position.
pub open spec fn entry_for(
    p: Position,
    value: i16,
    flag: TranspositionFlag,
    bestcard: u32,
) -> TranspositionEntry {
    TranspositionEntry {
        occupied: true,
        player: p.player,
        left_cards: p.left_cards,
        right_cards: p.right_cards,
        declarer_cards: p.declarer_cards,
        trick_cards: p.trick_cards,
        value,
        flag,
        bestcard,
    }
}

/// A new entry replaces an empty slot; an exact value replaces anything; a bound replaces
/// only a bound.
pub open spec fn replaces(old: TranspositionEntry, new: TranspositionEntry) -> bool {
    !old.occupied || new.flag == TranspositionFlag::Exact || old.flag != TranspositionFlag::Exact
}

/// What the table holds for a position: the entry of its slot if that entry holds it.
pub open spec fn lookup(data: Seq<TranspositionEntry>, p: Position) -> Option<TranspositionEntry> {
    let e = data[p.hash as int];
    if e.occupied && entry_matches(e, p) {
        Some(e)
    } else {
        None
    }
}

/// The number of occupied slots among the first `n`.
pub open spec fn occupied_count(data: Seq<TranspositionEntry>, n: int) -> nat
    decreases n,
{
    if n <= 0 {
        0
    } else {
        occupied_count(data, n - 1) + if data[n - 1].occupied {
            1nat
        } else {
            0nat
        }
    }
}

/// The empty slot.
pub open spec fn empty_entry() -> TranspositionEntry {
    TranspositionEntry {
        occupied: false,
        player: Player::Declarer,
        left_cards: 0,
        right_cards: 0,
        declarer_cards: 0,
        trick_cards: 0,
        value: 0,
        flag: TranspositionFlag::Exact,
        bestcard: 0,
    }
}

impl TranspositionEntry {
    /// Whether the entry holds `position`.
    pub fn matches(&self, position: &Position) -> (r: bool)
        ensures
            r == entry_matches(*self, *position),
    {
        self.player == position.player && self.left_cards == position.left_cards
            && self.right_cards == position.right_cards && self.declarer_cards
            == position.declarer_cards && self.trick_cards == position.trick_cards
    }
}

/// The table: `TT_SIZE` slots.
#[derive(Clone)]
pub struct TranspositionTable {
    pub data: Vec<TranspositionEntry>,
}

impl TranspositionTable {
    /// The table has its full size and every best card is one of its player's cards.
    pub open spec fn wf(&self) -> bool {
        &&& self.data.len() == TT_SIZE
        &&& forall|i: int| 0 <= i < self.data.len() ==> entry_ok(#[trigger] self.data@[i])
    }

    /// A table of empty slots.
    pub fn new() -> (r: Self)
        ensures
            r.wf(),
            forall|i: int| 0 <= i < TT_SIZE ==> #[trigger] r.data@[i] == empty_entry(),
    {
        let mut data: Vec<TranspositionEntry> = Vec::with_capacity(TT_SIZE);
        let mut i: usize = 0;
        while i < TT_SIZE
            invariant
                i <= TT_SIZE,
                data.len() == i,
                forall|j: int| 0 <= j < i ==> #[trigger] data@[j] == empty_entry(),
            decreases TT_SIZE - i,
        {
            data.push(
                TranspositionEntry {
                    occupied: false,
                    player: Player::Declarer,
                    left_cards: 0,
                    right_cards: 0,
                    declarer_cards: 0,
                    trick_cards: 0,
                    value: 0,
                    flag: TranspositionFlag::Exact,
                    bestcard: 0,
                },
            );
            i = i + 1;
        }
        TranspositionTable { data }
    }

    /// Stores the result `value` (best card, declarer points) of searching `position` with
    /// the window `alpha`..`beta` in slot `mapped_hash`. The value kept is what the declarer
    /// takes from here on: the points above those already taken, or nothing.
    pub fn write(
        &mut self,
        position: &Position,
        mapped_hash: usize,
        alpha: u8,
        beta: u8,
        value: (u32, u8),
    )
        requires
            old(self).wf(),
            mapped_hash < TT_SIZE,
            value.0 == 0 || (is_card(value.0) && subset(value.0, position.hand_of(position.player))),
        ensures
            final(self).wf(),
            ({
                let stored = if value.1 > position.declarer_points {
                    value.1 - position.declarer_points
                } else {
                    0
                };
                let e = entry_for(
                    *position,
                    stored as i16,
                    flag_for(value.1 as int, alpha as int, beta as int),
                    value.0,
                );
                final(self).data@ == if replaces(old(self).data@[mapped_hash as int], e) {
                    old(self).data@.update(mapped_hash as int, e)
                } else {
                    old(self).data@
                }
            }),
    {
        let flag = if value.1 <= alpha {
            TranspositionFlag::Upper
        } else if value.1 >= beta {
            TranspositionFlag::Lower
        } else {
            TranspositionFlag::Exact
        };
        let stored_val: i16 = if value.1 > position.declarer_points {
            (value.1 - position.declarer_points) as i16
        } else {
            0
        };
        let entry = TranspositionEntry {
            occupied: true,
            player: position.player,
            left_cards: position.left_cards,
            right_cards: position.right_cards,
            declarer_cards: position.declarer_cards,
            trick_cards: position.trick_cards,
            value: stored_val,
            bestcard: value.0,
            flag,
        };
        self.store(mapped_hash, entry);
    }

    /// Puts `entry` into slot `mapped_hash` unless the slot holds an exact value and the entry
    /// only a bound.
    fn store(&mut self, mapped_hash: usize, entry: TranspositionEntry)
        requires
            old(self).wf(),
            mapped_hash < TT_SIZE,
            entry_ok(entry),
        ensures
            final(self).wf(),
            final(self).data@ == if replaces(old(self).data@[mapped_hash as int], entry) {
                old(self).data@.update(mapped_hash as int, entry)
            } else {
                old(self).data@
            },
    {
        let old = self.data[mapped_hash];
        let replace = if !old.occupied {
            true
        } else {
            entry.flag == TranspositionFlag::Exact || old.flag != TranspositionFlag::Exact
        };
        if replace {
            self.data.set(mapped_hash, entry);
        }
    }

    /// The entry that holds `position`, if its slot holds it; counts a read or a collision.
    pub fn read(&self, position: &Position, cnt: &mut Counters) -> (r: Option<&TranspositionEntry>)
        requires
            self.wf(),
            position.hash < TT_SIZE,
        ensures
            r matches Some(e) ==> lookup(self.data@, *position) == Some(*e),
            r is None ==> lookup(self.data@, *position) is None,
            r is Some ==> *final(cnt) == (Counters { reads: next_count(old(cnt).reads), ..*old(cnt) }),
            (r is None && self.data@[position.hash as int].occupied) ==> *final(cnt) == (Counters {
                collisions: next_count(old(cnt).collisions),
                ..*old(cnt)
            }),
            !self.data@[position.hash as int].occupied ==> *final(cnt) == *old(cnt),
    {
        let candidate = &self.data[position.get_hash()];
        if !candidate.occupied {
            None
        } else if candidate.matches(position) {
            cnt.inc_reads();
            Some(candidate)
        } else {
            cnt.inc_collisions();
            None
        }
    }

    /// Stores the result of an optimum search, whose scores are stored as they are.
    pub fn write_optimum(
        &mut self,
        position: &Position,
        mapped_hash: usize,
        alpha: i16,
        beta: i16,
        value: (u32, i16),
    )
        requires
            old(self).wf(),
            mapped_hash < TT_SIZE,
            value.0 == 0 || (is_card(value.0) && subset(value.0, position.hand_of(position.player))),
        ensures
            final(self).wf(),
            ({
                let e = entry_for(
                    *position,
                    value.1,
                    flag_for(value.1 as int, alpha as int, beta as int),
                    value.0,
                );
                final(self).data@ == if replaces(old(self).data@[mapped_hash as int], e) {
                    old(self).data@.update(mapped_hash as int, e)
                } else {
                    old(self).data@
                }
            }),
    {
        let flag = if value.1 <= alpha {
            TranspositionFlag::Upper
        } else if value.1 >= beta {
            TranspositionFlag::Lower
        } else {
            TranspositionFlag::Exact
        };
        let entry = TranspositionEntry {
            occupied: true,
            player: position.player,
            left_cards: position.left_cards,
            right_cards: position.right_cards,
            declarer_cards: position.declarer_cards,
            trick_cards: position.trick_cards,
            value: value.1,
            bestcard: value.0,
            flag,
        };
        self.store(mapped_hash, entry);
    }

    /// The same lookup as `read`, for optimum scores.
    pub fn read_optimum(&self, position: &Position, cnt: &mut Counters) -> (r: Option<
        &TranspositionEntry,
    >)
        requires
            self.wf(),
            position.hash < TT_SIZE,
        ensures
            r matches Some(e) ==> lookup(self.data@, *position) == Some(*e),
            r is None ==> lookup(self.data@, *position) is None,
    {
        self.read(position, cnt)
    }

    /// The number of occupied slots.
    pub fn get_occupied_slots(&self) -> (r: usize)
        ensures
            r == occupied_count(self.data@, self.data.len() as int),
    {
        let mut count: usize = 0;
        let mut i: usize = 0;
        while i < self.data.len()
            invariant
                i <= self.data.len(),
                count == occupied_count(self.data@, i as int),
                count <= i,
            decreases self.data.len() - i,
        {
            if self.data[i].occupied {
                count = count + 1;
            }
            i = i + 1;
        }
        count
    }

    /// Fills the empty slots with the occupied slots of `other`.
    pub fn add_entries(&mut self, other: TranspositionTable)
        requires
            old(self).wf(),
            other.wf(),
        ensures
            final(self).wf(),
            forall|i: int|
                0 <= i < TT_SIZE ==> #[trigger] final(self).data@[i] == if !old(self).data@[i].occupied
                    && other.data@[i].occupied {
                    other.data@[i]
                } else {
                    old(self).data@[i]
                },
    {
        let mut i: usize = 0;
        while i < TT_SIZE
            invariant
                i <= TT_SIZE,
                self.wf(),
                other.wf(),
                forall|j: int|
                    0 <= j < i ==> #[trigger] self.data@[j] == if !old(self).data@[j].occupied
                        && other.data@[j].occupied {
                        other.data@[j]
                    } else {
                        old(self).data@[j]
                    },
                forall|j: int| i <= j < TT_SIZE ==> #[trigger] self.data@[j] == old(self).data@[j],
            decreases TT_SIZE - i,
        {
            if !self.data[i].occupied && other.data[i].occupied {
                let e = other.data[i];
                self.data.set(i, e);
            }
            i = i + 1;
        }
    }
}

/// After a write into the slot of a position that replaces the slot, reading the position
/// gives back the written entry, with the written value, bound kind and best card.
pub proof fn lemma_read_after_write(
    before: Seq<TranspositionEntry>,
    p: Position,
    value: i16,
    flag: TranspositionFlag,
    bestcard: u32,
)
    requires
        p.hash < before.len(),
        replaces(before[p.hash as int], entry_for(p, value, flag, bestcard)),
    ensures
        lookup(before.update(p.hash as int, entry_for(p, value, flag, bestcard)), p) == Some(
            entry_for(p, value, flag, bestcard),
        ),
{
}

/// A bound never replaces an exact value: the slot stays as it was.
pub proof fn lemma_exact_kept(
    before: Seq<TranspositionEntry>,
    slot: int,
    e: TranspositionEntry,
)
    requires
        0 <= slot < before.len(),
        before[slot].occupied,
        before[slot].flag == TranspositionFlag::Exact,
        e.flag != TranspositionFlag::Exact,
    ensures
        !replaces(before[slot], e),
{
}

} // verus!
