//! The solver's state: the game and the transposition table shared by its searches.
use vstd::prelude::*;
use crate::context::{deal_ok, GameContext};
use crate::counters::Counters;
use crate::position::Position;
use crate::search::{move_ok, search, termination_spec, value_bound};
use crate::tt::TranspositionTable;

verus! {

/// A game together with the transposition table of its searches.
pub struct SkatEngine {
    pub context: GameContext,
    pub tt: TranspositionTable,
}

impl SkatEngine {
    /// The deal can be played and the table is well formed.
    pub open spec fn wf(&self) -> bool {
        &&& deal_ok(self.context)
        &&& self.tt.wf()
    }

    /// An engine for `context`, with the given table or an empty one.
    pub fn new(context: GameContext, tt: Option<TranspositionTable>) -> (r: Self)
        requires
            tt matches Some(t) ==> t.wf(),
        ensures
            r.context == context,
            r.tt.wf(),
            tt matches Some(t) ==> r.tt == t,
            tt is None ==> forall|i: int|
                0 <= i < r.tt.data.len() ==> #[trigger] r.tt.data@[i] == crate::tt::empty_entry(),
    {
        let table = match tt {
            Some(t) => t,
            None => TranspositionTable::new(),
        };
        SkatEngine { context, tt: table }
    }

    /// Searches `position` of this engine's game within the window `alpha`..`beta`.
    pub fn search(&mut self, position: &Position, cnt: &mut Counters, alpha: u8, beta: u8) -> (r: (
        u32,
        u8,
    ))
        requires
            old(self).tt.wf(),
            position.wf(old(self).context),
        ensures
            final(self).tt.wf(),
            final(self).context == old(self).context,
            r.1 <= value_bound(alpha, beta),
            move_ok(r.0, *position),
            termination_spec(old(self).context, *position, alpha, beta) matches Some(v) ==> r == (
                0u32,
                v,
            ),
            termination_spec(old(self).context, *position, alpha, beta) is None
                && !crate::search::tt_compatible(*position) && position.legal() != 0 ==> r.0 != 0,
    {
        search(&self.context, position, &mut self.tt, cnt, alpha, beta)
    }

    /// The position at the start of this engine's game.
    pub fn create_initial_position(&self) -> (r: Position)
        ensures
            r == Position::initial_spec(self.context),
            deal_ok(self.context) ==> r.wf(self.context),
    {
        self.context.create_initial_position()
    }
}

} // verus!
