//! One sample of the Monte Carlo search over the hands a player cannot see: deal a concrete
//! game, solve it, and score the outcome for the player.
use vstd::prelude::*;
use rayon::iter::{IntoParallelIterator, ParallelIterator};
use crate::cards::{card_count, is_card, subset};
use crate::rules::cards_for_player;
use crate::context::{deal_ok, GameContext};
use crate::defs::{Game, Player};
use crate::engine::SkatEngine;
use crate::pimc_problem::{concrete_feasible, PimcProblem};
use crate::position::Position;
use crate::search::move_ok;
use crate::solver::{all_cards_ok, solve_all_cards, solve_win};

verus! {

/// Whether I win when the declarer wins or loses.
pub open spec fn my_win(declarer_wins: bool, my_player: Player) -> bool {
    if my_player == Player::Declarer {
        declarer_wins
    } else {
        !declarer_wins
    }
}

/// Whether the declarer wins with `value`: no lost flag in a null game, else at least the
/// threshold.
pub open spec fn declarer_wins_at(value: u8, threshold: u8, game: Game) -> bool {
    if game == Game::Null {
        value == 0
    } else {
        value >= threshold
    }
}

/// My score for the declarer's `value`: in a null game 120 for a win and 0 for a loss; else the
/// declarer's points for the declarer and the rest of 120 for a defender.
pub open spec fn my_score(value: u8, game: Game, my_player: Player) -> u8 {
    if game == Game::Null {
        if (value == 0) == (my_player == Player::Declarer) {
            120
        } else {
            0
        }
    } else if my_player == Player::Declarer {
        value
    } else {
        (120 - value) as u8
    }
}

/// The outcome of one sample: the game dealt, the best card, and who wins.
pub struct SampleOutcome {
    pub context: GameContext,
    pub best_card: u32,
    pub declarer_wins: bool,
    pub my_win: bool,
}

/// What holds of a sample of the win estimate: a playable game dealt for the problem, a
/// legal best card, and whether I win follows from whether the declarer wins.
pub open spec fn win_sample_ok(o: SampleOutcome, p: PimcProblem) -> bool {
    &&& deal_ok(o.context)
    &&& o.context.game_type == p.game_type
    &&& o.context.start_player == p.my_player
    &&& o.my_win == my_win(o.declarer_wins, p.my_player)
    &&& move_ok(o.best_card, Position::initial_spec(o.context))
}

/// What holds of a sample of the estimate per card: a playable game dealt for the problem and
/// the value of each card I may play.
pub open spec fn cards_sample_ok(
    ctx: GameContext,
    results: Seq<(u32, u32, u8)>,
    p: PimcProblem,
    alpha: u8,
    beta: u8,
) -> bool {
    &&& deal_ok(ctx)
    &&& ctx.game_type == p.game_type
    &&& ctx.start_player == p.my_player
    &&& cards_for_player(ctx.declarer_cards, ctx.left_cards, ctx.right_cards, p.my_player)
        == p.my_cards
    &&& all_cards_ok(results, Position::initial_spec(ctx), ctx, alpha, beta)
}

/// At the start of a dealt game I may play any card of my hand.
proof fn lemma_start_legal(ctx: GameContext, p: PimcProblem)
    requires
        ctx.start_player == p.my_player,
        cards_for_player(ctx.declarer_cards, ctx.left_cards, ctx.right_cards, p.my_player)
            == p.my_cards,
    ensures
        Position::initial_spec(ctx).legal() == p.my_cards,
{
    let d = ctx.declarer_cards;
    let l = ctx.left_cards;
    let r = ctx.right_cards;
    assert(d & !0u32 == d && l & !0u32 == l && r & !0u32 == r) by (bit_vector);
    let pc = p.my_cards;
    assert(0u32 & pc == 0u32) by (bit_vector);
}

/// Whether the dealt game can be solved: no card in two hands, at most ten cards a hand.
pub fn deal_playable(ctx: &GameContext) -> (r: bool)
    ensures
        r == deal_ok(*ctx),
{
    ctx.declarer_cards & ctx.left_cards == 0 && ctx.declarer_cards & ctx.right_cards == 0
        && ctx.left_cards & ctx.right_cards == 0 && crate::cards::count_cards(ctx.declarer_cards)
        <= 10 && crate::cards::count_cards(ctx.left_cards) <= 10 && crate::cards::count_cards(
        ctx.right_cards,
    ) <= 10
}

/// Whether I win, from whether the declarer wins.
pub fn win_for(declarer_wins: bool, my_player: Player) -> (r: bool)
    ensures
        r == my_win(declarer_wins, my_player),
{
    if my_player == Player::Declarer {
        declarer_wins
    } else {
        !declarer_wins
    }
}

/// One sample of the win estimate: deals a game from what I see, solves whether the declarer
/// wins, and tells whether I win. There is none when a dealt hand holds more than ten cards.
pub fn sample_win(uproblem: &PimcProblem) -> (r: Option<SampleOutcome>)
    requires
        concrete_feasible(*uproblem),
    ensures
        r matches Some(o) ==> win_sample_ok(o, *uproblem),
        crate::cards::card_count(uproblem.my_cards) > 10 ==> r is None,
{
    let concrete_problem = uproblem.generate_concrete_problem();
    if !deal_playable(&concrete_problem) {
        return None;
    }
    let mut solver = SkatEngine::new(concrete_problem, None);
    let search_result = solve_win(&mut solver);
    let declarer_wins = search_result.declarer_wins;
    let i_win = win_for(declarer_wins, uproblem.my_player());
    Some(
        SampleOutcome {
            context: solver.context,
            best_card: search_result.best_card,
            declarer_wins,
            my_win: i_win,
        },
    )
}

/// One sample of the estimate per card: deals a game from what I see and solves the value of
/// each card I may play within `alpha`..`beta`. There is none when a dealt hand holds more
/// than ten cards.
pub fn sample_all_cards(uproblem: &PimcProblem, alpha: u8, beta: u8) -> (r: Option<
    (GameContext, Vec<(u32, u32, u8)>),
>)
    requires
        concrete_feasible(*uproblem),
    ensures
        r matches Some((ctx, results)) ==> cards_sample_ok(ctx, results@, *uproblem, alpha, beta),
        crate::cards::card_count(uproblem.my_cards) > 10 ==> r is None,
{
    let concrete_problem = uproblem.generate_concrete_problem();
    if !deal_playable(&concrete_problem) {
        return None;
    }
    let mut solver = SkatEngine::new(concrete_problem, None);
    let search_result = solve_all_cards(&mut solver, alpha, beta);
    Some((solver.context, search_result.results))
}

/// For each card of a sample: 1 when I win with it, else 0.
pub fn card_win_values(
    results: &Vec<(u32, u32, u8)>,
    threshold: u8,
    game_type: Game,
    my_player: Player,
) -> (r: Vec<(u32, u8)>)
    ensures
        r@.len() == results@.len(),
        forall|i: int|
            0 <= i < r@.len() ==> (#[trigger] r@[i]).0 == results@[i].0 && r@[i].1 == if my_win(
                declarer_wins_at(results@[i].2, threshold, game_type),
                my_player,
            ) {
                1u8
            } else {
                0u8
            },
{
    let mut out: Vec<(u32, u8)> = Vec::new();
    let mut i: usize = 0;
    while i < results.len()
        invariant
            i <= results@.len(),
            out@.len() == i,
            forall|j: int|
                0 <= j < i ==> (#[trigger] out@[j]).0 == results@[j].0 && out@[j].1 == if my_win(
                    declarer_wins_at(results@[j].2, threshold, game_type),
                    my_player,
                ) {
                    1u8
                } else {
                    0u8
                },
        decreases results@.len() - i,
    {
        let card = results[i].0;
        let value = results[i].2;
        let declarer_wins = if game_type == Game::Null {
            value == 0
        } else {
            value >= threshold
        };
        let winvalue: u8 = if win_for(declarer_wins, my_player) {
            1
        } else {
            0
        };
        out.push((card, winvalue));
        i = i + 1;
    }
    out
}

/// For each card of a sample: my score with it.
pub fn card_scores(results: &Vec<(u32, u32, u8)>, game_type: Game, my_player: Player) -> (r: Vec<
    (u32, u8),
>)
    requires
        forall|i: int| 0 <= i < results@.len() ==> (#[trigger] results@[i]).2 <= 120,
    ensures
        r@.len() == results@.len(),
        forall|i: int|
            0 <= i < r@.len() ==> (#[trigger] r@[i]).0 == results@[i].0 && r@[i].1 == my_score(
                results@[i].2,
                game_type,
                my_player,
            ),
{
    let mut out: Vec<(u32, u8)> = Vec::new();
    let mut i: usize = 0;
    while i < results.len()
        invariant
            i <= results@.len(),
            out@.len() == i,
            forall|j: int| 0 <= j < results@.len() ==> (#[trigger] results@[j]).2 <= 120,
            forall|j: int|
                0 <= j < i ==> (#[trigger] out@[j]).0 == results@[j].0 && out@[j].1 == my_score(
                    results@[j].2,
                    game_type,
                    my_player,
                ),
        decreases results@.len() - i,
    {
        let card = results[i].0;
        let decl_points = results[i].2;
        let score: u8 = if game_type == Game::Null {
            if decl_points == 0 {
                if my_player == Player::Declarer {
                    120
                } else {
                    0
                }
            } else {
                if my_player == Player::Declarer {
                    0
                } else {
                    120
                }
            }
        } else if my_player == Player::Declarer {
            decl_points
        } else {
            120 - decl_points
        };
        out.push((card, score));
        i = i + 1;
    }
    out
}

/// The value the last entry for `card` in a sample gives it, or 0 when it has none.
pub open spec fn last_value(s: Seq<(u32, u8)>, card: u32) -> nat
    decreases s.len(),
{
    if s.len() == 0 {
        0
    } else if s.last().0 == card {
        s.last().1 as nat
    } else {
        last_value(s.drop_last(), card)
    }
}

/// Whether a sample has an entry for `card`.
pub open spec fn occurs(s: Seq<(u32, u8)>, card: u32) -> bool
    decreases s.len(),
{
    s.len() > 0 && (s.last().0 == card || occurs(s.drop_last(), card))
}

/// The sum of the values of the entries for `card` in a sample.
pub open spec fn value_sum(s: Seq<(u32, u8)>, card: u32) -> nat
    decreases s.len(),
{
    if s.len() == 0 {
        0
    } else {
        value_sum(s.drop_last(), card) + if s.last().0 == card {
            s.last().1 as nat
        } else {
            0nat
        }
    }
}

/// The number of entries for `card` in a sample.
pub open spec fn value_count(s: Seq<(u32, u8)>, card: u32) -> nat
    decreases s.len(),
{
    if s.len() == 0 {
        0
    } else {
        value_count(s.drop_last(), card) + if s.last().0 == card {
            1nat
        } else {
            0nat
        }
    }
}

/// What one sample adds for `card`: with `last_only` the value of its last entry for the card
/// and one if there is such an entry (a sample read as a map from card to value); otherwise
/// the sum and the number of its entries for the card.
pub open spec fn contribution(s: Seq<(u32, u8)>, card: u32, last_only: bool) -> (nat, nat) {
    if last_only {
        (
            last_value(s, card),
            if occurs(s, card) {
                1nat
            } else {
                0nat
            },
        )
    } else {
        (value_sum(s, card), value_count(s, card))
    }
}

/// The totals for `card` over the samples: the sum of the values and the number of entries
/// the samples add for it.
pub open spec fn card_totals(ss: Seq<Vec<(u32, u8)>>, card: u32, last_only: bool) -> (nat, nat)
    decreases ss.len(),
{
    if ss.len() == 0 {
        (0, 0)
    } else {
        let t = card_totals(ss.drop_last(), card, last_only);
        let c = contribution(ss.last()@, card, last_only);
        (t.0 + c.0, t.1 + c.1)
    }
}

/// Some sample has an entry for `card`.
pub open spec fn seen(ss: Seq<Vec<(u32, u8)>>, card: u32) -> bool {
    exists|j: int| 0 <= j < ss.len() && #[trigger] occurs(ss[j]@, card)
}

/// Some tally line is for `card`.
pub open spec fn listed(t: Seq<(u32, u64, u32)>, card: u32) -> bool {
    exists|i: int| 0 <= i < t.len() && (#[trigger] t[i]).0 == card
}

/// No card has two tally lines.
pub open spec fn cards_distinct(t: Seq<(u32, u64, u32)>) -> bool {
    forall|a: int, b: int| 0 <= a < b < t.len() ==> (#[trigger] t[a]).0 != (#[trigger] t[b]).0
}

/// A card occurs in a sample exactly when some entry is for it.
proof fn lemma_occurs(s: Seq<(u32, u8)>, card: u32)
    ensures
        occurs(s, card) <==> exists|k: int| 0 <= k < s.len() && (#[trigger] s[k]).0 == card,
    decreases s.len(),
{
    if s.len() > 0 {
        lemma_occurs(s.drop_last(), card);
        if occurs(s.drop_last(), card) {
            let k = choose|k: int| 0 <= k < s.drop_last().len() && (#[trigger] s.drop_last()[k]).0 == card;
            assert(s[k] == s.drop_last()[k]);
        }
        if exists|k: int| 0 <= k < s.len() && (#[trigger] s[k]).0 == card {
            let k = choose|k: int| 0 <= k < s.len() && (#[trigger] s[k]).0 == card;
            if k < s.len() - 1 {
                assert(s.drop_last()[k] == s[k]);
            }
        }
    }
}

/// A sample without an entry for `card` adds nothing for it.
proof fn lemma_absent(s: Seq<(u32, u8)>, card: u32)
    requires
        !occurs(s, card),
    ensures
        last_value(s, card) == 0,
        value_sum(s, card) == 0,
        value_count(s, card) == 0,
    decreases s.len(),
{
    if s.len() > 0 {
        lemma_absent(s.drop_last(), card);
    }
}

/// The values of a sample are bounded by the entries it has.
proof fn lemma_value_bounds(s: Seq<(u32, u8)>, card: u32)
    ensures
        last_value(s, card) <= 255,
        value_sum(s, card) <= 255 * s.len(),
        value_count(s, card) <= s.len(),
        (forall|k: int| 0 <= k < s.len() ==> (#[trigger] s[k]).1 <= 1) ==> last_value(s, card) <= 1,
    decreases s.len(),
{
    if s.len() > 0 {
        lemma_value_bounds(s.drop_last(), card);
        if forall|k: int| 0 <= k < s.len() ==> (#[trigger] s[k]).1 <= 1 {
            assert forall|k: int| 0 <= k < s.drop_last().len() implies (
            #[trigger] s.drop_last()[k]).1 <= 1 by {
                assert(s.drop_last()[k] == s[k]);
            }
            assert(s.last() == s[s.len() - 1]);
        }
    }
}

/// A card no sample has an entry for has totals of zero.
proof fn lemma_unseen(ss: Seq<Vec<(u32, u8)>>, card: u32, last_only: bool)
    requires
        !seen(ss, card),
    ensures
        card_totals(ss, card, last_only) == (0nat, 0nat),
    decreases ss.len(),
{
    if ss.len() > 0 {
        let n = ss.len() - 1;
        assert(ss.last() == ss[n]);
        assert(!occurs(ss[n]@, card));
        lemma_absent(ss.last()@, card);
        assert forall|j: int| 0 <= j < ss.drop_last().len() implies !#[trigger] occurs(
            ss.drop_last()[j]@,
            card,
        ) by {
            assert(ss.drop_last()[j] == ss[j]);
            assert(!occurs(ss[j]@, card));
        }
        lemma_unseen(ss.drop_last(), card, last_only);
    }
}

/// Taking one more sample adds its contribution, and a card is seen in the longer prefix when
/// it is seen in the shorter one or occurs in the added sample.
proof fn lemma_step(ss: Seq<Vec<(u32, u8)>>, j: int, card: u32, last_only: bool)
    requires
        0 <= j < ss.len(),
    ensures
        card_totals(ss.take(j + 1), card, last_only).0 == card_totals(ss.take(j), card, last_only).0
            + contribution(ss[j]@, card, last_only).0,
        card_totals(ss.take(j + 1), card, last_only).1 == card_totals(ss.take(j), card, last_only).1
            + contribution(ss[j]@, card, last_only).1,
        seen(ss.take(j + 1), card) <==> (seen(ss.take(j), card) || occurs(ss[j]@, card)),
{
    assert(ss.take(j + 1).drop_last() =~= ss.take(j));
    assert(ss.take(j + 1).last() == ss[j]);
    if seen(ss.take(j + 1), card) {
        let w = choose|w: int| 0 <= w < ss.take(j + 1).len() && #[trigger] occurs(ss.take(j + 1)[w]@, card);
        if w < j {
            assert(ss.take(j)[w] == ss.take(j + 1)[w]);
        }
    }
    if seen(ss.take(j), card) {
        let w = choose|w: int| 0 <= w < ss.take(j).len() && #[trigger] occurs(ss.take(j)[w]@, card);
        assert(ss.take(j)[w] == ss.take(j + 1)[w]);
    }
    if occurs(ss[j]@, card) {
        assert(ss.take(j + 1)[j] == ss[j]);
    }
}

/// With win flags only, a card wins in at most as many samples as there are.
proof fn lemma_flag_totals(ss: Seq<Vec<(u32, u8)>>, card: u32)
    requires
        forall|j: int, k: int|
            0 <= j < ss.len() && 0 <= k < ss[j]@.len() ==> (#[trigger] ss[j]@[k]).1 <= 1,
    ensures
        card_totals(ss, card, true).0 <= ss.len(),
    decreases ss.len(),
{
    if ss.len() > 0 {
        let n = ss.len() - 1;
        assert(ss.last() == ss[n]);
        assert forall|k: int| 0 <= k < ss[n]@.len() implies (#[trigger] ss[n]@[k]).1 <= 1 by {}
        lemma_value_bounds(ss[n]@, card);
        assert forall|j: int, k: int|
            0 <= j < ss.drop_last().len() && 0 <= k < ss.drop_last()[j]@.len() implies (
            #[trigger] ss.drop_last()[j]@[k]).1 <= 1 by {
            assert(ss.drop_last()[j] == ss[j]);
        }
        lemma_flag_totals(ss.drop_last(), card);
    }
}

/// What one sample adds for `card`.
fn contribution_of(s: &Vec<(u32, u8)>, card: u32, last_only: bool) -> (r: (u64, u32))
    requires
        s@.len() <= 32,
    ensures
        r.0 == contribution(s@, card, last_only).0,
        r.1 == contribution(s@, card, last_only).1,
        r.0 <= 8160,
        r.1 <= 32,
{
    let mut last: u64 = 0;
    let mut found = false;
    let mut sum: u64 = 0;
    let mut count: u32 = 0;
    let mut i: usize = 0;
    while i < s.len()
        invariant
            i <= s@.len(),
            s@.len() <= 32,
            last == last_value(s@.take(i as int), card),
            found == occurs(s@.take(i as int), card),
            sum == value_sum(s@.take(i as int), card),
            count == value_count(s@.take(i as int), card),
            last <= 255,
            sum <= 255 * i,
            count <= i,
        decreases s@.len() - i,
    {
        proof {
            assert(s@.take(i + 1).drop_last() =~= s@.take(i as int));
            assert(s@.take(i + 1).last() == s@[i as int]);
        }
        if s[i].0 == card {
            last = s[i].1 as u64;
            found = true;
            sum = sum + s[i].1 as u64;
            count = count + 1;
        }
        i = i + 1;
    }
    proof {
        assert(s@.take(s@.len() as int) =~= s@);
    }
    if last_only {
        (
            last,
            if found {
                1
            } else {
                0
            },
        )
    } else {
        (sum, count)
    }
}

/// The index of the tally line for `card`, if there is one.
fn find_line(t: &Vec<(u32, u64, u32)>, card: u32) -> (r: Option<usize>)
    ensures
        r matches Some(i) ==> i < t@.len() && t@[i as int].0 == card,
        r is None ==> !listed(t@, card),
{
    let mut i: usize = 0;
    while i < t.len()
        invariant
            i <= t@.len(),
            forall|q: int| 0 <= q < i ==> (#[trigger] t@[q]).0 != card,
        decreases t@.len() - i,
    {
        if t[i].0 == card {
            return Some(i);
        }
        i = i + 1;
    }
    None
}

/// Tallies the samples per card: one line for each card some sample has an entry for, with the
/// card's totals (see `card_totals`), in the order the cards first appear.
pub fn tally_cards(samples: &Vec<Vec<(u32, u8)>>, last_only: bool) -> (r: Vec<(u32, u64, u32)>)
    requires
        samples@.len() < 0x0800_0000,
        forall|j: int| 0 <= j < samples@.len() ==> (#[trigger] samples@[j])@.len() <= 32,
    ensures
        cards_distinct(r@),
        forall|i: int|
            0 <= i < r@.len() ==> seen(samples@, (#[trigger] r@[i]).0) && r@[i].1 == card_totals(
                samples@,
                r@[i].0,
                last_only,
            ).0 && r@[i].2 == card_totals(samples@, r@[i].0, last_only).1,
        forall|card: u32| #[trigger] seen(samples@, card) ==> listed(r@, card),
{
    let mut acc: Vec<(u32, u64, u32)> = Vec::new();
    let mut j: usize = 0;
    while j < samples.len()
        invariant
            j <= samples@.len(),
            samples@.len() < 0x0800_0000,
            forall|q: int| 0 <= q < samples@.len() ==> (#[trigger] samples@[q])@.len() <= 32,
            cards_distinct(acc@),
            forall|i: int|
                0 <= i < acc@.len() ==> seen(samples@.take(j as int), (#[trigger] acc@[i]).0)
                    && acc@[i].1 == card_totals(samples@.take(j as int), acc@[i].0, last_only).0
                    && acc@[i].2 == card_totals(samples@.take(j as int), acc@[i].0, last_only).1
                    && acc@[i].1 <= 8160 * j && acc@[i].2 <= 32 * j,
            forall|card: u32| #[trigger] seen(samples@.take(j as int), card) ==> listed(acc@, card),
        decreases samples@.len() - j,
    {
        let sample = &samples[j];
        let ghost before = acc@;
        let mut i: usize = 0;
        while i < acc.len()
            invariant
                j < samples@.len(),
                samples@.len() < 0x0800_0000,
                *sample == samples@[j as int],
                sample@.len() <= 32,
                i <= acc@.len(),
                acc@.len() == before.len(),
                forall|q: int| 0 <= q < acc@.len() ==> (#[trigger] acc@[q]).0 == before[q].0,
                forall|q: int|
                    i <= q < acc@.len() ==> (#[trigger] acc@[q]) == before[q],
                forall|q: int|
                    0 <= q < before.len() ==> seen(samples@.take(j as int), (#[trigger] before[q]).0)
                        && before[q].1 == card_totals(samples@.take(j as int), before[q].0, last_only).0
                        && before[q].2 == card_totals(samples@.take(j as int), before[q].0, last_only).1
                        && before[q].1 <= 8160 * j && before[q].2 <= 32 * j,
                forall|q: int|
                    0 <= q < i ==> seen(samples@.take(j + 1), (#[trigger] acc@[q]).0)
                        && acc@[q].1 == card_totals(samples@.take(j + 1), acc@[q].0, last_only).0
                        && acc@[q].2 == card_totals(samples@.take(j + 1), acc@[q].0, last_only).1
                        && acc@[q].1 <= 8160 * (j + 1) && acc@[q].2 <= 32 * (j + 1),
            decreases acc@.len() - i,
        {
            let line = acc[i];
            let c = contribution_of(sample, line.0, last_only);
            proof {
                lemma_step(samples@, j as int, line.0, last_only);
                assert(line == before[i as int]);
            }
            acc.set(i, (line.0, line.1 + c.0, line.2 + c.1));
            i = i + 1;
        }
        proof {
            assert forall|a: int, b: int| 0 <= a < b < acc@.len() implies (#[trigger] acc@[a]).0
                != (#[trigger] acc@[b]).0 by {
                assert(before[a].0 != before[b].0);
            }
            assert forall|card: u32| #[trigger] seen(samples@.take(j as int), card) implies listed(
                acc@,
                card,
            ) by {
                assert(listed(before, card));
                let w = choose|w: int| 0 <= w < before.len() && (#[trigger] before[w]).0 == card;
                assert(acc@[w].0 == card);
            }
        }
        let mut k: usize = 0;
        while k < sample.len()
            invariant
                j < samples@.len(),
                samples@.len() < 0x0800_0000,
                *sample == samples@[j as int],
                sample@.len() <= 32,
                k <= sample@.len(),
                cards_distinct(acc@),
                forall|q: int|
                    0 <= q < acc@.len() ==> seen(samples@.take(j + 1), (#[trigger] acc@[q]).0)
                        && acc@[q].1 == card_totals(samples@.take(j + 1), acc@[q].0, last_only).0
                        && acc@[q].2 == card_totals(samples@.take(j + 1), acc@[q].0, last_only).1
                        && acc@[q].1 <= 8160 * (j + 1) && acc@[q].2 <= 32 * (j + 1),
                forall|card: u32| #[trigger] seen(samples@.take(j as int), card) ==> listed(acc@, card),
                forall|q: int| 0 <= q < k ==> listed(acc@, (#[trigger] sample@[q]).0),
            decreases sample@.len() - k,
        {
            let card = sample[k].0;
            match find_line(&acc, card) {
                Some(w) => {
                    proof {
                        assert(acc@[w as int].0 == card);
                    }
                },
                None => {
                    let c = contribution_of(sample, card, last_only);
                    proof {
                        lemma_step(samples@, j as int, card, last_only);
                        lemma_unseen(samples@.take(j as int), card, last_only);
                        lemma_occurs(sample@, card);
                        assert(sample@[k as int].0 == card);
                    }
                    let ghost old_acc = acc@;
                    acc.push((card, c.0, c.1));
                    proof {
                        assert forall|card2: u32| #[trigger] seen(samples@.take(j as int), card2)
                            implies listed(acc@, card2) by {
                            assert(listed(old_acc, card2));
                            let w = choose|w: int| 0 <= w < old_acc.len() && (#[trigger] old_acc[w]).0 == card2;
                            assert(acc@[w] == old_acc[w]);
                        }
                        assert forall|q: int| 0 <= q < k implies listed(acc@, (#[trigger] sample@[q]).0) by {
                            assert(listed(old_acc, sample@[q].0));
                            let w = choose|w: int| 0 <= w < old_acc.len() && (#[trigger] old_acc[w]).0 == sample@[q].0;
                            assert(acc@[w] == old_acc[w]);
                        }
                        assert(acc@[old_acc.len() as int].0 == card);
                    }
                },
            }
            k = k + 1;
        }
        proof {
            assert forall|card: u32| #[trigger] seen(samples@.take(j + 1), card) implies listed(
                acc@,
                card,
            ) by {
                lemma_step(samples@, j as int, card, last_only);
                if !seen(samples@.take(j as int), card) {
                    lemma_occurs(sample@, card);
                    let q = choose|q: int| 0 <= q < sample@.len() && (#[trigger] sample@[q]).0 == card;
                    assert(listed(acc@, sample@[q].0));
                }
            }
        }
        j = j + 1;
    }
    proof {
        assert(samples@.take(samples@.len() as int) =~= samples@);
    }
    acc
}

/// The lines sorted by their sums, highest first; lines with equal sums keep their order.
pub fn sort_by_sum(lines: &Vec<(u32, u64, u32)>) -> (r: Vec<(u32, u64, u32)>)
    ensures
        r@.to_multiset() == lines@.to_multiset(),
        r@.len() == lines@.len(),
        forall|a: int, b: int| 0 <= a < b < r@.len() ==> (#[trigger] r@[a]).1 >= (#[trigger] r@[b]).1,
{
    broadcast use vstd::seq_lib::to_multiset_insert, vstd::seq_lib::to_multiset_len;

    let mut out: Vec<(u32, u64, u32)> = Vec::new();
    let mut i: usize = 0;
    proof {
        assert(lines@.take(0) =~= out@);
    }
    while i < lines.len()
        invariant
            i <= lines@.len(),
            out@.to_multiset() == lines@.take(i as int).to_multiset(),
            out@.len() == i,
            forall|a: int, b: int|
                0 <= a < b < out@.len() ==> (#[trigger] out@[a]).1 >= (#[trigger] out@[b]).1,
        decreases lines@.len() - i,
    {
        let x = lines[i];
        let mut p: usize = 0;
        while p < out.len() && out[p].1 >= x.1
            invariant
                p <= out@.len(),
                forall|q: int| 0 <= q < p ==> (#[trigger] out@[q]).1 >= x.1,
            decreases out@.len() - p,
        {
            p = p + 1;
        }
        let ghost old_out = out@;
        out.insert(p, x);
        proof {
            assert(lines@.take(i + 1) =~= lines@.take(i as int).push(x));
            vstd::seq_lib::to_multiset_build(lines@.take(i as int), x);
            vstd::seq_lib::to_multiset_insert(old_out, p as int, x);
            assert(out@ == old_out.insert(p as int, x));
            assert forall|a: int, b: int| 0 <= a < b < out@.len() implies (#[trigger] out@[a]).1
                >= (#[trigger] out@[b]).1 by {
                if b < p {
                } else if b == p {
                    assert(out@[a] == old_out[a]);
                } else if a < p {
                    assert(out@[a] == old_out[a]);
                    assert(out@[b] == old_out[b - 1]);
                    if (p as int) < old_out.len() {
                        assert(old_out[p as int].1 < x.1);
                        if b - 1 > p {
                            assert(old_out[p as int].1 >= old_out[b - 1].1);
                        }
                    }
                    assert(old_out[a].1 >= x.1);
                } else if a == p {
                    assert(out@[b] == old_out[b - 1]);
                    assert(old_out[p as int].1 < x.1);
                    if b - 1 > p {
                        assert(old_out[p as int].1 >= old_out[b - 1].1);
                    }
                } else {
                    assert(out@[a] == old_out[a - 1]);
                    assert(out@[b] == old_out[b - 1]);
                }
            }
        }
        i = i + 1;
    }
    proof {
        assert(lines@.take(lines@.len() as int) =~= lines@);
    }
    out
}

/// The number of samples in which I win.
pub open spec fn wins_of(outcomes: Seq<Option<SampleOutcome>>) -> nat
    decreases outcomes.len(),
{
    if outcomes.len() == 0 {
        0
    } else {
        wins_of(outcomes.drop_last()) + if outcomes.last() matches Some(o) && o.my_win {
            1nat
        } else {
            0nat
        }
    }
}

/// Solves samples of the estimate per card in parallel: `rayon`'s `into_par_iter`, `map` and
/// `collect`, which keep one result per sample. The contract claims that each result is one
/// that `sample_all_cards` can give for the problem and window.
#[verifier::external_body]
fn solve_samples_in_parallel(uproblem: &PimcProblem, n: u32, alpha: u8, beta: u8) -> (r: Vec<
    Option<(GameContext, Vec<(u32, u32, u8)>)>,
>)
    requires
        concrete_feasible(*uproblem),
    ensures
        r@.len() == n,
        forall|i: int|
            0 <= i < r@.len() ==> (#[trigger] r@[i] matches Some((ctx, results))
                ==> cards_sample_ok(ctx, results@, *uproblem, alpha, beta)),
{
    (0..n).into_par_iter().map(|_| sample_all_cards(uproblem, alpha, beta)).collect()
}

/// A Monte Carlo search over the hands the player of a problem cannot see.
pub struct PimcSearch {
    pub uproblem: PimcProblem,
    pub sample_size: u32,
    pub log_file: Option<String>,
    pub verbose_progress: bool,
}

impl PimcSearch {
    /// A search of `sample_size` samples, without progress dots.
    pub fn new(uproblem: PimcProblem, sample_size: u32, log_file: Option<String>) -> (r: PimcSearch)
        ensures
            r.uproblem == uproblem,
            r.sample_size == sample_size,
            r.log_file == log_file,
            !r.verbose_progress,
    {
        PimcSearch { uproblem, sample_size, log_file, verbose_progress: false }
    }

    /// Plays `sample_size` samples one after the other and counts those in which I win; the
    /// estimate is that count over the sample size. Each sample is returned too.
    pub fn estimate_win(&self) -> (r: (u32, Vec<Option<SampleOutcome>>))
        requires
            concrete_feasible(self.uproblem),
        ensures
            r.1@.len() == self.sample_size,
            r.0 == wins_of(r.1@),
            r.0 <= self.sample_size,
            forall|i: int|
                0 <= i < r.1@.len() ==> (#[trigger] r.1@[i] matches Some(o) ==> win_sample_ok(
                    o,
                    self.uproblem,
                )),
    {
        let mut outcomes: Vec<Option<SampleOutcome>> = Vec::new();
        let mut wins: u32 = 0;
        let mut i: u32 = 0;
        while i < self.sample_size
            invariant
                concrete_feasible(self.uproblem),
                i <= self.sample_size,
                outcomes@.len() == i,
                wins == wins_of(outcomes@),
                wins <= i,
                forall|q: int|
                    0 <= q < outcomes@.len() ==> (#[trigger] outcomes@[q] matches Some(o)
                        ==> win_sample_ok(o, self.uproblem)),
            decreases self.sample_size - i,
        {
            let outcome = sample_win(&self.uproblem);
            let won = match &outcome {
                Some(o) => o.my_win,
                None => false,
            };
            let ghost before = outcomes@;
            outcomes.push(outcome);
            proof {
                assert(outcomes@.drop_last() =~= before);
            }
            if won {
                wins = wins + 1;
            }
            i = i + 1;
        }
        (wins, outcomes)
    }

    /// The number of samples in which I win with each card I may play, most wins first. Each
    /// sample solves every card in the window just below the threshold; the estimate for a
    /// card is its count over the sample size.
    pub fn estimate_probability_of_all_cards(&self) -> (r: Vec<(u32, u32)>)
        requires
            concrete_feasible(self.uproblem),
            self.uproblem.threshold >= 1,
            self.sample_size < 0x0800_0000,
        ensures
            forall|a: int, b: int| 0 <= a < b < r@.len() ==> (#[trigger] r@[a]).1 >= (#[trigger] r@[b]).1,
            forall|i: int| 0 <= i < r@.len() ==> (#[trigger] r@[i]).1 <= self.sample_size,
            forall|i: int|
                0 <= i < r@.len() ==> is_card((#[trigger] r@[i]).0) && subset(
                    r@[i].0,
                    self.uproblem.my_cards,
                ),
    {
        let threshold = self.uproblem.threshold();
        let game_type = self.uproblem.game_type();
        let my_player = self.uproblem.my_player();
        let runs = solve_samples_in_parallel(&self.uproblem, self.sample_size, threshold - 1, threshold);
        let mut samples: Vec<Vec<(u32, u8)>> = Vec::new();
        let mut i: usize = 0;
        while i < runs.len()
            invariant
                i <= runs@.len(),
                runs@.len() == self.sample_size,
                self.sample_size < 0x0800_0000,
                samples@.len() <= i,
                forall|q: int| 0 <= q < samples@.len() ==> (#[trigger] samples@[q])@.len() <= 32,
                forall|q: int, k: int|
                    0 <= q < samples@.len() && 0 <= k < samples@[q]@.len() ==> (
                    #[trigger] samples@[q]@[k]).1 <= 1,
                forall|q: int|
                    0 <= q < runs@.len() ==> (#[trigger] runs@[q] matches Some((ctx, results))
                        ==> cards_sample_ok(ctx, results@, self.uproblem, (threshold - 1) as u8, threshold)),
                samples_in_hand(samples@, self.uproblem.my_cards),
            decreases runs@.len() - i,
        {
            match &runs[i] {
                Some((ctx, results)) => {
                    proof {
                        assert(runs@[i as int] matches Some((c, res)) && c == *ctx && res == *results);
                        crate::cards::lemma_bounds(Position::initial_spec(*ctx).legal());
                        lemma_start_legal(*ctx, self.uproblem);
                    }
                    let values = card_win_values(results, threshold, game_type, my_player);
                    let ghost before = samples@;
                    samples.push(values);
                    proof {
                        assert forall|q: int, k: int|
                            0 <= q < samples@.len() && 0 <= k < samples@[q]@.len() implies is_card(
                                (#[trigger] samples@[q]@[k]).0,
                            ) && subset(samples@[q]@[k].0, self.uproblem.my_cards) by {
                            if q < before.len() {
                                assert(samples@[q] == before[q]);
                            } else {
                                assert(samples@[q]@[k].0 == results@[k].0);
                            }
                        }
                        assert forall|q: int, k: int|
                            0 <= q < samples@.len() && 0 <= k < samples@[q]@.len() implies (
                            #[trigger] samples@[q]@[k]).1 <= 1 by {
                            if q < before.len() {
                                assert(samples@[q] == before[q]);
                            }
                        }
                    }
                },
                None => {},
            }
            i = i + 1;
        }
        let tally = tally_cards(&samples, true);
        let sorted = sort_by_sum(&tally);
        let mut out: Vec<(u32, u32)> = Vec::new();
        let mut k: usize = 0;
        while k < sorted.len()
            invariant
                k <= sorted@.len(),
                out@.len() == k,
                sorted@.to_multiset() == tally@.to_multiset(),
                samples@.len() <= self.sample_size,
                forall|a: int, b: int|
                    0 <= a < b < sorted@.len() ==> (#[trigger] sorted@[a]).1 >= (#[trigger] sorted@[b]).1,
                forall|q: int|
                    0 <= q < tally@.len() ==> (#[trigger] tally@[q]).1 == card_totals(
                        samples@,
                        tally@[q].0,
                        true,
                    ).0,
                forall|q: int, k2: int|
                    0 <= q < samples@.len() && 0 <= k2 < samples@[q]@.len() ==> (
                    #[trigger] samples@[q]@[k2]).1 <= 1,
                forall|q: int| 0 <= q < k ==> (#[trigger] out@[q]).0 == sorted@[q].0 && out@[q].1 == sorted@[q].1,
                forall|q: int| 0 <= q < k ==> (#[trigger] out@[q]).1 <= self.sample_size,
                samples_in_hand(samples@, self.uproblem.my_cards),
                forall|q: int| 0 <= q < tally@.len() ==> seen(samples@, (#[trigger] tally@[q]).0),
                forall|q: int|
                    0 <= q < k ==> is_card((#[trigger] out@[q]).0) && subset(
                        out@[q].0,
                        self.uproblem.my_cards,
                    ),
            decreases sorted@.len() - k,
        {
            let line = sorted[k];
            proof {
                vstd::seq_lib::to_multiset_contains(sorted@, line);
                vstd::seq_lib::to_multiset_contains(tally@, line);
                assert(sorted@.contains(line)) by {
                    assert(sorted@[k as int] == line);
                }
                assert(tally@.contains(line));
                let q = choose|q: int| 0 <= q < tally@.len() && tally@[q] == line;
                lemma_flag_totals(samples@, line.0);
                assert(tally@[q].1 == line.1);
                lemma_seen_in_hand(samples@, tally@[q].0, self.uproblem.my_cards);
            }
            out.push((line.0, line.1 as u32));
            k = k + 1;
        }
        proof {
            assert forall|a: int, b: int| 0 <= a < b < out@.len() implies (#[trigger] out@[a]).1
                >= (#[trigger] out@[b]).1 by {
                assert(sorted@[a].1 >= sorted@[b].1);
            }
        }
        out
    }

    /// For each card I may play, the sum of my scores over the samples and the number of
    /// times it was scored; the estimate for a card is that sum over that number. Each sample
    /// solves every card in the full window of 0 to 120 points.
    pub fn estimate_avg_points_of_all_cards(&self) -> (r: Vec<(u32, u64, u32)>)
        requires
            concrete_feasible(self.uproblem),
            self.sample_size < 0x0800_0000,
        ensures
            cards_distinct(r@),
            forall|i: int| 0 <= i < r@.len() ==> (#[trigger] r@[i]).2 >= 1,
            forall|i: int|
                0 <= i < r@.len() ==> is_card((#[trigger] r@[i]).0) && subset(
                    r@[i].0,
                    self.uproblem.my_cards,
                ),
    {
        let game_type = self.uproblem.game_type();
        let my_player = self.uproblem.my_player();
        let runs = solve_samples_in_parallel(&self.uproblem, self.sample_size, 0, 120);
        let mut samples: Vec<Vec<(u32, u8)>> = Vec::new();
        let mut i: usize = 0;
        while i < runs.len()
            invariant
                i <= runs@.len(),
                runs@.len() == self.sample_size,
                self.sample_size < 0x0800_0000,
                samples@.len() <= i,
                forall|q: int| 0 <= q < samples@.len() ==> (#[trigger] samples@[q])@.len() <= 32,
                forall|q: int|
                    0 <= q < runs@.len() ==> (#[trigger] runs@[q] matches Some((ctx, results))
                        ==> cards_sample_ok(ctx, results@, self.uproblem, 0, 120)),
                samples_in_hand(samples@, self.uproblem.my_cards),
            decreases runs@.len() - i,
        {
            match &runs[i] {
                Some((ctx, results)) => {
                    proof {
                        assert(runs@[i as int] matches Some((c, res)) && c == *ctx && res == *results);
                        crate::cards::lemma_bounds(Position::initial_spec(*ctx).legal());
                        assert forall|q: int| 0 <= q < results@.len() implies (
                        #[trigger] results@[q]).2 <= 120 by {}
                        lemma_start_legal(*ctx, self.uproblem);
                    }
                    let scores = card_scores(results, game_type, my_player);
                    let ghost before = samples@;
                    samples.push(scores);
                    proof {
                        assert forall|q: int, k: int|
                            0 <= q < samples@.len() && 0 <= k < samples@[q]@.len() implies is_card(
                                (#[trigger] samples@[q]@[k]).0,
                            ) && subset(samples@[q]@[k].0, self.uproblem.my_cards) by {
                            if q < before.len() {
                                assert(samples@[q] == before[q]);
                            } else {
                                assert(samples@[q]@[k].0 == results@[k].0);
                            }
                        }
                    }
                },
                None => {},
            }
            i = i + 1;
        }
        let tally = tally_cards(&samples, false);
        proof {
            assert forall|i: int| 0 <= i < tally@.len() implies (#[trigger] tally@[i]).2 >= 1 by {
                lemma_seen_counted(samples@, tally@[i].0);
            }
            assert forall|i: int| 0 <= i < tally@.len() implies is_card((#[trigger] tally@[i]).0)
                && subset(tally@[i].0, self.uproblem.my_cards) by {
                lemma_seen_in_hand(samples@, tally@[i].0, self.uproblem.my_cards);
            }
        }
        tally
    }
}

/// A card some sample has an entry for is counted at least once.
proof fn lemma_seen_counted(ss: Seq<Vec<(u32, u8)>>, card: u32)
    requires
        seen(ss, card),
    ensures
        card_totals(ss, card, false).1 >= 1,
    decreases ss.len(),
{
    let n = ss.len() - 1;
    assert(ss.last() == ss[n]);
    if occurs(ss[n]@, card) {
        lemma_count_occurs(ss[n]@, card);
    } else {
        let w = choose|w: int| 0 <= w < ss.len() && #[trigger] occurs(ss[w]@, card);
        assert(ss.drop_last()[w] == ss[w]);
        lemma_seen_counted(ss.drop_last(), card);
    }
}

/// A card that occurs in a sample has an entry counted.
proof fn lemma_count_occurs(s: Seq<(u32, u8)>, card: u32)
    requires
        occurs(s, card),
    ensures
        value_count(s, card) >= 1,
    decreases s.len(),
{
    if s.last().0 != card {
        lemma_count_occurs(s.drop_last(), card);
    }
}

/// Every entry of the samples is a card of `hand`.
pub open spec fn samples_in_hand(ss: Seq<Vec<(u32, u8)>>, hand: u32) -> bool {
    forall|q: int, k: int|
        0 <= q < ss.len() && 0 <= k < ss[q]@.len() ==> is_card((#[trigger] ss[q]@[k]).0) && subset(
            ss[q]@[k].0,
            hand,
        )
}

/// A card some sample has an entry for is a card of the hand the samples hold.
proof fn lemma_seen_in_hand(ss: Seq<Vec<(u32, u8)>>, card: u32, hand: u32)
    requires
        seen(ss, card),
        samples_in_hand(ss, hand),
    ensures
        is_card(card) && subset(card, hand),
{
    let q = choose|q: int| 0 <= q < ss.len() && #[trigger] occurs(ss[q]@, card);
    lemma_occurs(ss[q]@, card);
    let k = choose|k: int| 0 <= k < ss[q]@.len() && (#[trigger] ss[q]@[k]).0 == card;
    assert(is_card(ss[q]@[k].0));
}

} // verus!



