//! Properties of the progression rules that relate several operations.
use vstd::prelude::*;
use crate::economy::{multiplier_of, lemma_prestige_multiplies_by_ten, WIN_SCORE};
use crate::error::ProgressError;
use crate::game::{apply_spec, collect_spec, fold_events, step_spec, GameView, Intent, Phase};
use crate::store::{clicker_pos, fresh_clicker, hand_pos, ids_of, owned, HandState};

verus! {

/// A rejected intent leaves the whole state as it was: counters, timers,
/// entities and pending events.
pub proof fn lemma_rejected_intent_changes_nothing(g: GameView, intent: Intent)
    ensures
        apply_spec(g, intent).1 is Err ==> apply_spec(g, intent).0 == g,
{
}

/// Cashing out at the first prestige level with enough clicks stored moves to
/// level two, resets the counters, leaves exactly one hand owning exactly one
/// clicker, and makes the multiplier ten times what the same finger count
/// gives at level one.
pub proof fn lemma_first_prestige(g: GameView)
    requires
        g.wf(),
        g.phase == Phase::Running,
        g.economy.buildings == 1,
        g.economy.stored_clicks >= 10000,
        g.store.next_id < u64::MAX - 1,
    ensures
        apply_spec(g, Intent::Cashout).1 is Ok,
        apply_spec(g, Intent::Cashout).0.economy.buildings == 2,
        apply_spec(g, Intent::Cashout).0.economy.total_fingers == 1,
        apply_spec(g, Intent::Cashout).0.economy.total_hands == 0,
        apply_spec(g, Intent::Cashout).0.economy.stored_clicks == g.economy.stored_clicks - 10000,
        apply_spec(g, Intent::Cashout).0.store.hands.len() == 1,
        apply_spec(g, Intent::Cashout).0.store.clickers.len() == 1,
        apply_spec(g, Intent::Cashout).0.store.children(
            apply_spec(g, Intent::Cashout).0.store.hands[0].id,
        ).len() == 1,
        apply_spec(g, Intent::Cashout).0.multiplier() == 10 * multiplier_of(
            apply_spec(g, Intent::Cashout).0.economy.total_fingers,
            1,
        ),
{
    let g2 = apply_spec(g, Intent::Cashout).0;
    let n = g.store.next_id;
    let cs = g2.store.clickers;
    assert(cs == seq![fresh_clicker((n + 1) as u64, n)]);
    assert(cs.drop_last() =~= Seq::empty());
    assert(owned(cs.drop_last(), n) =~= Seq::empty());
    assert(owned(cs, n) =~= cs);
    assert(ids_of(cs).len() == 1);
    lemma_prestige_multiplies_by_ten(1);
}

/// Once the folded events bring the stored clicks to the win score, the game
/// is finished, and from then on every intent is rejected and every tick
/// leaves the state unchanged.
pub proof fn lemma_win_is_final(g: GameView, intent: Intent, delta: u64, intents: Seq<Intent>)
    requires
        g.phase == Phase::Running,
        fold_events(g.economy.stored_clicks, g.events) >= WIN_SCORE,
    ensures
        collect_spec(g).phase == Phase::Finished,
        apply_spec(collect_spec(g), intent) == (
        collect_spec(g),
        Err::<(), ProgressError>(ProgressError::NotRunning),
        ),
        step_spec(collect_spec(g), delta, intents).0 == collect_spec(g),
{
}

/// A tick that ends with the win score stored ends in the finished phase.
pub proof fn lemma_step_detects_win(g: GameView, delta: u64, intents: Seq<Intent>)
    requires
        g.phase == Phase::Running,
        step_spec(g, delta, intents).0.economy.stored_clicks >= WIN_SCORE,
    ensures
        step_spec(g, delta, intents).0.phase == Phase::Finished,
{
}

/// Clicking a ready clicker that yields one, at multiplier one, and folding
/// the tick's events adds exactly one stored click and leaves that clicker's
/// timer counting again.
pub proof fn lemma_click_round_trip(g: GameView, h: u64, c: u64)
    requires
        g.wf(),
        g.phase == Phase::Running,
        g.events.len() == 0,
        hand_pos(g.store.hands, h) is Some,
        g.store.hands[hand_pos(g.store.hands, h)->Some_0].state == HandState::Filling,
        clicker_pos(g.store.clickers, c) is Some,
        g.store.clickers[clicker_pos(g.store.clickers, c)->Some_0].owner == h,
        g.store.clickers[clicker_pos(g.store.clickers, c)->Some_0].timer.is_finished(),
        g.store.clickers[clicker_pos(g.store.clickers, c)->Some_0].per_click == 1,
        g.multiplier() == 1,
        g.economy.stored_clicks < u64::MAX,
    ensures
        apply_spec(g, Intent::Click(h, c)).1 is Ok,
        collect_spec(apply_spec(g, Intent::Click(h, c)).0).economy.stored_clicks
            == g.economy.stored_clicks + 1,
        !apply_spec(g, Intent::Click(h, c)).0.store.clickers[clicker_pos(
            g.store.clickers,
            c,
        )->Some_0].timer.is_finished(),
{
    let g1 = apply_spec(g, Intent::Click(h, c)).0;
    crate::store::lemma_clicker_pos(g.store.clickers, c);
    let k = g.store.clickers[clicker_pos(g.store.clickers, c)->Some_0];
    assert(k.per_click * g.multiplier() == 1) by (nonlinear_arith)
        requires
            k.per_click == 1,
            g.multiplier() == 1,
    ;
    assert(g1.events =~= seq![1u64]);
    assert(g1.events.drop_last() =~= Seq::<u64>::empty());
    assert(fold_events(g.economy.stored_clicks, g1.events.drop_last()) == g.economy.stored_clicks);
    assert(fold_events(g.economy.stored_clicks, g1.events) == g.economy.stored_clicks + 1);
}

} // verus!
