use clicker_engine::economy::{EconomyState, WIN_SCORE};
use clicker_engine::error::ProgressError;
use clicker_engine::game::{Game, Intent, Phase};
use clicker_engine::store::HandState;
use clicker_engine::timer::PRODUCER_COOLDOWN;

fn economy(stored: u64, fingers: u64, hands: u64, buildings: u32) -> EconomyState {
    EconomyState {
        stored_clicks: stored,
        total_fingers: fingers,
        total_hands: hands,
        buildings,
    }
}

fn started() -> Game {
    let mut g = Game::new();
    assert!(g.start());
    g
}

#[test]
fn welcome_phase_rejects_intents() {
    let mut g = Game::new();
    assert_eq!(g.phase(), Phase::Welcome);
    assert_eq!(g.apply_intent(Intent::BuyHand), Err(ProgressError::NotRunning));
    let (results, emitted) = g.step(PRODUCER_COOLDOWN, &vec![Intent::Cashout]);
    assert_eq!(results, vec![Err(ProgressError::NotRunning)]);
    assert!(emitted.is_empty());
    assert_eq!(g.store().hands().len(), 0);
}

#[test]
fn start_spawns_one_hand_with_one_clicker() {
    let mut g = started();
    assert_eq!(g.phase(), Phase::Running);
    assert_eq!(g.economy(), EconomyState::new());
    assert_eq!(g.store().hands().len(), 1);
    let h = g.store().hands()[0].id;
    assert_eq!(g.store().children_of(h).unwrap().len(), 1);
    assert!(!g.start());
}

#[test]
fn click_round_trip_adds_one() {
    let mut g = started();
    let h = g.store().hands()[0].id;
    let c = g.store().clickers()[0].id;
    g.step(PRODUCER_COOLDOWN, &vec![]);
    assert!(g.store().clickers()[0].timer.finished());
    let (results, emitted) = g.step(0, &vec![Intent::Click(h, c)]);
    assert_eq!(results, vec![Ok(())]);
    assert_eq!(emitted, vec![1]);
    assert_eq!(g.economy().stored_clicks, 1);
    assert!(!g.store().clickers()[0].timer.finished());
}

#[test]
fn click_before_cooldown_is_rejected() {
    let mut g = started();
    let h = g.store().hands()[0].id;
    let c = g.store().clickers()[0].id;
    g.step(PRODUCER_COOLDOWN - 1, &vec![]);
    let before = g.store().clickers()[0];
    assert_eq!(g.apply_intent(Intent::Click(h, c)), Err(ProgressError::TimerNotReady));
    assert_eq!(g.store().clickers()[0].timer, before.timer);
    assert!(g.pending_events().is_empty());
    assert_eq!(g.economy(), EconomyState::new());
}

#[test]
fn click_with_wrong_owner_is_not_found() {
    let mut g = Game::resume(economy(100, 1, 0, 1));
    let h = g.store().hands()[0].id;
    let c = g.store().clickers()[0].id;
    assert_eq!(g.apply_intent(Intent::BuyHand), Ok(()));
    let other = g.store().hands()[1].id;
    g.step(PRODUCER_COOLDOWN, &vec![]);
    assert_eq!(g.apply_intent(Intent::Click(other, c)), Err(ProgressError::EntityNotFound));
    assert_eq!(g.apply_intent(Intent::Click(h, 999)), Err(ProgressError::EntityNotFound));
    assert_eq!(g.apply_intent(Intent::Click(h, c)), Ok(()));
}

#[test]
fn buying_a_finger_pays_and_adds_a_clicker() {
    let mut g = Game::resume(economy(100, 1, 0, 1));
    let h = g.store().hands()[0].id;
    assert_eq!(g.apply_intent(Intent::BuyFinger(h)), Ok(()));
    assert_eq!(g.economy(), economy(90, 2, 0, 1));
    assert_eq!(g.store().children_of(h).unwrap().len(), 2);
}

#[test]
fn buying_without_funds_changes_nothing() {
    let mut g = Game::resume(economy(9, 1, 0, 1));
    let h = g.store().hands()[0].id;
    assert_eq!(g.apply_intent(Intent::BuyFinger(h)), Err(ProgressError::InsufficientResource));
    assert_eq!(g.apply_intent(Intent::CombineHand(h)), Err(ProgressError::InsufficientResource));
    assert_eq!(g.apply_intent(Intent::BuyHand), Err(ProgressError::InsufficientResource));
    assert_eq!(g.apply_intent(Intent::Cashout), Err(ProgressError::InsufficientResource));
    assert_eq!(g.economy(), economy(9, 1, 0, 1));
    assert_eq!(g.store().hands().len(), 1);
    assert_eq!(g.store().clickers().len(), 1);
}

#[test]
fn combining_then_clapping() {
    let mut g = Game::resume(economy(100, 1, 0, 1));
    let h = g.store().hands()[0].id;
    assert_eq!(g.apply_intent(Intent::CombineHand(h)), Ok(()));
    assert_eq!(g.economy(), economy(70, 1, 1, 1));
    assert_eq!(g.store().hands()[0].state, HandState::Combined);
    assert_eq!(g.apply_intent(Intent::BuyFinger(h)), Err(ProgressError::WrongHandState));
    assert_eq!(g.apply_intent(Intent::Clap(h)), Err(ProgressError::TimerNotReady));
    g.step(PRODUCER_COOLDOWN, &vec![]);
    let (results, emitted) = g.step(0, &vec![Intent::Clap(h)]);
    assert_eq!(results, vec![Ok(())]);
    assert_eq!(emitted, vec![1]);
    assert_eq!(g.economy().stored_clicks, 71);
}

#[test]
fn automated_hand_fires_every_cooldown() {
    let mut g = Game::resume(economy(100, 1, 0, 1));
    let h = g.store().hands()[0].id;
    assert_eq!(g.apply_intent(Intent::MakeAuto(h)), Err(ProgressError::WrongHandState));
    assert_eq!(g.apply_intent(Intent::CombineHand(h)), Ok(()));
    assert_eq!(g.apply_intent(Intent::MakeAuto(h)), Ok(()));
    assert_eq!(g.economy().stored_clicks, 10);
    assert_eq!(g.store().hands()[0].state, HandState::Autoed);
    assert_eq!(g.apply_intent(Intent::Clap(h)), Err(ProgressError::WrongHandState));
    let (_, emitted) = g.step(PRODUCER_COOLDOWN / 2, &vec![]);
    assert!(emitted.is_empty());
    let (_, emitted) = g.step(PRODUCER_COOLDOWN / 2, &vec![]);
    assert_eq!(emitted, vec![1]);
    assert_eq!(g.economy().stored_clicks, 11);
    let (_, emitted) = g.step(PRODUCER_COOLDOWN, &vec![]);
    assert_eq!(emitted, vec![1]);
    assert_eq!(g.economy().stored_clicks, 12);
}

#[test]
fn clap_yield_scales_with_clickers_and_multiplier() {
    let mut g = Game::resume(economy(1000, 40, 0, 2));
    let h = g.store().hands()[0].id;
    assert_eq!(g.apply_intent(Intent::BuyFinger(h)), Ok(()));
    assert_eq!(g.apply_intent(Intent::CombineHand(h)), Ok(()));
    let stored = g.economy().stored_clicks;
    g.step(PRODUCER_COOLDOWN, &vec![]);
    let (_, emitted) = g.step(0, &vec![Intent::Clap(h)]);
    assert_eq!(emitted, vec![2 * 20]);
    assert_eq!(g.economy().stored_clicks, stored + 40);
}

#[test]
fn buying_a_hand() {
    let mut g = Game::resume(economy(25, 1, 0, 1));
    assert_eq!(g.apply_intent(Intent::BuyHand), Ok(()));
    assert_eq!(g.economy(), economy(15, 1, 1, 1));
    assert_eq!(g.apply_intent(Intent::BuyHand), Err(ProgressError::InsufficientResource));
    let hands = g.store().hands();
    assert_eq!(hands.len(), 2);
    assert_eq!(hands[1].state, HandState::Filling);
    assert_eq!(g.store().children_of(hands[1].id), Ok(vec![]));
}

#[test]
fn first_prestige_resets_and_multiplies_by_ten() {
    let mut g = Game::resume(economy(10_500, 50, 3, 1));
    assert_eq!(g.apply_intent(Intent::BuyHand), Ok(()));
    let before = g.economy();
    assert_eq!(g.apply_intent(Intent::Cashout), Ok(()));
    let after = g.economy();
    assert_eq!(after, economy(before.stored_clicks - 10_000, 1, 0, 2));
    assert_eq!(g.store().hands().len(), 1);
    assert_eq!(g.store().clickers().len(), 1);
    let h = g.store().hands()[0].id;
    assert_eq!(g.store().hands()[0].state, HandState::Filling);
    assert_eq!(g.store().children_of(h).unwrap().len(), 1);
    assert_eq!(after.multiplier(), 10 * economy(0, 1, 0, 1).multiplier());
    assert_eq!(after.multiplier(), 10);
}

#[test]
fn prestige_runs_out() {
    let mut g = Game::resume(economy(u64::MAX, 1, 0, 4));
    assert_eq!(g.apply_intent(Intent::Cashout), Err(ProgressError::PrestigeExhausted));
    let mut g = Game::resume(economy(u64::MAX, 1, 0, 3));
    assert_eq!(g.apply_intent(Intent::Cashout), Ok(()));
    assert_eq!(g.economy().buildings, 4);
    assert_eq!(g.apply_intent(Intent::Cashout), Err(ProgressError::PrestigeExhausted));
}

#[test]
fn counters_at_their_limit_are_refused() {
    let mut g = Game::resume(economy(u64::MAX, u64::MAX, u64::MAX, 1));
    let h = g.store().hands()[0].id;
    assert_eq!(g.apply_intent(Intent::BuyFinger(h)), Err(ProgressError::ArithmeticOverflow));
    assert_eq!(g.apply_intent(Intent::BuyHand), Err(ProgressError::ArithmeticOverflow));
    assert_eq!(g.apply_intent(Intent::CombineHand(h)), Err(ProgressError::ArithmeticOverflow));
    assert_eq!(g.economy(), economy(u64::MAX, u64::MAX, u64::MAX, 1));
}

#[test]
fn stale_ids_are_not_found() {
    let mut g = Game::resume(economy(100, 1, 0, 1));
    assert_eq!(g.apply_intent(Intent::BuyFinger(77)), Err(ProgressError::EntityNotFound));
    assert_eq!(g.apply_intent(Intent::Clap(77)), Err(ProgressError::EntityNotFound));
    assert_eq!(g.apply_intent(Intent::MakeAuto(77)), Err(ProgressError::EntityNotFound));
    assert_eq!(g.economy(), economy(100, 1, 0, 1));
}

#[test]
fn reaching_the_win_score_finishes_the_game() {
    let mut g = Game::resume(economy(WIN_SCORE - 1, 1, 0, 1));
    let h = g.store().hands()[0].id;
    let c = g.store().clickers()[0].id;
    g.step(PRODUCER_COOLDOWN, &vec![]);
    assert_eq!(g.phase(), Phase::Running);
    g.step(0, &vec![Intent::Click(h, c)]);
    assert_eq!(g.economy().stored_clicks, WIN_SCORE);
    assert_eq!(g.phase(), Phase::Finished);
    let frozen = g.economy();
    let intents = vec![
        Intent::BuyFinger(h),
        Intent::Click(h, c),
        Intent::Clap(h),
        Intent::Cashout,
    ];
    let (results, emitted) = g.step(PRODUCER_COOLDOWN, &intents);
    assert_eq!(results, vec![Err(ProgressError::NotRunning); 4]);
    assert!(emitted.is_empty());
    assert_eq!(g.economy(), frozen);
    assert!(!g.store().clickers()[0].timer.finished());
    assert_eq!(g.apply_intent(Intent::Cashout), Err(ProgressError::NotRunning));
}

#[test]
fn intents_of_one_tick_apply_in_order() {
    let mut g = Game::resume(economy(40, 1, 0, 1));
    let h = g.store().hands()[0].id;
    let (results, _) = g.step(0, &vec![Intent::BuyHand, Intent::CombineHand(h), Intent::BuyHand]);
    assert_eq!(
        results,
        vec![Ok(()), Ok(()), Err(ProgressError::InsufficientResource)]
    );
    assert_eq!(g.economy(), economy(0, 1, 2, 1));
}
