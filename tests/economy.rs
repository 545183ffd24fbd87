use clicker_engine::economy::{
    cashout_cost_for, doublings_for, finger_cost_for, hand_cost_for, multiplier_for,
    next_threshold_for, EconomyState, AUTO_COST, COMBINE_COST,
};

fn economy(stored: u64, fingers: u64, hands: u64, buildings: u32) -> EconomyState {
    EconomyState {
        stored_clicks: stored,
        total_fingers: fingers,
        total_hands: hands,
        buildings,
    }
}

#[test]
fn starting_counters() {
    let e = EconomyState::new();
    assert_eq!(e, economy(0, 1, 0, 1));
}

#[test]
fn finger_cost_at_zero_is_ten() {
    assert_eq!(economy(0, 0, 0, 1).finger_cost(), 10);
}

#[test]
fn finger_cost_follows_the_exact_growth() {
    assert_eq!(finger_cost_for(1), 10);
    assert_eq!(finger_cost_for(10), 14);
    assert_eq!(finger_cost_for(18), 20);
    assert_eq!(finger_cost_for(50), 71);
    assert_eq!(finger_cost_for(100), 505);
    assert_eq!(finger_cost_for(500), 3286015815);
}

#[test]
fn finger_cost_near_the_top_of_u64() {
    assert_eq!(finger_cost_for(1072), 18186106426875744195);
    assert_eq!(finger_cost_for(1073), u64::MAX);
    assert_eq!(finger_cost_for(1097), u64::MAX);
    assert_eq!(finger_cost_for(1098), u64::MAX);
    assert_eq!(finger_cost_for(u64::MAX), u64::MAX);
}

#[test]
fn finger_cost_matches_float_estimate_for_small_counts() {
    for n in 0..200u64 {
        let estimate = 10.0f64 * 1.04f64.powi(n as i32);
        let exact = finger_cost_for(n) as f64;
        assert!(exact <= estimate + 1e-6 && estimate < exact + 1.0, "n = {}", n);
    }
}

#[test]
fn hand_cost_is_ten_per_hand_plus_ten() {
    assert_eq!(economy(0, 1, 0, 1).hand_cost(), 10);
    assert_eq!(economy(0, 1, 5, 1).hand_cost(), 60);
    assert_eq!(hand_cost_for(1), 20);
    assert_eq!(hand_cost_for(u64::MAX / 10), u64::MAX);
    assert_eq!(hand_cost_for(u64::MAX), u64::MAX);
}

#[test]
fn fixed_costs() {
    let e = EconomyState::new();
    assert_eq!(e.combine_cost(), 30);
    assert_eq!(e.auto_cost(), 60);
    assert_eq!(COMBINE_COST, 30);
    assert_eq!(AUTO_COST, 60);
}

#[test]
fn multiplier_doubles_at_first_threshold() {
    assert_eq!(economy(0, 39, 0, 1).multiplier(), 1);
    assert_eq!(economy(0, 40, 0, 1).multiplier(), 2);
    assert_eq!(economy(0, 39, 0, 3).multiplier(), 100);
    assert_eq!(economy(0, 40, 0, 3).multiplier(), 200);
}

#[test]
fn multiplier_counts_every_threshold() {
    assert_eq!(doublings_for(0), 0);
    assert_eq!(doublings_for(79), 1);
    assert_eq!(doublings_for(80), 2);
    assert_eq!(doublings_for(474), 13);
    assert_eq!(doublings_for(475), 14);
    assert_eq!(multiplier_for(600, 1), 524288);
    assert_eq!(multiplier_for(u64::MAX, 1), 524288);
}

#[test]
fn multiplier_saturates() {
    assert_eq!(multiplier_for(0, 20), 10_000_000_000_000_000_000);
    assert_eq!(multiplier_for(40, 20), u64::MAX);
    assert_eq!(multiplier_for(0, 21), u64::MAX);
    assert_eq!(multiplier_for(0, u32::MAX), u64::MAX);
}

#[test]
fn next_multiplier_threshold() {
    assert_eq!(economy(0, 1, 0, 1).next_multiplier(), Some(40));
    assert_eq!(next_threshold_for(40), Some(80));
    assert_eq!(next_threshold_for(599), Some(600));
    assert_eq!(next_threshold_for(600), None);
}

#[test]
fn cashout_costs_by_level() {
    assert_eq!(economy(0, 1, 0, 1).cashout_cost(), Some(10000));
    assert_eq!(cashout_cost_for(2), Some(100000000));
    assert_eq!(cashout_cost_for(3), Some(50000000000));
    assert_eq!(cashout_cost_for(4), None);
    assert_eq!(cashout_cost_for(0), None);
}

#[test]
fn queries_repeat_their_answers() {
    let e = economy(1234, 77, 4, 2);
    assert_eq!(e.finger_cost(), e.finger_cost());
    assert_eq!(e.hand_cost(), e.hand_cost());
    assert_eq!(e.multiplier(), e.multiplier());
    assert_eq!(e.next_multiplier(), e.next_multiplier());
    assert_eq!(e.cashout_cost(), e.cashout_cost());
    assert_eq!(e, economy(1234, 77, 4, 2));
}
