use clicker_engine::error::ProgressError;
use clicker_engine::store::{EntityStore, HandState};

#[test]
fn new_hand_is_filling_and_childless() {
    let mut s = EntityStore::new();
    let h = s.create_hand();
    assert_eq!(h, 0);
    assert_eq!(s.hands().len(), 1);
    assert_eq!(s.hands()[0].state, HandState::Filling);
    assert_eq!(s.children_of(h), Ok(vec![]));
    assert_eq!(s.child_count(h), 0);
}

#[test]
fn children_keep_creation_order() {
    let mut s = EntityStore::new();
    let a = s.create_hand();
    let b = s.create_hand();
    let c1 = s.create_clicker(a).unwrap();
    let c2 = s.create_clicker(b).unwrap();
    let c3 = s.create_clicker(a).unwrap();
    assert_eq!(s.children_of(a), Ok(vec![c1, c3]));
    assert_eq!(s.children_of(b), Ok(vec![c2]));
    assert_eq!(s.child_count(a), 2);
    let clicker = s.clickers()[s.find_clicker(c3).unwrap()];
    assert_eq!(clicker.owner, a);
    assert_eq!(clicker.per_click, 1);
}

#[test]
fn clicker_for_missing_hand_is_refused() {
    let mut s = EntityStore::new();
    let _ = s.create_hand();
    assert_eq!(s.create_clicker(42), Err(ProgressError::EntityNotFound));
    assert_eq!(s.clickers().len(), 0);
    assert_eq!(s.ids_left(), u64::MAX - 1);
}

#[test]
fn destroying_a_hand_removes_its_clickers() {
    let mut s = EntityStore::new();
    let a = s.create_hand();
    let b = s.create_hand();
    let c1 = s.create_clicker(a).unwrap();
    let c2 = s.create_clicker(b).unwrap();
    assert_eq!(s.destroy_hand(a), Ok(()));
    assert_eq!(s.find_hand(a), None);
    assert_eq!(s.find_clicker(c1), None);
    assert!(s.find_clicker(c2).is_some());
    assert_eq!(s.children_of(a), Err(ProgressError::EntityNotFound));
    assert_eq!(s.destroy_hand(a), Err(ProgressError::EntityNotFound));
    assert_eq!(s.create_clicker(a), Err(ProgressError::EntityNotFound));
    let c3 = s.create_clicker(b).unwrap();
    assert!(c3 > c2);
    assert_eq!(s.children_of(b), Ok(vec![c2, c3]));
}

#[test]
fn set_state_changes_only_that_hand() {
    let mut s = EntityStore::new();
    let a = s.create_hand();
    let b = s.create_hand();
    assert_eq!(s.set_state(b, HandState::Combined), Ok(()));
    assert_eq!(s.hands()[0].state, HandState::Filling);
    assert_eq!(s.hands()[1].state, HandState::Combined);
    assert_eq!(s.hands()[0].id, a);
    assert_eq!(s.set_state(7, HandState::Autoed), Err(ProgressError::EntityNotFound));
}

#[test]
fn advance_skips_filling_clap_timers() {
    let mut s = EntityStore::new();
    let a = s.create_hand();
    let b = s.create_hand();
    let _ = s.create_clicker(a).unwrap();
    s.set_state(b, HandState::Combined).unwrap();
    s.advance(250);
    assert_eq!(s.hands()[0].clap_timer.elapsed, 0);
    assert_eq!(s.hands()[1].clap_timer.elapsed, 250);
    assert_eq!(s.clickers()[0].timer.elapsed, 250);
}

#[test]
fn clear_keeps_ids_unique() {
    let mut s = EntityStore::new();
    let a = s.create_hand();
    s.clear();
    assert_eq!(s.hands().len(), 0);
    let b = s.create_hand();
    assert!(b > a);
}
