use tower_battle::geometry::{Point, RotPair, Shape};
use tower_battle::session::{Registry, IDLE_EVICT_SECS};
use tower_battle::stage::{Stage, StepSample, TurnResult, MAX_STEPS};

fn square() -> Shape {
    Shape {
        points: vec![
            Point { x: -50_000, y: -50_000 },
            Point { x: 50_000, y: -50_000 },
            Point { x: 50_000, y: 50_000 },
            Point { x: -50_000, y: 50_000 },
        ],
    }
}

fn empty_trace() -> Vec<StepSample> {
    (0..MAX_STEPS).map(|_| StepSample { bodies: vec![] }).collect()
}

#[test]
fn single_flight_refuses_a_concurrent_turn() {
    let mut reg = Registry::new();
    let ch = "C1".to_string();
    reg.observe(ch.clone(), 100);
    assert!(reg.try_begin_turn(&ch));
    // a second attempt while the first holds the guard is refused
    assert!(!reg.try_begin_turn(&ch));
    assert!(!reg.try_begin_turn(&ch));
    reg.cancel_turn(&ch, None);
    assert!(reg.try_begin_turn(&ch));
}

#[test]
fn failure_clears_the_stage_and_the_next_game_is_fresh() {
    let mut reg = Registry::new();
    let ch = "C1".to_string();
    reg.observe(ch.clone(), 100);
    assert!(reg.try_begin_turn(&ch));
    assert!(reg.take_stage(&ch).is_none());
    let mut stage = Stage::new(vec![square()]);
    stage.next_turn(None, 0, RotPair { cos_micro: 1_000_000, sin_micro: 0 }, &empty_trace());
    reg.finish_turn(&ch, TurnResult::Success, stage, 200);
    assert!(reg.has_stage(&ch));

    // a turn ends in failure: the session keeps no stage
    assert!(reg.try_begin_turn(&ch));
    let taken = reg.take_stage(&ch).unwrap();
    assert_eq!(taken.objects.len(), 1);
    reg.finish_turn(&ch, TurnResult::Failure, taken, 300);
    assert!(!reg.has_stage(&ch));

    // the next accepted turn starts over from a brand-new stage
    assert!(reg.try_begin_turn(&ch));
    assert!(reg.take_stage(&ch).is_none());
    let fresh = Stage::new(vec![square()]);
    assert_eq!(fresh.objects.len(), 0);
    reg.finish_turn(&ch, TurnResult::Success, fresh, 400);
}

#[test]
fn timeout_also_clears_the_stage() {
    let mut reg = Registry::new();
    let ch = "C1".to_string();
    reg.observe(ch.clone(), 100);
    assert!(reg.try_begin_turn(&ch));
    let stage = Stage::new(vec![square()]);
    reg.finish_turn(&ch, TurnResult::Timeout, stage, 200);
    assert!(!reg.has_stage(&ch));
}

#[test]
fn cancel_leaves_activity_time_untouched() {
    // scenario: malformed input aborts the turn without touching the session
    let mut reg = Registry::new();
    let ch = "C1".to_string();
    reg.observe(ch.clone(), 100);
    assert!(reg.try_begin_turn(&ch));
    let stage = reg.take_stage(&ch);
    reg.cancel_turn(&ch, stage);
    assert_eq!(reg.sessions[0].last_activity, 100);
    assert!(!reg.sessions[0].in_turn);
}

#[test]
fn observe_is_idempotent_per_channel() {
    let mut reg = Registry::new();
    reg.observe("C1".to_string(), 100);
    reg.observe("C1".to_string(), 999);
    reg.observe("C2".to_string(), 200);
    assert_eq!(reg.sessions.len(), 2);
    assert_eq!(reg.sessions[0].last_activity, 100);
}

#[test]
fn reap_evicts_idle_sessions_and_skips_held_ones() {
    let mut reg = Registry::new();
    reg.observe("old".to_string(), 1_000);
    reg.observe("busy".to_string(), 1_000);
    reg.observe("fresh".to_string(), 90_000);
    assert!(reg.try_begin_turn(&"busy".to_string()));
    // exactly a day after the idle sessions' last activity
    reg.reap(1_000 + IDLE_EVICT_SECS);
    let keys: Vec<String> = reg.sessions.iter().map(|s| s.channel_id.clone()).collect();
    assert_eq!(keys, vec!["busy".to_string(), "fresh".to_string()]);
}
