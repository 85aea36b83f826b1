use tower_battle::geometry::{Point, RotPair, Shape};
use tower_battle::stage::{
    BodySample, Object, Stage, StepSample, TurnResult, GROUND_LINE_NANO, MAX_STEPS,
};

fn square() -> Shape {
    Shape {
        points: vec![
            Point { x: -50_000, y: -50_000 },
            Point { x: 50_000, y: -50_000 },
            Point { x: 50_000, y: 50_000 },
            Point { x: -50_000, y: 50_000 },
        ],
    }
}

fn rot0() -> RotPair {
    RotPair { cos_micro: 1_000_000, sin_micro: 0 }
}

fn empty_trace() -> Vec<StepSample> {
    (0..MAX_STEPS).map(|_| StepSample { bodies: vec![] }).collect()
}

fn settled_trace(samples: Vec<BodySample>) -> Vec<StepSample> {
    vec![StepSample { bodies: samples }; MAX_STEPS]
}

#[test]
fn bootstrap_succeeds_with_height_zero() {
    // scenario: a fresh stage's first turn is an immediate success
    let mut stage = Stage::new(vec![square()]);
    let (result, height, spawn) = stage.next_turn(None, 0, rot0(), &empty_trace());
    assert_eq!(result, TurnResult::Success);
    assert_eq!(height, 0);
    assert_eq!(stage.objects.len(), 1);
    let cmd = spawn.unwrap();
    assert_eq!(cmd.body_handle, 0);
    // the single-shape catalog forces the spawned shape's index
    assert_eq!(cmd.shape_index, 0);
    assert_eq!(cmd.x_milli, 320_000);
    // ground line 420 px, bounding radius of the square 70.710 px, clearance 50 px
    assert_eq!(cmd.y_milli, 420_000 - 70_710 - 50_000);
    let pending = &stage.objects[0];
    assert_eq!(pending.user_id, None);
    assert_eq!(pending.translation, Point { x: 320_000, y: 299_290 });
    assert_eq!(pending.rotation, rot0());
    assert_eq!(pending.body_handle, 0);
}

#[test]
fn second_turn_drops_centered_and_grows() {
    // scenario: the pending object lands on the ground, the stack gains height
    let mut stage = Stage::new(vec![square()]);
    stage.next_turn(None, 0, rot0(), &empty_trace());
    let landing = BodySample {
        x_milli: 320_000,
        y_milli: 350_000,
        rotation: rot0(),
        asleep: true,
    };
    let (result, height, spawn) =
        stage.next_turn(Some("u1".to_string()), 0, rot0(), &settled_trace(vec![landing]));
    assert_eq!(result, TurnResult::Success);
    // the landed square's top sits at 300 px; 120 px above the 420 px line
    assert_eq!(height, 120_000_000_000);
    assert_eq!(stage.objects.len(), 2);
    assert_eq!(stage.objects[0].user_id, Some("u1".to_string()));
    assert_eq!(stage.objects[0].translation, Point { x: 320_000, y: 350_000 });
    let cmd = spawn.unwrap();
    assert_eq!(cmd.body_handle, 1);
    assert_eq!(cmd.y_milli, 300_000 - 70_710 - 50_000);
}

#[test]
fn heights_strictly_increase_across_successes() {
    let mut stage = Stage::new(vec![square()]);
    let (_, h0, _) = stage.next_turn(None, 0, rot0(), &empty_trace());
    let landing = BodySample {
        x_milli: 320_000,
        y_milli: 350_000,
        rotation: rot0(),
        asleep: true,
    };
    let (_, h1, _) = stage.next_turn(
        Some("u1".to_string()),
        0,
        rot0(),
        &settled_trace(vec![landing]),
    );
    let stacked = vec![
        BodySample { x_milli: 320_000, y_milli: 350_000, rotation: rot0(), asleep: true },
        BodySample { x_milli: 320_000, y_milli: 250_000, rotation: rot0(), asleep: true },
    ];
    let (r2, h2, _) = stage.next_turn(Some("u2".to_string()), 0, rot0(), &settled_trace(stacked));
    assert_eq!(r2, TurnResult::Success);
    assert!(h0 >= 0 && h1 >= 0 && h2 >= 0);
    assert!(h1 > h0);
    assert!(h2 > h1);
    assert_eq!(h2, 220_000_000_000);
}

#[test]
fn far_offset_topples_into_failure() {
    // scenario: an offset far outside the support ends the game
    let mut stage = Stage::new(vec![square()]);
    stage.next_turn(None, 0, rot0(), &empty_trace());
    // the body tumbles off and sinks below the playing field, never at rest
    let sunk = BodySample {
        x_milli: 624_000,
        y_milli: 600_000,
        rotation: rot0(),
        asleep: false,
    };
    let (result, height, spawn) =
        stage.next_turn(Some("u1".to_string()), 950, rot0(), &settled_trace(vec![sunk]));
    assert_eq!(result, TurnResult::Failure);
    assert_eq!(height, 0);
    assert!(spawn.is_none());
    // no new object is spawned after a failure
    assert_eq!(stage.objects.len(), 1);
    // the failed drop was teleported to the mapped offset: (0.95 + 1) / 2 * 640 px
    assert_eq!(stage.objects[0].translation.x, 624_000);
}

#[test]
fn never_settling_is_a_timeout() {
    let mut stage = Stage::new(vec![square()]);
    stage.next_turn(None, 0, rot0(), &empty_trace());
    let wobbling = BodySample {
        x_milli: 320_000,
        y_milli: 350_000,
        rotation: rot0(),
        asleep: false,
    };
    let (result, height, spawn) =
        stage.next_turn(Some("u1".to_string()), 0, rot0(), &settled_trace(vec![wobbling]));
    assert_eq!(result, TurnResult::Timeout);
    assert_eq!(height, 120_000_000_000);
    assert!(spawn.is_none());
    assert_eq!(stage.objects.len(), 1);
}

#[test]
fn place_pending_maps_offset_and_records_owner() {
    let mut stage = Stage::new(vec![square()]);
    stage.next_turn(None, 0, rot0(), &empty_trace());
    let rot = RotPair { cos_micro: 0, sin_micro: 1_000_000 };
    let cmd = stage
        .place_pending(Some("u9".to_string()), -250, rot)
        .unwrap();
    assert_eq!(cmd.body_handle, 0);
    // (-0.25 + 1) / 2 * 640 px = 240 px
    assert_eq!(cmd.x_milli, 240_000);
    assert_eq!(cmd.y_milli, 299_290);
    assert_eq!(stage.objects[0].rotation, rot);
    assert_eq!(stage.objects[0].user_id, Some("u9".to_string()));
}

#[test]
fn object_top_and_radius_are_exact() {
    let shape = square();
    let obj = Object {
        user_id: None,
        shape_index: 0,
        translation: Point { x: 320_000, y: 350_000 },
        rotation: rot0(),
        body_handle: 0,
    };
    // upright: the top edge sits 50 px above the center
    assert_eq!(obj.get_top(&shape), 300_000_000_000);
    assert_eq!(obj.get_radius(&shape), 70_710);
    let tilted = Object {
        rotation: RotPair { cos_micro: 0, sin_micro: 1_000_000 },
        ..obj
    };
    // rotated a quarter turn the same corners bound the same span
    assert_eq!(tilted.get_top(&shape), 300_000_000_000);
}

#[test]
fn stage_height_is_never_negative() {
    let stage = Stage::new(vec![square()]);
    assert_eq!(stage.get_stage_top(), GROUND_LINE_NANO);
    assert_eq!(stage.get_stage_height(), 0);
}

#[test]
fn icons_accumulate_and_keep_the_first() {
    let mut stage = Stage::new(vec![square()]);
    assert!(!stage.has_icon(&"u1".to_string()));
    stage.add_icon("u1".to_string(), vec![1, 2]);
    stage.add_icon("u1".to_string(), vec![3]);
    assert!(stage.has_icon(&"u1".to_string()));
    assert!(!stage.has_icon(&"u2".to_string()));
    assert_eq!(stage.user_icons.len(), 1);
    assert_eq!(stage.user_icons[0].data, vec![1, 2]);
}
