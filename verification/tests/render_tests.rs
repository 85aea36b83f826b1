use tower_battle::geometry::{Point, RotPair, Shape};
use tower_battle::render_plan::Paint;
use tower_battle::stage::{IconEntry, Object, Stage, StepSample, MAX_STEPS};

fn square() -> Shape {
    Shape {
        points: vec![
            Point { x: -50_000, y: -50_000 },
            Point { x: 50_000, y: -50_000 },
            Point { x: 50_000, y: 50_000 },
            Point { x: -50_000, y: 50_000 },
        ],
    }
}

fn rot0() -> RotPair {
    RotPair { cos_micro: 1_000_000, sin_micro: 0 }
}

fn empty_trace() -> Vec<StepSample> {
    (0..MAX_STEPS).map(|_| StepSample { bodies: vec![] }).collect()
}

#[test]
fn low_stack_renders_without_camera_shift() {
    let mut stage = Stage::new(vec![square()]);
    stage.next_turn(None, 0, rot0(), &empty_trace());
    let plan = stage.render_plan();
    assert_eq!(plan.camera_milli, 0);
    assert_eq!(plan.background.x1_milli, 640_000);
    assert_eq!(plan.background.y1_milli, 480_000);
    assert_eq!((plan.background.red, plan.background.green, plan.background.blue), (3, 182, 252));
    assert_eq!(plan.ground.y0_milli, 400_000);
    assert_eq!(plan.ground.y1_milli, 420_000);
    assert_eq!((plan.ground.x0_milli, plan.ground.x1_milli), (100_000, 540_000));
    assert_eq!(plan.outlines.len(), 1);
    let o = &plan.outlines[0];
    assert_eq!(o.y_milli, 299_290);
    assert_eq!(o.fill, Paint::Color { red: 255, green: 255, blue: 255 });
    assert_eq!(
        (o.stroke_red, o.stroke_green, o.stroke_blue, o.stroke_width_milli),
        (245, 66, 129, 4_000)
    );
}

#[test]
fn owned_object_with_icon_is_icon_filled() {
    let stage = Stage {
        user_icons: vec![IconEntry { user_id: "u1".to_string(), data: vec![9] }],
        objects: vec![Object {
            user_id: Some("u1".to_string()),
            shape_index: 0,
            translation: Point { x: 320_000, y: 350_000 },
            rotation: rot0(),
            body_handle: 0,
        }],
        shapes: vec![square()],
    };
    let plan = stage.render_plan();
    assert_eq!(plan.outlines[0].fill, Paint::Icon { user_id: "u1".to_string() });
    assert_eq!(
        (
            plan.outlines[0].stroke_red,
            plan.outlines[0].stroke_green,
            plan.outlines[0].stroke_blue,
            plan.outlines[0].stroke_width_milli
        ),
        (0, 88, 122, 2_000)
    );
}

#[test]
fn owned_object_without_icon_keeps_the_default_fill() {
    let stage = Stage {
        user_icons: vec![],
        objects: vec![Object {
            user_id: Some("u1".to_string()),
            shape_index: 0,
            translation: Point { x: 320_000, y: 350_000 },
            rotation: rot0(),
            body_handle: 0,
        }],
        shapes: vec![square()],
    };
    let plan = stage.render_plan();
    assert_eq!(plan.outlines[0].fill, Paint::Color { red: 255, green: 255, blue: 255 });
}

#[test]
fn tall_stack_shifts_the_camera() {
    let stage = Stage {
        user_icons: vec![],
        objects: vec![Object {
            user_id: None,
            shape_index: 0,
            translation: Point { x: 320_000, y: -100_000 },
            rotation: rot0(),
            body_handle: 0,
        }],
        shapes: vec![square()],
    };
    // stack top at -150 px: the camera follows it up, ten pixels short
    let plan = stage.render_plan();
    assert_eq!(plan.camera_milli, -160_000);
    assert_eq!(plan.outlines[0].y_milli, 60_000);
    assert_eq!(plan.ground.y0_milli, 560_000);
}
