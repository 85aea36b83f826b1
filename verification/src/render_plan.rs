//! The scene description of one snapshot.
//!
//! Rendering itself is an external capability; the stage computes here the
//! exact scene a snapshot must show — the camera shift that keeps a tall
//! stack in view, the sky and ground rectangles, and one filled, stroked
//! outline per object, with a participant's icon as fill where one is
//! stored — and the renderer only draws it.

use vstd::prelude::*;

use crate::geometry::RotPair;
use crate::geometry::Shape;
use crate::geometry::OBJECT_POS_LIMIT;
use crate::stage::Stage;
use crate::stage::Object;
use crate::stage::IconEntry;
use crate::stage::has_icon_spec;
use crate::stage::stage_top_spec;
use crate::stage::lemma_stage_top_bounds;
use crate::geometry::nano_to_milli_floor;

verus! {

/// How a drawn outline is filled.
#[derive(Clone, PartialEq, Eq, Debug)]
pub enum Paint {
    Color { red: u8, green: u8, blue: u8 },
    /// Fill with the stored icon of this participant.
    Icon { user_id: String },
}

/// An axis-aligned filled rectangle, in milli-pixels.
#[derive(Clone, Copy, PartialEq, Eq, Structural, Debug)]
pub struct RectCmd {
    pub x0_milli: i64,
    pub y0_milli: i64,
    pub x1_milli: i64,
    pub y1_milli: i64,
    pub red: u8,
    pub green: u8,
    pub blue: u8,
}

/// One object's outline, placed in the camera-shifted scene.
#[derive(Clone, PartialEq, Eq, Debug)]
pub struct OutlineCmd {
    pub shape_index: usize,
    pub x_milli: i64,
    pub y_milli: i64,
    pub rotation: RotPair,
    pub fill: Paint,
    pub stroke_red: u8,
    pub stroke_green: u8,
    pub stroke_blue: u8,
    pub stroke_width_milli: i64,
}

/// The whole scene of one snapshot, drawn back to front: sky, ground, then
/// the outlines in object order.
#[derive(Clone, Debug)]
pub struct RenderPlan {
    /// Upward camera shift, in milli-pixels: zero until the stack top rises
    /// within ten pixels of the scene top, negative beyond.
    pub camera_milli: i64,
    pub background: RectCmd,
    pub ground: RectCmd,
    pub outlines: Vec<OutlineCmd>,
}

/// The camera shift a stack demands, in milli-pixels.
pub open spec fn camera_spec(shapes: Seq<Shape>, objs: Seq<Object>) -> int {
    let top_milli = stage_top_spec(shapes, objs) / 1_000_000;
    if top_milli - 10_000 < 0 {
        top_milli - 10_000
    } else {
        0
    }
}

/// The outline command one object contributes: its synchronized placement
/// shifted by the camera, filled with the owner's icon where one is stored,
/// else white with the default stroke.
pub open spec fn outline_cmd_spec(icons: Seq<IconEntry>, o: Object, camera: int) -> OutlineCmd {
    let icon_owned = match o.user_id {
        Option::Some(u) => has_icon_spec(icons, u@),
        Option::None => false,
    };
    OutlineCmd {
        shape_index: o.shape_index,
        x_milli: o.translation.x,
        y_milli: (o.translation.y - camera) as i64,
        rotation: o.rotation,
        fill: if icon_owned {
            match o.user_id {
                Option::Some(u) => Paint::Icon { user_id: u },
                Option::None => Paint::Color { red: 255, green: 255, blue: 255 },
            }
        } else {
            Paint::Color { red: 255, green: 255, blue: 255 }
        },
        stroke_red: if icon_owned {
            0
        } else {
            245
        },
        stroke_green: if icon_owned {
            88
        } else {
            66
        },
        stroke_blue: if icon_owned {
            122
        } else {
            129
        },
        stroke_width_milli: if icon_owned {
            2_000
        } else {
            4_000
        },
    }
}

impl Stage {
    /// The scene of one snapshot of this stage.
    pub fn render_plan(&self) -> (p: RenderPlan)
        requires
            self.wf(),
        ensures
            p.camera_milli == camera_spec(self.shapes@, self.objects@),
            p.background == (RectCmd {
                x0_milli: 0,
                y0_milli: 0,
                x1_milli: 640_000,
                y1_milli: 480_000,
                red: 3,
                green: 182,
                blue: 252,
            }),
            p.ground == (RectCmd {
                x0_milli: 100_000,
                y0_milli: (400_000 - camera_spec(self.shapes@, self.objects@)) as i64,
                x1_milli: 540_000,
                y1_milli: (420_000 - camera_spec(self.shapes@, self.objects@)) as i64,
                red: 20,
                green: 222,
                blue: 106,
            }),
            p.outlines@.len() == self.objects@.len(),
            forall|i: int| 0 <= i < self.objects@.len() ==> p.outlines@[i] == outline_cmd_spec(
                self.user_icons@,
                self.objects@[i],
                camera_spec(self.shapes@, self.objects@),
            ),
    {
        proof {
            lemma_stage_top_bounds(
                self.shapes@,
                self.objects@,
                self.objects@.len() as int,
                OBJECT_POS_LIMIT as int,
            );
            vstd::arithmetic::div_mod::lemma_div_is_ordered(
                -1_102_000_000_000_000,
                stage_top_spec(self.shapes@, self.objects@),
                1_000_000,
            );
            vstd::arithmetic::div_mod::lemma_div_is_ordered(
                stage_top_spec(self.shapes@, self.objects@),
                420_000_000_000,
                1_000_000,
            );
        }
        let top = self.get_stage_top();
        let top_milli = nano_to_milli_floor(top);
        let camera: i64 = if top_milli - 10_000 < 0 {
            top_milli - 10_000
        } else {
            0
        };
        let background = RectCmd {
            x0_milli: 0,
            y0_milli: 0,
            x1_milli: 640_000,
            y1_milli: 480_000,
            red: 3,
            green: 182,
            blue: 252,
        };
        let ground = RectCmd {
            x0_milli: 100_000,
            y0_milli: 400_000 - camera,
            x1_milli: 540_000,
            y1_milli: 420_000 - camera,
            red: 20,
            green: 222,
            blue: 106,
        };
        let mut outlines: Vec<OutlineCmd> = Vec::new();
        let n = self.objects.len();
        let mut i: usize = 0;
        while i < n
            invariant
                0 <= i <= n,
                n == self.objects@.len(),
                self.wf(),
                -1_200_000_000 <= camera <= 0,
                camera == camera_spec(self.shapes@, self.objects@),
                outlines@.len() == i,
                forall|j: int| 0 <= j < i ==> outlines@[j] == outline_cmd_spec(
                    self.user_icons@,
                    self.objects@[j],
                    camera as int,
                ),
            decreases n - i,
        {
            let o = &self.objects[i];
            assert(crate::stage::object_wf(self.shapes@, self.objects@[i as int], i as int));
            let icon_user: Option<&String> = match &o.user_id {
                Option::Some(u) => if self.has_icon(u) {
                    Some(u)
                } else {
                    None
                },
                Option::None => None,
            };
            let cmd = match icon_user {
                Option::Some(u) => OutlineCmd {
                    shape_index: o.shape_index,
                    x_milli: o.translation.x,
                    y_milli: o.translation.y - camera,
                    rotation: o.rotation,
                    fill: Paint::Icon { user_id: u.clone() },
                    stroke_red: 0,
                    stroke_green: 88,
                    stroke_blue: 122,
                    stroke_width_milli: 2_000,
                },
                Option::None => OutlineCmd {
                    shape_index: o.shape_index,
                    x_milli: o.translation.x,
                    y_milli: o.translation.y - camera,
                    rotation: o.rotation,
                    fill: Paint::Color { red: 255, green: 255, blue: 255 },
                    stroke_red: 245,
                    stroke_green: 66,
                    stroke_blue: 129,
                    stroke_width_milli: 4_000,
                },
            };
            outlines.push(cmd);
            i = i + 1;
        }
        RenderPlan { camera_milli: camera, background, ground, outlines }
    }
}

} // verus!
