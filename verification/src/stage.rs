//! The stage: one running game instance and its turn algorithm.
//!
//! A stage owns the ordered stack of objects and the shape catalog. The
//! physics capability is external: the stage hands out placement commands
//! (`TeleportCmd`, `SpawnCmd`) and consumes per-step body samples
//! (`StepSample`), one sample list per fixed simulation step. A turn is
//! resolved by walking the step trace in order and classifying the first
//! decisive state: toppling past the ground line is a `Failure`, every body
//! at rest is a `Success`, and an exhausted step budget is a `Timeout`.

use vstd::prelude::*;

use crate::geometry::Point;
use crate::geometry::RotPair;
use crate::geometry::Shape;
use crate::geometry::rot_wf;
use crate::geometry::shape_wf;
use crate::geometry::pos_wf;
use crate::geometry::rot_zero;
use crate::geometry::top_nano;
use crate::geometry::top_prefix;
use crate::geometry::max_sq;
use crate::geometry::floor_sqrt;
use crate::geometry::outline_top_nano;
use crate::geometry::outline_radius_milli;
use crate::geometry::nano_to_milli_floor;
use crate::geometry::TRIG_ONE;
use crate::geometry::SHAPE_COORD_LIMIT;
use crate::geometry::SAMPLE_POS_LIMIT;
use crate::geometry::OBJECT_POS_LIMIT;

verus! {

/// Scene height of the ground line, in nano-pixels (420 pixels): an object
/// whose topmost vertex sinks past this line has left the playing field.
pub const GROUND_LINE_NANO: i64 = 420_000_000_000;

/// Scene width, in milli-pixels (640 pixels).
pub const SCENE_WIDTH_MILLI: i64 = 640_000;

/// Scene height, in milli-pixels (480 pixels).
pub const SCENE_HEIGHT_MILLI: i64 = 480_000;

/// Upward clearance between the stack top and a freshly spawned object, in
/// milli-pixels (50 pixels).
pub const SPAWN_CLEARANCE_MILLI: i64 = 50_000;

/// Fixed step budget of one turn: sixty simulated seconds at sixty steps per
/// second.
pub const MAX_STEPS: usize = 3600;

/// Scene pixels per physics-world unit: the world scale is one over this.
pub const PIXELS_PER_WORLD_UNIT: u64 = 100;

/// Half-extents of the static ground body, in milli-pixels.
pub const GROUND_HALF_WIDTH_MILLI: i64 = 220_000;

/// Half-extents of the static ground body, in milli-pixels.
pub const GROUND_HALF_HEIGHT_MILLI: i64 = 10_000;

/// Center of the static ground body, in milli-pixels.
pub const GROUND_CENTER_X_MILLI: i64 = 320_000;

/// Center of the static ground body, in milli-pixels.
pub const GROUND_CENTER_Y_MILLI: i64 = 410_000;

/// One physical piece in the stack.
#[derive(Clone, Debug)]
pub struct Object {
    /// Participant who positioned this piece; `None` for the pending piece
    /// and for pieces placed before any participant acted on them.
    pub user_id: Option<String>,
    /// Index of this piece's outline in the stage's shape catalog.
    pub shape_index: usize,
    /// Scene translation, in milli-pixels, synchronized from the physics
    /// body after every simulation step.
    pub translation: Point,
    /// Scene rotation, as scaled cosine/sine, synchronized like
    /// `translation`.
    pub rotation: RotPair,
    /// Arena index of this piece's physics body; equals the piece's position
    /// in the stage's object list and never changes.
    pub body_handle: usize,
}

/// Terminal outcome of one turn.
#[derive(Clone, Copy, PartialEq, Eq, Structural, Debug)]
pub enum TurnResult {
    Success,
    Failure,
    Timeout,
}

/// State of one physics body after one simulation step, reported by the
/// physics capability in object order.
#[derive(Clone, Copy, PartialEq, Eq, Structural, Debug)]
pub struct BodySample {
    /// Scene translation, in milli-pixels.
    pub x_milli: i64,
    pub y_milli: i64,
    /// Scene rotation, as scaled cosine/sine.
    pub rotation: RotPair,
    /// Whether the simulation reports the body at rest.
    pub asleep: bool,
}

/// States of all bodies after one simulation step, in object order.
#[derive(Clone, Debug)]
pub struct StepSample {
    pub bodies: Vec<BodySample>,
}

/// An absolute transform to write into an existing physics body.
#[derive(Clone, Copy, PartialEq, Eq, Structural, Debug)]
pub struct TeleportCmd {
    pub body_handle: usize,
    pub x_milli: i64,
    pub y_milli: i64,
}

/// A new physics body to create for a freshly spawned object.
#[derive(Clone, Copy, PartialEq, Eq, Structural, Debug)]
pub struct SpawnCmd {
    pub body_handle: usize,
    pub shape_index: usize,
    pub x_milli: i64,
    pub y_milli: i64,
}

/// A participant's icon image, kept purely as a rendering aid.
#[derive(Clone, Debug)]
pub struct IconEntry {
    pub user_id: String,
    pub data: Vec<u8>,
}

/// One running game instance.
#[derive(Clone, Debug)]
pub struct Stage {
    /// Participant icons, accumulated as participants act; keys are unique.
    pub user_icons: Vec<IconEntry>,
    /// Append-only object stack; the last element is the pending object.
    pub objects: Vec<Object>,
    /// Immutable shape catalog, non-empty.
    pub shapes: Vec<Shape>,
}

pub open spec fn object_wf(shapes: Seq<Shape>, o: Object, i: int) -> bool {
    &&& o.shape_index < shapes.len()
    &&& pos_wf(o.translation)
    &&& rot_wf(o.rotation)
    &&& o.body_handle == i
}

pub open spec fn objects_wf(shapes: Seq<Shape>, objs: Seq<Object>) -> bool {
    forall|i: int| 0 <= i < objs.len() ==> object_wf(shapes, #[trigger] objs[i], i)
}

/// All object positions lie within the bound the physics capability promises
/// of its samples; holds of every object list freshly synchronized from a
/// step sample.
pub open spec fn objects_sample_bounded(objs: Seq<Object>) -> bool {
    forall|i: int| 0 <= i < objs.len() ==> {
        let t = (#[trigger] objs[i]).translation;
        -SAMPLE_POS_LIMIT <= t.x <= SAMPLE_POS_LIMIT && -SAMPLE_POS_LIMIT <= t.y
            <= SAMPLE_POS_LIMIT
    }
}

pub open spec fn sample_wf(b: BodySample) -> bool {
    &&& -SAMPLE_POS_LIMIT <= b.x_milli <= SAMPLE_POS_LIMIT
    &&& -SAMPLE_POS_LIMIT <= b.y_milli <= SAMPLE_POS_LIMIT
    &&& rot_wf(b.rotation)
}

pub open spec fn step_wf(s: StepSample, n_objects: int) -> bool {
    &&& s.bodies@.len() == n_objects
    &&& forall|j: int| 0 <= j < s.bodies@.len() ==> sample_wf(#[trigger] s.bodies@[j])
}

pub open spec fn trace_wf(trace: Seq<StepSample>, n_objects: int) -> bool {
    forall|k: int| 0 <= k < trace.len() ==> step_wf(#[trigger] trace[k], n_objects)
}

impl Object {
    /// Topmost scene height of this object's placed outline — the minimum,
    /// over the outline's vertices, of the rotated and translated vertex
    /// height — in nano-pixels.
    pub fn get_top(&self, shape: &Shape) -> (r: i64)
        requires
            shape_wf(*shape),
            rot_wf(self.rotation),
            pos_wf(self.translation),
        ensures
            r == top_nano(shape.points@, self.rotation, self.translation),
    {
        outline_top_nano(&shape.points, self.rotation, self.translation)
    }

    /// Bounding radius of this object's outline: the floor square root of
    /// the largest squared vertex distance from the outline's origin, in
    /// milli-pixels.
    pub fn get_radius(&self, shape: &Shape) -> (r: i64)
        requires
            shape_wf(*shape),
        ensures
            r == floor_sqrt(max_sq(shape.points@) as nat),
    {
        outline_radius_milli(&shape.points)
    }
}

impl Stage {
    pub open spec fn wf(&self) -> bool {
        &&& self.shapes@.len() >= 1
        &&& forall|i: int| 0 <= i < self.shapes@.len() ==> shape_wf(#[trigger] self.shapes@[i])
        &&& objects_wf(self.shapes@, self.objects@)
    }
}

/// One object's state after synchronizing from one body sample.
pub open spec fn synced_object(o: Object, b: BodySample) -> Object {
    Object {
        user_id: o.user_id,
        shape_index: o.shape_index,
        translation: Point { x: b.x_milli, y: b.y_milli },
        rotation: b.rotation,
        body_handle: o.body_handle,
    }
}

/// The whole object list after synchronizing from one step sample.
pub open spec fn sync_all(objs: Seq<Object>, bodies: Seq<BodySample>) -> Seq<Object> {
    Seq::new(objs.len(), |i: int| synced_object(objs[i], bodies[i]))
}

/// Topmost scene height of one object's placed outline, in nano-pixels.
pub open spec fn object_top(shapes: Seq<Shape>, o: Object) -> int {
    top_nano(shapes[o.shape_index as int].points@, o.rotation, o.translation)
}

/// Whether some object's topmost vertex has sunk past the ground line.
pub open spec fn any_toppled(shapes: Seq<Shape>, objs: Seq<Object>) -> bool {
    exists|i: int| 0 <= i < objs.len() && object_top(shapes, #[trigger] objs[i])
        > GROUND_LINE_NANO
}

/// Whether the simulation reports every body at rest; vacuously true of an
/// empty stage, which is how the bootstrap turn succeeds at once.
pub open spec fn all_asleep(bodies: Seq<BodySample>) -> bool {
    forall|j: int| 0 <= j < bodies.len() ==> (#[trigger] bodies[j]).asleep
}

/// The turn algorithm's convergence walk: synchronize from each step sample
/// in order, stop at the first decisive state, and report `Timeout` with the
/// last synchronized state if the trace runs out undecided.
pub open spec fn run_spec(shapes: Seq<Shape>, objs: Seq<Object>, trace: Seq<StepSample>) -> (
    TurnResult,
    Seq<Object>,
)
    decreases trace.len(),
{
    if trace.len() == 0 {
        (TurnResult::Timeout, objs)
    } else {
        let objs2 = sync_all(objs, trace[0].bodies@);
        if any_toppled(shapes, objs2) {
            (TurnResult::Failure, objs2)
        } else if all_asleep(trace[0].bodies@) {
            (TurnResult::Success, objs2)
        } else {
            run_spec(shapes, objs2, trace.drop_first())
        }
    }
}

/// Topmost scene height over the first `k` objects, capped at the ground
/// line, in nano-pixels.
pub open spec fn stage_top_prefix(shapes: Seq<Shape>, objs: Seq<Object>, k: int) -> int
    decreases k,
{
    if k <= 0 {
        GROUND_LINE_NANO as int
    } else {
        let rest = stage_top_prefix(shapes, objs, k - 1);
        let t = object_top(shapes, objs[k - 1]);
        if t < rest {
            t
        } else {
            rest
        }
    }
}

/// Topmost scene height of the whole stack, capped at the ground line.
pub open spec fn stage_top_spec(shapes: Seq<Shape>, objs: Seq<Object>) -> int {
    stage_top_prefix(shapes, objs, objs.len() as int)
}

/// Stack height scored for a turn: how far the stack's topmost point rises
/// above the ground line, in nano-pixels; zero for an empty or sunken stack.
pub open spec fn stack_height_spec(shapes: Seq<Shape>, objs: Seq<Object>) -> int {
    GROUND_LINE_NANO - stage_top_spec(shapes, objs)
}

/// Horizontal scene position, in milli-pixels, that a turn's offset input in
/// `[-1000, 1000]` maps to: the linear map of `[-1, 1]` onto the scene's
/// width.
pub open spec fn offset_to_x_milli(offset_milli: int) -> int {
    (offset_milli + 1000) * 320
}

/// The pending object's state after a turn's input positions it.
pub open spec fn placed_object(
    o: Object,
    user_id: Option<String>,
    offset_milli: int,
    rot: RotPair,
) -> Object {
    Object {
        user_id: user_id,
        shape_index: o.shape_index,
        translation: Point { x: offset_to_x_milli(offset_milli) as i64, y: o.translation.y },
        rotation: rot,
        body_handle: o.body_handle,
    }
}

/// The whole object list after a turn's input positions the pending (last)
/// object; an empty list is unchanged, which is how the bootstrap turn
/// starts.
pub open spec fn place_all(
    objs: Seq<Object>,
    user_id: Option<String>,
    offset_milli: int,
    rot: RotPair,
) -> Seq<Object> {
    if objs.len() == 0 {
        objs
    } else {
        objs.update(
            objs.len() - 1,
            placed_object(objs[objs.len() - 1], user_id, offset_milli, rot),
        )
    }
}

/// Vertical spawn position of a fresh object: directly above the stack's
/// topmost point, raised by the outline's bounding radius plus the fixed
/// clearance, in milli-pixels.
pub open spec fn spawn_y_spec(shapes: Seq<Shape>, objs: Seq<Object>, si: int) -> int {
    stage_top_spec(shapes, objs) / 1_000_000 - floor_sqrt(max_sq(shapes[si].points@) as nat)
        - SPAWN_CLEARANCE_MILLI
}

/// A freshly spawned pending object: unowned, horizontally centered, upright,
/// placed above the stack, its body handle the next arena index.
pub open spec fn fresh_object(shapes: Seq<Shape>, objs: Seq<Object>, si: int) -> Object {
    Object {
        user_id: None,
        shape_index: si as usize,
        translation: Point { x: 320_000, y: spawn_y_spec(shapes, objs, si) as i64 },
        rotation: rot_zero(),
        body_handle: objs.len() as usize,
    }
}

/// Relies on rand's `random_range` over an integer range, which returns a
/// value of the given range and panics only when the range is empty.
#[verifier::external_body]
fn random_below(n: usize) -> (r: usize)
    requires
        n >= 1,
    ensures
        r < n,
{
    rand::random_range(0..n)
}

/// Lower bound on the topmost vertex height of a well-formed outline whose
/// translation is bounded by `posb`.
pub proof fn lemma_top_prefix_lower(
    points: Seq<Point>,
    rot: RotPair,
    pos: Point,
    k: int,
    posb: int,
)
    requires
        forall|i: int| 0 <= i < points.len() ==> crate::geometry::shape_point_wf(
            #[trigger] points[i],
        ),
        rot_wf(rot),
        -posb <= pos.y <= posb,
        0 <= posb <= OBJECT_POS_LIMIT,
        0 <= k <= points.len(),
    ensures
        top_prefix(points, rot, pos, k) >= -(2_000_000_000_000 + posb * 1_000_000),
    decreases k,
{
    assert(posb * 1_000_000 <= 1_100_000_000_000_000 && posb * 1_000_000 >= 0)
        by (nonlinear_arith)
        requires
            0 <= posb <= OBJECT_POS_LIMIT,
    ;
    if k > 0 {
        lemma_top_prefix_lower(points, rot, pos, k - 1, posb);
        let p = points[k - 1];
        assert(p.x * rot.sin_micro >= -1_000_000_000_000) by (nonlinear_arith)
            requires
                -SHAPE_COORD_LIMIT <= p.x <= SHAPE_COORD_LIMIT,
                -TRIG_ONE <= rot.sin_micro <= TRIG_ONE,
        ;
        assert(p.y * rot.cos_micro >= -1_000_000_000_000) by (nonlinear_arith)
            requires
                -SHAPE_COORD_LIMIT <= p.y <= SHAPE_COORD_LIMIT,
                -TRIG_ONE <= rot.cos_micro <= TRIG_ONE,
        ;
        assert(pos.y * TRIG_ONE >= -posb * 1_000_000) by (nonlinear_arith)
            requires
                -posb <= pos.y,
                TRIG_ONE == 1_000_000,
        ;
    }
}

/// The stack's topmost height never lies above (is never smaller than) the
/// bound that its objects' translations allow, and never sinks below the
/// ground line cap.
pub proof fn lemma_stage_top_bounds(shapes: Seq<Shape>, objs: Seq<Object>, k: int, posb: int)
    requires
        forall|i: int| 0 <= i < shapes.len() ==> shape_wf(#[trigger] shapes[i]),
        objects_wf(shapes, objs),
        forall|i: int| 0 <= i < objs.len() ==> {
            let t = (#[trigger] objs[i]).translation;
            -posb <= t.y <= posb
        },
        0 <= posb <= OBJECT_POS_LIMIT,
        0 <= k <= objs.len(),
    ensures
        stage_top_prefix(shapes, objs, k) <= GROUND_LINE_NANO,
        stage_top_prefix(shapes, objs, k) >= -(2_000_000_000_000 + posb * 1_000_000),
    decreases k,
{
    assert(posb * 1_000_000 <= 1_100_000_000_000_000 && posb * 1_000_000 >= 0)
        by (nonlinear_arith)
        requires
            0 <= posb <= OBJECT_POS_LIMIT,
    ;
    if k > 0 {
        lemma_stage_top_bounds(shapes, objs, k - 1, posb);
        let o = objs[k - 1];
        assert(object_wf(shapes, o, k - 1));
        lemma_top_prefix_lower(
            shapes[o.shape_index as int].points@,
            o.rotation,
            o.translation,
            shapes[o.shape_index as int].points@.len() as int,
            posb,
        );
    }
}

impl Stage {
    /// A fresh stage over the given catalog: no objects, no icons. The
    /// caller inserts the static ground body into its physics world, at
    /// `GROUND_CENTER_*` with half-extents `GROUND_HALF_*`.
    pub fn new(shapes: Vec<Shape>) -> (s: Stage)
        requires
            shapes@.len() >= 1,
            forall|i: int| 0 <= i < shapes@.len() ==> shape_wf(#[trigger] shapes@[i]),
        ensures
            s.wf(),
            s.shapes@ == shapes@,
            s.objects@.len() == 0,
            s.user_icons@.len() == 0,
    {
        Stage { user_icons: Vec::new(), objects: Vec::new(), shapes }
    }

    /// Whether an icon is already stored for this participant.
    pub fn has_icon(&self, user_id: &String) -> (r: bool)
        ensures
            r == has_icon_spec(self.user_icons@, user_id@),
    {
        let n = self.user_icons.len();
        let mut i: usize = 0;
        while i < n
            invariant
                0 <= i <= n,
                n == self.user_icons@.len(),
                forall|j: int| 0 <= j < i ==> (#[trigger] self.user_icons@[j]).user_id@
                    != user_id@,
            decreases n - i,
        {
            let entry = &self.user_icons[i];
            if entry.user_id == *user_id {
                return true;
            }
            i = i + 1;
        }
        false
    }

    /// Record a participant's icon; a participant already present keeps the
    /// icon first stored.
    pub fn add_icon(&mut self, user_id: String, data: Vec<u8>)
        ensures
            final(self).objects@ == old(self).objects@,
            final(self).shapes@ == old(self).shapes@,
            has_icon_spec(old(self).user_icons@, user_id@) ==> final(self).user_icons@ == old(
                self,
            ).user_icons@,
            !has_icon_spec(old(self).user_icons@, user_id@) ==> final(self).user_icons@ == old(
                self,
            ).user_icons@.push(IconEntry { user_id, data }),
    {
        if !self.has_icon(&user_id) {
            self.user_icons.push(IconEntry { user_id, data });
        }
    }

    /// Topmost scene height of the whole stack, capped at the ground line,
    /// in nano-pixels.
    pub fn get_stage_top(&self) -> (r: i64)
        requires
            self.wf(),
        ensures
            r == stage_top_spec(self.shapes@, self.objects@),
    {
        let mut best: i64 = GROUND_LINE_NANO;
        let n = self.objects.len();
        let mut i: usize = 0;
        while i < n
            invariant
                0 <= i <= n,
                n == self.objects@.len(),
                self.wf(),
                best == stage_top_prefix(self.shapes@, self.objects@, i as int),
            decreases n - i,
        {
            let o = &self.objects[i];
            assert(object_wf(self.shapes@, self.objects@[i as int], i as int));
            let shape = &self.shapes[o.shape_index];
            let t = outline_top_nano(&shape.points, o.rotation, o.translation);
            if t < best {
                best = t;
            }
            i = i + 1;
        }
        best
    }

    /// Stack height scored for the current state: how far the stack's
    /// topmost point rises above the ground line, in nano-pixels; never
    /// negative.
    pub fn get_stage_height(&self) -> (r: i64)
        requires
            self.wf(),
        ensures
            r == stack_height_spec(self.shapes@, self.objects@),
            r >= 0,
    {
        proof {
            lemma_stage_top_bounds(
                self.shapes@,
                self.objects@,
                self.objects@.len() as int,
                OBJECT_POS_LIMIT as int,
            );
        }
        let top = self.get_stage_top();
        GROUND_LINE_NANO - top
    }

    /// Position the pending object from a turn's input: map the offset from
    /// `[-1, 1]` (in milli-units) linearly onto the scene's width, record
    /// the new owner and rotation, and hand back the transform to write into
    /// the physics body. A stage with no objects yet has nothing to place.
    pub fn place_pending(
        &mut self,
        user_id: Option<String>,
        offset_milli: i64,
        rotation: RotPair,
    ) -> (cmd: Option<TeleportCmd>)
        requires
            old(self).wf(),
            -1000 <= offset_milli <= 1000,
            rot_wf(rotation),
        ensures
            final(self).wf(),
            final(self).shapes@ == old(self).shapes@,
            final(self).user_icons@ == old(self).user_icons@,
            final(self).objects@ == place_all(
                old(self).objects@,
                user_id,
                offset_milli as int,
                rotation,
            ),
            old(self).objects@.len() == 0 ==> cmd is None,
            old(self).objects@.len() > 0 ==> cmd == Some(
                TeleportCmd {
                    body_handle: (old(self).objects@.len() - 1) as usize,
                    x_milli: offset_to_x_milli(offset_milli as int) as i64,
                    y_milli: old(self).objects@[old(self).objects@.len() - 1].translation.y,
                },
            ),
    {
        let n = self.objects.len();
        if n == 0 {
            return None;
        }
        let mut o = self.objects.pop().unwrap();
        let ghost old_o = old(self).objects@[n - 1];
        let x: i64 = (offset_milli + 1000) * 320;
        o.user_id = user_id;
        o.translation = Point { x, y: o.translation.y };
        o.rotation = rotation;
        let cmd = TeleportCmd { body_handle: o.body_handle, x_milli: x, y_milli: o.translation.y };
        self.objects.push(o);
        proof {
            assert(final(self).objects@ =~= place_all(
                old(self).objects@,
                user_id,
                offset_milli as int,
                rotation,
            ));
            assert(object_wf(old(self).shapes@, old_o, n - 1));
            assert(forall|i: int| 0 <= i < n - 1 ==> final(self).objects@[i] == old(
                self,
            ).objects@[i]);
        }
        Some(cmd)
    }

    /// Synchronize every object's translation and rotation from one step
    /// sample.
    fn sync_from(&mut self, step: &StepSample)
        requires
            old(self).wf(),
            step_wf(*step, old(self).objects@.len() as int),
        ensures
            final(self).wf(),
            final(self).shapes@ == old(self).shapes@,
            final(self).user_icons@ == old(self).user_icons@,
            final(self).objects@ == sync_all(old(self).objects@, step.bodies@),
            objects_sample_bounded(final(self).objects@),
    {
        let n = self.objects.len();
        let mut i: usize = 0;
        while i < n
            invariant
                0 <= i <= n,
                n == self.objects@.len(),
                self.shapes@ == old(self).shapes@,
                self.user_icons@ == old(self).user_icons@,
                old(self).wf(),
                step_wf(*step, n as int),
                forall|j: int| 0 <= j < i ==> self.objects@[j] == synced_object(
                    old(self).objects@[j],
                    step.bodies@[j],
                ),
                forall|j: int| i <= j < n ==> self.objects@[j] == old(self).objects@[j],
            decreases n - i,
        {
            let b = step.bodies[i];
            let ghost before = self.objects@;
            let mut o = self.objects.remove(i);
            o.translation = Point { x: b.x_milli, y: b.y_milli };
            o.rotation = b.rotation;
            let ghost o2 = o;
            self.objects.insert(i, o);
            proof {
                assert(self.objects@ =~= before.update(i as int, o2));
                assert(o2 == synced_object(old(self).objects@[i as int], step.bodies@[i as int]));
            }
            i = i + 1;
        }
        proof {
            assert(self.objects@ =~= sync_all(old(self).objects@, step.bodies@));
            assert forall|j: int| 0 <= j < n implies object_wf(
                self.shapes@,
                #[trigger] self.objects@[j],
                j,
            ) by {
                assert(object_wf(old(self).shapes@, old(self).objects@[j], j));
                assert(sample_wf(step.bodies@[j]));
            }
        }
    }

    /// Whether some object's topmost vertex has sunk past the ground line.
    fn check_any_toppled(&self) -> (r: bool)
        requires
            self.wf(),
        ensures
            r == any_toppled(self.shapes@, self.objects@),
    {
        let n = self.objects.len();
        let mut i: usize = 0;
        while i < n
            invariant
                0 <= i <= n,
                n == self.objects@.len(),
                self.wf(),
                forall|j: int| 0 <= j < i ==> object_top(self.shapes@, #[trigger] self.objects@[j])
                    <= GROUND_LINE_NANO,
            decreases n - i,
        {
            let o = &self.objects[i];
            assert(object_wf(self.shapes@, self.objects@[i as int], i as int));
            let shape = &self.shapes[o.shape_index];
            let t = outline_top_nano(&shape.points, o.rotation, o.translation);
            if t > GROUND_LINE_NANO {
                assert(object_top(self.shapes@, self.objects@[i as int]) > GROUND_LINE_NANO);
                return true;
            }
            i = i + 1;
        }
        false
    }

    /// Append a freshly spawned pending object over the given catalog shape
    /// and hand back the physics body to create for it.
    fn spawn_pending(&mut self, shape_index: usize) -> (cmd: SpawnCmd)
        requires
            old(self).wf(),
            shape_index < old(self).shapes@.len(),
            objects_sample_bounded(old(self).objects@),
        ensures
            final(self).wf(),
            final(self).shapes@ == old(self).shapes@,
            final(self).user_icons@ == old(self).user_icons@,
            final(self).objects@ == old(self).objects@.push(
                fresh_object(old(self).shapes@, old(self).objects@, shape_index as int),
            ),
            cmd == (SpawnCmd {
                body_handle: old(self).objects@.len() as usize,
                shape_index,
                x_milli: 320_000,
                y_milli: spawn_y_spec(
                    old(self).shapes@,
                    old(self).objects@,
                    shape_index as int,
                ) as i64,
            }),
    {
        proof {
            lemma_stage_top_bounds(
                self.shapes@,
                self.objects@,
                self.objects@.len() as int,
                SAMPLE_POS_LIMIT as int,
            );
        }
        let top_nano_v = self.get_stage_top();
        let top_milli = nano_to_milli_floor(top_nano_v);
        proof {
            vstd::arithmetic::div_mod::lemma_div_is_ordered(
                -1_002_000_000_000_000,
                top_nano_v as int,
                1_000_000,
            );
            vstd::arithmetic::div_mod::lemma_div_is_ordered(
                top_nano_v as int,
                GROUND_LINE_NANO as int,
                1_000_000,
            );
        }
        let shape = &self.shapes[shape_index];
        let radius = outline_radius_milli(&shape.points);
        let y: i64 = top_milli - radius - SPAWN_CLEARANCE_MILLI;
        let handle = self.objects.len();
        let o = Object {
            user_id: None,
            shape_index,
            translation: Point { x: 320_000, y },
            rotation: RotPair { cos_micro: TRIG_ONE, sin_micro: 0 },
            body_handle: handle,
        };
        self.objects.push(o);
        proof {
            assert(final(self).objects@ =~= old(self).objects@.push(
                fresh_object(old(self).shapes@, old(self).objects@, shape_index as int),
            ));
        }
        SpawnCmd { body_handle: handle, shape_index, x_milli: 320_000, y_milli: y }
    }

    /// Run a placed turn to its outcome against the physics capability's
    /// step trace: synchronize from each step in order, classify the first
    /// decisive state, score the stack, and on success spawn the next
    /// pending object over a uniformly chosen catalog shape. Returns the
    /// outcome, the stack height in nano-pixels, and the body to create for
    /// a spawned object.
    pub fn resolve_turn(&mut self, trace: &Vec<StepSample>) -> (res: (
        TurnResult,
        i64,
        Option<SpawnCmd>,
    ))
        requires
            old(self).wf(),
            trace@.len() == MAX_STEPS,
            trace_wf(trace@, old(self).objects@.len() as int),
        ensures
            final(self).wf(),
            final(self).user_icons@ == old(self).user_icons@,
            turn_transition(old(self).shapes@, old(self).objects@, *final(self), trace@, res),
    {
        let ghost shapes = self.shapes@;
        let ghost orig = self.objects@;
        let n = trace.len();
        let mut k: usize = 0;
        let mut verdict: Option<TurnResult> = None;
        proof {
            assert(trace@.skip(0) =~= trace@);
        }
        while k < n && verdict.is_none()
            invariant
                0 <= k <= n,
                n == trace@.len(),
                n == MAX_STEPS,
                self.wf(),
                self.shapes@ == shapes,
                self.user_icons@ == old(self).user_icons@,
                self.objects@.len() == orig.len(),
                trace_wf(trace@, orig.len() as int),
                verdict is None ==> run_spec(shapes, self.objects@, trace@.skip(k as int))
                    == run_spec(shapes, orig, trace@),
                verdict is None && k > 0 ==> objects_sample_bounded(self.objects@),
                verdict matches Some(v) ==> (v, self.objects@) == run_spec(shapes, orig, trace@)
                    && objects_sample_bounded(self.objects@),
            decreases n - k,
        {
            let step = &trace[k];
            assert(step_wf(trace@[k as int], orig.len() as int));
            let ghost pre = self.objects@;
            self.sync_from(step);
            proof {
                let sk = trace@.skip(k as int);
                assert(sk.len() > 0);
                assert(sk[0] == trace@[k as int]);
                assert(sk.drop_first() =~= trace@.skip(k as int + 1));
                assert(run_spec(shapes, pre, sk) == if any_toppled(
                    shapes,
                    sync_all(pre, trace@[k as int].bodies@),
                ) {
                    (TurnResult::Failure, sync_all(pre, trace@[k as int].bodies@))
                } else if all_asleep(trace@[k as int].bodies@) {
                    (TurnResult::Success, sync_all(pre, trace@[k as int].bodies@))
                } else {
                    run_spec(
                        shapes,
                        sync_all(pre, trace@[k as int].bodies@),
                        trace@.skip(k as int + 1),
                    )
                });
            }
            if self.check_any_toppled() {
                verdict = Some(TurnResult::Failure);
            } else if check_all_asleep(step) {
                verdict = Some(TurnResult::Success);
            }
            k = k + 1;
        }
        let result: TurnResult = match verdict {
            Some(v) => v,
            None => {
                proof {
                    assert(trace@.skip(n as int).len() == 0);
                }
                TurnResult::Timeout
            },
        };
        proof {
            assert((result, self.objects@) == run_spec(shapes, orig, trace@));
            assert(objects_sample_bounded(self.objects@));
        }
        let height = self.get_stage_height();
        if result == TurnResult::Success {
            let si = random_below(self.shapes.len());
            let cmd = self.spawn_pending(si);
            (result, height, Some(cmd))
        } else {
            (result, height, None)
        }
    }

    /// One whole turn: position the pending object from the input, run to
    /// convergence against the step trace, score, and on success spawn the
    /// next pending object.
    pub fn next_turn(
        &mut self,
        user_id: Option<String>,
        offset_milli: i64,
        rotation: RotPair,
        trace: &Vec<StepSample>,
    ) -> (res: (TurnResult, i64, Option<SpawnCmd>))
        requires
            old(self).wf(),
            -1000 <= offset_milli <= 1000,
            rot_wf(rotation),
            trace@.len() == MAX_STEPS,
            trace_wf(trace@, old(self).objects@.len() as int),
        ensures
            final(self).wf(),
            final(self).user_icons@ == old(self).user_icons@,
            turn_transition(
                old(self).shapes@,
                place_all(old(self).objects@, user_id, offset_milli as int, rotation),
                *final(self),
                trace@,
                res,
            ),
    {
        self.place_pending(user_id, offset_milli, rotation);
        self.resolve_turn(trace)
    }
}

/// Whether `after` together with the returned triple is the outcome the turn
/// algorithm prescribes for a stage holding `shapes` and `objs0` under the
/// given step trace: the outcome and surviving object list come from the
/// convergence walk, the height scores the walked state before any spawn,
/// and exactly a success appends one fresh, uniformly chosen pending object.
pub open spec fn turn_transition(
    shapes: Seq<Shape>,
    objs0: Seq<Object>,
    after: Stage,
    trace: Seq<StepSample>,
    res: (TurnResult, i64, Option<SpawnCmd>),
) -> bool {
    let rs = run_spec(shapes, objs0, trace);
    &&& after.shapes@ == shapes
    &&& res.0 == rs.0
    &&& res.1 == stack_height_spec(shapes, rs.1)
    &&& res.1 >= 0
    &&& (res.0 == TurnResult::Success ==> exists|si: int|
        0 <= si < shapes.len() && after.objects@ == rs.1.push(fresh_object(shapes, rs.1, si))
            && res.2 == Some(
            SpawnCmd {
                body_handle: rs.1.len() as usize,
                shape_index: si as usize,
                x_milli: 320_000,
                y_milli: spawn_y_spec(shapes, rs.1, si) as i64,
            },
        ))
    &&& (res.0 != TurnResult::Success ==> after.objects@ == rs.1 && res.2 is None)
}

/// Whether an icon is stored for the given participant.
pub open spec fn has_icon_spec(icons: Seq<IconEntry>, id: Seq<char>) -> bool {
    exists|i: int| 0 <= i < icons.len() && (#[trigger] icons[i]).user_id@ == id
}

/// The object stack after synchronizing from the first `k` steps of a trace,
/// in order.
pub open spec fn state_after(objs: Seq<Object>, trace: Seq<StepSample>, k: int) -> Seq<Object>
    decreases k,
{
    if k <= 0 {
        objs
    } else {
        sync_all(state_after(objs, trace, k - 1), trace[k - 1].bodies@)
    }
}

/// Whether the convergence walk stops at step `k`: after synchronizing from
/// that step, the stack has toppled or every body is at rest.
pub open spec fn decided_at(
    shapes: Seq<Shape>,
    objs: Seq<Object>,
    trace: Seq<StepSample>,
    k: int,
) -> bool {
    any_toppled(shapes, state_after(objs, trace, k + 1)) || all_asleep(trace[k].bodies@)
}

proof fn lemma_state_after_shift(
    objs: Seq<Object>,
    trace: Seq<StepSample>,
    m: int,
)
    requires
        trace.len() >= 1,
        0 <= m <= trace.len() - 1,
    ensures
        state_after(sync_all(objs, trace[0].bodies@), trace.drop_first(), m) == state_after(
            objs,
            trace,
            m + 1,
        ),
    decreases m,
{
    let objs2 = sync_all(objs, trace[0].bodies@);
    if m == 0 {
        assert(state_after(objs2, trace.drop_first(), 0) == objs2);
        assert(state_after(objs, trace, 0) == objs);
        assert(state_after(objs, trace, 1) == sync_all(objs, trace[0].bodies@));
    } else {
        lemma_state_after_shift(objs, trace, m - 1);
        assert(trace.drop_first()[m - 1] == trace[m]);
        assert(state_after(objs2, trace.drop_first(), m) == sync_all(
            state_after(objs2, trace.drop_first(), m - 1),
            trace.drop_first()[m - 1].bodies@,
        ));
        assert(state_after(objs, trace, m + 1) == sync_all(
            state_after(objs, trace, m),
            trace[m].bodies@,
        ));
    }
}

/// Convergence exhaustiveness: walking any finite step trace always ends in
/// exactly one of the three outcomes — a success or failure at the first
/// decisive step, and a timeout exactly when no step of the bounded trace is
/// decisive.
pub proof fn lemma_convergence_exhaustive(
    shapes: Seq<Shape>,
    objs: Seq<Object>,
    trace: Seq<StepSample>,
)
    ensures
        run_spec(shapes, objs, trace).0 == TurnResult::Success || run_spec(
            shapes,
            objs,
            trace,
        ).0 == TurnResult::Failure || run_spec(shapes, objs, trace).0 == TurnResult::Timeout,
        run_spec(shapes, objs, trace).0 == TurnResult::Timeout <==> forall|k: int|
            0 <= k < trace.len() ==> !decided_at(shapes, objs, trace, k),
    decreases trace.len(),
{
    if trace.len() == 0 {
    } else {
        let objs2 = sync_all(objs, trace[0].bodies@);
        assert(state_after(objs, trace, 0) == objs);
        assert(state_after(objs, trace, 1) == objs2);
        if any_toppled(shapes, objs2) {
            assert(decided_at(shapes, objs, trace, 0));
        } else if all_asleep(trace[0].bodies@) {
            assert(decided_at(shapes, objs, trace, 0));
        } else {
            lemma_convergence_exhaustive(shapes, objs2, trace.drop_first());
            assert forall|k: int| 0 <= k < trace.drop_first().len() implies decided_at(
                shapes,
                objs2,
                trace.drop_first(),
                k,
            ) == decided_at(shapes, objs, trace, k + 1) by {
                lemma_state_after_shift(objs, trace, k + 1);
                assert(trace.drop_first()[k] == trace[k + 1]);
            }
            assert(!decided_at(shapes, objs, trace, 0));
            if run_spec(shapes, objs, trace).0 == TurnResult::Timeout {
                assert forall|k: int| 0 <= k < trace.len() implies !decided_at(
                    shapes,
                    objs,
                    trace,
                    k,
                ) by {
                    if k > 0 {
                        assert(!decided_at(shapes, objs2, trace.drop_first(), k - 1));
                    }
                }
            }
        }
    }
}

/// The stack's capped topmost height never lies below the ground line's cap.
pub proof fn lemma_stage_top_le_ground(shapes: Seq<Shape>, objs: Seq<Object>, k: int)
    ensures
        stage_top_prefix(shapes, objs, k) <= GROUND_LINE_NANO,
    decreases k,
{
    if k > 0 {
        lemma_stage_top_le_ground(shapes, objs, k - 1);
    }
}

/// Height law, first half: the scored stack height is never negative.
pub proof fn lemma_height_nonneg(shapes: Seq<Shape>, objs: Seq<Object>)
    ensures
        stack_height_spec(shapes, objs) >= 0,
{
    lemma_stage_top_le_ground(shapes, objs, objs.len() as int);
}

proof fn lemma_stage_top_prefix_agree(shapes: Seq<Shape>, a: Seq<Object>, b: Seq<Object>, k: int)
    requires
        0 <= k,
        forall|i: int| 0 <= i < k ==> a[i] == b[i],
    ensures
        stage_top_prefix(shapes, a, k) == stage_top_prefix(shapes, b, k),
    decreases k,
{
    if k > 0 {
        lemma_stage_top_prefix_agree(shapes, a, b, k - 1);
    }
}

/// Height law, second half: the stack only grows upward on success — adding
/// an object to the stack never lowers the scored height, whatever the new
/// object's placement.
pub proof fn lemma_height_monotone_push(shapes: Seq<Shape>, objs: Seq<Object>, o: Object)
    ensures
        stack_height_spec(shapes, objs.push(o)) >= stack_height_spec(shapes, objs),
{
    let b = objs.push(o);
    lemma_stage_top_prefix_agree(shapes, objs, b, objs.len() as int);
    assert(stage_top_prefix(shapes, b, b.len() as int) <= stage_top_prefix(
        shapes,
        b,
        objs.len() as int,
    ));
}

/// Idempotent bootstrap law: a fresh stage's first turn, walked over any
/// step trace, succeeds at the first step — an empty stack can neither
/// topple nor stay in motion — and the walk leaves the stack empty until the
/// success spawns the game's first pending object.
pub proof fn lemma_bootstrap_succeeds(shapes: Seq<Shape>, trace: Seq<StepSample>)
    requires
        trace.len() >= 1,
        trace[0].bodies@.len() == 0,
    ensures
        run_spec(shapes, Seq::<Object>::empty(), trace).0 == TurnResult::Success,
        run_spec(shapes, Seq::<Object>::empty(), trace).1.len() == 0,
{
    let objs = Seq::<Object>::empty();
    let objs2 = sync_all(objs, trace[0].bodies@);
    assert(objs2.len() == 0);
    assert(!any_toppled(shapes, objs2));
    assert(all_asleep(trace[0].bodies@));
}

/// Whether the simulation reports every body of a step at rest.
fn check_all_asleep(step: &StepSample) -> (r: bool)
    ensures
        r == all_asleep(step.bodies@),
{
    let n = step.bodies.len();
    let mut i: usize = 0;
    while i < n
        invariant
            0 <= i <= n,
            n == step.bodies@.len(),
            forall|j: int| 0 <= j < i ==> (#[trigger] step.bodies@[j]).asleep,
        decreases n - i,
    {
        if !step.bodies[i].asleep {
            return false;
        }
        i = i + 1;
    }
    true
}

} // verus!
