//! Fixed-point planar geometry for the stage.
//!
//! Scene coordinates are milli-pixels (`1000` per pixel, y growing downward).
//! Rotations are unit vectors scaled by `TRIG_ONE` (a millionth each for the
//! cosine and sine components). Vertex heights combine the two scales and are
//! therefore measured in nano-pixels.

use vstd::prelude::*;

verus! {

/// Scale of the rotation components: a unit vector times one million.
pub const TRIG_ONE: i64 = 1_000_000;

/// Bound on a shape outline coordinate, in milli-pixels (1000 pixels).
pub const SHAPE_COORD_LIMIT: i64 = 1_000_000;

/// Bound on a position reported by the physics capability, in milli-pixels.
pub const SAMPLE_POS_LIMIT: i64 = 1_000_000_000;

/// Bound on a stored object position, in milli-pixels. Slightly wider than
/// `SAMPLE_POS_LIMIT` so that a spawn placed relative to a sampled stack top
/// stays within bounds.
pub const OBJECT_POS_LIMIT: i64 = 1_100_000_000;

/// A point or translation in scene coordinates, in milli-pixels.
#[derive(Clone, Copy, PartialEq, Eq, Structural, Debug)]
pub struct Point {
    pub x: i64,
    pub y: i64,
}

/// A rotation, stored as the cosine and sine of the angle, each scaled by
/// `TRIG_ONE`.
#[derive(Clone, Copy, PartialEq, Eq, Structural, Debug)]
pub struct RotPair {
    pub cos_micro: i64,
    pub sin_micro: i64,
}

/// A closed polygon outline in object-local coordinates, fixed at load time.
#[derive(Clone, Debug)]
pub struct Shape {
    pub points: Vec<Point>,
}

pub open spec fn rot_wf(r: RotPair) -> bool {
    &&& -TRIG_ONE <= r.cos_micro <= TRIG_ONE
    &&& -TRIG_ONE <= r.sin_micro <= TRIG_ONE
}

pub open spec fn shape_point_wf(p: Point) -> bool {
    &&& -SHAPE_COORD_LIMIT <= p.x <= SHAPE_COORD_LIMIT
    &&& -SHAPE_COORD_LIMIT <= p.y <= SHAPE_COORD_LIMIT
}

pub open spec fn shape_wf(s: Shape) -> bool {
    forall|i: int| 0 <= i < s.points@.len() ==> shape_point_wf(s.points@[i])
}

pub open spec fn pos_wf(p: Point) -> bool {
    &&& -OBJECT_POS_LIMIT <= p.x <= OBJECT_POS_LIMIT
    &&& -OBJECT_POS_LIMIT <= p.y <= OBJECT_POS_LIMIT
}

/// The identity rotation.
pub open spec fn rot_zero() -> RotPair {
    RotPair { cos_micro: TRIG_ONE, sin_micro: 0 }
}

/// Scene height (y, growing downward) of one outline vertex after rotating
/// the outline and translating it to `pos`, in nano-pixels.
pub open spec fn vertex_y_nano(p: Point, rot: RotPair, pos: Point) -> int {
    p.x * rot.sin_micro + p.y * rot.cos_micro + pos.y * TRIG_ONE
}

/// Minimum vertex height (the topmost scene point, since y grows downward)
/// over the first `k` outline vertices; `i64::MAX` when `k` is zero.
pub open spec fn top_prefix(points: Seq<Point>, rot: RotPair, pos: Point, k: int) -> int
    decreases k,
{
    if k <= 0 {
        i64::MAX as int
    } else {
        let rest = top_prefix(points, rot, pos, k - 1);
        let v = vertex_y_nano(points[k - 1], rot, pos);
        if v < rest {
            v
        } else {
            rest
        }
    }
}

/// Minimum vertex height of a whole outline placed at `pos` with rotation
/// `rot`, in nano-pixels; `i64::MAX` for an empty outline.
pub open spec fn top_nano(points: Seq<Point>, rot: RotPair, pos: Point) -> int {
    top_prefix(points, rot, pos, points.len() as int)
}

proof fn lemma_vertex_y_bounds(p: Point, rot: RotPair, pos: Point)
    requires
        shape_point_wf(p),
        rot_wf(rot),
        pos_wf(pos),
    ensures
        -3_000_000_000_000_000 <= vertex_y_nano(p, rot, pos) <= 3_000_000_000_000_000,
        -1_000_000_000_000 <= p.x * rot.sin_micro <= 1_000_000_000_000,
        -1_000_000_000_000 <= p.y * rot.cos_micro <= 1_000_000_000_000,
        -1_100_000_000_000_000 <= pos.y * TRIG_ONE <= 1_100_000_000_000_000,
{
    assert(p.x * rot.sin_micro <= 1_000_000_000_000 && p.x * rot.sin_micro >= -1_000_000_000_000)
        by (nonlinear_arith)
        requires
            -SHAPE_COORD_LIMIT <= p.x <= SHAPE_COORD_LIMIT,
            -TRIG_ONE <= rot.sin_micro <= TRIG_ONE,
    ;
    assert(p.y * rot.cos_micro <= 1_000_000_000_000 && p.y * rot.cos_micro >= -1_000_000_000_000)
        by (nonlinear_arith)
        requires
            -SHAPE_COORD_LIMIT <= p.y <= SHAPE_COORD_LIMIT,
            -TRIG_ONE <= rot.cos_micro <= TRIG_ONE,
    ;
    assert(pos.y * TRIG_ONE <= 1_100_000_000_000_000 && pos.y * TRIG_ONE
        >= -1_100_000_000_000_000) by (nonlinear_arith)
        requires
            -OBJECT_POS_LIMIT <= pos.y <= OBJECT_POS_LIMIT,
    ;
}

/// Topmost scene height of an outline placed with the given rotation and
/// translation: the minimum, over its vertices, of the rotated and translated
/// vertex height, in nano-pixels.
pub fn outline_top_nano(points: &Vec<Point>, rot: RotPair, pos: Point) -> (r: i64)
    requires
        forall|i: int| 0 <= i < points@.len() ==> shape_point_wf(points@[i]),
        rot_wf(rot),
        pos_wf(pos),
    ensures
        r == top_nano(points@, rot, pos),
{
    let mut best: i64 = i64::MAX;
    let n = points.len();
    let mut i: usize = 0;
    while i < n
        invariant
            0 <= i <= n,
            n == points@.len(),
            forall|j: int| 0 <= j < points@.len() ==> shape_point_wf(points@[j]),
            rot_wf(rot),
            pos_wf(pos),
            best == top_prefix(points@, rot, pos, i as int),
        decreases n - i,
    {
        let p = points[i];
        proof {
            lemma_vertex_y_bounds(p, rot, pos);
        }
        let v: i64 = p.x * rot.sin_micro + p.y * rot.cos_micro + pos.y * TRIG_ONE;
        if v < best {
            best = v;
        }
        i = i + 1;
    }
    best
}

/// Squared distance of an outline vertex from the object's origin, in squared
/// milli-pixels.
pub open spec fn sq_norm(p: Point) -> int {
    p.x * p.x + p.y * p.y
}

/// Maximum squared vertex distance over the first `k` vertices; zero when `k`
/// is zero.
pub open spec fn max_sq_prefix(points: Seq<Point>, k: int) -> int
    decreases k,
{
    if k <= 0 {
        0
    } else {
        let rest = max_sq_prefix(points, k - 1);
        let v = sq_norm(points[k - 1]);
        if v > rest {
            v
        } else {
            rest
        }
    }
}

/// Maximum squared vertex distance of a whole outline.
pub open spec fn max_sq(points: Seq<Point>) -> int {
    max_sq_prefix(points, points.len() as int)
}

/// Floor of the square root of a natural number.
pub open spec fn floor_sqrt(n: nat) -> nat
    decreases n,
{
    if n == 0 {
        0
    } else {
        let r = floor_sqrt((n - 1) as nat);
        if (r + 1) * (r + 1) <= n {
            r + 1
        } else {
            r
        }
    }
}

/// `floor_sqrt` is the floor of the square root: its square is at most `n`
/// and the next square is beyond `n`.
pub proof fn lemma_floor_sqrt_bounds(n: nat)
    ensures
        floor_sqrt(n) * floor_sqrt(n) <= n,
        n < (floor_sqrt(n) + 1) * (floor_sqrt(n) + 1),
    decreases n,
{
    let f = floor_sqrt(n);
    if n == 0 {
        assert(f == 0);
        assert(f * f <= n && n < (f + 1) * (f + 1)) by (nonlinear_arith)
            requires
                n == 0,
                f == 0,
        ;
    } else {
        lemma_floor_sqrt_bounds((n - 1) as nat);
        let r = floor_sqrt((n - 1) as nat);
        assert(r * r <= n - 1 && n - 1 < (r + 1) * (r + 1));
        if (r + 1) * (r + 1) <= n {
            assert(f == r + 1);
            assert(n == (r + 1) * (r + 1));
            assert((r + 2) * (r + 2) > (r + 1) * (r + 1)) by (nonlinear_arith)
                requires
                    r >= 0,
            ;
            assert(f * f <= n);
            assert(n < (f + 1) * (f + 1));
        } else {
            assert(f == r);
            assert(f * f <= n);
            assert(n < (f + 1) * (f + 1));
        }
    }
}

/// A natural number bracketed by `r * r` and `(r + 1) * (r + 1)` pins `r`
/// down as the floor square root.
pub proof fn lemma_floor_sqrt_unique(n: nat, r: nat)
    requires
        r * r <= n,
        n < (r + 1) * (r + 1),
    ensures
        r == floor_sqrt(n),
{
    lemma_floor_sqrt_bounds(n);
    let f = floor_sqrt(n);
    if r < f {
        assert((r + 1) * (r + 1) <= f * f) by (nonlinear_arith)
            requires
                r + 1 <= f,
        ;
    }
    if f < r {
        assert((f + 1) * (f + 1) <= r * r) by (nonlinear_arith)
            requires
                f + 1 <= r,
        ;
    }
}

/// Floor integer square root by bisection.
pub fn isqrt(n: u64) -> (r: u64)
    requires
        n <= 4_000_000_000_000,
    ensures
        r == floor_sqrt(n as nat),
        r <= 2_000_000,
{
    let mut lo: u64 = 0;
    let mut hi: u64 = 2_000_001;
    assert(hi * hi > n) by (nonlinear_arith)
        requires
            n <= 4_000_000_000_000,
            hi == 2_000_001,
    ;
    while lo + 1 < hi
        invariant
            lo < hi <= 2_000_001,
            lo * lo <= n,
            n < hi * hi,
        decreases hi - lo,
    {
        let mid = lo + (hi - lo) / 2;
        assert(lo <= mid < hi);
        assert(mid * mid <= 4_100_000_000_000) by (nonlinear_arith)
            requires
                0 <= mid <= 2_000_001,
        ;
        if mid * mid <= n {
            lo = mid;
        } else {
            hi = mid;
        }
    }
    proof {
        lemma_floor_sqrt_unique(n as nat, lo as nat);
    }
    lo
}

/// Bounding radius of an outline: the floor square root of the maximum
/// squared vertex distance, in milli-pixels.
pub fn outline_radius_milli(points: &Vec<Point>) -> (r: i64)
    requires
        forall|i: int| 0 <= i < points@.len() ==> shape_point_wf(points@[i]),
    ensures
        r == floor_sqrt(max_sq(points@) as nat),
        0 <= r <= 2_000_000,
{
    let mut best: u64 = 0;
    let n = points.len();
    let mut i: usize = 0;
    while i < n
        invariant
            0 <= i <= n,
            n == points@.len(),
            forall|j: int| 0 <= j < points@.len() ==> shape_point_wf(points@[j]),
            best == max_sq_prefix(points@, i as int),
            best <= 2_000_000_000_000,
        decreases n - i,
    {
        let p = points[i];
        assert(p.x * p.x <= 1_000_000_000_000 && p.x * p.x >= 0) by (nonlinear_arith)
            requires
                -SHAPE_COORD_LIMIT <= p.x <= SHAPE_COORD_LIMIT,
        ;
        assert(p.y * p.y <= 1_000_000_000_000 && p.y * p.y >= 0) by (nonlinear_arith)
            requires
                -SHAPE_COORD_LIMIT <= p.y <= SHAPE_COORD_LIMIT,
        ;
        let v: u64 = ((p.x * p.x) as u64) + ((p.y * p.y) as u64);
        if v > best {
            best = v;
        }
        i = i + 1;
    }
    let root = isqrt(best);
    root as i64
}

/// Floor division of a nano-pixel quantity by one million, yielding
/// milli-pixels.
pub fn nano_to_milli_floor(a: i64) -> (q: i64)
    requires
        -4_000_000_000_000_000 <= a <= 4_000_000_000_000_000,
    ensures
        q == (a as int) / 1_000_000,
{
    if a >= 0 {
        let q = ((a as u64) / 1_000_000u64) as i64;
        q
    } else {
        let m: u64 = (-a) as u64;
        let qq: u64 = (m + 999_999) / 1_000_000;
        let q = -(qq as i64);
        proof {
            let d = 1_000_000int;
            let mm = m as int;
            let k = (mm + d - 1) / d;
            assert(k * d >= mm && (k - 1) * d < mm) by (nonlinear_arith)
                requires
                    d == 1_000_000,
                    mm >= 0,
                    k == (mm + d - 1) / d,
            ;
            assert((-k) * d <= -mm && -mm < (-k + 1) * d) by (nonlinear_arith)
                requires
                    k * d >= mm,
                    (k - 1) * d < mm,
                    d == 1_000_000,
            ;
            assert(-k == (-mm) / d) by (nonlinear_arith)
                requires
                    (-k) * d <= -mm,
                    -mm < (-k + 1) * d,
                    d == 1_000_000,
            ;
        }
        q
    }
}

} // verus!
