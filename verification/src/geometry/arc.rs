//! Circular arcs and their tessellation into chords.

use vstd::prelude::*;
use crate::error::KernelError;
use crate::fixed::{Scalar, fx_neg, magnitude, saturate};
use crate::vector::{
    Vec3, V3, v3_add, v3_sub, v3_neg, v3_dot, v3_cross, v3_norm, v3_unit, DEGENERATE_NORM,
};
use crate::rotation::{Rotation, Turn, turn_fraction, turn_about};
use crate::geometry::PolyLine;
use crate::geometry::line::{Line, TwoPointLine};

verus! {

/// How far, in raw units, the ends of an arc may lie from its circle.
pub const RADIUS_TOLERANCE: i64 = 0x1_0000;

/// The sense in which an arc runs from its start to its end, looking
/// along the axis `(start - center) x (end - center)`: clockwise is the
/// short way round, counter-clockwise the long way.
#[derive(Clone, Copy, Debug, PartialEq, Eq, Structural)]
pub enum ArcDirection {
    CW,
    CCW,
}

/// An arc of the circle about `center`, from `start` to `end`.
#[derive(Clone, Copy, Debug, PartialEq, Eq, Structural)]
pub struct Arc {
    pub radius: Scalar,
    pub start: Vec3,
    pub end: Vec3,
    pub center: Vec3,
    pub direction: ArcDirection,
}

/// Whether `p` lies on the circle about `center`, up to `RADIUS_TOLERANCE`.
pub open spec fn on_circle(p: V3, center: V3, radius: int) -> bool {
    magnitude(v3_norm(v3_sub(p, center)) - radius) <= RADIUS_TOLERANCE
}

/// Whether the data describe an arc: a positive radius, both ends on the
/// circle, and two ends that differ.
pub open spec fn arc_data_valid(radius: int, start: V3, end: V3, center: V3) -> bool {
    &&& radius > 0
    &&& on_circle(start, center, radius)
    &&& on_circle(end, center, radius)
    &&& start != end
}

/// The axis about which an arc turns, and the rotation that takes its
/// start to its end.
pub struct ArcFrame {
    pub axis: V3,
    pub sweep: Turn,
}

/// The frame of the arc from `start` to `end` about `center`. There is none
/// where an end coincides with the centre, or where the two ends and the
/// centre lie on one line.
pub open spec fn arc_frame(center: V3, start: V3, end: V3, clockwise: bool) -> Option<ArcFrame> {
    let s = v3_sub(start, center);
    let e = v3_sub(end, center);
    if v3_norm(s) < DEGENERATE_NORM || v3_norm(e) < DEGENERATE_NORM {
        None
    } else {
        let k = v3_cross(v3_unit(s), v3_unit(e));
        if v3_norm(k) < DEGENERATE_NORM {
            None
        } else if clockwise {
            Some(
                ArcFrame {
                    axis: v3_unit(k),
                    sweep: Turn { cos: v3_dot(v3_unit(s), v3_unit(e)), sin: saturate(v3_norm(k)) },
                },
            )
        } else {
            Some(
                ArcFrame {
                    axis: v3_neg(v3_unit(k)),
                    sweep: Turn {
                        cos: v3_dot(v3_unit(s), v3_unit(e)),
                        sin: fx_neg(saturate(v3_norm(k))),
                    },
                },
            )
        }
    }
}

/// The `k`-th point of a tessellation: the start, turned `k` times about
/// the centre by `step`.
pub open spec fn arc_point(center: V3, start: V3, axis: V3, step: Turn, k: nat) -> V3
    decreases k,
{
    if k == 0 {
        start
    } else {
        v3_add(
            center,
            turn_about(
                v3_sub(arc_point(center, start, axis, step, (k - 1) as nat), center),
                axis,
                step,
            ),
        )
    }
}

/// The two ends of a line in two-point form.
pub open spec fn chord_ends(l: Line) -> (V3, V3) {
    match l {
        Line::TwoPoint(t) => (t.a@, t.b@),
        _ => arbitrary(),
    }
}

impl Arc {
    /// Whether the arc is well formed.
    pub open spec fn wf(&self) -> bool {
        arc_data_valid(self.radius@, self.start@, self.end@, self.center@)
    }

    /// The frame of the arc.
    pub open spec fn frame(&self) -> Option<ArcFrame> {
        arc_frame(self.center@, self.start@, self.end@, self.direction == ArcDirection::CW)
    }

    /// The rotation of one step of a tessellation into `n` chords.
    pub open spec fn step(&self, n: int) -> Turn {
        turn_fraction(self.frame()->Some_0.sweep, n)
    }

    /// The `k`-th point of the tessellation into `n` chords: the start
    /// turned `k` times, and for `k = n` the end itself.
    pub open spec fn chord_point(&self, n: int, k: int) -> V3 {
        if k == n {
            self.end@
        } else {
            arc_point(self.center@, self.start@, self.frame()->Some_0.axis, self.step(n), k as nat)
        }
    }

    /// The arc with the given data. Refused where the radius is not
    /// positive, where an end does not lie on the circle, or where the two
    /// ends coincide.
    pub fn new(radius: Scalar, start: Vec3, end: Vec3, center: Vec3, direction: ArcDirection) -> (r:
        Result<Arc, KernelError>)
        ensures
            !arc_data_valid(radius@, start@, end@, center@) ==> r == Err::<Arc, KernelError>(
                KernelError::DegenerateInput,
            ),
            arc_data_valid(radius@, start@, end@, center@) ==> r == Ok::<Arc, KernelError>(
                Arc { radius, start, end, center, direction },
            ),
    {
        if radius.raw <= 0 {
            return Err(KernelError::DegenerateInput);
        }
        if !lies_on_circle(start, center, radius) || !lies_on_circle(end, center, radius) {
            return Err(KernelError::DegenerateInput);
        }
        if start.x.raw == end.x.raw && start.y.raw == end.y.raw && start.z.raw == end.z.raw {
            return Err(KernelError::DegenerateInput);
        }
        Ok(Arc { radius, start, end, center, direction })
    }

    /// The axis and the sweep of the arc.
    fn compute_frame(&self) -> (r: Option<(Vec3, Rotation)>)
        ensures
            r is Some <==> self.frame() is Some,
            r is Some ==> r->Some_0.0@ == self.frame()->Some_0.axis && r->Some_0.1@
                == self.frame()->Some_0.sweep,
    {
        let s = self.start.sub(self.center);
        let e = self.end.sub(self.center);
        match s.normalize() {
            None => None,
            Some(su) => match e.normalize() {
                None => None,
                Some(eu) => {
                    let k = su.cross(eu);
                    match k.normalize() {
                        None => None,
                        Some(ku) => {
                            let cos = su.dot(eu);
                            let sin = k.length();
                            match self.direction {
                                ArcDirection::CW => Some((ku, Rotation { cos, sin })),
                                ArcDirection::CCW => Some(
                                    (ku.neg(), Rotation { cos, sin: sin.neg() }),
                                ),
                            }
                        },
                    }
                },
            },
        }
    }

    /// The arc as `segments` chords. The first chord starts at the start of
    /// the arc, every chord starts where the one before it ends, and the
    /// last chord ends at the end of the arc. The points between are the
    /// start turned about the centre, once more for every chord.
    pub fn to_lines(&self, segments: u32) -> (r: Result<Vec<Line>, KernelError>)
        ensures
            segments == 0 ==> r == Err::<Vec<Line>, KernelError>(KernelError::InvalidArgument),
            segments >= 1 && self.frame() is None ==> r == Err::<Vec<Line>, KernelError>(
                KernelError::DegenerateInput,
            ),
            segments >= 1 && self.frame() is Some ==> r is Ok && r->Ok_0@.len() == segments,
            r is Ok ==> forall|k: int|
                0 <= k < segments ==> #[trigger] r->Ok_0@[k] is TwoPoint && chord_ends(r->Ok_0@[k])
                    == (self.chord_point(segments as int, k), self.chord_point(segments as int, k + 1)),
            r is Ok ==> chord_ends(r->Ok_0@[0]).0 == self.start@,
            r is Ok ==> chord_ends(r->Ok_0@[segments - 1]).1 == self.end@,
            r is Ok ==> forall|k: int|
                0 <= k < segments - 1 ==> chord_ends(#[trigger] r->Ok_0@[k]).1 == chord_ends(
                    r->Ok_0@[k + 1],
                ).0,
    {
        if segments == 0 {
            return Err(KernelError::InvalidArgument);
        }
        let (axis, sweep) = match self.compute_frame() {
            None => {
                return Err(KernelError::DegenerateInput);
            },
            Some(frame) => frame,
        };
        let step = sweep.fraction(segments);
        let mut out: Vec<Line> = Vec::new();
        let mut p = self.start;
        let mut k: u32 = 0;
        while k < segments
            invariant
                k <= segments,
                segments >= 1,
                self.frame() is Some,
                axis@ == self.frame()->Some_0.axis,
                step@ == self.step(segments as int),
                out@.len() == k,
                p@ == self.chord_point(segments as int, k as int),
                forall|j: int|
                    0 <= j < k ==> #[trigger] out@[j] is TwoPoint && chord_ends(out@[j]) == (
                        self.chord_point(segments as int, j),
                        self.chord_point(segments as int, j + 1),
                    ),
            decreases segments - k,
        {
            let b = if k + 1 == segments {
                self.end
            } else {
                self.center.add(step.turn(p.sub(self.center), axis))
            };
            out.push(Line::TwoPoint(TwoPointLine::new(p, b)));
            p = b;
            k = k + 1;
        }
        Ok(out)
    }

    /// The arc as a chain of `segments` chords.
    pub fn to_polyline(&self, segments: u32) -> (r: Result<PolyLine, KernelError>)
        ensures
            segments == 0 ==> r == Err::<PolyLine, KernelError>(KernelError::InvalidArgument),
            segments >= 1 && self.frame() is None ==> r == Err::<PolyLine, KernelError>(
                KernelError::DegenerateInput,
            ),
            segments >= 1 && self.frame() is Some ==> r is Ok && r->Ok_0.lines@.len() == segments,
            r is Ok ==> forall|k: int|
                0 <= k < segments ==> #[trigger] r->Ok_0.lines@[k] is TwoPoint && chord_ends(
                    r->Ok_0.lines@[k],
                ) == (self.chord_point(segments as int, k), self.chord_point(segments as int, k + 1)),
    {
        match self.to_lines(segments) {
            Ok(lines) => Ok(PolyLine { lines }),
            Err(e) => Err(e),
        }
    }
}

/// Whether `p` lies on the circle about `center`, up to `RADIUS_TOLERANCE`.
fn lies_on_circle(p: Vec3, center: Vec3, radius: Scalar) -> (r: bool)
    ensures
        r == on_circle(p@, center@, radius@),
{
    let n = p.sub(center).norm_wide();
    let gap: i128 = n as i128 - radius.raw as i128;
    -(RADIUS_TOLERANCE as i128) <= gap && gap <= RADIUS_TOLERANCE as i128
}

} // verus!
