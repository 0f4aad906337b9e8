//! Boundary loops and their assembly.

use vstd::prelude::*;
use crate::error::{KernelError, LoopCheck};
use crate::fixed::Scalar;
use crate::vector::Vec3;
use crate::geometry::{axis_x, axis_y, axis_z};
use crate::geometry::arc::chord_ends;
use crate::geometry::line::{Line, TwoPointLine};
use crate::boundary_geometry::boundary_arc::{BoundaryArc, Direction};
use crate::boundary_geometry::boundary_line::BoundaryLine;
use crate::boundary_geometry::boundary_polygon::BoundaryPolygon;
use crate::boundary_geometry::checks::{
    Axis, Verdict, is_edges_verdict, lemma_edges_verdict_unique, check_edges,
};
use crate::boundary_geometry::edges::{flatten, flatten_elements, lemma_flatten_nonempty};

verus! {

/// One edge of a loop.
pub enum BoundaryElement {
    BoundaryLine(BoundaryLine),
    BoundaryPolygon(BoundaryPolygon),
    BoundaryArc(BoundaryArc),
}

/// What the assembly of a loop is told: how far apart two ends may lie and
/// still count as one point, and into how many chords an arc is cut before
/// it is checked.
#[derive(Clone, Copy, Debug, PartialEq, Eq, Structural)]
pub struct LoopConfig {
    pub closure_tolerance: Scalar,
    pub arc_segments: u32,
}

impl Default for LoopConfig {
    /// A tolerance of `2^-20`, and sixteen chords for every arc.
    fn default() -> (r: LoopConfig)
        ensures
            r.closure_tolerance@ == 0x1000,
            r.arc_segments == 16,
    {
        LoopConfig { closure_tolerance: Scalar { raw: 0x1000 }, arc_segments: 16 }
    }
}

/// Whether `r` is what the checks say of a loop of elements: a loop with
/// no element, a tolerance that is not positive or arcs cut into no chords
/// is an invalid argument; a loop that cannot be flattened fails as its first
/// such element does; every other loop is judged by its edges.
pub open spec fn is_verdict(els: Seq<BoundaryElement>, config: LoopConfig, r: Result<Verdict, KernelError>) -> bool {
    if config.closure_tolerance@ <= 0 || config.arc_segments == 0 || els.len() == 0 {
        r == Err::<Verdict, KernelError>(KernelError::InvalidArgument)
    } else {
        match flatten(els, config.arc_segments) {
            Err(e) => r == Err::<Verdict, KernelError>(e),
            Ok(edges) => is_edges_verdict(edges, els.len() as int, config.closure_tolerance@, r),
        }
    }
}

/// The checks say one thing of a loop of elements.
pub proof fn lemma_verdict_unique(
    els: Seq<BoundaryElement>,
    config: LoopConfig,
    r: Result<Verdict, KernelError>,
    s: Result<Verdict, KernelError>,
)
    requires
        is_verdict(els, config, r),
        is_verdict(els, config, s),
    ensures
        r == s,
{
    if !(config.closure_tolerance@ <= 0 || config.arc_segments == 0 || els.len() == 0) {
        if flatten(els, config.arc_segments) is Ok {
            lemma_edges_verdict_unique(
                flatten(els, config.arc_segments)->Ok_0,
                els.len() as int,
                config.closure_tolerance@,
                r,
                s,
            );
        }
    }
}

/// The checks on a loop of elements, in order.
pub fn validate(els: &Vec<BoundaryElement>, config: &LoopConfig) -> (r: Result<Verdict, KernelError>)
    ensures
        is_verdict(els@, *config, r),
{
    if config.closure_tolerance.raw <= 0 || config.arc_segments == 0 || els.len() == 0 {
        return Err(KernelError::InvalidArgument);
    }
    match flatten_elements(els, config.arc_segments) {
        Err(e) => Err(e),
        Ok(edges) => {
            proof {
                lemma_flatten_nonempty(els@, config.arc_segments, els@.len());
            }
            check_edges(&edges, els.len(), config.closure_tolerance)
        },
    }
}

/// Whether `f` is the element `e` run the other way.
pub open spec fn is_flipped(e: BoundaryElement, f: BoundaryElement) -> bool {
    match e {
        BoundaryElement::BoundaryLine(l) => f is BoundaryLine && f->BoundaryLine_0.a == l.b
            && f->BoundaryLine_0.b == l.a,
        BoundaryElement::BoundaryPolygon(p) => f is BoundaryPolygon
            && f->BoundaryPolygon_0.vertices@ == p.vertices@.reverse(),
        BoundaryElement::BoundaryArc(a) => f is BoundaryArc && f->BoundaryArc_0.start == a.end
            && f->BoundaryArc_0.end == a.start && f->BoundaryArc_0.circle.center == a.circle.center
            && f->BoundaryArc_0.circle.radius == a.circle.radius && f->BoundaryArc_0.direction
            == a.direction,
    }
}

/// Whether `rev` is the loop `els` run the other way: the elements in the
/// opposite order, each of them flipped.
pub open spec fn is_reversed(els: Seq<BoundaryElement>, rev: Seq<BoundaryElement>) -> bool {
    &&& rev.len() == els.len()
    &&& forall|i: int| 0 <= i < els.len() ==> is_flipped(els[els.len() - 1 - i], #[trigger] rev[i])
}

/// The loop run the other way.
pub fn reverse_elements(els: &Vec<BoundaryElement>) -> (r: Vec<BoundaryElement>)
    ensures
        is_reversed(els@, r@),
{
    let n = els.len();
    let mut out: Vec<BoundaryElement> = Vec::new();
    let mut i: usize = 0;
    while i < n
        invariant
            n == els@.len(),
            i <= n,
            out@.len() == i,
            forall|j: int| 0 <= j < i ==> is_flipped(els@[n - 1 - j], #[trigger] out@[j]),
        decreases n - i,
    {
        let flipped = match &els[n - 1 - i] {
            BoundaryElement::BoundaryLine(l) => BoundaryElement::BoundaryLine(l.reversed()),
            BoundaryElement::BoundaryPolygon(p) => BoundaryElement::BoundaryPolygon(p.reversed()),
            BoundaryElement::BoundaryArc(a) => BoundaryElement::BoundaryArc(a.reversed()),
        };
        out.push(flipped);
        i = i + 1;
    }
    out
}

/// A closed chain of elements that has passed every check of the assembly
/// and winds counter-clockwise about `axis`.
pub struct BoundaryLoop {
    pub elements: Vec<BoundaryElement>,
    pub axis: Axis,
    pub winding: Direction,
}

impl BoundaryLoop {
    /// A loop is well formed under a configuration when its elements pass
    /// the checks and wind counter-clockwise about its axis.
    pub open spec fn wf(&self, config: LoopConfig) -> bool {
        &&& self.winding == Direction::CCW
        &&& is_verdict(
            self.elements@,
            config,
            Ok(Verdict { axis: self.axis, counter_clockwise: true }),
        )
    }

    /// The loop as straight segments, in order: a line as it is, a polygon
    /// as its edges, an arc as `segments` chords.
    pub fn to_lines(&self, segments: u32) -> (r: Result<Vec<Line>, KernelError>)
        ensures
            segments == 0 ==> r == Err::<Vec<Line>, KernelError>(KernelError::InvalidArgument),
            segments >= 1 ==> match flatten(self.elements@, segments) {
                Err(e) => r == Err::<Vec<Line>, KernelError>(e),
                Ok(edges) => r is Ok && r->Ok_0@.len() == edges.len() && forall|k: int|
                    0 <= k < edges.len() ==> #[trigger] r->Ok_0@[k] is TwoPoint
                        && chord_ends(r->Ok_0@[k]) == (edges[k].a, edges[k].b),
            },
    {
        if segments == 0 {
            return Err(KernelError::InvalidArgument);
        }
        match flatten_elements(&self.elements, segments) {
            Err(e) => Err(e),
            Ok(edges) => {
                let mut out: Vec<Line> = Vec::new();
                let mut k: usize = 0;
                while k < edges.len()
                    invariant
                        k <= edges@.len(),
                        out@.len() == k,
                        forall|j: int|
                            0 <= j < k ==> #[trigger] out@[j] is TwoPoint
                                && chord_ends(out@[j]) == (
                                edges@[j]@.a,
                                edges@[j]@.b,
                            ),
                    decreases edges@.len() - k,
                {
                    out.push(
                        Line::TwoPoint(
                            TwoPointLine::new(edges[k].a, edges[k].b),
                        ),
                    );
                    k = k + 1;
                }
                Ok(out)
            },
        }
    }

    /// The unit vector about which the loop winds counter-clockwise.
    pub fn normal(&self) -> (r: Vec3)
        ensures
            r@ == match self.axis {
                Axis::X => axis_x(),
                Axis::Y => axis_y(),
                Axis::Z => axis_z(),
            },
    {
        match self.axis {
            Axis::X => Vec3::from_ints(1, 0, 0),
            Axis::Y => Vec3::from_ints(0, 1, 0),
            Axis::Z => Vec3::from_ints(0, 0, 1),
        }
    }
}

/// Whether a verdict is that of a loop that winds counter-clockwise.
pub open spec fn is_counter_clockwise(v: Result<Verdict, KernelError>) -> bool {
    v is Ok && v->Ok_0.counter_clockwise
}

/// Assembles a loop from its elements. The elements are flattened into
/// straight edges and checked, in order, for continuity, closure,
/// simplicity and winding. A loop that fails a check is refused with the
/// error of that check. A loop that passes and winds counter-clockwise is
/// returned as it is. A loop that passes and winds clockwise is run the
/// other way, checked once more, and returned if it then passes; else it is
/// refused for its winding.
pub fn assemble_loop(elements: Vec<BoundaryElement>, config: &LoopConfig) -> (r: Result<
    BoundaryLoop,
    KernelError,
>)
    ensures
        r is Ok ==> r->Ok_0.wf(*config),
        exists|v: Result<Verdict, KernelError>| #[trigger]
            is_verdict(elements@, *config, v) && match v {
                Err(e) => r == Err::<BoundaryLoop, KernelError>(e),
                Ok(verdict) => if verdict.counter_clockwise {
                    r is Ok && r->Ok_0.elements == elements && r->Ok_0.axis == verdict.axis
                } else {
                    exists|rev: Seq<BoundaryElement>, w: Result<Verdict, KernelError>|
                        is_reversed(elements@, rev) && #[trigger] is_verdict(rev, *config, w) && if is_counter_clockwise(
                            w,
                        ) {
                            r is Ok && r->Ok_0.elements@ == rev && r->Ok_0.axis == w->Ok_0.axis
                        } else {
                            r == Err::<BoundaryLoop, KernelError>(
                                KernelError::InvalidLoop {
                                    check: LoopCheck::Winding,
                                    first: 0,
                                    second: 0,
                                },
                            )
                        }
                },
            },
{
    let v = validate(&elements, config);
    match v {
        Err(e) => Err(e),
        Ok(verdict) => {
            if verdict.counter_clockwise {
                Ok(
                    BoundaryLoop {
                        elements,
                        axis: verdict.axis,
                        winding: Direction::CCW,
                    },
                )
            } else {
                let rev = reverse_elements(&elements);
                let w = validate(&rev, config);
                assert(is_verdict(rev@, *config, w));
                match w {
                    Ok(again) => {
                        if again.counter_clockwise {
                            Ok(
                                BoundaryLoop {
                                    elements: rev,
                                    axis: again.axis,
                                    winding: Direction::CCW,
                                },
                            )
                        } else {
                            Err(
                                KernelError::InvalidLoop {
                                    check: LoopCheck::Winding,
                                    first: 0,
                                    second: 0,
                                },
                            )
                        }
                    },
                    Err(_) => Err(
                        KernelError::InvalidLoop { check: LoopCheck::Winding, first: 0, second: 0 },
                    ),
                }
            }
        },
    }
}

} // verus!
