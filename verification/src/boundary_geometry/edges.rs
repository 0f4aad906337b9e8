//! The straight edges of a loop: every element flattened, in order.

use vstd::prelude::*;
use crate::error::KernelError;
use crate::vector::{Vec3, V3};
use crate::geometry::arc::chord_ends;
use crate::geometry::line::Line;
use crate::boundary_geometry::boundary_loop::BoundaryElement;

verus! {

/// A straight edge of a flattened loop, with the index of the element that
/// it came from.
#[derive(Clone, Copy, Debug, PartialEq, Eq, Structural)]
pub struct Edge {
    pub a: Vec3,
    pub b: Vec3,
    pub element: usize,
}

/// The mathematical model of an edge.
pub struct EdgeModel {
    pub a: V3,
    pub b: V3,
    pub element: int,
}

impl View for Edge {
    type V = EdgeModel;

    open spec fn view(&self) -> EdgeModel {
        EdgeModel { a: self.a@, b: self.b@, element: self.element as int }
    }
}

/// The straight edges of one element, or the reason why it has none: a
/// polygon needs two vertices, an arc a frame.
pub open spec fn element_edges(e: BoundaryElement, index: int, segments: u32) -> Result<
    Seq<EdgeModel>,
    KernelError,
> {
    match e {
        BoundaryElement::BoundaryLine(l) => Ok(seq![EdgeModel { a: l.a@, b: l.b@, element: index }]),
        BoundaryElement::BoundaryPolygon(p) => if p.vertices@.len() < 2 {
            Err(KernelError::InvalidArgument)
        } else {
            Ok(
                Seq::new(
                    (p.vertices@.len() - 1) as nat,
                    |i: int| EdgeModel { a: p.vertices@[i]@, b: p.vertices@[i + 1]@, element: index },
                ),
            )
        },
        BoundaryElement::BoundaryArc(a) => if a.arc().frame() is None {
            Err(KernelError::DegenerateInput)
        } else {
            Ok(
                Seq::new(
                    segments as nat,
                    |k: int|
                        EdgeModel {
                            a: a.arc().chord_point(segments as int, k),
                            b: a.arc().chord_point(segments as int, k + 1),
                            element: index,
                        },
                ),
            )
        },
    }
}

/// The straight edges of the first `n` elements in order, or the error of
/// the first element that has none.
pub open spec fn flatten_prefix(els: Seq<BoundaryElement>, segments: u32, n: nat) -> Result<
    Seq<EdgeModel>,
    KernelError,
>
    decreases n,
{
    if n == 0 {
        Ok(Seq::empty())
    } else {
        match flatten_prefix(els, segments, (n - 1) as nat) {
            Err(e) => Err(e),
            Ok(before) => match element_edges(els[n - 1], n - 1, segments) {
                Err(e) => Err(e),
                Ok(edges) => Ok(before + edges),
            },
        }
    }
}

/// The straight edges of a loop.
pub open spec fn flatten(els: Seq<BoundaryElement>, segments: u32) -> Result<
    Seq<EdgeModel>,
    KernelError,
> {
    flatten_prefix(els, segments, els.len())
}

/// The views of a vector of edges.
pub open spec fn edge_models(edges: Seq<Edge>) -> Seq<EdgeModel> {
    edges.map_values(|e: Edge| e@)
}

/// Appends the straight edges of one element to `out`.
fn push_element_edges(
    out: &mut Vec<Edge>,
    e: &BoundaryElement,
    index: usize,
    segments: u32,
) -> (r: Result<(), KernelError>)
    requires
        segments >= 1,
    ensures
        match element_edges(*e, index as int, segments) {
            Err(err) => r == Err::<(), KernelError>(err),
            Ok(edges) => r is Ok && edge_models(final(out)@) == edge_models(old(out)@) + edges,
        },
{
    match e {
        BoundaryElement::BoundaryLine(l) => {
            out.push(Edge { a: l.a.0, b: l.b.0, element: index });
            assert(edge_models(out@) =~= edge_models(old(out)@) + seq![
                EdgeModel { a: l.a@, b: l.b@, element: index as int },
            ]);
            Ok(())
        },
        BoundaryElement::BoundaryPolygon(p) => {
            let n = p.vertices.len();
            if n < 2 {
                return Err(KernelError::InvalidArgument);
            }
            let ghost target = element_edges(*e, index as int, segments)->Ok_0;
            let mut i: usize = 0;
            assert(edge_models(out@) =~= edge_models(old(out)@) + target.take(0));
            while i < n - 1
                invariant
                    n == p.vertices@.len(),
                    n >= 2,
                    i <= n - 1,
                    target == element_edges(*e, index as int, segments)->Ok_0,
                    *e == BoundaryElement::BoundaryPolygon(*p),
                    edge_models(out@) == edge_models(old(out)@) + target.take(i as int),
                decreases n - 1 - i,
            {
                let ghost before = out@;
                out.push(Edge { a: p.vertices[i].0, b: p.vertices[i + 1].0, element: index });
                proof {
                    assert(edge_models(out@) =~= edge_models(before).push(target[i as int]));
                    assert(target.take(i + 1) =~= target.take(i as int).push(target[i as int]));
                    assert(edge_models(out@) =~= edge_models(old(out)@) + target.take(i + 1));
                }
                i = i + 1;
            }
            assert(target.take(i as int) =~= target);
            Ok(())
        },
        BoundaryElement::BoundaryArc(a) => {
            let arc = a.to_arc();
            match arc.to_lines(segments) {
                Err(err) => Err(KernelError::DegenerateInput),
                Ok(lines) => {
                    let ghost target = element_edges(*e, index as int, segments)->Ok_0;
                    let mut k: usize = 0;
                    assert(edge_models(out@) =~= edge_models(old(out)@) + target.take(0));
                    while k < lines.len()
                        invariant
                            lines@.len() == segments,
                            arc == a.arc(),
                            arc.frame() is Some,
                            k <= lines@.len(),
                            target == element_edges(*e, index as int, segments)->Ok_0,
                            *e == BoundaryElement::BoundaryArc(*a),
                            forall|j: int|
                                0 <= j < segments ==> #[trigger] lines@[j] is TwoPoint
                                    && chord_ends(lines@[j]) == (
                                    arc.chord_point(segments as int, j),
                                    arc.chord_point(segments as int, j + 1),
                                ),
                            edge_models(out@) == edge_models(old(out)@) + target.take(k as int),
                        decreases lines@.len() - k,
                    {
                        let ghost before = out@;
                        assert(lines@[k as int] is TwoPoint);
                        match lines[k] {
                            Line::TwoPoint(t) => {
                                out.push(Edge { a: t.a.0, b: t.b.0, element: index });
                            },
                            _ => {},
                        }
                        proof {
                            assert(edge_models(out@) =~= edge_models(before).push(target[k as int]));
                            assert(target.take(k + 1) =~= target.take(k as int).push(
                                target[k as int],
                            ));
                            assert(edge_models(out@) =~= edge_models(old(out)@) + target.take(k + 1));
                        }
                        k = k + 1;
                    }
                    assert(target.take(k as int) =~= target);
                    Ok(())
                },
            }
        },
    }
}

/// The straight edges of a loop, in order.
pub(crate) fn flatten_elements(els: &Vec<BoundaryElement>, segments: u32) -> (r: Result<
    Vec<Edge>,
    KernelError,
>)
    requires
        segments >= 1,
    ensures
        match flatten(els@, segments) {
            Err(err) => r == Err::<Vec<Edge>, KernelError>(err),
            Ok(edges) => r is Ok && edge_models(r->Ok_0@) == edges,
        },
{
    let mut out: Vec<Edge> = Vec::new();
    let mut i: usize = 0;
    assert(edge_models(out@) =~= Seq::<EdgeModel>::empty());
    while i < els.len()
        invariant
            segments >= 1,
            i <= els@.len(),
            flatten_prefix(els@, segments, i as nat) == Ok::<Seq<EdgeModel>, KernelError>(
                edge_models(out@),
            ),
        decreases els@.len() - i,
    {
        match push_element_edges(&mut out, &els[i], i, segments) {
            Err(err) => {
                proof {
                    lemma_flatten_error(els@, segments, (i + 1) as nat, els@.len());
                }
                return Err(err);
            },
            Ok(()) => {},
        }
        i = i + 1;
    }
    Ok(out)
}

/// An error in a prefix is the error of every longer prefix.
pub proof fn lemma_flatten_error(els: Seq<BoundaryElement>, segments: u32, n: nat, m: nat)
    requires
        n <= m,
        flatten_prefix(els, segments, n) is Err,
    ensures
        flatten_prefix(els, segments, m) == flatten_prefix(els, segments, n),
    decreases m - n,
{
    if n < m {
        lemma_flatten_error(els, segments, n, (m - 1) as nat);
    }
}

/// Every element has an edge, so a loop with an element has one.
pub proof fn lemma_flatten_nonempty(els: Seq<BoundaryElement>, segments: u32, n: nat)
    requires
        segments >= 1,
        1 <= n <= els.len(),
        flatten_prefix(els, segments, n) is Ok,
    ensures
        flatten_prefix(els, segments, n)->Ok_0.len() >= 1,
    decreases n,
{
    let last = element_edges(els[n - 1], n - 1, segments)->Ok_0;
    assert(last.len() >= 1);
}

} // verus!
