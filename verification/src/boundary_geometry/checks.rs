//! The checks on a flattened loop: continuity, closure, simplicity and
//! winding, in that order.

use vstd::prelude::*;
use crate::error::{KernelError, LoopCheck};
use crate::fixed::{Scalar, magnitude, magnitude_of, fx_add};
use crate::vector::{Vec3, V3, v3_add, v3_sub, v3_cross, v3_within};
use crate::boundary_geometry::edges::{Edge, EdgeModel, edge_models};

verus! {

/// One of the three axes.
#[derive(Clone, Copy, Debug, PartialEq, Eq, Structural)]
pub enum Axis {
    X,
    Y,
    Z,
}

/// The coordinate of `v` along `axis`.
pub open spec fn component(v: V3, axis: Axis) -> int {
    match axis {
        Axis::X => v.x,
        Axis::Y => v.y,
        Axis::Z => v.z,
    }
}

/// Twice the signed area of the triangle `p`, `a`, `b`, seen along `axis`:
/// positive where the triangle turns counter-clockwise.
pub open spec fn orientation(p: V3, a: V3, b: V3, axis: Axis) -> int {
    component(v3_cross(v3_sub(a, p), v3_sub(b, p)), axis)
}

/// What edge `i` adds to the area vector of a loop: the cross product of
/// its two ends, both taken from the start of the loop.
pub open spec fn fan_term(edges: Seq<EdgeModel>, i: int) -> V3 {
    v3_cross(v3_sub(edges[i].a, edges[0].a), v3_sub(edges[i].b, edges[0].a))
}

/// The sum of the first `n` terms of the area vector.
pub open spec fn area_prefix(edges: Seq<EdgeModel>, n: nat) -> V3
    decreases n,
{
    if n == 0 {
        V3 { x: 0, y: 0, z: 0 }
    } else {
        v3_add(area_prefix(edges, (n - 1) as nat), fan_term(edges, n - 1))
    }
}

/// The axis along which `v` is longest; the third where there is a tie.
pub open spec fn dominant_axis(v: V3) -> Axis {
    if magnitude(v.z) >= magnitude(v.x) && magnitude(v.z) >= magnitude(v.y) {
        Axis::Z
    } else if magnitude(v.y) >= magnitude(v.x) {
        Axis::Y
    } else {
        Axis::X
    }
}

/// The axis along which a loop is looked at: the dominant axis of its area
/// vector.
pub open spec fn loop_axis(edges: Seq<EdgeModel>) -> Axis {
    dominant_axis(area_prefix(edges, edges.len()))
}

/// Whether edge `i` ends where edge `i + 1` starts.
pub open spec fn joined(edges: Seq<EdgeModel>, i: int, eps: int) -> bool {
    v3_within(edges[i].b, edges[i + 1].a, eps)
}

/// Whether every edge ends where the next one starts.
pub open spec fn continuous(edges: Seq<EdgeModel>, eps: int) -> bool {
    forall|i: int| 0 <= i < edges.len() - 1 ==> #[trigger] joined(edges, i, eps)
}

/// Whether the last edge ends where the first one starts.
pub open spec fn closed(edges: Seq<EdgeModel>, eps: int) -> bool {
    v3_within(edges[edges.len() - 1].b, edges[0].a, eps)
}

/// The smaller of two integers.
pub open spec fn lesser(a: int, b: int) -> int {
    if a <= b {
        a
    } else {
        b
    }
}

/// The larger of two integers.
pub open spec fn greater(a: int, b: int) -> int {
    if a >= b {
        a
    } else {
        b
    }
}

/// Whether `v` lies between `a` and `b`.
pub open spec fn spans(a: int, b: int, v: int) -> bool {
    lesser(a, b) <= v <= greater(a, b)
}

/// Whether `p` lies in the box spanned by `a` and `b`.
pub open spec fn in_box(a: V3, b: V3, p: V3) -> bool {
    spans(a.x, b.x, p.x) && spans(a.y, b.y, p.y) && spans(a.z, b.z, p.z)
}

/// Whether the interval between `a0` and `a1` comes within `eps` of the
/// interval between `b0` and `b1`.
pub open spec fn spans_near(a0: int, a1: int, b0: int, b1: int, eps: int) -> bool {
    greater(lesser(a0, a1), lesser(b0, b1)) <= lesser(greater(a0, a1), greater(b0, b1)) + eps
}

/// Whether the boxes of two edges come within `eps` of each other along
/// every axis.
pub open spec fn boxes_near(e: EdgeModel, f: EdgeModel, eps: int) -> bool {
    &&& spans_near(e.a.x, e.b.x, f.a.x, f.b.x, eps)
    &&& spans_near(e.a.y, e.b.y, f.a.y, f.b.y, eps)
    &&& spans_near(e.a.z, e.b.z, f.a.z, f.b.z, eps)
}

/// Whether two orientations have opposite strict signs.
pub open spec fn opposite(a: int, b: int) -> bool {
    (a > 0 && b < 0) || (a < 0 && b > 0)
}

/// Whether two edges cross or touch, seen along `axis`: each has the ends
/// of the other on opposite sides, or an end of one lies on the other.
pub open spec fn crossing(e: EdgeModel, f: EdgeModel, axis: Axis) -> bool {
    ||| opposite(orientation(e.a, e.b, f.a, axis), orientation(e.a, e.b, f.b, axis)) && opposite(
        orientation(f.a, f.b, e.a, axis),
        orientation(f.a, f.b, e.b, axis),
    )
    ||| orientation(e.a, e.b, f.a, axis) == 0 && in_box(e.a, e.b, f.a)
    ||| orientation(e.a, e.b, f.b, axis) == 0 && in_box(e.a, e.b, f.b)
    ||| orientation(f.a, f.b, e.a, axis) == 0 && in_box(f.a, f.b, e.a)
    ||| orientation(f.a, f.b, e.b, axis) == 0 && in_box(f.a, f.b, e.b)
}

/// Whether two edges meet: their boxes are near, and they cross.
pub open spec fn edges_meet(e: EdgeModel, f: EdgeModel, axis: Axis, eps: int) -> bool {
    boxes_near(e, f, eps) && crossing(e, f, axis)
}

/// Whether edges `p < q` of a loop of `m` edges follow each other round
/// the loop.
pub open spec fn neighbours(p: int, q: int, m: int) -> bool {
    q == p + 1 || (p == 0 && q == m - 1)
}

/// Whether edges `p < q` are no neighbours and meet.
pub open spec fn pair_meets(edges: Seq<EdgeModel>, p: int, q: int, axis: Axis, eps: int) -> bool {
    &&& 0 <= p < q < edges.len()
    &&& !neighbours(p, q, edges.len() as int)
    &&& edges_meet(edges[p], edges[q], axis, eps)
}

/// Whether the pair `(i, j)` comes before `(p, q)`.
pub open spec fn pair_before(i: int, j: int, p: int, q: int) -> bool {
    i < p || (i == p && j < q)
}

/// Whether no pair before `(p, q)` meets.
pub open spec fn none_meet_before(edges: Seq<EdgeModel>, p: int, q: int, axis: Axis, eps: int) -> bool {
    forall|i: int, j: int|
        pair_before(i, j, p, q) ==> !#[trigger] pair_meets(edges, i, j, axis, eps)
}

/// Whether no two edges meet but neighbours.
pub open spec fn simple(edges: Seq<EdgeModel>, axis: Axis, eps: int) -> bool {
    forall|p: int, q: int| !#[trigger] pair_meets(edges, p, q, axis, eps)
}

/// Which way edge `i` turns about the start of the loop, seen along
/// `axis`: positive for counter-clockwise.
pub open spec fn turn_sign(edges: Seq<EdgeModel>, i: int, axis: Axis) -> int {
    orientation(edges[0].a, edges[i].a, edges[i].b, axis)
}

/// What the first `n` edges add to the turn of element `e`: the sum of
/// the turns of its edges among them.
pub open spec fn element_turn_prefix(edges: Seq<EdgeModel>, e: int, axis: Axis, n: nat) -> int
    decreases n,
{
    if n == 0 {
        0
    } else if edges[n - 1].element == e {
        fx_add(element_turn_prefix(edges, e, axis, (n - 1) as nat), turn_sign(edges, n - 1, axis))
    } else {
        element_turn_prefix(edges, e, axis, (n - 1) as nat)
    }
}

/// Which way element `e` turns about the start of the loop: the sum of the
/// turns of its edges, positive for counter-clockwise.
pub open spec fn element_turn(edges: Seq<EdgeModel>, e: int, axis: Axis) -> int {
    element_turn_prefix(edges, e, axis, edges.len())
}

/// Whether no element before `n` turns at all.
pub open spec fn none_turn_before(edges: Seq<EdgeModel>, n: int, axis: Axis) -> bool {
    forall|j: int| 0 <= j < n ==> #[trigger] element_turn(edges, j, axis) == 0
}

/// Whether no element before `n` turns against element `i`.
pub open spec fn none_oppose_before(edges: Seq<EdgeModel>, i: int, n: int, axis: Axis) -> bool {
    forall|j: int|
        0 <= j < n ==> !opposite(element_turn(edges, i, axis), #[trigger] element_turn(edges, j, axis))
}

/// The way a loop winds about the axis it is looked along.
#[derive(Clone, Copy, Debug, PartialEq, Eq, Structural)]
pub struct Verdict {
    pub axis: Axis,
    pub counter_clockwise: bool,
}

/// Whether `r` is what the checks say of the flattened loop of `count`
/// elements. The checks run in order: continuity, closure, simplicity,
/// winding; the first that fails is reported with the elements that fail
/// it first.
pub open spec fn is_edges_verdict(
    edges: Seq<EdgeModel>,
    count: int,
    eps: int,
    r: Result<Verdict, KernelError>,
) -> bool {
    let m = edges.len() as int;
    let axis = loop_axis(edges);
    match r {
        Err(KernelError::InvalidLoop { check: LoopCheck::Continuity, first, second }) => {
            exists|i: int|
                0 <= i < m - 1 && !#[trigger] joined(edges, i, eps) && (forall|j: int|
                    0 <= j < i ==> #[trigger] joined(edges, j, eps)) && first == edges[i].element
                    && second == edges[i + 1].element
        },
        Err(KernelError::InvalidLoop { check: LoopCheck::Closure, first, second }) => {
            &&& continuous(edges, eps)
            &&& !closed(edges, eps)
            &&& first == edges[m - 1].element
            &&& second == edges[0].element
        },
        Err(KernelError::InvalidLoop { check: LoopCheck::Simplicity, first, second }) => {
            &&& continuous(edges, eps)
            &&& closed(edges, eps)
            &&& exists|p: int, q: int|
                #[trigger] pair_meets(edges, p, q, axis, eps) && none_meet_before(
                    edges,
                    p,
                    q,
                    axis,
                    eps,
                ) && first == edges[p].element && second == edges[q].element
        },
        Err(KernelError::InvalidLoop { check: LoopCheck::Winding, first, second }) => {
            &&& continuous(edges, eps)
            &&& closed(edges, eps)
            &&& simple(edges, axis, eps)
            &&& is_winding_verdict(edges, count, axis, r)
        },
        Err(_) => false,
        Ok(v) => {
            &&& continuous(edges, eps)
            &&& closed(edges, eps)
            &&& simple(edges, axis, eps)
            &&& is_winding_verdict(edges, count, axis, r)
        },
    }
}

/// The checks say one thing of a loop: two verdicts on the same edges are
/// the same verdict.
pub proof fn lemma_edges_verdict_unique(
    edges: Seq<EdgeModel>,
    count: int,
    eps: int,
    r: Result<Verdict, KernelError>,
    s: Result<Verdict, KernelError>,
)
    requires
        is_edges_verdict(edges, count, eps, r),
        is_edges_verdict(edges, count, eps, s),
    ensures
        r == s,
{
    let m = edges.len() as int;
    let axis = loop_axis(edges);
    if r is Err && r->Err_0 is InvalidLoop && r->Err_0->check == LoopCheck::Continuity {
        let i = choose|i: int|
            0 <= i < m - 1 && !#[trigger] joined(edges, i, eps) && (forall|j: int|
                0 <= j < i ==> #[trigger] joined(edges, j, eps)) && r->Err_0->first
                == edges[i].element && r->Err_0->second == edges[i + 1].element;
        assert(!continuous(edges, eps));
        let k = choose|k: int|
            0 <= k < m - 1 && !#[trigger] joined(edges, k, eps) && (forall|j: int|
                0 <= j < k ==> #[trigger] joined(edges, j, eps)) && s->Err_0->first
                == edges[k].element && s->Err_0->second == edges[k + 1].element;
        assert(i == k) by {
            if i < k {
                assert(joined(edges, i, eps));
            }
            if k < i {
                assert(joined(edges, k, eps));
            }
        }
    } else if s is Err && s->Err_0 is InvalidLoop && s->Err_0->check == LoopCheck::Continuity {
        let k = choose|k: int|
            0 <= k < m - 1 && !#[trigger] joined(edges, k, eps) && (forall|j: int|
                0 <= j < k ==> #[trigger] joined(edges, j, eps)) && s->Err_0->first
                == edges[k].element && s->Err_0->second == edges[k + 1].element;
        assert(!continuous(edges, eps));
    } else if r is Err && r->Err_0 is InvalidLoop && r->Err_0->check == LoopCheck::Simplicity {
        let (p, q) = choose|p: int, q: int|
            #[trigger] pair_meets(edges, p, q, axis, eps) && none_meet_before(
                edges,
                p,
                q,
                axis,
                eps,
            ) && r->Err_0->first == edges[p].element && r->Err_0->second == edges[q].element;
        assert(!simple(edges, axis, eps));
        let (u, v) = choose|u: int, v: int|
            #[trigger] pair_meets(edges, u, v, axis, eps) && none_meet_before(
                edges,
                u,
                v,
                axis,
                eps,
            ) && s->Err_0->first == edges[u].element && s->Err_0->second == edges[v].element;
        assert(p == u && q == v) by {
            if pair_before(p, q, u, v) {
                assert(!pair_meets(edges, p, q, axis, eps));
            }
            if pair_before(u, v, p, q) {
                assert(!pair_meets(edges, u, v, axis, eps));
            }
        }
    } else if s is Err && s->Err_0 is InvalidLoop && s->Err_0->check == LoopCheck::Simplicity {
        let (u, v) = choose|u: int, v: int|
            #[trigger] pair_meets(edges, u, v, axis, eps) && none_meet_before(
                edges,
                u,
                v,
                axis,
                eps,
            ) && s->Err_0->first == edges[u].element && s->Err_0->second == edges[v].element;
        assert(!simple(edges, axis, eps));
    } else if r is Err && r->Err_0 is InvalidLoop && r->Err_0->check == LoopCheck::Winding {
        lemma_winding_unique(edges, count, axis, r, s);
    } else if s is Err && s->Err_0 is InvalidLoop && s->Err_0->check == LoopCheck::Winding {
        lemma_winding_unique(edges, count, axis, s, r);
    } else if r is Ok && s is Ok {
        lemma_winding_unique(edges, count, axis, r, s);
    }
}

/// Whether `r` is what the winding check says of the edges of `count`
/// elements that have passed the checks before it. A loop of which no
/// element turns fails, at the elements zero and zero. A loop of which an
/// element turns against the first that turns fails, at these two. In every
/// other loop the elements that turn all turn one way, and that way is the
/// verdict.
pub open spec fn is_winding_verdict(
    edges: Seq<EdgeModel>,
    count: int,
    axis: Axis,
    r: Result<Verdict, KernelError>,
) -> bool {
    let m = count;
    match r {
        Err(KernelError::InvalidLoop { check: LoopCheck::Winding, first, second }) => {
            ||| none_turn_before(edges, m, axis) && first == 0 && second == 0
            ||| exists|i: int, j: int|
                0 <= i < j < m && #[trigger] element_turn(edges, i, axis) != 0 && none_turn_before(
                    edges,
                    i,
                    axis,
                ) && opposite(element_turn(edges, i, axis), #[trigger] element_turn(edges, j, axis))
                    && none_oppose_before(edges, i, j, axis) && first == i && second
                    == j
        },
        Ok(v) => {
            &&& v.axis == axis
            &&& exists|i: int|
                0 <= i < m && #[trigger] element_turn(edges, i, axis) != 0 && none_turn_before(
                    edges,
                    i,
                    axis,
                ) && none_oppose_before(edges, i, m, axis) && v.counter_clockwise == (element_turn(
                    edges,
                    i,
                    axis,
                ) > 0)
        },
        _ => false,
    }
}

/// The winding check says one thing of a loop.
pub proof fn lemma_winding_unique(
    edges: Seq<EdgeModel>,
    count: int,
    axis: Axis,
    r: Result<Verdict, KernelError>,
    s: Result<Verdict, KernelError>,
)
    requires
        is_winding_verdict(edges, count, axis, r),
        is_winding_verdict(edges, count, axis, s),
    ensures
        r == s,
    decreases
            (if r is Ok {
                0nat
            } else {
                1nat
            }),
{
    let m = count;
    let flat = none_turn_before(edges, m, axis);
    // the first edge that turns is the same in both verdicts, where there is one
    if r is Ok {
        let i = choose|i: int|
            0 <= i < m && #[trigger] element_turn(edges, i, axis) != 0 && none_turn_before(
                edges,
                i,
                axis,
            ) && none_oppose_before(edges, i, m, axis) && r->Ok_0.counter_clockwise == (element_turn(
                edges,
                i,
                axis,
            ) > 0);
        if s is Ok {
            let k = choose|k: int|
                0 <= k < m && #[trigger] element_turn(edges, k, axis) != 0 && none_turn_before(
                    edges,
                    k,
                    axis,
                ) && none_oppose_before(edges, k, m, axis) && s->Ok_0.counter_clockwise == (
                element_turn(edges, k, axis) > 0);
            assert(i == k) by {
                if i < k {
                    assert(element_turn(edges, i, axis) == 0);
                }
                if k < i {
                    assert(element_turn(edges, k, axis) == 0);
                }
            }
        } else {
            assert(!flat) by {
                assert(element_turn(edges, i, axis) != 0);
            }
            let (a, b) = choose|a: int, b: int|
                0 <= a < b < m && #[trigger] element_turn(edges, a, axis) != 0 && none_turn_before(
                    edges,
                    a,
                    axis,
                ) && opposite(element_turn(edges, a, axis), #[trigger] element_turn(edges, b, axis))
                    && none_oppose_before(edges, a, b, axis) && s->Err_0->first == a
                    && s->Err_0->second == b;
            assert(a == i) by {
                if i < a {
                    assert(element_turn(edges, i, axis) == 0);
                }
                if a < i {
                    assert(element_turn(edges, a, axis) == 0);
                }
            }
            assert(!opposite(element_turn(edges, i, axis), element_turn(edges, b, axis)));
        }
    } else if s is Ok {
        lemma_winding_unique(edges, count, axis, s, r);
    } else {
        if flat {
            if !(r->Err_0->first == 0 && r->Err_0->second == 0) {
                let (a, b) = choose|a: int, b: int|
                    0 <= a < b < m && #[trigger] element_turn(edges, a, axis) != 0
                        && none_turn_before(edges, a, axis) && opposite(
                        element_turn(edges, a, axis),
                        #[trigger] element_turn(edges, b, axis),
                    ) && none_oppose_before(edges, a, b, axis) && r->Err_0->first
                        == a && r->Err_0->second == b;
                assert(element_turn(edges, a, axis) == 0);
            }
            if !(s->Err_0->first == 0 && s->Err_0->second == 0) {
                let (a, b) = choose|a: int, b: int|
                    0 <= a < b < m && #[trigger] element_turn(edges, a, axis) != 0
                        && none_turn_before(edges, a, axis) && opposite(
                        element_turn(edges, a, axis),
                        #[trigger] element_turn(edges, b, axis),
                    ) && none_oppose_before(edges, a, b, axis) && s->Err_0->first
                        == a && s->Err_0->second == b;
                assert(element_turn(edges, a, axis) == 0);
            }
        } else {
            let (a, b) = choose|a: int, b: int|
                0 <= a < b < m && #[trigger] element_turn(edges, a, axis) != 0 && none_turn_before(
                    edges,
                    a,
                    axis,
                ) && opposite(element_turn(edges, a, axis), #[trigger] element_turn(edges, b, axis))
                    && none_oppose_before(edges, a, b, axis) && r->Err_0->first == a
                    && r->Err_0->second == b;
            let (c, d) = choose|c: int, d: int|
                0 <= c < d < m && #[trigger] element_turn(edges, c, axis) != 0 && none_turn_before(
                    edges,
                    c,
                    axis,
                ) && opposite(element_turn(edges, c, axis), #[trigger] element_turn(edges, d, axis))
                    && none_oppose_before(edges, c, d, axis) && s->Err_0->first == c
                    && s->Err_0->second == d;
            assert(a == c) by {
                if a < c {
                    assert(element_turn(edges, a, axis) == 0);
                }
                if c < a {
                    assert(element_turn(edges, c, axis) == 0);
                }
            }
            assert(b == d) by {
                if b < d {
                    assert(!opposite(element_turn(edges, c, axis), element_turn(edges, b, axis)));
                }
                if d < b {
                    assert(!opposite(element_turn(edges, a, axis), element_turn(edges, d, axis)));
                }
            }
        }
    }
}

/// The first edge that does not end where the next one starts.
fn first_break(edges: &Vec<Edge>, eps: Scalar) -> (r: Option<usize>)
    ensures
        match r {
            Some(i) => i + 1 < edges@.len() && !joined(edge_models(edges@), i as int, eps@)
                && forall|j: int| 0 <= j < i ==> #[trigger] joined(edge_models(edges@), j, eps@),
            None => continuous(edge_models(edges@), eps@),
        },
{
    let m = edges.len();
    if m == 0 {
        return None;
    }
    let mut i: usize = 0;
    while i < m - 1
        invariant
            m == edges@.len(),
            m >= 1,
            i <= m - 1,
            forall|j: int| 0 <= j < i ==> #[trigger] joined(edge_models(edges@), j, eps@),
        decreases m - i,
    {
        if !edges[i].b.within(edges[i + 1].a, eps) {
            return Some(i);
        }
        i = i + 1;
    }
    None
}

/// The area vector of a loop.
fn area_vector(edges: &Vec<Edge>) -> (r: Vec3)
    requires
        edges@.len() >= 1,
    ensures
        r@ == area_prefix(edge_models(edges@), edges@.len()),
{
    let origin = edges[0].a;
    let mut sum = Vec3::zero();
    let mut i: usize = 0;
    while i < edges.len()
        invariant
            edges@.len() >= 1,
            i <= edges@.len(),
            origin == edges@[0].a,
            sum@ == area_prefix(edge_models(edges@), i as nat),
        decreases edges@.len() - i,
    {
        let term = edges[i].a.sub(origin).cross(edges[i].b.sub(origin));
        sum = sum.add(term);
        i = i + 1;
    }
    sum
}

/// The axis along which a vector is longest.
fn dominant(v: Vec3) -> (r: Axis)
    ensures
        r == dominant_axis(v@),
{
    let x = magnitude_of(v.x.raw);
    let y = magnitude_of(v.y.raw);
    let z = magnitude_of(v.z.raw);
    if z >= x && z >= y {
        Axis::Z
    } else if y >= x {
        Axis::Y
    } else {
        Axis::X
    }
}

/// The orientation of the triangle `p`, `a`, `b` seen along `axis`.
fn orient(p: Vec3, a: Vec3, b: Vec3, axis: Axis) -> (r: i64)
    ensures
        r == orientation(p@, a@, b@, axis),
{
    let c = a.sub(p).cross(b.sub(p));
    match axis {
        Axis::X => c.x.raw,
        Axis::Y => c.y.raw,
        Axis::Z => c.z.raw,
    }
}

/// Whether `v` lies between `a` and `b`.
fn between(a: i64, b: i64, v: i64) -> (r: bool)
    ensures
        r == spans(a as int, b as int, v as int),
{
    if a <= b {
        a <= v && v <= b
    } else {
        b <= v && v <= a
    }
}

/// Whether `p` lies in the box spanned by `a` and `b`.
fn inside_box(a: Vec3, b: Vec3, p: Vec3) -> (r: bool)
    ensures
        r == in_box(a@, b@, p@),
{
    between(a.x.raw, b.x.raw, p.x.raw) && between(a.y.raw, b.y.raw, p.y.raw) && between(
        a.z.raw,
        b.z.raw,
        p.z.raw,
    )
}

/// Whether two intervals come within `eps` of each other.
fn intervals_near(a0: i64, a1: i64, b0: i64, b1: i64, eps: i64) -> (r: bool)
    ensures
        r == spans_near(a0 as int, a1 as int, b0 as int, b1 as int, eps as int),
{
    let a_lo = if a0 <= a1 {
        a0
    } else {
        a1
    };
    let a_hi = if a0 >= a1 {
        a0
    } else {
        a1
    };
    let b_lo = if b0 <= b1 {
        b0
    } else {
        b1
    };
    let b_hi = if b0 >= b1 {
        b0
    } else {
        b1
    };
    let lo = if a_lo >= b_lo {
        a_lo
    } else {
        b_lo
    };
    let hi = if a_hi <= b_hi {
        a_hi
    } else {
        b_hi
    };
    lo as i128 <= hi as i128 + eps as i128
}

/// Whether two edges meet.
fn meet(e: &Edge, f: &Edge, axis: Axis, eps: Scalar) -> (r: bool)
    ensures
        r == edges_meet(e@, f@, axis, eps@),
{
    if !(intervals_near(e.a.x.raw, e.b.x.raw, f.a.x.raw, f.b.x.raw, eps.raw) && intervals_near(
        e.a.y.raw,
        e.b.y.raw,
        f.a.y.raw,
        f.b.y.raw,
        eps.raw,
    ) && intervals_near(e.a.z.raw, e.b.z.raw, f.a.z.raw, f.b.z.raw, eps.raw)) {
        return false;
    }
    let o1 = orient(e.a, e.b, f.a, axis);
    let o2 = orient(e.a, e.b, f.b, axis);
    let o3 = orient(f.a, f.b, e.a, axis);
    let o4 = orient(f.a, f.b, e.b, axis);
    let cross_e = (o1 > 0 && o2 < 0) || (o1 < 0 && o2 > 0);
    let cross_f = (o3 > 0 && o4 < 0) || (o3 < 0 && o4 > 0);
    (cross_e && cross_f) || (o1 == 0 && inside_box(e.a, e.b, f.a)) || (o2 == 0 && inside_box(
        e.a,
        e.b,
        f.b,
    )) || (o3 == 0 && inside_box(f.a, f.b, e.a)) || (o4 == 0 && inside_box(f.a, f.b, e.b))
}

/// The first pair of edges that are no neighbours and meet.
fn first_meeting(edges: &Vec<Edge>, axis: Axis, eps: Scalar) -> (r: Option<(usize, usize)>)
    ensures
        match r {
            Some((p, q)) => pair_meets(edge_models(edges@), p as int, q as int, axis, eps@)
                && none_meet_before(edge_models(edges@), p as int, q as int, axis, eps@),
            None => simple(edge_models(edges@), axis, eps@),
        },
{
    let m = edges.len();
    let ghost model = edge_models(edges@);
    let mut p: usize = 0;
    while p < m
        invariant
            m == edges@.len(),
            model == edge_models(edges@),
            p <= m,
            none_meet_before(model, p as int, 0, axis, eps@),
        decreases m - p,
    {
        let mut q: usize = p + 1;
        while q < m
            invariant
                m == edges@.len(),
                model == edge_models(edges@),
                p < m,
                p < q <= m,
                none_meet_before(model, p as int, q as int, axis, eps@),
            decreases m - q,
        {
            let adjacent = q == p + 1 || (p == 0 && q == m - 1);
            if !adjacent && meet(&edges[p], &edges[q], axis, eps) {
                return Some((p, q));
            }
            assert(!pair_meets(model, p as int, q as int, axis, eps@));
            q = q + 1;
        }
        p = p + 1;
    }
    None
}

/// What the winding check found.
enum Winding {
    /// No element turns.
    Flat,
    /// Every element that turns does so the same way.
    Uniform { first: usize, counter_clockwise: bool },
    /// Element `second` turns against element `first`.
    Mixed { first: usize, second: usize },
}

/// Which way element `e` turns about the start of the loop.
fn turn_of_element(edges: &Vec<Edge>, e: usize, axis: Axis) -> (r: i64)
    requires
        edges@.len() >= 1,
    ensures
        r == element_turn(edge_models(edges@), e as int, axis),
{
    let ghost model = edge_models(edges@);
    let origin = edges[0].a;
    let mut sum = Scalar { raw: 0 };
    let mut i: usize = 0;
    while i < edges.len()
        invariant
            edges@.len() >= 1,
            i <= edges@.len(),
            model == edge_models(edges@),
            origin == edges@[0].a,
            sum@ == element_turn_prefix(model, e as int, axis, i as nat),
        decreases edges@.len() - i,
    {
        assert(model[i as int] == edges@[i as int]@);
        if edges[i].element == e {
            let s = orient(origin, edges[i].a, edges[i].b, axis);
            assert(s == turn_sign(model, i as int, axis));
            sum = sum.add(Scalar { raw: s });
        }
        i = i + 1;
    }
    sum.raw
}

/// Which way the elements of a loop turn about its start.
fn winding(edges: &Vec<Edge>, count: usize, axis: Axis) -> (r: Winding)
    requires
        edges@.len() >= 1,
    ensures
        match r {
            Winding::Flat => none_turn_before(edge_models(edges@), count as int, axis),
            Winding::Uniform { first, counter_clockwise } => first < count && element_turn(
                edge_models(edges@),
                first as int,
                axis,
            ) != 0 && none_turn_before(edge_models(edges@), first as int, axis)
                && none_oppose_before(edge_models(edges@), first as int, count as int, axis)
                && counter_clockwise == (element_turn(edge_models(edges@), first as int, axis)
                > 0),
            Winding::Mixed { first, second } => first < second < count && element_turn(
                edge_models(edges@),
                first as int,
                axis,
            ) != 0 && none_turn_before(edge_models(edges@), first as int, axis) && opposite(
                element_turn(edge_models(edges@), first as int, axis),
                element_turn(edge_models(edges@), second as int, axis),
            ) && none_oppose_before(edge_models(edges@), first as int, second as int, axis),
        },
{
    let ghost model = edge_models(edges@);
    let mut i: usize = 0;
    let mut sign: i64 = 0;
    while i < count
        invariant_except_break
            sign == 0,
            none_turn_before(model, i as int, axis),
        invariant
            edges@.len() >= 1,
            model == edge_models(edges@),
            i <= count,
        ensures
            i < count ==> sign == element_turn(model, i as int, axis) && sign != 0
                && none_turn_before(model, i as int, axis),
            i >= count ==> none_turn_before(model, count as int, axis),
        decreases count - i,
    {
        let s = turn_of_element(edges, i, axis);
        if s != 0 {
            sign = s;
            break ;
        }
        i = i + 1;
    }
    if i >= count {
        return Winding::Flat;
    }
    let first = i;
    let mut j: usize = first + 1;
    while j < count
        invariant
            edges@.len() >= 1,
            model == edge_models(edges@),
            first < j <= count,
            sign == element_turn(model, first as int, axis),
            sign != 0,
            none_turn_before(model, first as int, axis),
            none_oppose_before(model, first as int, j as int, axis),
        decreases count - j,
    {
        let s = turn_of_element(edges, j, axis);
        if (sign > 0 && s < 0) || (sign < 0 && s > 0) {
            return Winding::Mixed { first, second: j };
        }
        j = j + 1;
    }
    Winding::Uniform { first, counter_clockwise: sign > 0 }
}

/// The checks on a flattened loop, in order.
pub(crate) fn check_edges(edges: &Vec<Edge>, count: usize, eps: Scalar) -> (r: Result<
    Verdict,
    KernelError,
>)
    requires
        edges@.len() >= 1,
    ensures
        is_edges_verdict(edge_models(edges@), count as int, eps@, r),
{
    let m = edges.len();
    let ghost model = edge_models(edges@);
    match first_break(edges, eps) {
        Some(i) => {
            return Err(
                KernelError::InvalidLoop {
                    check: LoopCheck::Continuity,
                    first: edges[i].element,
                    second: edges[i + 1].element,
                },
            );
        },
        None => {},
    }
    if !edges[m - 1].b.within(edges[0].a, eps) {
        return Err(
            KernelError::InvalidLoop {
                check: LoopCheck::Closure,
                first: edges[m - 1].element,
                second: edges[0].element,
            },
        );
    }
    let axis = dominant(area_vector(edges));
    match first_meeting(edges, axis, eps) {
        Some((p, q)) => {
            return Err(
                KernelError::InvalidLoop {
                    check: LoopCheck::Simplicity,
                    first: edges[p].element,
                    second: edges[q].element,
                },
            );
        },
        None => {},
    }
    match winding(edges, count, axis) {
        Winding::Flat => Err(
            KernelError::InvalidLoop { check: LoopCheck::Winding, first: 0, second: 0 },
        ),
        Winding::Mixed { first, second } => Err(
            KernelError::InvalidLoop { check: LoopCheck::Winding, first, second },
        ),
        Winding::Uniform { first, counter_clockwise } => Ok(Verdict { axis, counter_clockwise }),
    }
}

} // verus!
