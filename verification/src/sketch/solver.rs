//! The constraint solver: a damped least-squares iteration that moves the
//! free parameters of a sketch until its relations hold.

use vstd::prelude::*;
use crate::error::KernelError;
use crate::fixed::{Scalar, ONE_RAW, MAX_RAW, mul_div_raw, magnitude_of, magnitude, fx_add, fx_sub, fx_mul_div};
use crate::sketch::{
    Sketch, SketchElement, kinds_of, pinned, free_parameters, degrees_of_freedom,
};
use crate::sketch::accounting::{
    first_missing, is_conflict_list, pinned_mask, lemma_free_parameters_bounded,
    lemma_equation_total_bounded, count_free_parameters, count_equations, find_missing,
    conflict_list,
};
use crate::sketch::linear::{
    is_matrix, grid, normal_system, normal_equations, solved_system, solve_linear,
};
use crate::sketch::relations::Relation;
use crate::sketch::residual::{
    residuals, residuals_of, small, is_small, satisfied, all_present, raws, is_primitive_failure,
};

verus! {

/// What the solver is told: the norm of the residuals below which a sketch
/// counts as solved, and the number of iterations that it may spend.
#[derive(Clone, Copy, Debug, PartialEq, Eq, Structural)]
pub struct SolverConfig {
    pub tolerance: Scalar,
    pub max_iterations: u32,
}

impl Default for SolverConfig {
    /// A tolerance of `2^-20` and a budget of a hundred iterations.
    fn default() -> (r: SolverConfig)
        ensures
            r.tolerance@ == 0x1000,
            r.max_iterations == 100,
            config_valid(r),
    {
        SolverConfig { tolerance: Scalar { raw: 0x1000 }, max_iterations: 100 }
    }
}

/// What the solver found.
#[derive(Clone, Copy, Debug, PartialEq, Eq, Structural)]
pub struct SolveReport {
    /// The free parameters less the equations.
    pub degrees_of_freedom: u128,
    /// How many iterations were spent.
    pub iterations: u32,
    /// How many relations are left in conflict: none.
    pub conflicts: usize,
}

/// The step by which a parameter is moved to measure a derivative.
pub const PROBE_RAW: i64 = 0x10_0000;

/// The longest move of one parameter in one iteration.
pub const MAX_STEP_RAW: i64 = 0x40_0000_0000;

/// The damping with which the iteration starts.
pub const DAMPING_RAW: i64 = 0x1_0000;

/// The least damping.
pub const MIN_DAMPING_RAW: i64 = 0x10;

/// The most damping.
pub const MAX_DAMPING_RAW: i64 = 0x1_0000_0000_0000;

/// Whether a configuration can be solved with: a positive tolerance and a
/// budget of at least one iteration.
pub open spec fn config_valid(config: SolverConfig) -> bool {
    config.tolerance@ > 0 && config.max_iterations >= 1
}

/// One free parameter: its element, and its number within the element.
#[derive(Clone, Copy, Debug, PartialEq, Eq, Structural)]
pub struct Unknown {
    pub element: usize,
    pub parameter: usize,
}

/// Whether every unknown is a parameter of an element that no relation
/// pins.
pub open spec fn unknowns_valid(unknowns: Seq<Unknown>, els: Seq<SketchElement>, rels: Seq<Relation>) -> bool {
    forall|u: int|
        0 <= u < unknowns.len() ==> (#[trigger] unknowns[u]).element < els.len() && !pinned(
            rels,
            unknowns[u].element,
        ) && unknowns[u].parameter < els[unknowns[u].element as int].parameters()
}

/// Whether `after` holds the elements of `before` with other parameters at
/// most.
pub open spec fn shapes_kept(before: Seq<SketchElement>, after: Seq<SketchElement>) -> bool {
    &&& after.len() == before.len()
    &&& forall|i: int| 0 <= i < before.len() ==> (#[trigger] after[i]).same_shape(before[i])
}

/// Whether `after` holds every pinned element of `before` as it was.
pub open spec fn pins_kept(rels: Seq<Relation>, before: Seq<SketchElement>, after: Seq<SketchElement>) -> bool {
    forall|i: int|
        0 <= i < before.len() && i < after.len() && pinned(rels, i as usize) ==> #[trigger] after[i]
            == before[i]
}

/// Elements of the same shapes are of the same kinds, so relations that
/// name elements which are there keep doing so.
pub proof fn lemma_shapes_keep_presence(
    rels: Seq<Relation>,
    before: Seq<SketchElement>,
    after: Seq<SketchElement>,
)
    requires
        shapes_kept(before, after),
        all_present(rels, before),
    ensures
        all_present(rels, after),
        kinds_of(after) == kinds_of(before),
{
    assert forall|i: int| 0 <= i < before.len() implies after[i].spec_kind()
        == before[i].spec_kind() by {
        assert(after[i].same_shape(before[i]));
    }
    assert(kinds_of(after) =~= kinds_of(before));
}

/// The parameters of element `i`, one by one.
pub open spec fn own_unknowns(e: SketchElement, i: usize) -> Seq<Unknown> {
    Seq::new(e.parameters(), |j: int| Unknown { element: i, parameter: j as usize })
}

/// The free parameters of the first `n` elements, one by one: those of the
/// elements that no relation pins, in the order of the elements and then
/// of their parameters.
pub open spec fn unknowns_prefix(els: Seq<SketchElement>, rels: Seq<Relation>, n: nat) -> Seq<Unknown>
    decreases n,
{
    if n == 0 {
        Seq::empty()
    } else if pinned(rels, (n - 1) as usize) {
        unknowns_prefix(els, rels, (n - 1) as nat)
    } else {
        unknowns_prefix(els, rels, (n - 1) as nat) + own_unknowns(els[n - 1], (n - 1) as usize)
    }
}

/// The free parameters of a sketch, one by one.
pub open spec fn unknowns_of(els: Seq<SketchElement>, rels: Seq<Relation>) -> Seq<Unknown> {
    unknowns_prefix(els, rels, els.len())
}

/// The free parameters of a sketch, one by one.
fn list_unknowns(els: &Vec<SketchElement>, rels: &Vec<Relation>) -> (r: Vec<Unknown>)
    ensures
        r@ == unknowns_of(els@, rels@),
        unknowns_valid(r@, els@, rels@),
{
    let mask = pinned_mask(rels, els.len());
    let mut out: Vec<Unknown> = Vec::new();
    let mut i: usize = 0;
    while i < els.len()
        invariant
            i <= els@.len(),
            mask@.len() == els@.len(),
            forall|k: int| 0 <= k < els@.len() ==> #[trigger] mask@[k] == pinned(rels@, k as usize),
            unknowns_valid(out@, els@, rels@),
            out@ == unknowns_prefix(els@, rels@, i as nat),
        decreases els@.len() - i,
    {
        if !mask[i] {
            let n = els[i].parameter_count();
            let ghost before = out@;
            let ghost own = own_unknowns(els@[i as int], i);
            let mut j: usize = 0;
            assert(out@ =~= before + own.take(0));
            while j < n
                invariant
                    i < els@.len(),
                    j <= n,
                    n == els@[i as int].parameters(),
                    !pinned(rels@, i),
                    unknowns_valid(out@, els@, rels@),
                    own == own_unknowns(els@[i as int], i),
                    out@ == before + own.take(j as int),
                decreases n - j,
            {
                out.push(Unknown { element: i, parameter: j });
                assert(out@ =~= before + own.take(j + 1));
                j = j + 1;
            }
            assert(own.take(n as int) =~= own);
        }
        i = i + 1;
    }
    out
}

/// A copy of the elements.
fn copy_elements(els: &Vec<SketchElement>) -> (r: Vec<SketchElement>)
    ensures
        r@ == els@,
{
    let mut out: Vec<SketchElement> = Vec::new();
    let mut i: usize = 0;
    while i < els.len()
        invariant
            i <= els@.len(),
            out@ == els@.take(i as int),
        decreases els@.len() - i,
    {
        out.push(els[i]);
        assert(out@ =~= els@.take(i + 1));
        i = i + 1;
    }
    assert(els@.take(els@.len() as int) =~= els@);
    out
}

/// The scalar with the raw value `v`.
pub open spec fn scalar_of(v: int) -> Scalar {
    Scalar { raw: v as i64 }
}

/// The elements with the unknown `k` moved by `by`.
pub open spec fn nudged(els: Seq<SketchElement>, k: Unknown, by: int) -> Seq<SketchElement> {
    els.update(
        k.element as int,
        els[k.element as int].replaced(
            k.parameter as int,
            scalar_of(fx_add(els[k.element as int].parameter(k.parameter as int), by)),
        ),
    )
}

/// The elements with the first `n` unknowns moved, each by its share of
/// `delta`.
pub open spec fn moved_prefix(
    els: Seq<SketchElement>,
    unknowns: Seq<Unknown>,
    delta: Seq<int>,
    n: nat,
) -> Seq<SketchElement>
    decreases n,
{
    if n == 0 {
        els
    } else {
        nudged(moved_prefix(els, unknowns, delta, (n - 1) as nat), unknowns[n - 1], delta[n - 1])
    }
}

/// The elements with every unknown moved by its share of `delta`. Pinned
/// elements stay as they are, and every element keeps its shape.
fn moved(
    els: &Vec<SketchElement>,
    rels: &Vec<Relation>,
    unknowns: &Vec<Unknown>,
    delta: &Vec<Scalar>,
) -> (r: Vec<SketchElement>)
    requires
        unknowns_valid(unknowns@, els@, rels@),
        delta@.len() == unknowns@.len(),
    ensures
        r@ == moved_prefix(els@, unknowns@, raws(delta@), unknowns@.len()),
        shapes_kept(els@, r@),
        pins_kept(rels@, els@, r@),
{
    let mut work = copy_elements(els);
    let mut u: usize = 0;
    while u < unknowns.len()
        invariant
            u <= unknowns@.len(),
            delta@.len() == unknowns@.len(),
            unknowns_valid(unknowns@, els@, rels@),
            shapes_kept(els@, work@),
            pins_kept(rels@, els@, work@),
            work@ == moved_prefix(els@, unknowns@, raws(delta@), u as nat),
        decreases unknowns@.len() - u,
    {
        let k = unknowns[u];
        let ghost before = work@;
        assert(before[k.element as int].same_shape(els@[k.element as int]));
        let old_value = work[k.element].get_parameter(k.parameter);
        let new_value = old_value.add(delta[u]);
        assert(new_value == scalar_of(fx_add(old_value@, raws(delta@)[u as int])));
        let changed = work[k.element].with_parameter(k.parameter, new_value);
        work.set(k.element, changed);
        proof {
            assert(work@ == nudged(before, k, raws(delta@)[u as int]));
            assert forall|i: int| 0 <= i < els@.len() implies (#[trigger] work@[i]).same_shape(
                els@[i],
            ) by {
                if i != k.element {
                    assert(work@[i] == before[i]);
                    assert(before[i].same_shape(els@[i]));
                }
            }
            assert forall|i: int|
                0 <= i < els@.len() && i < work@.len() && pinned(
                    rels@,
                    i as usize,
                ) implies #[trigger] work@[i] == els@[i] by {
                assert(i != k.element);
                assert(work@[i] == before[i]);
            }
        }
        u = u + 1;
    }
    work
}

/// The derivatives of the residuals by one unknown: the change of every
/// residual from `base` to `there`, divided by the step that was taken.
pub open spec fn slope_row(there: Seq<int>, base: Seq<int>) -> Seq<int> {
    Seq::new(
        base.len(),
        |e: int|
            fx_mul_div(
                if e < there.len() {
                    fx_sub(there[e], base[e])
                } else {
                    0
                },
                ONE_RAW as int,
                PROBE_RAW as int,
            ),
    )
}

/// The derivatives of the residuals by the first `n` unknowns, a row for
/// each, or the error of the first unknown whose move leaves the elements
/// without residuals.
pub open spec fn jacobian_prefix(
    rels: Seq<Relation>,
    els: Seq<SketchElement>,
    unknowns: Seq<Unknown>,
    base: Seq<int>,
    n: nat,
) -> Result<Seq<Seq<int>>, KernelError>
    decreases n,
{
    if n == 0 {
        Ok(Seq::empty())
    } else {
        match jacobian_prefix(rels, els, unknowns, base, (n - 1) as nat) {
            Err(e) => Err(e),
            Ok(rows) => match residuals_of(rels, nudged(els, unknowns[n - 1], PROBE_RAW as int)) {
                Err(e) => Err(e),
                Ok(there) => Ok(rows.push(slope_row(there, base))),
            },
        }
    }
}

/// An error in a prefix is the error of every longer prefix.
pub proof fn lemma_jacobian_error(
    rels: Seq<Relation>,
    els: Seq<SketchElement>,
    unknowns: Seq<Unknown>,
    base: Seq<int>,
    n: nat,
    m: nat,
)
    requires
        n <= m,
        jacobian_prefix(rels, els, unknowns, base, n) is Err,
    ensures
        jacobian_prefix(rels, els, unknowns, base, m) == jacobian_prefix(rels, els, unknowns, base, n),
    decreases m - n,
{
    if n < m {
        lemma_jacobian_error(rels, els, unknowns, base, n, (m - 1) as nat);
    }
}

/// The derivative of every residual by every unknown, measured by moving
/// the unknown a little: one row for every unknown.
fn jacobian(
    rels: &Vec<Relation>,
    els: &Vec<SketchElement>,
    unknowns: &Vec<Unknown>,
    base: &Vec<Scalar>,
) -> (r: Result<Vec<Vec<Scalar>>, KernelError>)
    requires
        all_present(rels@, els@),
        unknowns_valid(unknowns@, els@, rels@),
    ensures
        match jacobian_prefix(rels@, els@, unknowns@, raws(base@), unknowns@.len()) {
            Err(e) => r == Err::<Vec<Vec<Scalar>>, KernelError>(e),
            Ok(rows) => r is Ok && grid(r->Ok_0@) == rows,
        },
        r is Ok ==> is_matrix(r->Ok_0@, unknowns@.len() as int, base@.len() as int),
        r is Err ==> is_primitive_failure(r->Err_0),
{
    let mut rows: Vec<Vec<Scalar>> = Vec::new();
    let mut u: usize = 0;
    assert(grid(rows@) =~= Seq::<Seq<int>>::empty());
    while u < unknowns.len()
        invariant
            u <= unknowns@.len(),
            all_present(rels@, els@),
            unknowns_valid(unknowns@, els@, rels@),
            is_matrix(rows@, u as int, base@.len() as int),
            jacobian_prefix(rels@, els@, unknowns@, raws(base@), u as nat) == Ok::<
                Seq<Seq<int>>,
                KernelError,
            >(grid(rows@)),
        decreases unknowns@.len() - u,
    {
        let k = unknowns[u];
        let mut probe = copy_elements(els);
        let value = probe[k.element].get_parameter(k.parameter);
        let new_value = value.add(Scalar { raw: PROBE_RAW });
        assert(new_value == scalar_of(fx_add(value@, PROBE_RAW as int)));
        let moved_element = probe[k.element].with_parameter(k.parameter, new_value);
        probe.set(k.element, moved_element);
        proof {
            assert(probe@ == nudged(els@, k, PROBE_RAW as int));
            assert forall|i: int| 0 <= i < els@.len() implies (#[trigger] probe@[i]).same_shape(
                els@[i],
            ) by {
                if i != k.element {
                    assert(probe@[i] == els@[i]);
                }
            }
            lemma_shapes_keep_presence(rels@, els@, probe@);
        }
        let there = match residuals(rels, &probe) {
            Err(e) => {
                proof {
                    lemma_jacobian_error(
                        rels@,
                        els@,
                        unknowns@,
                        raws(base@),
                        (u + 1) as nat,
                        unknowns@.len(),
                    );
                }
                return Err(e);
            },
            Ok(there) => there,
        };
        let ghost target = slope_row(raws(there@), raws(base@));
        let mut row: Vec<Scalar> = Vec::new();
        let mut e: usize = 0;
        assert(raws(row@) =~= target.take(0));
        while e < base.len()
            invariant
                e <= base@.len(),
                row@.len() == e,
                target == slope_row(raws(there@), raws(base@)),
                raws(row@) == target.take(e as int),
            decreases base@.len() - e,
        {
            let change = if e < there.len() {
                there[e].sub(base[e])
            } else {
                Scalar { raw: 0 }
            };
            row.push(Scalar { raw: mul_div_raw(change.raw, ONE_RAW, PROBE_RAW) });
            assert(raws(row@) =~= target.take(e + 1));
            e = e + 1;
        }
        assert(target.take(base@.len() as int) =~= target);
        let ghost before = rows@;
        rows.push(row);
        proof {
            assert forall|i: int| 0 <= i < u + 1 implies (#[trigger] rows@[i])@.len()
                == base@.len() by {
                if i < u {
                    assert(rows@[i] == before[i]);
                }
            }
            assert(grid(rows@) =~= grid(before).push(target));
        }
        u = u + 1;
    }
    Ok(rows)
}

/// The greatest magnitude among the first `n` members.
pub open spec fn longest_prefix(delta: Seq<int>, n: nat) -> int
    decreases n,
{
    if n == 0 {
        0
    } else if magnitude(delta[n - 1]) > longest_prefix(delta, (n - 1) as nat) {
        magnitude(delta[n - 1])
    } else {
        longest_prefix(delta, (n - 1) as nat)
    }
}

/// The step, shortened as a whole where one of its parts is longer than
/// `MAX_STEP_RAW`: every part is scaled by `MAX_STEP_RAW` over the longest.
pub open spec fn clamped_step(delta: Seq<int>) -> Seq<int> {
    let longest = longest_prefix(delta, delta.len());
    if longest <= MAX_STEP_RAW {
        delta
    } else {
        Seq::new(
            delta.len(),
            |j: int|
                fx_mul_div(
                    delta[j],
                    MAX_STEP_RAW as int,
                    if longest > MAX_RAW {
                        MAX_RAW as int
                    } else {
                        longest
                    },
                ),
        )
    }
}

/// The step, shortened as a whole where one of its parts is longer than
/// `MAX_STEP_RAW`.
fn clamped(delta: Vec<Scalar>) -> (r: Vec<Scalar>)
    ensures
        raws(r@) == clamped_step(raws(delta@)),
        r@.len() == delta@.len(),
{
    let ghost model = raws(delta@);
    let mut longest: u128 = 0;
    let mut i: usize = 0;
    while i < delta.len()
        invariant
            i <= delta@.len(),
            model == raws(delta@),
            longest <= 0x8000_0000_0000_0000,
            longest == longest_prefix(model, i as nat),
        decreases delta@.len() - i,
    {
        let v = magnitude_of(delta[i].raw);
        assert(model[i as int] == delta@[i as int]@);
        if v > longest {
            longest = v;
        }
        i = i + 1;
    }
    if longest <= MAX_STEP_RAW as u128 {
        return delta;
    }
    let divisor: i64 = if longest > 0x7fff_ffff_ffff_ffff {
        0x7fff_ffff_ffff_ffff
    } else {
        longest as i64
    };
    let ghost target = clamped_step(model);
    let mut out: Vec<Scalar> = Vec::new();
    let mut j: usize = 0;
    assert(raws(out@) =~= target.take(0));
    while j < delta.len()
        invariant
            j <= delta@.len(),
            out@.len() == j,
            divisor > 0,
            model == raws(delta@),
            longest == longest_prefix(model, model.len()),
            longest > MAX_STEP_RAW,
            divisor == if longest > MAX_RAW {
                MAX_RAW as int
            } else {
                longest as int
            },
            target == clamped_step(model),
            raws(out@) == target.take(j as int),
        decreases delta@.len() - j,
    {
        out.push(Scalar { raw: mul_div_raw(delta[j].raw, MAX_STEP_RAW, divisor) });
        assert(model[j as int] == delta@[j as int]@);
        assert(raws(out@) =~= target.take(j + 1));
        j = j + 1;
    }
    assert(target.take(delta@.len() as int) =~= target);
    out
}

/// The sum of the squares of the first `n` members, held at the largest
/// value of 128 bits once it has come that far.
pub open spec fn weight_prefix(rs: Seq<int>, n: nat) -> int
    decreases n,
{
    if n == 0 {
        0
    } else if weight_prefix(rs, (n - 1) as nat) + rs[n - 1] * rs[n - 1] > u128::MAX {
        u128::MAX as int
    } else {
        weight_prefix(rs, (n - 1) as nat) + rs[n - 1] * rs[n - 1]
    }
}

/// The sum of the squares of the residuals, saturated.
fn weight(rs: &Vec<Scalar>) -> (r: u128)
    ensures
        r == weight_prefix(raws(rs@), rs@.len()),
{
    let ghost model = raws(rs@);
    let mut sum: u128 = 0;
    let mut i: usize = 0;
    while i < rs.len()
        invariant
            i <= rs@.len(),
            model == raws(rs@),
            sum == weight_prefix(model, i as nat),
        decreases rs@.len() - i,
    {
        let m: u128 = magnitude_of(rs[i].raw);
        proof {
            crate::fixed::lemma_mul_bounded(
                m as int,
                m as int,
                0x8000_0000_0000_0000,
                0x8000_0000_0000_0000,
            );
            crate::fixed::lemma_mul_sign(rs@[i as int]@, rs@[i as int]@);
            assert(model[i as int] == rs@[i as int]@);
        }
        let term: u128 = m * m;
        if term > u128::MAX - sum {
            sum = u128::MAX;
        } else {
            sum = sum + term;
        }
        i = i + 1;
    }
    sum
}

/// Unknowns of some elements are unknowns of every sequence of elements
/// with the same shapes.
pub proof fn lemma_unknowns_follow_shapes(
    unknowns: Seq<Unknown>,
    rels: Seq<Relation>,
    before: Seq<SketchElement>,
    after: Seq<SketchElement>,
)
    requires
        unknowns_valid(unknowns, before, rels),
        shapes_kept(before, after),
    ensures
        unknowns_valid(unknowns, after, rels),
{
    assert forall|u: int| 0 <= u < unknowns.len() implies (#[trigger] unknowns[u]).element
        < after.len() && !pinned(rels, unknowns[u].element) && unknowns[u].parameter
        < after[unknowns[u].element as int].parameters() by {
        let i = unknowns[u].element as int;
        assert(after[i].same_shape(before[i]));
    }
}

/// Keeping shapes and keeping pins carry over two steps.
pub proof fn lemma_kept_twice(
    rels: Seq<Relation>,
    first: Seq<SketchElement>,
    second: Seq<SketchElement>,
    third: Seq<SketchElement>,
)
    requires
        shapes_kept(first, second),
        shapes_kept(second, third),
        pins_kept(rels, first, second),
        pins_kept(rels, second, third),
    ensures
        shapes_kept(first, third),
        pins_kept(rels, first, third),
{
    assert forall|i: int| 0 <= i < first.len() implies (#[trigger] third[i]).same_shape(
        first[i],
    ) by {
        assert(second[i].same_shape(first[i]));
        assert(third[i].same_shape(second[i]));
    }
    assert forall|i: int|
        0 <= i < first.len() && i < third.len() && pinned(
            rels,
            i as usize,
        ) implies #[trigger] third[i] == first[i] by {
        assert(second[i] == first[i]);
        assert(third[i] == second[i]);
    }
}

/// Elements keep their own shapes and pins.
pub proof fn lemma_kept_self(rels: Seq<Relation>, els: Seq<SketchElement>)
    ensures
        shapes_kept(els, els),
        pins_kept(rels, els, els),
{
}

/// A sketch without relations has no residual, and so is solved.
pub proof fn lemma_no_relations_satisfied(rels: Seq<Relation>, els: Seq<SketchElement>, tol: int)
    requires
        rels.len() == 0,
        tol >= 0,
    ensures
        all_present(rels, els),
        satisfied(rels, els, tol),
        degrees_of_freedom(els, rels) == free_parameters(els, rels, els.len()),
{
    assert(tol * tol >= 0) by (nonlinear_arith);
}

impl Sketch {
    /// The degrees of freedom of the sketch: the scalar parameters of the
    /// elements that no relation pins, less the scalar equations of the
    /// relations. Zero is fully determined, more is under-constrained, less
    /// is over-constrained.
    pub fn degrees_of_freedom(&self) -> (r: i128)
        ensures
            r == degrees_of_freedom(self.elements@, self.relations@),
    {
        let elements = self.elements.len();
        let relations = self.relations.len();
        proof {
            lemma_free_parameters_bounded(self.elements@, self.relations@, elements as nat);
            lemma_equation_total_bounded(self.relations@, relations as nat);
        }
        let free = count_free_parameters(&self.elements, &self.relations);
        let equations = count_equations(&self.relations);
        assert(free <= 10 * elements && equations <= 4 * relations);
        free as i128 - equations as i128
    }

    /// The residuals of the sketch as it stands: for every relation in
    /// order, what it asks to vanish. A relation that names a missing
    /// element is an error, and so is a relation over geometry that a
    /// primitive cannot work on.
    pub fn residuals(&self) -> (r: Result<Vec<Scalar>, KernelError>)
        ensures
            forall|q: int| #[trigger]
                first_missing(self.relations@, self.elements@, q) ==> r == Err::<
                    Vec<Scalar>,
                    KernelError,
                >(
                    KernelError::InvalidElementReference {
                        element: self.relations@[q].missing(kinds_of(self.elements@))->Some_0,
                    },
                ),
            all_present(self.relations@, self.elements@) ==> match residuals_of(
                self.relations@,
                self.elements@,
            ) {
                Err(e) => r == Err::<Vec<Scalar>, KernelError>(e),
                Ok(rs) => r is Ok && raws(r->Ok_0@) == rs,
            },
    {
        match find_missing(&self.relations, &self.elements) {
            Some((at, element)) => Err(KernelError::InvalidElementReference { element }),
            None => residuals(&self.relations, &self.elements),
        }
    }

    /// Solves the sketch: moves the parameters of the elements that no
    /// relation pins until the relations hold up to the tolerance.
    ///
    /// The sketch is first accounted for. A relation that names a missing
    /// element is an error; more equations than free parameters are an
    /// error that names the relations in conflict. A sketch that already
    /// meets its relations is left as it is. Every other sketch is worked
    /// on by damped least squares, for as many iterations as the budget
    /// allows: a step is kept where it does not raise the residuals, and
    /// the damping follows. The elements are overwritten on success alone.
    pub fn solve(&mut self, config: &SolverConfig) -> (r: Result<SolveReport, KernelError>)
        ensures
            final(self).relations == old(self).relations,
            final(self).plane == old(self).plane,
            shapes_kept(old(self).elements@, final(self).elements@),
            pins_kept(old(self).relations@, old(self).elements@, final(self).elements@),
            r is Err ==> final(self).elements == old(self).elements,
            !config_valid(*config) ==> r == Err::<SolveReport, KernelError>(
                KernelError::InvalidArgument,
            ),
            config_valid(*config) ==> forall|q: int| #[trigger]
                first_missing(old(self).relations@, old(self).elements@, q) ==> r == Err::<
                    SolveReport,
                    KernelError,
                >(
                    KernelError::InvalidElementReference {
                        element: old(self).relations@[q].missing(
                            kinds_of(old(self).elements@),
                        )->Some_0,
                    },
                ),
            config_valid(*config) && all_present(old(self).relations@, old(self).elements@)
                && degrees_of_freedom(old(self).elements@, old(self).relations@) < 0 ==> r is Err
                && r->Err_0 is OverConstrained && is_conflict_list(
                old(self).relations@,
                old(self).elements@,
                config.tolerance@,
                r->Err_0->relations@,
            ),
            config_valid(*config) && all_present(old(self).relations@, old(self).elements@)
                && degrees_of_freedom(old(self).elements@, old(self).relations@) >= 0
                && residuals_of(old(self).relations@, old(self).elements@) is Err ==> r == Err::<
                SolveReport,
                KernelError,
            >(residuals_of(old(self).relations@, old(self).elements@)->Err_0),
            config_valid(*config) && all_present(old(self).relations@, old(self).elements@)
                && degrees_of_freedom(old(self).elements@, old(self).relations@) >= 0 && satisfied(
                old(self).relations@,
                old(self).elements@,
                config.tolerance@,
            ) ==> r is Ok && r->Ok_0.iterations == 0 && final(self).elements == old(self).elements,
            config_valid(*config) && all_present(old(self).relations@, old(self).elements@)
                && degrees_of_freedom(old(self).elements@, old(self).relations@) >= 0
                && residuals_of(old(self).relations@, old(self).elements@) is Ok
                ==> match iteration_outcome(
                old(self).relations@,
                old(self).elements@,
                residuals_of(old(self).relations@, old(self).elements@)->Ok_0,
                config.tolerance@,
                config.max_iterations,
            ) {
                Err(e) => r == Err::<SolveReport, KernelError>(e),
                Ok(p) => r is Ok && r->Ok_0.iterations == p.steps && final(self).elements@
                    == p.work,
            },
            r is Ok ==> satisfied(
                final(self).relations@,
                final(self).elements@,
                config.tolerance@,
            ) && r->Ok_0.degrees_of_freedom == degrees_of_freedom(
                old(self).elements@,
                old(self).relations@,
            ) && r->Ok_0.conflicts == 0 && r->Ok_0.iterations <= config.max_iterations,
            r is Err && r->Err_0 is SolverDiverged ==> r->Err_0->iterations == config.max_iterations
                && !satisfied(old(self).relations@, old(self).elements@, config.tolerance@),
            config_valid(*config) && old(self).relations@.len() == 0 ==> r is Ok
                && r->Ok_0.degrees_of_freedom == free_parameters(
                old(self).elements@,
                old(self).relations@,
                old(self).elements@.len(),
            ) && r->Ok_0.iterations == 0 && final(self).elements == old(self).elements,
    {
        proof {
            lemma_kept_self(self.relations@, self.elements@);
            if self.relations@.len() == 0 && config.tolerance@ >= 0 {
                lemma_no_relations_satisfied(self.relations@, self.elements@, config.tolerance@);
            }
        }
        if config.tolerance.raw <= 0 || config.max_iterations == 0 {
            return Err(KernelError::InvalidArgument);
        }
        match find_missing(&self.relations, &self.elements) {
            Some((at, element)) => {
                return Err(KernelError::InvalidElementReference { element });
            },
            None => {},
        }
        let free = count_free_parameters(&self.elements, &self.relations);
        let equations = count_equations(&self.relations);
        if free < equations {
            let relations = conflict_list(&self.relations, &self.elements, config.tolerance);
            return Err(KernelError::OverConstrained { relations });
        }
        let degrees_of_freedom = free - equations;
        let mut base = match residuals(&self.relations, &self.elements) {
            Err(e) => {
                return Err(e);
            },
            Ok(base) => base,
        };
        if small(&base, config.tolerance) {
            return Ok(SolveReport { degrees_of_freedom, iterations: 0, conflicts: 0 });
        }
        match iterate(&self.relations, &self.elements, base, config) {
            Err(e) => Err(e),
            Ok((work, iterations)) => {
                self.elements = work;
                Ok(SolveReport { degrees_of_freedom, iterations, conflicts: 0 })
            },
        }
    }
}

/// The sum of the squares of residuals, saturated.
pub open spec fn weight_of(rs: Seq<int>) -> int {
    weight_prefix(rs, rs.len())
}

/// One step of the iteration from the elements `work`, whose residuals are
/// `base`: the derivatives are measured, the damped normal equations are
/// solved, the step is clamped and taken. The result is the elements
/// reached and their residuals, or the failure of the primitive that could
/// not work on the elements on the way.
#[verifier::opaque]
pub open spec fn step_of(
    rels: Seq<Relation>,
    work: Seq<SketchElement>,
    unknowns: Seq<Unknown>,
    base: Seq<int>,
    damping: int,
) -> Result<(Seq<SketchElement>, Seq<int>), KernelError> {
    match jacobian_prefix(rels, work, unknowns, base, unknowns.len()) {
        Err(e) => Err(e),
        Ok(jac) => {
            let delta = clamped_step(solved_system(normal_system(jac, base, damping)));
            let trial = moved_prefix(work, unknowns, delta, unknowns.len());
            match residuals_of(rels, trial) {
                Err(e) => Err(e),
                Ok(there) => Ok((trial, there)),
            }
        },
    }
}

/// The damping after a step: a quarter of what it was where the step was
/// kept, four times as much where it was not, within its two bounds.
pub open spec fn damping_after(damping: int, kept: bool) -> int {
    if kept {
        if damping / 4 < MIN_DAMPING_RAW {
            MIN_DAMPING_RAW as int
        } else {
            damping / 4
        }
    } else {
        if damping > MAX_DAMPING_RAW / 4 {
            MAX_DAMPING_RAW as int
        } else {
            damping * 4
        }
    }
}

/// The state of an iteration: the elements reached, their residuals, the
/// damping, and the number of steps taken.
pub struct Progress {
    pub work: Seq<SketchElement>,
    pub base: Seq<int>,
    pub damping: int,
    pub steps: nat,
}

/// The state after one step from the state `p`. The step is kept where it
/// does not raise the weight of the residuals; where it does, the elements
/// stay and only the damping changes.
#[verifier::opaque]
pub open spec fn advance_of(rels: Seq<Relation>, unknowns: Seq<Unknown>, p: Progress) -> Result<
    Progress,
    KernelError,
> {
    match step_of(rels, p.work, unknowns, p.base, p.damping) {
        Err(e) => Err(e),
        Ok((trial, there)) => if weight_of(there) <= weight_of(p.base) {
            Ok(
                Progress {
                    work: trial,
                    base: there,
                    damping: damping_after(p.damping, true),
                    steps: p.steps + 1,
                },
            )
        } else {
            Ok(
                Progress {
                    work: p.work,
                    base: p.base,
                    damping: damping_after(p.damping, false),
                    steps: p.steps + 1,
                },
            )
        },
    }
}

/// The state of the iteration after at most `n` steps from `start`. No
/// step is taken from a state whose residuals are small.
#[verifier::opaque]
pub open spec fn progress_after(
    rels: Seq<Relation>,
    unknowns: Seq<Unknown>,
    start: Progress,
    tol: int,
    n: nat,
) -> Result<Progress, KernelError>
    decreases n,
{
    if n == 0 {
        Ok(start)
    } else {
        match progress_after(rels, unknowns, start, tol, (n - 1) as nat) {
            Err(e) => Err(e),
            Ok(p) => if is_small(p.base, tol) {
                Ok(p)
            } else {
                advance_of(rels, unknowns, p)
            },
        }
    }
}

/// What the iteration comes to on elements whose residuals are `base`,
/// with a budget of steps: the state in which the residuals are small, or
/// the failure of a primitive on the way, or, with the budget spent, the
/// verdict that the solver diverged. Elements whose residuals are small
/// from the start are the outcome as they are.
pub open spec fn iteration_outcome(
    rels: Seq<Relation>,
    els: Seq<SketchElement>,
    base: Seq<int>,
    tol: int,
    budget: u32,
) -> Result<Progress, KernelError> {
    let start = Progress { work: els, base, damping: DAMPING_RAW as int, steps: 0 };
    if is_small(base, tol) {
        Ok(start)
    } else if unknowns_of(els, rels).len() >= usize::MAX {
        Err(KernelError::InvalidArgument)
    } else {
        match progress_after(rels, unknowns_of(els, rels), start, tol, budget as nat) {
            Err(e) => Err(e),
            Ok(p) => if is_small(p.base, tol) {
                Ok(p)
            } else {
                Err(KernelError::SolverDiverged { iterations: budget })
            },
        }
    }
}

/// A state with small residuals is the state after any number of further
/// steps.
pub proof fn lemma_progress_stable(
    rels: Seq<Relation>,
    unknowns: Seq<Unknown>,
    start: Progress,
    tol: int,
    n: nat,
    m: nat,
)
    requires
        n <= m,
        progress_after(rels, unknowns, start, tol, n) is Ok,
        is_small(progress_after(rels, unknowns, start, tol, n)->Ok_0.base, tol),
    ensures
        progress_after(rels, unknowns, start, tol, m) == progress_after(
            rels,
            unknowns,
            start,
            tol,
            n,
        ),
    decreases m - n,
{
    reveal_with_fuel(progress_after, 2);
    if n < m {
        lemma_progress_stable(rels, unknowns, start, tol, n, (m - 1) as nat);
    }
}

/// A failure on the way is the failure of the whole iteration.
pub proof fn lemma_progress_error(
    rels: Seq<Relation>,
    unknowns: Seq<Unknown>,
    start: Progress,
    tol: int,
    n: nat,
    m: nat,
)
    requires
        n <= m,
        progress_after(rels, unknowns, start, tol, n) is Err,
    ensures
        progress_after(rels, unknowns, start, tol, m) == progress_after(
            rels,
            unknowns,
            start,
            tol,
            n,
        ),
    decreases m - n,
{
    reveal_with_fuel(progress_after, 2);
    if n < m {
        lemma_progress_error(rels, unknowns, start, tol, n, (m - 1) as nat);
    }
}

/// The iteration starts from its first state.
pub proof fn lemma_progress_start(
    rels: Seq<Relation>,
    unknowns: Seq<Unknown>,
    start: Progress,
    tol: int,
)
    ensures
        progress_after(rels, unknowns, start, tol, 0) == Ok::<Progress, KernelError>(start),
{
    reveal_with_fuel(progress_after, 1);
}

/// The state after one more step: the step from the state `p` reached, as
/// long as the residuals of `p` are not small.
pub proof fn lemma_progress_step(
    rels: Seq<Relation>,
    unknowns: Seq<Unknown>,
    start: Progress,
    tol: int,
    n: nat,
    p: Progress,
)
    requires
        progress_after(rels, unknowns, start, tol, n) == Ok::<Progress, KernelError>(p),
        !is_small(p.base, tol),
    ensures
        progress_after(rels, unknowns, start, tol, n + 1) == advance_of(rels, unknowns, p),
{
    reveal_with_fuel(progress_after, 2);
}

/// One step of the iteration from the elements `work`, whose residuals are
/// `base`: the elements that the step leads to, and their residuals.
fn attempt(
    rels: &Vec<Relation>,
    work: &Vec<SketchElement>,
    unknowns: &Vec<Unknown>,
    base: &Vec<Scalar>,
    damping: Scalar,
) -> (r: Result<(Vec<SketchElement>, Vec<Scalar>), KernelError>)
    requires
        all_present(rels@, work@),
        unknowns_valid(unknowns@, work@, rels@),
        unknowns@.len() < usize::MAX,
    ensures
        match step_of(rels@, work@, unknowns@, raws(base@), damping@) {
            Err(e) => r == Err::<(Vec<SketchElement>, Vec<Scalar>), KernelError>(e),
            Ok((trial, there)) => r is Ok && r->Ok_0.0@ == trial && raws(r->Ok_0.1@) == there,
        },
        match r {
            Ok((trial, there)) => shapes_kept(work@, trial@) && pins_kept(rels@, work@, trial@)
                && residuals_of(rels@, trial@) == Ok::<Seq<int>, KernelError>(raws(there@)),
            Err(e) => is_primitive_failure(e),
        },
{
    reveal(step_of);
    let jac = match jacobian(rels, work, unknowns, base) {
        Err(e) => {
            return Err(e);
        },
        Ok(jac) => jac,
    };
    let system = normal_equations(&jac, base, damping);
    let delta = clamped(solve_linear(system));
    let trial = moved(work, rels, unknowns, &delta);
    proof {
        lemma_shapes_keep_presence(rels@, work@, trial@);
    }
    match residuals(rels, &trial) {
        Err(e) => Err(e),
        Ok(there) => Ok((trial, there)),
    }
}

/// The damping after a step that was kept, or was not.
fn next_damping(damping: Scalar, kept: bool) -> (r: Scalar)
    requires
        MIN_DAMPING_RAW <= damping.raw <= MAX_DAMPING_RAW,
    ensures
        r@ == damping_after(damping@, kept),
        MIN_DAMPING_RAW <= r.raw <= MAX_DAMPING_RAW,
{
    if kept {
        if damping.raw / 4 < MIN_DAMPING_RAW {
            Scalar { raw: MIN_DAMPING_RAW }
        } else {
            Scalar { raw: damping.raw / 4 }
        }
    } else {
        if damping.raw > MAX_DAMPING_RAW / 4 {
            Scalar { raw: MAX_DAMPING_RAW }
        } else {
            Scalar { raw: damping.raw * 4 }
        }
    }
}

/// Whether an iteration from the elements `els` stands, after `steps`
/// steps, at the elements `work` with the residuals `base`: the iteration
/// has come to that state, the elements have kept their shapes and their
/// pins, and the residuals are theirs.
#[verifier::opaque]
pub open spec fn on_course(
    rels: Seq<Relation>,
    els: Seq<SketchElement>,
    unknowns: Seq<Unknown>,
    start: Progress,
    tol: int,
    here: Progress,
) -> bool {
    &&& all_present(rels, els)
    &&& unknowns_valid(unknowns, els, rels)
    &&& unknowns.len() < usize::MAX
    &&& shapes_kept(els, here.work)
    &&& pins_kept(rels, els, here.work)
    &&& residuals_of(rels, here.work) == Ok::<Seq<int>, KernelError>(here.base)
    &&& MIN_DAMPING_RAW <= here.damping <= MAX_DAMPING_RAW
    &&& progress_after(rels, unknowns, start, tol, here.steps) == Ok::<Progress, KernelError>(here)
}

/// One step of the iteration: the elements, the residuals and the
/// damping that follow.
fn advance(
    rels: &Vec<Relation>,
    els: &Vec<SketchElement>,
    work: Vec<SketchElement>,
    unknowns: &Vec<Unknown>,
    base: Vec<Scalar>,
    damping: Scalar,
    config: &SolverConfig,
    Ghost(start): Ghost<Progress>,
    Ghost(steps): Ghost<nat>,
) -> (r: Result<(Vec<SketchElement>, Vec<Scalar>, Scalar), KernelError>)
    requires
        on_course(
            rels@,
            els@,
            unknowns@,
            start,
            config.tolerance@,
            Progress { work: work@, base: raws(base@), damping: damping@, steps },
        ),
        !is_small(raws(base@), config.tolerance@),
        steps < config.max_iterations,
    ensures
        match r {
            Ok((next, there, eased)) => on_course(
                rels@,
                els@,
                unknowns@,
                start,
                config.tolerance@,
                Progress { work: next@, base: raws(there@), damping: eased@, steps: steps + 1 },
            ),
            Err(e) => is_primitive_failure(e) && progress_after(
                rels@,
                unknowns@,
                start,
                config.tolerance@,
                config.max_iterations as nat,
            ) == Err::<Progress, KernelError>(e),
        },
{
    let ghost here = Progress { work: work@, base: raws(base@), damping: damping@, steps };
    proof {
        reveal(on_course);
        reveal(advance_of);
        lemma_shapes_keep_presence(rels@, els@, work@);
        lemma_unknowns_follow_shapes(unknowns@, rels@, els@, work@);
        lemma_progress_step(rels@, unknowns@, start, config.tolerance@, steps, here);
    }
    let (trial, there) = match attempt(rels, &work, unknowns, &base, damping) {
        Err(e) => {
            proof {
                lemma_progress_error(
                    rels@,
                    unknowns@,
                    start,
                    config.tolerance@,
                    steps + 1,
                    config.max_iterations as nat,
                );
            }
            return Err(e);
        },
        Ok(pair) => pair,
    };
    let kept = weight(&there) <= weight(&base);
    let eased = next_damping(damping, kept);
    if kept {
        proof {
            lemma_kept_twice(rels@, els@, work@, trial@);
        }
        Ok((trial, there, eased))
    } else {
        Ok((work, base, eased))
    }
}

/// The steps of the iteration from elements whose residuals are `base` and
/// not small, over the unknowns given.
fn run(
    rels: &Vec<Relation>,
    els: &Vec<SketchElement>,
    unknowns: &Vec<Unknown>,
    base: Vec<Scalar>,
    config: &SolverConfig,
) -> (r: Result<(Vec<SketchElement>, u32), KernelError>)
    requires
        all_present(rels@, els@),
        unknowns_valid(unknowns@, els@, rels@),
        unknowns@.len() < usize::MAX,
        residuals_of(rels@, els@) == Ok::<Seq<int>, KernelError>(raws(base@)),
        !is_small(raws(base@), config.tolerance@),
    ensures
        match progress_after(
            rels@,
            unknowns@,
            Progress { work: els@, base: raws(base@), damping: DAMPING_RAW as int, steps: 0 },
            config.tolerance@,
            config.max_iterations as nat,
        ) {
            Err(e) => r == Err::<(Vec<SketchElement>, u32), KernelError>(e),
            Ok(p) => if is_small(p.base, config.tolerance@) {
                r is Ok && r->Ok_0.0@ == p.work && r->Ok_0.1 == p.steps
            } else {
                r == Err::<(Vec<SketchElement>, u32), KernelError>(
                    KernelError::SolverDiverged { iterations: config.max_iterations },
                )
            },
        },
        match r {
            Ok((work, iterations)) => shapes_kept(els@, work@) && pins_kept(rels@, els@, work@)
                && satisfied(rels@, work@, config.tolerance@) && iterations
                <= config.max_iterations,
            Err(e) => e == (KernelError::SolverDiverged { iterations: config.max_iterations })
                || is_primitive_failure(e),
        },
{
    let ghost first = raws(base@);
    let ghost start = Progress { work: els@, base: first, damping: DAMPING_RAW as int, steps: 0 };
    let mut work = copy_elements(els);
    let mut current = base;
    let mut damping = Scalar { raw: DAMPING_RAW };
    let mut iterations: u32 = 0;
    let mut solved = false;
    proof {
        reveal(on_course);
        lemma_kept_self(rels@, els@);
        lemma_progress_start(rels@, unknowns@, start, config.tolerance@);
    }
    while iterations < config.max_iterations && !solved
        invariant
            iterations <= config.max_iterations,
            start == (Progress {
                work: els@,
                base: raws(base@),
                damping: DAMPING_RAW as int,
                steps: 0,
            }),
            solved == is_small(raws(current@), config.tolerance@),
            on_course(
                rels@,
                els@,
                unknowns@,
                start,
                config.tolerance@,
                Progress {
                    work: work@,
                    base: raws(current@),
                    damping: damping@,
                    steps: iterations as nat,
                },
            ),
        decreases config.max_iterations - iterations,
    {
        match advance(
            rels,
            els,
            work,
            unknowns,
            current,
            damping,
            config,
            Ghost(start),
            Ghost(iterations as nat),
        ) {
            Err(e) => {
                return Err(e);
            },
            Ok((next, there, eased)) => {
                work = next;
                current = there;
                damping = eased;
            },
        }
        iterations = iterations + 1;
        solved = small(&current, config.tolerance);
    }
    proof {
        reveal(on_course);
        if solved {
            lemma_progress_stable(
                rels@,
                unknowns@,
                start,
                config.tolerance@,
                iterations as nat,
                config.max_iterations as nat,
            );
        }
    }
    if solved {
        Ok((work, iterations))
    } else {
        Err(KernelError::SolverDiverged { iterations })
    }
}

/// The damped least-squares iteration on elements whose residuals are
/// `base`. On success the elements reached meet the relations; they have
/// the shapes of the elements given, and the pinned ones are untouched.
fn iterate(
    rels: &Vec<Relation>,
    els: &Vec<SketchElement>,
    base: Vec<Scalar>,
    config: &SolverConfig,
) -> (r: Result<(Vec<SketchElement>, u32), KernelError>)
    requires
        all_present(rels@, els@),
        residuals_of(rels@, els@) == Ok::<Seq<int>, KernelError>(raws(base@)),
    ensures
        match iteration_outcome(
            rels@,
            els@,
            raws(base@),
            config.tolerance@,
            config.max_iterations,
        ) {
            Err(e) => r == Err::<(Vec<SketchElement>, u32), KernelError>(e),
            Ok(p) => r is Ok && r->Ok_0.0@ == p.work && r->Ok_0.1 == p.steps,
        },
        match r {
            Ok((work, iterations)) => shapes_kept(els@, work@) && pins_kept(rels@, els@, work@)
                && satisfied(rels@, work@, config.tolerance@) && iterations
                <= config.max_iterations,
            Err(e) => e == (KernelError::SolverDiverged { iterations: config.max_iterations })
                || is_primitive_failure(e) || e is InvalidArgument,
        },
{
    if small(&base, config.tolerance) {
        proof {
            lemma_kept_self(rels@, els@);
        }
        return Ok((copy_elements(els), 0));
    }
    let unknowns = list_unknowns(els, rels);
    if unknowns.len() >= usize::MAX {
        return Err(KernelError::InvalidArgument);
    }
    run(rels, els, &unknowns, base, config)
}

} // verus!
