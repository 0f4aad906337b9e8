//! The accounting of a sketch: which elements are pinned, how many
//! parameters are free, how many equations the relations bring, and which
//! relations are in conflict.

use vstd::prelude::*;
use crate::fixed::Scalar;
use crate::sketch::{
    SketchElement, kinds_of, pinned, free_parameters, equation_total, missing_element,
};
use crate::sketch::relations::Relation;
use crate::sketch::residual::{relation_residual, push_residual, small, is_small, all_present, raws};

verus! {

/// Whether `r` is the first relation that names a missing element.
pub open spec fn first_missing(rels: Seq<Relation>, els: Seq<SketchElement>, r: int) -> bool {
    &&& 0 <= r < rels.len()
    &&& rels[r].missing(kinds_of(els)) is Some
    &&& forall|q: int| 0 <= q < r ==> (#[trigger] rels[q]).missing(kinds_of(els)) is None
}

/// Whether relation `r` does not hold of the elements: it has no residual,
/// or a residual above the tolerance.
pub open spec fn violated(rels: Seq<Relation>, els: Seq<SketchElement>, r: int, tol: int) -> bool {
    match relation_residual(rels[r], els) {
        Err(_) => true,
        Ok(rs) => !is_small(rs, tol),
    }
}

/// Whether relation `r` takes part in a conflict: it is violated, or it
/// pins an element that a violated relation names.
pub open spec fn in_conflict(rels: Seq<Relation>, els: Seq<SketchElement>, r: int, tol: int) -> bool {
    violated(rels, els, r, tol) || (rels[r] is Fixed && exists|q: int|
        0 <= q < rels.len() && #[trigger] violated(rels, els, q, tol) && rels[q].mentions(
            rels[r]->Fixed_0,
        ))
}

/// Whether no relation takes part in a conflict.
pub open spec fn no_conflict(rels: Seq<Relation>, els: Seq<SketchElement>, tol: int) -> bool {
    forall|q: int| 0 <= q < rels.len() ==> !#[trigger] in_conflict(rels, els, q, tol)
}

/// Whether `list` does right by relation `r`: it names the relation where
/// the relation takes part in a conflict, or where no relation does.
pub open spec fn listed_right(
    rels: Seq<Relation>,
    els: Seq<SketchElement>,
    tol: int,
    list: Seq<usize>,
    r: int,
) -> bool {
    list.contains(r as usize) <==> (in_conflict(rels, els, r, tol) || no_conflict(rels, els, tol))
}

/// Whether `list` names the relations in conflict: in rising order, every
/// relation that takes part in a conflict; or, where none does, every
/// relation there is.
pub open spec fn is_conflict_list(
    rels: Seq<Relation>,
    els: Seq<SketchElement>,
    tol: int,
    list: Seq<usize>,
) -> bool {
    &&& forall|a: int, b: int| 0 <= a < b < list.len() ==> list[a] < list[b]
    &&& forall|a: int| 0 <= a < list.len() ==> list[a] < rels.len()
    &&& forall|r: int| 0 <= r < rels.len() ==> #[trigger] listed_right(rels, els, tol, list, r)
}

/// Whether a relation before `n` pins element `i`.
pub open spec fn pinned_before(rels: Seq<Relation>, i: usize, n: int) -> bool {
    exists|r: int| 0 <= r < n && r < rels.len() && #[trigger] rels[r] == Relation::Fixed(i)
}

/// Which elements are pinned.
pub(crate) fn pinned_mask(rels: &Vec<Relation>, n: usize) -> (mask: Vec<bool>)
    ensures
        mask@.len() == n,
        forall|i: int| 0 <= i < n ==> #[trigger] mask@[i] == pinned(rels@, i as usize),
{
    let mut mask: Vec<bool> = Vec::new();
    let mut i: usize = 0;
    while i < n
        invariant
            i <= n,
            mask@.len() == i,
            forall|k: int| 0 <= k < i ==> !#[trigger] mask@[k],
        decreases n - i,
    {
        mask.push(false);
        i = i + 1;
    }
    let mut r: usize = 0;
    while r < rels.len()
        invariant
            r <= rels@.len(),
            mask@.len() == n,
            forall|k: int| 0 <= k < n ==> #[trigger] mask@[k] == pinned_before(rels@, k as usize, r as int),
        decreases rels@.len() - r,
    {
        let ghost before = mask@;
        match rels[r] {
            Relation::Fixed(e) => {
                if e < n {
                    mask.set(e, true);
                }
            },
            _ => {},
        }
        proof {
            assert forall|k: int| 0 <= k < n implies #[trigger] mask@[k] == pinned_before(
                rels@,
                k as usize,
                r + 1,
            ) by {
                if pinned_before(rels@, k as usize, r as int) {
                    let w = choose|w: int|
                        0 <= w < r && w < rels@.len() && #[trigger] rels@[w] == Relation::Fixed(
                            k as usize,
                        );
                    assert(0 <= w < r + 1 && rels@[w] == Relation::Fixed(k as usize));
                }
                if rels@[r as int] == Relation::Fixed(k as usize) {
                    assert(pinned_before(rels@, k as usize, r + 1));
                }
                if pinned_before(rels@, k as usize, r + 1) && !pinned_before(
                    rels@,
                    k as usize,
                    r as int,
                ) {
                    let w = choose|w: int|
                        0 <= w < r + 1 && w < rels@.len() && #[trigger] rels@[w]
                            == Relation::Fixed(k as usize);
                    assert(w == r);
                }
            }
        }
        r = r + 1;
    }
    proof {
        assert forall|k: int| 0 <= k < n implies #[trigger] mask@[k] == pinned(
            rels@,
            k as usize,
        ) by {
            if pinned(rels@, k as usize) {
                let w = choose|w: int|
                    0 <= w < rels@.len() && #[trigger] rels@[w] == Relation::Fixed(k as usize);
                assert(pinned_before(rels@, k as usize, rels@.len() as int));
            }
            if pinned_before(rels@, k as usize, rels@.len() as int) {
                let w = choose|w: int|
                    0 <= w < rels@.len() && w < rels@.len() && #[trigger] rels@[w]
                        == Relation::Fixed(k as usize);
                assert(pinned(rels@, k as usize));
            }
        }
    }
    mask
}

/// The free parameters count at most ten for every element.
pub proof fn lemma_free_parameters_bounded(els: Seq<SketchElement>, rels: Seq<Relation>, n: nat)
    ensures
        free_parameters(els, rels, n) <= 10 * n,
    decreases n,
{
    if n > 0 {
        lemma_free_parameters_bounded(els, rels, (n - 1) as nat);
    }
}

/// The equations count at most four for every relation.
pub proof fn lemma_equation_total_bounded(rels: Seq<Relation>, n: nat)
    ensures
        equation_total(rels, n) <= 4 * n,
    decreases n,
{
    if n > 0 {
        lemma_equation_total_bounded(rels, (n - 1) as nat);
    }
}

/// The free parameters of a sketch.
pub fn count_free_parameters(els: &Vec<SketchElement>, rels: &Vec<Relation>) -> (r: u128)
    ensures
        r == free_parameters(els@, rels@, els@.len()),
{
    let mask = pinned_mask(rels, els.len());
    let mut total: u128 = 0;
    let mut i: usize = 0;
    while i < els.len()
        invariant
            i <= els@.len(),
            mask@.len() == els@.len(),
            forall|k: int| 0 <= k < els@.len() ==> #[trigger] mask@[k] == pinned(rels@, k as usize),
            total == free_parameters(els@, rels@, i as nat),
        decreases els@.len() - i,
    {
        proof {
            lemma_free_parameters_bounded(els@, rels@, i as nat);
        }
        if !mask[i] {
            total = total + els[i].parameter_count() as u128;
        }
        i = i + 1;
    }
    total
}

/// The equations of a sketch.
pub fn count_equations(rels: &Vec<Relation>) -> (r: u128)
    ensures
        r == equation_total(rels@, rels@.len()),
{
    let mut total: u128 = 0;
    let mut i: usize = 0;
    while i < rels.len()
        invariant
            i <= rels@.len(),
            total == equation_total(rels@, i as nat),
        decreases rels@.len() - i,
    {
        proof {
            lemma_equation_total_bounded(rels@, i as nat);
        }
        total = total + rels[i].equation_count() as u128;
        i = i + 1;
    }
    total
}

/// The first relation that names a missing element, and that element.
pub(crate) fn find_missing(rels: &Vec<Relation>, els: &Vec<SketchElement>) -> (r: Option<(usize, usize)>)
    ensures
        match r {
            Some((at, element)) => first_missing(rels@, els@, at as int) && rels@[at as int].missing(
                kinds_of(els@),
            ) == Some(element),
            None => all_present(rels@, els@),
        },
{
    let mut i: usize = 0;
    while i < rels.len()
        invariant
            i <= rels@.len(),
            forall|q: int| 0 <= q < i ==> (#[trigger] rels@[q]).missing(kinds_of(els@)) is None,
        decreases rels@.len() - i,
    {
        match missing_element(&rels[i], els) {
            Some(element) => {
                return Some((i, element));
            },
            None => {},
        }
        i = i + 1;
    }
    None
}

/// Which relations do not hold.
pub(crate) fn violations(rels: &Vec<Relation>, els: &Vec<SketchElement>, tol: Scalar) -> (flags: Vec<bool>)
    requires
        all_present(rels@, els@),
    ensures
        flags@.len() == rels@.len(),
        forall|r: int| 0 <= r < rels@.len() ==> #[trigger] flags@[r] == violated(rels@, els@, r, tol@),
{
    let mut flags: Vec<bool> = Vec::new();
    let mut i: usize = 0;
    while i < rels.len()
        invariant
            i <= rels@.len(),
            all_present(rels@, els@),
            flags@.len() == i,
            forall|r: int| 0 <= r < i ==> #[trigger] flags@[r] == violated(rels@, els@, r, tol@),
        decreases rels@.len() - i,
    {
        let mut own: Vec<Scalar> = Vec::new();
        assert(raws(own@) =~= Seq::<int>::empty());
        let bad = match push_residual(&mut own, &rels[i], els) {
            Err(_) => true,
            Ok(()) => {
                assert(raws(own@) =~= relation_residual(rels@[i as int], els@)->Ok_0);
                !small(&own, tol)
            },
        };
        flags.push(bad);
        i = i + 1;
    }
    flags
}

/// Whether a violated relation names element `e`.
pub(crate) fn named_by_violated(rels: &Vec<Relation>, flags: &Vec<bool>, e: usize) -> (r: bool)
    requires
        flags@.len() == rels@.len(),
    ensures
        r == exists|q: int| 0 <= q < rels@.len() && #[trigger] flags@[q] && rels@[q].mentions(e),
{
    let mut q: usize = 0;
    while q < rels.len()
        invariant
            q <= rels@.len(),
            flags@.len() == rels@.len(),
            forall|k: int| 0 <= k < q ==> !(#[trigger] flags@[k] && rels@[k].mentions(e)),
        decreases rels@.len() - q,
    {
        if flags[q] && rels[q].names(e) {
            return true;
        }
        q = q + 1;
    }
    false
}

/// The relations in conflict.
pub(crate) fn conflict_list(rels: &Vec<Relation>, els: &Vec<SketchElement>, tol: Scalar) -> (list: Vec<
    usize,
>)
    requires
        all_present(rels@, els@),
    ensures
        is_conflict_list(rels@, els@, tol@, list@),
{
    let flags = violations(rels, els, tol);
    let mut list: Vec<usize> = Vec::new();
    let mut r: usize = 0;
    while r < rels.len()
        invariant
            r <= rels@.len(),
            flags@.len() == rels@.len(),
            forall|k: int| 0 <= k < rels@.len() ==> #[trigger] flags@[k] == violated(rels@, els@, k, tol@),
            forall|a: int, b: int| 0 <= a < b < list@.len() ==> list@[a] < list@[b],
            forall|a: int| 0 <= a < list@.len() ==> list@[a] < r,
            forall|k: int|
                0 <= k < r ==> (list@.contains(k as usize) <==> #[trigger] in_conflict(
                    rels@,
                    els@,
                    k,
                    tol@,
                )),
        decreases rels@.len() - r,
    {
        let ghost before = list@;
        let pins = match rels[r] {
            Relation::Fixed(e) => named_by_violated(rels, &flags, e),
            _ => false,
        };
        let conflict = flags[r] || pins;
        proof {
            if rels@[r as int] is Fixed {
                let e = rels@[r as int]->Fixed_0;
                if pins {
                    let q = choose|q: int|
                        0 <= q < rels@.len() && #[trigger] flags@[q] && rels@[q].mentions(e);
                    assert(violated(rels@, els@, q, tol@));
                }
                if exists|q: int|
                    0 <= q < rels@.len() && #[trigger] violated(rels@, els@, q, tol@)
                        && rels@[q].mentions(e) {
                    let q = choose|q: int|
                        0 <= q < rels@.len() && #[trigger] violated(rels@, els@, q, tol@)
                            && rels@[q].mentions(e);
                    assert(flags@[q]);
                }
            }
            assert(conflict == in_conflict(rels@, els@, r as int, tol@));
        }
        if conflict {
            list.push(r);
            proof {
                assert(list@[list@.len() - 1] == r);
                assert forall|k: int| 0 <= k < r + 1 implies (list@.contains(k as usize)
                    <==> #[trigger] in_conflict(rels@, els@, k, tol@)) by {
                    if k < r {
                        if before.contains(k as usize) {
                            let a = choose|a: int| 0 <= a < before.len() && before[a] == k as usize;
                            assert(list@[a] == k as usize);
                        }
                        if list@.contains(k as usize) {
                            let a = choose|a: int| 0 <= a < list@.len() && list@[a] == k as usize;
                            assert(a < before.len());
                            assert(before[a] == k as usize);
                        }
                    }
                }
            }
        } else {
            proof {
                if list@.contains(r) {
                    let a = choose|a: int| 0 <= a < list@.len() && list@[a] == r;
                    assert(list@[a] < r);
                }
            }
        }
        r = r + 1;
    }
    if list.len() > 0 {
        proof {
            let k = list@[0] as int;
            assert(list@.contains(k as usize));
            assert(in_conflict(rels@, els@, k, tol@));
            assert(!no_conflict(rels@, els@, tol@));
            assert forall|q: int| 0 <= q < rels@.len() implies #[trigger] listed_right(
                rels@,
                els@,
                tol@,
                list@,
                q,
            ) by {}
        }
        return list;
    }
    proof {
        assert forall|q: int| 0 <= q < rels@.len() implies !#[trigger] in_conflict(
            rels@,
            els@,
            q,
            tol@,
        ) by {
            if in_conflict(rels@, els@, q, tol@) {
                assert(list@.contains(q as usize));
            }
        }
    }
    let mut all: Vec<usize> = Vec::new();
    let mut i: usize = 0;
    while i < rels.len()
        invariant
            i <= rels@.len(),
            all@.len() == i,
            forall|a: int| 0 <= a < i ==> all@[a] == a,
            forall|q: int| 0 <= q < rels@.len() ==> !#[trigger] in_conflict(rels@, els@, q, tol@),
        decreases rels@.len() - i,
    {
        all.push(i);
        i = i + 1;
    }
    proof {
        assert(no_conflict(rels@, els@, tol@));
        assert forall|k: int| 0 <= k < rels@.len() implies #[trigger] listed_right(
            rels@,
            els@,
            tol@,
            all@,
            k,
        ) by {
            assert(all@[k] == k as usize);
        }
    }
    all
}

} // verus!
