//! The linear algebra of the solver: rows and matrices of scalars, the
//! damped normal equations, and their solution by elimination.

use vstd::prelude::*;
use crate::fixed::{Scalar, ONE_RAW, mul_div_raw, fx_add, fx_sub, fx_mul, fx_neg, fx_mul_div};
use crate::sketch::residual::raws;

verus! {

/// Whether `a` is a matrix of the given height and width, held by rows.
pub open spec fn is_matrix(a: Seq<Vec<Scalar>>, rows: int, cols: int) -> bool {
    &&& a.len() == rows
    &&& forall|i: int| 0 <= i < rows ==> (#[trigger] a[i])@.len() == cols
}

/// The rows of a matrix as sequences of raw values.
pub open spec fn grid(m: Seq<Vec<Scalar>>) -> Seq<Seq<int>> {
    Seq::new(m.len(), |i: int| raws(m[i]@))
}

/// The dot product of the first `n` members of two rows: every product is
/// rounded and every sum saturates.
pub open spec fn dot_prefix(a: Seq<int>, b: Seq<int>, n: nat) -> int
    decreases n,
{
    if n == 0 {
        0
    } else {
        fx_add(dot_prefix(a, b, (n - 1) as nat), fx_mul(a[n - 1], b[n - 1]))
    }
}

/// The dot product of two rows of one length.
pub open spec fn dot_of(a: Seq<int>, b: Seq<int>) -> int {
    dot_prefix(a, b, a.len())
}

/// Row `u` of the damped normal equations `(J^T J + damping) x = -J^T r`,
/// where the rows of `jac` are the columns of `J`: the products of row `u`
/// with every row, the damping added on the diagonal, and then the
/// right-hand side.
pub open spec fn normal_row(jac: Seq<Seq<int>>, base: Seq<int>, damping: int, u: int) -> Seq<int> {
    Seq::new(
        jac.len() + 1,
        |w: int|
            if w < jac.len() {
                if u == w {
                    fx_add(dot_of(jac[u], jac[w]), damping)
                } else {
                    dot_of(jac[u], jac[w])
                }
            } else {
                fx_neg(dot_of(jac[u], base))
            },
    )
}

/// The damped normal equations, with the right-hand side as last column.
pub open spec fn normal_system(jac: Seq<Seq<int>>, base: Seq<int>, damping: int) -> Seq<Seq<int>> {
    Seq::new(jac.len(), |u: int| normal_row(jac, base, damping, u))
}

/// The dot product of two rows of one length.
pub(crate) fn row_dot(a: &Vec<Scalar>, b: &Vec<Scalar>) -> (r: Scalar)
    requires
        a@.len() == b@.len(),
    ensures
        r@ == dot_of(raws(a@), raws(b@)),
{
    let mut sum = Scalar { raw: 0 };
    let mut i: usize = 0;
    while i < a.len()
        invariant
            i <= a@.len(),
            a@.len() == b@.len(),
            sum@ == dot_prefix(raws(a@), raws(b@), i as nat),
        decreases a@.len() - i,
    {
        assert(raws(a@)[i as int] == a@[i as int]@);
        assert(raws(b@)[i as int] == b@[i as int]@);
        sum = sum.add(a[i].mul(b[i]));
        i = i + 1;
    }
    sum
}

/// The damped normal equations `(J^T J + damping) x = -J^T r`, as a matrix
/// with the right-hand side in its last column.
pub(crate) fn normal_equations(jac: &Vec<Vec<Scalar>>, base: &Vec<Scalar>, damping: Scalar) -> (r: Vec<
    Vec<Scalar>,
>)
    requires
        jac@.len() < usize::MAX,
        is_matrix(jac@, jac@.len() as int, base@.len() as int),
    ensures
        grid(r@) == normal_system(grid(jac@), raws(base@), damping@),
        is_matrix(r@, jac@.len() as int, jac@.len() as int + 1),
{
    let k = jac.len();
    let ghost model = grid(jac@);
    let ghost target = normal_system(model, raws(base@), damping@);
    let mut out: Vec<Vec<Scalar>> = Vec::new();
    let mut u: usize = 0;
    assert(grid(out@) =~= target.take(0));
    while u < k
        invariant
            u <= k,
            k == jac@.len(),
            k < usize::MAX,
            model == grid(jac@),
            target == normal_system(model, raws(base@), damping@),
            is_matrix(jac@, k as int, base@.len() as int),
            is_matrix(out@, u as int, k + 1),
            grid(out@) == target.take(u as int),
        decreases k - u,
    {
        let ghost goal = normal_row(model, raws(base@), damping@, u as int);
        let mut row: Vec<Scalar> = Vec::new();
        let mut w: usize = 0;
        assert(raws(row@) =~= goal.take(0));
        while w < k
            invariant
                u < k,
                w <= k,
                k == jac@.len(),
                model == grid(jac@),
                goal == normal_row(model, raws(base@), damping@, u as int),
                is_matrix(jac@, k as int, base@.len() as int),
                row@.len() == w,
                raws(row@) == goal.take(w as int),
            decreases k - w,
        {
            assert(jac@[u as int]@.len() == base@.len());
            assert(jac@[w as int]@.len() == base@.len());
            assert(model[u as int] == raws(jac@[u as int]@));
            assert(model[w as int] == raws(jac@[w as int]@));
            let entry = row_dot(&jac[u], &jac[w]);
            if u == w {
                row.push(entry.add(damping));
            } else {
                row.push(entry);
            }
            assert(raws(row@) =~= goal.take(w + 1));
            w = w + 1;
        }
        assert(jac@[u as int]@.len() == base@.len());
        assert(model[u as int] == raws(jac@[u as int]@));
        let ghost filled = row@;
        let last = row_dot(&jac[u], base).neg();
        row.push(last);
        proof {
            assert(goal.len() == k + 1);
            assert(goal[k as int] == last@);
            assert(raws(row@) =~= raws(filled).push(last@));
            assert(goal =~= goal.take(k as int).push(goal[k as int]));
        }
        let ghost before = out@;
        out.push(row);
        proof {
            assert forall|i: int| 0 <= i < u + 1 implies (#[trigger] out@[i])@.len() == k + 1 by {
                if i < u {
                    assert(out@[i] == before[i]);
                }
            }
            assert(grid(out@) =~= grid(before).push(goal));
            assert(target.take(u + 1) =~= target.take(u as int).push(goal));
        }
        u = u + 1;
    }
    assert(target.take(k as int) =~= target);
    out
}

/// The row divided by `pivot`.
pub open spec fn divided(row: Seq<int>, pivot: int) -> Seq<int> {
    Seq::new(row.len(), |i: int| fx_mul_div(row[i], ONE_RAW as int, pivot))
}

/// The row `a` less `factor` times the row `b`.
pub open spec fn reduced(a: Seq<int>, b: Seq<int>, factor: int) -> Seq<int> {
    Seq::new(a.len(), |i: int| fx_sub(a[i], fx_mul(factor, b[i])))
}

/// The matrix with column `c` cleared from the first `n` rows but row `c`:
/// each loses its entry in column `c` times row `c`.
pub open spec fn cleared(m: Seq<Seq<int>>, c: int, n: nat) -> Seq<Seq<int>>
    decreases n,
{
    if n == 0 {
        m
    } else {
        let before = cleared(m, c, (n - 1) as nat);
        if n - 1 != c && before[n - 1][c] != 0 {
            before.update(n - 1, reduced(before[n - 1], before[c], before[n - 1][c]))
        } else {
            before
        }
    }
}

/// The matrix after the elimination of column `c`: row `c` is divided by
/// its pivot and the column is cleared from every other row. A column whose
/// pivot is zero is left as it is.
pub open spec fn column_done(m: Seq<Seq<int>>, c: int) -> Seq<Seq<int>> {
    if m[c][c] == 0 {
        m
    } else {
        cleared(m.update(c, divided(m[c], m[c][c])), c, m.len())
    }
}

/// The matrix after the elimination of its first `n` columns.
pub open spec fn eliminated(m: Seq<Seq<int>>, n: nat) -> Seq<Seq<int>>
    decreases n,
{
    if n == 0 {
        m
    } else {
        column_done(eliminated(m, (n - 1) as nat), n - 1)
    }
}

/// The solution that an eliminated system shows: the right-hand side of
/// every row with a pivot, and zero for a row without.
pub open spec fn solution(m: Seq<Seq<int>>) -> Seq<int> {
    Seq::new(
        m.len(),
        |i: int|
            if m[i][i] != 0 {
                m[i][m.len() as int]
            } else {
                0
            },
    )
}

/// The solution of a linear system by elimination.
pub open spec fn solved_system(m: Seq<Seq<int>>) -> Seq<int> {
    solution(eliminated(m, m.len()))
}

/// The row divided by `pivot`.
pub(crate) fn divided_row(row: &Vec<Scalar>, pivot: Scalar) -> (r: Vec<Scalar>)
    requires
        pivot@ != 0,
    ensures
        raws(r@) == divided(raws(row@), pivot@),
        r@.len() == row@.len(),
{
    let ghost target = divided(raws(row@), pivot@);
    let mut out: Vec<Scalar> = Vec::new();
    let mut i: usize = 0;
    assert(raws(out@) =~= target.take(0));
    while i < row.len()
        invariant
            i <= row@.len(),
            pivot@ != 0,
            out@.len() == i,
            target == divided(raws(row@), pivot@),
            raws(out@) == target.take(i as int),
        decreases row@.len() - i,
    {
        assert(raws(row@)[i as int] == row@[i as int]@);
        out.push(Scalar { raw: mul_div_raw(row[i].raw, ONE_RAW, pivot.raw) });
        assert(raws(out@) =~= target.take(i + 1));
        i = i + 1;
    }
    assert(target.take(row@.len() as int) =~= target);
    out
}

/// The row `a` less `factor` times the row `b`.
pub(crate) fn reduced_row(a: &Vec<Scalar>, b: &Vec<Scalar>, factor: Scalar) -> (r: Vec<Scalar>)
    requires
        a@.len() == b@.len(),
    ensures
        raws(r@) == reduced(raws(a@), raws(b@), factor@),
        r@.len() == a@.len(),
{
    let ghost target = reduced(raws(a@), raws(b@), factor@);
    let mut out: Vec<Scalar> = Vec::new();
    let mut i: usize = 0;
    assert(raws(out@) =~= target.take(0));
    while i < a.len()
        invariant
            i <= a@.len(),
            a@.len() == b@.len(),
            out@.len() == i,
            target == reduced(raws(a@), raws(b@), factor@),
            raws(out@) == target.take(i as int),
        decreases a@.len() - i,
    {
        assert(raws(a@)[i as int] == a@[i as int]@);
        assert(raws(b@)[i as int] == b@[i as int]@);
        out.push(a[i].sub(factor.mul(b[i])));
        assert(raws(out@) =~= target.take(i + 1));
        i = i + 1;
    }
    assert(target.take(a@.len() as int) =~= target);
    out
}

/// Replacing a row of a matrix by one of the same width leaves a matrix,
/// and replaces the row of its grid.
pub(crate) proof fn lemma_matrix_update(a: Seq<Vec<Scalar>>, rows: int, cols: int, i: int, row: Vec<Scalar>)
    requires
        is_matrix(a, rows, cols),
        0 <= i < rows,
        row@.len() == cols,
    ensures
        is_matrix(a.update(i, row), rows, cols),
        grid(a.update(i, row)) == grid(a).update(i, raws(row@)),
{
    assert forall|j: int| 0 <= j < rows implies (#[trigger] a.update(i, row)[j])@.len() == cols by {
        if j != i {
            assert(a.update(i, row)[j] == a[j]);
        }
    }
    assert(grid(a.update(i, row)) =~= grid(a).update(i, raws(row@)));
}

/// The solution of a linear system by elimination, column by column. A
/// column without a pivot leaves its unknown at zero.
pub(crate) fn solve_linear(system: Vec<Vec<Scalar>>) -> (x: Vec<Scalar>)
    requires
        system@.len() < usize::MAX,
        is_matrix(system@, system@.len() as int, system@.len() as int + 1),
    ensures
        raws(x@) == solved_system(grid(system@)),
        x@.len() == system@.len(),
{
    let k = system.len();
    let ghost start = grid(system@);
    let mut m = system;
    let mut c: usize = 0;
    while c < k
        invariant
            c <= k,
            k < usize::MAX,
            k == start.len(),
            is_matrix(m@, k as int, k + 1),
            grid(m@) == eliminated(start, c as nat),
        decreases k - c,
    {
        assert(m@[c as int]@.len() == k + 1);
        let ghost entering = grid(m@);
        assert(entering[c as int] == raws(m@[c as int]@));
        let pivot = m[c][c];
        assert(pivot@ == entering[c as int][c as int]);
        if pivot.raw != 0 {
            let top = divided_row(&m[c], pivot);
            proof {
                lemma_matrix_update(m@, k as int, k + 1, c as int, top);
            }
            m.set(c, top);
            let ghost scaled = grid(m@);
            let mut q: usize = 0;
            while q < k
                invariant
                    c < k,
                    q <= k,
                    k < usize::MAX,
                    is_matrix(m@, k as int, k + 1),
                    grid(m@) == cleared(scaled, c as int, q as nat),
                decreases k - q,
            {
                let ghost now = grid(m@);
                assert(m@[q as int]@.len() == k + 1);
                assert(m@[c as int]@.len() == k + 1);
                assert(now[q as int] == raws(m@[q as int]@));
                assert(now[c as int] == raws(m@[c as int]@));
                if q != c {
                    let factor = m[q][c];
                    assert(factor@ == now[q as int][c as int]);
                    if factor.raw != 0 {
                        let lower = reduced_row(&m[q], &m[c], factor);
                        proof {
                            lemma_matrix_update(m@, k as int, k + 1, q as int, lower);
                        }
                        m.set(q, lower);
                    }
                }
                q = q + 1;
            }
        }
        c = c + 1;
    }
    let ghost done = grid(m@);
    let ghost target = solution(done);
    let mut x: Vec<Scalar> = Vec::new();
    let mut i: usize = 0;
    assert(raws(x@) =~= target.take(0));
    while i < k
        invariant
            i <= k,
            k < usize::MAX,
            is_matrix(m@, k as int, k + 1),
            done == grid(m@),
            target == solution(done),
            x@.len() == i,
            raws(x@) == target.take(i as int),
        decreases k - i,
    {
        assert(m@[i as int]@.len() == k + 1);
        assert(done[i as int] == raws(m@[i as int]@));
        if m[i][i].raw != 0 {
            x.push(m[i][k]);
        } else {
            x.push(Scalar { raw: 0 });
        }
        assert(raws(x@) =~= target.take(i + 1));
        i = i + 1;
    }
    assert(target.take(k as int) =~= target);
    x
}

} // verus!
