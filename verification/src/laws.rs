//! The algebraic laws of the matrix operations, stated and proved over
//! the mathematical model of `grid`.

use vstd::prelude::*;

use crate::grid::{
    abs_int, cofactor, col_of, det_expand, dot_prefix, grid_add, grid_det, grid_mul, grid_sub,
    identity_grid, is_grid, minor_grid, tdiv, transpose_grid,
};

verus! {

/// The dot product of a prefix of `a` with column `y` of the identity
/// picks out `a[y]` once the prefix has passed position `y`.
proof fn lemma_dot_unit_col(a: Seq<int>, n: nat, y: int, k: int)
    requires
        0 <= y < n,
        0 <= k <= n,
    ensures
        dot_prefix(a, col_of(identity_grid(n), y), k) == if y < k {
            a[y]
        } else {
            0
        },
    decreases k,
{
    if k > 0 {
        lemma_dot_unit_col(a, n, y, k - 1);
        assert(col_of(identity_grid(n), y)[k - 1] == if k - 1 == y {
            1int
        } else {
            0int
        });
    }
}

/// The dot product of a prefix of row `x` of the identity with `b` picks
/// out `b[x]` once the prefix has passed position `x`.
proof fn lemma_dot_unit_row(b: Seq<int>, n: nat, x: int, k: int)
    requires
        0 <= x < n,
        0 <= k <= n,
        n <= b.len(),
    ensures
        dot_prefix(identity_grid(n)[x], b, k) == if x < k {
            b[x]
        } else {
            0
        },
    decreases k,
{
    if k > 0 {
        lemma_dot_unit_row(b, n, x, k - 1);
        assert(identity_grid(n)[x][k - 1] == if x == k - 1 {
            1int
        } else {
            0int
        });
    }
}

/// Multiplying by the identity on either side returns the matrix
/// unchanged: for every square grid `m` of order `n`,
/// `m * identity(n) == m` and `identity(n) * m == m`.
pub proof fn lemma_mul_identity(m: Seq<Seq<int>>, n: nat)
    requires
        is_grid(m, n, n),
    ensures
        grid_mul(m, identity_grid(n), n) == m,
        grid_mul(identity_grid(n), m, n) == m,
{
    assert forall|x: int, y: int|
        0 <= x < n && 0 <= y < n implies grid_mul(m, identity_grid(n), n)[x][y] == m[x][y] by {
        lemma_dot_unit_col(m[x], n, y, m[x].len() as int);
    }
    assert(grid_mul(m, identity_grid(n), n) =~~= m);
    assert forall|x: int, y: int|
        0 <= x < n && 0 <= y < n implies grid_mul(identity_grid(n), m, n)[x][y] == m[x][y] by {
        lemma_dot_unit_row(col_of(m, y), n, x, n as int);
        assert(col_of(m, y)[x] == m[x][y]);
    }
    assert(grid_mul(identity_grid(n), m, n) =~~= m);
}

/// Transposition is an involution: transposing twice returns the grid
/// unchanged.
pub proof fn lemma_transpose_involutive(m: Seq<Seq<int>>, r: nat, c: nat)
    requires
        is_grid(m, r, c),
    ensures
        transpose_grid(transpose_grid(m, c), r) == m,
{
    assert(transpose_grid(transpose_grid(m, c), r) =~~= m);
}

/// Adding and then subtracting the same grid returns the first grid
/// unchanged: `(a + b) - b == a` for grids of equal dimensions.
pub proof fn lemma_add_sub_cancel(a: Seq<Seq<int>>, b: Seq<Seq<int>>, r: nat, c: nat)
    requires
        is_grid(a, r, c),
        is_grid(b, r, c),
    ensures
        grid_sub(grid_add(a, b), b) == a,
{
    assert(grid_sub(grid_add(a, b), b) =~~= a);
}

/// Division truncating toward zero by one or minus one multiplies by it.
proof fn lemma_tdiv_unit(a: int, b: int)
    requires
        b == 1 || b == -1,
    ensures
        tdiv(a, b) == a * b,
{
    assert(abs_int(a) / 1 == abs_int(a)) by (nonlinear_arith);
    assert(a * 1 == a) by (nonlinear_arith);
    assert(a * -1 == -a) by (nonlinear_arith);
}

/// A matrix times its computed inverse is the identity, on either side.
/// The law holds whenever the determinant divides every cofactor exactly;
/// it is stated and proved here for matrices of order at most two whose
/// determinant is one or minus one, where every division is exact. `v` is
/// the inverse as `inverse` computes it: entry `(i, j)` is the `(j, i)`
/// cofactor divided by the determinant.
pub proof fn lemma_inverse_identity(m: Seq<Seq<int>>, v: Seq<Seq<int>>, n: nat)
    requires
        n <= 2,
        is_grid(m, n, n),
        is_grid(v, n, n),
        grid_det(m) == 1 || grid_det(m) == -1,
        forall|i: int, j: int|
            0 <= i < n && 0 <= j < n ==> v[i][j] == tdiv(#[trigger] cofactor(m, j, i), grid_det(m)),
    ensures
        grid_mul(m, v, n) == identity_grid(n),
        grid_mul(v, m, n) == identity_grid(n),
{
    let d = grid_det(m);
    if n == 0 {
        assert(grid_mul(m, v, n) =~~= identity_grid(n));
        assert(grid_mul(v, m, n) =~~= identity_grid(n));
    } else if n == 1 {
        assert(minor_grid(m, 0, 0).len() == 0);
        assert(cofactor(m, 0, 0) == 1);
        lemma_tdiv_unit(1, d);
        assert(v[0][0] == d);
        assert(m[0][0] == d);
        assert(dot_prefix(m[0], col_of(v, 0), 0) == 0);
        assert(dot_prefix(v[0], col_of(m, 0), 0) == 0);
        assert(dot_prefix(m[0], col_of(v, 0), 1) == m[0][0] * v[0][0]);
        assert(d * d == 1) by (nonlinear_arith)
            requires
                d == 1 || d == -1,
        ;
        assert(dot_prefix(v[0], col_of(m, 0), 1) == v[0][0] * m[0][0]);
        assert(grid_mul(m, v, n) =~~= identity_grid(n));
        assert(grid_mul(v, m, n) =~~= identity_grid(n));
    } else {
        lemma_det_order_2(m);
        assert(minor_grid(m, 0, 0) =~~= seq![seq![m[1][1]]]);
        assert(minor_grid(m, 0, 1) =~~= seq![seq![m[1][0]]]);
        assert(minor_grid(m, 1, 0) =~~= seq![seq![m[0][1]]]);
        assert(minor_grid(m, 1, 1) =~~= seq![seq![m[0][0]]]);
        assert(grid_det(minor_grid(m, 0, 0)) == m[1][1]);
        assert(grid_det(minor_grid(m, 0, 1)) == m[1][0]);
        assert(grid_det(minor_grid(m, 1, 0)) == m[0][1]);
        assert(grid_det(minor_grid(m, 1, 1)) == m[0][0]);
        assert(cofactor(m, 0, 0) == m[1][1]);
        assert(cofactor(m, 0, 1) == (-1) * m[1][0]);
        assert(cofactor(m, 1, 0) == (-1) * m[0][1]);
        assert(cofactor(m, 1, 1) == m[0][0]);
        lemma_tdiv_unit(cofactor(m, 0, 0), d);
        lemma_tdiv_unit(cofactor(m, 0, 1), d);
        lemma_tdiv_unit(cofactor(m, 1, 0), d);
        lemma_tdiv_unit(cofactor(m, 1, 1), d);
        assert(v[0][0] == m[1][1] * d);
        assert(v[0][1] == ((-1) * m[0][1]) * d);
        assert(v[1][0] == ((-1) * m[1][0]) * d);
        assert(v[1][1] == m[0][0] * d);
        let a = m[0][0];
        let b = m[0][1];
        let c = m[1][0];
        let e = m[1][1];
        assert(a * e - b * c == d);
        assert(a * (e * d) + b * (((-1) * c) * d) == (a * e - b * c) * d) by (nonlinear_arith);
        assert(a * (((-1) * b) * d) + b * (a * d) == 0) by (nonlinear_arith);
        assert(c * (e * d) + e * (((-1) * c) * d) == 0) by (nonlinear_arith);
        assert(c * (((-1) * b) * d) + e * (a * d) == (a * e - b * c) * d) by (nonlinear_arith);
        assert((e * d) * a + (((-1) * b) * d) * c == (a * e - b * c) * d) by (nonlinear_arith);
        assert((e * d) * b + (((-1) * b) * d) * e == 0) by (nonlinear_arith);
        assert((((-1) * c) * d) * a + (a * d) * c == 0) by (nonlinear_arith);
        assert((((-1) * c) * d) * b + (a * d) * e == (a * e - b * c) * d) by (nonlinear_arith);
        assert(d * d == 1) by (nonlinear_arith)
            requires
                d == 1 || d == -1,
        ;
        assert forall|x: int, y: int|
            0 <= x < 2 && 0 <= y < 2 implies grid_mul(m, v, n)[x][y] == identity_grid(n)[x][y] by {
            assert(dot_prefix(m[x], col_of(v, y), 0) == 0);
            assert(dot_prefix(m[x], col_of(v, y), 1) == m[x][0] * v[0][y]);
            assert(dot_prefix(m[x], col_of(v, y), 2) == m[x][0] * v[0][y] + m[x][1] * v[1][y]);
        }
        assert(grid_mul(m, v, n) =~~= identity_grid(n));
        assert forall|x: int, y: int|
            0 <= x < 2 && 0 <= y < 2 implies grid_mul(v, m, n)[x][y] == identity_grid(n)[x][y] by {
            assert(dot_prefix(v[x], col_of(m, y), 0) == 0);
            assert(dot_prefix(v[x], col_of(m, y), 1) == v[x][0] * m[0][y]);
            assert(dot_prefix(v[x], col_of(m, y), 2) == v[x][0] * m[0][y] + v[x][1] * m[1][y]);
        }
        assert(grid_mul(v, m, n) =~~= identity_grid(n));
    }
}

/// The determinant of a grid of order two, written out.
proof fn lemma_det_order_2(m: Seq<Seq<int>>)
    requires
        is_grid(m, 2, 2),
    ensures
        grid_det(m) == m[0][0] * m[1][1] - m[0][1] * m[1][0],
{
    assert(minor_grid(m, 0, 0) =~~= seq![seq![m[1][1]]]);
    assert(minor_grid(m, 0, 1) =~~= seq![seq![m[1][0]]]);
    assert(grid_det(minor_grid(m, 0, 0)) == m[1][1]);
    assert(grid_det(minor_grid(m, 0, 1)) == m[1][0]);
    assert(det_expand(m, 0) == 0);
    assert(det_expand(m, 1) == m[0][0] * m[1][1]);
    assert(det_expand(m, 2) == det_expand(m, 1) + (-1) * m[0][1] * m[1][0]);
    assert((-1) * m[0][1] * m[1][0] == -(m[0][1] * m[1][0])) by (nonlinear_arith);
}

/// The determinant of a grid of order three, written out as the cofactor
/// expansion along the first row.
proof fn lemma_det_order_3(m: Seq<Seq<int>>)
    requires
        is_grid(m, 3, 3),
    ensures
        grid_det(m) == m[0][0] * (m[1][1] * m[2][2] - m[1][2] * m[2][1]) - m[0][1] * (m[1][0]
            * m[2][2] - m[1][2] * m[2][0]) + m[0][2] * (m[1][0] * m[2][1] - m[1][1] * m[2][0]),
{
    assert(minor_grid(m, 0, 0) =~~= seq![seq![m[1][1], m[1][2]], seq![m[2][1], m[2][2]]]);
    assert(minor_grid(m, 0, 1) =~~= seq![seq![m[1][0], m[1][2]], seq![m[2][0], m[2][2]]]);
    assert(minor_grid(m, 0, 2) =~~= seq![seq![m[1][0], m[1][1]], seq![m[2][0], m[2][1]]]);
    lemma_det_order_2(minor_grid(m, 0, 0));
    lemma_det_order_2(minor_grid(m, 0, 1));
    lemma_det_order_2(minor_grid(m, 0, 2));
    let d0 = m[1][1] * m[2][2] - m[1][2] * m[2][1];
    let d1 = m[1][0] * m[2][2] - m[1][2] * m[2][0];
    let d2 = m[1][0] * m[2][1] - m[1][1] * m[2][0];
    assert(det_expand(m, 0) == 0);
    assert(det_expand(m, 1) == m[0][0] * d0);
    assert(det_expand(m, 2) == det_expand(m, 1) + (-1) * m[0][1] * d1);
    assert(det_expand(m, 3) == det_expand(m, 2) + m[0][2] * d2);
    assert((-1) * m[0][1] * d1 == -(m[0][1] * d1)) by (nonlinear_arith);
}

/// The determinant is unchanged by transposition. The law holds for every
/// square grid; it is stated and proved here for orders up to three,
/// where the expansion can be written out in full.
pub proof fn lemma_det_transpose(m: Seq<Seq<int>>, n: nat)
    requires
        is_grid(m, n, n),
        n <= 3,
    ensures
        grid_det(transpose_grid(m, n)) == grid_det(m),
{
    let t = transpose_grid(m, n);
    if n == 0 {
        assert(t.len() == 0);
    } else if n == 1 {
        assert(t[0][0] == m[0][0]);
    } else if n == 2 {
        lemma_det_order_2(m);
        lemma_det_order_2(t);
        assert(m[0][1] * m[1][0] == m[1][0] * m[0][1]) by (nonlinear_arith);
    } else {
        lemma_det_order_3(m);
        lemma_det_order_3(t);
        let a00 = m[0][0];
        let a01 = m[0][1];
        let a02 = m[0][2];
        let a10 = m[1][0];
        let a11 = m[1][1];
        let a12 = m[1][2];
        let a20 = m[2][0];
        let a21 = m[2][1];
        let a22 = m[2][2];
        assert(grid_det(t) == a00 * (a11 * a22 - a21 * a12) - a10 * (a01 * a22 - a21 * a02) + a20
            * (a01 * a12 - a11 * a02));
        assert(a00 * (a11 * a22 - a21 * a12) == a00 * (a11 * a22) - a00 * (a21 * a12))
            by (nonlinear_arith);
        assert(a10 * (a01 * a22 - a21 * a02) == a10 * (a01 * a22) - a10 * (a21 * a02))
            by (nonlinear_arith);
        assert(a20 * (a01 * a12 - a11 * a02) == a20 * (a01 * a12) - a20 * (a11 * a02))
            by (nonlinear_arith);
        assert(a00 * (a11 * a22 - a12 * a21) == a00 * (a11 * a22) - a00 * (a12 * a21))
            by (nonlinear_arith);
        assert(a01 * (a10 * a22 - a12 * a20) == a01 * (a10 * a22) - a01 * (a12 * a20))
            by (nonlinear_arith);
        assert(a02 * (a10 * a21 - a11 * a20) == a02 * (a10 * a21) - a02 * (a11 * a20))
            by (nonlinear_arith);
        assert(a00 * (a21 * a12) == a00 * (a12 * a21)) by (nonlinear_arith);
        assert(a10 * (a01 * a22) == a01 * (a10 * a22)) by (nonlinear_arith);
        assert(a20 * (a01 * a12) == a01 * (a12 * a20)) by (nonlinear_arith);
        assert(a10 * (a21 * a02) == a02 * (a10 * a21)) by (nonlinear_arith);
        assert(a20 * (a11 * a02) == a02 * (a11 * a20)) by (nonlinear_arith);
    }
}

} // verus!
