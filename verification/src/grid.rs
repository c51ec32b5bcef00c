//! The mathematical model of a matrix: a sequence of rows, each a sequence
//! of unbounded integers. Every executable operation on `Matrix` is
//! specified against the functions of this module.

use vstd::prelude::*;

verus! {

/// Whether `x` fits in a machine word of the element type.
pub open spec fn in_i64(x: int) -> bool {
    i64::MIN <= x <= i64::MAX
}

/// A grid with `r` rows, each of width `c`.
pub open spec fn is_grid(m: Seq<Seq<int>>, r: nat, c: nat) -> bool {
    m.len() == r && forall|i: int| 0 <= i < m.len() ==> (#[trigger] m[i]).len() == c
}

/// The `r` by `c` grid whose every entry is `v`.
pub open spec fn fill_grid(r: nat, c: nat, v: int) -> Seq<Seq<int>> {
    Seq::new(r, |i: int| Seq::new(c, |j: int| v))
}

/// The `n` by `n` grid with ones on the diagonal and zeroes elsewhere.
pub open spec fn identity_grid(n: nat) -> Seq<Seq<int>> {
    Seq::new(n, |i: int| Seq::new(n, |j: int| if i == j { 1int } else { 0int }))
}

/// Elementwise sum; the shape is the left operand's.
pub open spec fn grid_add(a: Seq<Seq<int>>, b: Seq<Seq<int>>) -> Seq<Seq<int>> {
    Seq::new(a.len(), |i: int| Seq::new(a[i].len(), |j: int| a[i][j] + b[i][j]))
}

/// Elementwise difference; the shape is the left operand's.
pub open spec fn grid_sub(a: Seq<Seq<int>>, b: Seq<Seq<int>>) -> Seq<Seq<int>> {
    Seq::new(a.len(), |i: int| Seq::new(a[i].len(), |j: int| a[i][j] - b[i][j]))
}

/// Column `j` of a grid, as a sequence.
pub open spec fn col_of(m: Seq<Seq<int>>, j: int) -> Seq<int> {
    Seq::new(m.len(), |i: int| m[i][j])
}

/// The dot product of the first `n` entries of `a` and `b`, accumulated in
/// ascending index order.
pub open spec fn dot_prefix(a: Seq<int>, b: Seq<int>, n: int) -> int
    decreases n,
{
    if n <= 0 {
        0
    } else {
        dot_prefix(a, b, n - 1) + a[n - 1] * b[n - 1]
    }
}

/// The matrix product; `p` is the width of `b`, so the result has the row
/// count of `a` and width `p`. Entry `(x, y)` is the dot product of row `x`
/// of `a` with column `y` of `b`.
pub open spec fn grid_mul(a: Seq<Seq<int>>, b: Seq<Seq<int>>, p: nat) -> Seq<Seq<int>> {
    Seq::new(a.len(), |x: int| Seq::new(p, |y: int| dot_prefix(a[x], col_of(b, y), a[x].len() as int)))
}

/// The transpose of a grid of width `c`: entry `(x, y)` of the result is
/// entry `(y, x)` of `m`.
pub open spec fn transpose_grid(m: Seq<Seq<int>>, c: nat) -> Seq<Seq<int>> {
    Seq::new(c, |x: int| Seq::new(m.len(), |y: int| m[y][x]))
}

/// `row` with the entry at position `c` removed.
pub open spec fn drop_entry(row: Seq<int>, c: int) -> Seq<int> {
    Seq::new((row.len() - 1) as nat, |j: int| if j < c { row[j] } else { row[j + 1] })
}

/// The grid with row `r` and column `c` removed, relative order kept.
pub open spec fn minor_grid(m: Seq<Seq<int>>, r: int, c: int) -> Seq<Seq<int>> {
    Seq::new((m.len() - 1) as nat, |i: int| drop_entry(m[if i < r { i } else { i + 1 }], c))
}

/// The sign `(-1)^j` of the cofactor term for column `j`.
pub open spec fn sign_of(j: int) -> int {
    if j % 2 == 0 { 1int } else { -1int }
}

/// The determinant of a square grid, by cofactor expansion along the first
/// row. The empty grid has determinant one (the empty product).
pub open spec fn grid_det(m: Seq<Seq<int>>) -> int
    decreases m.len(), m.len() as int + 1int,
{
    if m.len() == 0 {
        1
    } else if m.len() == 1 {
        m[0][0]
    } else {
        det_expand(m, m.len() as int)
    }
}

/// The partial cofactor expansion of `grid_det` over the first-row columns
/// `0 .. j`.
pub open spec fn det_expand(m: Seq<Seq<int>>, j: int) -> int
    decreases m.len(), j,
{
    if j <= 0 || m.len() <= 1 {
        0
    } else {
        det_expand(m, j - 1) + sign_of(j - 1) * m[0][j - 1] * grid_det(minor_grid(m, 0, j - 1))
    }
}

/// The `(i, j)` cofactor: the signed determinant of the minor at `(i, j)`.
pub open spec fn cofactor(m: Seq<Seq<int>>, i: int, j: int) -> int {
    sign_of(i + j) * grid_det(minor_grid(m, i, j))
}

/// The absolute value.
pub open spec fn abs_int(x: int) -> int {
    if x < 0 { -x } else { x }
}

/// Division truncating toward zero, as the machine's signed division does.
pub open spec fn tdiv(a: int, b: int) -> int {
    if (a < 0) != (b < 0) {
        -(abs_int(a) / abs_int(b))
    } else {
        abs_int(a) / abs_int(b)
    }
}

/// Every elementwise sum of `a` and `b` fits in the element type.
pub open spec fn add_fits(a: Seq<Seq<int>>, b: Seq<Seq<int>>) -> bool {
    forall|i: int, j: int|
        0 <= i < a.len() && 0 <= j < a[i].len() ==> in_i64((#[trigger] a[i][j]) + b[i][j])
}

/// Every elementwise difference of `a` and `b` fits in the element type.
pub open spec fn sub_fits(a: Seq<Seq<int>>, b: Seq<Seq<int>>) -> bool {
    forall|i: int, j: int|
        0 <= i < a.len() && 0 <= j < a[i].len() ==> in_i64((#[trigger] a[i][j]) - b[i][j])
}

/// Every product of paired entries and every ascending partial sum of the
/// first `n` dot-product terms of `a` and `b` fits in the element type.
pub open spec fn dot_fits(a: Seq<int>, b: Seq<int>, n: int) -> bool {
    &&& forall|i: int| 0 <= i < n ==> in_i64((#[trigger] a[i]) * b[i])
    &&& forall|k: int| 0 <= k <= n ==> in_i64(#[trigger] dot_prefix(a, b, k))
}

/// Every intermediate value of the product of `a` and `b` (of width `p`)
/// fits in the element type.
pub open spec fn mul_fits(a: Seq<Seq<int>>, b: Seq<Seq<int>>, p: nat) -> bool {
    forall|x: int, y: int|
        0 <= x < a.len() && 0 <= y < p ==> #[trigger] dot_fits(a[x], col_of(b, y), a[x].len() as int)
}

/// Every intermediate value of the cofactor expansion of the determinant —
/// recursively in every minor, every product with a first-row entry, and
/// every partial sum — fits in the element type.
pub open spec fn det_fits(m: Seq<Seq<int>>) -> bool
    decreases m.len(),
{
    m.len() <= 1 || {
        &&& forall|j: int| 0 <= j < m.len() ==> det_fits(#[trigger] minor_grid(m, 0, j))
        &&& forall|j: int|
            0 <= j < m.len() ==> in_i64(m[0][j] * grid_det(#[trigger] minor_grid(m, 0, j)))
        &&& forall|j: int| 0 <= j <= m.len() ==> in_i64(#[trigger] det_expand(m, j))
    }
}

/// Every intermediate value of the adjugate-method inverse fits in the
/// element type: the determinant's own expansion, every minor's expansion,
/// every cofactor, and every quotient of a cofactor by the determinant.
pub open spec fn inv_fits(m: Seq<Seq<int>>) -> bool {
    &&& det_fits(m)
    &&& forall|i: int, j: int|
        0 <= i < m.len() && 0 <= j < m.len() ==> det_fits(#[trigger] minor_grid(m, i, j))
    &&& forall|i: int, j: int|
        0 <= i < m.len() && 0 <= j < m.len() ==> in_i64(#[trigger] cofactor(m, i, j))
    &&& forall|i: int, j: int|
        0 <= i < m.len() && 0 <= j < m.len() && grid_det(m) != 0 ==> in_i64(
            tdiv(#[trigger] cofactor(m, i, j), grid_det(m)),
        )
}

/// Row-major position arithmetic: a coordinate pair inside an `rr` by `cc`
/// grid lands strictly inside the backing storage.
pub proof fn lemma_rm_bound(r: int, c: int, rr: int, cc: int)
    by (nonlinear_arith)
    requires
        0 <= r < rr,
        0 <= c < cc,
    ensures
        0 <= r * cc + c < rr * cc,
{
}

/// Row-major position arithmetic is injective: two coordinate pairs with
/// in-range column parts share a linear offset exactly when they are equal.
pub proof fn lemma_rm_inj(r1: int, c1: int, r2: int, c2: int, cc: int)
    by (nonlinear_arith)
    requires
        0 <= c1 < cc,
        0 <= c2 < cc,
    ensures
        (r1 * cc + c1 == r2 * cc + c2) <==> (r1 == r2 && c1 == c2),
{
}

} // verus!
