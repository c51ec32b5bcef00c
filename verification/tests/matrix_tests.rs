use cayley::Matrix;

fn from(rows: Vec<Vec<i64>>) -> Matrix {
    Matrix::from_rows(&rows)
}

#[test]
fn multiply_two_by_two() {
    let a = from(vec![vec![1, 2], vec![3, 4]]);
    let b = from(vec![vec![5, 6], vec![7, 8]]);
    let expected = from(vec![vec![19, 22], vec![43, 50]]);
    assert_eq!(a.mul(&b), expected);
}

#[test]
fn multiply_rectangular() {
    let a = from(vec![vec![1, 2, 3], vec![4, 5, 6]]);
    let b = from(vec![vec![7], vec![8], vec![9]]);
    let expected = from(vec![vec![50], vec![122]]);
    assert_eq!(a.mul(&b), expected);
}

#[test]
fn transpose_rectangular() {
    let a = from(vec![vec![1, 2, 3], vec![4, 5, 6]]);
    let expected = from(vec![vec![1, 4], vec![2, 5], vec![3, 6]]);
    assert_eq!(a.transpose(), expected);
}

#[test]
fn transpose_twice_returns_original() {
    let a = from(vec![vec![1, 2, 3], vec![4, 5, 6]]);
    assert_eq!(a.transpose().transpose(), a);
}

#[test]
fn determinant_diagonal() {
    let a = from(vec![vec![2, 0], vec![0, 2]]);
    assert_eq!(a.determinant(), 4);
}

#[test]
fn determinant_one_by_one() {
    let a = from(vec![vec![-7]]);
    assert_eq!(a.determinant(), -7);
}

#[test]
fn determinant_three_by_three() {
    let a = from(vec![vec![1, 2, 3], vec![4, 5, 6], vec![7, 8, 10]]);
    assert_eq!(a.determinant(), -3);
}

#[test]
fn determinant_four_by_four() {
    let a = from(vec![
        vec![1, 0, 0, 0],
        vec![0, 2, 0, 0],
        vec![0, 0, 3, 0],
        vec![0, 0, 0, 4],
    ]);
    assert_eq!(a.determinant(), 24);
}

#[test]
fn determinant_matches_transpose() {
    let a = from(vec![vec![3, 1, 4], vec![1, 5, 9], vec![2, 6, 5]]);
    assert_eq!(a.determinant(), a.transpose().determinant());
}

#[test]
fn submatrix_drops_row_and_column() {
    let a = from(vec![vec![1, 2], vec![3, 4]]);
    let expected = from(vec![vec![4]]);
    assert_eq!(a.submatrix(0, 0), expected);
}

#[test]
fn submatrix_keeps_relative_order() {
    let a = from(vec![vec![1, 2, 3], vec![4, 5, 6], vec![7, 8, 9]]);
    let expected = from(vec![vec![1, 3], vec![7, 9]]);
    assert_eq!(a.submatrix(1, 1), expected);
}

#[test]
fn add_elementwise() {
    let a = from(vec![vec![1, 2], vec![3, 4]]);
    let b = from(vec![vec![10, 20], vec![30, 40]]);
    let expected = from(vec![vec![11, 22], vec![33, 44]]);
    assert_eq!(a.add(&b), expected);
}

#[test]
fn sub_elementwise() {
    let a = from(vec![vec![11, 22], vec![33, 44]]);
    let b = from(vec![vec![1, 2], vec![3, 4]]);
    let expected = from(vec![vec![10, 20], vec![30, 40]]);
    assert_eq!(a.sub(&b), expected);
}

#[test]
fn add_assign_in_place() {
    let mut a = from(vec![vec![1, 2], vec![3, 4]]);
    let b = from(vec![vec![5, 5], vec![5, 5]]);
    a.add_assign(&b);
    assert_eq!(a, from(vec![vec![6, 7], vec![8, 9]]));
}

#[test]
fn sub_assign_in_place() {
    let mut a = from(vec![vec![6, 7], vec![8, 9]]);
    let b = from(vec![vec![5, 5], vec![5, 5]]);
    a.sub_assign(&b);
    assert_eq!(a, from(vec![vec![1, 2], vec![3, 4]]));
}

#[test]
fn add_then_sub_returns_original() {
    let a = from(vec![vec![9, -4], vec![0, 17]]);
    let b = from(vec![vec![-2, 6], vec![5, 5]]);
    assert_eq!(a.add(&b).sub(&b), a);
}

#[test]
fn identity_multiplication_is_neutral() {
    let a = from(vec![vec![1, 2], vec![3, 4]]);
    let id = Matrix::identity(2);
    assert_eq!(a.mul(&id), a);
    assert_eq!(id.mul(&a), a);
}

#[test]
fn identity_entries() {
    let id = Matrix::identity(3);
    let expected = from(vec![vec![1, 0, 0], vec![0, 1, 0], vec![0, 0, 1]]);
    assert_eq!(id, expected);
}

#[test]
fn zeroes_and_ones() {
    let z = Matrix::zeroes(2, 3);
    let o = Matrix::ones(2, 3);
    assert_eq!(z.num_rows(), 2);
    assert_eq!(z.num_cols(), 3);
    for r in 0..2 {
        for c in 0..3 {
            assert_eq!(z.get(r, c), 0);
            assert_eq!(o.get(r, c), 1);
        }
    }
}

#[test]
fn from_closure_fills_row_major() {
    let m = Matrix::from_closure(2, 3, |x, y| (x + y) as i64);
    let expected = from(vec![vec![0, 1, 2], vec![1, 2, 3]]);
    assert_eq!(m, expected);
}

#[test]
fn get_and_set() {
    let mut m = Matrix::zeroes(2, 2);
    m.set(0, 1, 42);
    m.set(1, 0, -9);
    assert_eq!(m.get(0, 0), 0);
    assert_eq!(m.get(0, 1), 42);
    assert_eq!(m.get(1, 0), -9);
}

#[test]
fn inverse_of_singular_is_absent() {
    let a = from(vec![vec![1, 2], vec![2, 4]]);
    assert_eq!(a.determinant(), 0);
    assert!(a.inverse().is_none());
}

#[test]
fn inverse_of_unimodular() {
    let a = from(vec![vec![2, 3], vec![1, 2]]);
    assert_eq!(a.determinant(), 1);
    let inv = a.inverse().expect("matrix has determinant one");
    assert_eq!(inv, from(vec![vec![2, -3], vec![-1, 2]]));
    assert_eq!(a.mul(&inv), Matrix::identity(2));
    assert_eq!(inv.mul(&a), Matrix::identity(2));
}

#[test]
fn inverse_divides_cofactors_truncating() {
    let a = from(vec![vec![2, 0], vec![0, 2]]);
    let inv = a.inverse().expect("matrix has determinant four");
    assert_eq!(inv, from(vec![vec![0, 0], vec![0, 0]]));
}

#[test]
fn inverse_three_by_three_unimodular() {
    let a = from(vec![vec![1, 1, 0], vec![0, 1, 1], vec![0, 0, 1]]);
    assert_eq!(a.determinant(), 1);
    let inv = a.inverse().expect("matrix has determinant one");
    assert_eq!(inv, from(vec![vec![1, -1, 1], vec![0, 1, -1], vec![0, 0, 1]]));
    assert_eq!(a.mul(&inv), Matrix::identity(3));
}

#[test]
fn render_pads_and_breaks_lines() {
    let m = from(vec![vec![1, 22], vec![333, 4]]);
    assert_eq!(m.render(), "001 022 \n333 004 \n");
}

#[test]
fn render_negative_entries() {
    let m = from(vec![vec![-5, 10]]);
    assert_eq!(m.render(), "-5 10 \n");
}

#[test]
fn render_single_cell() {
    let m = from(vec![vec![0]]);
    assert_eq!(m.render(), "0 \n");
}

#[test]
fn equality_distinguishes_entries_and_shape() {
    let a = from(vec![vec![1, 2], vec![3, 4]]);
    let b = from(vec![vec![1, 2], vec![3, 4]]);
    let c = from(vec![vec![1, 2], vec![3, 5]]);
    let d = from(vec![vec![1, 2, 3, 4]]);
    assert_eq!(a, b);
    assert_ne!(a, c);
    assert_ne!(a, d);
}

#[test]
fn clone_is_independent() {
    let a = from(vec![vec![1, 2], vec![3, 4]]);
    let mut b = a.clone_matrix();
    b.set(0, 0, 99);
    assert_eq!(a.get(0, 0), 1);
    assert_eq!(b.get(0, 0), 99);
}
