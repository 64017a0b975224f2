use matrix_multiplication::matrix::Matrix;
use matrix_multiplication::strassen::{strassen, strassen_mult};

fn mx(rows: Vec<Vec<i64>>) -> Matrix {
    Matrix::from_rows(rows).unwrap()
}

#[test]
fn new_matrix_is_zero() {
    let a = Matrix::new_matrix(3);
    assert_eq!(a.order(), 3);
    for i in 0..3 {
        for j in 0..3 {
            assert_eq!(a.get(i, j), 0);
        }
    }
}

#[test]
fn new_matrix_order_zero() {
    let a = Matrix::new_matrix(0);
    assert_eq!(a.order(), 0);
}

#[test]
fn from_rows_keeps_values() {
    let a = mx(vec![vec![1, 2], vec![3, 4]]);
    assert_eq!(a.get(0, 0), 1);
    assert_eq!(a.get(0, 1), 2);
    assert_eq!(a.get(1, 0), 3);
    assert_eq!(a.get(1, 1), 4);
}

#[test]
fn from_rows_rejects_ragged() {
    assert!(Matrix::from_rows(vec![vec![1, 2], vec![3]]).is_none());
}

#[test]
fn add_and_subtract_literals() {
    let a = mx(vec![vec![1, 2], vec![3, 4]]);
    let b = mx(vec![vec![5, 6], vec![7, 8]]);
    let s = a.add(&b);
    assert_eq!(s.get(0, 0), 6);
    assert_eq!(s.get(0, 1), 8);
    assert_eq!(s.get(1, 0), 10);
    assert_eq!(s.get(1, 1), 12);
    let d = b.subtract(&a);
    assert_eq!(d.get(0, 0), 4);
    assert_eq!(d.get(1, 1), 4);
}

#[test]
fn add_wraps_like_the_ring() {
    let a = mx(vec![vec![i64::MAX]]);
    let b = mx(vec![vec![1]]);
    let s = a.add(&b);
    assert_eq!(s.get(0, 0), i64::MIN);
}

#[test]
fn equals_exact_and_order_sensitive() {
    let a = mx(vec![vec![1, 2], vec![3, 4]]);
    let b = mx(vec![vec![1, 2], vec![3, 4]]);
    let c = mx(vec![vec![1, 2], vec![3, 5]]);
    let d = mx(vec![vec![1]]);
    assert!(a.equals(&b));
    assert!(!a.equals(&c));
    assert!(!a.equals(&d));
}

#[test]
fn multiply_2x2_literal() {
    let a = mx(vec![vec![1, 2], vec![3, 4]]);
    let b = mx(vec![vec![5, 6], vec![7, 8]]);
    let c = a.multiply(&b);
    assert_eq!(c.get(0, 0), 19);
    assert_eq!(c.get(0, 1), 22);
    assert_eq!(c.get(1, 0), 43);
    assert_eq!(c.get(1, 1), 50);
}

#[test]
fn strassen_base_case_matches_standard_2x2() {
    let a = mx(vec![vec![1, 2], vec![3, 4]]);
    let b = mx(vec![vec![5, 6], vec![7, 8]]);
    let c = strassen(&a, &b);
    assert_eq!(c.get(0, 0), 19);
    assert_eq!(c.get(0, 1), 22);
    assert_eq!(c.get(1, 0), 43);
    assert_eq!(c.get(1, 1), 50);
    assert!(c.equals(&a.multiply(&b)));
}

#[test]
fn strassen_mult_direct_on_power_of_two() {
    let a = mx(vec![vec![2, -1], vec![0, 3]]);
    let b = mx(vec![vec![4, 1], vec![-2, 5]]);
    let c = strassen_mult(&a, &b);
    assert!(c.equals(&a.multiply(&b)));
}

#[test]
fn strassen_matches_standard_3x3() {
    let a = mx(vec![vec![1, -2, 3], vec![4, 5, -6], vec![-7, 8, 9]]);
    let b = mx(vec![vec![9, 8, 7], vec![-6, 5, 4], vec![3, -2, 1]]);
    let c = strassen(&a, &b);
    assert_eq!(c.order(), 3);
    assert!(c.equals(&a.multiply(&b)));
}

#[test]
fn strassen_matches_standard_4x4() {
    let a = mx(vec![
        vec![1, 2, 3, 4],
        vec![5, 6, 7, 8],
        vec![9, 10, 11, 12],
        vec![13, 14, 15, 16],
    ]);
    let b = mx(vec![
        vec![-1, 2, -3, 4],
        vec![5, -6, 7, -8],
        vec![9, 10, -11, -12],
        vec![0, 1, 2, 3],
    ]);
    let c = strassen(&a, &b);
    assert!(c.equals(&a.multiply(&b)));
}

#[test]
fn strassen_truncates_odd_order_5x5() {
    let mut rows = Vec::new();
    for i in 0..5i64 {
        let mut row = Vec::new();
        for j in 0..5i64 {
            row.push(3 * i - 2 * j + 1);
        }
        rows.push(row);
    }
    let a = mx(rows.clone());
    let b = mx(rows);
    let c = strassen(&a, &b);
    assert_eq!(c.order(), 5);
    assert!(c.equals(&a.multiply(&b)));
}

#[test]
fn strassen_order_1_scale() {
    let a = mx(vec![vec![7]]);
    let b = mx(vec![vec![6]]);
    let c = strassen(&a, &b);
    assert_eq!(c.order(), 1);
    assert_eq!(c.get(0, 0), 42);
    assert!(c.equals(&a.multiply(&b)));
}

#[test]
fn strassen_order_zero() {
    let a = Matrix::new_matrix(0);
    let b = Matrix::new_matrix(0);
    let c = strassen(&a, &b);
    assert_eq!(c.order(), 0);
}

#[test]
fn multiply_by_identity_returns_matrix() {
    let a = mx(vec![vec![3, -1, 4], vec![1, 5, -9], vec![2, 6, 5]]);
    let idm = Matrix::identity_matrix(3);
    assert!(a.multiply(&idm).equals(&a));
    assert!(strassen(&a, &idm).equals(&a));
}

#[test]
fn identity_matrix_values() {
    let idm = Matrix::identity_matrix(2);
    assert_eq!(idm.get(0, 0), 1);
    assert_eq!(idm.get(0, 1), 0);
    assert_eq!(idm.get(1, 0), 0);
    assert_eq!(idm.get(1, 1), 1);
}

#[test]
fn pad_grows_to_next_power_of_two() {
    let a = mx(vec![vec![1, 2, 3], vec![4, 5, 6], vec![7, 8, 9]]);
    let p = a.pad();
    assert_eq!(p.order(), 4);
    for i in 0..3 {
        for j in 0..3 {
            assert_eq!(p.get(i, j), a.get(i, j));
        }
    }
    for k in 0..4 {
        assert_eq!(p.get(3, k), 0);
        assert_eq!(p.get(k, 3), 0);
    }
}

#[test]
fn pad_keeps_power_of_two_order() {
    let a = mx(vec![vec![1, 2], vec![3, 4]]);
    let p = a.pad();
    assert_eq!(p.order(), 2);
    assert!(p.equals(&a));
}

#[test]
fn pad_is_idempotent() {
    let a = mx(vec![vec![1, 2, 3], vec![4, 5, 6], vec![7, 8, 9]]);
    let once = a.pad();
    let twice = once.pad();
    assert_eq!(twice.order(), once.order());
    assert!(twice.equals(&once));
}

#[test]
fn pad_order_zero_gives_order_one() {
    let a = Matrix::new_matrix(0);
    let p = a.pad();
    assert_eq!(p.order(), 1);
    assert_eq!(p.get(0, 0), 0);
}

#[test]
fn split_then_assemble_reconstructs() {
    let a = mx(vec![
        vec![1, 2, 3, 4],
        vec![5, 6, 7, 8],
        vec![9, 10, 11, 12],
        vec![13, 14, 15, 16],
    ]);
    let (c1, c2, c3, c4) = a.get_submatrices();
    let back = Matrix::assemble(&c1, &c2, &c3, &c4);
    assert!(back.equals(&a));
}

#[test]
fn get_submatrices_values() {
    let a = mx(vec![vec![1, 2], vec![3, 4]]);
    let (c1, c2, c3, c4) = a.get_submatrices();
    assert_eq!(c1.get(0, 0), 1);
    assert_eq!(c2.get(0, 0), 2);
    assert_eq!(c3.get(0, 0), 3);
    assert_eq!(c4.get(0, 0), 4);
}

#[test]
fn init_keeps_order() {
    let mut a = Matrix::new_matrix(4);
    a.init();
    assert_eq!(a.order(), 4);
}

#[test]
fn strassen_agrees_with_standard_under_wrapping() {
    let big = i64::MAX / 2;
    let a = mx(vec![vec![big, big, -big], vec![big, -3, 2], vec![0, big, 1]]);
    let b = mx(vec![vec![big, -big, 4], vec![-big, big, 5], vec![big, 6, -big]]);
    let c = strassen(&a, &b);
    assert!(c.equals(&a.multiply(&b)));
}
