use concurrency::multiply;
use concurrency::multiply_with_workers;
use concurrency::Matrix;
use concurrency::MatrixError;

#[test]
fn test_multiply() {
    let a = Matrix::new(vec![1, 2, 3, 4, 5, 6], 2, 3);
    let b = Matrix::new(vec![7, 8, 9, 10, 11, 12], 3, 2);
    let c = multiply(&a, &b).expect("Matrix multiplication failed");
    assert_eq!(c.row, 2);
    assert_eq!(c.col, 2);
    assert_eq!(c.data, vec![58, 64, 139, 154]);
    println!("{}", c.to_text());
}

#[test]
fn test_a_can_not_multiply_b() {
    let a = Matrix::new(vec![1, 2, 3, 4, 5, 6], 2, 3);
    let b = Matrix::new(vec![1, 2, 3, 4], 2, 2);
    let c = multiply(&a, &b);
    assert!(c.is_err());
}

#[test]
#[should_panic]
fn test_a_can_not_multiply_b_panic() {
    let a = Matrix::new(vec![1, 2, 3, 4, 5, 6], 2, 3);
    let b = Matrix::new(vec![1, 2, 3, 4], 2, 2);
    let _c = multiply(&a, &b).expect("Matrix multiplication failed");
}

#[test]
fn shape_mismatch_is_reported_exactly() {
    let a = Matrix::new(vec![1, 2, 3, 4], 2, 2);
    let b = Matrix::new(vec![1, 2, 3], 3, 1);
    match multiply(&a, &b) {
        Err(e) => assert_eq!(e, MatrixError::ShapeMismatch),
        Ok(_) => panic!("incompatible shapes were accepted"),
    }
    let d = Matrix::new(vec![5, 6], 1, 2);
    assert!(multiply(&b, &d).is_ok());
}

#[test]
fn product_shape_follows_operands() {
    let a = Matrix::new(vec![1, 2, 3, 4, 5, 6], 3, 2);
    let b = Matrix::new(vec![1, 2, 3, 4, 5, 6], 2, 3);
    let c = multiply(&a, &b).unwrap();
    assert_eq!(c.row, a.row);
    assert_eq!(c.col, b.col);
    assert_eq!(c.data.len(), 9);
}

#[test]
fn worker_count_does_not_change_the_result() {
    let a = Matrix::new(vec![1, -2, 3, 4, 5, -6, 7, 8, 9, 10, -11, 12], 4, 3);
    let b = Matrix::new(vec![2, 0, -1, 3, 5, 1], 3, 2);
    let reference = multiply(&a, &b).unwrap();
    // Counts beyond the number of output cells leave some workers idle but
    // must not change the result either.
    for n in 1..=10 {
        let c = multiply_with_workers(&a, &b, n).unwrap();
        assert_eq!(c.row, reference.row);
        assert_eq!(c.col, reference.col);
        assert_eq!(c.data, reference.data);
    }
}

#[test]
fn repeated_runs_are_bit_identical() {
    // Pseudo-random operands from a small linear congruential generator.
    let mut state: i64 = 42;
    let mut next = move || {
        state = (state.wrapping_mul(6364136223846793005).wrapping_add(1442695040888963407))
            % 97;
        state
    };
    let a_data: Vec<i64> = (0..20 * 15).map(|_| next()).collect();
    let b_data: Vec<i64> = (0..15 * 10).map(|_| next()).collect();
    let a = Matrix::new(a_data, 20, 15);
    let b = Matrix::new(b_data, 15, 10);
    let first = multiply(&a, &b).unwrap();
    for _ in 0..5 {
        let again = multiply(&a, &b).unwrap();
        assert_eq!(again.data, first.data);
        assert_eq!(again.row, first.row);
        assert_eq!(again.col, first.col);
    }
}

#[test]
fn empty_inner_dimension_gives_zero_matrix() {
    let a = Matrix::new(vec![], 2, 0);
    let b = Matrix::new(vec![], 0, 3);
    let c = multiply(&a, &b).unwrap();
    assert_eq!(c.row, 2);
    assert_eq!(c.col, 3);
    assert_eq!(c.data, vec![0, 0, 0, 0, 0, 0]);
}

#[test]
fn empty_outer_dimensions_give_empty_matrix() {
    let a = Matrix::new(vec![], 0, 3);
    let b = Matrix::new(vec![1, 2, 3, 4, 5, 6], 3, 2);
    let c = multiply(&a, &b).unwrap();
    assert_eq!(c.row, 0);
    assert_eq!(c.col, 2);
    assert_eq!(c.data, vec![]);
}

#[test]
fn one_by_one_product() {
    let a = Matrix::new(vec![-7], 1, 1);
    let b = Matrix::new(vec![6], 1, 1);
    let c = multiply(&a, &b).unwrap();
    assert_eq!(c.data, vec![-42]);
}
