use concurrency::dot_product;
use concurrency::col_vector;
use concurrency::multiply;
use concurrency::row_vector;
use concurrency::run_worker;
use concurrency::worker_jobs;
use concurrency::Job;
use concurrency::Matrix;
use concurrency::Vector;

#[test]
fn dot_product_is_exact_for_integers() {
    let a = Vector::new(vec![1, 2, 3]);
    let b = Vector::new(vec![4, 5, 6]);
    assert_eq!(dot_product(&a, &b), 32);
}

#[test]
fn dot_product_of_empty_vectors_is_the_additive_identity() {
    let a = Vector::new(vec![]);
    let b = Vector::new(vec![]);
    assert_eq!(dot_product(&a, &b), 0);
}

#[test]
fn row_and_column_extraction() {
    let b = Matrix::new(vec![7, 8, 9, 10, 11, 12], 3, 2);
    assert_eq!(row_vector(&b, 1).data, vec![9, 10]);
    assert_eq!(col_vector(&b, 1).data, vec![8, 10, 12]);
    assert_eq!(col_vector(&b, 0).data, vec![7, 9, 11]);
}

#[test]
fn job_carries_its_output_index() {
    let job = Job::new(Vector::new(vec![1, 2]), Vector::new(vec![3, 4]), 5);
    assert_eq!(job.idx, 5);
    assert_eq!(job.row.data, vec![1, 2]);
    assert_eq!(job.col.data, vec![3, 4]);
}

#[test]
fn round_robin_queues_partition_the_output_cells() {
    let a = Matrix::new(vec![1, 2, 3, 4, 5, 6], 2, 3);
    let b = Matrix::new(vec![7, 8, 9, 10, 11, 12], 3, 2);
    // Four output cells over two workers: worker 0 gets indices 0 and 2,
    // worker 1 gets indices 1 and 3.
    let q0 = worker_jobs(&a, &b, 0, 2);
    let q1 = worker_jobs(&a, &b, 1, 2);
    let idx0: Vec<usize> = q0.iter().map(|j| j.idx).collect();
    let idx1: Vec<usize> = q1.iter().map(|j| j.idx).collect();
    assert_eq!(idx0, vec![0, 2]);
    assert_eq!(idx1, vec![1, 3]);
    // Each job holds the row and the strided column of its cell.
    assert_eq!(q0[1].row.data, vec![4, 5, 6]);
    assert_eq!(q0[1].col.data, vec![7, 9, 11]);
}

#[test]
fn workers_compute_their_queues_in_order() {
    let a = Matrix::new(vec![1, 2, 3, 4, 5, 6], 2, 3);
    let b = Matrix::new(vec![7, 8, 9, 10, 11, 12], 3, 2);
    let out = run_worker(&worker_jobs(&a, &b, 1, 2));
    // Cells 1 and 3 of [58, 64, 139, 154].
    assert_eq!(out.len(), 2);
    assert_eq!(out[0].idx, 1);
    assert_eq!(out[0].value, 64);
    assert_eq!(out[1].idx, 3);
    assert_eq!(out[1].value, 154);
}

#[test]
fn formatting_matches_the_row_major_layout() {
    let m = Matrix::new(vec![1, 2, 3, 4, 5, 6], 2, 3);
    assert_eq!(m.to_text(), "Matrix[2*3]{1 2 3, 4 5 6}");
}

#[test]
fn formatting_renders_negative_and_zero_cells() {
    let m = Matrix::new(vec![-5, 0], 1, 2);
    assert_eq!(m.to_text(), "Matrix[1*2]{-5 0}");
}

#[test]
fn formatting_of_an_empty_matrix() {
    let m = Matrix::new(vec![], 0, 0);
    assert_eq!(m.to_text(), "Matrix[0*0]{}");
}

#[test]
fn formatting_is_stable_across_repeated_calls() {
    let a = Matrix::new(vec![1, 2, 3, 4, 5, 6], 2, 3);
    let b = Matrix::new(vec![7, 8, 9, 10, 11, 12], 3, 2);
    let c = multiply(&a, &b).unwrap();
    let first = c.to_text();
    assert_eq!(first, "Matrix[2*2]{58 64, 139 154}");
    for _ in 0..3 {
        assert_eq!(c.to_text(), first);
    }
}
