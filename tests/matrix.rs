use matmul_pool::{
    assemble, dot_product, multiply, plan, route, run_task, task_for, worker_for, DotError, Matrix,
    MatrixError, Metrics, MsgInput, MsgOutput, Reply, Vector, WORKER_COUNT,
};

fn naive(a: &Matrix, b: &Matrix) -> Vec<i64> {
    let mut out = Vec::new();
    for i in 0..a.row {
        for j in 0..b.col {
            let mut sum = 0i64;
            for k in 0..a.col {
                sum += a.data[i * a.col + k] * b.data[k * b.col + j];
            }
            out.push(sum);
        }
    }
    out
}

#[test]
fn test_matrix_display_and_debug() {
    let a = Matrix::new(vec![1, 2, 3, 4], 2, 2);
    assert_eq!(a.display_string(), "{1 2, 3 4}");
    assert_eq!(a.debug_string(), "Matrix(row=2, col=2, {1 2, 3 4})");
}

#[test]
fn test_matrix_multiply() {
    let a = Matrix::new(vec![1, 2, 3, 4], 2, 2);
    let b = Matrix::new(vec![1, 2, 3, 4], 2, 2);
    let c = multiply(&a, &b).unwrap();
    assert_eq!(c.row, 2);
    assert_eq!(c.col, 2);
    assert_eq!(c.data, [7, 10, 15, 22]);
    assert_eq!(c.debug_string(), "Matrix(row=2, col=2, {7 10, 15 22})");

    let a = Matrix::new(vec![1, 2, 3, 4], 2, 2);
    let b = Matrix::new(vec![1, 2, 3, 4, 5, 6], 2, 3);
    let c = multiply(&a, &b).unwrap();
    assert_eq!(c.row, 2);
    assert_eq!(c.col, 3);
    assert_eq!(c.data, [9, 12, 15, 19, 26, 33]);
    assert_eq!(c.display_string(), "{9 12 15, 19 26 33}");
}

#[test]
fn incompatible_shapes_fail_with_dimension_mismatch() {
    let a = Matrix::new(vec![1, 2, 3, 4, 5, 6], 2, 3);
    let b = Matrix::new(vec![1, 2, 3, 4], 2, 2);
    assert!(matches!(multiply(&a, &b), Err(MatrixError::DimensionMismatch)));
}

#[test]
fn product_matches_triple_loop() {
    let a = Matrix::new(vec![3, -1, 4, 1, -5, 9, 2, 6, -5, 3, 5, 8], 3, 4);
    let b = Matrix::new(vec![9, 7, -9, 3, 2, 3, 8, -4], 4, 2);
    let c = multiply(&a, &b).unwrap();
    assert_eq!(c.row, 3);
    assert_eq!(c.col, 2);
    assert_eq!(c.data, naive(&a, &b));
    assert_eq!(c.data, [52, 26, -74, -26, 2, -43]);
}

#[test]
fn repeated_multiplication_is_identical() {
    let a = Matrix::new(vec![2, 0, -3, 7, 1, 1], 3, 2);
    let b = Matrix::new(vec![5, -2, 4, 1, 0, 6], 2, 3);
    let first = multiply(&a, &b).unwrap();
    let second = multiply(&a, &b).unwrap();
    assert_eq!(first.data, second.data);
    assert_eq!(first.data, naive(&a, &b));
}

#[test]
fn empty_shapes_multiply() {
    let a = Matrix::new(vec![], 0, 3);
    let b = Matrix::new(vec![1, 2, 3], 3, 1);
    let c = multiply(&a, &b).unwrap();
    assert_eq!((c.row, c.col), (0, 1));
    assert!(c.data.is_empty());
    assert_eq!(c.display_string(), "{}");

    let a = Matrix::new(vec![], 2, 0);
    let b = Matrix::new(vec![], 0, 2);
    let c = multiply(&a, &b).unwrap();
    assert_eq!(c.data, [0, 0, 0, 0]);
}

#[test]
fn negative_cells_are_written_with_a_sign() {
    let m = Matrix::new(vec![-5, 10, 0, -123], 2, 2);
    assert_eq!(m.display_string(), "{-5 10, 0 -123}");
    assert_eq!(m.debug_string(), "Matrix(row=2, col=2, {-5 10, 0 -123})");
}

#[test]
fn dot_product_values_and_length_mismatch() {
    let r = dot_product(Vector::new(vec![1, 2, 3]), Vector::new(vec![4, -5, 6]));
    assert_eq!(r, Ok(12));
    let r = dot_product(Vector::new(vec![]), Vector::new(vec![]));
    assert_eq!(r, Ok(0));
    let r = dot_product(Vector::new(vec![1, 2]), Vector::new(vec![1]));
    assert_eq!(r, Err(DotError::LengthMismatch));
}

#[test]
fn worker_step_replies_under_task_index() {
    let task = MsgInput::new(7, Vector::new(vec![1, 2]), Vector::new(vec![3, 4]));
    assert_eq!(run_task(task), Ok(MsgOutput { value: 11, idx: 7 }));
    let task = MsgInput::new(2, Vector::new(vec![1, 2, 3]), Vector::new(vec![3, 4]));
    assert_eq!(run_task(task), Err(DotError::LengthMismatch));
}

#[test]
fn failed_task_fails_the_whole_product() {
    let replies: Vec<Reply> = vec![
        Some(Ok(MsgOutput { value: 5, idx: 0 })),
        Some(Err(DotError::LengthMismatch)),
    ];
    assert!(matches!(assemble(1, 2, replies), Err(MatrixError::WorkerFailure)));
}

#[test]
fn missing_or_misplaced_reply_is_a_worker_failure() {
    let replies: Vec<Reply> = vec![Some(Ok(MsgOutput { value: 5, idx: 0 })), None];
    assert!(matches!(assemble(1, 2, replies), Err(MatrixError::WorkerFailure)));
    let replies: Vec<Reply> = vec![Some(Ok(MsgOutput { value: 5, idx: 2 }))];
    assert!(matches!(assemble(1, 2, replies), Err(MatrixError::WorkerFailure)));
}

#[test]
fn replies_are_placed_by_index_in_any_order() {
    let in_order: Vec<Reply> = vec![
        Some(Ok(MsgOutput { value: 7, idx: 0 })),
        Some(Ok(MsgOutput { value: 10, idx: 1 })),
        Some(Ok(MsgOutput { value: 15, idx: 2 })),
        Some(Ok(MsgOutput { value: 22, idx: 3 })),
    ];
    let shuffled: Vec<Reply> = vec![
        Some(Ok(MsgOutput { value: 15, idx: 2 })),
        Some(Ok(MsgOutput { value: 7, idx: 0 })),
        Some(Ok(MsgOutput { value: 22, idx: 3 })),
        Some(Ok(MsgOutput { value: 10, idx: 1 })),
    ];
    let a = assemble(2, 2, in_order).unwrap();
    let b = assemble(2, 2, shuffled).unwrap();
    assert_eq!(a.data, [7, 10, 15, 22]);
    assert_eq!(a.data, b.data);
    assert_eq!((b.row, b.col), (2, 2));
}

#[test]
fn plan_has_one_task_per_cell() {
    let a = Matrix::new(vec![1, 2, 3, 4, 5, 6], 3, 2);
    let b = Matrix::new(vec![1, 2, 3, 4, 5, 6, 7, 8], 2, 4);
    let tasks = plan(&a, &b);
    assert_eq!(tasks.len(), 12);
    for workers in 1..=WORKER_COUNT + 2 {
        let mut seen = vec![0usize; 12];
        let mut per_queue = vec![0usize; workers];
        for (k, t) in tasks.iter().enumerate() {
            assert_eq!(t.idx, k);
            seen[t.idx] += 1;
            let w = worker_for(t.idx, workers);
            assert_eq!(w, t.idx % workers);
            per_queue[w] += 1;
        }
        assert!(seen.iter().all(|&n| n == 1));
        assert_eq!(per_queue.iter().sum::<usize>(), 12);
    }
}

#[test]
fn task_holds_row_and_column() {
    let a = Matrix::new(vec![1, 2, 3, 4, 5, 6], 2, 3);
    let b = Matrix::new(vec![1, 2, 3, 4, 5, 6], 3, 2);
    let t = task_for(&a, &b, 1, 0);
    assert_eq!(t.idx, 2);
    assert_eq!(t.row.values(), &vec![4, 5, 6]);
    assert_eq!(t.col.values(), &vec![1, 3, 5]);
    assert_eq!(run_task(t), Ok(MsgOutput { value: 4 + 15 + 30, idx: 2 }));
}

fn sorted(mut v: Vec<(String, i64)>) -> Vec<(String, i64)> {
    v.sort();
    v
}

#[test]
fn metrics_count_each_key() {
    let mut m = Metrics::new();
    assert!(m.snapshot().is_empty());
    m.inc("req".to_string());
    m.inc("req".to_string());
    m.inc("err".to_string());
    m.inc("req".to_string());
    let snap = sorted(m.snapshot());
    assert_eq!(snap, vec![("err".to_string(), 1), ("req".to_string(), 3)]);
}

#[test]
fn metrics_default_is_empty() {
    let mut m = Metrics::default();
    assert_eq!(m.snapshot().len(), 0);
    m.inc(String::new());
    assert_eq!(m.snapshot(), vec![(String::new(), 1)]);
}

#[test]
fn routing_places_each_index_in_one_queue() {
    for workers in 1..=6usize {
        for n in [0usize, 1, 5, 12, 13] {
            let queues = route(n, workers);
            assert_eq!(queues.len(), workers);
            let mut seen = vec![0usize; n];
            for (w, q) in queues.iter().enumerate() {
                for (p, &idx) in q.iter().enumerate() {
                    assert_eq!(idx, w + p * workers);
                    assert_eq!(worker_for(idx, workers), w);
                    seen[idx] += 1;
                }
            }
            assert!(seen.iter().all(|&c| c == 1));
        }
    }
    assert_eq!(route(10, 4), vec![vec![0, 4, 8], vec![1, 5, 9], vec![2, 6], vec![3, 7]]);
}
