use vstd::prelude::*;

use vstd::arithmetic::div_mod::lemma_fundamental_div_mod_converse;

use crate::vector::{dot, dot_fits, dot_upto, lemma_dot_fits, DotError, Vector};
use crate::worker::run_task;

verus! {

/// A matrix of `row` rows and `col` columns, stored row after row.
pub struct Matrix {
    pub data: Vec<i64>,
    pub row: usize,
    pub col: usize,
}

/// Why a multiplication failed.
#[derive(Clone, Copy, Debug, PartialEq, Eq, Structural)]
pub enum MatrixError {
    /// The left operand's column count differs from the right operand's row count.
    DimensionMismatch,
    /// A task's reply was missing, was an error, or named no cell of the output.
    WorkerFailure,
}

/// One unit of work: the dot product that fills output cell `idx`.
pub struct MsgInput {
    pub idx: usize,
    pub row: Vector,
    pub col: Vector,
}

/// A worker's answer to one task.
#[derive(Clone, Copy, Debug, PartialEq, Eq, Structural)]
pub struct MsgOutput {
    pub value: i64,
    pub idx: usize,
}

/// What the collector receives for one task: `None` when the reply channel
/// closed without a value, else what the worker sent.
pub type Reply = Option<Result<MsgOutput, DotError>>;

impl Matrix {
    /// The flat storage holds exactly `row * col` cells.
    pub open spec fn wf(&self) -> bool {
        self.data@.len() == self.row * self.col
    }

    /// Row `i`, as a sequence of `col` numbers.
    pub open spec fn row_vec(&self, i: int) -> Seq<i64> {
        self.data@.subrange(i * self.col, i * self.col + self.col)
    }

    /// Column `j`: every `col`-th cell starting at offset `j`.
    pub open spec fn col_vec(&self, j: int) -> Seq<i64> {
        Seq::new(self.row as nat, |k: int| self.data@[k * self.col + j])
    }

    pub fn new(data: Vec<i64>, row: usize, col: usize) -> (r: Matrix)
        requires
            data@.len() == row * col,
        ensures
            r.data@ == data@,
            r.row == row,
            r.col == col,
            r.wf(),
    {
        Matrix { data, row, col }
    }
}

impl MsgInput {
    pub fn new(idx: usize, row: Vector, col: Vector) -> (r: MsgInput)
        ensures
            r.idx == idx,
            r.row@ == row@,
            r.col@ == col@,
    {
        MsgInput { idx, row, col }
    }
}

/// The sum over `k < n` of `a[i][k] * b[k][j]`, read from the flat storage.
pub open spec fn naive_upto(a: &Matrix, b: &Matrix, i: int, j: int, n: int) -> int
    decreases n,
{
    if n <= 0 {
        0
    } else {
        naive_upto(a, b, i, j, n - 1) + a.data@[i * a.col + (n - 1)] * b.data@[(n - 1) * b.col + j]
    }
}

/// Cell `(i, j)` of the product `a * b`, by the textbook triple loop.
pub open spec fn naive_cell(a: &Matrix, b: &Matrix, i: int, j: int) -> int {
    naive_upto(a, b, i, j, a.col as int)
}

/// Every dot product of a row of `a` with a column of `b` stays within `i64`.
pub open spec fn products_fit(a: &Matrix, b: &Matrix) -> bool {
    forall|i: int, j: int|
        0 <= i < a.row && 0 <= j < b.col ==> #[trigger] dot_fits(a.row_vec(i), b.col_vec(j))
}

/// `c` is the product `a * b`, cell by cell.
pub open spec fn is_product(a: &Matrix, b: &Matrix, c: &Matrix) -> bool {
    &&& c.wf()
    &&& c.row == a.row
    &&& c.col == b.col
    &&& forall|i: int, j: int|
        0 <= i < a.row && 0 <= j < b.col ==> c.data@[i * b.col + j] == #[trigger] naive_cell(a, b, i, j)
}

pub(crate) proof fn lemma_cell_in_bounds(i: int, j: int, rows: int, cols: int)
    requires
        0 <= i < rows,
        0 <= j < cols,
    ensures
        0 <= i * cols + j < rows * cols,
{
    assert(0 <= i * cols + j < rows * cols) by (nonlinear_arith)
        requires
            0 <= i < rows,
            0 <= j < cols,
    ;
}

proof fn lemma_row_in_bounds(i: int, rows: int, cols: int)
    requires
        0 <= i < rows,
        0 <= cols,
    ensures
        0 <= i * cols,
        i * cols + cols <= rows * cols,
{
    assert(0 <= i * cols && i * cols + cols <= rows * cols) by (nonlinear_arith)
        requires
            0 <= i < rows,
            0 <= cols,
    ;
}

proof fn lemma_dot_upto_naive(a: &Matrix, b: &Matrix, i: int, j: int, n: int)
    requires
        a.wf(),
        b.wf(),
        a.col == b.row,
        0 <= i < a.row,
        0 <= j < b.col,
        0 <= n <= a.col,
    ensures
        dot_upto(a.row_vec(i), b.col_vec(j), n) == naive_upto(a, b, i, j, n),
    decreases n,
{
    if n > 0 {
        lemma_dot_upto_naive(a, b, i, j, n - 1);
        lemma_row_in_bounds(i, a.row as int, a.col as int);
        lemma_cell_in_bounds(i, n - 1, a.row as int, a.col as int);
        lemma_cell_in_bounds(n - 1, j, b.row as int, b.col as int);
        assert(a.row_vec(i)[n - 1] == a.data@[i * a.col + (n - 1)]);
        assert(b.col_vec(j)[n - 1] == b.data@[(n - 1) * b.col + j]);
    }
}

/// The dot product of row `i` of `a` and column `j` of `b` is the textbook cell.
pub proof fn lemma_dot_is_naive(a: &Matrix, b: &Matrix, i: int, j: int)
    requires
        a.wf(),
        b.wf(),
        a.col == b.row,
        0 <= i < a.row,
        0 <= j < b.col,
    ensures
        dot(a.row_vec(i), b.col_vec(j)) == naive_cell(a, b, i, j),
{
    lemma_row_in_bounds(i, a.row as int, a.col as int);
    lemma_dot_upto_naive(a, b, i, j, a.col as int);
}

/// The task for output cell `(i, j)`: row `i` of `a`, column `j` of `b`, and
/// the linear index `i * b.col + j`.
pub fn task_for(a: &Matrix, b: &Matrix, i: usize, j: usize) -> (r: MsgInput)
    requires
        a.wf(),
        b.wf(),
        i < a.row,
        j < b.col,
        a.row * b.col <= usize::MAX,
    ensures
        r.idx == i * b.col + j,
        r.row@ == a.row_vec(i as int),
        r.col@ == b.col_vec(j as int),
{
    proof {
        lemma_row_in_bounds(i as int, a.row as int, a.col as int);
        lemma_cell_in_bounds(i as int, j as int, a.row as int, b.col as int);
    }
    let a_len = a.data.len();
    let b_len = b.data.len();
    let start = i * a.col;
    let mut row_data: Vec<i64> = Vec::new();
    let mut k: usize = 0;
    while k < a.col
        invariant
            a.wf(),
            i < a.row,
            start == i * a.col,
            start + a.col <= a.data@.len(),
            a.data@.len() == a_len,
            k <= a.col,
            row_data@ == a.data@.subrange(start as int, start + k),
        decreases a.col - k,
    {
        row_data.push(a.data[start + k]);
        k = k + 1;
    }
    let mut col_data: Vec<i64> = Vec::new();
    let mut k: usize = 0;
    while k < b.row
        invariant
            b.wf(),
            b.data@.len() == b_len,
            j < b.col,
            k <= b.row,
            col_data@.len() == k,
            forall|p: int| 0 <= p < k ==> #[trigger] col_data@[p] == b.col_vec(j as int)[p],
        decreases b.row - k,
    {
        proof {
            lemma_cell_in_bounds(k as int, j as int, b.row as int, b.col as int);
        }
        col_data.push(b.data[k * b.col + j]);
        k = k + 1;
    }
    assert(col_data@ =~= b.col_vec(j as int));
    MsgInput::new(i * b.col + j, Vector::new(row_data), Vector::new(col_data))
}

/// `t` is the task of `a * b` with linear index `k`.
pub open spec fn is_task(a: &Matrix, b: &Matrix, t: MsgInput, k: int) -> bool {
    &&& t.idx == k
    &&& t.row@ == a.row_vec(k / b.col as int)
    &&& t.col@ == b.col_vec(k % b.col as int)
}

/// The tasks of `a * b`, one for each output cell, in order of linear index.
pub fn plan(a: &Matrix, b: &Matrix) -> (r: Vec<MsgInput>)
    requires
        a.wf(),
        b.wf(),
        a.row * b.col <= usize::MAX,
    ensures
        r@.len() == a.row * b.col,
        forall|k: int| 0 <= k < r@.len() ==> is_task(a, b, #[trigger] r@[k], k),
{
    let mut tasks: Vec<MsgInput> = Vec::new();
    let mut i: usize = 0;
    while i < a.row
        invariant
            a.wf(),
            b.wf(),
            a.row * b.col <= usize::MAX,
            i <= a.row,
            tasks@.len() == i * b.col,
            forall|k: int| 0 <= k < tasks@.len() ==> is_task(a, b, #[trigger] tasks@[k], k),
        decreases a.row - i,
    {
        let mut j: usize = 0;
        while j < b.col
            invariant
                a.wf(),
                b.wf(),
                a.row * b.col <= usize::MAX,
                i < a.row,
                j <= b.col,
                tasks@.len() == i * b.col + j,
                forall|k: int| 0 <= k < tasks@.len() ==> is_task(a, b, #[trigger] tasks@[k], k),
            decreases b.col - j,
        {
            proof {
                lemma_cell_in_bounds(i as int, j as int, a.row as int, b.col as int);
                lemma_fundamental_div_mod_converse((i * b.col + j) as int, b.col as int, i as int, j as int);
            }
            tasks.push(task_for(a, b, i, j));
            j = j + 1;
        }
        assert(i * b.col + b.col == (i + 1) * b.col) by (nonlinear_arith);
        i = i + 1;
    }
    tasks
}

/// Every output cell gets exactly one task in a plan: index `idx` is carried
/// by the task at position `idx`, and by no other. With any number of queues
/// `workers >= 1`, each task goes to exactly one of them.
pub proof fn lemma_one_task_per_cell(a: &Matrix, b: &Matrix, tasks: Seq<MsgInput>, workers: int)
    requires
        tasks.len() == a.row * b.col,
        forall|k: int| 0 <= k < tasks.len() ==> is_task(a, b, #[trigger] tasks[k], k),
        workers >= 1,
    ensures
        forall|k: int|
            0 <= k < tasks.len() ==> 0 <= ((#[trigger] tasks[k]).idx as int) % workers < workers,
        forall|idx: int| 0 <= idx < tasks.len() ==> (#[trigger] tasks[idx]).idx == idx,
        forall|p: int, q: int|
            0 <= p < tasks.len() && 0 <= q < tasks.len() && #[trigger] tasks[p].idx == #[trigger] tasks[q].idx
                ==> p == q,
{
    assert forall|p: int, q: int|
        0 <= p < tasks.len() && 0 <= q < tasks.len() && #[trigger] tasks[p].idx == #[trigger] tasks[q].idx
        implies p == q by {
        assert(is_task(a, b, tasks[p], p));
        assert(is_task(a, b, tasks[q], q));
    }
}

/// Reply `r` carries a value for a cell of an output of `n` cells.
pub open spec fn delivered(r: Reply, n: int) -> bool {
    match r {
        Some(Ok(o)) => o.idx < n,
        _ => false,
    }
}

/// Every reply carries a value for a cell of an output of `n` cells.
pub open spec fn all_delivered(rs: Seq<Reply>, n: int) -> bool {
    forall|k: int| 0 <= k < rs.len() ==> #[trigger] delivered(rs[k], n)
}

/// The output carried by a reply (a zero at index 0 for a failed one).
pub open spec fn output_of(r: Reply) -> MsgOutput {
    match r {
        Some(Ok(o)) => o,
        _ => MsgOutput { value: 0, idx: 0 },
    }
}

/// No two replies carry the same index.
pub open spec fn distinct_indices(rs: Seq<Reply>) -> bool {
    forall|p: int, q: int|
        0 <= p < rs.len() && 0 <= q < rs.len() && p != q ==> output_of(#[trigger] rs[p]).idx
            != output_of(#[trigger] rs[q]).idx
}

/// `d` after writing each reply's value at the reply's index, in order.
pub open spec fn place(d: Seq<i64>, rs: Seq<Reply>) -> Seq<i64>
    decreases rs.len(),
{
    if rs.len() == 0 {
        d
    } else {
        let o = output_of(rs.last());
        place(d, rs.drop_last()).update(o.idx as int, o.value)
    }
}

/// `n` zeros.
pub open spec fn zeros(n: nat) -> Seq<i64> {
    Seq::new(n, |_k: int| 0i64)
}

proof fn lemma_place_len(d: Seq<i64>, rs: Seq<Reply>)
    requires
        all_delivered(rs, d.len() as int),
    ensures
        place(d, rs).len() == d.len(),
    decreases rs.len(),
{
    if rs.len() > 0 {
        assert(delivered(rs[rs.len() - 1], d.len() as int));
        assert(all_delivered(rs.drop_last(), d.len() as int)) by {
            assert forall|k: int| 0 <= k < rs.drop_last().len() implies #[trigger] delivered(
                rs.drop_last()[k],
                d.len() as int,
            ) by {
                assert(delivered(rs[k], d.len() as int));
            }
        }
        lemma_place_len(d, rs.drop_last());
    }
}

/// A reply with an index of its own ends up in the cell it names.
pub proof fn lemma_place_hit(d: Seq<i64>, rs: Seq<Reply>, k: int)
    requires
        all_delivered(rs, d.len() as int),
        distinct_indices(rs),
        0 <= k < rs.len(),
    ensures
        place(d, rs)[output_of(rs[k]).idx as int] == output_of(rs[k]).value,
    decreases rs.len(),
{
    let last = rs.len() - 1;
    lemma_place_len(d, rs.drop_last());
    assert(delivered(rs[k], d.len() as int));
    assert(delivered(rs[last], d.len() as int));
    assert(place(d, rs) == place(d, rs.drop_last()).update(
        output_of(rs[last]).idx as int,
        output_of(rs[last]).value,
    ));
    if k < last {
        let init = rs.drop_last();
        assert(all_delivered(init, d.len() as int)) by {
            assert forall|p: int| 0 <= p < init.len() implies #[trigger] delivered(init[p], d.len() as int) by {
                assert(delivered(rs[p], d.len() as int));
            }
        }
        assert(distinct_indices(init)) by {
            assert forall|p: int, q: int|
                0 <= p < init.len() && 0 <= q < init.len() && p != q implies output_of(#[trigger] init[p]).idx
                != output_of(#[trigger] init[q]).idx by {
                assert(output_of(rs[p]).idx != output_of(rs[q]).idx);
            }
        }
        lemma_place_hit(d, init, k);
        assert(output_of(rs[k]).idx != output_of(rs[last]).idx);
    }
}

/// A cell that no reply names keeps its value.
pub proof fn lemma_place_miss(d: Seq<i64>, rs: Seq<Reply>, p: int)
    requires
        all_delivered(rs, d.len() as int),
        0 <= p < d.len(),
        forall|k: int| 0 <= k < rs.len() ==> output_of(#[trigger] rs[k]).idx != p,
    ensures
        place(d, rs)[p] == d[p],
    decreases rs.len(),
{
    if rs.len() > 0 {
        let init = rs.drop_last();
        assert(output_of(rs[rs.len() - 1]).idx != p);
        assert forall|k: int| 0 <= k < init.len() implies output_of(#[trigger] init[k]).idx != p by {
            assert(output_of(rs[k]).idx != p);
        }
        assert forall|k: int| 0 <= k < init.len() implies #[trigger] delivered(init[k], d.len() as int) by {
            assert(delivered(rs[k], d.len() as int));
        }
        lemma_place_len(d, init);
        lemma_place_miss(d, init, p);
        assert(delivered(rs[rs.len() - 1], d.len() as int));
        assert(place(d, rs) == place(d, init).update(
            output_of(rs[rs.len() - 1]).idx as int,
            output_of(rs[rs.len() - 1]).value,
        ));
    }
}

/// Each reply is written to the cell its index names, so two sequences that
/// hold the same replies in different orders assemble the same cells: the
/// order in which workers finish does not change the product.
pub proof fn lemma_assembly_ignores_order(d: Seq<i64>, r1: Seq<Reply>, r2: Seq<Reply>)
    requires
        all_delivered(r1, d.len() as int),
        all_delivered(r2, d.len() as int),
        distinct_indices(r1),
        distinct_indices(r2),
        forall|x: Reply| r1.contains(x) <==> r2.contains(x),
    ensures
        place(d, r1) == place(d, r2),
{
    lemma_place_len(d, r1);
    lemma_place_len(d, r2);
    assert forall|p: int| 0 <= p < d.len() implies place(d, r1)[p] == place(d, r2)[p] by {
        if exists|k: int| 0 <= k < r1.len() && output_of(r1[k]).idx == p {
            let k1 = choose|k: int| 0 <= k < r1.len() && output_of(r1[k]).idx == p;
            assert(r1.contains(r1[k1]));
            let k2 = choose|k: int| 0 <= k < r2.len() && r2[k] == r1[k1];
            lemma_place_hit(d, r1, k1);
            lemma_place_hit(d, r2, k2);
        } else {
            assert forall|k: int| 0 <= k < r2.len() implies output_of(#[trigger] r2[k]).idx != p by {
                assert(r2.contains(r2[k]));
                let k1 = choose|j: int| 0 <= j < r1.len() && r1[j] == r2[k];
                assert(output_of(r1[k1]).idx != p);
            }
            lemma_place_miss(d, r1, p);
            lemma_place_miss(d, r2, p);
        }
    }
    assert(place(d, r1) =~= place(d, r2));
}

/// The product is determined by its operands: two results that each meet
/// `multiply`'s contract for the same `a` and `b` hold the same cells, so
/// repeated calls give identical matrices.
pub proof fn lemma_product_is_unique(a: &Matrix, b: &Matrix, c1: &Matrix, c2: &Matrix)
    requires
        is_product(a, b, c1),
        is_product(a, b, c2),
    ensures
        c1.row == c2.row,
        c1.col == c2.col,
        c1.data@ == c2.data@,
{
    assert forall|k: int| 0 <= k < c1.data@.len() implies c1.data@[k] == c2.data@[k] by {
        let i = k / b.col as int;
        let j = k % b.col as int;
        assert(b.col > 0) by {
            if b.col == 0 {
                assert(a.row * b.col == 0) by (nonlinear_arith)
                    requires
                        b.col == 0,
                ;
            }
        }
        vstd::arithmetic::div_mod::lemma_fundamental_div_mod(k, b.col as int);
        assert(0 <= i < a.row) by {
            assert(i * b.col <= k < a.row * b.col) by (nonlinear_arith)
                requires
                    k == b.col * i + j,
                    0 <= j,
                    k < a.row * b.col,
            ;
            assert(i < a.row) by (nonlinear_arith)
                requires
                    i * b.col < a.row * b.col,
                    b.col > 0,
            ;
            vstd::arithmetic::div_mod::lemma_div_pos_is_pos(k, b.col as int);
        }
        assert(k == i * b.col + j) by (nonlinear_arith)
            requires
                k == b.col * i + j,
        ;
        assert(0 <= j < b.col);
        assert(c1.data@[i * b.col + j] == naive_cell(a, b, i, j));
        assert(c2.data@[i * b.col + j] == naive_cell(a, b, i, j));
    }
    assert(c1.data@ =~= c2.data@);
}

/// Builds the `row` x `col` output from the replies, taken in order: each
/// value goes to the cell its index names. Fails as soon as a reply is
/// missing, is an error, or names no cell of the output; no partial matrix
/// is returned.
pub fn assemble(row: usize, col: usize, replies: Vec<Reply>) -> (r: Result<Matrix, MatrixError>)
    requires
        row * col <= usize::MAX,
    ensures
        r is Ok <==> all_delivered(replies@, row * col),
        r is Ok ==> r->Ok_0.row == row && r->Ok_0.col == col && r->Ok_0.wf() && r->Ok_0.data@ == place(
            zeros((row * col) as nat),
            replies@,
        ),
        r is Err ==> r->Err_0 == MatrixError::WorkerFailure,
{
    let n = row * col;
    let mut data: Vec<i64> = Vec::new();
    let mut k: usize = 0;
    while k < n
        invariant
            k <= n,
            data@ =~= zeros(k as nat),
        decreases n - k,
    {
        data.push(0);
        k = k + 1;
    }
    let mut k: usize = 0;
    while k < replies.len()
        invariant
            n == row * col,
            k <= replies@.len(),
            data@.len() == n,
            all_delivered(replies@.subrange(0, k as int), n as int),
            data@ == place(zeros(n as nat), replies@.subrange(0, k as int)),
        decreases replies@.len() - k,
    {
        let ghost before = replies@.subrange(0, k as int);
        let ghost after = replies@.subrange(0, k + 1);
        match &replies[k] {
            Some(Ok(o)) => {
                if o.idx >= n {
                    assert(!delivered(replies@[k as int], n as int));
                    return Err(MatrixError::WorkerFailure);
                }
                data.set(o.idx, o.value);
            },
            _ => {
                assert(!delivered(replies@[k as int], n as int));
                return Err(MatrixError::WorkerFailure);
            },
        }
        proof {
            assert(after.drop_last() =~= before);
            assert(after.last() == replies@[k as int]);
            assert forall|p: int| 0 <= p < after.len() implies #[trigger] delivered(after[p], n as int) by {
                if p < k {
                    assert(after[p] == before[p]);
                }
            }
        }
        k = k + 1;
    }
    assert(replies@.subrange(0, replies@.len() as int) =~= replies@);
    Ok(Matrix { data, row, col })
}

/// The product `a * b`: one task per output cell, each run through the
/// worker step on the calling thread, and the replies assembled by index.
/// Fails with `DimensionMismatch`, before any task is made, when
/// `a.col != b.row`.
pub fn multiply(a: &Matrix, b: &Matrix) -> (r: Result<Matrix, MatrixError>)
    requires
        a.wf(),
        b.wf(),
        a.col == b.row ==> a.row * b.col <= usize::MAX && products_fit(a, b),
    ensures
        a.col != b.row ==> r == Err::<Matrix, MatrixError>(MatrixError::DimensionMismatch),
        a.col == b.row ==> r is Ok && is_product(a, b, &r->Ok_0),
{
    if a.col != b.row {
        return Err(MatrixError::DimensionMismatch);
    }
    let ghost n = a.row * b.col;
    let mut replies: Vec<Reply> = Vec::new();
    let mut i: usize = 0;
    while i < a.row
        invariant
            a.wf(),
            b.wf(),
            a.col == b.row,
            a.row * b.col <= usize::MAX,
            products_fit(a, b),
            i <= a.row,
            replies@.len() == i * b.col,
            forall|k: int|
                0 <= k < replies@.len() ==> #[trigger] replies@[k] == Some(
                    Ok::<MsgOutput, DotError>(
                        MsgOutput {
                            value: naive_cell(a, b, k / b.col as int, k % b.col as int) as i64,
                            idx: k as usize,
                        },
                    ),
                ),
        decreases a.row - i,
    {
        let mut j: usize = 0;
        while j < b.col
            invariant
                a.wf(),
                b.wf(),
                a.col == b.row,
                a.row * b.col <= usize::MAX,
                products_fit(a, b),
                i < a.row,
                j <= b.col,
                replies@.len() == i * b.col + j,
                forall|k: int|
                    0 <= k < replies@.len() ==> #[trigger] replies@[k] == Some(
                        Ok::<MsgOutput, DotError>(
                            MsgOutput {
                                value: naive_cell(a, b, k / b.col as int, k % b.col as int) as i64,
                                idx: k as usize,
                            },
                        ),
                    ),
            decreases b.col - j,
        {
            proof {
                lemma_cell_in_bounds(i as int, j as int, a.row as int, b.col as int);
                lemma_fundamental_div_mod_converse((i * b.col + j) as int, b.col as int, i as int, j as int);
                lemma_dot_is_naive(a, b, i as int, j as int);
                lemma_row_in_bounds(i as int, a.row as int, a.col as int);
                assert(dot_fits(a.row_vec(i as int), b.col_vec(j as int)));
            }
            let task = task_for(a, b, i, j);
            let reply = run_task(task);
            replies.push(Some(reply));
            j = j + 1;
        }
        assert(i * b.col + b.col == (i + 1) * b.col) by (nonlinear_arith);
        i = i + 1;
    }
    proof {
        assert forall|k: int| 0 <= k < replies@.len() implies #[trigger] delivered(replies@[k], n) by {}
        assert forall|p: int, q: int|
            0 <= p < replies@.len() && 0 <= q < replies@.len() && p != q implies output_of(
            #[trigger] replies@[p],
        ).idx != output_of(#[trigger] replies@[q]).idx by {}
    }
    let r = assemble(a.row, b.col, replies);
    proof {
        let c = r->Ok_0;
        assert forall|i: int, j: int| 0 <= i < a.row && 0 <= j < b.col implies c.data@[i * b.col + j]
            == #[trigger] naive_cell(a, b, i, j) by {
            let k = i * b.col + j;
            lemma_cell_in_bounds(i, j, a.row as int, b.col as int);
            lemma_fundamental_div_mod_converse(k, b.col as int, i, j);
            lemma_place_hit(zeros(n as nat), replies@, k);
            assert(output_of(replies@[k]).idx == k);
            lemma_row_in_bounds(i, a.row as int, a.col as int);
            lemma_dot_is_naive(a, b, i, j);
            lemma_dot_fits(a.row_vec(i), b.col_vec(j));
        }
    }
    r
}

} // verus!
