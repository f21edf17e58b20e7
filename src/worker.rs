use vstd::prelude::*;

use crate::matrix::{MsgInput, MsgOutput};
use crate::vector::{dot, dot_fits, dot_product, DotError};

verus! {

/// Number of worker queues a multiplication spreads its tasks over.
pub const WORKER_COUNT: usize = 4;

/// The queue that task `idx` goes to, among `workers` queues.
pub fn worker_for(idx: usize, workers: usize) -> (r: usize)
    requires
        workers > 0,
    ensures
        r == idx % workers,
        r < workers,
{
    idx % workers
}

/// The linear indices that reach each of `workers` queues when an output of
/// `n` cells is routed by `idx % workers`: queue `w` holds
/// `w, w + workers, w + 2 * workers, ...`, every one below `n`.
pub fn route(n: usize, workers: usize) -> (r: Vec<Vec<usize>>)
    requires
        workers > 0,
    ensures
        r@.len() == workers,
        forall|w: int, p: int|
            0 <= w < workers && 0 <= p < r@[w]@.len() ==> #[trigger] r@[w]@[p] == w + p * workers && r@[w]@[p] < n,
        forall|idx: int| 0 <= idx < n ==> idx / (workers as int) <= #[trigger] r@[idx % (workers as int)]@.len() - 1,
{
    let mut queues: Vec<Vec<usize>> = Vec::new();
    let mut w: usize = 0;
    while w < workers
        invariant
            workers > 0,
            w <= workers,
            queues@.len() == w,
            forall|v: int, p: int|
                0 <= v < w && 0 <= p < queues@[v]@.len() ==> #[trigger] queues@[v]@[p] == v + p * workers
                    && queues@[v]@[p] < n,
            forall|idx: int|
                0 <= idx < n && (idx % (workers as int)) < w ==> idx / (workers as int) <= #[trigger] queues@[idx
                    % (workers as int)]@.len() - 1,
        decreases workers - w,
    {
        let queue = queue_of(n, workers, w);
        queues.push(queue);
        proof {
            assert forall|idx: int|
                0 <= idx < n && (idx % (workers as int)) < w + 1 implies idx / (workers as int) <= #[trigger] queues@[idx
                % (workers as int)]@.len() - 1 by {
                if idx % (workers as int) == w {
                    assert(queues@[w as int] == queue);
                    assert(idx / (workers as int) <= queue@.len() - 1);
                }
            }
        }
        w = w + 1;
    }
    queues
}

/// Queue `w` of `route(n, workers)`.
fn queue_of(n: usize, workers: usize, w: usize) -> (q: Vec<usize>)
    requires
        0 <= w < workers,
    ensures
        forall|p: int| 0 <= p < q@.len() ==> #[trigger] q@[p] == w + p * workers && q@[p] < n,
        forall|idx: int|
            0 <= idx < n && idx % (workers as int) == w ==> #[trigger] (idx / (workers as int)) <= q@.len() - 1,
{
    let mut q: Vec<usize> = Vec::new();
    let mut idx: usize = w;
    let mut more: bool = w < n;
    while more
        invariant
            0 <= w < workers,
            forall|p: int| 0 <= p < q@.len() ==> #[trigger] q@[p] == w + p * workers && q@[p] < n,
            more ==> idx == w + q@.len() * workers && idx < n,
            !more ==> w + q@.len() * workers >= n,
            q@.len() <= n,
        decreases n - q@.len(),
    {
        proof {
            assert(q@.len() <= q@.len() * workers) by (nonlinear_arith)
                requires
                    workers > 0,
            ;
        }
        q.push(idx);
        proof {
            assert(w + (q@.len() - 1) * workers + workers == w + q@.len() * workers) by (nonlinear_arith);
        }
        if n - idx <= workers {
            more = false;
        } else {
            idx = idx + workers;
        }
    }
    assert forall|idx: int|
        0 <= idx < n && idx % (workers as int) == w implies #[trigger] (idx / (workers as int)) <= q@.len() - 1 by {
        let d = idx / (workers as int);
        vstd::arithmetic::div_mod::lemma_fundamental_div_mod(idx, workers as int);
        assert(d < q@.len()) by (nonlinear_arith)
            requires
                idx == workers * d + w,
                idx < n,
                w + q@.len() * workers >= n,
                workers > 0,
        ;
    }
    q
}

/// Routing misses no index and repeats none: for any number of queues,
/// each index below `n` sits in exactly one queue, at exactly one position.
pub proof fn lemma_route_exactly_once(n: int, workers: int, queues: Seq<Seq<usize>>)
    requires
        workers > 0,
        queues.len() == workers,
        forall|w: int, p: int|
            0 <= w < workers && 0 <= p < queues[w].len() ==> #[trigger] queues[w][p] == w + p * workers && queues[w][p]
                < n,
        forall|idx: int| 0 <= idx < n ==> idx / workers <= #[trigger] queues[idx % workers].len() - 1,
    ensures
        forall|idx: int| 0 <= idx < n ==> #[trigger] queues[idx % workers][idx / workers] == idx,
        forall|w1: int, p1: int, w2: int, p2: int|
            0 <= w1 < workers && 0 <= p1 < queues[w1].len() && 0 <= w2 < workers && 0 <= p2 < queues[w2].len()
                && #[trigger] queues[w1][p1] == #[trigger] queues[w2][p2] ==> w1 == w2 && p1 == p2,
{
    assert forall|idx: int| 0 <= idx < n implies #[trigger] queues[idx % workers][idx / workers] == idx by {
        vstd::arithmetic::div_mod::lemma_fundamental_div_mod(idx, workers);
        vstd::arithmetic::div_mod::lemma_div_pos_is_pos(idx, workers);
        assert(queues[idx % workers].len() >= 0);
        assert(idx % workers + (idx / workers) * workers == idx) by (nonlinear_arith)
            requires
                idx == workers * (idx / workers) + idx % workers,
        ;
    }
    assert forall|w1: int, p1: int, w2: int, p2: int|
        0 <= w1 < workers && 0 <= p1 < queues[w1].len() && 0 <= w2 < workers && 0 <= p2 < queues[w2].len()
            && #[trigger] queues[w1][p1] == #[trigger] queues[w2][p2] implies w1 == w2 && p1 == p2 by {
        let x = w1 + p1 * workers;
        assert(queues[w1][p1] == x);
        assert(queues[w2][p2] == w2 + p2 * workers);
        vstd::arithmetic::div_mod::lemma_fundamental_div_mod_converse(x, workers, p1, w1);
        vstd::arithmetic::div_mod::lemma_fundamental_div_mod_converse(x, workers, p2, w2);
    }
}

/// What a worker does with one task: the dot product of its row and column,
/// sent back under the task's index, or the error of the dot product.
pub fn run_task(input: MsgInput) -> (r: Result<MsgOutput, DotError>)
    requires
        input.row@.len() == input.col@.len() ==> dot_fits(input.row@, input.col@),
    ensures
        r == (if input.row@.len() == input.col@.len() {
            Ok::<MsgOutput, DotError>(
                MsgOutput { value: dot(input.row@, input.col@) as i64, idx: input.idx },
            )
        } else {
            Err::<MsgOutput, DotError>(DotError::LengthMismatch)
        }),
{
    let idx = input.idx;
    match dot_product(input.row, input.col) {
        Ok(value) => Ok(MsgOutput { value, idx }),
        Err(e) => Err(e),
    }
}

} // verus!
