//! Matrix multiplication split into one dot-product task per output cell.
//!
//! The library holds the verified parts of a worker-pool multiplier: the
//! dot product that each task computes, the plan of tasks, the routing of a
//! task to a worker queue, the step a worker performs on one task, and the
//! assembly of the replies into the output matrix. It also gives a matrix
//! its text form and keeps named counters (`Metrics`).
//!
//! Elements are `i64`; a product is taken only where every running sum of
//! every dot product stays within `i64` (`products_fit`, `dot_in_range`).

mod vector;
mod matrix;
mod worker;
mod text;
mod metrics;

pub use vector::{dot, dot_fits, dot_in_range, dot_product, dot_upto, fits_i64, lemma_dot_fits, DotError, Vector};
pub use matrix::{
    all_delivered, assemble, delivered, distinct_indices, is_product, is_task,
    lemma_assembly_ignores_order, lemma_dot_is_naive, lemma_one_task_per_cell, lemma_place_hit,
    lemma_place_miss, lemma_product_is_unique, multiply, naive_cell, naive_upto, output_of, place, plan, products_fit,
    task_for, zeros, Matrix, MatrixError, MsgInput, MsgOutput, Reply,
};
pub use worker::{lemma_route_exactly_once, route, run_task, worker_for, WORKER_COUNT};
pub use text::{debug_text, decimal_text, digit_char, digits, display_text, row_text, rows_text};
pub use metrics::{counters_upto, keys_distinct, Metrics};
