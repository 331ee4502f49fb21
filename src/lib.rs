//! Cycle detection and breaking for graphs of reference-counted nodes.
//!
//! A node is anything that implements [`CyclicReference`]: it reports an
//! identity, the references it holds, and can try to sever them. [`collect`]
//! walks everything reachable from a root, depth first, and severs the
//! references of every node it reaches for the first time (the root aside).
//! [`Heap`] and [`Handle`] give an arena-backed node type with adapters for
//! shared cells, exclusive and read-only views, and optional slots.

mod collector;
mod heap;
mod laws;
mod reference;

pub use collector::{collect, finish, pass_of, step};
pub use heap::{accessible, emptied, refs_of, Cell, CellState, Handle, Heap, Payload};
pub use laws::{
    all_shared, breakable, cleared, ids_of, keeps_borrowed, keeps_cells, pending, shared_graph,
};
pub use laws::{
    lemma_borrowed_cells_untouched, lemma_break_keeps_borrowed, lemma_break_touches_own_cell,
    lemma_child_order_irrelevant, lemma_finish_keeps_borrowed, lemma_finish_keeps_seen,
    lemma_finish_shared, lemma_root_cell_untouched, lemma_second_pass_breaks_nothing,
};
pub use reference::CyclicReference;
