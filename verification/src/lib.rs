//! Reconciliation of a virtual tree against the generation before it.
//!
//! A virtual tree describes what a live presentation tree should look like.
//! Reconciling a fresh virtual tree against the previous one decides, node by
//! node, whether the live node bound to the previous virtual node is kept,
//! replaced or created, moves the bindings into the fresh tree, and records
//! the mutations that bring the live tree in line.
//!
//! The library never touches a live tree. It numbers the live nodes and
//! records mutations; whoever owns the live tree performs them.
//!
//! - `vnode`, `vtag`, `vtext`, `props`, `handle`: the virtual tree and its
//!   bindings, with the reconciler itself in `vnode`.
//! - `document`, `mutation`: the numbering of live nodes and the record of
//!   what is to be done to them.
//! - `model`: what the reconciler computes, as mathematics.
//! - `laws`: what holds of every reconciliation.
//! - `live`, `correctness`: a model of the live tree, and the proof that the
//!   recorded mutations make it show the new generation.

pub mod handle;
pub mod props;
pub mod mutation;
pub mod document;
pub mod model;
pub mod vtext;
pub mod vtag;
pub mod vnode;
pub mod laws;
pub mod live;
pub mod correctness;
