//! Interaction core of a terminal catalog browser: the modal state machine,
//! the incremental fuzzy-search and autocomplete engine, clamped scroll
//! regions, an order-preserving multi-select set, and a FIFO execution queue.
//!
//! The core is pure: it consumes plain input events and a read-only catalog,
//! and produces render-ready state plus a queue of script paths to launch.
//! Terminal input, rendering and process spawning live outside it.

pub mod ascii;
pub mod catalog;
pub mod events;
pub mod multi_select;
pub mod scroll;
pub mod search;
pub mod state;
