//! Backends that implement the store and tree capabilities. The in-memory
//! reference backend lives here; a durable binding implements the same
//! traits outside this crate.

pub mod btree;

pub use btree::BTreeAdapter;
