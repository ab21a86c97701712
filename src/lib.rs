//! A bridge between a memory-introspection backend and a reverse-engineering
//! host that speaks a fixed C ABI.
//!
//! The library holds the logic of the bridge: the fixed-size records and
//! their byte layout, the coalescing of a page map into sections, the table
//! of open process handles, and what each entry point decides.
pub mod reclass;
pub mod sections;
pub mod config;
pub mod memflow_wrapper;
pub mod host;
