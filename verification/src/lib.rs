//! A minimal entity-component store.
//!
//! A `World` assigns each distinct component type a dense numeric identity on
//! first use, stores inserted values of that type inside per-type append-only
//! columns, and recovers strongly-typed values from the erased storage through
//! a checked, tag-verified decoding.

pub mod column;
pub mod component;
pub mod erased;
pub mod lemmas;
pub mod registry;
pub mod sample;
pub mod table;
pub mod world;
