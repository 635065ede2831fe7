//! Table model and join engine for two-sheet lookups.

pub mod index;
pub mod join;
pub mod keys;
pub mod laws;
pub mod export;
pub mod model;
pub mod read;
pub mod startup;
pub mod text;
pub mod view;
