//! Archetypes: what an entity is logged as.

pub mod tensorviz;
