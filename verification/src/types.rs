//! The data that carries a template to the view.

pub mod archetypes;
pub mod components;
