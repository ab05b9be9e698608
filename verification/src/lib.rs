//! Tensors rendered through text templates.
//!
//! A tensor is a flat buffer of numbers with a shape. The library cuts the
//! buffer into named slices, one for each path through the outer axes of the
//! shape, collects the slices of several tensors under one context, and
//! classifies what a template engine made of a template and that context.

pub mod buffer;
pub mod context;
pub mod flatten;
pub mod flatten_laws;
pub mod naming;
pub mod render;
pub mod shape;
pub mod space_view_class;
pub mod template_visualizer_system;
pub mod tensors_context_visualizer_system;
pub mod types;

