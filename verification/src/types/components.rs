//! Components: the parts that an archetype is made of.

pub mod tera_svg;
