//! The archetype of a tensor visualisation.

use vstd::prelude::*;
use crate::types::components::tera_svg::TeraSVG;

verus! {

/// A visualisation of tensors: for now, always a template.
#[derive(Clone, Debug, PartialEq)]
pub enum TensorViz {
    TeraSVG(TeraSVG),
}

/// The names of the components that mark and make up the archetype: the
/// indicator first, then the template.
pub open spec fn component_names() -> Seq<Seq<char>> {
    seq!["tv.components.TensorVizIndicator"@, "tv.components.TeraSVG"@]
}

/// The characters of each text of a list.
pub open spec fn texts(names: Seq<String>) -> Seq<Seq<char>> {
    Seq::new(names.len(), |i: int| names[i]@)
}

impl TensorViz {
    /// The total number of components in the archetype: the indicator and
    /// the template.
    pub const NUM_COMPONENTS: usize = 2usize;

    /// The visualisation by a template.
    #[inline]
    pub fn new_svg(svg_template: TeraSVG) -> (viz: TensorViz)
        ensures
            viz == TensorViz::TeraSVG(svg_template),
    {
        TensorViz::TeraSVG(svg_template)
    }

    /// The template of the visualisation.
    pub fn template(&self) -> (template: &str)
        ensures
            template@ == self->TeraSVG_0.0@,
    {
        match self {
            TensorViz::TeraSVG(v) => v.as_str(),
        }
    }

    /// The name of the archetype.
    pub fn name() -> (name: String)
        ensures
            name@ == "tv.archetypes.TensorViz"@,
    {
        String::from_str("tv.archetypes.TensorViz")
    }

    /// The name shown for the archetype.
    pub fn display_name() -> (name: &'static str)
        ensures
            name@ == "TensorViz"@,
    {
        "TensorViz"
    }

    /// The components that every instance has: the indicator.
    pub fn required_components() -> (names: Vec<String>)
        ensures
            texts(names@) == component_names().take(1),
    {
        let mut names: Vec<String> = Vec::new();
        names.push(String::from_str("tv.components.TensorVizIndicator"));
        assert(texts(names@) =~= component_names().take(1));
        names
    }

    /// The components that an instance should have: none.
    pub fn recommended_components() -> (names: Vec<String>)
        ensures
            names@.len() == 0,
    {
        Vec::new()
    }

    /// The components that an instance may have: the template.
    pub fn optional_components() -> (names: Vec<String>)
        ensures
            texts(names@) == component_names().skip(1),
    {
        let mut names: Vec<String> = Vec::new();
        names.push(TeraSVG::name());
        assert(texts(names@) =~= component_names().skip(1));
        names
    }

    /// All components of the archetype.
    pub fn all_components() -> (names: Vec<String>)
        ensures
            texts(names@) == component_names(),
            names@.len() == Self::NUM_COMPONENTS,
    {
        let mut names: Vec<String> = Vec::new();
        names.push(String::from_str("tv.components.TensorVizIndicator"));
        names.push(TeraSVG::name());
        assert(texts(names@) =~= component_names());
        names
    }
}

} // verus!
