//! The template component.

use vstd::prelude::*;

verus! {

/// A template that renders to SVG, as text.
#[derive(Clone, Debug, PartialEq)]
pub struct TeraSVG(pub String);

impl TeraSVG {
    /// The name under which the component is stored.
    pub const NAME: &'static str = "tv.components.TeraSVG";

    /// The component that holds `template`.
    pub fn new(template: &str) -> (component: TeraSVG)
        ensures
            component.0@ == template@,
    {
        TeraSVG(template.to_owned())
    }

    /// The name under which the component is stored.
    pub fn name() -> (name: String)
        ensures
            name@ == "tv.components.TeraSVG"@,
    {
        String::from_str("tv.components.TeraSVG")
    }

    /// The template.
    pub fn as_str(&self) -> (template: &str)
        ensures
            template@ == self.0@,
    {
        self.0.as_str()
    }
}

} // verus!
