//! The settings of a bordered container.

use vstd::prelude::*;

verus! {

/// How a bordered container is laid out.
#[derive(Debug, Clone, Copy, PartialEq, Eq, Structural)]
pub struct BodyContainerSettings {
    fill_height: bool,
}

impl BodyContainerSettings {
    /// Whether the container takes all the height it is offered.
    pub closed spec fn fills_height(&self) -> bool {
        self.fill_height
    }

    /// The settings a container starts with: it takes all the height.
    pub fn new() -> (settings: BodyContainerSettings)
        ensures
            settings.fills_height(),
    {
        BodyContainerSettings { fill_height: true }
    }

    /// The same settings, but for whether the container takes all the
    /// height it is offered.
    pub fn set_fill_height(&self, fill_height: bool) -> (settings: BodyContainerSettings)
        ensures
            settings.fills_height() == fill_height,
    {
        BodyContainerSettings { fill_height }
    }

    /// Whether the container takes all the height it is offered.
    pub fn get_fill_height(&self) -> (fill_height: bool)
        ensures
            fill_height == self.fills_height(),
    {
        self.fill_height
    }
}

impl Default for BodyContainerSettings {
    fn default() -> (settings: BodyContainerSettings)
        ensures
            settings.fills_height(),
    {
        BodyContainerSettings::new()
    }
}

} // verus!
