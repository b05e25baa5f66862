//! The state of the About window.
use vstd::prelude::*;

verus! {

/// The About window.
pub struct GableAbout {
    visible: bool,
}

impl GableAbout {
    /// Whether the window is shown.
    pub closed spec fn is_visible(&self) -> bool {
        self.visible
    }

    /// A hidden About window.
    pub fn new() -> (a: Self)
        ensures
            !a.is_visible(),
    {
        Self { visible: false }
    }

    /// Shows or hides the window.
    pub fn set_visible(&mut self, value: bool)
        ensures
            final(self).is_visible() == value,
    {
        self.visible = value;
    }

    /// Whether the window is shown.
    pub fn visible(&self) -> (b: bool)
        ensures
            b == self.is_visible(),
    {
        self.visible
    }
}

} // verus!
