//! The navigation bar.
use vstd::prelude::*;

verus! {

/// The navigation bar and the page it has selected.
pub struct GableNavigation {
    selected_navigation_index: u8,
}

impl GableNavigation {
    /// The selected page.
    pub closed spec fn selected(&self) -> u8 {
        self.selected_navigation_index
    }

    /// A navigation bar on its first page.
    pub fn new() -> (n: Self)
        ensures
            n.selected() == 0,
    {
        Self { selected_navigation_index: 0 }
    }
}

} // verus!
