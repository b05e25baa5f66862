//! The state of the build-settings window.
use crate::gui::datas::edevelop_type::EDevelopType;
use vstd::prelude::*;

verus! {

/// The build-settings window.
pub struct GableBuildSetting {
    /// Whether the window is shown.
    pub visible: bool,
    /// The language chosen for a new build target.
    pub add_selected: EDevelopType,
    /// The selected build target.
    pub selected_index: usize,
}

impl GableBuildSetting {
    /// A shown window with C/C++ chosen and the first target selected.
    pub fn new() -> (b: Self)
        ensures
            b.visible,
            b.add_selected == EDevelopType::Cpp,
            b.selected_index == 0,
    {
        Self { visible: true, add_selected: EDevelopType::Cpp, selected_index: 0 }
    }

    /// Shows or hides the window.
    pub fn set_visible(&mut self, value: bool)
        ensures
            final(self).visible == value,
            final(self).add_selected == old(self).add_selected,
            final(self).selected_index == old(self).selected_index,
    {
        self.visible = value;
    }
}

} // verus!
