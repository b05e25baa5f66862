//! The menu bar.
use vstd::prelude::*;

verus! {

/// The menu bar; it keeps no state.
pub struct GableMenu {}

impl GableMenu {
    /// The menu bar.
    pub fn new() -> (m: Self) {
        Self {}
    }
}

} // verus!
