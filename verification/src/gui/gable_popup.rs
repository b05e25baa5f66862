//! Pop-up windows and the queue of requests to show or hide them.
use crate::gui::gable_about::GableAbout;
use crate::gui::gable_build_setting::GableBuildSetting;
use std::collections::VecDeque;
use vstd::prelude::*;

verus! {

/// A request to show (`action`) or hide a pop-up window.
#[derive(Debug, Clone, Copy)]
pub struct WindowParams {
    /// The window.
    pub id: u16,
    /// Show it (`true`) or hide it.
    pub action: bool,
}

/// The About window.
pub const WINDOW_ABOUT: u16 = 1001;
/// The build-settings window.
pub const WINDOW_BUILD_SETTING: u16 = 1002;

/// Queues a request to show window `id`.
pub fn open_window(queue: &mut VecDeque<WindowParams>, id: u16)
    ensures
        final(queue)@ == old(queue)@.push(WindowParams { id, action: true }),
{
    queue.push_back(WindowParams { id, action: true });
}

/// The pop-up windows.
pub struct GablePopup {
    /// The About window.
    pub gable_about: GableAbout,
    /// The build-settings window.
    pub gable_build_setting: GableBuildSetting,
}

/// Whether window `id` is shown after the requests `q`, when it was shown
/// (`before`) or not: the last request for it decides.
pub open spec fn shown_after(q: Seq<WindowParams>, id: u16, before: bool) -> bool
    decreases q.len(),
{
    if q.len() == 0 {
        before
    } else if q.last().id == id {
        q.last().action
    } else {
        shown_after(q.drop_last(), id, before)
    }
}

impl GablePopup {
    /// Both windows in their initial state.
    pub fn new() -> (p: Self)
        ensures
            !p.gable_about.is_visible(),
            p.gable_build_setting.visible,
            p.gable_build_setting.selected_index == 0,
    {
        Self { gable_about: GableAbout::new(), gable_build_setting: GableBuildSetting::new() }
    }

    /// Applies the queued requests in order and empties the queue; requests
    /// for other windows are dropped.
    pub fn update_queue(&mut self, queue: &mut VecDeque<WindowParams>)
        ensures
            final(queue)@.len() == 0,
            final(self).gable_about.is_visible()
                == shown_after(old(queue)@, WINDOW_ABOUT, old(self).gable_about.is_visible()),
            final(self).gable_build_setting.visible
                == shown_after(old(queue)@, WINDOW_BUILD_SETTING, old(self).gable_build_setting.visible),
            final(self).gable_build_setting.selected_index == old(self).gable_build_setting.selected_index,
            final(self).gable_build_setting.add_selected == old(self).gable_build_setting.add_selected,
    {
        let ghost q0 = queue@;
        let ghost about0 = self.gable_about.is_visible();
        let ghost build0 = self.gable_build_setting.visible;
        let ghost sel0 = self.gable_build_setting.selected_index;
        let ghost add0 = self.gable_build_setting.add_selected;
        while queue.len() > 0
            invariant
                q0 =~= q0.take(q0.len() - queue@.len()) + queue@,
                queue@.len() <= q0.len(),
                self.gable_about.is_visible() == shown_after(q0.take(q0.len() - queue@.len()), WINDOW_ABOUT, about0),
                self.gable_build_setting.visible
                    == shown_after(q0.take(q0.len() - queue@.len()), WINDOW_BUILD_SETTING, build0),
                self.gable_build_setting.selected_index == sel0,
                self.gable_build_setting.add_selected == add0,
            decreases queue@.len(),
        {
            let ghost done = q0.take(q0.len() - queue@.len());
            let popup = queue.pop_front().unwrap();
            let ghost done2 = q0.take(q0.len() - queue@.len());
            assert(done2 =~= done.push(popup)) by {
                assert(q0[q0.len() - queue@.len() - 1] == popup);
            }
            if popup.id == WINDOW_ABOUT {
                self.gable_about.set_visible(popup.action);
            } else if popup.id == WINDOW_BUILD_SETTING {
                self.gable_build_setting.set_visible(popup.action);
            }
            assert(done2.drop_last() =~= done);
        }
        assert(q0.take(q0.len() - 0) =~= q0);
    }
}

} // verus!
