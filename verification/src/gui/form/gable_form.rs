//! The preview area: the opened workbooks as tabs, one of them selected.
use crate::common::text::text_equal;
use crate::gui::datas::tree_item::TreeItem;
use crate::gui::form::opened_excel::OpenedExcel;
use crate::gui::form::opened_sheet::{sheet_displayable, OpenedSheet};
use vstd::prelude::*;

verus! {

/// The opened workbooks and the selected one.
pub struct GableForm {
    /// The opened workbooks, in the order they were opened.
    pub excels: Vec<OpenedExcel>,
    /// The index of the selected workbook tab.
    pub selected_excel_index: Option<usize>,
}

/// The position of the first of the opened workbooks `s` at `path`.
pub open spec fn opened_position(s: Seq<OpenedExcel>, path: Seq<char>) -> Option<nat>
    decreases s.len(),
{
    if s.len() == 0 {
        None
    } else if s[0].full_path@ == path {
        Some(0)
    } else {
        match opened_position(s.drop_first(), path) {
            Some(k) => Some(k + 1),
            None => None,
        }
    }
}

proof fn lemma_opened_position(s: Seq<OpenedExcel>, i: int, path: Seq<char>)
    requires
        0 <= i <= s.len(),
        forall|k: int| 0 <= k < i ==> (#[trigger] s[k]).full_path@ != path,
    ensures
        i < s.len() && s[i].full_path@ == path ==> opened_position(s, path) == Some(i as nat),
        i == s.len() ==> opened_position(s, path) is None,
    decreases i,
{
    if i > 0 {
        assert(s[0].full_path@ != path);
        assert forall|k: int| 0 <= k < i - 1 implies (#[trigger] s.drop_first()[k]).full_path@ != path by {
            assert(s.drop_first()[k] == s[k + 1]);
        }
        lemma_opened_position(s.drop_first(), i - 1, path);
        if i < s.len() {
            assert(s.drop_first()[i - 1] == s[i]);
        }
    }
}

impl GableForm {
    /// No workbook opened.
    pub fn new() -> (f: Self)
        ensures
            f.excels@.len() == 0,
            f.selected_excel_index is None,
    {
        GableForm { excels: Vec::new(), selected_excel_index: None }
    }

    /// Opens the workbook node `item`: selects its tab when it is open
    /// already (the first tab at its path), and otherwise adds a tab for it
    /// at the end and selects that.
    pub fn open(&mut self, item: TreeItem, tree: &[TreeItem])
        requires
            forall|i: int| 0 <= i < item.children@.len() ==> sheet_displayable(#[trigger] item.children@[i]),
        ensures
            match opened_position(old(self).excels@, item.fullpath@) {
                Some(k) => final(self).excels@ == old(self).excels@ && final(self).selected_excel_index == Some(k as usize),
                None => {
                    &&& final(self).excels@.len() == old(self).excels@.len() + 1
                    &&& final(self).excels@.drop_last() == old(self).excels@
                    &&& final(self).excels@.last().full_path@ == item.fullpath@
                    &&& final(self).excels@.last().selected_sheet_index == 0
                    &&& final(self).excels@.last().display_name@ == item.display_name@
                    &&& final(self).excels@.last().sheets@.len() == item.children@.len()
                    &&& forall|i: int| 0 <= i < item.children@.len()
                        ==> (#[trigger] final(self).excels@.last().sheets@[i]).is_tab_of(item.children@[i], tree@)
                    &&& final(self).selected_excel_index == Some(old(self).excels@.len() as usize)
                },
            },
    {
        let mut i: usize = 0;
        while i < self.excels.len()
            invariant
                self.excels@ == old(self).excels@,
                i <= self.excels@.len(),
                forall|k: int| 0 <= k < i ==> (#[trigger] self.excels@[k]).full_path@ != item.fullpath@,
            decreases self.excels.len() - i,
        {
            if text_equal(self.excels[i].full_path.as_str(), item.fullpath.as_str()) {
                proof {
                    lemma_opened_position(self.excels@, i as int, item.fullpath@);
                }
                self.selected_excel_index = Some(i);
                return;
            }
            i = i + 1;
        }
        proof {
            lemma_opened_position(self.excels@, i as int, item.fullpath@);
        }
        let opened = OpenedExcel::new(item, tree);
        let n = self.excels.len();
        self.excels.push(opened);
        self.selected_excel_index = Some(n);
        assert(self.excels@.drop_last() =~= old(self).excels@);
    }

    /// Selects the workbook tab `index`.
    pub fn set_excel_index(&mut self, index: usize)
        ensures
            final(self).excels@ == old(self).excels@,
            final(self).selected_excel_index == Some(index),
    {
        self.selected_excel_index = Some(index);
    }

    /// The selected workbook, when the selection names one.
    pub fn get_selected_excel(&self) -> (r: Option<&OpenedExcel>)
        ensures
            match self.selected_excel_index {
                Some(i) if i < self.excels@.len() => r == Some(&self.excels@[i as int]),
                _ => r is None,
            },
    {
        if let Some(index) = self.selected_excel_index {
            if index < self.excels.len() {
                return Some(&self.excels[index]);
            }
        }
        None
    }

    /// The selected sheet of the selected workbook, when both selections
    /// name one.
    pub fn get_sheet(&self) -> (r: Option<&OpenedSheet>)
        ensures
            match self.selected_excel_index {
                Some(i) if i < self.excels@.len() && self.excels@[i as int].selected_sheet_index < self.excels@[i as int].sheets@.len() =>
                    r == Some(&self.excels@[i as int].sheets@[self.excels@[i as int].selected_sheet_index as int]),
                _ => r is None,
            },
    {
        if let Some(oe) = self.get_selected_excel() {
            if oe.selected_sheet_index < oe.sheets.len() {
                return Some(&oe.sheets[oe.selected_sheet_index]);
            }
        }
        None
    }

    /// Closes the workbook tab `index` (an index past the tabs closes
    /// nothing). With no tab left nothing is selected; when the closed tab
    /// was the selected one, the tab now at its place is selected, or the
    /// last tab when it was the last; another selection is kept as it was.
    pub fn remove_item(&mut self, index: usize)
        ensures
            final(self).excels@ == if index < old(self).excels@.len() {
                old(self).excels@.remove(index as int)
            } else {
                old(self).excels@
            },
            final(self).selected_excel_index == if final(self).excels@.len() == 0 {
                None
            } else if old(self).selected_excel_index == Some(index) {
                if index < final(self).excels@.len() {
                    Some(index)
                } else {
                    Some((final(self).excels@.len() - 1) as usize)
                }
            } else {
                old(self).selected_excel_index
            },
    {
        if index < self.excels.len() {
            self.excels.remove(index);
        }
        if self.excels.len() == 0 {
            self.selected_excel_index = None;
        } else if self.selected_excel_index == Some(index) {
            if index < self.excels.len() {
                self.selected_excel_index = Some(index);
            } else {
                self.selected_excel_index = Some(self.excels.len() - 1);
            }
        }
    }
}

} // verus!
