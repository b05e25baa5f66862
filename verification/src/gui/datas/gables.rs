//! Queries over the workspace tree.
use crate::common::text::{chars_of, string_of, text_equal};
use crate::gui::datas::esheet_type::ESheetType;
use crate::gui::datas::watcher_data::WatcherData;
use crate::gui::datas::gable_data::GableData;
use crate::gui::datas::tree_data::TreeData;
use crate::common::utils::{first_index_of, index_of_char, slice_to, determine_sheet_type, file_name_of, file_name_part, gable_name_parts, joined, join_path, parent_of, parent_part, parse_gable_filename, sheet_type_at};
use crate::gui::datas::eitem_type::EItemType;
use crate::gui::datas::tree_item::{lemma_sort_listed, sort_listed, sort_tree_items, TreeItem};
use vstd::prelude::*;

verus! {

/// The first node, in pre-order, of `item` and its descendants whose full
/// path is `path`.
pub open spec fn find_in_item(item: TreeItem, path: Seq<char>) -> Option<TreeItem>
    decreases item, 1int,
{
    if item.fullpath@ == path {
        Some(item)
    } else {
        find_in(item.children@, path)
    }
}

/// The first node, in pre-order, of the trees `items` whose full path is
/// `path`.
pub open spec fn find_in(items: Seq<TreeItem>, path: Seq<char>) -> Option<TreeItem>
    decreases items, 0int,
{
    if items.len() == 0 {
        None
    } else {
        match find_in_item(items[0], path) {
            Some(x) => Some(x),
            None => find_in(items.drop_first(), path),
        }
    }
}

/// Node `item` is linked as `link_name` and holds a table of kind `kind`.
pub open spec fn is_linked_table(item: TreeItem, link_name: Seq<char>, kind: ESheetType) -> bool {
    &&& item.link_name matches Some(l) && l@ == link_name
    &&& item.data matches Some(d) && d.gable_type == kind
}

/// The content of the first node, in pre-order, of `item` and its
/// descendants that is linked as `link_name` and holds a table of kind
/// `kind`.
pub open spec fn linked_in_item(item: TreeItem, link_name: Seq<char>, kind: ESheetType) -> Option<GableData>
    decreases item, 1int,
{
    if is_linked_table(item, link_name, kind) {
        Some(item.data->0.content)
    } else {
        linked_in(item.children@, link_name, kind)
    }
}

/// The content of the first node, in pre-order, of the trees `items` that is
/// linked as `link_name` and holds a table of kind `kind`.
pub open spec fn linked_in(items: Seq<TreeItem>, link_name: Seq<char>, kind: ESheetType) -> Option<GableData>
    decreases items, 0int,
{
    if items.len() == 0 {
        None
    } else {
        match linked_in_item(items[0], link_name, kind) {
            Some(x) => Some(x),
            None => linked_in(items.drop_first(), link_name, kind),
        }
    }
}

/// The first node, in pre-order, whose full path is `path`.
pub fn find_item_by_path<'a>(items: &'a [TreeItem], path: &str) -> (r: Option<&'a TreeItem>)
    ensures
        match r {
            Some(x) => find_in(items@, path@) == Some(*x),
            None => find_in(items@, path@) is None,
        },
    decreases items@,
{
    let mut i: usize = 0;
    assert(items@.skip(0) =~= items@);
    while i < items.len()
        invariant
            i <= items@.len(),
            find_in(items@, path@) == find_in(items@.skip(i as int), path@),
        decreases items.len() - i,
    {
        let item = &items[i];
        assert(items@.skip(i as int)[0] == items@[i as int]);
        assert(items@.skip(i as int).drop_first() =~= items@.skip(i + 1));
        let ghost rest = items@.skip(i as int);
        if text_equal(item.fullpath.as_str(), path) {
            assert(find_in_item(rest[0], path@) == Some(*item));
            assert(find_in(rest, path@) == Some(*item));
            return Some(item);
        }
        assert(decreases_to!(items@ => items@[i as int].children@));
        match find_item_by_path(item.children.as_slice(), path) {
            Some(found) => {
                assert(find_in_item(rest[0], path@) == Some(*found));
                assert(find_in(rest, path@) == Some(*found));
                return Some(found);
            },
            None => {
                assert(find_in_item(rest[0], path@) is None);
                assert(find_in(rest, path@) == find_in(rest.drop_first(), path@));
            },
        }
        i = i + 1;
    }
    None
}

/// The content of the first node, in pre-order, that is linked as
/// `link_name` and holds a table of kind `kind`.
pub fn find_linked_table<'a>(items: &'a [TreeItem], link_name: &str, kind: ESheetType) -> (r: Option<&'a GableData>)
    ensures
        match r {
            Some(x) => linked_in(items@, link_name@, kind) == Some(*x),
            None => linked_in(items@, link_name@, kind) is None,
        },
    decreases items@,
{
    let mut i: usize = 0;
    assert(items@.skip(0) =~= items@);
    while i < items.len()
        invariant
            i <= items@.len(),
            linked_in(items@, link_name@, kind) == linked_in(items@.skip(i as int), link_name@, kind),
        decreases items.len() - i,
    {
        let item = &items[i];
        assert(items@.skip(i as int)[0] == items@[i as int]);
        assert(items@.skip(i as int).drop_first() =~= items@.skip(i + 1));
        let ghost rest = items@.skip(i as int);
        if let Some(l) = &item.link_name {
            if text_equal(l.as_str(), link_name) {
                if let Some(d) = &item.data {
                    if d.gable_type == kind {
                        assert(linked_in_item(rest[0], link_name@, kind) == Some(d.content));
                        assert(linked_in(rest, link_name@, kind) == Some(d.content));
                        return Some(&d.content);
                    }
                }
            }
        }
        assert(!is_linked_table(*item, link_name@, kind));
        assert(decreases_to!(items@ => items@[i as int].children@));
        match find_linked_table(item.children.as_slice(), link_name, kind) {
            Some(found) => {
                assert(linked_in_item(rest[0], link_name@, kind) == Some(*found));
                assert(linked_in(rest, link_name@, kind) == Some(*found));
                return Some(found);
            },
            None => {
                assert(linked_in_item(rest[0], link_name@, kind) is None);
                assert(linked_in(rest, link_name@, kind) == linked_in(rest.drop_first(), link_name@, kind));
            },
        }
        i = i + 1;
    }
    None
}

/// The content of the first enum table, in pre-order, linked as
/// `link_name`.
pub fn get_enum_cells<'a>(items: &'a [TreeItem], link_name: &str) -> (r: Option<&'a GableData>)
    ensures
        match r {
            Some(x) => linked_in(items@, link_name@, ESheetType::Enum) == Some(*x),
            None => linked_in(items@, link_name@, ESheetType::Enum) is None,
        },
{
    find_linked_table(items, link_name, ESheetType::Enum)
}

/// The content of the first localisation table, in pre-order, linked as
/// `link_name`.
pub fn get_loc_cells<'a>(items: &'a [TreeItem], link_name: &str) -> (r: Option<&'a GableData>)
    ensures
        match r {
            Some(x) => linked_in(items@, link_name@, ESheetType::Localize) == Some(*x),
            None => linked_in(items@, link_name@, ESheetType::Localize) is None,
        },
{
    find_linked_table(items, link_name, ESheetType::Localize)
}


/// Nodes `a` and `b` agree in everything but their name, path, children and
/// expansion.
pub open spec fn same_place(a: TreeItem, b: TreeItem) -> bool {
    &&& a.item_type == b.item_type
    &&& a.parent == b.parent
    &&& a.link_name == b.link_name
    &&& a.data == b.data
}

/// Node `new` is node `old` after the first node of its subtree, in
/// pre-order, whose full path is `target` was given the path `path` and the
/// name `name`.
pub open spec fn renamed_item(old: TreeItem, new: TreeItem, target: Seq<char>, path: Seq<char>, name: Seq<char>) -> bool
    decreases old, 1int,
{
    &&& same_place(old, new)
    &&& new.is_open == old.is_open
    &&& if old.fullpath@ == target {
        new.fullpath@ == path && new.display_name@ == name && new.children@ == old.children@
    } else {
        new.fullpath == old.fullpath && new.display_name == old.display_name
            && renamed_in(old.children@, new.children@, target, path, name)
    }
}

/// The trees `new` are the trees `old` after the first node, in pre-order,
/// whose full path is `target` was given the path `path` and the name
/// `name`; `new` equals `old` when there is no such node.
pub open spec fn renamed_in(old: Seq<TreeItem>, new: Seq<TreeItem>, target: Seq<char>, path: Seq<char>, name: Seq<char>) -> bool
    decreases old, 0int,
{
    &&& new.len() == old.len()
    &&& old.len() > 0 ==> if find_in_item(old[0], target) is Some {
        renamed_item(old[0], new[0], target, path, name) && new.drop_first() == old.drop_first()
    } else {
        new[0] == old[0] && renamed_in(old.drop_first(), new.drop_first(), target, path, name)
    }
}

proof fn lemma_renamed_at(old: Seq<TreeItem>, new: Seq<TreeItem>, i: int, target: Seq<char>, path: Seq<char>, name: Seq<char>)
    requires
        0 <= i < old.len(),
        new.len() == old.len(),
        forall|k: int| 0 <= k < i ==> find_in_item(#[trigger] old[k], target) is None,
        forall|k: int| 0 <= k < old.len() && k != i ==> new[k] == old[k],
        find_in_item(old[i], target) is Some,
        renamed_item(old[i], new[i], target, path, name),
    ensures
        renamed_in(old, new, target, path, name),
    decreases i,
{
    if i > 0 {
        assert(find_in_item(old[0], target) is None);
        assert forall|k: int| 0 <= k < i - 1 implies find_in_item(#[trigger] old.drop_first()[k], target) is None by {
            assert(old.drop_first()[k] == old[k + 1]);
        }
        lemma_renamed_at(old.drop_first(), new.drop_first(), i - 1, target, path, name);
    } else {
        assert(new.drop_first() =~= old.drop_first());
    }
}

proof fn lemma_renamed_none(old: Seq<TreeItem>, target: Seq<char>, path: Seq<char>, name: Seq<char>)
    requires
        find_in(old, target) is None,
    ensures
        renamed_in(old, old, target, path, name),
    decreases old.len(),
{
    if old.len() > 0 {
        lemma_renamed_none(old.drop_first(), target, path, name);
    }
}

/// Gives the first node, in pre-order, whose full path is `target_fullpath`
/// the path `new_path` and the name `new_name`; whether there was one.
pub fn update_item_display_name_recursive(items: &mut Vec<TreeItem>, target_fullpath: &str, new_path: String, new_name: String) -> (r: bool)
    ensures
        r == find_in(old(items)@, target_fullpath@) is Some,
        renamed_in(old(items)@, final(items)@, target_fullpath@, new_path@, new_name@),
    decreases old(items)@,
{
    let ghost orig = items@;
    let mut i: usize = 0;
    while i < items.len()
        invariant
            items@ == orig,
            orig == old(items)@,
            i <= orig.len(),
            forall|k: int| 0 <= k < i ==> find_in_item(#[trigger] orig[k], target_fullpath@) is None,
        decreases items.len() - i,
    {
        if text_equal(items[i].fullpath.as_str(), target_fullpath) {
            let item = &mut items[i];
            item.fullpath = new_path;
            item.display_name = new_name;
            proof {
                lemma_renamed_at(orig, items@, i as int, target_fullpath@, new_path@, new_name@);
                lemma_find_in_some(orig, i as int, target_fullpath@);
            }
            return true;
        }
        if find_item_by_path(items[i].children.as_slice(), target_fullpath).is_some() {
            assert(decreases_to!(orig => orig[i as int].children@));
            update_item_display_name_recursive(&mut items[i].children, target_fullpath, new_path, new_name);
            proof {
                lemma_renamed_at(orig, items@, i as int, target_fullpath@, new_path@, new_name@);
                lemma_find_in_some(orig, i as int, target_fullpath@);
            }
            return true;
        }
        i = i + 1;
    }
    proof {
        lemma_find_all_none(orig, target_fullpath@);
        lemma_renamed_none(orig, target_fullpath@, new_path@, new_name@);
    }
    false
}

proof fn lemma_find_all_none(s: Seq<TreeItem>, path: Seq<char>)
    requires
        forall|k: int| 0 <= k < s.len() ==> find_in_item(#[trigger] s[k], path) is None,
    ensures
        find_in(s, path) is None,
    decreases s.len(),
{
    if s.len() > 0 {
        assert(find_in_item(s[0], path) is None);
        assert forall|k: int| 0 <= k < s.len() - 1 implies find_in_item(#[trigger] s.drop_first()[k], path) is None by {
            assert(s.drop_first()[k] == s[k + 1]);
        }
        lemma_find_all_none(s.drop_first(), path);
    }
}


proof fn lemma_find_in_some(s: Seq<TreeItem>, i: int, path: Seq<char>)
    requires
        0 <= i < s.len(),
        find_in_item(s[i], path) is Some,
    ensures
        find_in(s, path) is Some,
    decreases i,
{
    if i > 0 && find_in_item(s[0], path) is None {
        assert(s.drop_first()[i - 1] == s[i]);
        lemma_find_in_some(s.drop_first(), i - 1, path);
    }
}

/// The position of the first of the nodes `s` whose full path is `path`.
pub open spec fn index_of_path(s: Seq<TreeItem>, path: Seq<char>) -> Option<nat>
    decreases s.len(),
{
    if s.len() == 0 {
        None
    } else if s[0].fullpath@ == path {
        Some(0)
    } else {
        match index_of_path(s.drop_first(), path) {
            Some(k) => Some(k + 1),
            None => None,
        }
    }
}

proof fn lemma_index_of_path(s: Seq<TreeItem>, i: int, path: Seq<char>)
    requires
        0 <= i <= s.len(),
        forall|k: int| 0 <= k < i ==> (#[trigger] s[k]).fullpath@ != path,
    ensures
        i < s.len() && s[i].fullpath@ == path ==> index_of_path(s, path) == Some(i as nat),
        i == s.len() ==> index_of_path(s, path) is None,
    decreases i,
{
    if i > 0 {
        assert(s[0].fullpath@ != path);
        assert forall|k: int| 0 <= k < i - 1 implies (#[trigger] s.drop_first()[k]).fullpath@ != path by {
            assert(s.drop_first()[k] == s[k + 1]);
        }
        lemma_index_of_path(s.drop_first(), i - 1, path);
        if i < s.len() {
            assert(s.drop_first()[i - 1] == s[i]);
        }
    }
}

/// The trees `new` are the trees `old` after the removal of one node, with
/// its subtree: the first top-level node whose full path is `path`, or,
/// when there is none, such a node found in the same way among the children
/// of the first node whose descendants include one; `new` equals `old` when
/// no node has that path.
pub open spec fn removed_in(old: Seq<TreeItem>, new: Seq<TreeItem>, path: Seq<char>) -> bool
    decreases old, 1int,
{
    match index_of_path(old, path) {
        Some(k) => new == old.remove(k as int),
        None => removed_below(old, new, path),
    }
}

/// The trees `new` are the trees `old` after a removal, as `removed_in`
/// describes it, below the first node whose descendants have the path
/// `path`.
pub open spec fn removed_below(old: Seq<TreeItem>, new: Seq<TreeItem>, path: Seq<char>) -> bool
    decreases old, 0int,
{
    &&& new.len() == old.len()
    &&& old.len() > 0 ==> if find_in(old[0].children@, path) is Some {
        &&& same_place(old[0], new[0])
        &&& new[0].fullpath == old[0].fullpath
        &&& new[0].display_name == old[0].display_name
        &&& new[0].is_open == old[0].is_open
        &&& removed_in(old[0].children@, new[0].children@, path)
        &&& new.drop_first() == old.drop_first()
    } else {
        new[0] == old[0] && removed_below(old.drop_first(), new.drop_first(), path)
    }
}

proof fn lemma_removed_below_at(old: Seq<TreeItem>, new: Seq<TreeItem>, i: int, path: Seq<char>)
    requires
        0 <= i < old.len(),
        new.len() == old.len(),
        forall|k: int| 0 <= k < i ==> find_in((#[trigger] old[k]).children@, path) is None,
        forall|k: int| 0 <= k < old.len() && k != i ==> new[k] == old[k],
        find_in(old[i].children@, path) is Some,
        same_place(old[i], new[i]),
        new[i].fullpath == old[i].fullpath,
        new[i].display_name == old[i].display_name,
        new[i].is_open == old[i].is_open,
        removed_in(old[i].children@, new[i].children@, path),
    ensures
        removed_below(old, new, path),
    decreases i,
{
    if i > 0 {
        assert(find_in(old[0].children@, path) is None);
        assert forall|k: int| 0 <= k < i - 1 implies find_in((#[trigger] old.drop_first()[k]).children@, path) is None by {
            assert(old.drop_first()[k] == old[k + 1]);
        }
        lemma_removed_below_at(old.drop_first(), new.drop_first(), i - 1, path);
    } else {
        assert(new.drop_first() =~= old.drop_first());
    }
}

proof fn lemma_removed_below_none(old: Seq<TreeItem>, path: Seq<char>)
    requires
        forall|k: int| 0 <= k < old.len() ==> find_in((#[trigger] old[k]).children@, path) is None,
    ensures
        removed_below(old, old, path),
    decreases old.len(),
{
    if old.len() > 0 {
        assert(find_in(old[0].children@, path) is None);
        assert forall|k: int| 0 <= k < old.len() - 1 implies find_in((#[trigger] old.drop_first()[k]).children@, path) is None by {
            assert(old.drop_first()[k] == old[k + 1]);
        }
        lemma_removed_below_none(old.drop_first(), path);
    }
}

/// Removes, with its subtree, the first top-level node whose full path is
/// `fullpath`, or else such a node found below the first node whose
/// descendants include one; whether a node was removed.
pub fn remove_item_from_tree_recursive(items: &mut Vec<TreeItem>, fullpath: &str) -> (r: bool)
    ensures
        r == find_in(old(items)@, fullpath@) is Some,
        removed_in(old(items)@, final(items)@, fullpath@),
    decreases old(items)@,
{
    let ghost orig = items@;
    let mut i: usize = 0;
    while i < items.len()
        invariant
            items@ == orig,
            orig == old(items)@,
            i <= orig.len(),
            forall|k: int| 0 <= k < i ==> (#[trigger] orig[k]).fullpath@ != fullpath@,
        decreases items.len() - i,
    {
        if text_equal(items[i].fullpath.as_str(), fullpath) {
            proof {
                lemma_index_of_path(orig, i as int, fullpath@);
                lemma_find_in_some(orig, i as int, fullpath@);
            }
            items.remove(i);
            return true;
        }
        i = i + 1;
    }
    proof {
        lemma_index_of_path(orig, orig.len() as int, fullpath@);
    }
    let mut j: usize = 0;
    while j < items.len()
        invariant
            items@ == orig,
            orig == old(items)@,
            index_of_path(orig, fullpath@) is None,
            forall|k: int| 0 <= k < orig.len() ==> (#[trigger] orig[k]).fullpath@ != fullpath@,
            j <= orig.len(),
            forall|k: int| 0 <= k < j ==> find_in((#[trigger] orig[k]).children@, fullpath@) is None,
        decreases items.len() - j,
    {
        if find_item_by_path(items[j].children.as_slice(), fullpath).is_some() {
            assert(decreases_to!(orig => orig[j as int].children@));
            remove_item_from_tree_recursive(&mut items[j].children, fullpath);
            proof {
                lemma_removed_below_at(orig, items@, j as int, fullpath@);
                assert(find_in_item(orig[j as int], fullpath@) is Some);
                lemma_find_in_some(orig, j as int, fullpath@);
            }
            return true;
        }
        j = j + 1;
    }
    proof {
        lemma_removed_below_none(orig, fullpath@);
        assert forall|k: int| 0 <= k < orig.len() implies find_in_item(#[trigger] orig[k], fullpath@) is None by {
            assert(orig[k].fullpath@ != fullpath@);
        }
        lemma_find_all_none(orig, fullpath@);
    }
    false
}

/// Node `new` is node `old`, now expanded, after `x` joined the children of
/// the first node of its subtree, in pre-order, whose full path is
/// `parent`, and those children were sorted into listing order.
pub open spec fn placed_item(old: TreeItem, new: TreeItem, x: TreeItem, parent: Seq<char>) -> bool
    decreases old, 1int,
{
    &&& same_place(old, new)
    &&& new.fullpath == old.fullpath
    &&& new.display_name == old.display_name
    &&& new.is_open
    &&& if old.fullpath@ == parent {
        new.children@ == sort_listed(old.children@.push(x))
    } else {
        placed_in(old.children@, new.children@, x, parent)
    }
}

/// The trees `new` are the trees `old` after `x` joined the children of the
/// first node, in pre-order, whose full path is `parent`, as `placed_item`
/// describes it.
pub open spec fn placed_in(old: Seq<TreeItem>, new: Seq<TreeItem>, x: TreeItem, parent: Seq<char>) -> bool
    decreases old, 0int,
{
    &&& new.len() == old.len()
    &&& old.len() > 0 ==> if find_in_item(old[0], parent) is Some {
        placed_item(old[0], new[0], x, parent) && new.drop_first() == old.drop_first()
    } else {
        new[0] == old[0] && placed_in(old.drop_first(), new.drop_first(), x, parent)
    }
}

proof fn lemma_placed_at(old: Seq<TreeItem>, new: Seq<TreeItem>, i: int, x: TreeItem, parent: Seq<char>)
    requires
        0 <= i < old.len(),
        new.len() == old.len(),
        forall|k: int| 0 <= k < i ==> find_in_item(#[trigger] old[k], parent) is None,
        forall|k: int| 0 <= k < old.len() && k != i ==> new[k] == old[k],
        find_in_item(old[i], parent) is Some,
        placed_item(old[i], new[i], x, parent),
    ensures
        placed_in(old, new, x, parent),
    decreases i,
{
    if i > 0 {
        assert(find_in_item(old[0], parent) is None);
        assert forall|k: int| 0 <= k < i - 1 implies find_in_item(#[trigger] old.drop_first()[k], parent) is None by {
            assert(old.drop_first()[k] == old[k + 1]);
        }
        lemma_placed_at(old.drop_first(), new.drop_first(), i - 1, x, parent);
    } else {
        assert(new.drop_first() =~= old.drop_first());
    }
}

/// Adds `new_item` to the children of the first node, in pre-order, whose
/// full path is `parent_path`, sorts those children into listing order and
/// expands that node and every node above it; whether there was such a node
/// (when there was none, nothing changes).
pub fn add_item_to_parent(items: &mut Vec<TreeItem>, new_item: TreeItem, parent_path: &str) -> (r: bool)
    ensures
        r == find_in(old(items)@, parent_path@) is Some,
        r ==> placed_in(old(items)@, final(items)@, new_item, parent_path@),
        !r ==> final(items)@ == old(items)@,
    decreases old(items)@,
{
    let ghost orig = items@;
    let mut i: usize = 0;
    while i < items.len()
        invariant
            items@ == orig,
            orig == old(items)@,
            i <= orig.len(),
            forall|k: int| 0 <= k < i ==> find_in_item(#[trigger] orig[k], parent_path@) is None,
        decreases items.len() - i,
    {
        if text_equal(items[i].fullpath.as_str(), parent_path) {
            let item = &mut items[i];
            item.children.push(new_item);
            sort_tree_items(&mut item.children);
            item.is_open = true;
            proof {
                lemma_placed_at(orig, items@, i as int, new_item, parent_path@);
                lemma_find_in_some(orig, i as int, parent_path@);
            }
            return true;
        }
        if find_item_by_path(items[i].children.as_slice(), parent_path).is_some() {
            assert(decreases_to!(orig => orig[i as int].children@));
            let item = &mut items[i];
            add_item_to_parent(&mut item.children, new_item, parent_path);
            item.is_open = true;
            proof {
                lemma_placed_at(orig, items@, i as int, new_item, parent_path@);
                lemma_find_in_some(orig, i as int, parent_path@);
            }
            return true;
        }
        i = i + 1;
    }
    proof {
        lemma_find_all_none(orig, parent_path@);
    }
    false
}

/// The node that the search for a node of kind `t` stops at, starting from
/// `item` and following the parent paths, looked up from the top of
/// `items`, at most `fuel` times.
pub open spec fn ancestor_from(items: Seq<TreeItem>, item: TreeItem, t: EItemType, fuel: nat) -> Option<TreeItem>
    decreases fuel,
{
    if item.item_type == t {
        Some(item)
    } else if fuel == 0 {
        None
    } else {
        match item.parent {
            None => None,
            Some(p) => match find_in(items, p@) {
                None => None,
                Some(next) => ancestor_from(items, next, t, (fuel - 1) as nat),
            },
        }
    }
}

/// The first node of kind `t` met from the node at `path`, going up by the
/// parent paths, at most `fuel` times.
pub open spec fn ancestor_of_type(items: Seq<TreeItem>, path: Seq<char>, t: EItemType, fuel: nat) -> Option<TreeItem> {
    match find_in(items, path) {
        None => None,
        Some(item) => ancestor_from(items, item, t, fuel),
    }
}

/// The node at `path` when it is of kind `item_type`, or else the first of
/// its ancestors, found by their parent paths, of that kind. A chain of
/// parent paths that comes back to a node it passed would never end: the
/// search follows at most `usize::MAX` of them.
pub fn find_item_clone<'a>(items: &'a [TreeItem], path: &str, item_type: EItemType) -> (r: Option<&'a TreeItem>)
    ensures
        match r {
            Some(x) => ancestor_of_type(items@, path@, item_type, usize::MAX as nat) == Some(*x),
            None => ancestor_of_type(items@, path@, item_type, usize::MAX as nat) is None,
        },
{
    let mut current: &TreeItem = match find_item_by_path(items, path) {
        Some(x) => x,
        None => return None,
    };
    let mut fuel: usize = usize::MAX;
    loop
        invariant
            ancestor_of_type(items@, path@, item_type, usize::MAX as nat) == ancestor_from(items@, *current, item_type, fuel as nat),
        decreases fuel,
    {
        if current.item_type == item_type {
            return Some(current);
        }
        if fuel == 0 {
            return None;
        }
        match &current.parent {
            None => return None,
            Some(p) => match find_item_by_path(items, p.as_str()) {
                None => return None,
                Some(next) => {
                    current = next;
                },
            },
        }
        fuel = fuel - 1;
    }
}

/// The node whose full path is `path`, searched in pre-order.
pub fn get_item_clone<'a>(items: &'a [TreeItem], path: &str) -> (r: Option<&'a TreeItem>)
    ensures
        match r {
            Some(x) => find_in(items@, path@) == Some(*x),
            None => find_in(items@, path@) is None,
        },
{
    find_item_by_path(items, path)
}


/// The workbooks open for editing outside the tool, each by its file path,
/// with where and as what kind of table it is written back.
pub struct EditorFiles {
    entries: Vec<(String, WatcherData)>,
}

/// What is recorded of a workbook open for editing: the folder its sheets
/// are written back to and their kind.
pub open spec fn watcher_model(d: WatcherData) -> (Seq<char>, ESheetType) {
    (d.target_path@, d.sheet_type)
}

impl EditorFiles {
    #[verifier::type_invariant]
    closed spec fn keys_unique(&self) -> bool {
        forall|i: int, j: int| 0 <= i < j < self.entries@.len() ==> (#[trigger] self.entries@[i]).0@ != (#[trigger] self.entries@[j]).0@
    }

    /// The recorded workbooks, by file path.
    pub closed spec fn files(&self) -> Map<Seq<char>, (Seq<char>, ESheetType)> {
        Map::new(
            |k: Seq<char>| exists|i: int| 0 <= i < self.entries@.len() && (#[trigger] self.entries@[i]).0@ == k,
            |k: Seq<char>| {
                let i = choose|i: int| 0 <= i < self.entries@.len() && (#[trigger] self.entries@[i]).0@ == k;
                watcher_model(self.entries@[i].1)
            },
        )
    }

    /// No workbook is open for editing.
    pub fn new() -> (f: Self)
        ensures
            f.files() == Map::<Seq<char>, (Seq<char>, ESheetType)>::empty(),
    {
        let f = EditorFiles { entries: Vec::new() };
        assert(f.files() =~= Map::<Seq<char>, (Seq<char>, ESheetType)>::empty());
        f
    }

}

fn position_of(entries: &Vec<(String, WatcherData)>, file_path: &str) -> (r: Option<usize>)
    ensures
        match r {
            Some(i) => i < entries@.len() && entries@[i as int].0@ == file_path@,
            None => forall|i: int| 0 <= i < entries@.len() ==> (#[trigger] entries@[i]).0@ != file_path@,
        },
{
    let mut i: usize = 0;
    while i < entries.len()
        invariant
            i <= entries@.len(),
            forall|k: int| 0 <= k < i ==> (#[trigger] entries@[k]).0@ != file_path@,
        decreases entries.len() - i,
    {
        if text_equal(entries[i].0.as_str(), file_path) {
            return Some(i);
        }
        i = i + 1;
    }
    None
}

/// Records the workbook `file_path` as open for editing, to be written back
/// to `target_path` as tables of kind `sheet_type`; a record for the same
/// path is replaced.
pub fn add_editor_file(files: &mut EditorFiles, file_path: String, target_path: String, sheet_type: ESheetType)
    ensures
        final(files).files() == old(files).files().insert(file_path@, (target_path@, sheet_type)),
{
    proof {
        use_type_invariant(&*files);
    }
    let ghost before = files.entries@;
    let data = WatcherData { target_path, sheet_type };
    let mut entries: Vec<(String, WatcherData)> = Vec::new();
    std::mem::swap(&mut entries, &mut files.entries);
    let ghost mut at: int = before.len() as int;
    match position_of(&entries, file_path.as_str()) {
        Some(i) => {
            proof {
                at = i as int;
            }
            entries.set(i, (file_path, data));
            proof {
                let after = entries@;
                assert forall|a: int, b: int| 0 <= a < b < after.len() implies (#[trigger] after[a]).0@ != (#[trigger] after[b]).0@ by {
                    if a != i && b != i {
                        assert(after[a] == before[a] && after[b] == before[b]);
                    } else if a == i {
                        assert(after[b] == before[b]);
                        assert(before[a].0@ != before[b].0@);
                    } else {
                        assert(after[a] == before[a]);
                        assert(before[a].0@ != before[b].0@);
                    }
                }
            }
        },
        None => {
            entries.push((file_path, data));
        },
    }
    files.entries = entries;
    proof {
        use_type_invariant(&*files);
        let after = files.entries@;
        let m = old(files).files().insert(file_path@, (target_path@, sheet_type));
        assert(0 <= at < after.len() && after[at].0@ == file_path@ && after[at].1 == data);
        assert(forall|j: int| 0 <= j < before.len() && j != at ==> after[j] == before[j]);
        assert forall|k: Seq<char>| #[trigger] final(files).files().contains_key(k) == m.contains_key(k) by {
            if k == file_path@ {
                assert(after[at].0@ == k);
            } else if m.contains_key(k) {
                let j = choose|j: int| 0 <= j < before.len() && (#[trigger] before[j]).0@ == k;
                assert(after[j] == before[j]);
            } else if final(files).files().contains_key(k) {
                let j = choose|j: int| 0 <= j < after.len() && (#[trigger] after[j]).0@ == k;
                if j < before.len() {
                    assert(after[j] == before[j]);
                }
            }
        }
        assert forall|k: Seq<char>| #[trigger] m.contains_key(k) implies final(files).files()[k] == m[k] by {
            if k == file_path@ {
                assert(after[at].0@ == k);
                let j = choose|j: int| 0 <= j < after.len() && (#[trigger] after[j]).0@ == k;
                assert(j == at);
            } else {
                let j = choose|j: int| 0 <= j < after.len() && (#[trigger] after[j]).0@ == k;
                let j0 = choose|j0: int| 0 <= j0 < before.len() && (#[trigger] before[j0]).0@ == k;
                assert(after[j0] == before[j0]);
                assert(j == j0);
            }
        }
        assert(final(files).files() =~= m);
    }
}

/// Forgets the workbook `file_path`.
pub fn remove_editor_file(files: &mut EditorFiles, file_path: &str)
    ensures
        final(files).files() == old(files).files().remove(file_path@),
{
    proof {
        use_type_invariant(&*files);
    }
    let ghost before = files.entries@;
    let mut entries: Vec<(String, WatcherData)> = Vec::new();
    std::mem::swap(&mut entries, &mut files.entries);
    if let Some(i) = position_of(&entries, file_path) {
        entries.remove(i);
        proof {
            let after = entries@;
            assert forall|a: int, b: int| 0 <= a < b < after.len() implies (#[trigger] after[a]).0@ != (#[trigger] after[b]).0@ by {
                let a0 = if a < i { a } else { a + 1 };
                let b0 = if b < i { b } else { b + 1 };
                assert(after[a] == before[a0] && after[b] == before[b0]);
            }
        }
    }
    files.entries = entries;
    proof {
        use_type_invariant(&*files);
        let after = files.entries@;
        let m = old(files).files().remove(file_path@);
        assert forall|k: Seq<char>| #[trigger] final(files).files().contains_key(k) == m.contains_key(k) by {
            if m.contains_key(k) {
                let j = choose|j: int| 0 <= j < before.len() && (#[trigger] before[j]).0@ == k;
                if after.len() < before.len() {
                    let i = choose|i: int| 0 <= i < before.len() && (#[trigger] before[i]).0@ == file_path@;
                    assert(after =~= before.remove(i)) by {
                        assert(files.entries@ =~= after);
                    }
                }
                if after.len() == before.len() {
                    assert(after =~= before);
                    assert(after[j].0@ == k);
                } else {
                    assert(exists|p: int| 0 <= p < after.len() && (#[trigger] after[p]).0@ == k) by {
                        if j < after.len() && after[j] == before[j] {
                            assert(after[j].0@ == k);
                        } else {
                            assert(after[j - 1] == before[j]);
                        }
                    }
                }
            } else if final(files).files().contains_key(k) {
                let j = choose|j: int| 0 <= j < after.len() && (#[trigger] after[j]).0@ == k;
                assert(false);
            }
        }
        assert(final(files).files() =~= m);
    }
}

/// Whether the workbook `file_path` is open for editing, and its record.
pub fn has_eidtor_file(files: &EditorFiles, file_path: &str) -> (r: (bool, Option<WatcherData>))
    ensures
        r.0 == files.files().contains_key(file_path@),
        match r.1 {
            Some(d) => r.0 && watcher_model(d) == files.files()[file_path@],
            None => !r.0,
        },
{
    proof {
        use_type_invariant(files);
    }
    match position_of(&files.entries, file_path) {
        Some(i) => {
            let d = &files.entries[i].1;
            let copy = WatcherData { target_path: d.target_path.clone(), sheet_type: d.sheet_type };
            proof {
                let j = choose|j: int| 0 <= j < files.entries@.len() && (#[trigger] files.entries@[j]).0@ == file_path@;
                assert(j == i as int);
            }
            (true, Some(copy))
        },
        None => (false, None),
    }
}


/// `d` is what a sheet node holds after a reload that read `content`: the
/// content as a table of kind `kind` under the sheet name `sheet`, or
/// nothing when nothing was read.
pub open spec fn holds_sheet(d: Option<TreeData>, content: Option<GableData>, kind: ESheetType, sheet: Seq<char>) -> bool {
    match content {
        None => d is None,
        Some(c) => d matches Some(t) && t.gable_type == kind && t.file_name@ == sheet && t.content == c,
    }
}

/// Node `new` is node `old` after the first node of its subtree, in
/// pre-order, whose full path is `path` was given the content `d`.
pub open spec fn data_set_item(old: TreeItem, new: TreeItem, path: Seq<char>, d: Option<TreeData>) -> bool
    decreases old, 1int,
{
    &&& new.item_type == old.item_type
    &&& new.parent == old.parent
    &&& new.link_name == old.link_name
    &&& new.fullpath == old.fullpath
    &&& new.display_name == old.display_name
    &&& new.is_open == old.is_open
    &&& if old.fullpath@ == path {
        new.data == d && new.children@ == old.children@
    } else {
        new.data == old.data && data_set_in(old.children@, new.children@, path, d)
    }
}

/// The trees `new` are the trees `old` after the first node, in pre-order,
/// whose full path is `path` was given the content `d`.
pub open spec fn data_set_in(old: Seq<TreeItem>, new: Seq<TreeItem>, path: Seq<char>, d: Option<TreeData>) -> bool
    decreases old, 0int,
{
    &&& new.len() == old.len()
    &&& old.len() > 0 ==> if find_in_item(old[0], path) is Some {
        data_set_item(old[0], new[0], path, d) && new.drop_first() == old.drop_first()
    } else {
        new[0] == old[0] && data_set_in(old.drop_first(), new.drop_first(), path, d)
    }
}

proof fn lemma_data_set_at(old: Seq<TreeItem>, new: Seq<TreeItem>, i: int, path: Seq<char>, d: Option<TreeData>)
    requires
        0 <= i < old.len(),
        new.len() == old.len(),
        forall|k: int| 0 <= k < i ==> find_in_item(#[trigger] old[k], path) is None,
        forall|k: int| 0 <= k < old.len() && k != i ==> new[k] == old[k],
        find_in_item(old[i], path) is Some,
        data_set_item(old[i], new[i], path, d),
    ensures
        data_set_in(old, new, path, d),
    decreases i,
{
    if i > 0 {
        assert(find_in_item(old[0], path) is None);
        assert forall|k: int| 0 <= k < i - 1 implies find_in_item(#[trigger] old.drop_first()[k], path) is None by {
            assert(old.drop_first()[k] == old[k + 1]);
        }
        lemma_data_set_at(old.drop_first(), new.drop_first(), i - 1, path, d);
    } else {
        assert(new.drop_first() =~= old.drop_first());
    }
}

/// Gives the first node, in pre-order, whose full path is `path` the
/// content `d`.
fn set_item_data(items: &mut Vec<TreeItem>, path: &str, d: Option<TreeData>) -> (r: bool)
    ensures
        r == find_in(old(items)@, path@) is Some,
        r ==> data_set_in(old(items)@, final(items)@, path@, d),
        !r ==> final(items)@ == old(items)@,
    decreases old(items)@,
{
    let ghost orig = items@;
    let mut i: usize = 0;
    while i < items.len()
        invariant
            items@ == orig,
            orig == old(items)@,
            i <= orig.len(),
            forall|k: int| 0 <= k < i ==> find_in_item(#[trigger] orig[k], path@) is None,
        decreases items.len() - i,
    {
        if text_equal(items[i].fullpath.as_str(), path) {
            let item = &mut items[i];
            item.data = d;
            proof {
                lemma_data_set_at(orig, items@, i as int, path@, d);
                lemma_find_in_some(orig, i as int, path@);
            }
            return true;
        }
        if find_item_by_path(items[i].children.as_slice(), path).is_some() {
            assert(decreases_to!(orig => orig[i as int].children@));
            set_item_data(&mut items[i].children, path, d);
            proof {
                lemma_data_set_at(orig, items@, i as int, path@, d);
                lemma_find_in_some(orig, i as int, path@);
            }
            return true;
        }
        i = i + 1;
    }
    proof {
        lemma_find_all_none(orig, path@);
    }
    false
}

/// After the sheet file `file_path` was read again (to `new_data`, or to
/// nothing), gives the first node, in pre-order, with that full path the
/// new content, as a table of the kind its place in the workspace
/// `workspace` decides, under the sheet name of the file. Fails, changing
/// nothing, when the file's name names no sheet or no node has that path.
pub fn update_child_data(items: &mut Vec<TreeItem>, workspace: &str, file_path: &str, new_data: Option<GableData>) -> (r: bool)
    ensures
        match gable_name_parts(file_name_part(file_path@)) {
            Some((_, Some(sheet))) => {
                &&& r == find_in(old(items)@, file_path@) is Some
                &&& r ==> exists|d: Option<TreeData>| holds_sheet(d, new_data, sheet_type_at(workspace@, file_path@), sheet)
                    && data_set_in(old(items)@, final(items)@, file_path@, d)
            },
            _ => !r,
        },
        !r ==> final(items)@ == old(items)@,
{
    let gable_type = determine_sheet_type(workspace, file_path);
    let file_name = file_name_of(file_path);
    let parts = parse_gable_filename(file_name.as_str());
    let sheet_name: String = match parts {
        Some((_, Some(s_n))) => s_n,
        Some((_, None)) => {
            assert(!(gable_name_parts(file_name_part(file_path@)) matches Some((_, Some(_)))));
            return false;
        },
        None => return false,
    };
    assert(gable_name_parts(file_name_part(file_path@)) matches Some((_, Some(x))) && x == sheet_name@);
    let d: Option<TreeData> = match new_data {
        Some(data) => Some(TreeData { gable_type, file_name: sheet_name, content: data }),
        None => None,
    };
    assert(holds_sheet(d, new_data, sheet_type_at(workspace@, file_path@), sheet_name@));
    set_item_data(items, file_path, d)
}

/// The folder under which a node for the new file or folder `new_path` of
/// kind `kind` goes: the folder holding it, or, for a sheet file that names
/// its workbook, that folder joined with the workbook's name.
pub open spec fn new_item_parent(new_path: Seq<char>, kind: EItemType) -> Option<Seq<char>> {
    match parent_part(new_path) {
        None => None,
        Some(dir) => if kind == EItemType::Sheet {
            match gable_name_parts(file_name_part(new_path)) {
                Some((w, _)) => Some(joined(dir, w)),
                None => Some(dir),
            }
        } else {
            Some(dir)
        },
    }
}

/// `x` is the node made for the new file or folder `new_path` of kind
/// `kind`, under the folder `parent`, in the workspace `workspace`, with the
/// sheet content `content` read from it: named after the file (a workbook by
/// its workbook name, a sheet by its sheet name when the file names one),
/// linked by the file name, expanded and childless; a workbook's full path
/// is its folder joined with its name; a sheet holds the content read.
pub open spec fn is_new_node(x: TreeItem, workspace: Seq<char>, new_path: Seq<char>, kind: EItemType, parent: Seq<char>, content: Option<GableData>) -> bool {
    let file_name = file_name_part(new_path);
    let parts = gable_name_parts(file_name);
    &&& x.item_type == kind
    &&& x.link_name matches Some(l) && l@ == file_name
    &&& x.is_open
    &&& x.parent matches Some(p) && p@ == parent
    &&& x.children@.len() == 0
    &&& x.display_name@ == match (kind, parts) {
        (EItemType::Excel, Some((w, _))) => w,
        (EItemType::Sheet, Some((_, Some(sheet)))) => sheet,
        _ => file_name,
    }
    &&& x.fullpath@ == match (kind, parts) {
        (EItemType::Excel, Some((w, _))) => joined(parent, w),
        _ => new_path,
    }
    &&& if kind == EItemType::Sheet {
        holds_sheet(x.data, content, sheet_type_at(workspace, new_path), x.display_name@)
    } else {
        x.data is None
    }
}


/// The trees `new` are the trees `old` after `add_new_item` for the new file
/// or folder `new_path` of kind `kind` with the content `content`, in the
/// workspace `workspace`, which answered `r`.
pub open spec fn new_item_added(old: Seq<TreeItem>, new: Seq<TreeItem>, workspace: Seq<char>, new_path: Seq<char>, kind: EItemType, content: Option<GableData>, r: bool) -> bool {
    &&& match new_item_parent(new_path, kind) {
        Some(pp) => {
            &&& r == (file_name_part(new_path).len() > 0 && (pp == workspace || find_in(old, pp) is Some))
            &&& r ==> exists|x: TreeItem| is_new_node(x, workspace, new_path, kind, pp, content)
                && if pp == workspace {
                    new == sort_listed(old.push(x))
                } else {
                    placed_in(old, new, x, pp)
                }
        },
        None => !r,
    }
    &&& !r ==> new == old
}

/// Adds to the tree the node for the new file or folder `new_path` of kind
/// `new_item` (for a sheet, with the content `content` read from the file):
/// at the top, sorted into listing order, when it goes directly under the
/// workspace `workspace`, and otherwise under its parent node as
/// `add_item_to_parent` does. Fails, changing nothing, when the path names
/// no file or folder, or when the parent node is not in the tree.
pub fn add_new_item(tree: &mut Vec<TreeItem>, workspace: &str, new_path: &str, new_item: EItemType, content: Option<GableData>) -> (r: bool)
    ensures
        new_item_added(old(tree)@, final(tree)@, workspace@, new_path@, new_item, content, r),
{
    let file_name = file_name_of(new_path);
    if file_name.as_str().is_empty() {
        return false;
    }
    let parent_dir: String = match parent_of(new_path) {
        Some(p) => p,
        None => return false,
    };
    let parts = parse_gable_filename(file_name.as_str());
    let parent_path: String = match new_item {
        EItemType::Sheet => match &parts {
            Some((excel_name, _)) => join_path(parent_dir.as_str(), excel_name.as_str()),
            None => parent_dir,
        },
        _ => parent_dir,
    };
    let mut display_name: String = file_name.clone();
    let mut fullpath: String = new_path.to_owned();
    let mut tree_data: Option<TreeData> = None;
    match new_item {
        EItemType::Excel => {
            if let Some((e_n, _)) = &parts {
                display_name = e_n.clone();
                fullpath = join_path(parent_path.as_str(), e_n.as_str());
            }
        },
        EItemType::Sheet => {
            if let Some((_, Some(s_n))) = &parts {
                display_name = s_n.clone();
            }
            if let Some(gable_data) = content {
                let sheet_type = determine_sheet_type(workspace, new_path);
                tree_data = Some(TreeData { gable_type: sheet_type, file_name: display_name.clone(), content: gable_data });
            }
        },
        EItemType::Folder => {},
    }
    let node = TreeItem {
        item_type: new_item,
        display_name,
        link_name: Some(file_name),
        is_open: true,
        fullpath,
        parent: Some(parent_path.clone()),
        children: Vec::new(),
        data: tree_data,
    };
    assert(is_new_node(node, workspace@, new_path@, new_item, parent_path@, content));
    if text_equal(parent_path.as_str(), workspace) {
        tree.push(node);
        sort_tree_items(tree);
        true
    } else {
        add_item_to_parent(tree, node, parent_path.as_str())
    }
}


/// The position of the last `c` in `s`, or -1 when there is none.
pub open spec fn last_index_of(s: Seq<char>, c: char) -> int
    decreases s.len(),
{
    if s.len() == 0 {
        -1
    } else if s.last() == c {
        s.len() - 1
    } else {
        last_index_of(s.drop_last(), c)
    }
}

/// The name of the workbook that editing `item` opens: a workbook's own
/// name; for another node, the part of its file name before the first `@`,
/// or else before the last `.`, or else its shown name; `None` for a
/// folder, which cannot be edited.
pub open spec fn edited_workbook(item: TreeItem) -> Option<Seq<char>> {
    if item.item_type == EItemType::Folder {
        None
    } else if item.item_type == EItemType::Excel {
        Some(item.display_name@)
    } else {
        let name = file_name_part(item.fullpath@);
        let file_name = if name.len() > 0 { name } else { item.fullpath@ };
        let at = first_index_of(file_name, '@');
        let dot = last_index_of(file_name, '.');
        if at >= 0 {
            Some(file_name.take(at))
        } else if dot >= 0 {
            Some(file_name.take(dot))
        } else {
            Some(item.display_name@)
        }
    }
}

/// The folder whose sheet files belong to the workbook that editing `item`
/// opens: the folder holding the node's path, or `.`.
pub open spec fn edited_folder(item: TreeItem) -> Seq<char> {
    match parent_part(item.fullpath@) {
        Some(p) => p,
        None => "."@,
    }
}

/// The kind of the tables of the workbook that editing `item` opens: the
/// node's own, or that of its first child holding a table, or a normal
/// table.
pub open spec fn edited_kind(item: TreeItem) -> ESheetType {
    match item.data {
        Some(d) => d.gable_type,
        None => match first_child_kind(item.children@) {
            Some(k) => k,
            None => ESheetType::Normal,
        },
    }
}

/// The kind of the table of the first of the nodes `s` that holds one.
pub open spec fn first_child_kind(s: Seq<TreeItem>) -> Option<ESheetType>
    decreases s.len(),
{
    if s.len() == 0 {
        None
    } else if s[0].data is Some {
        Some(s[0].data->0.gable_type)
    } else {
        first_child_kind(s.drop_first())
    }
}

/// The paths, in listing order, of the files among `entries` (name, path)
/// that store sheets of the workbook `workbook`.
pub open spec fn workbook_files(workbook: Seq<char>, entries: Seq<(String, String)>) -> Seq<Seq<char>>
    decreases entries.len(),
{
    if entries.len() == 0 {
        Seq::empty()
    } else {
        let rest = workbook_files(workbook, entries.drop_last());
        if gable_name_parts(entries.last().0@) matches Some((w, _)) && w == workbook {
            rest.push(entries.last().1@)
        } else {
            rest
        }
    }
}

/// What editing a workbook needs: its name, the folder of its sheet files,
/// their paths, and the kind of its tables.
pub struct EditPlan {
    /// The workbook's name.
    pub excel_name: String,
    /// The folder its sheet files are in and are written back to.
    pub parent_path: String,
    /// The paths of its sheet files.
    pub related_files: Vec<String>,
    /// The kind of its tables.
    pub sheet_type: ESheetType,
}

/// The paths of the files among `entries` (each a file name and its path,
/// in listing order) that store sheets of the workbook `workbook`.
pub fn related_gable_files(workbook: &str, entries: &[(String, String)]) -> (r: Vec<String>)
    ensures
        r@.map_values(|p: String| p@) == workbook_files(workbook@, entries@),
{
    let mut r: Vec<String> = Vec::new();
    let mut i: usize = 0;
    while i < entries.len()
        invariant
            i <= entries@.len(),
            r@.map_values(|p: String| p@) == workbook_files(workbook@, entries@.take(i as int)),
        decreases entries.len() - i,
    {
        let ghost before = r@;
        assert(entries@.take(i + 1).drop_last() =~= entries@.take(i as int));
        assert(entries@.take(i + 1).last() == entries@[i as int]);
        if let Some((excel_name, _)) = parse_gable_filename(entries[i].0.as_str()) {
            if text_equal(excel_name.as_str(), workbook) {
                r.push(entries[i].1.clone());
                assert(r@.map_values(|p: String| p@) =~= before.map_values(|p: String| p@).push(entries@[i as int].1@));
            }
        }
        i = i + 1;
    }
    assert(entries@.take(i as int) =~= entries@);
    r
}

/// The kind of the first of `items` that holds a table.
fn first_kind(items: &Vec<TreeItem>) -> (r: Option<ESheetType>)
    ensures
        r == first_child_kind(items@),
{
    let mut i: usize = 0;
    assert(items@.skip(0) =~= items@);
    while i < items.len()
        invariant
            i <= items@.len(),
            first_child_kind(items@) == first_child_kind(items@.skip(i as int)),
        decreases items.len() - i,
    {
        assert(items@.skip(i as int)[0] == items@[i as int]);
        if let Some(d) = &items[i].data {
            return Some(d.gable_type);
        }
        assert(items@.skip(i as int).drop_first() =~= items@.skip(i + 1));
        i = i + 1;
    }
    None
}

/// The position of the last `c` in `v`.
fn last_index_of_char(v: &[char], c: char) -> (r: Option<usize>)
    ensures
        match r {
            Some(i) => i == last_index_of(v@, c),
            None => last_index_of(v@, c) < 0,
        },
{
    let mut i: usize = v.len();
    assert(v@.take(i as int) =~= v@);
    while i > 0
        invariant
            i <= v@.len(),
            last_index_of(v@, c) == last_index_of(v@.take(i as int), c),
        decreases i,
    {
        let ghost t = v@.take(i as int);
        assert(t.last() == v@[i - 1]);
        if v[i - 1] == c {
            return Some(i - 1);
        }
        assert(t.drop_last() =~= v@.take(i - 1));
        i = i - 1;
    }
    None
}

proof fn lemma_last_index_of(s: Seq<char>, c: char)
    ensures
        -1 <= last_index_of(s, c) < s.len(),
    decreases s.len(),
{
    if s.len() > 0 && s.last() != c {
        lemma_last_index_of(s.drop_last(), c);
    }
}

/// What editing the node `item` needs, given the files of the folder that
/// holds it (`entries`: name and path, in listing order): the workbook's
/// name, that folder, the workbook's sheet files and the kind of its
/// tables; `None` for a folder, which cannot be edited.
pub fn command_edit_gable(item: &TreeItem, entries: &[(String, String)]) -> (r: Option<EditPlan>)
    ensures
        match r {
            None => edited_workbook(*item) is None,
            Some(plan) => edited_workbook(*item) == Some(plan.excel_name@)
                && plan.parent_path@ == edited_folder(*item)
                && plan.related_files@.map_values(|p: String| p@) == workbook_files(plan.excel_name@, entries@)
                && plan.sheet_type == edited_kind(*item),
        },
{
    if item.item_type == EItemType::Folder {
        return None;
    }
    let excel_name: String = if item.item_type == EItemType::Excel {
        item.display_name.clone()
    } else {
        let name = file_name_of(item.fullpath.as_str());
        let file_name: String = if name.as_str().is_empty() { item.fullpath.clone() } else { name };
        let v = chars_of(file_name.as_str());
        proof {
            lemma_last_index_of(v@, '.');
        }
        match index_of_char(v.as_slice(), '@') {
            Some(at) => string_of(slice_to(v.as_slice(), at).as_slice()),
            None => match last_index_of_char(v.as_slice(), '.') {
                Some(dot) => string_of(slice_to(v.as_slice(), dot).as_slice()),
                None => item.display_name.clone(),
            },
        }
    };
    let parent_path: String = match parent_of(item.fullpath.as_str()) {
        Some(p) => p,
        None => {
            let dot = ".".to_owned();
            proof {
                reveal_strlit(".");
            }
            dot
        },
    };
    let related_files = related_gable_files(excel_name.as_str(), entries);
    let sheet_type = match &item.data {
        Some(d) => d.gable_type,
        None => match first_kind(&item.children) {
            Some(k) => k,
            None => ESheetType::Normal,
        },
    };
    Some(EditPlan { excel_name, parent_path, related_files, sheet_type })
}


/// What `has_eidtor_file` reads after `add_editor_file` or
/// `remove_editor_file`: a workbook just recorded is found with what was
/// recorded, one just forgotten is not found, and the records of other
/// workbooks stay as they were.
pub proof fn lemma_editor_files_read_after_write(
    files: Map<Seq<char>, (Seq<char>, ESheetType)>,
    path: Seq<char>,
    target: Seq<char>,
    kind: ESheetType,
    other: Seq<char>,
)
    ensures
        files.insert(path, (target, kind)).contains_key(path),
        files.insert(path, (target, kind))[path] == (target, kind),
        !files.remove(path).contains_key(path),
        other != path ==> files.insert(path, (target, kind)).contains_key(other) == files.contains_key(other),
        other != path && files.contains_key(other) ==> files.insert(path, (target, kind))[other] == files[other],
        other != path ==> files.remove(path).contains_key(other) == files.contains_key(other),
        other != path && files.contains_key(other) ==> files.remove(path)[other] == files[other],
{
}


proof fn lemma_member_found(s: Seq<TreeItem>, x: TreeItem)
    requires
        s.contains(x),
    ensures
        find_in(s, x.fullpath@) is Some,
{
    let i = choose|i: int| 0 <= i < s.len() && s[i] == x;
    lemma_find_in_some(s, i, x.fullpath@);
}

proof fn lemma_placed_item_found(old: TreeItem, new: TreeItem, x: TreeItem, parent: Seq<char>)
    requires
        find_in_item(old, parent) is Some,
        placed_item(old, new, x, parent),
    ensures
        find_in_item(new, x.fullpath@) is Some,
    decreases old, 1int,
{
    if old.fullpath@ == parent {
        let s = old.children@.push(x);
        lemma_sort_listed(s);
        assert(s[s.len() - 1] == x);
        vstd::seq_lib::to_multiset_contains(s, x);
        vstd::seq_lib::to_multiset_contains(sort_listed(s), x);
        assert(sort_listed(s).contains(x));
        lemma_member_found(new.children@, x);
    } else {
        lemma_placed_in_found(old.children@, new.children@, x, parent);
    }
}

proof fn lemma_placed_in_found(old: Seq<TreeItem>, new: Seq<TreeItem>, x: TreeItem, parent: Seq<char>)
    requires
        find_in(old, parent) is Some,
        placed_in(old, new, x, parent),
    ensures
        find_in(new, x.fullpath@) is Some,
    decreases old, 0int,
{
    if find_in_item(old[0], parent) is Some {
        lemma_placed_item_found(old[0], new[0], x, parent);
    } else {
        lemma_placed_in_found(old.drop_first(), new.drop_first(), x, parent);
        if find_in_item(new[0], x.fullpath@) is None {
            assert(find_in(new, x.fullpath@) == find_in(new.drop_first(), x.fullpath@));
        }
    }
}

/// A node added under a parent (`add_item_to_parent` answering `true`) is
/// found afterwards by its full path.
pub proof fn lemma_added_node_found(old: Seq<TreeItem>, new: Seq<TreeItem>, x: TreeItem, parent: Seq<char>)
    requires
        find_in(old, parent) is Some,
        placed_in(old, new, x, parent),
    ensures
        find_in(new, x.fullpath@) is Some,
{
    lemma_placed_in_found(old, new, x, parent);
}

proof fn lemma_renamed_item_found(old: TreeItem, new: TreeItem, target: Seq<char>, path: Seq<char>, name: Seq<char>)
    requires
        find_in_item(old, target) is Some,
        renamed_item(old, new, target, path, name),
    ensures
        find_in_item(new, path) is Some,
    decreases old, 1int,
{
    if old.fullpath@ != target {
        lemma_renamed_in_found(old.children@, new.children@, target, path, name);
    }
}

proof fn lemma_renamed_in_found(old: Seq<TreeItem>, new: Seq<TreeItem>, target: Seq<char>, path: Seq<char>, name: Seq<char>)
    requires
        find_in(old, target) is Some,
        renamed_in(old, new, target, path, name),
    ensures
        find_in(new, path) is Some,
    decreases old, 0int,
{
    if find_in_item(old[0], target) is Some {
        lemma_renamed_item_found(old[0], new[0], target, path, name);
    } else {
        lemma_renamed_in_found(old.drop_first(), new.drop_first(), target, path, name);
        if find_in_item(new[0], path) is None {
            assert(find_in(new, path) == find_in(new.drop_first(), path));
        }
    }
}

/// A node given a new path (`update_item_display_name_recursive` answering
/// `true`) is found afterwards under that path.
pub proof fn lemma_renamed_node_found(old: Seq<TreeItem>, new: Seq<TreeItem>, target: Seq<char>, path: Seq<char>, name: Seq<char>)
    requires
        find_in(old, target) is Some,
        renamed_in(old, new, target, path, name),
    ensures
        find_in(new, path) is Some,
{
    lemma_renamed_in_found(old, new, target, path, name);
}

} // verus!
