//! A node of the workspace tree: a folder, a workbook or a sheet.
use crate::gui::datas::eitem_type::EItemType;
use crate::gui::datas::esheet_type::ESheetType;
use crate::gui::datas::gable_data::GableData;
use crate::gui::datas::tree_data::TreeData;
use crate::common::text::{lemma_text_le_total, lemma_text_le_transitive, text_equal, text_le, text_not_after};
use vstd::prelude::*;

verus! {

/// A node of the workspace tree.
#[derive(Debug)]
pub struct TreeItem {
    /// The kind of node.
    pub item_type: EItemType,
    /// The name shown in the tree.
    pub display_name: String,
    /// Whether the node is expanded.
    pub is_open: bool,
    /// The node's full path (for a workbook, its folder joined with its name).
    pub fullpath: String,
    /// The full path of the parent node.
    pub parent: Option<String>,
    /// The name other tables link to this node by.
    pub link_name: Option<String>,
    /// The child nodes.
    pub children: Vec<TreeItem>,
    /// The sheet's content, when it was read.
    pub data: Option<TreeData>,
}

/// The sheet that a node itself contributes to `get_datas`: a sheet node
/// with content that is not an enum table.
pub open spec fn own_sheet(item: TreeItem) -> Seq<(Seq<char>, TreeData)> {
    if item.item_type == EItemType::Sheet && item.data is Some && item.data->0.gable_type != ESheetType::Enum {
        seq![(item.display_name@, item.data->0)]
    } else {
        Seq::empty()
    }
}

/// The sheets of a node and its descendants, in pre-order.
pub open spec fn sheet_list(item: TreeItem) -> Seq<(Seq<char>, TreeData)>
    decreases item, 1int,
{
    own_sheet(item) + sheets_of(item.children@)
}

/// The sheets of a list of nodes, in pre-order.
pub open spec fn sheets_of(items: Seq<TreeItem>) -> Seq<(Seq<char>, TreeData)>
    decreases items, 0int,
{
    if items.len() == 0 {
        Seq::empty()
    } else {
        sheet_list(items[0]) + sheets_of(items.drop_first())
    }
}

/// The names and contents of some `(name, sheet)` pairs.
pub open spec fn datas_model(v: Seq<(String, &TreeData)>) -> Seq<(Seq<char>, TreeData)> {
    v.map_values(|p: (String, &TreeData)| (p.0@, *p.1))
}

/// No two entries share a name.
pub open spec fn names_distinct(s: Seq<(Seq<char>, TreeData)>) -> bool {
    forall|i: int, j: int| 0 <= i < j < s.len() ==> (#[trigger] s[i]).0 != (#[trigger] s[j]).0
}

/// Named entries collected into a map: a later entry replaces an earlier
/// one of the same name.
pub open spec fn by_name(s: Seq<(Seq<char>, TreeData)>) -> Map<Seq<char>, TreeData>
    decreases s.len(),
{
    if s.len() == 0 {
        Map::empty()
    } else {
        by_name(s.drop_last()).insert(s.last().0, s.last().1)
    }
}

proof fn lemma_by_name_distinct(s: Seq<(Seq<char>, TreeData)>)
    requires
        names_distinct(s),
    ensures
        forall|k: Seq<char>| #[trigger] by_name(s).contains_key(k) <==> exists|i: int| 0 <= i < s.len() && s[i].0 == k,
        forall|i: int| 0 <= i < s.len() ==> by_name(s)[(#[trigger] s[i]).0] == s[i].1,
    decreases s.len(),
{
    if s.len() > 0 {
        let p = s.drop_last();
        assert forall|i: int, j: int| 0 <= i < j < p.len() implies (#[trigger] p[i]).0 != (#[trigger] p[j]).0 by {
            assert(p[i] == s[i] && p[j] == s[j]);
        }
        lemma_by_name_distinct(p);
        assert forall|k: Seq<char>| #[trigger] by_name(s).contains_key(k) <==> exists|i: int| 0 <= i < s.len() && s[i].0 == k by {
            if by_name(s).contains_key(k) {
                if k == s.last().0 {
                    assert(s[s.len() - 1].0 == k);
                } else {
                    assert(by_name(p).contains_key(k));
                    let i = choose|i: int| 0 <= i < p.len() && p[i].0 == k;
                    assert(s[i].0 == k);
                }
            }
            if exists|i: int| 0 <= i < s.len() && s[i].0 == k {
                let i = choose|i: int| 0 <= i < s.len() && s[i].0 == k;
                if i < s.len() - 1 {
                    assert(p[i].0 == k);
                }
            }
        }
        assert forall|i: int| 0 <= i < s.len() implies by_name(s)[(#[trigger] s[i]).0] == s[i].1 by {
            if i < s.len() - 1 {
                assert(s[i] != s.last() || s[i].0 != s.last().0);
                assert(s[i].0 != s[s.len() - 1].0);
                assert(p[i] == s[i]);
            }
        }
    }
}

proof fn lemma_by_name_update(s: Seq<(Seq<char>, TreeData)>, j: int, e: (Seq<char>, TreeData))
    requires
        names_distinct(s),
        0 <= j < s.len(),
        s[j].0 == e.0,
    ensures
        names_distinct(s.update(j, e)),
        by_name(s.update(j, e)) == by_name(s).insert(e.0, e.1),
{
    let t = s.update(j, e);
    assert forall|a: int, b: int| 0 <= a < b < t.len() implies (#[trigger] t[a]).0 != (#[trigger] t[b]).0 by {
        assert(t[a].0 == s[a].0 && t[b].0 == s[b].0);
    }
    lemma_by_name_distinct(s);
    lemma_by_name_distinct(t);
    assert forall|k: Seq<char>| #[trigger] by_name(t).contains_key(k) <==> by_name(s).insert(e.0, e.1).contains_key(k) by {
        if exists|i: int| 0 <= i < t.len() && t[i].0 == k {
            let i = choose|i: int| 0 <= i < t.len() && t[i].0 == k;
            assert(s[i].0 == k);
        }
        if exists|i: int| 0 <= i < s.len() && s[i].0 == k {
            let i = choose|i: int| 0 <= i < s.len() && s[i].0 == k;
            assert(t[i].0 == k);
        }
        if k == e.0 {
            assert(t[j].0 == k);
        }
    }
    assert forall|k: Seq<char>| #[trigger] by_name(t).contains_key(k) implies by_name(t)[k] == by_name(s).insert(e.0, e.1)[k] by {
        let i = choose|i: int| 0 <= i < t.len() && t[i].0 == k;
        assert(by_name(t)[t[i].0] == t[i].1);
        if i == j {
        } else {
            assert(t[i] == s[i]);
            assert(by_name(s)[s[i].0] == s[i].1);
            assert(s[i].0 != s[j].0);
        }
    }
    assert(by_name(t) =~= by_name(s).insert(e.0, e.1));
}

/// The position of the entry named `name`, if any.
fn name_position(v: &Vec<(String, &TreeData)>, name: &str) -> (r: Option<usize>)
    ensures
        match r {
            Some(j) => j < v@.len() && v@[j as int].0@ == name@,
            None => forall|j: int| 0 <= j < v@.len() ==> (#[trigger] v@[j]).0@ != name@,
        },
{
    let mut j: usize = 0;
    while j < v.len()
        invariant
            j <= v@.len(),
            forall|i: int| 0 <= i < j ==> (#[trigger] v@[i]).0@ != name@,
        decreases v.len() - j,
    {
        if text_equal(v[j].0.as_str(), name) {
            return Some(j);
        }
        j = j + 1;
    }
    None
}

proof fn lemma_sheets_of_push(items: Seq<TreeItem>, x: TreeItem)
    ensures
        sheets_of(items.push(x)) =~= sheets_of(items) + sheet_list(x),
    decreases items.len(),
{
    if items.len() == 0 {
        assert(items.push(x).drop_first() =~= Seq::<TreeItem>::empty());
        assert(sheets_of(Seq::<TreeItem>::empty()) =~= Seq::empty());
    } else {
        lemma_sheets_of_push(items.drop_first(), x);
        assert(items.push(x).drop_first() =~= items.drop_first().push(x));
        assert(items.push(x)[0] == items[0]);
    }
}

impl TreeItem {
    /// The sheets of this node and its descendants, in pre-order, with the
    /// names they are shown under: every sheet node with content that is
    /// not an enum table.
    fn sheet_entries(&self) -> (v: Vec<(String, &TreeData)>)
        ensures
            datas_model(v@) == sheet_list(*self),
        decreases self,
    {
        let mut cache: Vec<(String, &TreeData)> = Vec::new();
        if self.item_type == EItemType::Sheet {
            if let Some(data) = &self.data {
                if data.gable_type != ESheetType::Enum {
                    cache.push((self.display_name.clone(), data));
                }
            }
        }
        assert(datas_model(cache@) =~= own_sheet(*self));
        assert(self.children@.take(0) =~= Seq::<TreeItem>::empty());
        let mut i: usize = 0;
        while i < self.children.len()
            invariant
                i <= self.children@.len(),
                datas_model(cache@) =~= own_sheet(*self) + sheets_of(self.children@.take(i as int)),
            decreases self.children.len() - i,
        {
            assert(decreases_to!(self => self.children@[i as int]));
            let child_cache = self.children[i].sheet_entries();
            let ghost before = cache@;
            let mut k: usize = 0;
            while k < child_cache.len()
                invariant
                    k <= child_cache@.len(),
                    datas_model(cache@) =~= datas_model(before) + datas_model(child_cache@).take(k as int),
                decreases child_cache.len() - k,
            {
                let (name, data) = &child_cache[k];
                let ghost mid = cache@;
                cache.push((name.clone(), *data));
                assert(datas_model(cache@) =~= datas_model(mid).push(datas_model(child_cache@)[k as int]));
                assert(datas_model(child_cache@).take(k + 1) =~= datas_model(child_cache@).take(k as int).push(datas_model(child_cache@)[k as int]));
                k = k + 1;
            }
            assert(datas_model(child_cache@).take(k as int) =~= datas_model(child_cache@));
            proof {
                lemma_sheets_of_push(self.children@.take(i as int), self.children@[i as int]);
                assert(self.children@.take(i + 1) =~= self.children@.take(i as int).push(self.children@[i as int]));
            }
            i = i + 1;
        }
        assert(self.children@.take(i as int) =~= self.children@);
        cache
    }

    /// The sheets of this node and its descendants by the name they are
    /// shown under: every sheet node with content that is not an enum
    /// table, where a later sheet in pre-order (the node itself, then its
    /// children in order) replaces an earlier one of the same name. Each
    /// name is listed once.
    pub fn get_datas(&self) -> (v: Vec<(String, &TreeData)>)
        ensures
            names_distinct(datas_model(v@)),
            by_name(datas_model(v@)) == by_name(sheet_list(*self)),
    {
        let all = self.sheet_entries();
        let ghost all_model = datas_model(all@);
        let mut v: Vec<(String, &TreeData)> = Vec::new();
        let mut k: usize = 0;
        assert(all_model.take(0) =~= Seq::<(Seq<char>, TreeData)>::empty());
        assert(datas_model(v@) =~= Seq::<(Seq<char>, TreeData)>::empty());
        while k < all.len()
            invariant
                k <= all@.len(),
                all_model == datas_model(all@),
                names_distinct(datas_model(v@)),
                by_name(datas_model(v@)) == by_name(all_model.take(k as int)),
            decreases all.len() - k,
        {
            let (name, data) = &all[k];
            let ghost e = (name@, **data);
            assert(all_model[k as int] == e);
            assert(all_model.take(k + 1).drop_last() =~= all_model.take(k as int));
            assert(all_model.take(k + 1).last() == e);
            let ghost before = datas_model(v@);
            match name_position(&v, name.as_str()) {
                Some(j) => {
                    v.set(j, (name.clone(), *data));
                    assert(datas_model(v@) =~= before.update(j as int, e));
                    proof {
                        lemma_by_name_update(before, j as int, e);
                    }
                },
                None => {
                    v.push((name.clone(), *data));
                    assert(datas_model(v@) =~= before.push(e));
                    assert(datas_model(v@).drop_last() =~= before);
                },
            }
            k = k + 1;
        }
        assert(all_model.take(k as int) =~= all_model);
        v
    }
}


/// Node `a` is listed no later than node `b` among siblings: folders come
/// first, and nodes of the same group by their names in text order.
pub open spec fn listed_no_later(a: TreeItem, b: TreeItem) -> bool {
    let fa = a.item_type == EItemType::Folder;
    let fb = b.item_type == EItemType::Folder;
    if fa != fb {
        fa
    } else {
        text_le(a.display_name@, b.display_name@)
    }
}

/// The nodes `s` are in listing order.
pub open spec fn listed_in_order(s: Seq<TreeItem>) -> bool {
    forall|i: int, j: int| 0 <= i < j < s.len() ==> listed_no_later(#[trigger] s[i], #[trigger] s[j])
}

/// Where `x` goes among the ordered nodes `s`: after every node of the
/// longest prefix listed no later than `x`.
pub open spec fn insert_position(s: Seq<TreeItem>, x: TreeItem) -> nat
    decreases s.len(),
{
    if s.len() == 0 {
        0
    } else if listed_no_later(s[0], x) {
        1 + insert_position(s.drop_first(), x)
    } else {
        0
    }
}

/// `s` with `x` inserted at its place in the listing order.
pub open spec fn insert_listed(s: Seq<TreeItem>, x: TreeItem) -> Seq<TreeItem> {
    s.insert(insert_position(s, x) as int, x)
}

/// The stable sort of `s` into listing order: each node in turn inserted
/// after the nodes before it that are listed no later than it.
pub open spec fn sort_listed(s: Seq<TreeItem>) -> Seq<TreeItem>
    decreases s.len(),
{
    if s.len() == 0 {
        s
    } else {
        insert_listed(sort_listed(s.drop_last()), s.last())
    }
}

/// The listing order is total.
pub proof fn lemma_listed_total(a: TreeItem, b: TreeItem)
    ensures
        listed_no_later(a, b) || listed_no_later(b, a),
{
    lemma_text_le_total(a.display_name@, b.display_name@);
}

/// The listing order is transitive.
pub proof fn lemma_listed_transitive(a: TreeItem, b: TreeItem, c: TreeItem)
    requires
        listed_no_later(a, b),
        listed_no_later(b, c),
    ensures
        listed_no_later(a, c),
{
    if (a.item_type == EItemType::Folder) == (b.item_type == EItemType::Folder)
        && (b.item_type == EItemType::Folder) == (c.item_type == EItemType::Folder) {
        lemma_text_le_transitive(a.display_name@, b.display_name@, c.display_name@);
    }
}

proof fn lemma_insert_position(s: Seq<TreeItem>, x: TreeItem)
    ensures
        insert_position(s, x) <= s.len(),
        forall|k: int| 0 <= k < insert_position(s, x) ==> listed_no_later(#[trigger] s[k], x),
        insert_position(s, x) < s.len() ==> !listed_no_later(s[insert_position(s, x) as int], x),
    decreases s.len(),
{
    if s.len() > 0 && listed_no_later(s[0], x) {
        lemma_insert_position(s.drop_first(), x);
        assert forall|k: int| 0 <= k < insert_position(s, x) implies listed_no_later(#[trigger] s[k], x) by {
            if k > 0 {
                assert(s[k] == s.drop_first()[k - 1]);
            }
        }
    }
}

/// Inserting a node at its place keeps ordered nodes in order, and adds
/// exactly that node.
pub proof fn lemma_insert_listed(s: Seq<TreeItem>, x: TreeItem)
    requires
        listed_in_order(s),
    ensures
        listed_in_order(insert_listed(s, x)),
        insert_listed(s, x).to_multiset() =~= s.to_multiset().insert(x),
        insert_listed(s, x).len() == s.len() + 1,
{
    let p = insert_position(s, x) as int;
    let r = insert_listed(s, x);
    lemma_insert_position(s, x);
    vstd::seq_lib::to_multiset_insert(s, p, x);
    assert forall|i: int, j: int| 0 <= i < j < r.len() implies listed_no_later(#[trigger] r[i], #[trigger] r[j]) by {
        if j < p {
            assert(r[i] == s[i] && r[j] == s[j]);
        } else if j == p {
            assert(r[i] == s[i]);
        } else if i == p {
            assert(r[j] == s[j - 1]);
            lemma_listed_total(s[p], x);
            if j - 1 > p {
                lemma_listed_transitive(x, s[p], s[j - 1]);
            }
        } else if i < p {
            assert(r[i] == s[i] && r[j] == s[j - 1]);
        } else {
            assert(r[i] == s[i - 1] && r[j] == s[j - 1]);
        }
    }
}

/// The sort leaves nodes in listing order, with the same nodes.
pub proof fn lemma_sort_listed(s: Seq<TreeItem>)
    ensures
        listed_in_order(sort_listed(s)),
        sort_listed(s).to_multiset() =~= s.to_multiset(),
        sort_listed(s).len() == s.len(),
    decreases s.len(),
{
    if s.len() > 0 {
        lemma_sort_listed(s.drop_last());
        lemma_insert_listed(sort_listed(s.drop_last()), s.last());
        vstd::seq_lib::to_multiset_build(s.drop_last(), s.last());
        assert(s.drop_last().push(s.last()) =~= s);
    } else {
        assert(s.to_multiset() =~= vstd::multiset::Multiset::empty()) by {
            vstd::seq_lib::to_multiset_len(s);
        }
    }
}

/// Whether node `a` is listed no later than node `b`.
pub fn is_listed_no_later(a: &TreeItem, b: &TreeItem) -> (r: bool)
    ensures
        r == listed_no_later(*a, *b),
{
    let fa = a.item_type == EItemType::Folder;
    let fb = b.item_type == EItemType::Folder;
    if fa != fb {
        fa
    } else {
        text_not_after(a.display_name.as_str(), b.display_name.as_str())
    }
}

/// Inserts `x` among the nodes `items` at its place in the listing order.
pub fn insert_in_order(items: &mut Vec<TreeItem>, x: TreeItem)
    ensures
        final(items)@ == insert_listed(old(items)@, x),
{
    let mut i: usize = 0;
    assert(old(items)@.skip(0) =~= old(items)@);
    while i < items.len() && is_listed_no_later(&items[i], &x)
        invariant
            items@ == old(items)@,
            i <= items@.len(),
            insert_position(items@, x) == i + insert_position(items@.skip(i as int), x),
        decreases items.len() - i,
    {
        assert(items@.skip(i as int)[0] == items@[i as int]);
        assert(items@.skip(i as int).drop_first() =~= items@.skip(i + 1));
        i = i + 1;
    }
    proof {
        if i < items@.len() {
            assert(items@.skip(i as int)[0] == items@[i as int]);
        } else {
            assert(items@.skip(i as int).len() == 0);
        }
    }
    items.insert(i, x);
}

/// Sorts nodes into listing order, stably.
pub fn sort_tree_items(items: &mut Vec<TreeItem>)
    ensures
        final(items)@ == sort_listed(old(items)@),
        listed_in_order(final(items)@),
        final(items)@.to_multiset() =~= old(items)@.to_multiset(),
{
    let ghost orig = items@;
    let n: usize = items.len();
    let mut rest: Vec<TreeItem> = Vec::new();
    std::mem::swap(&mut rest, items);
    assert(orig.take(0) =~= Seq::<TreeItem>::empty());
    assert(orig.skip(0) =~= orig);
    let mut k: usize = 0;
    while rest.len() > 0
        invariant
            k <= orig.len(),
            orig.len() == n,
            rest@ == orig.skip(k as int),
            items@ == sort_listed(orig.take(k as int)),
        decreases rest.len(),
    {
        assert(k < orig.len());
        let x = rest.remove(0);
        assert(orig.take(k + 1).drop_last() =~= orig.take(k as int));
        assert(orig.take(k + 1).last() == orig[k as int]);
        insert_in_order(items, x);
        k = k + 1;
        assert(rest@ =~= orig.skip(k as int));
    }
    assert(orig.take(k as int) =~= orig);
    proof {
        lemma_sort_listed(orig);
    }
}


/// The value of a sheet's content: its kind, its sheet name and its cells.
pub struct SheetModel {
    /// The kind of table.
    pub gable_type: ESheetType,
    /// The sheet's name.
    pub file_name: Seq<char>,
    /// The cells.
    pub content: GableData,
}

/// The value of a tree node, with every text taken by its characters.
pub struct NodeModel {
    /// The kind of node.
    pub item_type: EItemType,
    /// The name shown.
    pub display_name: Seq<char>,
    /// Whether it is expanded.
    pub is_open: bool,
    /// Its full path.
    pub fullpath: Seq<char>,
    /// Its parent's full path.
    pub parent: Option<Seq<char>>,
    /// The name it is linked by.
    pub link_name: Option<Seq<char>>,
    /// Its children.
    pub children: Seq<NodeModel>,
    /// Its sheet's content.
    pub data: Option<SheetModel>,
}

/// The value of an optional text.
pub open spec fn opt_text(t: Option<String>) -> Option<Seq<char>> {
    match t {
        Some(s) => Some(s@),
        None => None,
    }
}

/// The value of a node.
pub open spec fn model_of(item: TreeItem) -> NodeModel
    decreases item, 1int,
{
    NodeModel {
        item_type: item.item_type,
        display_name: item.display_name@,
        is_open: item.is_open,
        fullpath: item.fullpath@,
        parent: opt_text(item.parent),
        link_name: opt_text(item.link_name),
        children: models_of(item.children@),
        data: match item.data {
            Some(d) => Some(SheetModel { gable_type: d.gable_type, file_name: d.file_name@, content: d.content }),
            None => None,
        },
    }
}

/// The values of some nodes.
pub open spec fn models_of(s: Seq<TreeItem>) -> Seq<NodeModel>
    decreases s, 0int,
{
    if s.len() == 0 {
        Seq::empty()
    } else {
        seq![model_of(s[0])] + models_of(s.drop_first())
    }
}

/// The values of some nodes, one by one.
pub proof fn lemma_models_of(s: Seq<TreeItem>)
    ensures
        models_of(s) == s.map_values(|x: TreeItem| model_of(x)),
    decreases s.len(),
{
    if s.len() > 0 {
        lemma_models_of(s.drop_first());
        assert(models_of(s) =~= s.map_values(|x: TreeItem| model_of(x)));
    } else {
        assert(models_of(s) =~= s.map_values(|x: TreeItem| model_of(x)));
    }
}

/// Node value `a` is listed no later than node value `b`.
pub open spec fn model_no_later(a: NodeModel, b: NodeModel) -> bool {
    let fa = a.item_type == EItemType::Folder;
    let fb = b.item_type == EItemType::Folder;
    if fa != fb {
        fa
    } else {
        text_le(a.display_name, b.display_name)
    }
}

/// Where `x` goes among the node values `s`.
pub open spec fn model_insert_position(s: Seq<NodeModel>, x: NodeModel) -> nat
    decreases s.len(),
{
    if s.len() == 0 {
        0
    } else if model_no_later(s[0], x) {
        1 + model_insert_position(s.drop_first(), x)
    } else {
        0
    }
}

/// The stable sort of node values into listing order.
pub open spec fn sort_models(s: Seq<NodeModel>) -> Seq<NodeModel>
    decreases s.len(),
{
    if s.len() == 0 {
        s
    } else {
        let t = sort_models(s.drop_last());
        t.insert(model_insert_position(t, s.last()) as int, s.last())
    }
}

proof fn lemma_insert_position_models(s: Seq<TreeItem>, x: TreeItem)
    ensures
        insert_position(s, x) == model_insert_position(s.map_values(|y: TreeItem| model_of(y)), model_of(x)),
    decreases s.len(),
{
    if s.len() > 0 {
        lemma_insert_position_models(s.drop_first(), x);
        assert(s.drop_first().map_values(|y: TreeItem| model_of(y)) =~= s.map_values(|y: TreeItem| model_of(y)).drop_first());
    }
}

/// Sorting nodes and taking their values gives the sorted values.
pub proof fn lemma_sort_models(s: Seq<TreeItem>)
    ensures
        sort_listed(s).map_values(|y: TreeItem| model_of(y)) == sort_models(s.map_values(|y: TreeItem| model_of(y))),
    decreases s.len(),
{
    let f = |y: TreeItem| model_of(y);
    if s.len() > 0 {
        lemma_sort_models(s.drop_last());
        let t = sort_listed(s.drop_last());
        lemma_insert_position_models(t, s.last());
        lemma_insert_position(t, s.last());
        assert(s.drop_last().map_values(f) =~= s.map_values(f).drop_last());
        assert(t.insert(insert_position(t, s.last()) as int, s.last()).map_values(f)
            =~= t.map_values(f).insert(insert_position(t, s.last()) as int, model_of(s.last())));
    } else {
        assert(sort_listed(s).map_values(f) =~= s.map_values(f));
    }
}

} // verus!
