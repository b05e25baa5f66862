//! Building the workspace tree from a listing of its folders.
//!
//! In each folder, every sub-folder (but the workspace's own `__Data` and
//! `__Temp`) becomes a folder node, and the sheet files (`W@S.gable`) are
//! grouped by workbook name `W` into a workbook node with one sheet node per
//! named sheet. Sheets are listed by name; folders come first, then
//! workbooks, each group by name.
use crate::common::text::{chars_of, string_of};
use crate::common::utils::{
    determine_sheet_type, gable_name_parts, is_ignored_dir, is_ignored_dir_name, join_path, joined,
    parse_gable_filename, sheet_type_at,
};
use crate::common::text::text_equal;
use crate::gui::datas::eitem_type::EItemType;
use crate::gui::datas::gable_data::GableData;
use crate::gui::datas::tree_data::TreeData;
use crate::gui::datas::tree_item::{
    lemma_models_of, lemma_sort_models, model_of, models_of, sort_models, sort_tree_items,
    NodeModel, SheetModel, TreeItem,
};
use vstd::prelude::*;

verus! {

/// One entry of a folder listing, as read from disk.
pub struct DiskEntry {
    /// The file or folder name.
    pub name: String,
    /// Its full path.
    pub path: String,
    /// Whether it is a folder.
    pub is_dir: bool,
    /// For a folder, its own entries.
    pub entries: Vec<DiskEntry>,
    /// For a sheet file, the content read from it, when it could be read.
    pub content: Option<GableData>,
}

/// The workbook name and the sheet name (empty when the file names none)
/// of an entry that is a sheet file.
pub open spec fn gable_file(e: DiskEntry) -> Option<(Seq<char>, Seq<char>)> {
    if e.is_dir {
        None
    } else {
        match gable_name_parts(e.name@) {
            Some((w, s)) => Some((
                w,
                match s {
                    Some(x) => x,
                    None => Seq::empty(),
                },
            )),
            None => None,
        }
    }
}

/// The workbook names of the sheet files among `es`, each once, in the
/// order they first appear.
pub open spec fn workbook_order(es: Seq<DiskEntry>) -> Seq<Seq<char>>
    decreases es.len(),
{
    if es.len() == 0 {
        Seq::empty()
    } else {
        let r = workbook_order(es.drop_last());
        match gable_file(es.last()) {
            Some((w, _)) => if r.contains(w) {
                r
            } else {
                r.push(w)
            },
            None => r,
        }
    }
}

/// The sheet files among `es` of the workbook `w`, in listing order.
pub open spec fn files_of_workbook(es: Seq<DiskEntry>, w: Seq<char>) -> Seq<DiskEntry>
    decreases es.len(),
{
    if es.len() == 0 {
        Seq::empty()
    } else {
        let r = files_of_workbook(es.drop_last(), w);
        if gable_file(es.last()) matches Some((x, _)) && x == w {
            r.push(es.last())
        } else {
            r
        }
    }
}

/// The sheet nodes of the workbook `w` at `excel_path` made from its files
/// `files` in the workspace `ws`, in the files' order: one per file that
/// names a sheet, holding the content read, as a table of the kind its
/// place decides.
pub open spec fn sheet_models(ws: Seq<char>, w: Seq<char>, excel_path: Seq<char>, files: Seq<DiskEntry>) -> Seq<NodeModel>
    decreases files.len(),
{
    if files.len() == 0 {
        Seq::empty()
    } else {
        let rest = sheet_models(ws, w, excel_path, files.drop_last());
        let e = files.last();
        let s = (gable_file(e)->0).1;
        if s.len() > 0 {
            rest.push(NodeModel {
                item_type: EItemType::Sheet,
                display_name: s,
                is_open: false,
                fullpath: e.path@,
                parent: Some(excel_path),
                link_name: Some(w + seq!['@'] + s),
                children: Seq::empty(),
                data: match e.content {
                    Some(c) => Some(SheetModel { gable_type: sheet_type_at(ws, e.path@), file_name: s, content: c }),
                    None => None,
                },
            })
        } else {
            rest
        }
    }
}

/// The workbook node of `w` in the folder `dir` made from its files, with
/// its sheets listed by name; none for a workbook stored as a single file
/// that names no sheet.
pub open spec fn workbook_model(dir: Seq<char>, ws: Seq<char>, w: Seq<char>, files: Seq<DiskEntry>) -> Option<NodeModel> {
    if files.len() == 1 && (gable_file(files[0])->0).1.len() == 0 {
        None
    } else {
        let p = joined(dir, w);
        Some(NodeModel {
            item_type: EItemType::Excel,
            display_name: w,
            is_open: false,
            fullpath: p,
            parent: Some(dir),
            link_name: Some(w),
            children: sort_models(sheet_models(ws, w, p, files)),
            data: None,
        })
    }
}

/// The workbook nodes of the folder `dir` with the listing `es`, for the
/// workbook names `names` in turn.
pub open spec fn workbook_models(dir: Seq<char>, ws: Seq<char>, es: Seq<DiskEntry>, names: Seq<Seq<char>>) -> Seq<NodeModel>
    decreases names.len(),
{
    if names.len() == 0 {
        Seq::empty()
    } else {
        let rest = workbook_models(dir, ws, es, names.drop_last());
        match workbook_model(dir, ws, names.last(), files_of_workbook(es, names.last())) {
            Some(m) => rest.push(m),
            None => rest,
        }
    }
}

/// The folder nodes of the folder `dir` with the listing `es`, in listing
/// order.
pub open spec fn folder_models(dir: Seq<char>, ws: Seq<char>, es: Seq<DiskEntry>) -> Seq<NodeModel>
    decreases es, 0int,
{
    if es.len() == 0 {
        Seq::empty()
    } else {
        let rest = folder_models(dir, ws, es.drop_last());
        let e = es.last();
        if e.is_dir && !is_ignored_dir(e.name@) {
            rest.push(NodeModel {
                item_type: EItemType::Folder,
                display_name: e.name@,
                is_open: false,
                fullpath: e.path@,
                parent: Some(dir),
                link_name: None,
                children: listing_model(e.path@, ws, e.entries@),
                data: None,
            })
        } else {
            rest
        }
    }
}

/// The nodes of the folder `dir` of the workspace `ws` with the listing
/// `es`: its folder nodes and workbook nodes, in listing order.
pub open spec fn listing_model(dir: Seq<char>, ws: Seq<char>, es: Seq<DiskEntry>) -> Seq<NodeModel>
    decreases es, 1int,
{
    sort_models(folder_models(dir, ws, es) + workbook_models(dir, ws, es, workbook_order(es)))
}

proof fn lemma_order_files(es: Seq<DiskEntry>, w: Seq<char>)
    requires
        !workbook_order(es).contains(w),
    ensures
        files_of_workbook(es, w) == Seq::<DiskEntry>::empty(),
    decreases es.len(),
{
    if es.len() > 0 {
        let r = workbook_order(es.drop_last());
        if r.contains(w) {
            assert(workbook_order(es).contains(w)) by {
                let i = choose|i: int| 0 <= i < r.len() && r[i] == w;
                match gable_file(es.last()) {
                    Some((x, _)) => if !r.contains(x) {
                        assert(r.push(x)[i] == w);
                    },
                    None => {},
                }
            }
        }
        lemma_order_files(es.drop_last(), w);
        match gable_file(es.last()) {
            Some((x, _)) => if x == w {
                assert(workbook_order(es).contains(w)) by {
                    if !r.contains(x) {
                        assert(r.push(x)[r.len() as int] == w);
                    }
                }
            },
            None => {},
        }
    }
}

proof fn lemma_order_distinct(es: Seq<DiskEntry>)
    ensures
        workbook_order(es).no_duplicates(),
    decreases es.len(),
{
    if es.len() > 0 {
        lemma_order_distinct(es.drop_last());
        let r = workbook_order(es.drop_last());
        match gable_file(es.last()) {
            Some((x, _)) => if !r.contains(x) {
                assert forall|i: int, j: int| 0 <= i < j < r.push(x).len() implies r.push(x)[i] != r.push(x)[j] by {
                    if j == r.len() {
                        assert(r[i] != x);
                    }
                }
            },
            None => {},
        }
    }
}

proof fn lemma_files_are_gable(es: Seq<DiskEntry>, w: Seq<char>)
    ensures
        forall|i: int| 0 <= i < files_of_workbook(es, w).len()
            ==> (gable_file(#[trigger] files_of_workbook(es, w)[i]) matches Some((x, _)) && x == w),
    decreases es.len(),
{
    if es.len() > 0 {
        lemma_files_are_gable(es.drop_last(), w);
    }
}

/// The sheet name (empty when it names none) of an entry that is a sheet
/// file.
fn sheet_name_of(e: &DiskEntry) -> (r: String)
    requires
        gable_file(*e) is Some,
    ensures
        r@ == (gable_file(*e)->0).1,
{
    match parse_gable_filename(e.name.as_str()) {
        Some((_, Some(s))) => s,
        _ => {
            let r = String::new();
            assert(r@ =~= Seq::<char>::empty());
            r
        },
    }
}

/// The link name `w@s` of a sheet.
fn sheet_link(w: &str, s: &str) -> (r: String)
    ensures
        r@ == w@ + seq!['@'] + s@,
{
    let mut v = chars_of(w);
    v.push('@');
    let t = chars_of(s);
    let ghost base = v@;
    let mut i: usize = 0;
    while i < t.len()
        invariant
            i <= t@.len(),
            v@ == base + t@.take(i as int),
        decreases t.len() - i,
    {
        v.push(t[i]);
        i = i + 1;
        assert(v@ =~= base + t@.take(i as int));
    }
    assert(t@.take(i as int) =~= t@);
    string_of(v.as_slice())
}

/// The sheet nodes of the workbook `w` at `excel_path` made from its files.
fn build_sheets(workspace: &str, w: &str, excel_path: &str, files: Vec<DiskEntry>) -> (r: Vec<TreeItem>)
    requires
        forall|i: int| 0 <= i < files@.len() ==> gable_file(#[trigger] files@[i]) is Some,
    ensures
        r@.map_values(|y: TreeItem| model_of(y)) == sheet_models(workspace@, w@, excel_path@, files@),
{
    let ghost fs = files@;
    let n: usize = files.len();
    let mut rest = files;
    let mut out: Vec<TreeItem> = Vec::new();
    let mut k: usize = 0;
    assert(fs.skip(0) =~= fs);
    assert(fs.take(0) =~= Seq::<DiskEntry>::empty());
    while rest.len() > 0
        invariant
            n == fs.len(),
            k <= n,
            rest@ == fs.skip(k as int),
            forall|i: int| 0 <= i < fs.len() ==> gable_file(#[trigger] fs[i]) is Some,
            out@.map_values(|y: TreeItem| model_of(y)) == sheet_models(workspace@, w@, excel_path@, fs.take(k as int)),
        decreases rest.len(),
    {
        assert(k < n);
        assert(rest@[0] == fs[k as int]);
        let e = rest.remove(0);
        let ghost ev = e;
        assert(fs.take(k + 1).drop_last() =~= fs.take(k as int));
        assert(fs.take(k + 1).last() == ev);
        assert(gable_file(fs[k as int]) is Some);
        let s = sheet_name_of(&e);
        if !s.as_str().is_empty() {
            let DiskEntry { name: _, path, is_dir: _, entries: _, content } = e;
            let data: Option<TreeData> = match content {
                Some(c) => Some(TreeData { gable_type: determine_sheet_type(workspace, path.as_str()), file_name: s.clone(), content: c }),
                None => None,
            };
            let item = TreeItem {
                item_type: EItemType::Sheet,
                display_name: s.clone(),
                is_open: false,
                fullpath: path,
                parent: Some(excel_path.to_owned()),
                link_name: Some(sheet_link(w, s.as_str())),
                children: Vec::new(),
                data,
            };
            let ghost before = out@;
            out.push(item);
            proof {
                lemma_models_of(item.children@);
                assert(item.children@ =~= Seq::<TreeItem>::empty());
                assert(out@.map_values(|y: TreeItem| model_of(y)) =~= before.map_values(|y: TreeItem| model_of(y)).push(model_of(item)));
            }
        }
        k = k + 1;
        assert(rest@ =~= fs.skip(k as int));
    }
    assert(fs.take(k as int) =~= fs);
    out
}

/// Where the workbook `w` stands among `names`.
fn position_of_name(names: &Vec<String>, w: &str) -> (r: Option<usize>)
    ensures
        match r {
            Some(j) => j < names@.len() && names@[j as int]@ == w@,
            None => forall|j: int| 0 <= j < names@.len() ==> (#[trigger] names@[j])@ != w@,
        },
{
    let mut j: usize = 0;
    while j < names.len()
        invariant
            j <= names@.len(),
            forall|i: int| 0 <= i < j ==> (#[trigger] names@[i])@ != w@,
        decreases names.len() - j,
    {
        if text_equal(names[j].as_str(), w) {
            return Some(j);
        }
        j = j + 1;
    }
    None
}

/// The nodes of the folder `dir` in the workspace `workspace`, built from
/// its listing `entries` (in which each sub-folder carries its own listing
/// and each sheet file the content read from it): folders and workbooks,
/// in listing order (see `listing_model`).
pub fn build_tree_from_path(dir: &str, workspace: &str, entries: Vec<DiskEntry>) -> (r: Vec<TreeItem>)
    ensures
        models_of(r@) == listing_model(dir@, workspace@, entries@),
    decreases entries@,
{
    let ghost es = entries@;
    let n: usize = entries.len();
    let mut rest = entries;
    let mut folders: Vec<TreeItem> = Vec::new();
    let mut names: Vec<String> = Vec::new();
    let mut groups: Vec<Vec<DiskEntry>> = Vec::new();
    let mut k: usize = 0;
    assert(es.skip(0) =~= es);
    assert(es.take(0) =~= Seq::<DiskEntry>::empty());
    while rest.len() > 0
        invariant
            n == es.len(),
            es == entries@,
            k <= n,
            rest@ == es.skip(k as int),
            folders@.map_values(|y: TreeItem| model_of(y)) == folder_models(dir@, workspace@, es.take(k as int)),
            names@.len() == groups@.len(),
            names@.map_values(|t: String| t@) == workbook_order(es.take(k as int)),
            forall|j: int| 0 <= j < groups@.len() ==> (#[trigger] groups@[j])@ == files_of_workbook(es.take(k as int), names@[j]@),
        decreases rest.len(),
    {
        assert(k < n);
        assert(rest@[0] == es[k as int]);
        let e = rest.remove(0);
        let ghost ev = e;
        let ghost prefix = es.take(k as int);
        assert(es.take(k + 1).drop_last() =~= prefix);
        assert(es.take(k + 1).last() == ev);
        let ghost order_before = names@.map_values(|t: String| t@);
        if e.is_dir {
            assert(gable_file(ev) is None);
            assert forall|j: int| 0 <= j < groups@.len() implies (#[trigger] groups@[j])@ == files_of_workbook(es.take(k + 1), names@[j]@) by {}
            if !is_ignored_dir_name(e.name.as_str()) {
                let DiskEntry { name, path, is_dir: _, entries: sub, content: _ } = e;
                assert(decreases_to!(es => ev.entries@)) by {
                    assert(decreases_to!(es => es[k as int]));
                }
                let children = build_tree_from_path(path.as_str(), workspace, sub);
                let item = TreeItem {
                    item_type: EItemType::Folder,
                    display_name: name,
                    is_open: false,
                    fullpath: path,
                    parent: Some(dir.to_owned()),
                    link_name: None,
                    children,
                    data: None,
                };
                let ghost before = folders@;
                folders.push(item);
                assert(folders@.map_values(|y: TreeItem| model_of(y)) =~= before.map_values(|y: TreeItem| model_of(y)).push(model_of(item)));
            }
        } else {
            match parse_gable_filename(e.name.as_str()) {
                Some((w, _)) => {
                    assert(gable_file(ev) matches Some((x, _)) && x == w@);
                    match position_of_name(&names, w.as_str()) {
                        Some(j) => {
                            assert(order_before[j as int] == w@);
                            assert(order_before.contains(w@));
                            let ghost groups_before = groups@;
                            proof {
                                lemma_order_distinct(prefix);
                            }
                            groups[j].push(e);
                            assert forall|i: int| 0 <= i < groups@.len() implies (#[trigger] groups@[i])@ == files_of_workbook(es.take(k + 1), names@[i]@) by {
                                if i != j {
                                    assert(groups@[i] == groups_before[i]);
                                    assert(order_before[i] != order_before[j as int]);
                                    assert(names@[i]@ == order_before[i]);
                                }
                            }
                        },
                        None => {
                            assert(!order_before.contains(w@)) by {
                                if order_before.contains(w@) {
                                    let i = choose|i: int| 0 <= i < order_before.len() && order_before[i] == w@;
                                    assert(names@[i]@ == w@);
                                }
                            }
                            proof {
                                lemma_order_files(prefix, w@);
                            }
                            let ghost groups_before = groups@;
                            let ghost names_before = names@;
                            let mut first: Vec<DiskEntry> = Vec::new();
                            first.push(e);
                            groups.push(first);
                            names.push(w);
                            assert(names@.map_values(|t: String| t@) =~= order_before.push(names_before.push(w)[names_before.len() as int]@));
                            assert forall|i: int| 0 <= i < groups@.len() implies (#[trigger] groups@[i])@ == files_of_workbook(es.take(k + 1), names@[i]@) by {
                                if i < groups_before.len() {
                                    assert(groups@[i] == groups_before[i]);
                                    assert(names@[i] == names_before[i]);
                                } else {
                                    assert(files_of_workbook(prefix, w@) =~= Seq::<DiskEntry>::empty());
                                    assert(groups@[i]@ =~= Seq::<DiskEntry>::empty().push(ev));
                                }
                            }
                        },
                    }
                },
                None => {
                    assert(gable_file(ev) is None);
                    assert forall|j: int| 0 <= j < groups@.len() implies (#[trigger] groups@[j])@ == files_of_workbook(es.take(k + 1), names@[j]@) by {}
                },
            }
        }
        k = k + 1;
        assert(rest@ =~= es.skip(k as int));
    }
    assert(es.take(k as int) =~= es);
    let ghost order = workbook_order(es);
    let ghost all_names = names@;
    let ghost all_groups = groups@;
    let mut books: Vec<TreeItem> = Vec::new();
    let m: usize = names.len();
    let mut j: usize = 0;
    assert(all_names.skip(0) =~= all_names);
    assert(all_groups.skip(0) =~= all_groups);
    assert(order.take(0) =~= Seq::<Seq<char>>::empty());
    while names.len() > 0
        invariant
            m == all_names.len(),
            all_names.len() == all_groups.len(),
            all_names.map_values(|t: String| t@) == order,
            forall|i: int| 0 <= i < all_groups.len() ==> (#[trigger] all_groups[i])@ == files_of_workbook(es, all_names[i]@),
            j <= m,
            names@ == all_names.skip(j as int),
            groups@ == all_groups.skip(j as int),
            books@.map_values(|y: TreeItem| model_of(y)) == workbook_models(dir@, workspace@, es, order.take(j as int)),
        decreases names.len(),
    {
        assert(j < m);
        assert(names@[0] == all_names[j as int]);
        assert(groups@[0] == all_groups[j as int]);
        let w = names.remove(0);
        let files = groups.remove(0);
        let ghost fs = files@;
        assert(order.take(j + 1).drop_last() =~= order.take(j as int));
        assert(order.take(j + 1).last() == w@);
        assert(fs == files_of_workbook(es, w@));
        proof {
            lemma_files_are_gable(es, w@);
        }
        let single = files.len() == 1 && sheet_name_of(&files[0]).as_str().is_empty();
        if !single {
            let excel_path = join_path(dir, w.as_str());
            let mut sheets = build_sheets(workspace, w.as_str(), excel_path.as_str(), files);
            let ghost unsorted = sheets@;
            sort_tree_items(&mut sheets);
            proof {
                lemma_sort_models(unsorted);
                lemma_models_of(sheets@);
            }
            let item = TreeItem {
                item_type: EItemType::Excel,
                display_name: w.clone(),
                is_open: false,
                fullpath: excel_path,
                parent: Some(dir.to_owned()),
                link_name: Some(w),
                children: sheets,
                data: None,
            };
            let ghost before = books@;
            books.push(item);
            assert(books@.map_values(|y: TreeItem| model_of(y)) =~= before.map_values(|y: TreeItem| model_of(y)).push(model_of(item)));
        }
        j = j + 1;
        assert(names@ =~= all_names.skip(j as int));
        assert(groups@ =~= all_groups.skip(j as int));
    }
    assert(order.take(j as int) =~= order) by {
        assert(order.len() == m);
    }
    let ghost fm = folders@;
    let ghost bm = books@;
    folders.append(&mut books);
    let ghost joined_items = folders@;
    assert(joined_items =~= fm + bm);
    sort_tree_items(&mut folders);
    proof {
        lemma_sort_models(joined_items);
        assert(joined_items.map_values(|y: TreeItem| model_of(y)) =~= fm.map_values(|y: TreeItem| model_of(y)) + bm.map_values(|y: TreeItem| model_of(y)));
        lemma_models_of(folders@);
    }
    folders
}

} // verus!
