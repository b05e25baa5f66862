//! The state of the file-tree explorer: selection and renaming.
use crate::common::text::{chars_of, decimal, decimal_text, is_digit, lemma_decimal_digits, lemma_decimal_injective, lemma_decimal_len, string_of, text_equal};
use crate::common::utils::{file_name_of, file_name_part, gable_name_parts, join_path, joined, parent_of, parent_part, parse_gable_filename};
use crate::gui::datas::action_command::{ActionCommand, ECommandType};
use crate::gui::datas::eitem_type::EItemType;
use std::collections::VecDeque;
use crate::gui::datas::gable_data::GableData;
use crate::gui::datas::gables::{add_new_item, find_in, find_item_by_path, new_item_added};
use crate::gui::datas::tree_item::TreeItem;
use vstd::prelude::*;
use vstd::relations::injective_on;
use vstd::set_lib::{lemma_int_range, lemma_len_subset, lemma_map_size, set_int_range};

verus! {


/// The `k`-th name tried for a new file or folder: `first` for the first
/// try, then `prefix`, the number `k` in decimal, and `suffix`.
pub open spec fn numbered_name(first: Seq<char>, prefix: Seq<char>, suffix: Seq<char>, k: nat) -> Seq<char> {
    if k == 0 {
        first
    } else {
        prefix + decimal(k) + suffix
    }
}

/// No numbered try repeats the first one.
pub open spec fn first_try_distinct(first: Seq<char>, prefix: Seq<char>, suffix: Seq<char>) -> bool {
    forall|k: nat| k >= 1 ==> #[trigger] numbered_name(first, prefix, suffix, k) != first
}

/// `name` is the first try that none of the names `taken` is.
pub open spec fn first_free_name(name: Seq<char>, first: Seq<char>, prefix: Seq<char>, suffix: Seq<char>, taken: Seq<Seq<char>>) -> bool {
    exists|k: nat| {
        &&& name == #[trigger] numbered_name(first, prefix, suffix, k)
        &&& !taken.contains(name)
        &&& forall|j: nat| j < k ==> taken.contains(#[trigger] numbered_name(first, prefix, suffix, j))
    }
}

proof fn lemma_numbered_injective(first: Seq<char>, prefix: Seq<char>, suffix: Seq<char>, a: nat, b: nat)
    requires
        first_try_distinct(first, prefix, suffix),
        numbered_name(first, prefix, suffix, a) == numbered_name(first, prefix, suffix, b),
    ensures
        a == b,
{
    if a >= 1 && b >= 1 {
        let x = prefix + decimal(a) + suffix;
        let y = prefix + decimal(b) + suffix;
        assert(x == numbered_name(first, prefix, suffix, a));
        assert(y == numbered_name(first, prefix, suffix, b));
        assert(x.len() == y.len());
        assert(decimal(a).len() == decimal(b).len());
        assert(x.subrange(prefix.len() as int, (prefix.len() + decimal(a).len()) as int) =~= decimal(a));
        assert(y.subrange(prefix.len() as int, (prefix.len() + decimal(b).len()) as int) =~= decimal(b));
        lemma_decimal_injective(a, b);
    } else if a >= 1 {
        assert(numbered_name(first, prefix, suffix, a) != first);
    } else if b >= 1 {
        assert(numbered_name(first, prefix, suffix, b) != first);
    }
}

/// Among the first `taken.len() + 1` tries, one is free: they are all
/// different, and there are more of them than taken names.
proof fn lemma_a_try_is_free(first: Seq<char>, prefix: Seq<char>, suffix: Seq<char>, taken: Seq<Seq<char>>)
    requires
        first_try_distinct(first, prefix, suffix),
    ensures
        exists|k: nat| k <= taken.len() && !taken.contains(#[trigger] numbered_name(first, prefix, suffix, k)),
{
    if forall|k: nat| k <= taken.len() ==> taken.contains(#[trigger] numbered_name(first, prefix, suffix, k)) {
        let n = taken.len() as int;
        let x = set_int_range(0, n + 1);
        lemma_int_range(0, n + 1);
        let f = |i: int| numbered_name(first, prefix, suffix, i as nat);
        assert(injective_on(f, x)) by {
            assert forall|i: int, j: int| x.contains(i) && x.contains(j) && #[trigger] f(i) == #[trigger] f(j) implies i == j by {
                lemma_numbered_injective(first, prefix, suffix, i as nat, j as nat);
            }
        }
        let y = x.map(f);
        lemma_map_size(x, y, f);
        assert(y.subset_of(taken.to_set())) by {
            assert forall|v: Seq<char>| #[trigger] y.contains(v) implies taken.to_set().contains(v) by {
                let i = choose|i: int| x.contains(i) && f(i) == v;
                assert(taken.contains(numbered_name(first, prefix, suffix, i as nat)));
            }
        }
        taken.lemma_cardinality_of_set();
        vstd::seq_lib::seq_to_set_is_finite(taken);
        lemma_len_subset(y, taken.to_set());
        assert(false);
    }
}

/// Whether one of the names `taken` is `name`.
fn is_taken(taken: &[String], name: &str) -> (r: bool)
    ensures
        r == taken@.map_values(|t: String| t@).contains(name@),
{
    let ghost names = taken@.map_values(|t: String| t@);
    let mut i: usize = 0;
    while i < taken.len()
        invariant
            names == taken@.map_values(|t: String| t@),
            i <= taken@.len(),
            forall|k: int| 0 <= k < i ==> names[k] != name@,
        decreases taken.len() - i,
    {
        if text_equal(taken[i].as_str(), name) {
            assert(names[i as int] == name@);
            return true;
        }
        i = i + 1;
    }
    false
}

/// The `k`-th try for a new name.
fn numbered(first: &str, prefix: &str, suffix: &str, k: u64) -> (r: String)
    ensures
        r@ == numbered_name(first@, prefix@, suffix@, k as nat),
{
    if k == 0 {
        first.to_owned()
    } else {
        let mut v = chars_of(prefix);
        let d = chars_of(decimal_text(k).as_str());
        let w = chars_of(suffix);
        let ghost base = v@;
        let mut i: usize = 0;
        while i < d.len()
            invariant
                i <= d@.len(),
                v@ == base + d@.take(i as int),
            decreases d.len() - i,
        {
            v.push(d[i]);
            i = i + 1;
            assert(v@ =~= base + d@.take(i as int));
        }
        assert(d@.take(i as int) =~= d@);
        let ghost mid = v@;
        let mut j: usize = 0;
        while j < w.len()
            invariant
                j <= w@.len(),
                v@ == mid + w@.take(j as int),
            decreases w.len() - j,
        {
            v.push(w[j]);
            j = j + 1;
            assert(v@ =~= mid + w@.take(j as int));
        }
        assert(w@.take(j as int) =~= w@);
        string_of(v.as_slice())
    }
}

/// The first try for a new name that none of the names `taken` is: `first`,
/// then `prefix` with 1, 2, ... and `suffix`.
pub fn free_name(first: &str, prefix: &str, suffix: &str, taken: &[String]) -> (r: String)
    requires
        first_try_distinct(first@, prefix@, suffix@),
    ensures
        first_free_name(r@, first@, prefix@, suffix@, taken@.map_values(|t: String| t@)),
{
    let ghost names = taken@.map_values(|t: String| t@);
    proof {
        lemma_a_try_is_free(first@, prefix@, suffix@, names);
    }
    let n: usize = taken.len();
    let mut k: usize = 0;
    loop
        invariant
            n == names.len(),
            names == taken@.map_values(|t: String| t@),
            first_try_distinct(first@, prefix@, suffix@),
            k <= n,
            forall|j: nat| j < k ==> names.contains(#[trigger] numbered_name(first@, prefix@, suffix@, j)),
            exists|k: nat| k <= names.len() && !names.contains(#[trigger] numbered_name(first@, prefix@, suffix@, k)),
        decreases n - k,
    {
        let name = numbered(first, prefix, suffix, k as u64);
        if !is_taken(taken, name.as_str()) {
            assert(first_free_name(name@, first@, prefix@, suffix@, names)) by {
                assert(name@ == numbered_name(first@, prefix@, suffix@, k as nat));
            }
            return name;
        }
        if k == n {
            proof {
                let w = choose|w: nat| w <= names.len() && !names.contains(#[trigger] numbered_name(first@, prefix@, suffix@, w));
                if w < k {
                    assert(names.contains(numbered_name(first@, prefix@, suffix@, w)));
                }
            }
            assert(false);
        }
        k = k + 1;
    }
}

/// The folder in which a new workbook or folder is created from the node
/// `full_path`: that node's path when it is a folder, the workspace when no
/// node has that path, and `None` when the node is not a folder.
pub open spec fn creation_folder(tree: Seq<TreeItem>, full_path: Seq<char>, workspace: Seq<char>) -> Option<Seq<char>> {
    match find_in(tree, full_path) {
        Some(item) => if item.item_type == EItemType::Folder {
            Some(item.fullpath@)
        } else {
            None
        },
        None => Some(workspace),
    }
}

/// A file or folder name is valid: not empty, and without any of the
/// characters `\ / : * ? " < > |`.
pub open spec fn valid_file_name(name: Seq<char>) -> bool {
    name.len() > 0 && forall|i: int| 0 <= i < name.len() ==> !is_forbidden_char(#[trigger] name[i])
}

/// `c` may not stand in a file name.
pub open spec fn is_forbidden_char(c: char) -> bool {
    c == '\\' || c == '/' || c == ':' || c == '*' || c == '?' || c == '"' || c == '<' || c == '>' || c == '|'
}

/// A letter or digit of ASCII, a space, `_`, `-` or `.`: characters that
/// any file system accepts in a name.
pub open spec fn is_plain_name_char(c: char) -> bool {
    ('a' <= c && c <= 'z') || ('A' <= c && c <= 'Z') || ('0' <= c && c <= '9')
        || c == ' ' || c == '_' || c == '-' || c == '.'
}

/// A name is refused only for being empty or for holding one of
/// `\ / : * ? " < > |`: a non-empty name made of letters, digits, spaces,
/// `_`, `-` and `.` is valid, and so is any non-empty name without those
/// nine characters.
pub proof fn lemma_valid_file_names(name: Seq<char>)
    ensures
        name.len() > 0 && (forall|i: int| 0 <= i < name.len() ==> is_plain_name_char(#[trigger] name[i]))
            ==> valid_file_name(name),
        valid_file_name(name) == (name.len() > 0 && forall|i: int| 0 <= i < name.len() ==> {
            let c = #[trigger] name[i];
            c != '\\' && c != '/' && c != ':' && c != '*' && c != '?' && c != '"' && c != '<' && c != '>' && c != '|'
        }),
{
}

/// Whether `name` is a valid file or folder name.
pub fn is_valid_filename(name: &str) -> (r: bool)
    ensures
        r == valid_file_name(name@),
        r == (name@.len() > 0 && forall|i: int| 0 <= i < name@.len() ==> {
            let c = #[trigger] name@[i];
            c != '\\' && c != '/' && c != ':' && c != '*' && c != '?' && c != '"' && c != '<' && c != '>' && c != '|'
        }),
        name@.len() > 0 && (forall|i: int| 0 <= i < name@.len() ==> is_plain_name_char(#[trigger] name@[i])) ==> r,
{
    proof {
        lemma_valid_file_names(name@);
    }
    let v = chars_of(name);
    if v.len() == 0 {
        return false;
    }
    let mut i: usize = 0;
    while i < v.len()
        invariant
            v@ == name@,
            i <= v@.len(),
            forall|k: int| 0 <= k < i ==> !is_forbidden_char(#[trigger] v@[k]),
        decreases v.len() - i,
    {
        let c = v[i];
        if c == '\\' || c == '/' || c == ':' || c == '*' || c == '?' || c == '"' || c == '<' || c == '>' || c == '|' {
            return false;
        }
        i = i + 1;
    }
    true
}

/// The folder a node for a path is created in, when it is a folder node,
/// or the workspace when no node has that path.
pub fn creation_folder_of(tree: &[TreeItem], full_path: &str, workspace: &str) -> (r: Option<String>)
    ensures
        match r {
            Some(d) => creation_folder(tree@, full_path@, workspace@) == Some(d@),
            None => creation_folder(tree@, full_path@, workspace@) is None,
        },
{
    match find_item_by_path(tree, full_path) {
        Some(item) => if item.item_type == EItemType::Folder {
            Some(item.fullpath.clone())
        } else {
            None
        },
        None => Some(workspace.to_owned()),
    }
}

/// What a new node's name is edited from after a workbook was created at
/// `path`: its workbook name, or `Excel_New` when the file names none.
pub open spec fn created_workbook_name(path: Seq<char>) -> Seq<char> {
    match gable_name_parts(file_name_part(path)) {
        Some((w, _)) => w,
        None => "Excel_New"@,
    }
}


proof fn lemma_distinct_by_length(first: Seq<char>, prefix: Seq<char>, suffix: Seq<char>)
    requires
        first.len() <= prefix.len() + suffix.len(),
    ensures
        first_try_distinct(first, prefix, suffix),
{
    assert forall|k: nat| k >= 1 implies #[trigger] numbered_name(first, prefix, suffix, k) != first by {
        lemma_decimal_len(k);
    }
}

proof fn lemma_distinct_by_digit(first: Seq<char>, prefix: Seq<char>, suffix: Seq<char>)
    requires
        first == prefix + suffix,
        suffix.len() > 0,
        !is_digit(suffix[0]),
    ensures
        first_try_distinct(first, prefix, suffix),
{
    assert forall|k: nat| k >= 1 implies #[trigger] numbered_name(first, prefix, suffix, k) != first by {
        lemma_decimal_len(k);
        lemma_decimal_digits(k);
        let x = prefix + decimal(k) + suffix;
        assert(x[prefix.len() as int] == decimal(k)[0]);
        assert(is_digit(decimal(k)[0]));
        assert(first[prefix.len() as int] == suffix[0]);
    }
}

/// The view of some names.
pub open spec fn names_of(v: Seq<String>) -> Seq<Seq<char>> {
    v.map_values(|t: String| t@)
}

/// The folder holding the node of a workbook or sheet at `full_path`, the
/// folder a new sheet of it is created in.
pub open spec fn sheet_folder(tree: Seq<TreeItem>, full_path: Seq<char>) -> Option<(Seq<char>, Seq<char>)> {
    match find_in(tree, full_path) {
        Some(item) => if item.item_type == EItemType::Excel {
            match parent_part(full_path) {
                Some(dir) => Some((dir, item.display_name@)),
                None => None,
            }
        } else {
            None
        },
        None => None,
    }
}


/// `r` is the path, in the folder `dir`, of the first try for a new name
/// (`first`, then `prefix` + number + `suffix`) that none of `taken` is.
pub open spec fn created_at(r: Option<String>, dir: Seq<char>, first: Seq<char>, prefix: Seq<char>, suffix: Seq<char>, taken: Seq<Seq<char>>) -> bool {
    match r {
        Some(p) => exists|name: Seq<char>| first_free_name(name, first, prefix, suffix, taken) && p@ == #[trigger] joined(dir, name),
        None => false,
    }
}


/// Where renaming the folder at `path` to `new_name` moves it: the same
/// folder joined with the new name, when that differs from the path; none
/// when it does not, or when the path names no folder.
pub open spec fn folder_rename_target(path: Seq<char>, new_name: Seq<char>) -> Option<Seq<char>> {
    match parent_part(path) {
        Some(dir) => if joined(dir, new_name) != path {
            Some(joined(dir, new_name))
        } else {
            None
        },
        None => None,
    }
}

/// Where renaming the sheet stored at `path` to `new_name` moves its file:
/// `W@new_name.gable` beside it, keeping its workbook name `W`, when that
/// differs from the path; none when it does not, or when the file name
/// names no workbook.
pub open spec fn sheet_rename_target(path: Seq<char>, new_name: Seq<char>) -> Option<Seq<char>> {
    match (parent_part(path), gable_name_parts(file_name_part(path))) {
        (Some(dir), Some((w, _))) => {
            let target = joined(dir, w + seq!['@'] + new_name + ".gable"@);
            if target != path {
                Some(target)
            } else {
                None
            }
        },
        _ => None,
    }
}

/// The new file name of a stored sheet of a renamed workbook: `new@S.gable`
/// for a sheet `S`, `new.gable` for a file that names no sheet.
pub open spec fn renamed_gable_name(new_name: Seq<char>, sheet: Option<Seq<char>>) -> Seq<char> {
    match sheet {
        Some(s) => new_name + seq!['@'] + s + ".gable"@,
        None => new_name + ".gable"@,
    }
}

/// The files (name and path, in listing order) of the folder `dir` that
/// renaming the workbook `old` to `new_name` moves, each with its new path:
/// every sheet file of the workbook whose new path differs from its path.
pub open spec fn workbook_moves(dir: Seq<char>, old: Seq<char>, new_name: Seq<char>, entries: Seq<(String, String)>) -> Seq<(Seq<char>, Seq<char>)>
    decreases entries.len(),
{
    if entries.len() == 0 {
        Seq::empty()
    } else {
        let rest = workbook_moves(dir, old, new_name, entries.drop_last());
        let e = entries.last();
        match gable_name_parts(e.0@) {
            Some((w, sheet)) => {
                let target = joined(dir, renamed_gable_name(new_name, sheet));
                if w == old && target != e.1@ {
                    rest.push((e.1@, target))
                } else {
                    rest
                }
            },
            None => rest,
        }
    }
}

/// Appends the characters of `s`.
fn push_text(v: &mut Vec<char>, s: &str)
    ensures
        final(v)@ == old(v)@ + s@,
{
    let t = chars_of(s);
    let mut i: usize = 0;
    while i < t.len()
        invariant
            t@ == s@,
            i <= t@.len(),
            v@ == old(v)@ + t@.take(i as int),
        decreases t.len() - i,
    {
        v.push(t[i]);
        i = i + 1;
        assert(v@ =~= old(v)@ + t@.take(i as int));
    }
    assert(t@.take(i as int) =~= t@);
}

/// The file name `new@S.gable` or `new.gable`.
fn gable_file_name(new_name: &str, sheet: &Option<String>) -> (r: String)
    ensures
        r@ == renamed_gable_name(new_name@, match sheet { Some(s) => Some(s@), None => None }),
{
    let mut v: Vec<char> = Vec::new();
    push_text(&mut v, new_name);
    if let Some(s) = sheet {
        v.push('@');
        push_text(&mut v, s.as_str());
    }
    push_text(&mut v, ".gable");
    proof {
        reveal_strlit(".gable");
    }
    assert(v@ =~= renamed_gable_name(new_name@, match sheet { Some(s) => Some(s@), None => None }));
    string_of(v.as_slice())
}

/// Where renaming the folder node `item` to `new_name` moves the folder.
pub fn rename_folder_item(item: &TreeItem, new_name: &str) -> (r: Option<String>)
    ensures
        match r {
            Some(t) => folder_rename_target(item.fullpath@, new_name@) == Some(t@),
            None => folder_rename_target(item.fullpath@, new_name@) is None,
        },
{
    match parent_of(item.fullpath.as_str()) {
        Some(dir) => {
            let target = join_path(dir.as_str(), new_name);
            if text_equal(target.as_str(), item.fullpath.as_str()) {
                None
            } else {
                Some(target)
            }
        },
        None => None,
    }
}

/// Where renaming the sheet node `item` to `new_name` moves its file.
pub fn rename_sheet_item(item: &TreeItem, new_name: &str) -> (r: Option<String>)
    ensures
        match r {
            Some(t) => sheet_rename_target(item.fullpath@, new_name@) == Some(t@),
            None => sheet_rename_target(item.fullpath@, new_name@) is None,
        },
{
    let dir = match parent_of(item.fullpath.as_str()) {
        Some(d) => d,
        None => return None,
    };
    let file_name = file_name_of(item.fullpath.as_str());
    match parse_gable_filename(file_name.as_str()) {
        Some((w, _)) => {
            let new_file = gable_file_name(w.as_str(), &Some(new_name.to_owned()));
            assert(new_file@ =~= w@ + seq!['@'] + new_name@ + ".gable"@);
            let target = join_path(dir.as_str(), new_file.as_str());
            if text_equal(target.as_str(), item.fullpath.as_str()) {
                None
            } else {
                Some(target)
            }
        },
        None => None,
    }
}

/// The moves of renaming the workbook node `item` to `new_name`, given the
/// files of the folder holding it (`entries`: name and path, in listing
/// order): each sheet file of the workbook to move, with its new path
/// (see `workbook_moves`), and the workbook node's new path when any file
/// moves. Nothing moves when the node's path names no folder.
pub fn rename_excel_item(item: &TreeItem, new_name: &str, entries: &[(String, String)]) -> (r: (Vec<(String, String)>, Option<String>))
    ensures
        match parent_part(item.fullpath@) {
            Some(dir) => {
                let moves = workbook_moves(dir, item.display_name@, new_name@, entries@);
                &&& r.0@.map_values(|m: (String, String)| (m.0@, m.1@)) == moves
                &&& match r.1 {
                    Some(p) => moves.len() > 0 && p@ == joined(dir, new_name@),
                    None => moves.len() == 0,
                }
            },
            None => r.0@.len() == 0 && r.1 is None,
        },
{
    let dir = match parent_of(item.fullpath.as_str()) {
        Some(d) => d,
        None => return (Vec::new(), None),
    };
    let mut moves: Vec<(String, String)> = Vec::new();
    let mut i: usize = 0;
    while i < entries.len()
        invariant
            i <= entries@.len(),
            parent_part(item.fullpath@) == Some(dir@),
            moves@.map_values(|m: (String, String)| (m.0@, m.1@)) == workbook_moves(dir@, item.display_name@, new_name@, entries@.take(i as int)),
        decreases entries.len() - i,
    {
        assert(entries@.take(i + 1).drop_last() =~= entries@.take(i as int));
        assert(entries@.take(i + 1).last() == entries@[i as int]);
        if let Some((w, sheet)) = parse_gable_filename(entries[i].0.as_str()) {
            if text_equal(w.as_str(), item.display_name.as_str()) {
                let new_file = gable_file_name(new_name, &sheet);
                let target = join_path(dir.as_str(), new_file.as_str());
                if !text_equal(target.as_str(), entries[i].1.as_str()) {
                    let ghost before = moves@;
                    moves.push((entries[i].1.clone(), target));
                    assert(moves@.map_values(|m: (String, String)| (m.0@, m.1@))
                        =~= before.map_values(|m: (String, String)| (m.0@, m.1@)).push((entries@[i as int].1@, target@)));
                }
            }
        }
        i = i + 1;
    }
    assert(entries@.take(i as int) =~= entries@);
    if moves.len() > 0 {
        let p = join_path(dir.as_str(), new_name);
        (moves, Some(p))
    } else {
        (moves, None)
    }
}


/// An entry of a context menu of the tree.
#[derive(Debug, Clone, Copy, PartialEq, Eq, Structural)]
pub enum MenuEntry {
    /// Create a workbook (in a folder) or a sheet (in a workbook).
    NewFile,
    /// Create a folder.
    NewFolder,
    /// Import spreadsheet files into a folder.
    Import,
    /// Edit in the spreadsheet program.
    Edit,
    /// Export the data.
    Export,
    /// Generate the code.
    GenerateScript,
    /// Rename.
    Rename,
    /// Delete.
    Delete,
    /// Show in the system's file manager.
    ShowInExplorer,
}

/// The entries of the context menu of a node of kind `kind`, in order.
pub open spec fn menu_of(kind: EItemType) -> Seq<MenuEntry> {
    match kind {
        EItemType::Folder => seq![MenuEntry::NewFile, MenuEntry::NewFolder, MenuEntry::Import, MenuEntry::Delete, MenuEntry::ShowInExplorer],
        EItemType::Excel => seq![
            MenuEntry::NewFile,
            MenuEntry::Edit,
            MenuEntry::Export,
            MenuEntry::GenerateScript,
            MenuEntry::Rename,
            MenuEntry::Delete,
            MenuEntry::ShowInExplorer,
        ],
        EItemType::Sheet => seq![
            MenuEntry::Edit,
            MenuEntry::Export,
            MenuEntry::GenerateScript,
            MenuEntry::Rename,
            MenuEntry::Delete,
            MenuEntry::ShowInExplorer,
        ],
    }
}

/// The command that an entry of the menu of a node of kind `kind` queues.
pub open spec fn menu_command(kind: EItemType, entry: MenuEntry) -> Option<ECommandType> {
    match (kind, entry) {
        (EItemType::Folder, MenuEntry::NewFile) => Some(ECommandType::CreateExcel),
        (EItemType::Folder, MenuEntry::NewFolder) => Some(ECommandType::CreateFolder),
        (EItemType::Excel, MenuEntry::NewFile) => Some(ECommandType::CreateSheet),
        (EItemType::Folder, _) => if entry == MenuEntry::Delete { Some(ECommandType::Delete) } else { None },
        (_, MenuEntry::Edit) => Some(ECommandType::Edit),
        (_, MenuEntry::Export) => Some(ECommandType::ConvertItem),
        (_, MenuEntry::GenerateScript) => Some(ECommandType::GenerateItem),
        (_, MenuEntry::Rename) => Some(ECommandType::Editname),
        (_, MenuEntry::Delete) => Some(ECommandType::Delete),
        _ => None,
    }
}

/// What choosing a menu entry asks of the program besides queued commands.
#[derive(Debug)]
pub enum MenuEffect {
    /// A command was queued, or nothing is to be done.
    Done,
    /// Pick spreadsheet files to import into this folder.
    ImportInto(String),
    /// Show this path in the system's file manager.
    Reveal(String),
}

/// The label key of a menu entry, which the localization looks up.
pub open spec fn label_key(entry: MenuEntry) -> Seq<char> {
    match entry {
        MenuEntry::NewFile => "new_file"@,
        MenuEntry::NewFolder => "new_folder"@,
        MenuEntry::Import => "import"@,
        MenuEntry::Edit => "edit"@,
        MenuEntry::Export => "export"@,
        MenuEntry::GenerateScript => "generate_script"@,
        MenuEntry::Rename => "rename"@,
        MenuEntry::Delete => "delete"@,
        MenuEntry::ShowInExplorer => "show_in_resource_manager"@,
    }
}

/// The label key of a menu entry.
pub fn menu_label(entry: MenuEntry) -> (r: &'static str)
    ensures
        r@ == label_key(entry),
{
    match entry {
        MenuEntry::NewFile => "new_file",
        MenuEntry::NewFolder => "new_folder",
        MenuEntry::Import => "import",
        MenuEntry::Edit => "edit",
        MenuEntry::Export => "export",
        MenuEntry::GenerateScript => "generate_script",
        MenuEntry::Rename => "rename",
        MenuEntry::Delete => "delete",
        MenuEntry::ShowInExplorer => "show_in_resource_manager",
    }
}

/// The entries of the context menu of a node of kind `kind`, in order.
pub fn menu_entries(kind: EItemType) -> (r: Vec<MenuEntry>)
    ensures
        r@ == menu_of(kind),
{
    let v = match kind {
        EItemType::Folder => vec![MenuEntry::NewFile, MenuEntry::NewFolder, MenuEntry::Import, MenuEntry::Delete, MenuEntry::ShowInExplorer],
        EItemType::Excel => vec![
            MenuEntry::NewFile,
            MenuEntry::Edit,
            MenuEntry::Export,
            MenuEntry::GenerateScript,
            MenuEntry::Rename,
            MenuEntry::Delete,
            MenuEntry::ShowInExplorer,
        ],
        EItemType::Sheet => vec![
            MenuEntry::Edit,
            MenuEntry::Export,
            MenuEntry::GenerateScript,
            MenuEntry::Rename,
            MenuEntry::Delete,
            MenuEntry::ShowInExplorer,
        ],
    };
    assert(v@ =~= menu_of(kind));
    v
}

/// Does what choosing `entry` in the context menu of `item` asks: queues
/// the entry's command with the node's path, or asks to import into the
/// folder, or to show the node (a workbook by its folder); an entry that is
/// not in the node's menu does nothing.
pub fn show_context_menu(item: &TreeItem, entry: MenuEntry, queue: &mut VecDeque<ActionCommand>) -> (r: MenuEffect)
    ensures
        match menu_command(item.item_type, entry) {
            Some(c) => final(queue)@ == old(queue)@.push(ActionCommand { com_type: c, param1: Some(item.fullpath), param2: None })
                && r is Done,
            None => final(queue)@ == old(queue)@ && match r {
                MenuEffect::ImportInto(p) => item.item_type == EItemType::Folder && entry == MenuEntry::Import && p@ == item.fullpath@,
                MenuEffect::Reveal(p) => entry == MenuEntry::ShowInExplorer && if item.item_type == EItemType::Excel {
                    item.parent matches Some(q) && p@ == q@
                } else {
                    p@ == item.fullpath@
                },
                MenuEffect::Done => !(item.item_type == EItemType::Folder && entry == MenuEntry::Import)
                    && (entry == MenuEntry::ShowInExplorer ==> item.item_type == EItemType::Excel && item.parent is None),
            },
        },
{
    let command: Option<ECommandType> = match (item.item_type, entry) {
        (EItemType::Folder, MenuEntry::NewFile) => Some(ECommandType::CreateExcel),
        (EItemType::Folder, MenuEntry::NewFolder) => Some(ECommandType::CreateFolder),
        (EItemType::Excel, MenuEntry::NewFile) => Some(ECommandType::CreateSheet),
        (EItemType::Folder, MenuEntry::Delete) => Some(ECommandType::Delete),
        (EItemType::Folder, _) => None,
        (_, MenuEntry::Edit) => Some(ECommandType::Edit),
        (_, MenuEntry::Export) => Some(ECommandType::ConvertItem),
        (_, MenuEntry::GenerateScript) => Some(ECommandType::GenerateItem),
        (_, MenuEntry::Rename) => Some(ECommandType::Editname),
        (_, MenuEntry::Delete) => Some(ECommandType::Delete),
        _ => None,
    };
    match command {
        Some(c) => {
            queue.push_back(ActionCommand::new(c, Some(item.fullpath.clone()), None));
            MenuEffect::Done
        },
        None => match (item.item_type, entry) {
            (EItemType::Folder, MenuEntry::Import) => MenuEffect::ImportInto(item.fullpath.clone()),
            (EItemType::Excel, MenuEntry::ShowInExplorer) => match &item.parent {
                Some(p) => MenuEffect::Reveal(p.clone()),
                None => MenuEffect::Done,
            },
            (_, MenuEntry::ShowInExplorer) => MenuEffect::Reveal(item.fullpath.clone()),
            _ => MenuEffect::Done,
        },
    }
}

/// The queue `new` is the queue `old` with one more command, of kind `c`
/// with the path `path`.
pub open spec fn queued_one(old: Seq<ActionCommand>, new: Seq<ActionCommand>, c: ECommandType, path: Seq<char>) -> bool {
    &&& new.len() == old.len() + 1
    &&& new.drop_last() == old
    &&& new.last().com_type == c
    &&& (new.last().param1 matches Some(p) && p@ == path)
    &&& new.last().param2 is None
}

/// Does what choosing `entry` in the menu of the tree's blank area (new
/// file, new folder, show) asks: a new workbook or folder in the workspace
/// `workspace`, or showing the workspace; other entries do nothing.
pub fn choose_blank_menu_entry(workspace: &str, entry: MenuEntry, queue: &mut VecDeque<ActionCommand>) -> (r: MenuEffect)
    ensures
        match entry {
            MenuEntry::NewFile => queued_one(old(queue)@, final(queue)@, ECommandType::CreateExcel, workspace@) && r is Done,
            MenuEntry::NewFolder => queued_one(old(queue)@, final(queue)@, ECommandType::CreateFolder, workspace@) && r is Done,
            MenuEntry::ShowInExplorer => final(queue)@ == old(queue)@ && (r matches MenuEffect::Reveal(p) && p@ == workspace@),
            _ => final(queue)@ == old(queue)@ && r is Done,
        },
{
    match entry {
        MenuEntry::NewFile => {
            queue.push_back(ActionCommand::new(ECommandType::CreateExcel, Some(workspace.to_owned()), None));
            assert(queue@.drop_last() =~= old(queue)@);
            MenuEffect::Done
        },
        MenuEntry::NewFolder => {
            queue.push_back(ActionCommand::new(ECommandType::CreateFolder, Some(workspace.to_owned()), None));
            assert(queue@.drop_last() =~= old(queue)@);
            MenuEffect::Done
        },
        MenuEntry::ShowInExplorer => MenuEffect::Reveal(workspace.to_owned()),
        _ => MenuEffect::Done,
    }
}

/// The explorer's selection and renaming state.
pub struct GableExplorer {
    selected_tree_item: Option<String>,
    renaming_item: Option<String>,
    renaming_text: String,
    auto_focus: bool,
}

impl GableExplorer {
    /// The full path of the selected node.
    pub closed spec fn selected(&self) -> Option<String> {
        self.selected_tree_item
    }

    /// The full path of the node being renamed.
    pub closed spec fn renaming(&self) -> Option<String> {
        self.renaming_item
    }

    /// The name typed so far for the node being renamed.
    pub closed spec fn renaming_text(&self) -> Seq<char> {
        self.renaming_text@
    }

    /// Whether the rename field takes the focus on the next frame.
    pub closed spec fn auto_focus(&self) -> bool {
        self.auto_focus
    }

    /// An explorer with nothing selected and nothing being renamed.
    pub fn new() -> (e: Self)
        ensures
            e.selected() is None,
            e.renaming() is None,
            e.renaming_text().len() == 0,
            !e.auto_focus(),
    {
        Self { selected_tree_item: None, renaming_item: None, renaming_text: String::new(), auto_focus: false }
    }

    /// Where a new folder is created from the node `full_path` (see
    /// `creation_folder`): the path, in that folder, of the first of
    /// `new_folder`, `new_folder(1)`, `new_folder(2)`, ... that is none of
    /// the names `taken` there; `None` when the node is not a folder.
    pub fn create_folder(&self, full_path: &str, tree: &[TreeItem], workspace: &str, new_folder: &str, taken: &[String]) -> (r: Option<String>)
        ensures
            match creation_folder(tree@, full_path@, workspace@) {
                None => r is None,
                Some(dir) => created_at(r, dir, new_folder@, new_folder@ + "("@, ")"@, names_of(taken@)),
            },
    {
        let dir = match creation_folder_of(tree, full_path, workspace) {
            Some(d) => d,
            None => return None,
        };
        let v = chars_of(new_folder);
        let mut open = v.clone();
        open.push('(');
        let prefix = string_of(open.as_slice());
        let close = ")".to_owned();
        proof {
            reveal_strlit("(");
            reveal_strlit(")");
            assert(prefix@ =~= new_folder@ + "("@);
            lemma_distinct_by_length(new_folder@, prefix@, close@);
        }
        let name = free_name(new_folder, prefix.as_str(), close.as_str(), taken);
        let p = join_path(dir.as_str(), name.as_str());
        assert(first_free_name(name@, new_folder@, new_folder@ + "("@, ")"@, names_of(taken@)) && p@ == joined(dir@, name@));
        Some(p)
    }

    /// After the folder `new_path` was created: adds its node to the tree
    /// and starts renaming it, from its name; nothing changes when the path
    /// names no folder.
    pub fn folder_created(&mut self, tree: &mut Vec<TreeItem>, workspace: &str, new_path: String)
        ensures
            final(self).selected() == old(self).selected(),
            final(self).auto_focus() == old(self).auto_focus(),
            if file_name_part(new_path@).len() > 0 {
                &&& exists|r: bool| new_item_added(old(tree)@, final(tree)@, workspace@, new_path@, EItemType::Folder, None, r)
                &&& final(self).renaming() matches Some(p) && p@ == new_path@
                &&& final(self).renaming_text() == file_name_part(new_path@)
            } else {
                &&& final(tree)@ == old(tree)@
                &&& final(self).renaming() == old(self).renaming()
                &&& final(self).renaming_text() == old(self).renaming_text()
            },
    {
        let file_name = file_name_of(new_path.as_str());
        if file_name.as_str().is_empty() {
            return;
        }
        add_new_item(tree, workspace, new_path.as_str(), EItemType::Folder, None);
        self.renaming_item = Some(new_path);
        self.renaming_text = file_name;
    }

    /// Where a new workbook is created from the node `full_path` (see
    /// `creation_folder`): the path, in that folder, of the first of
    /// `Excel_New@Sheet_New.gable`, `Excel_New1@Sheet_New.gable`, ... that
    /// is none of the names `taken` there; `None` when the node is not a
    /// folder.
    pub fn create_excel(&self, full_path: &str, tree: &[TreeItem], workspace: &str, taken: &[String]) -> (r: Option<String>)
        ensures
            match creation_folder(tree@, full_path@, workspace@) {
                None => r is None,
                Some(dir) => created_at(r, dir, "Excel_New@Sheet_New.gable"@, "Excel_New"@, "@Sheet_New.gable"@, names_of(taken@)),
            },
    {
        let dir = match creation_folder_of(tree, full_path, workspace) {
            Some(d) => d,
            None => return None,
        };
        proof {
            reveal_strlit("Excel_New@Sheet_New.gable");
            reveal_strlit("Excel_New");
            reveal_strlit("@Sheet_New.gable");
            assert("Excel_New@Sheet_New.gable"@ =~= "Excel_New"@ + "@Sheet_New.gable"@);
            lemma_distinct_by_digit("Excel_New@Sheet_New.gable"@, "Excel_New"@, "@Sheet_New.gable"@);
        }
        let name = free_name("Excel_New@Sheet_New.gable", "Excel_New", "@Sheet_New.gable", taken);
        let p = join_path(dir.as_str(), name.as_str());
        assert(first_free_name(name@, "Excel_New@Sheet_New.gable"@, "Excel_New"@, "@Sheet_New.gable"@, names_of(taken@)) && p@ == joined(dir@, name@));
        Some(p)
    }

    /// After the workbook file `new_excel_path` was created in the folder
    /// `folder` (with the sheet content `content` read back from it): adds
    /// the workbook's node and its sheet's node to the tree, and starts
    /// renaming the workbook node, from its workbook name.
    pub fn excel_created(&mut self, tree: &mut Vec<TreeItem>, workspace: &str, folder: &str, new_excel_path: &str, content: Option<GableData>)
        ensures
            final(self).selected() == old(self).selected(),
            final(self).auto_focus() == old(self).auto_focus(),
            exists|mid: Seq<TreeItem>, r1: bool, r2: bool| {
                &&& new_item_added(old(tree)@, mid, workspace@, new_excel_path@, EItemType::Excel, None, r1)
                &&& new_item_added(mid, final(tree)@, workspace@, new_excel_path@, EItemType::Sheet, content, r2)
            },
            final(self).renaming() matches Some(p) && p@ == joined(folder@, created_workbook_name(new_excel_path@)),
            final(self).renaming_text() == created_workbook_name(new_excel_path@),
    {
        let r1 = add_new_item(tree, workspace, new_excel_path, EItemType::Excel, None);
        let ghost mid = tree@;
        let r2 = add_new_item(tree, workspace, new_excel_path, EItemType::Sheet, content);
        let file_name = file_name_of(new_excel_path);
        let excel_name: String = match parse_gable_filename(file_name.as_str()) {
            Some((e, _)) => e,
            None => {
                let d = "Excel_New".to_owned();
                proof {
                    reveal_strlit("Excel_New");
                }
                d
            },
        };
        self.renaming_item = Some(join_path(folder, excel_name.as_str()));
        self.renaming_text = excel_name;
    }

    /// Where a new sheet is created from the workbook node `full_path`: the
    /// path, in the folder holding it, of the first of `W@Sheet_New.gable`,
    /// `W@Sheet_New1.gable`, ... (with `W` the workbook's name) that is none
    /// of the names `taken` there; `None` when the node is not a workbook.
    pub fn create_sheet(&self, full_path: &str, tree: &[TreeItem], taken: &[String]) -> (r: Option<String>)
        requires
            find_in(tree@, full_path@) matches Some(item) && item.item_type == EItemType::Excel ==> parent_part(full_path@) is Some,
        ensures
            match sheet_folder(tree@, full_path@) {
                None => r is None,
                Some((dir, w)) => created_at(r, dir, w + "@Sheet_New.gable"@, w + "@Sheet_New"@, ".gable"@, names_of(taken@)),
            },
    {
        let item = match find_item_by_path(tree, full_path) {
            Some(item) => item,
            None => return None,
        };
        if item.item_type != EItemType::Excel {
            return None;
        }
        let dir = match parent_of(full_path) {
            Some(d) => d,
            None => return None,
        };
        let excel = chars_of(item.display_name.as_str());
        let mut first_v = excel.clone();
        let mut prefix_v = excel.clone();
        let tail = chars_of("@Sheet_New.gable");
        let mut i: usize = 0;
        while i < tail.len()
            invariant
                i <= tail@.len(),
                first_v@ == excel@ + tail@.take(i as int),
            decreases tail.len() - i,
        {
            first_v.push(tail[i]);
            i = i + 1;
            assert(first_v@ =~= excel@ + tail@.take(i as int));
        }
        let head = chars_of("@Sheet_New");
        let mut j: usize = 0;
        while j < head.len()
            invariant
                j <= head@.len(),
                prefix_v@ == excel@ + head@.take(j as int),
            decreases head.len() - j,
        {
            prefix_v.push(head[j]);
            j = j + 1;
            assert(prefix_v@ =~= excel@ + head@.take(j as int));
        }
        let first = string_of(first_v.as_slice());
        let prefix = string_of(prefix_v.as_slice());
        let ext = ".gable".to_owned();
        proof {
            reveal_strlit("@Sheet_New.gable");
            reveal_strlit("@Sheet_New");
            reveal_strlit(".gable");
            assert(tail@.take(i as int) =~= tail@);
            assert(head@.take(j as int) =~= head@);
            assert(first@ =~= prefix@ + ext@);
            lemma_distinct_by_digit(first@, prefix@, ext@);
        }
        let name = free_name(first.as_str(), prefix.as_str(), ext.as_str(), taken);
        let p = join_path(dir.as_str(), name.as_str());
        assert(first@ == item.display_name@ + "@Sheet_New.gable"@);
        assert(prefix@ == item.display_name@ + "@Sheet_New"@);
        assert(first_free_name(name@, item.display_name@ + "@Sheet_New.gable"@, item.display_name@ + "@Sheet_New"@, ".gable"@, names_of(taken@)) && p@ == joined(dir@, name@));
        Some(p)
    }

    /// After the sheet file `new_sheet_path` was created (with the content
    /// `content` read back from it): adds its node to the tree and starts
    /// renaming it, from `Sheet_New`.
    pub fn sheet_created(&mut self, tree: &mut Vec<TreeItem>, workspace: &str, new_sheet_path: String, content: Option<GableData>)
        ensures
            final(self).selected() == old(self).selected(),
            final(self).auto_focus() == old(self).auto_focus(),
            exists|r: bool| new_item_added(old(tree)@, final(tree)@, workspace@, new_sheet_path@, EItemType::Sheet, content, r),
            final(self).renaming() matches Some(p) && p@ == new_sheet_path@,
            final(self).renaming_text() == "Sheet_New"@,
    {
        add_new_item(tree, workspace, new_sheet_path.as_str(), EItemType::Sheet, content);
        self.renaming_item = Some(new_sheet_path);
        self.renaming_text = "Sheet_New".to_owned();
    }

    /// The node that renaming `full_path` to `new_name` applies to: none
    /// when the name is not a valid file name, when no node has that path,
    /// or when the name is the node's name already.
    pub fn rename<'a>(&self, full_path: &str, new_name: &str, tree: &'a [TreeItem]) -> (r: Option<&'a TreeItem>)
        ensures
            match r {
                Some(item) => valid_file_name(new_name@) && find_in(tree@, full_path@) == Some(*item)
                    && item.display_name@ != new_name@,
                None => !valid_file_name(new_name@) || match find_in(tree@, full_path@) {
                    Some(item) => item.display_name@ == new_name@,
                    None => true,
                },
            },
    {
        if !is_valid_filename(new_name) {
            return None;
        }
        match find_item_by_path(tree, full_path) {
            Some(item) => if text_equal(new_name, item.display_name.as_str()) {
                None
            } else {
                Some(item)
            },
            None => None,
        }
    }

    /// Ends the editing of a node's name when the edit field lost the
    /// focus: with Enter, or without Escape, a name that is not empty and
    /// differs from the node's name `display_name` is returned to be applied;
    /// in every case the renaming ends, and the typed name is cleared unless
    /// it was returned.
    pub fn finish_renaming(&mut self, display_name: &str, enter: bool, escape: bool) -> (r: Option<String>)
        ensures
            final(self).renaming() is None,
            final(self).renaming_text().len() == 0,
            final(self).selected() == old(self).selected(),
            final(self).auto_focus() == old(self).auto_focus(),
            match r {
                Some(name) => (enter || !escape) && name@ == old(self).renaming_text()
                    && name@.len() > 0 && name@ != display_name@,
                None => !(enter || !escape) || old(self).renaming_text().len() == 0
                    || old(self).renaming_text() == display_name@,
            },
    {
        let commit = enter || !escape;
        let changed = !self.renaming_text.as_str().is_empty() && !text_equal(self.renaming_text.as_str(), display_name);
        self.renaming_item = None;
        if commit && changed {
            let mut taken = String::new();
            std::mem::swap(&mut taken, &mut self.renaming_text);
            Some(taken)
        } else {
            self.renaming_text = String::new();
            None
        }
    }

    /// Whether the edit field asks for the focus now; the request is
    /// answered once.
    pub fn take_focus_request(&mut self) -> (r: bool)
        ensures
            r == old(self).auto_focus(),
            !final(self).auto_focus(),
            final(self).selected() == old(self).selected(),
            final(self).renaming() == old(self).renaming(),
            final(self).renaming_text() == old(self).renaming_text(),
    {
        let r = self.auto_focus;
        self.auto_focus = false;
        r
    }

    /// Selects the node at `full_path`.
    pub fn select(&mut self, full_path: String)
        ensures
            final(self).selected() matches Some(p) && p@ == full_path@,
            final(self).renaming() == old(self).renaming(),
            final(self).renaming_text() == old(self).renaming_text(),
            final(self).auto_focus() == old(self).auto_focus(),
    {
        self.selected_tree_item = Some(full_path);
    }

    /// Starts renaming the node at `full_path`, with its current name typed
    /// and the focus requested; nothing changes when no node has that path.
    pub fn edit_name(&mut self, full_path: String, tree: &[TreeItem])
        ensures
            final(self).selected() == old(self).selected(),
            match find_in(tree@, full_path@) {
                Some(item) => final(self).renaming() matches Some(p) && p@ == item.fullpath@
                    && final(self).renaming_text() == item.display_name@ && final(self).auto_focus(),
                None => final(self).renaming() == old(self).renaming()
                    && final(self).renaming_text() == old(self).renaming_text()
                    && final(self).auto_focus() == old(self).auto_focus(),
            },
    {
        if let Some(item) = find_item_by_path(tree, full_path.as_str()) {
            self.renaming_item = Some(item.fullpath.clone());
            self.renaming_text = item.display_name.clone();
            self.auto_focus = true;
        }
    }
}

} // verus!
