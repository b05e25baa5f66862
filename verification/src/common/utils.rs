//! Paths and the names of stored sheet files.
//!
//! A sheet of workbook `W` named `S` is stored as `W@S.gable`; a workbook
//! stored as one file without a sheet name is `W.gable`. The kind of a
//! table follows from the workspace folder it lives in: `enums`, `kvs` and
//! `localizes` directly under the workspace hold enum, key-value and
//! localisation tables, every other folder normal tables.
use crate::common::text::{chars_of, has_prefix, spells, string_of};
use crate::gui::datas::esheet_type::ESheetType;
use vstd::prelude::*;

verus! {

/// `c` separates the components of a path (both spellings are accepted).
pub open spec fn is_separator(c: char) -> bool {
    c == '/' || c == '\\'
}

/// The position of the last separator in `s`, or -1 when it has none.
pub open spec fn last_separator(s: Seq<char>) -> int
    decreases s.len(),
{
    if s.len() == 0 {
        -1
    } else if is_separator(s.last()) {
        s.len() - 1
    } else {
        last_separator(s.drop_last())
    }
}

/// The position of the first separator in `s`, or -1 when it has none.
pub open spec fn first_separator(s: Seq<char>) -> int
    decreases s.len(),
{
    if s.len() == 0 {
        -1
    } else if is_separator(s[0]) {
        0
    } else if first_separator(s.drop_first()) < 0 {
        -1
    } else {
        first_separator(s.drop_first()) + 1
    }
}

/// The last component of a path: what follows its last separator.
pub open spec fn file_name_part(s: Seq<char>) -> Seq<char> {
    s.skip(last_separator(s) + 1)
}

/// The path of the folder that holds `s`: what precedes its last separator,
/// the empty path for a bare name, and `None` for the empty path.
pub open spec fn parent_part(s: Seq<char>) -> Option<Seq<char>> {
    if s.len() == 0 {
        None
    } else if last_separator(s) < 0 {
        Some(Seq::empty())
    } else {
        Some(s.take(last_separator(s)))
    }
}

/// `s` joined to `name` with a `/`.
pub open spec fn joined(s: Seq<char>, name: Seq<char>) -> Seq<char> {
    s + seq!['/'] + name
}

/// The position of the first `c` in `s`, or -1 when there is none.
pub open spec fn first_index_of(s: Seq<char>, c: char) -> int
    decreases s.len(),
{
    if s.len() == 0 {
        -1
    } else if s[0] == c {
        0
    } else if first_index_of(s.drop_first(), c) < 0 {
        -1
    } else {
        first_index_of(s.drop_first(), c) + 1
    }
}

/// The workbook and sheet names spelled by the file name of a stored sheet:
/// for `W@S.gable`, `W` and `S` (split at the first `@`); for `W.gable`,
/// `W` and no sheet name; `None` for a name without the `.gable` ending.
pub open spec fn gable_name_parts(name: Seq<char>) -> Option<(Seq<char>, Option<Seq<char>>)> {
    let ext = ".gable"@;
    if name.len() >= ext.len() && name.skip(name.len() - ext.len()) == ext {
        let stem = name.take(name.len() - ext.len());
        let at = first_index_of(stem, '@');
        if at < 0 {
            Some((stem, None))
        } else {
            Some((stem.take(at), Some(stem.skip(at + 1))))
        }
    } else {
        None
    }
}

/// The kind of the tables stored at `path` in the workspace `workspace`: by
/// the name of the folder directly under the workspace that holds them.
pub open spec fn sheet_type_at(workspace: Seq<char>, path: Seq<char>) -> ESheetType {
    let n = workspace.len() as int;
    if has_prefix(path, workspace) && path.len() > n && is_separator(path[n]) {
        let rest = path.skip(n + 1);
        let end = first_separator(rest);
        if end < 0 {
            ESheetType::Normal
        } else if rest.take(end) == "enums"@ {
            ESheetType::Enum
        } else if rest.take(end) == "kvs"@ {
            ESheetType::KV
        } else if rest.take(end) == "localizes"@ {
            ESheetType::Localize
        } else {
            ESheetType::Normal
        }
    } else {
        ESheetType::Normal
    }
}

proof fn lemma_last_separator(s: Seq<char>)
    ensures
        -1 <= last_separator(s) < s.len(),
        last_separator(s) >= 0 ==> is_separator(s[last_separator(s)]),
        forall|k: int| last_separator(s) < k < s.len() ==> !is_separator(#[trigger] s[k]),
    decreases s.len(),
{
    if s.len() > 0 && !is_separator(s.last()) {
        lemma_last_separator(s.drop_last());
        assert forall|k: int| last_separator(s) < k < s.len() implies !is_separator(#[trigger] s[k]) by {
            if k < s.len() - 1 {
                assert(s[k] == s.drop_last()[k]);
            }
        }
    }
}

proof fn lemma_first_index_of(s: Seq<char>, c: char)
    ensures
        -1 <= first_index_of(s, c) < s.len(),
        first_index_of(s, c) >= 0 ==> s[first_index_of(s, c)] == c,
        forall|k: int| 0 <= k < s.len() && (first_index_of(s, c) < 0 || k < first_index_of(s, c)) ==> #[trigger] s[k] != c,
    decreases s.len(),
{
    if s.len() > 0 && s[0] != c {
        lemma_first_index_of(s.drop_first(), c);
        assert forall|k: int| 0 <= k < s.len() && (first_index_of(s, c) < 0 || k < first_index_of(s, c)) implies #[trigger] s[k] != c by {
            if k > 0 {
                assert(s[k] == s.drop_first()[k - 1]);
            }
        }
    }
}

proof fn lemma_first_separator(s: Seq<char>)
    ensures
        -1 <= first_separator(s) < s.len(),
        first_separator(s) >= 0 ==> is_separator(s[first_separator(s)]),
        forall|k: int| 0 <= k < s.len() && (first_separator(s) < 0 || k < first_separator(s)) ==> !is_separator(#[trigger] s[k]),
    decreases s.len(),
{
    if s.len() > 0 && !is_separator(s[0]) {
        lemma_first_separator(s.drop_first());
        assert forall|k: int| 0 <= k < s.len() && (first_separator(s) < 0 || k < first_separator(s)) implies !is_separator(#[trigger] s[k]) by {
            if k > 0 {
                assert(s[k] == s.drop_first()[k - 1]);
            }
        }
    }
}

/// The position of the last separator in `v`.
fn last_separator_in(v: &[char]) -> (r: Option<usize>)
    ensures
        match r {
            Some(i) => i == last_separator(v@),
            None => last_separator(v@) < 0,
        },
{
    let mut i: usize = v.len();
    assert(v@.take(i as int) =~= v@);
    while i > 0
        invariant
            i <= v@.len(),
            last_separator(v@) == last_separator(v@.take(i as int)),
        decreases i,
    {
        let ghost t = v@.take(i as int);
        assert(t.last() == v@[i - 1]);
        if v[i - 1] == '/' || v[i - 1] == '\\' {
            return Some(i - 1);
        }
        assert(t.drop_last() =~= v@.take(i - 1));
        i = i - 1;
    }
    assert(v@.take(0).len() == 0);
    None
}

/// The position of the first separator in `v`.
fn first_separator_in(v: &[char]) -> (r: Option<usize>)
    ensures
        match r {
            Some(i) => i == first_separator(v@),
            None => first_separator(v@) < 0,
        },
{
    proof {
        lemma_first_separator(v@);
    }
    let mut i: usize = 0;
    while i < v.len()
        invariant
            i <= v@.len(),
            forall|k: int| 0 <= k < i ==> !is_separator(#[trigger] v@[k]),
            -1 <= first_separator(v@) < v@.len(),
            first_separator(v@) >= 0 ==> is_separator(v@[first_separator(v@)]),
            forall|k: int| 0 <= k < v@.len() && (first_separator(v@) < 0 || k < first_separator(v@)) ==> !is_separator(#[trigger] v@[k]),
        decreases v.len() - i,
    {
        if v[i] == '/' || v[i] == '\\' {
            return Some(i);
        }
        i = i + 1;
    }
    None
}

/// The position of the first `c` in `v`.
pub fn index_of_char(v: &[char], c: char) -> (r: Option<usize>)
    ensures
        match r {
            Some(i) => i == first_index_of(v@, c) && i < v@.len() && v@[i as int] == c,
            None => first_index_of(v@, c) < 0,
        },
{
    proof {
        lemma_first_index_of(v@, c);
    }
    let mut i: usize = 0;
    while i < v.len()
        invariant
            i <= v@.len(),
            forall|k: int| 0 <= k < i ==> #[trigger] v@[k] != c,
            -1 <= first_index_of(v@, c) < v@.len(),
            first_index_of(v@, c) >= 0 ==> v@[first_index_of(v@, c)] == c,
            forall|k: int| 0 <= k < v@.len() && (first_index_of(v@, c) < 0 || k < first_index_of(v@, c)) ==> #[trigger] v@[k] != c,
        decreases v.len() - i,
    {
        if v[i] == c {
            return Some(i);
        }
        i = i + 1;
    }
    None
}

/// The last component of `path`.
pub fn file_name_of(path: &str) -> (r: String)
    ensures
        r@ == file_name_part(path@),
{
    let v = chars_of(path);
    proof {
        lemma_last_separator(v@);
    }
    let from: usize = match last_separator_in(v.as_slice()) {
        Some(i) => {
            let n: usize = v.len();
            assert(i < n);
            i + 1
        },
        None => 0,
    };
    string_of(slice_from(v.as_slice(), from).as_slice())
}

/// The folder that holds `path`.
pub fn parent_of(path: &str) -> (r: Option<String>)
    ensures
        match r {
            Some(p) => parent_part(path@) == Some(p@),
            None => parent_part(path@) is None,
        },
{
    let v = chars_of(path);
    proof {
        lemma_last_separator(v@);
    }
    if v.len() == 0 {
        return None;
    }
    match last_separator_in(v.as_slice()) {
        Some(i) => Some(string_of(slice_to(v.as_slice(), i).as_slice())),
        None => {
            let e = String::new();
            assert(e@ =~= Seq::<char>::empty());
            Some(e)
        },
    }
}

/// The characters of `v` from position `from` on.
pub fn slice_from(v: &[char], from: usize) -> (r: Vec<char>)
    requires
        from <= v@.len(),
    ensures
        r@ == v@.skip(from as int),
{
    let mut r: Vec<char> = Vec::new();
    let mut i: usize = from;
    while i < v.len()
        invariant
            from <= i <= v@.len(),
            r@ == v@.subrange(from as int, i as int),
        decreases v.len() - i,
    {
        r.push(v[i]);
        i = i + 1;
        assert(r@ =~= v@.subrange(from as int, i as int));
    }
    assert(r@ =~= v@.skip(from as int));
    r
}

/// The first `to` characters of `v`.
pub fn slice_to(v: &[char], to: usize) -> (r: Vec<char>)
    requires
        to <= v@.len(),
    ensures
        r@ == v@.take(to as int),
{
    let mut r: Vec<char> = Vec::new();
    let mut i: usize = 0;
    while i < to
        invariant
            i <= to <= v@.len(),
            r@ == v@.take(i as int),
        decreases to - i,
    {
        r.push(v[i]);
        i = i + 1;
        assert(r@ =~= v@.take(i as int));
    }
    r
}

/// `path` joined to `name` with a `/`.
pub fn join_path(path: &str, name: &str) -> (r: String)
    ensures
        r@ == joined(path@, name@),
{
    let mut v = chars_of(path);
    v.push('/');
    let w = chars_of(name);
    let mut i: usize = 0;
    let ghost base = v@;
    while i < w.len()
        invariant
            i <= w@.len(),
            v@ == base + w@.take(i as int),
        decreases w.len() - i,
    {
        v.push(w[i]);
        i = i + 1;
        assert(v@ =~= base + w@.take(i as int));
    }
    assert(w@.take(i as int) =~= w@);
    assert(base =~= path@ + seq!['/']);
    string_of(v.as_slice())
}

/// The workbook and sheet names of a stored sheet's file name; `None` for
/// a name without the `.gable` ending.
pub fn parse_gable_filename(file_name: &str) -> (r: Option<(String, Option<String>)>)
    ensures
        match r {
            Some((w, s)) => gable_name_parts(file_name@) matches Some((pw, ps)) && pw == w@
                && match s {
                    Some(x) => ps == Some(x@),
                    None => ps is None,
                },
            None => gable_name_parts(file_name@) is None,
        },
{
    let v = chars_of(file_name);
    let ext = chars_of(".gable");
    proof {
        reveal_strlit(".gable");
    }
    if v.len() < ext.len() {
        return None;
    }
    let cut = v.len() - ext.len();
    let tail = slice_from(v.as_slice(), cut);
    if !spells(tail.as_slice(), ".gable") {
        return None;
    }
    let stem = slice_to(v.as_slice(), cut);
    proof {
        lemma_first_index_of(stem@, '@');
    }
    match index_of_char(stem.as_slice(), '@') {
        None => Some((string_of(stem.as_slice()), None)),
        Some(at) => {
            let w = slice_to(stem.as_slice(), at);
            let s = slice_from(stem.as_slice(), at + 1);
            Some((string_of(w.as_slice()), Some(string_of(s.as_slice()))))
        },
    }
}

/// The kind of the tables stored at `path` in the workspace `workspace`.
pub fn determine_sheet_type(workspace: &str, path: &str) -> (r: ESheetType)
    ensures
        r == sheet_type_at(workspace@, path@),
{
    let w = chars_of(workspace);
    let p = chars_of(path);
    let n = w.len();
    if p.len() <= n {
        return ESheetType::Normal;
    }
    let head = slice_to(p.as_slice(), n);
    let mut same = true;
    let mut i: usize = 0;
    while i < n
        invariant
            n == w@.len(),
            n <= head@.len(),
            i <= n,
            same == (forall|k: int| 0 <= k < i ==> head@[k] == w@[k]),
        decreases n - i,
    {
        if head[i] != w[i] {
            same = false;
        }
        i = i + 1;
    }
    proof {
        if same {
            assert(p@.subrange(0, w@.len() as int) =~= w@);
        } else {
            let k = choose|k: int| 0 <= k < n && head@[k] != w@[k];
            assert(p@.subrange(0, w@.len() as int)[k] != w@[k]);
        }
    }
    if !same || !(p[n] == '/' || p[n] == '\\') {
        return ESheetType::Normal;
    }
    let rest = slice_from(p.as_slice(), n + 1);
    proof {
        lemma_first_separator(rest@);
    }
    match first_separator_in(rest.as_slice()) {
        None => ESheetType::Normal,
        Some(end) => {
            let first = slice_to(rest.as_slice(), end);
            if spells(first.as_slice(), "enums") {
                ESheetType::Enum
            } else if spells(first.as_slice(), "kvs") {
                ESheetType::KV
            } else if spells(first.as_slice(), "localizes") {
                ESheetType::Localize
            } else {
                ESheetType::Normal
            }
        },
    }
}

/// Folders of the workspace that hold no tables.
pub open spec fn is_ignored_dir(name: Seq<char>) -> bool {
    name == "__Data"@ || name == "__Temp"@
}

/// Whether the folder `name` is one of the workspace's own folders, which
/// hold no tables.
pub fn is_ignored_dir_name(name: &str) -> (r: bool)
    ensures
        r == is_ignored_dir(name@),
{
    let v = chars_of(name);
    spells(v.as_slice(), "__Data") || spells(v.as_slice(), "__Temp")
}

} // verus!
