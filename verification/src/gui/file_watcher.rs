//! What the workspace does when a watched workbook file changes.
//!
//! Workbooks being edited outside the tool sit in a watched folder. When one
//! is saved it is written back to its sheets; when the lock file that Excel
//! keeps beside an open workbook (`~$` and the workbook's name) goes away,
//! the workbook was closed: it is written back and no longer tracked.
use crate::common::text::{chars_of, has_prefix, starts_with, string_of};
use crate::common::utils::{file_name_of, file_name_part, join_path, joined, parent_of, parent_part, slice_from};
use vstd::prelude::*;

verus! {

/// The kind of a file-system event.
#[derive(Debug, Clone, Copy, PartialEq, Eq, Structural)]
pub enum WatchEventKind {
    /// A file was modified.
    Modify,
    /// A file was removed.
    Remove,
    /// Anything else.
    Other,
}

/// What to do about a watched workbook.
#[derive(Debug)]
pub enum WatchAction {
    /// The workbook at this path was saved: write it back.
    Complete(String),
    /// The workbook at this path was closed: when it still exists, write it
    /// back and stop tracking it.
    CompleteAndForget(String),
}

/// The model of an action: whether it also forgets the workbook, and its
/// path.
pub open spec fn action_model(a: WatchAction) -> (bool, Seq<char>) {
    match a {
        WatchAction::Complete(p) => (false, p@),
        WatchAction::CompleteAndForget(p) => (true, p@),
    }
}

/// `s` ends with `t`.
pub open spec fn has_suffix(s: Seq<char>, t: Seq<char>) -> bool {
    t.len() <= s.len() && s.skip(s.len() - t.len()) == t
}

/// The lock file that Excel keeps beside an open workbook.
pub open spec fn is_lock_name(name: Seq<char>) -> bool {
    has_prefix(name, "~$"@)
}

/// The name of the workbook that a lock file stands for.
pub open spec fn locked_name(name: Seq<char>) -> Seq<char> {
    name.skip(2)
}

/// What an event of kind `kind` on the file `path` asks for: for a saved
/// workbook (`.xlsx`, not a lock file), writing it back; for a removed lock
/// file of a workbook, writing back the workbook beside it and forgetting
/// it; nothing otherwise.
pub open spec fn action_for(kind: WatchEventKind, path: Seq<char>) -> Option<(bool, Seq<char>)> {
    let name = file_name_part(path);
    if !has_suffix(name, ".xlsx"@) {
        None
    } else {
        match kind {
            WatchEventKind::Modify => if is_lock_name(name) {
                None
            } else {
                Some((false, path))
            },
            WatchEventKind::Remove => if is_lock_name(name) {
                match parent_part(path) {
                    Some(dir) => Some((true, joined(dir, locked_name(name)))),
                    None => None,
                }
            } else {
                None
            },
            WatchEventKind::Other => None,
        }
    }
}

/// The actions that an event of kind `kind` on the files `paths` asks for,
/// in the order of the files.
pub open spec fn actions_for(kind: WatchEventKind, paths: Seq<Seq<char>>) -> Seq<(bool, Seq<char>)>
    decreases paths.len(),
{
    if paths.len() == 0 {
        Seq::empty()
    } else {
        let rest = actions_for(kind, paths.drop_last());
        match action_for(kind, paths.last()) {
            Some(a) => rest.push(a),
            None => rest,
        }
    }
}

/// Whether the text `s` ends with `t`.
fn ends_with(s: &[char], t: &[char]) -> (r: bool)
    ensures
        r == has_suffix(s@, t@),
{
    if t.len() > s.len() {
        return false;
    }
    let from = s.len() - t.len();
    let tail = slice_from(s, from);
    let mut i: usize = 0;
    while i < t.len()
        invariant
            tail@ == s@.skip(from as int),
            from == s@.len() - t@.len(),
            tail@.len() == t@.len(),
            i <= t@.len(),
            forall|k: int| 0 <= k < i ==> tail@[k] == t@[k],
        decreases t.len() - i,
    {
        if tail[i] != t[i] {
            assert(s@.skip(s@.len() - t@.len())[i as int] != t@[i as int]);
            return false;
        }
        i = i + 1;
    }
    assert(tail@ =~= t@);
    true
}

/// What an event of kind `kind` on the file `path` asks for.
fn action_of(kind: WatchEventKind, path: &str) -> (r: Option<WatchAction>)
    ensures
        match r {
            Some(a) => action_for(kind, path@) == Some(action_model(a)),
            None => action_for(kind, path@) is None,
        },
{
    let name = file_name_of(path);
    let v = chars_of(name.as_str());
    let ext = chars_of(".xlsx");
    let lock = chars_of("~$");
    proof {
        reveal_strlit(".xlsx");
        reveal_strlit("~$");
    }
    if !ends_with(v.as_slice(), ext.as_slice()) {
        return None;
    }
    let is_lock = starts_with(v.as_slice(), lock.as_slice());
    match kind {
        WatchEventKind::Modify => if is_lock {
            None
        } else {
            Some(WatchAction::Complete(path.to_owned()))
        },
        WatchEventKind::Remove => if is_lock {
            match parent_of(path) {
                Some(dir) => {
                    let formal = string_of(slice_from(v.as_slice(), 2).as_slice());
                    Some(WatchAction::CompleteAndForget(join_path(dir.as_str(), formal.as_str())))
                },
                None => None,
            }
        } else {
            None
        },
        WatchEventKind::Other => None,
    }
}

/// The actions that an event of kind `kind` on the files `paths` asks for,
/// in the order of the files.
pub fn watch_actions(kind: WatchEventKind, paths: &[String]) -> (r: Vec<WatchAction>)
    ensures
        r@.map_values(|a: WatchAction| action_model(a)) == actions_for(kind, paths@.map_values(|p: String| p@)),
{
    let ghost views = paths@.map_values(|p: String| p@);
    let mut r: Vec<WatchAction> = Vec::new();
    let mut i: usize = 0;
    while i < paths.len()
        invariant
            views == paths@.map_values(|p: String| p@),
            i <= paths@.len(),
            r@.map_values(|a: WatchAction| action_model(a)) == actions_for(kind, views.take(i as int)),
        decreases paths.len() - i,
    {
        assert(views.take(i + 1).drop_last() =~= views.take(i as int));
        assert(views.take(i + 1).last() == paths@[i as int]@);
        let ghost before = r@;
        match action_of(kind, paths[i].as_str()) {
            Some(a) => {
                r.push(a);
                assert(r@.map_values(|a: WatchAction| action_model(a)) =~= before.map_values(|a: WatchAction| action_model(a)).push(action_model(a)));
            },
            None => {},
        }
        i = i + 1;
    }
    assert(views.take(i as int) =~= views);
    r
}

} // verus!
