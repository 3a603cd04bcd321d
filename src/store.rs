//! The store operations, as decisions on what the caller observed.
//!
//! The caller locates the project root, asks here where a key's file lies,
//! looks at the filesystem, and hands back what it saw; the functions here
//! say what to do next and what to report.
use vstd::prelude::*;
use crate::error::AppError;
use crate::resolve::{resolve_path, resolve_spec};
use crate::text::{chars_of, span_is};
use crate::validate::{confined, join, normalize_path, normalized, parents_of, validate_path, Normalized};

verus! {

/// The name of the store directory under the project root.
pub const STORE_DIR: &'static str = ".mx";

/// Index of the project root among the ancestors of the working directory
/// (index 0 is the working directory itself, then each parent in turn), given
/// whether each holds a store or repository marker: the nearest that does, or
/// the working directory where none does.
pub fn project_root_index(markers: &Vec<bool>) -> (r: usize)
    ensures
        (exists|i: int| 0 <= i < markers@.len() && markers@[i]) ==> {
            &&& r < markers@.len()
            &&& markers@[r as int]
            &&& forall|i: int| 0 <= i < r ==> !markers@[i]
        },
        (forall|i: int| 0 <= i < markers@.len() ==> !markers@[i]) ==> r == 0,
{
    let mut i: usize = 0;
    while i < markers.len()
        invariant
            i <= markers@.len(),
            forall|j: int| 0 <= j < i ==> !markers@[j],
        decreases markers@.len() - i,
    {
        if markers[i] {
            return i;
        }
        i += 1;
    }
    0
}

/// Where the file of `key` lies in the store, normalised; `None` where the
/// key's path leaves the store.
pub open spec fn target_spec(key: Seq<char>) -> Option<Seq<char>> {
    if confined(resolve_spec(key)) {
        Some(join(normalized(resolve_spec(key))->0))
    } else {
        None
    }
}

/// Resolves `key` and validates the result: the file's place in the store,
/// with the directories above it, or a path-traversal error naming `key`.
pub fn target_path(key: &str) -> (r: Result<Normalized, AppError>)
    ensures
        r is Ok == target_spec(key@) is Some,
        r is Ok ==> r->Ok_0.path@ == target_spec(key@)->0,
        r is Ok ==> r->Ok_0.parents@.len() == parents_of(normalized(resolve_spec(key@))->0).len(),
        r is Ok ==> forall|j: int| 0 <= j < r->Ok_0.parents@.len()
            ==> (#[trigger] r->Ok_0.parents@[j])@ == parents_of(normalized(resolve_spec(key@))->0)[j],
        r is Err ==> r->Err_0 is PathTraversal && r->Err_0->PathTraversal_0@ == key@,
{
    let resolved = resolve_path(key);
    match validate_path(key, resolved.as_str()) {
        Err(e) => Err(e),
        Ok(()) => match normalize_path(resolved.as_str()) {
            Some(n) => Ok(n),
            None => Err(AppError::PathTraversal(String::from_str(key))),
        },
    }
}

pub open spec fn missing_message(relative: Seq<char>) -> Seq<char> {
    "⚠️ Context file not found: "@ + relative
}

pub open spec fn not_a_file_message(relative: Seq<char>) -> Seq<char> {
    "⚠️ Path is not a file: "@ + relative
}

/// Whether a read goes ahead, given whether the path exists and whether it is
/// a regular file.
pub open spec fn cat_allows(exists: bool, is_file: bool) -> bool {
    exists && is_file
}

/// Whether a file may be read, given whether its path exists and whether it
/// is a regular file. Refusals are `NotFound`, with a message naming `relative`.
pub fn cat_check(relative: &str, exists: bool, is_file: bool) -> (r: Result<(), AppError>)
    ensures
        r is Ok == cat_allows(exists, is_file),
        !exists ==> r is Err && r->Err_0 is NotFound && r->Err_0->NotFound_0@ == missing_message(relative@),
        exists && !is_file ==> r is Err && r->Err_0 is NotFound
            && r->Err_0->NotFound_0@ == not_a_file_message(relative@),
{
    if !exists {
        let mut m = String::from_str("⚠️ Context file not found: ");
        m.append(relative);
        Err(AppError::not_found(m))
    } else if !is_file {
        let mut m = String::from_str("⚠️ Path is not a file: ");
        m.append(relative);
        Err(AppError::not_found(m))
    } else {
        Ok(())
    }
}

/// What `touch` does to its file.
#[derive(PartialEq, Eq, Structural, Clone, Copy, Debug)]
pub enum TouchAction {
    /// The file was absent: create missing directories and an empty file.
    Create,
    /// The file was there and overwriting was asked for: truncate it.
    Overwrite,
    /// The file was there and is left as it is.
    Keep,
}

/// The action for a file that `existed` before, and whether it is overwritten.
pub open spec fn touch_action_spec(existed: bool, overwritten: bool) -> TouchAction {
    if !existed {
        TouchAction::Create
    } else if overwritten {
        TouchAction::Overwrite
    } else {
        TouchAction::Keep
    }
}

/// What `touch` reports: the key, the file's path, whether the file existed
/// before, and whether it was overwritten.
#[derive(Debug, Clone)]
pub struct TouchOutcome {
    pub key: String,
    pub path: String,
    pub existed: bool,
    pub overwritten: bool,
}

/// The outcome of touching the file at `path` for `key`, given whether it
/// `exists`: an existing file is overwritten exactly when `force` is set.
pub fn touch_outcome(key: &str, path: String, exists: bool, force: bool) -> (r: TouchOutcome)
    ensures
        r.key@ == key@,
        r.path@ == path@,
        r.existed == exists,
        r.overwritten == (exists && force),
{
    TouchOutcome { key: String::from_str(key), path, existed: exists, overwritten: exists && force }
}

impl TouchOutcome {
    /// What is done to the file for this outcome.
    pub fn action(&self) -> (r: TouchAction)
        ensures
            r == touch_action_spec(self.existed, self.overwritten),
    {
        if !self.existed {
            TouchAction::Create
        } else if self.overwritten {
            TouchAction::Overwrite
        } else {
            TouchAction::Keep
        }
    }

    /// Whether clipboard content goes into the file: only when pasting was
    /// asked for and the file is new or was just emptied.
    pub fn takes_paste(&self, paste: bool) -> (r: bool)
        ensures
            r == (paste && (!self.existed || self.overwritten)),
    {
        paste && (!self.existed || self.overwritten)
    }
}

/// What a file holds after `touch`, from what it held (`None`: absent).
pub open spec fn touch_effect(file: Option<Seq<u8>>, force: bool) -> Option<Seq<u8>> {
    match touch_action_spec(file is Some, file is Some && force) {
        TouchAction::Keep => file,
        _ => Some(Seq::empty()),
    }
}

/// Touching without `force` a second time changes nothing, and reports a
/// file that existed and was not overwritten.
pub proof fn touch_twice_keeps_contents(file: Option<Seq<u8>>)
    ensures
        touch_effect(touch_effect(file, false), false) == touch_effect(file, false),
        touch_effect(file, false) is Some,
        touch_action_spec(touch_effect(file, false) is Some, false) == TouchAction::Keep,
        file is Some ==> touch_effect(file, false) == file,
{
}

/// What a file holds after a write of `content`: created or truncated, then filled.
pub open spec fn write_effect(file: Option<Seq<u8>>, content: Seq<u8>) -> Option<Seq<u8>> {
    Some(content)
}

/// What a read of the file gives: its content where `cat_check` lets the read
/// go ahead. A file that `touch` made is a regular file.
pub open spec fn read_effect(file: Option<Seq<u8>>) -> Option<Seq<u8>> {
    if cat_allows(file is Some, file is Some) {
        file
    } else {
        None
    }
}

/// A forced `touch` leaves an empty file that takes pasted content, and after
/// a write of `content` a read gives back exactly `content`, the empty one too.
pub proof fn touch_write_then_read(file: Option<Seq<u8>>, content: Seq<u8>)
    ensures
        touch_effect(file, true) == Some(Seq::<u8>::empty()),
        touch_action_spec(file is Some, file is Some) != TouchAction::Keep,
        read_effect(write_effect(touch_effect(file, true), content)) == Some(content),
{
}

/// What `clean` is asked to remove: the whole store, or one file.
#[derive(Debug, Clone)]
pub struct CleanPlan {
    /// `None` for the whole store; else the file's place in it.
    pub target: Option<Normalized>,
}

/// Plans `clean`: without a key the whole store, with one the key's file,
/// provided that its path stays inside the store.
pub fn clean_plan(key: Option<String>) -> (r: Result<CleanPlan, AppError>)
    ensures
        key is None ==> r is Ok && r->Ok_0.target is None,
        key is Some ==> (r is Ok == target_spec(key->0@) is Some),
        key is Some && r is Ok ==> r->Ok_0.target is Some
            && r->Ok_0.target->0.path@ == target_spec(key->0@)->0
            && r->Ok_0.target->0.parents@.len() == parents_of(normalized(resolve_spec(key->0@))->0).len()
            && forall|j: int| 0 <= j < r->Ok_0.target->0.parents@.len()
                ==> (#[trigger] r->Ok_0.target->0.parents@[j])@
                    == parents_of(normalized(resolve_spec(key->0@))->0)[j],
        key is Some && r is Err ==> r->Err_0 is PathTraversal && r->Err_0->PathTraversal_0@ == key->0@,
{
    match key {
        None => Ok(CleanPlan { target: None }),
        Some(k) => match target_path(k.as_str()) {
            Ok(n) => Ok(CleanPlan { target: Some(n) }),
            Err(e) => Err(e),
        },
    }
}

/// What `clean` reports.
#[derive(Debug, Clone)]
pub struct CleanOutcome {
    pub message: String,
}

/// `store_root/relative`.
pub open spec fn in_store(store_root: Seq<char>, relative: Seq<char>) -> Seq<char> {
    store_root + "/"@ + relative
}

fn in_store_path(store_root: &str, relative: &str) -> (r: String)
    ensures
        r@ == in_store(store_root@, relative@),
{
    let mut r = String::from_str(store_root);
    r.append("/");
    r.append(relative);
    r
}

/// The report of `clean` once the plan has run, given whether its target
/// `existed`; the store's directory is `store_root`. A file that was absent is
/// `NotFound`, naming its full path.
pub fn clean_context(store_root: &str, plan: &CleanPlan, existed: bool) -> (r: Result<CleanOutcome, AppError>)
    ensures
        plan.target is None && existed ==> r is Ok && r->Ok_0.message@ == "Removed .mx directory"@,
        plan.target is None && !existed ==> r is Ok && r->Ok_0.message@ == ".mx directory not found"@,
        plan.target is Some && existed ==> r is Ok && r->Ok_0.message@
            == "Removed "@ + in_store(store_root@, plan.target->0.path@),
        plan.target is Some && !existed ==> r is Err && r->Err_0 is NotFound && r->Err_0->NotFound_0@
            == "File not found: "@ + in_store(store_root@, plan.target->0.path@),
{
    match &plan.target {
        None => if existed {
            Ok(CleanOutcome { message: String::from_str("Removed .mx directory") })
        } else {
            Ok(CleanOutcome { message: String::from_str(".mx directory not found") })
        },
        Some(t) => {
            let full = in_store_path(store_root, t.path.as_str());
            if existed {
                let mut m = String::from_str("Removed ");
                m.append(full.as_str());
                Ok(CleanOutcome { message: m })
            } else {
                let mut m = String::from_str("File not found: ");
                m.append(full.as_str());
                Err(AppError::not_found(m))
            }
        },
    }
}

/// What `copy_snippet` reports: the key, the file's place in the store, and
/// its full path.
#[derive(Debug, Clone)]
pub struct CopyOutcome {
    pub key: String,
    pub relative_path: String,
    pub absolute_path: String,
}

/// Where the snippet named `query` lies, in a store whose directory is
/// `store_root`; the caller then reads it and puts it on the clipboard.
pub fn copy_snippet(store_root: &str, query: &str) -> (r: Result<CopyOutcome, AppError>)
    ensures
        r is Ok == target_spec(query@) is Some,
        r is Ok ==> r->Ok_0.key@ == query@
            && r->Ok_0.relative_path@ == target_spec(query@)->0
            && r->Ok_0.absolute_path@ == in_store(store_root@, target_spec(query@)->0),
        r is Err ==> r->Err_0 is PathTraversal && r->Err_0->PathTraversal_0@ == query@,
{
    match target_path(query) {
        Err(e) => Err(e),
        Ok(t) => {
            let absolute_path = in_store_path(store_root, t.path.as_str());
            Ok(CopyOutcome { key: String::from_str(query), relative_path: t.path, absolute_path })
        },
    }
}

/// One snippet in the listing: its key, its place in the store, and the
/// title and description its metadata gives, where it has any.
#[derive(Debug, Clone)]
pub struct ListEntry {
    pub key: String,
    pub relative_path: String,
    pub title: Option<String>,
    pub description: Option<String>,
}

pub open spec fn is_markdown(p: Seq<char>) -> bool {
    p.len() >= 3 && p.subrange(p.len() - 3, p.len() as int) == ".md"@
}

/// The Markdown files among `files` (paths relative to the store, as the
/// caller found them), in the order given, each listed under the key that
/// names it: its path without `.md`. No metadata is read here.
pub fn list_snippets(files: &Vec<String>) -> (r: Vec<ListEntry>)
    ensures
        r@.len() == files@.filter(|f: String| is_markdown(f@)).len(),
        forall|i: int| 0 <= i < r@.len() ==> {
            let f = files@.filter(|f: String| is_markdown(f@))[i]@;
            &&& (#[trigger] r@[i]).relative_path@ == f
            &&& r@[i].key@ == f.subrange(0, f.len() - 3)
            &&& r@[i].title is None
            &&& r@[i].description is None
        },
{
    let ghost pick = |f: String| is_markdown(f@);
    let mut r: Vec<ListEntry> = Vec::new();
    let mut i: usize = 0;
    assert(files@.subrange(0, 0).filter(pick) =~= Seq::<String>::empty());
    while i < files.len()
        invariant
            i <= files@.len(),
            pick == (|f: String| is_markdown(f@)),
            r@.len() == files@.subrange(0, i as int).filter(pick).len(),
            forall|j: int| 0 <= j < r@.len() ==> {
                let f = files@.subrange(0, i as int).filter(pick)[j]@;
                &&& (#[trigger] r@[j]).relative_path@ == f
                &&& r@[j].key@ == f.subrange(0, f.len() - 3)
                &&& r@[j].title is None
                &&& r@[j].description is None
            },
        decreases files@.len() - i,
    {
        let ghost before = files@.subrange(0, i as int);
        assert(files@.subrange(0, i + 1) =~= before.push(files@[i as int]));
        reveal(Seq::filter);
        assert(files@.subrange(0, i + 1).drop_last() =~= before);
        let f = &files[i];
        let c = chars_of(f.as_str());
        let n = c.len();
        if n >= 3 && span_is(&c, n - 3, n, ".md") {
            let key = String::from_str(f.as_str().substring_char(0, n - 3));
            r.push(ListEntry { key, relative_path: f.clone(), title: None, description: None });
        }
        i += 1;
    }
    assert(files@.subrange(0, files@.len() as int) =~= files@);
    r
}

} // verus!
