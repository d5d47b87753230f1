//! Owns the multi-file working set: a list of paths, a current-index
//! cursor, and the navigation primitives that the colon-prompt dispatch
//! consumes (`:n`, `:p`, `:e`, `:d`, `:x`, `:t`).

use vstd::prelude::*;
use crate::text::string_of;

verus! {

#[derive(Debug, Clone, Copy, PartialEq, Eq, Structural)]
pub enum FileSetError {
    NoNextFile,
    NoPreviousFile,
    WouldEmpty,
}

impl FileSetError {
    /// Human-readable text (what the status line shows).
    pub fn message(&self) -> (s: String)
        ensures
            s@ == (match self {
                FileSetError::NoNextFile => "no next file"@,
                FileSetError::NoPreviousFile => "no previous file"@,
                FileSetError::WouldEmpty => "cannot remove last file"@,
            }),
    {
        match self {
            FileSetError::NoNextFile => String::from_str("no next file"),
            FileSetError::NoPreviousFile => String::from_str("no previous file"),
            FileSetError::WouldEmpty => String::from_str("cannot remove last file"),
        }
    }
}

/// The working set as a value: the paths, in order, and the cursor.
pub struct FileSetModel {
    pub paths: Seq<Seq<char>>,
    pub index: nat,
}

/// The cursor points at an entry, or is 0 for an empty set.
pub open spec fn model_wf(m: FileSetModel) -> bool {
    if m.paths.len() == 0 { m.index == 0 } else { m.index < m.paths.len() }
}

/// `next`: one entry forward, if there is one.
pub open spec fn model_next(m: FileSetModel) -> Result<FileSetModel, FileSetError> {
    if m.index + 1 >= m.paths.len() {
        Err(FileSetError::NoNextFile)
    } else {
        Ok(FileSetModel { paths: m.paths, index: m.index + 1 })
    }
}

/// `prev`: one entry back, if there is one.
pub open spec fn model_prev(m: FileSetModel) -> Result<FileSetModel, FileSetError> {
    if m.index == 0 {
        Err(FileSetError::NoPreviousFile)
    } else {
        Ok(FileSetModel { paths: m.paths, index: (m.index - 1) as nat })
    }
}

/// `delete_current`: drop the entry under the cursor; the cursor stays put,
/// or steps back when it was on the last entry. Refused on one entry.
pub open spec fn model_delete(m: FileSetModel) -> Result<FileSetModel, FileSetError> {
    if m.paths.len() <= 1 {
        Err(FileSetError::WouldEmpty)
    } else {
        let paths = m.paths.remove(m.index as int);
        Ok(FileSetModel {
            paths,
            index: if m.index >= paths.len() { (paths.len() - 1) as nat } else { m.index },
        })
    }
}

#[derive(Debug)]
pub struct FileSet {
    paths: Vec<String>,
    current_index: usize,
}

impl View for FileSet {
    type V = FileSetModel;

    closed spec fn view(&self) -> FileSetModel {
        FileSetModel {
            paths: self.paths@.map_values(|p: String| p@),
            index: self.current_index as nat,
        }
    }
}

impl Clone for FileSet {
    fn clone(&self) -> (c: Self)
        ensures
            c@ == self@,
    {
        proof { use_type_invariant(self); }
        let paths = self.paths.clone();
        proof {
            assert(paths@.map_values(|p: String| p@) =~= self.paths@.map_values(|p: String| p@));
        }
        FileSet { paths, current_index: self.current_index }
    }
}

impl FileSet {
    #[verifier::type_invariant]
    closed spec fn inv(self) -> bool {
        if self.paths@.len() == 0 {
            self.current_index == 0
        } else {
            self.current_index < self.paths@.len()
        }
    }

    /// Construct with the initial path list, cursor on the first entry. An
    /// empty list is valid (stdin startup); navigation then fails.
    pub fn new(paths: Vec<String>) -> (s: Self)
        ensures
            s@.paths == paths@.map_values(|p: String| p@),
            s@.index == 0,
            model_wf(s@),
    {
        Self { paths, current_index: 0 }
    }

    pub fn current(&self) -> (r: Option<&str>)
        ensures
            self@.paths.len() == 0 ==> r is None,
            self@.paths.len() > 0 ==> (r matches Some(p) && p@ == self@.paths[self@.index as int]),
    {
        proof { use_type_invariant(self); }
        if self.current_index < self.paths.len() {
            Some(self.paths[self.current_index].as_str())
        } else {
            None
        }
    }

    /// Total number of files in the set.
    pub fn len(&self) -> (n: usize)
        ensures
            n == self@.paths.len(),
    {
        self.paths.len()
    }

    pub fn current_index(&self) -> (i: usize)
        ensures
            i == self@.index,
    {
        self.current_index
    }

    pub fn is_empty(&self) -> (b: bool)
        ensures
            b == (self@.paths.len() == 0),
    {
        self.paths.len() == 0
    }

    /// Set the cursor directly. Out-of-range indices are clamped to the
    /// last entry (no-op if the list is empty).
    pub fn set_current_index(&mut self, index: usize)
        ensures
            final(self)@.paths == old(self)@.paths,
            final(self)@.index == (if old(self)@.paths.len() == 0 {
                old(self)@.index
            } else if index < old(self)@.paths.len() {
                index as nat
            } else {
                (old(self)@.paths.len() - 1) as nat
            }),
            model_wf(final(self)@),
    {
        proof { use_type_invariant(&*self); }
        if self.paths.len() == 0 {
            return;
        }
        let last = self.paths.len() - 1;
        self.current_index = if index < last { index } else { last };
    }

    /// Advance to the next file, returning the new current path, or
    /// `NoNextFile` (cursor unchanged) at the last entry.
    pub fn next(&mut self) -> (r: Result<&str, FileSetError>)
        ensures
            match model_next(old(self)@) {
                Ok(m) => final(self)@ == m && (r matches Ok(p) && p@ == m.paths[m.index as int]),
                Err(e) => final(self)@ == old(self)@ && r == Err::<&str, FileSetError>(e),
            },
            model_wf(final(self)@),
    {
        proof { use_type_invariant(&*self); }
        if self.current_index >= self.paths.len() || self.paths.len() - self.current_index <= 1 {
            return Err(FileSetError::NoNextFile);
        }
        self.current_index = self.current_index + 1;
        Ok(self.paths[self.current_index].as_str())
    }

    /// Move to the previous file, returning the new current path, or
    /// `NoPreviousFile` (cursor unchanged) at the first entry.
    pub fn prev(&mut self) -> (r: Result<&str, FileSetError>)
        ensures
            match model_prev(old(self)@) {
                Ok(m) => final(self)@ == m && (r matches Ok(p) && p@ == m.paths[m.index as int]),
                Err(e) => final(self)@ == old(self)@ && r == Err::<&str, FileSetError>(e),
            },
            model_wf(final(self)@),
    {
        proof { use_type_invariant(&*self); }
        if self.current_index == 0 {
            return Err(FileSetError::NoPreviousFile);
        }
        self.current_index = self.current_index - 1;
        Ok(self.paths[self.current_index].as_str())
    }

    /// Jump to the first file; `None` (and no change) when empty.
    pub fn first(&mut self) -> (r: Option<&str>)
        ensures
            final(self)@.paths == old(self)@.paths,
            old(self)@.paths.len() == 0 ==> r is None && final(self)@ == old(self)@,
            old(self)@.paths.len() > 0 ==> (final(self)@.index == 0
                && (r matches Some(p) && p@ == old(self)@.paths[0])),
            model_wf(final(self)@),
    {
        proof { use_type_invariant(&*self); }
        if self.paths.len() == 0 {
            return None;
        }
        self.current_index = 0;
        Some(self.paths[0].as_str())
    }

    /// Jump to the last file; `None` (and no change) when empty.
    pub fn last(&mut self) -> (r: Option<&str>)
        ensures
            final(self)@.paths == old(self)@.paths,
            old(self)@.paths.len() == 0 ==> r is None && final(self)@ == old(self)@,
            old(self)@.paths.len() > 0 ==> (final(self)@.index == old(self)@.paths.len() - 1
                && (r matches Some(p) && p@ == old(self)@.paths.last())),
            model_wf(final(self)@),
    {
        proof { use_type_invariant(&*self); }
        if self.paths.len() == 0 {
            return None;
        }
        self.current_index = self.paths.len() - 1;
        Some(self.paths[self.current_index].as_str())
    }

    /// Append `path` to the list and switch the cursor to it.
    pub fn append_and_switch(&mut self, path: String) -> (r: &str)
        requires
            old(self)@.paths.len() < usize::MAX,
        ensures
            final(self)@.paths == old(self)@.paths.push(path@),
            final(self)@.index == old(self)@.paths.len(),
            r@ == path@,
            model_wf(final(self)@),
    {
        proof { use_type_invariant(&*self); }
        let mut tmp = FileSet { paths: Vec::new(), current_index: 0 };
        std::mem::swap(&mut tmp, self);
        let FileSet { mut paths, current_index: _ } = tmp;
        paths.push(path);
        let idx = paths.len() - 1;
        *self = FileSet { paths, current_index: idx };
        proof {
            assert(self.paths@.map_values(|p: String| p@)
                =~= old(self).paths@.map_values(|p: String| p@).push(path@));
        }
        self.paths[self.current_index].as_str()
    }

    /// Delete the current entry and move the cursor to the next file (or
    /// back to the previous if it was the last). `WouldEmpty` (and no change)
    /// when only one file remains.
    pub fn delete_current(&mut self) -> (r: Result<&str, FileSetError>)
        ensures
            match model_delete(old(self)@) {
                Ok(m) => final(self)@ == m && (r matches Ok(p) && p@ == m.paths[m.index as int]),
                Err(e) => final(self)@ == old(self)@ && r == Err::<&str, FileSetError>(e),
            },
            model_wf(final(self)@),
    {
        proof { use_type_invariant(&*self); }
        if self.paths.len() <= 1 {
            return Err(FileSetError::WouldEmpty);
        }
        let ghost old_paths = self.paths@;
        let mut tmp = FileSet { paths: Vec::new(), current_index: 0 };
        std::mem::swap(&mut tmp, self);
        let FileSet { mut paths, current_index: cur } = tmp;
        paths.remove(cur);
        let mut idx = cur;
        if idx >= paths.len() {
            idx = paths.len() - 1;
        }
        *self = FileSet { paths, current_index: idx };
        proof {
            assert(self.paths@.map_values(|p: String| p@)
                =~= old_paths.map_values(|p: String| p@).remove(old(self).current_index as int));
        }
        Ok(self.paths[self.current_index].as_str())
    }
}

/// `next` and `prev` undo each other: stepping forward and then back (or
/// back and then forward) returns to the same file set.
pub proof fn lemma_next_prev_inverse(m: FileSetModel)
    requires
        model_wf(m),
    ensures
        model_next(m) matches Ok(m2) ==> model_prev(m2) == Ok::<FileSetModel, FileSetError>(m),
        model_prev(m) matches Ok(m2) ==> model_next(m2) == Ok::<FileSetModel, FileSetError>(m),
{
}

/// Every navigation step keeps the cursor on an entry.
pub proof fn lemma_steps_keep_wf(m: FileSetModel)
    requires
        model_wf(m),
    ensures
        model_next(m) matches Ok(m2) ==> model_wf(m2),
        model_prev(m) matches Ok(m2) ==> model_wf(m2),
        model_delete(m) matches Ok(m2) ==> model_wf(m2) && m2.paths.len() + 1 == m.paths.len(),
{
}

/// One operation on a file set, as a value.
pub enum FileSetStep {
    SetCurrentIndex(nat),
    Next,
    Prev,
    First,
    Last,
    AppendAndSwitch(Seq<char>),
    DeleteCurrent,
}

/// What one operation does to the file set, as its method states it (a
/// refused step leaves the set as it was).
pub open spec fn model_step(m: FileSetModel, op: FileSetStep) -> FileSetModel {
    match op {
        FileSetStep::SetCurrentIndex(i) => FileSetModel {
            paths: m.paths,
            index: if m.paths.len() == 0 { m.index } else if i < m.paths.len() { i } else { (m.paths.len() - 1) as nat },
        },
        FileSetStep::Next => match model_next(m) { Ok(n) => n, Err(_) => m },
        FileSetStep::Prev => match model_prev(m) { Ok(n) => n, Err(_) => m },
        FileSetStep::First => if m.paths.len() == 0 { m } else { FileSetModel { paths: m.paths, index: 0 } },
        FileSetStep::Last => if m.paths.len() == 0 { m } else { FileSetModel { paths: m.paths, index: (m.paths.len() - 1) as nat } },
        FileSetStep::AppendAndSwitch(p) => FileSetModel { paths: m.paths.push(p), index: m.paths.len() },
        FileSetStep::DeleteCurrent => match model_delete(m) { Ok(n) => n, Err(_) => m },
    }
}

/// The file set after a sequence of operations.
pub open spec fn model_steps(m: FileSetModel, ops: Seq<FileSetStep>) -> FileSetModel
    decreases ops.len(),
{
    if ops.len() == 0 { m } else { model_step(model_steps(m, ops.drop_last()), ops.last()) }
}

/// A file set that starts with at least one path keeps its cursor on an
/// entry and never becomes empty, whatever operations follow: there is
/// always a current file.
pub proof fn lemma_never_empty(m: FileSetModel, ops: Seq<FileSetStep>)
    requires
        model_wf(m),
        m.paths.len() > 0,
    ensures
        model_wf(model_steps(m, ops)),
        model_steps(m, ops).paths.len() > 0,
    decreases ops.len(),
{
    if ops.len() > 0 {
        lemma_never_empty(m, ops.drop_last());
    }
}

} // verus!
