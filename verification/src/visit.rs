//! What the finder does with one path: the steps of a unit of the traversal,
//! from the first look at the path to the end of its processing.

use crate::finder::Finder;
use crate::text::{file_name, file_name_of};
use vstd::prelude::*;

verus! {

/// What the file system holds at a path.
#[derive(Clone, Copy, Debug, PartialEq, Eq, Structural)]
pub enum EntryKind {
    File,
    Directory,
    /// Neither a file nor a directory.
    Other,
}

/// Where a unit goes once its path has been looked at.
#[derive(Clone, Copy, Debug, PartialEq, Eq, Structural)]
pub enum Classified {
    /// Nothing could be read about the path: the unit ends with a warning.
    Failed,
    /// The path is a directory to be entered.
    ProcessDirectory { first: bool },
    /// The path is a file to be tested.
    ProcessFile { first: bool },
    /// The path is nothing that the search handles: the unit ends.
    Invalid,
}

/// What becomes of a directory.
#[derive(Clone, Copy, Debug, PartialEq, Eq, Structural)]
pub enum DirectoryStep {
    /// It could not be told whether the directory is hidden: the unit ends
    /// with a warning.
    Failed,
    /// The directory is hidden and is passed over, with all that lies in it.
    Ignored,
    /// The entries of the directory are to be listed.
    List,
}

/// What becomes of a file.
#[derive(Clone, Copy, Debug, PartialEq, Eq, Structural)]
pub enum FileStep {
    /// It could not be told whether the file is hidden: the unit ends with a
    /// warning.
    Failed,
    /// The file is hidden and is passed over.
    Ignored,
    /// The path has no final component to go by.
    Unnamed,
    /// The file is not one that the finder reports.
    Unmatched,
    /// The file is to be reported.
    Selected,
}

/// A path that the caller names has to be a file or a directory.
pub open spec fn valid_root(kind: Option<EntryKind>) -> bool {
    kind == Some(EntryKind::File) || kind == Some(EntryKind::Directory)
}

/// `i` is the place of the first path that is neither a file nor a directory.
pub open spec fn is_first_invalid(kinds: Seq<Option<EntryKind>>, i: int) -> bool {
    &&& 0 <= i < kinds.len()
    &&& !valid_root(kinds[i])
    &&& forall|j: int| 0 <= j < i ==> valid_root(#[trigger] kinds[j])
}

/// Whether a path that the caller named can be searched: whether it is a
/// file or a directory.
pub fn is_valid_root(kind: Option<EntryKind>) -> (valid: bool)
    ensures
        valid == valid_root(kind),
{
    match kind {
        Some(EntryKind::File) => true,
        Some(EntryKind::Directory) => true,
        Some(EntryKind::Other) => false,
        None => false,
    }
}

/// The place of the first of the paths that the caller named which cannot be
/// searched; `None` where every one can, and the traversal may begin.
pub fn first_invalid_root(kinds: &Vec<Option<EntryKind>>) -> (invalid: Option<usize>)
    ensures
        match invalid {
            Some(i) => is_first_invalid(kinds@, i as int),
            None => forall|j: int| 0 <= j < kinds@.len() ==> valid_root(#[trigger] kinds@[j]),
        },
{
    let mut i: usize = 0;
    while i < kinds.len()
        invariant
            i <= kinds.len(),
            forall|j: int| 0 <= j < i ==> valid_root(#[trigger] kinds@[j]),
        decreases kinds.len() - i,
    {
        if !is_valid_root(kinds[i]) {
            return Some(i);
        }
        i = i + 1;
    }
    None
}

impl Finder {
    /// Where a unit goes from the kind of its path; `kind` is `None` where
    /// the path's metadata could not be read. A directory is entered only by
    /// a finder that enters directories.
    pub open spec fn classify(&self, first: bool, kind: Option<EntryKind>) -> Classified {
        match kind {
            None => Classified::Failed,
            Some(EntryKind::Directory) => if self.recurse() {
                Classified::ProcessDirectory { first }
            } else {
                Classified::Invalid
            },
            Some(EntryKind::File) => Classified::ProcessFile { first },
            Some(EntryKind::Other) => Classified::Invalid,
        }
    }

    /// Whether the hidden filter stops an entry. A path that the caller
    /// named is never stopped; another one is stopped when it is hidden and
    /// the finder leaves hidden entries out.
    pub open spec fn stops_hidden(&self, first: bool, hidden: Option<bool>) -> bool {
        !first && hidden == Some(true) && !self.include_hidden()
    }

    /// What becomes of a directory; `hidden` is `None` where it could not be
    /// told whether the directory is hidden.
    pub open spec fn directory_step(&self, first: bool, hidden: Option<bool>) -> DirectoryStep {
        if !first && hidden is None {
            DirectoryStep::Failed
        } else if self.stops_hidden(first, hidden) {
            DirectoryStep::Ignored
        } else {
            DirectoryStep::List
        }
    }

    /// What becomes of the file at `path`; `hidden` is `None` where it could
    /// not be told whether the file is hidden.
    pub open spec fn file_step(&self, path: Seq<char>, first: bool, hidden: Option<bool>) -> FileStep {
        if !first && hidden is None {
            FileStep::Failed
        } else if self.stops_hidden(first, hidden) {
            FileStep::Ignored
        } else {
            match file_name(path) {
                None => FileStep::Unnamed,
                Some(name) => if self.selects(name) {
                    FileStep::Selected
                } else {
                    FileStep::Unmatched
                },
            }
        }
    }

    /// Classifies the path of a unit, by what its metadata says it is.
    pub fn find_in_directory_impl(&self, first: bool, kind: Option<EntryKind>) -> (next:
        Classified)
        ensures
            next == self.classify(first, kind),
    {
        match kind {
            None => Classified::Failed,
            Some(EntryKind::Directory) => if self.is_recursive() {
                Classified::ProcessDirectory { first }
            } else {
                Classified::Invalid
            },
            Some(EntryKind::File) => Classified::ProcessFile { first },
            Some(EntryKind::Other) => Classified::Invalid,
        }
    }

    /// Classifies a path that the caller named.
    pub fn find_in_directory_first(&self, kind: Option<EntryKind>) -> (next: Classified)
        ensures
            next == self.classify(true, kind),
    {
        self.find_in_directory_impl(true, kind)
    }

    /// Classifies a path that the traversal came upon in a directory.
    pub fn find_in_directory_left(&self, kind: Option<EntryKind>) -> (next: Classified)
        ensures
            next == self.classify(false, kind),
    {
        self.find_in_directory_impl(false, kind)
    }

    /// Decides whether a directory is entered.
    pub fn process_directory_impl(&self, first: bool, hidden: Option<bool>) -> (step:
        DirectoryStep)
        ensures
            step == self.directory_step(first, hidden),
    {
        if first {
            DirectoryStep::List
        } else {
            match hidden {
                None => DirectoryStep::Failed,
                Some(hidden) => if !hidden || self.includes_hidden() {
                    DirectoryStep::List
                } else {
                    DirectoryStep::Ignored
                },
            }
        }
    }

    /// Decides whether a directory that the caller named is entered: it
    /// always is.
    pub fn process_directory_frist(&self, hidden: Option<bool>) -> (step: DirectoryStep)
        ensures
            step == self.directory_step(true, hidden),
            step == DirectoryStep::List,
    {
        self.process_directory_impl(true, hidden)
    }

    /// Decides whether a directory that the traversal came upon is entered.
    pub fn process_directory_left(&self, hidden: Option<bool>) -> (step: DirectoryStep)
        ensures
            step == self.directory_step(false, hidden),
    {
        self.process_directory_impl(false, hidden)
    }

    /// Decides whether the file at `path` is reported.
    pub fn process_file(&self, path: &str, first: bool, hidden: Option<bool>) -> (step: FileStep)
        ensures
            step == self.file_step(path@, first, hidden),
    {
        if !first && hidden.is_none() {
            return FileStep::Failed;
        }
        if !first && !self.includes_hidden() {
            if let Some(true) = hidden {
                return FileStep::Ignored;
            }
        }
        match file_name_of(path) {
            None => FileStep::Unnamed,
            Some(name) => if self.matches(name.as_str()) {
                FileStep::Selected
            } else {
                FileStep::Unmatched
            },
        }
    }
}

} // verus!
