//! The records that go in and out: what the storage backend reports of an
//! object, and what a caller is told of it.

use vstd::prelude::*;

verus! {

/// One object or directory as the storage backend reports it, at any depth
/// below the directory that was asked for.
#[derive(Clone, Debug, PartialEq, Eq)]
pub struct RawEntry {
    /// The full path of the object, as reported.
    pub path: String,
    /// Its length in bytes.
    pub size: u64,
    /// Whether it is a directory.
    pub is_dir: bool,
    /// When it was last modified, if the backend says.
    pub last_modified: Option<String>,
}

/// One object or directory as handed to the caller.
#[derive(Clone, Debug, PartialEq, Eq)]
pub struct FileEntry {
    /// The full path of the object.
    pub path: String,
    /// Its display name: the last segment of its path.
    pub name: String,
    /// Its length in bytes.
    pub size: u64,
    /// Whether it is a directory.
    pub is_dir: bool,
    /// When it was last modified, if known.
    pub last_modified: Option<String>,
}

/// A `RawEntry` as a mathematical value.
pub ghost struct RawEntryView {
    pub path: Seq<char>,
    pub size: u64,
    pub is_dir: bool,
    pub last_modified: Option<Seq<char>>,
}

/// A `FileEntry` as a mathematical value.
pub ghost struct FileEntryView {
    pub path: Seq<char>,
    pub name: Seq<char>,
    pub size: u64,
    pub is_dir: bool,
    pub last_modified: Option<Seq<char>>,
}

/// The characters of an optional string.
pub open spec fn text_view(text: Option<String>) -> Option<Seq<char>> {
    match text {
        Some(s) => Some(s@),
        None => None,
    }
}

impl View for RawEntry {
    type V = RawEntryView;

    open spec fn view(&self) -> RawEntryView {
        RawEntryView {
            path: self.path@,
            size: self.size,
            is_dir: self.is_dir,
            last_modified: text_view(self.last_modified),
        }
    }
}

impl DeepView for RawEntry {
    type V = RawEntryView;

    open spec fn deep_view(&self) -> RawEntryView {
        self.view()
    }
}

impl View for FileEntry {
    type V = FileEntryView;

    open spec fn view(&self) -> FileEntryView {
        FileEntryView {
            path: self.path@,
            name: self.name@,
            size: self.size,
            is_dir: self.is_dir,
            last_modified: text_view(self.last_modified),
        }
    }
}

impl DeepView for FileEntry {
    type V = FileEntryView;

    open spec fn deep_view(&self) -> FileEntryView {
        self.view()
    }
}

impl FileEntryView {
    /// The entry without its name: what the backend would report of it.
    pub open spec fn raw(self) -> RawEntryView {
        RawEntryView {
            path: self.path,
            size: self.size,
            is_dir: self.is_dir,
            last_modified: self.last_modified,
        }
    }
}

impl RawEntryView {
    /// The entry under the display name `name`.
    pub open spec fn named(self, name: Seq<char>) -> FileEntryView {
        FileEntryView {
            path: self.path,
            name,
            size: self.size,
            is_dir: self.is_dir,
            last_modified: self.last_modified,
        }
    }
}

/// A copy of an optional string.
pub fn clone_text(text: &Option<String>) -> (copy: Option<String>)
    ensures
        text_view(copy) == text_view(*text),
{
    match text {
        Some(s) => Some(s.clone()),
        None => None,
    }
}

impl RawEntry {
    /// The entry under the display name `name`, all else copied.
    pub fn named(&self, name: String) -> (entry: FileEntry)
        ensures
            entry@ == self@.named(name@),
    {
        FileEntry {
            path: self.path.clone(),
            name,
            size: self.size,
            is_dir: self.is_dir,
            last_modified: clone_text(&self.last_modified),
        }
    }
}

impl FileEntry {
    /// The entry without its name: what the backend would report of it.
    pub fn raw(&self) -> (raw: RawEntry)
        ensures
            raw@ == self@.raw(),
    {
        RawEntry {
            path: self.path.clone(),
            size: self.size,
            is_dir: self.is_dir,
            last_modified: clone_text(&self.last_modified),
        }
    }
}

} // verus!
