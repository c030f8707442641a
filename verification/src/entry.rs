//! The values that pass between a walk and its caller: what the caller read
//! of one directory entry, and the record that the walk keeps of a match.

use vstd::prelude::*;

verus! {

/// What a directory entry is, symbolic links not followed.
#[derive(Clone, Copy, Debug, PartialEq, Eq)]
pub enum FileKind {
    /// A regular file.
    Regular,
    /// A directory.
    Directory,
    /// A symbolic link, whatever it points to.
    Symlink,
    /// Anything else: a device, a socket, a pipe.
    Other,
}

/// One entry of a directory, as the caller read it.
#[derive(Clone, Debug, PartialEq, Eq)]
pub struct DirItem {
    /// The entry's base name, if it is valid Unicode.
    pub name: Option<String>,
    /// The entry's full path.
    pub path: String,
    /// What the entry is.
    pub kind: FileKind,
    /// Numeric id of the owning user.
    pub uid: u32,
    /// Size in bytes.
    pub size: u64,
    /// The first bytes of the file's contents; empty for an entry that is no
    /// regular file or could not be read.
    pub head: Vec<u8>,
}

/// Mathematical value of a [`DirItem`].
pub struct DirItemView {
    pub name: Option<Seq<char>>,
    pub path: Seq<char>,
    pub kind: FileKind,
    pub uid: u32,
    pub size: u64,
    pub head: Seq<u8>,
}

impl View for DirItem {
    type V = DirItemView;

    open spec fn view(&self) -> DirItemView {
        DirItemView {
            name: match self.name {
                Some(name) => Some(name@),
                None => None,
            },
            path: self.path@,
            kind: self.kind,
            uid: self.uid,
            size: self.size,
            head: self.head@,
        }
    }
}

/// A file that a walk matched.
#[derive(Clone, Debug, PartialEq, Eq)]
pub struct FileEntry {
    /// The file's full path.
    pub path: String,
    /// Numeric id of the owning user.
    pub uid: u32,
    /// Size in bytes.
    pub size: u64,
    /// Whether the entry is a directory.
    pub is_dir: bool,
}

/// Mathematical value of a [`FileEntry`].
pub struct FileEntryView {
    pub path: Seq<char>,
    pub uid: u32,
    pub size: u64,
    pub is_dir: bool,
}

impl View for FileEntry {
    type V = FileEntryView;

    open spec fn view(&self) -> FileEntryView {
        FileEntryView { path: self.path@, uid: self.uid, size: self.size, is_dir: self.is_dir }
    }
}

/// The values of a sequence of directory entries.
pub open spec fn item_views(items: Seq<DirItem>) -> Seq<DirItemView> {
    items.map_values(|item: DirItem| item@)
}

/// The values of a sequence of matched files.
pub open spec fn entry_views(entries: Seq<FileEntry>) -> Seq<FileEntryView> {
    entries.map_values(|entry: FileEntry| entry@)
}

/// The record that a walk keeps of a directory entry.
pub open spec fn entry_of(item: DirItemView) -> FileEntryView {
    FileEntryView {
        path: item.path,
        uid: item.uid,
        size: item.size,
        is_dir: item.kind is Directory,
    }
}

impl FileEntry {
    /// Makes the record of `item`.
    pub fn of_item(item: &DirItem) -> (entry: FileEntry)
        ensures
            entry@ == entry_of(item@),
    {
        let is_dir = match item.kind {
            FileKind::Directory => true,
            _ => false,
        };
        FileEntry { path: item.path.clone(), uid: item.uid, size: item.size, is_dir }
    }
}

} // verus!
