//! Plain data types shared by the filesystem drivers.

use vstd::prelude::*;

verus! {

/// Kind of a filesystem node.
#[derive(Debug, Clone, Copy, PartialEq, Eq, Structural)]
pub enum FileType {
    File,
    Directory,
    Symlink,
}

impl FileType {
    pub fn is_file(&self) -> (r: bool)
        ensures
            r == (*self == FileType::File),
    {
        matches!(self, FileType::File)
    }

    pub fn is_dir(&self) -> (r: bool)
        ensures
            r == (*self == FileType::Directory),
    {
        matches!(self, FileType::Directory)
    }

    pub fn is_symlink(&self) -> (r: bool)
        ensures
            r == (*self == FileType::Symlink),
    {
        matches!(self, FileType::Symlink)
    }
}

/// Classifies a node from the two flags a host filesystem reports: a
/// symbolic link wins over a directory, and anything else is a file.
pub fn file_type_from_flags(is_symlink: bool, is_dir: bool) -> (r: FileType)
    ensures
        r == (if is_symlink {
            FileType::Symlink
        } else if is_dir {
            FileType::Directory
        } else {
            FileType::File
        }),
{
    if is_symlink {
        FileType::Symlink
    } else if is_dir {
        FileType::Directory
    } else {
        FileType::File
    }
}

} // verus!

verus! {

/// Wall-clock time: std's natively, the browser's on the web.
#[verifier::external_type_specification]
#[verifier::external_body]
pub struct ExSystemTime(web_time::SystemTime);

/// The failure categories the drivers report.
#[derive(Debug, Clone, Copy, PartialEq, Eq, Structural)]
pub enum ErrorKind {
    NotFound,
    InvalidInput,
    PermissionDenied,
    InvalidData,
    Other,
    Unsupported,
}

/// An I/O failure: its category and a human readable message.
#[derive(Debug)]
pub struct IoError {
    pub kind: ErrorKind,
    pub message: String,
}

/// The value of an [`IoError`].
pub struct ErrView {
    pub kind: ErrorKind,
    pub message: Seq<char>,
}

impl View for IoError {
    type V = ErrView;

    open spec fn view(&self) -> ErrView {
        ErrView { kind: self.kind, message: self.message@ }
    }
}

/// The value of a result whose error is an [`IoError`].
pub open spec fn result_view<T: View>(r: Result<T, IoError>) -> Result<T::V, ErrView> {
    match r {
        Ok(v) => Ok(v@),
        Err(e) => Err(e@),
    }
}

pub open spec fn err_view(kind: ErrorKind, message: Seq<char>) -> ErrView {
    ErrView { kind, message }
}

impl IoError {
    pub open spec fn is(self, kind: ErrorKind, message: Seq<char>) -> bool {
        self.kind == kind && self.message@ == message
    }

    pub fn new(kind: ErrorKind, message: &str) -> (e: IoError)
        ensures
            e.is(kind, message@),
    {
        IoError { kind, message: message.to_owned() }
    }
}

/// Access permissions of a node.
#[derive(Debug, Clone, Copy, PartialEq, Eq, Structural)]
pub struct Permissions {
    pub readonly: bool,
    pub mode: u32,
}

impl Permissions {
    pub fn readonly(&self) -> (r: bool)
        ensures
            r == self.readonly,
    {
        self.readonly
    }

    pub fn set_readonly(&mut self, readonly: bool)
        ensures
            *final(self) == (Permissions { readonly, ..*old(self) }),
    {
        self.readonly = readonly;
    }

    pub fn mode(&self) -> (r: u32)
        ensures
            r == self.mode,
    {
        self.mode
    }

    pub fn set_mode(&mut self, mode: u32)
        ensures
            *final(self) == (Permissions { mode, ..*old(self) }),
    {
        self.mode = mode;
    }
}

/// What a driver reports about one node.
#[derive(Debug, Clone, Copy)]
pub struct Metadata {
    pub len: u64,
    pub file_type: FileType,
    pub readonly: bool,
    pub modified: Option<web_time::SystemTime>,
    pub mode: u32,
    pub nlink: u64,
    pub gid: u32,
}

impl View for Metadata {
    type V = Metadata;

    open spec fn view(&self) -> Metadata {
        *self
    }
}

impl Metadata {
    /// Builds the metadata of a host node from the values the host reports.
    pub fn from_host(
        len: u64,
        is_symlink: bool,
        is_dir: bool,
        readonly: bool,
        modified: Option<web_time::SystemTime>,
        mode: u32,
        nlink: u64,
        gid: u32,
    ) -> (m: Metadata)
        ensures
            m.len == len,
            m.file_type == (if is_symlink {
                FileType::Symlink
            } else if is_dir {
                FileType::Directory
            } else {
                FileType::File
            }),
            m.readonly == readonly,
            m.modified == modified,
            m.mode == mode,
            m.nlink == nlink,
            m.gid == gid,
    {
        Metadata {
            len,
            file_type: file_type_from_flags(is_symlink, is_dir),
            readonly,
            modified,
            mode,
            nlink,
            gid,
        }
    }

    pub fn is_file(&self) -> (r: bool)
        ensures
            r == (self.file_type == FileType::File),
    {
        self.file_type.is_file()
    }

    pub fn is_dir(&self) -> (r: bool)
        ensures
            r == (self.file_type == FileType::Directory),
    {
        self.file_type.is_dir()
    }

    pub fn is_symlink(&self) -> (r: bool)
        ensures
            r == (self.file_type == FileType::Symlink),
    {
        self.file_type.is_symlink()
    }

    pub fn len(&self) -> (r: u64)
        ensures
            r == self.len,
    {
        self.len
    }

    pub fn is_empty(&self) -> (r: bool)
        ensures
            r == (self.len == 0),
    {
        self.len == 0
    }

    pub fn file_type(&self) -> (r: FileType)
        ensures
            r == self.file_type,
    {
        self.file_type
    }

    pub fn modified(&self) -> (r: Result<web_time::SystemTime, IoError>)
        ensures
            match self.modified {
                Some(t) => r == Ok::<web_time::SystemTime, IoError>(t),
                None => r matches Err(e) && e.is(
                    ErrorKind::Unsupported,
                    "modified time not available"@,
                ),
            },
    {
        match self.modified {
            Some(t) => Ok(t),
            None => Err(IoError::new(ErrorKind::Unsupported, "modified time not available")),
        }
    }

    pub fn permissions(&self) -> (r: Permissions)
        ensures
            r == (Permissions { readonly: self.readonly, mode: self.mode }),
    {
        Permissions { readonly: self.readonly, mode: self.mode }
    }

    pub fn nlink(&self) -> (r: u64)
        ensures
            r == self.nlink,
    {
        self.nlink
    }

    pub fn gid(&self) -> (r: u32)
        ensures
            r == self.gid,
    {
        self.gid
    }
}


/// The value of a [`DirEntry`].
pub struct DirEntryView {
    pub path: Seq<char>,
    pub file_name: Seq<char>,
    pub file_type: FileType,
}

/// One entry of a directory listing.
#[derive(Debug)]
pub struct DirEntry {
    pub path: String,
    pub file_name: String,
    pub file_type: FileType,
}

impl View for DirEntry {
    type V = DirEntryView;

    open spec fn view(&self) -> DirEntryView {
        DirEntryView { path: self.path@, file_name: self.file_name@, file_type: self.file_type }
    }
}

impl DirEntry {
    pub fn path(&self) -> (r: String)
        ensures
            r@ == self.path@,
    {
        self.path.clone()
    }

    pub fn file_name(&self) -> (r: String)
        ensures
            r@ == self.file_name@,
    {
        self.file_name.clone()
    }

    pub fn file_type(&self) -> (r: Result<FileType, IoError>)
        ensures
            r == Ok::<FileType, IoError>(self.file_type),
    {
        Ok(self.file_type)
    }

    pub fn duplicate(&self) -> (r: DirEntry)
        ensures
            r@ == self@,
    {
        DirEntry {
            path: self.path.clone(),
            file_name: self.file_name.clone(),
            file_type: self.file_type,
        }
    }
}

/// A directory listing handed out one entry at a time.
pub struct ReadDir {
    pub entries: Vec<DirEntry>,
    pub pos: usize,
}

impl ReadDir {
    pub open spec fn listing(&self) -> Seq<DirEntryView> {
        self.entries@.map_values(|d: DirEntry| d@)
    }

    pub fn new(entries: Vec<DirEntry>) -> (r: ReadDir)
        ensures
            r.listing() == entries@.map_values(|d: DirEntry| d@),
            r.pos == 0,
    {
        ReadDir { entries, pos: 0 }
    }

    /// The next entry, in listing order; `None` once all were handed out.
    pub fn next(&mut self) -> (r: Option<Result<DirEntry, IoError>>)
        ensures
            final(self).listing() == old(self).listing(),
            old(self).pos < old(self).entries.len() ==> {
                &&& final(self).pos == old(self).pos + 1
                &&& r matches Some(Ok(d)) && d@ == old(self).listing()[old(self).pos as int]
            },
            old(self).pos >= old(self).entries.len() ==> r is None && final(self).pos
                == old(self).pos,
    {
        if self.pos < self.entries.len() {
            let entry = self.entries[self.pos].duplicate();
            self.pos = self.pos + 1;
            Some(Ok(entry))
        } else {
            None
        }
    }
}

} // verus!
