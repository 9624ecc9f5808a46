//! The operation adapter: exact semantics for the logical file operations —
//! open, read-at-offset, write-at-offset, fsync, stat, close — over a store
//! of files held as plain bytes. Both execution paths are proved against
//! these semantics. Buffers travel by ownership: a read or write takes its
//! buffer by value and hands it back attached to the completion, so a
//! buffer can never be freed or aliased while an operation is in flight.

use crate::error::FsError;
use vstd::prelude::*;

verus! {

/// Permission bits reported for a writable file.
pub const PERM_RW: u32 = 0o644;
/// Permission bits reported for a read-only file.
pub const PERM_RO: u32 = 0o444;

/// One file of the store: a path name, its contents, and what the stat
/// fields need.
pub struct FileEntry {
    /// The path, as a plain name.
    pub path: u64,
    /// The contents.
    pub data: Vec<u8>,
    /// Whether writes are permitted.
    pub writable: bool,
    /// Whether the device reports a failure when this file is flushed.
    pub flush_error: bool,
    /// When the file was last created, truncated or written, on the
    /// store's logical clock.
    pub modified_time: u64,
}

/// The mathematical value of one file.
pub struct FileModel {
    /// The contents.
    pub data: Seq<u8>,
    /// Whether writes are permitted.
    pub writable: bool,
    /// Whether flushing this file fails.
    pub flush_error: bool,
    /// Last modification, on the store's logical clock.
    pub modified_time: u64,
}

impl FileEntry {
    /// The file as a mathematical value.
    pub open spec fn model(self) -> FileModel {
        FileModel {
            data: self.data@,
            writable: self.writable,
            flush_error: self.flush_error,
            modified_time: self.modified_time,
        }
    }
}

/// What stat reports of a file.
#[derive(Clone, Copy, Debug, PartialEq, Eq, Structural)]
pub struct Metadata {
    /// Size in bytes.
    pub size: u64,
    /// Last modification, on the store's logical clock.
    pub modified_time: u64,
    /// Whether the target is a directory; the store holds regular files.
    pub is_dir: bool,
    /// Permission bits.
    pub permissions: u32,
}

/// How a file is to be opened.
#[derive(Clone, Copy, Debug, PartialEq, Eq, Structural)]
pub struct OpenOptions {
    /// Open for reading.
    pub read: bool,
    /// Open for writing.
    pub write: bool,
    /// Create the file if it does not exist.
    pub create: bool,
    /// Create the file, failing if it already exists.
    pub create_new: bool,
    /// Truncate the file to empty on open.
    pub truncate: bool,
}

impl OpenOptions {
    /// Read an existing file, as `File::open` does.
    pub fn for_read() -> (o: OpenOptions)
        ensures
            o == (OpenOptions {
                read: true,
                write: false,
                create: false,
                create_new: false,
                truncate: false,
            }),
    {
        OpenOptions { read: true, write: false, create: false, create_new: false, truncate: false }
    }

    /// Create or truncate a file for writing, as `File::create` does.
    pub fn for_create() -> (o: OpenOptions)
        ensures
            o == (OpenOptions {
                read: false,
                write: true,
                create: true,
                create_new: false,
                truncate: true,
            }),
    {
        OpenOptions { read: false, write: true, create: true, create_new: false, truncate: true }
    }
}

/// An open file. The handle is not cloneable and `close` consumes it, so a
/// handle cannot be closed twice: single ownership makes the misuse
/// unwritable rather than detected.
pub struct FileHandle {
    path: u64,
}

impl FileHandle {
    /// The path this handle was opened on.
    pub closed spec fn spec_path(self) -> u64 {
        self.path
    }

    /// The path this handle was opened on.
    pub fn path(&self) -> (p: u64)
        ensures
            p == self.spec_path(),
    {
        self.path
    }

    /// Releases the handle. Consumes it, so a second close of the same
    /// handle cannot be written.
    pub fn close(self) {
    }
}

/// The store's logical clock after one mutation.
pub open spec fn tick(c: u64) -> u64 {
    if c == u64::MAX {
        c
    } else {
        (c + 1) as u64
    }
}

/// How many bytes a read at `offset` with a buffer of `buflen` bytes
/// transfers: the lesser of the buffer length and what the file holds from
/// `offset` on. Fewer than `buflen` is a short transfer, a success.
pub open spec fn read_count(data: Seq<u8>, buflen: int, offset: int) -> int {
    let avail = if offset >= data.len() {
        0int
    } else {
        data.len() - offset
    };
    if buflen <= avail {
        buflen
    } else {
        avail
    }
}

/// The buffer after a read: its first `read_count` bytes are the file's
/// bytes from `offset` on, and the rest keeps what the buffer held.
pub open spec fn read_fill(data: Seq<u8>, buf: Seq<u8>, offset: int) -> Seq<u8> {
    Seq::new(
        buf.len(),
        |i: int|
            if i < read_count(data, buf.len() as int, offset) {
                data[offset + i]
            } else {
                buf[i]
            },
    )
}

/// The file after a write of `buf` at `offset`: bytes below `offset` are
/// kept, a gap between the old end and `offset` is zero-filled, and the
/// file grows if the write reaches past its end.
pub open spec fn write_fill(data: Seq<u8>, buf: Seq<u8>, offset: int) -> Seq<u8> {
    let full = if data.len() >= offset + buf.len() {
        data.len() as int
    } else {
        offset + buf.len()
    };
    Seq::new(
        full as nat,
        |i: int|
            if offset <= i < offset + buf.len() {
                buf[i - offset]
            } else if i < data.len() {
                data[i]
            } else {
                0u8
            },
    )
}

/// The store of files the operations act on, keyed by path.
pub struct FileStore {
    files: Vec<FileEntry>,
    clock: u64,
}

impl FileStore {
    /// The files, in insertion order.
    pub closed spec fn entries(self) -> Seq<FileEntry> {
        self.files@
    }

    /// The logical clock: how many mutations the store has seen.
    pub closed spec fn spec_clock(self) -> u64 {
        self.clock
    }

    /// Well-formed: no two files share a path.
    pub open spec fn wf(self) -> bool {
        forall|i: int, j: int|
            0 <= i < j < self.entries().len() ==> self.entries()[i].path != self.entries()[j].path
    }

    /// Whether a file with this path exists.
    pub open spec fn has_path(self, path: u64) -> bool {
        exists|i: int| 0 <= i < self.entries().len() && self.entries()[i].path == path
    }

    /// The position of the file with this path.
    pub closed spec fn idx_of(self, path: u64) -> int {
        choose|i: int| 0 <= i < self.entries().len() && self.entries()[i].path == path
    }

    /// The file with this path, as a mathematical value.
    pub open spec fn model_of(self, path: u64) -> FileModel {
        self.entries()[self.idx_of(path)].model()
    }

    /// The contents of the file with this path.
    pub open spec fn data_of(self, path: u64) -> Seq<u8> {
        self.model_of(path).data
    }

    /// In a well-formed store, the position of a path is the position of
    /// any entry carrying it.
    pub proof fn lemma_idx(self, path: u64, i: int)
        requires
            self.wf(),
            0 <= i < self.entries().len(),
            self.entries()[i].path == path,
        ensures
            self.has_path(path),
            self.idx_of(path) == i,
    {
        assert(self.has_path(path));
        let k = self.idx_of(path);
        assert(0 <= k < self.entries().len() && self.entries()[k].path == path);
        if k != i {
            if k < i {
                assert(self.entries()[k].path != self.entries()[i].path);
            } else {
                assert(self.entries()[i].path != self.entries()[k].path);
            }
        }
    }

    /// An empty store.
    pub fn new() -> (s: FileStore)
        ensures
            s.wf(),
            s.entries().len() == 0,
            s.spec_clock() == 0,
            forall|q: u64| !s.has_path(q),
    {
        FileStore { files: Vec::new(), clock: 0 }
    }

    fn find_idx(&self, path: u64) -> (r: Option<usize>)
        requires
            self.wf(),
        ensures
            match r {
                Option::Some(i) => i < self.entries().len() && self.entries()[i as int].path
                    == path && self.has_path(path) && self.idx_of(path) == i,
                Option::None => !self.has_path(path),
            },
    {
        let mut i: usize = 0;
        while i < self.files.len()
            invariant
                self.wf(),
                i <= self.entries().len(),
                forall|j: int| 0 <= j < i ==> self.entries()[j].path != path,
            decreases self.entries().len() - i,
        {
            if self.files[i].path == path {
                proof {
                    self.lemma_idx(path, i as int);
                }
                return Option::Some(i);
            }
            i = i + 1;
        }
        Option::None
    }
}

/// Every file but `path` reads the same in `post` as in `pre`.
pub open spec fn frame_except(pre: FileStore, post: FileStore, path: u64) -> bool {
    &&& forall|q: u64| q != path ==> post.has_path(q) == pre.has_path(q)
    &&& forall|q: u64| q != path && pre.has_path(q) ==> post.model_of(q) == pre.model_of(q)
}

/// Which error an open with these options meets, if any.
pub open spec fn open_error(pre: FileStore, path: u64, opts: OpenOptions) -> Option<FsError> {
    if opts.create_new && pre.has_path(path) {
        Option::Some(FsError::AlreadyExists)
    } else if !pre.has_path(path) && !opts.create && !opts.create_new {
        Option::Some(FsError::NotFound)
    } else if pre.has_path(path) && (opts.write || opts.truncate) && !pre.model_of(
        path,
    ).writable {
        Option::Some(FsError::PermissionDenied)
    } else {
        Option::None
    }
}

/// The store after an open that succeeds: a missing file is created empty
/// and writable; an existing one is truncated if asked, else untouched.
pub open spec fn open_ok_post(pre: FileStore, path: u64, opts: OpenOptions, post: FileStore) -> bool {
    &&& post.wf()
    &&& post.has_path(path)
    &&& frame_except(pre, post, path)
    &&& if !pre.has_path(path) {
        post.model_of(path) == (FileModel {
            data: Seq::<u8>::empty(),
            writable: true,
            flush_error: false,
            modified_time: pre.spec_clock(),
        }) && post.spec_clock() == tick(pre.spec_clock())
    } else if opts.truncate {
        post.model_of(path) == (FileModel {
            data: Seq::<u8>::empty(),
            writable: pre.model_of(path).writable,
            flush_error: pre.model_of(path).flush_error,
            modified_time: pre.spec_clock(),
        }) && post.spec_clock() == tick(pre.spec_clock())
    } else {
        post == pre
    }
}

/// The store after a write that succeeds: the file's bytes are rewritten,
/// its modification time is the clock of the write, and nothing else moves.
pub open spec fn write_ok_post(
    pre: FileStore,
    path: u64,
    buf: Seq<u8>,
    offset: int,
    post: FileStore,
) -> bool {
    &&& post.wf()
    &&& post.has_path(path)
    &&& frame_except(pre, post, path)
    &&& post.model_of(path) == (FileModel {
        data: write_fill(pre.data_of(path), buf, offset),
        writable: pre.model_of(path).writable,
        flush_error: pre.model_of(path).flush_error,
        modified_time: pre.spec_clock(),
    })
    &&& post.spec_clock() == tick(pre.spec_clock())
}

impl FileStore {
    /// Pre-populates the store with a file, as a test or a driver sets the
    /// scene. Refused if the path is taken.
    pub fn add_file(&mut self, path: u64, data: Vec<u8>, writable: bool) -> (r: bool)
        requires
            old(self).wf(),
        ensures
            final(self).wf(),
            if old(self).has_path(path) {
                r == false && *final(self) == *old(self)
            } else {
                r == true && final(self).has_path(path) && final(self).model_of(path) == (FileModel {
                    data: data@,
                    writable: writable,
                    flush_error: false,
                    modified_time: old(self).spec_clock(),
                }) && frame_except(*old(self), *final(self), path) && final(self).spec_clock()
                    == tick(old(self).spec_clock())
            },
    {
        match self.find_idx(path) {
            Option::Some(_) => false,
            Option::None => {
                let e = FileEntry {
                    path,
                    data,
                    writable,
                    flush_error: false,
                    modified_time: self.clock,
                };
                let ghost pre = *self;
                let ghost em = e.model();
                self.files.push(e);
                if self.clock < u64::MAX {
                    self.clock = self.clock + 1;
                }
                proof {
                    lemma_push_entry(pre, *self, self.entries().last());
                    assert(self.entries().last().model() == em);
                }
                true
            },
        }
    }

    /// Marks whether the device reports a failure when this file is
    /// flushed; how a test or a driver models a failing device. Reports
    /// whether the path existed.
    pub fn set_flush_error(&mut self, path: u64, failing: bool) -> (r: bool)
        requires
            old(self).wf(),
        ensures
            final(self).wf(),
            if old(self).has_path(path) {
                r == true && final(self).has_path(path) && final(self).model_of(path)
                    == (FileModel {
                    data: old(self).model_of(path).data,
                    writable: old(self).model_of(path).writable,
                    flush_error: failing,
                    modified_time: old(self).model_of(path).modified_time,
                }) && frame_except(*old(self), *final(self), path) && final(self).spec_clock()
                    == old(self).spec_clock()
            } else {
                r == false && *final(self) == *old(self)
            },
    {
        match self.find_idx(path) {
            Option::None => false,
            Option::Some(i) => {
                let ghost pre = *self;
                let mut e = self.files.remove(i);
                e.flush_error = failing;
                let ghost em = e.model();
                self.files.insert(i, e);
                proof {
                    assert(self.entries() =~= pre.entries().update(
                        i as int,
                        self.entries()[i as int],
                    ));
                    lemma_update_entry(pre, *self, i as int, self.entries()[i as int]);
                    assert(self.entries()[i as int].model() == em);
                }
                true
            },
        }
    }

    /// Opens a file. Fails with AlreadyExists under exclusive creation,
    /// NotFound when the file is missing and creation was not asked, and
    /// PermissionDenied when writing to a read-only file is asked; else
    /// hands back the single owning handle.
    pub fn open(&mut self, path: u64, opts: OpenOptions) -> (r: Result<FileHandle, FsError>)
        requires
            old(self).wf(),
        ensures
            final(self).wf(),
            match open_error(*old(self), path, opts) {
                Option::Some(e) => r == Result::<FileHandle, FsError>::Err(e) && *final(self)
                    == *old(self),
                Option::None => (r matches Result::Ok(h) && h.spec_path() == path)
                    && open_ok_post(*old(self), path, opts, *final(self)),
            },
    {
        match self.find_idx(path) {
            Option::None => {
                if !(opts.create || opts.create_new) {
                    return Result::Err(FsError::NotFound);
                }
                let e = FileEntry {
                    path,
                    data: Vec::new(),
                    writable: true,
                    flush_error: false,
                    modified_time: self.clock,
                };
                let ghost pre = *self;
                let ghost em = e.model();
                self.files.push(e);
                if self.clock < u64::MAX {
                    self.clock = self.clock + 1;
                }
                proof {
                    lemma_push_entry(pre, *self, self.entries().last());
                    assert(self.entries().last().model() == em);
                    assert(em.data =~= Seq::<u8>::empty());
                }
                Result::Ok(FileHandle { path })
            },
            Option::Some(i) => {
                if opts.create_new {
                    return Result::Err(FsError::AlreadyExists);
                }
                if (opts.write || opts.truncate) && !self.files[i].writable {
                    return Result::Err(FsError::PermissionDenied);
                }
                if opts.truncate {
                    let ghost pre = *self;
                    let mut e = self.files.remove(i);
                    e.data = Vec::new();
                    e.modified_time = self.clock;
                    let ghost em = e.model();
                    self.files.insert(i, e);
                    if self.clock < u64::MAX {
                        self.clock = self.clock + 1;
                    }
                    proof {
                        assert(self.entries() =~= pre.entries().update(
                            i as int,
                            self.entries()[i as int],
                        ));
                        lemma_update_entry(pre, *self, i as int, self.entries()[i as int]);
                        assert(self.entries()[i as int].model() == em);
                        assert(em.data =~= Seq::<u8>::empty());
                    }
                }
                Result::Ok(FileHandle { path })
            },
        }
    }

    /// Reads into an owned buffer at an offset. Transfers
    /// `read_count` bytes — fewer than the buffer holds is a short
    /// transfer, reported as success — and hands the buffer back with the
    /// count. A path no file carries is the kernel rejecting a stale
    /// descriptor.
    pub fn read_at(&self, path: u64, buf: Vec<u8>, offset: usize) -> (r: Result<
        (Vec<u8>, usize),
        FsError,
    >)
        requires
            self.wf(),
        ensures
            if self.has_path(path) {
                r matches Result::Ok(p) && p.0@ == read_fill(self.data_of(path), buf@, offset as int)
                    && p.1 == read_count(self.data_of(path), buf@.len() as int, offset as int)
            } else {
                r == Result::<(Vec<u8>, usize), FsError>::Err(FsError::IoError)
            },
    {
        match self.find_idx(path) {
            Option::None => Result::Err(FsError::IoError),
            Option::Some(i) => {
                let ghost dataseq = self.data_of(path);
                let dlen: usize = self.files[i].data.len();
                let want: usize = buf.len();
                let avail: usize = if offset >= dlen {
                    0
                } else {
                    dlen - offset
                };
                let cnt: usize = if want <= avail {
                    want
                } else {
                    avail
                };
                assert(cnt == read_count(dataseq, buf@.len() as int, offset as int));
                let mut out: Vec<u8> = Vec::new();
                let mut k: usize = 0;
                while k < cnt
                    invariant
                        self.wf(),
                        self.has_path(path),
                        self.idx_of(path) == i,
                        i < self.entries().len(),
                        dataseq == self.data_of(path),
                        dlen == dataseq.len(),
                        cnt <= avail,
                        cnt != 0 ==> offset + cnt <= dlen,
                        cnt == read_count(dataseq, buf@.len() as int, offset as int),
                        cnt <= buf@.len(),
                        k <= cnt,
                        out@.len() == k,
                        forall|m: int| 0 <= m < k ==> out@[m] == dataseq[offset + m],
                    decreases cnt - k,
                {
                    out.push(self.files[i].data[offset + k]);
                    k = k + 1;
                }
                let mut k2: usize = cnt;
                while k2 < want
                    invariant
                        cnt <= k2 <= want == buf@.len(),
                        out@.len() == k2,
                        cnt == read_count(dataseq, buf@.len() as int, offset as int),
                        forall|m: int| 0 <= m < cnt ==> out@[m] == dataseq[offset + m],
                        forall|m: int| cnt <= m < k2 ==> out@[m] == buf@[m],
                    decreases want - k2,
                {
                    out.push(buf[k2]);
                    k2 = k2 + 1;
                }
                assert(out@ =~= read_fill(dataseq, buf@, offset as int));
                Result::Ok((out, cnt))
            },
        }
    }

    /// Writes an owned buffer at an offset and hands the buffer back with
    /// the written count. The whole buffer is written; a missing file is
    /// the kernel rejecting a stale descriptor, and a read-only file
    /// refuses the write.
    pub fn write_at(&mut self, path: u64, buf: Vec<u8>, offset: usize) -> (r: Result<
        (Vec<u8>, usize),
        FsError,
    >)
        requires
            old(self).wf(),
            offset + buf@.len() <= usize::MAX,
        ensures
            final(self).wf(),
            if !old(self).has_path(path) {
                r == Result::<(Vec<u8>, usize), FsError>::Err(FsError::IoError) && *final(self)
                    == *old(self)
            } else if !old(self).model_of(path).writable {
                r == Result::<(Vec<u8>, usize), FsError>::Err(FsError::PermissionDenied)
                    && *final(self) == *old(self)
            } else {
                (r matches Result::Ok(p) && p.0@ == buf@ && p.1 == buf@.len()) && write_ok_post(
                    *old(self),
                    path,
                    buf@,
                    offset as int,
                    *final(self),
                )
            },
    {
        match self.find_idx(path) {
            Option::None => Result::Err(FsError::IoError),
            Option::Some(i) => {
                if !self.files[i].writable {
                    return Result::Err(FsError::PermissionDenied);
                }
                let ghost pre = *self;
                let ghost dataseq = self.data_of(path);
                let mut e = self.files.remove(i);
                let dlen: usize = e.data.len();
                let blen: usize = buf.len();
                let newlen: usize = if dlen >= offset + blen {
                    dlen
                } else {
                    offset + blen
                };
                let mut nd: Vec<u8> = Vec::new();
                let mut k: usize = 0;
                while k < newlen
                    invariant
                        dlen == dataseq.len(),
                        blen == buf@.len(),
                        offset + blen <= usize::MAX,
                        newlen == write_fill(dataseq, buf@, offset as int).len(),
                        dlen == e.data@.len(),
                        e.data@ == dataseq,
                        k <= newlen,
                        nd@.len() == k,
                        forall|m: int|
                            0 <= m < k ==> nd@[m] == write_fill(dataseq, buf@, offset as int)[m],
                    decreases newlen - k,
                {
                    let b: u8 = if offset <= k && k < offset + blen {
                        buf[k - offset]
                    } else if k < dlen {
                        e.data[k]
                    } else {
                        0
                    };
                    nd.push(b);
                    k = k + 1;
                }
                assert(nd@ =~= write_fill(dataseq, buf@, offset as int));
                e.data = nd;
                e.modified_time = self.clock;
                let ghost em = e.model();
                self.files.insert(i, e);
                if self.clock < u64::MAX {
                    self.clock = self.clock + 1;
                }
                proof {
                    assert(self.entries() =~= pre.entries().update(
                        i as int,
                        self.entries()[i as int],
                    ));
                    lemma_update_entry(pre, *self, i as int, self.entries()[i as int]);
                    assert(self.entries()[i as int].model() == em);
                }
                let n: usize = blen;
                Result::Ok((buf, n))
            },
        }
    }

    /// Flushes a file to the device. A flush failure the device reports is
    /// surfaced, never swallowed; a missing file is a stale descriptor.
    pub fn fsync(&self, path: u64) -> (r: Result<(), FsError>)
        requires
            self.wf(),
        ensures
            if self.has_path(path) && !self.model_of(path).flush_error {
                r == Result::<(), FsError>::Ok(())
            } else {
                r == Result::<(), FsError>::Err(FsError::IoError)
            },
    {
        match self.find_idx(path) {
            Option::None => Result::Err(FsError::IoError),
            Option::Some(i) => {
                if self.files[i].flush_error {
                    Result::Err(FsError::IoError)
                } else {
                    Result::Ok(())
                }
            },
        }
    }

    /// Reports a file's metadata, or NotFound.
    pub fn stat(&self, path: u64) -> (r: Result<Metadata, FsError>)
        requires
            self.wf(),
        ensures
            if self.has_path(path) {
                r matches Result::Ok(m) && m.size == self.data_of(path).len()
                    && m.modified_time == self.model_of(path).modified_time && m.is_dir == false
                    && m.permissions == (if self.model_of(path).writable {
                    PERM_RW
                } else {
                    PERM_RO
                })
            } else {
                r == Result::<Metadata, FsError>::Err(FsError::NotFound)
            },
    {
        match self.find_idx(path) {
            Option::None => Result::Err(FsError::NotFound),
            Option::Some(i) => {
                let perms: u32 = if self.files[i].writable {
                    PERM_RW
                } else {
                    PERM_RO
                };
                Result::Ok(
                    Metadata {
                        size: self.files[i].data.len() as u64,
                        modified_time: self.files[i].modified_time,
                        is_dir: false,
                        permissions: perms,
                    },
                )
            },
        }
    }
}

/// A logical file operation, as submitted. A read or write owns its buffer
/// for as long as the operation is in flight; a close owns its handle, so
/// submitting it is the last use of that handle.
pub enum Operation {
    /// Open a file under the given options.
    Open { path: u64, opts: OpenOptions },
    /// Read into the buffer at the offset.
    ReadAt { path: u64, buf: Vec<u8>, offset: usize },
    /// Write the buffer at the offset.
    WriteAt { path: u64, buf: Vec<u8>, offset: usize },
    /// Flush the file to the device.
    Fsync { path: u64 },
    /// Report the file's metadata.
    Stat { path: u64 },
    /// Release the handle.
    Close { handle: FileHandle },
}

/// What machine limits ask of an operation before it is submitted.
pub open spec fn op_wf(op: Operation) -> bool {
    match op {
        Operation::WriteAt { path, buf, offset } => offset + buf@.len() <= usize::MAX,
        _ => true,
    }
}

/// What a completed operation carries back to the caller, with ownership
/// of any buffer it held.
pub enum OpResult {
    /// The single owning handle of the opened file.
    Opened { handle: FileHandle },
    /// The buffer back, its first `bytes_read` bytes the file's.
    Read { buf: Vec<u8>, bytes_read: usize },
    /// The buffer back, untouched, and how much of it was written.
    Wrote { buf: Vec<u8>, bytes_written: usize },
    /// The flush reached the device.
    Synced,
    /// The file's metadata.
    Statted { meta: Metadata },
    /// The handle is released.
    Closed,
}

/// What one operation does: how the store moves from `pre` to `post` and
/// what result the caller sees. Both execution paths are proved against
/// this one relation, so neither can be told from the other by a caller.
pub open spec fn op_outcome(
    pre: FileStore,
    op: Operation,
    post: FileStore,
    r: Result<OpResult, FsError>,
) -> bool {
    match op {
        Operation::Open { path, opts } => match open_error(pre, path, opts) {
            Option::Some(e) => r == Result::<OpResult, FsError>::Err(e) && post == pre,
            Option::None => (r matches Result::Ok(OpResult::Opened { handle })
                && handle.spec_path() == path) && open_ok_post(pre, path, opts, post),
        },
        Operation::ReadAt { path, buf, offset } => post == pre && if pre.has_path(path) {
            r matches Result::Ok(OpResult::Read { buf: b, bytes_read }) && b@ == read_fill(
                pre.data_of(path),
                buf@,
                offset as int,
            ) && bytes_read == read_count(pre.data_of(path), buf@.len() as int, offset as int)
        } else {
            r == Result::<OpResult, FsError>::Err(FsError::IoError)
        },
        Operation::WriteAt { path, buf, offset } => if !pre.has_path(path) {
            r == Result::<OpResult, FsError>::Err(FsError::IoError) && post == pre
        } else if !pre.model_of(path).writable {
            r == Result::<OpResult, FsError>::Err(FsError::PermissionDenied) && post == pre
        } else {
            (r matches Result::Ok(OpResult::Wrote { buf: b, bytes_written }) && b@ == buf@
                && bytes_written == buf@.len()) && write_ok_post(
                pre,
                path,
                buf@,
                offset as int,
                post,
            )
        },
        Operation::Fsync { path } => post == pre && if pre.has_path(path) && !pre.model_of(
            path,
        ).flush_error {
            r == Result::<OpResult, FsError>::Ok(OpResult::Synced)
        } else {
            r == Result::<OpResult, FsError>::Err(FsError::IoError)
        },
        Operation::Stat { path } => post == pre && if pre.has_path(path) {
            r matches Result::Ok(OpResult::Statted { meta }) && meta.size == pre.data_of(
                path,
            ).len() && meta.modified_time == pre.model_of(path).modified_time && meta.is_dir
                == false && meta.permissions == (if pre.model_of(path).writable {
                PERM_RW
            } else {
                PERM_RO
            })
        } else {
            r == Result::<OpResult, FsError>::Err(FsError::NotFound)
        },
        Operation::Close { handle } => post == pre && r == Result::<OpResult, FsError>::Ok(
            OpResult::Closed,
        ),
    }
}

/// Carries out one operation against the store: the operation adapter's
/// single entry point, which both execution paths call.
pub fn perform(store: &mut FileStore, op: Operation) -> (r: Result<OpResult, FsError>)
    requires
        old(store).wf(),
        op_wf(op),
    ensures
        final(store).wf(),
        op_outcome(*old(store), op, *final(store), r),
{
    match op {
        Operation::Open { path, opts } => match store.open(path, opts) {
            Result::Ok(handle) => Result::Ok(OpResult::Opened { handle }),
            Result::Err(e) => Result::Err(e),
        },
        Operation::ReadAt { path, buf, offset } => match store.read_at(path, buf, offset) {
            Result::Ok(p) => Result::Ok(OpResult::Read { buf: p.0, bytes_read: p.1 }),
            Result::Err(e) => Result::Err(e),
        },
        Operation::WriteAt { path, buf, offset } => match store.write_at(path, buf, offset) {
            Result::Ok(p) => Result::Ok(OpResult::Wrote { buf: p.0, bytes_written: p.1 }),
            Result::Err(e) => Result::Err(e),
        },
        Operation::Fsync { path } => match store.fsync(path) {
            Result::Ok(_) => Result::Ok(OpResult::Synced),
            Result::Err(e) => Result::Err(e),
        },
        Operation::Stat { path } => match store.stat(path) {
            Result::Ok(meta) => Result::Ok(OpResult::Statted { meta }),
            Result::Err(e) => Result::Err(e),
        },
        Operation::Close { handle } => {
            handle.close();
            Result::Ok(OpResult::Closed)
        },
    }
}

/// Round trip: writing a buffer at offset zero and then reading its length
/// back at offset zero yields the written bytes exactly, whatever the file
/// held before and whatever the read buffer held.
pub proof fn lemma_write_read_round_trip(data: Seq<u8>, buf: Seq<u8>, scratch: Seq<u8>)
    requires
        scratch.len() == buf.len(),
    ensures
        read_count(write_fill(data, buf, 0), buf.len() as int, 0) == buf.len(),
        read_fill(write_fill(data, buf, 0), scratch, 0) == buf,
{
    let w = write_fill(data, buf, 0);
    assert(w.len() >= buf.len());
    assert(read_fill(w, scratch, 0) =~= buf);
}

/// Short transfer: a read whose buffer asks for no more than the file
/// holds past the offset transfers exactly the buffer's length, as a
/// success.
pub proof fn lemma_short_transfer(data: Seq<u8>, buflen: int, offset: int)
    requires
        0 <= offset,
        0 <= buflen,
        offset + buflen <= data.len(),
    ensures
        read_count(data, buflen, offset) == buflen,
{
}

/// Reading moves no data in the store: whatever the outcome, the store
/// after a read is the store before it, so concurrent reads cannot
/// disturb one another's files.
pub proof fn lemma_read_leaves_store(
    pre: FileStore,
    op: Operation,
    post: FileStore,
    r: Result<OpResult, FsError>,
)
    requires
        op matches Operation::ReadAt { .. },
        op_outcome(pre, op, post, r),
    ensures
        post == pre,
{
}

/// Appending a file with a fresh path keeps the store well-formed and
/// leaves every other file as it was.
proof fn lemma_push_entry(pre: FileStore, post: FileStore, e: FileEntry)
    requires
        pre.wf(),
        !pre.has_path(e.path),
        post.entries() == pre.entries().push(e),
    ensures
        post.wf(),
        post.has_path(e.path),
        post.model_of(e.path) == e.model(),
        frame_except(pre, post, e.path),
{
    let n = pre.entries().len() as int;
    assert(post.entries()[n] == e);
    assert forall|i: int| 0 <= i < n implies post.entries()[i] == pre.entries()[i] by {}
    assert forall|i: int| 0 <= i < n implies pre.entries()[i].path != e.path by {
        if pre.entries()[i].path == e.path {
            assert(pre.has_path(e.path));
        }
    }
    post.lemma_idx(e.path, n);
    assert forall|q: u64| q != e.path implies post.has_path(q) == pre.has_path(q) by {
        if pre.has_path(q) {
            let i = pre.idx_of(q);
            assert(0 <= i < n && pre.entries()[i].path == q);
            assert(post.entries()[i].path == q);
        }
        if post.has_path(q) {
            let i = choose|i: int|
                0 <= i < post.entries().len() && post.entries()[i].path == q;
            assert(i != n);
            assert(pre.entries()[i].path == q);
        }
    }
    assert forall|q: u64| q != e.path && pre.has_path(q) implies post.model_of(q) == pre.model_of(
        q,
    ) by {
        let i = pre.idx_of(q);
        assert(0 <= i < n && pre.entries()[i].path == q);
        pre.lemma_idx(q, i);
        post.lemma_idx(q, i);
    }
}

/// Replacing the file at one position with one of the same path keeps the
/// store well-formed and leaves every other file as it was.
proof fn lemma_update_entry(pre: FileStore, post: FileStore, i: int, e: FileEntry)
    requires
        pre.wf(),
        0 <= i < pre.entries().len(),
        e.path == pre.entries()[i].path,
        post.entries() == pre.entries().update(i, e),
    ensures
        post.wf(),
        post.has_path(e.path),
        post.model_of(e.path) == e.model(),
        frame_except(pre, post, e.path),
{
    assert(post.entries().len() == pre.entries().len());
    assert forall|j: int|
        0 <= j < post.entries().len() implies post.entries()[j].path == pre.entries()[j].path by {}
    post.lemma_idx(e.path, i);
    assert forall|q: u64| q != e.path implies post.has_path(q) == pre.has_path(q) by {
        if pre.has_path(q) {
            let j = pre.idx_of(q);
            assert(post.entries()[j].path == q);
        }
        if post.has_path(q) {
            let j = choose|j: int|
                0 <= j < post.entries().len() && post.entries()[j].path == q;
            assert(pre.entries()[j].path == q);
        }
    }
    assert forall|q: u64| q != e.path && pre.has_path(q) implies post.model_of(q) == pre.model_of(
        q,
    ) by {
        let j = pre.idx_of(q);
        pre.lemma_idx(q, j);
        post.lemma_idx(q, j);
        assert(j != i);
    }
}

} // verus!
