//! Options and errors of memory-mapped files, and the bounds checks of reads and
//! writes through a mapping. Mapping, reading and writing the file itself is done by
//! the application.
use vstd::prelude::*;

verus! {

/// The default alignment of mapped regions.
pub const DEFAULT_ALIGNMENT: usize = 4096;

#[verifier::external_type_specification]
#[verifier::external_body]
pub struct ExIoError(std::io::Error);

/// What can go wrong with a memory-mapped file.
#[derive(Debug)]
pub enum MmapFileError {
    IoError(std::io::Error),
    FileNotFound(String),
    InvalidOffset { offset: usize, size: usize },
    MappingFailed(String),
    AlreadyOpen,
    NotOpen,
}

/// How to open a memory-mapped file.
#[derive(Debug, Clone, Copy, PartialEq, Eq, Structural)]
pub struct MmapOptions {
    pub initial_size: usize,
    pub create: bool,
    pub truncate: bool,
    pub huge_pages: bool,
    pub read: bool,
    pub write: bool,
}

/// The default options: empty, created if missing, not truncated, readable and writable.
pub open spec fn default_mmap_options() -> MmapOptions {
    MmapOptions { initial_size: 0, create: true, truncate: false, huge_pages: false, read: true, write: true }
}

impl Default for MmapOptions {
    fn default() -> (r: Self)
        ensures
            r == default_mmap_options(),
    {
        MmapOptions { initial_size: 0, create: true, truncate: false, huge_pages: false, read: true, write: true }
    }
}

impl MmapOptions {
    /// The default options.
    pub fn new() -> (r: Self)
        ensures
            r == default_mmap_options(),
    {
        Self::default()
    }

    pub fn with_initial_size(self, size: usize) -> (r: Self)
        ensures
            r == (MmapOptions { initial_size: size, ..self }),
    {
        let mut o = self;
        o.initial_size = size;
        o
    }

    pub fn create(self, create: bool) -> (r: Self)
        ensures
            r == (MmapOptions { create, ..self }),
    {
        let mut o = self;
        o.create = create;
        o
    }

    pub fn truncate(self, truncate: bool) -> (r: Self)
        ensures
            r == (MmapOptions { truncate, ..self }),
    {
        let mut o = self;
        o.truncate = truncate;
        o
    }

    pub fn huge_pages(self, huge_pages: bool) -> (r: Self)
        ensures
            r == (MmapOptions { huge_pages, ..self }),
    {
        let mut o = self;
        o.huge_pages = huge_pages;
        o
    }

    pub fn read(self, read: bool) -> (r: Self)
        ensures
            r == (MmapOptions { read, ..self }),
    {
        let mut o = self;
        o.read = read;
        o
    }

    pub fn write(self, write: bool) -> (r: Self)
        ensures
            r == (MmapOptions { write, ..self }),
    {
        let mut o = self;
        o.write = write;
        o
    }
}

/// The end of the range `[offset, offset + len)` of a mapping of `mapped_len` bytes
/// (the sum saturating at `usize::MAX`), when it is not past the mapping's end;
/// otherwise an `InvalidOffset` error naming the offset and the mapping's length.
pub fn mapped_range_end(offset: usize, len: usize, mapped_len: usize) -> (r: Result<usize, MmapFileError>)
    ensures
        ({
            let end = if offset + len <= usize::MAX {
                offset + len
            } else {
                usize::MAX as int
            };
            &&& end <= mapped_len ==> r == Ok::<usize, MmapFileError>(end as usize)
            &&& end > mapped_len ==> (r matches Err(MmapFileError::InvalidOffset { offset: o, size: s }) && o
                == offset && s == mapped_len)
        }),
{
    let end = offset.saturating_add(len);
    if end > mapped_len {
        return Err(MmapFileError::InvalidOffset { offset, size: mapped_len });
    }
    Ok(end)
}

/// The number of bytes to flush from `offset`: up to `len`, not past the mapping's end.
/// The offset lies within the mapping.
pub fn flush_range_len(offset: usize, len: usize, mapped_len: usize) -> (r: usize)
    requires
        offset <= mapped_len,
    ensures
        r == if offset + len <= mapped_len {
            len as int
        } else {
            mapped_len - offset
        },
{
    let s = offset.saturating_add(len);
    let end = if s < mapped_len {
        s
    } else {
        mapped_len
    };
    end - offset
}

/// The number of bytes kept when an anonymous mapping of `old_len` bytes is resized to `new_len`.
pub fn resize_copy_len(old_len: usize, new_len: usize) -> (r: usize)
    ensures
        r == if old_len < new_len {
            old_len
        } else {
            new_len
        },
{
    if old_len < new_len {
        old_len
    } else {
        new_len
    }
}

/// The size recorded for a file opened with `options` whose length is `file_size`:
/// the file's own length, or the initial size for an empty file.
pub fn opened_size(file_size: usize, options: &MmapOptions) -> (r: usize)
    ensures
        r == if file_size > 0 {
            file_size
        } else {
            options.initial_size
        },
{
    if file_size > 0 {
        file_size
    } else {
        options.initial_size
    }
}

} // verus!
