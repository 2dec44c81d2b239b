//! The decisions behind the C-style file handle: open flags, seek origins
//! and the progress of writing a buffer.
use vstd::prelude::*;

verus! {

/// Create the file when it does not exist.
pub const O_CREATE: u32 = 1 << 1;
/// Write at the end only.
pub const O_APPEND: u32 = 1 << 2;
/// Stop after one write call instead of writing everything.
pub const O_NONBLOCK: u32 = 1 << 3;
/// Open for reading.
pub const O_READ: u32 = 1 << 4;
/// Open for writing.
pub const O_WRITE: u32 = 1 << 5;
/// Open for reading and writing.
pub const O_RW: u32 = O_READ | O_WRITE;
/// Truncate the file when it exists.
pub const O_TRUNCATE: u32 = 1 << 6;

/// Seek to an absolute position.
pub const SEEK_SET: i32 = 1;
/// Seek relative to the current position.
pub const SEEK_CUR: i32 = 2;
/// Seek relative to the end.
pub const SEEK_END: i32 = 3;

/// How to open a file, decided from its flags.
#[derive(Clone, Copy, PartialEq, Eq, Structural, Debug)]
pub struct OpenMode {
    /// The flags in effect: no flag at all means read only.
    pub flags: u32,
    pub create: bool,
    pub append: bool,
    pub read: bool,
    pub write: bool,
    pub truncate: bool,
}

/// The flags in effect for `flags`.
pub open spec fn effective_flags(flags: u32) -> u32 {
    if flags == 0 {
        O_READ
    } else {
        flags
    }
}

/// The open mode for `flags`: each option is on when its flag is set.
pub fn open_mode(flags: u32) -> (r: OpenMode)
    ensures
        r.flags == effective_flags(flags),
        r.create == (r.flags & O_CREATE != 0),
        r.append == (r.flags & O_APPEND != 0),
        r.read == (r.flags & O_READ != 0),
        r.write == (r.flags & O_WRITE != 0),
        r.truncate == (r.flags & O_TRUNCATE != 0),
{
    let f = if flags == 0 {
        O_READ
    } else {
        flags
    };
    OpenMode {
        flags: f,
        create: f & O_CREATE != 0,
        append: f & O_APPEND != 0,
        read: f & O_READ != 0,
        write: f & O_WRITE != 0,
        truncate: f & O_TRUNCATE != 0,
    }
}

/// Where a seek goes, relative to what.
#[derive(Clone, Copy, PartialEq, Eq, Structural, Debug)]
pub enum SeekTarget {
    Start(u64),
    Current(i64),
    End(i64),
}

/// The target of a seek by `offset` from `whence`; `None` for an unknown
/// origin. An absolute offset is taken as unsigned, bit for bit.
pub fn seek_target(offset: i64, whence: i32) -> (r: Option<SeekTarget>)
    ensures
        whence == SEEK_SET ==> r == Some(SeekTarget::Start(offset as u64)),
        whence == SEEK_CUR ==> r == Some(SeekTarget::Current(offset)),
        whence == SEEK_END ==> r == Some(SeekTarget::End(offset)),
        whence != SEEK_SET && whence != SEEK_CUR && whence != SEEK_END ==> r is None,
{
    if whence == SEEK_SET {
        Some(SeekTarget::Start(offset as u64))
    } else if whence == SEEK_CUR {
        Some(SeekTarget::Current(offset))
    } else if whence == SEEK_END {
        Some(SeekTarget::End(offset))
    } else {
        None
    }
}

/// One step of writing a buffer of `total` bytes of which `written` are
/// out: `result` is what the last write call took (`None` on an error).
/// Returns the new count and whether to call write again: only when the
/// call took bytes, the buffer is not done and the handle may block.
pub fn write_step(written: usize, total: usize, result: Option<usize>, nonblock: bool) -> (r: (
    usize,
    bool,
))
    requires
        written <= total,
        result is Some ==> result->Some_0 <= total - written,
    ensures
        result is None ==> r == (written, false),
        result is Some ==> r.0 == written + result->Some_0 && r.1 == (!nonblock && result->Some_0
            > 0 && r.0 < total),
{
    match result {
        None => (written, false),
        Some(k) => {
            let w = written + k;
            (w, !nonblock && k > 0 && w < total)
        },
    }
}

} // verus!
