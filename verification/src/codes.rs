//! The numbers of SQLite that the file layer takes and gives.

use vstd::prelude::*;

verus! {

/// All is well.
pub const SQLITE_OK: i32 = 0;

/// A file could not be handled.
pub const SQLITE_IOERR: i32 = 10;

/// A file could not be read.
pub const SQLITE_IOERR_READ: i32 = 266;

/// A file ended before the bytes asked for.
pub const SQLITE_IOERR_SHORT_READ: i32 = 522;

/// A file could not be written.
pub const SQLITE_IOERR_WRITE: i32 = 778;

/// What was written to a file could not be made to last.
pub const SQLITE_IOERR_FSYNC: i32 = 1034;

/// The size of a file could not be set.
pub const SQLITE_IOERR_TRUNCATE: i32 = 1546;

/// The size of a file could not be told.
pub const SQLITE_IOERR_FSTAT: i32 = 1802;

/// A file could not be deleted.
pub const SQLITE_IOERR_DELETE: i32 = 2570;

/// There is no such operation.
pub const SQLITE_NOTFOUND: i32 = 12;

/// A path cannot be opened.
pub const SQLITE_CANTOPEN: i32 = 14;

/// Flag: make the file if there is none.
pub const SQLITE_OPEN_CREATE: i32 = 4;

/// Flag: delete the file when it is closed.
pub const SQLITE_OPEN_DELETEONCLOSE: i32 = 8;

/// A file cannot be deleted while it is open.
pub const SQLITE_IOCAP_UNDELETABLE_WHEN_OPEN: i32 = 2048;

/// The size of a file grows only after the data has been written.
pub const SQLITE_IOCAP_SAFE_APPEND: i32 = 512;

/// No lock.
pub const SQLITE_LOCK_NONE: i32 = 0;

/// The least of the locks that are taken for writing: those above it are the
/// pending and the exclusive lock.
pub const SQLITE_LOCK_RESERVED: i32 = 2;

/// The numbers are those of SQLite. What goes wrong with a file has the number
/// of that in its low byte and says above it what was being done, each with a
/// number of its own.
pub proof fn law_numbers_are_those_of_sqlite()
    ensures
        SQLITE_OK == 0,
        SQLITE_IOERR == 10,
        SQLITE_NOTFOUND == 12,
        SQLITE_CANTOPEN == 14,
        SQLITE_IOERR_READ == 10 + 1 * 256,
        SQLITE_IOERR_SHORT_READ == 10 + 2 * 256,
        SQLITE_IOERR_WRITE == 10 + 3 * 256,
        SQLITE_IOERR_FSYNC == 10 + 4 * 256,
        SQLITE_IOERR_TRUNCATE == 10 + 6 * 256,
        SQLITE_IOERR_FSTAT == 10 + 7 * 256,
        SQLITE_IOERR_DELETE == 10 + 10 * 256,
        SQLITE_OPEN_CREATE == 0x4,
        SQLITE_OPEN_DELETEONCLOSE == 0x8,
        SQLITE_IOCAP_SAFE_APPEND == 0x200,
        SQLITE_IOCAP_UNDELETABLE_WHEN_OPEN == 0x800,
        SQLITE_LOCK_NONE == 0,
        SQLITE_LOCK_RESERVED == 2,
{
}

} // verus!
