//! What SQLite asks of the file system as a whole.
//!
//! An operation on the host's files comes in two halves, as in
//! [`crate::io_methods`].

use vstd::prelude::*;
use vstd::utf8::encode_utf8;

use crate::codes::{
    SQLITE_CANTOPEN, SQLITE_IOERR, SQLITE_IOERR_DELETE, SQLITE_LOCK_NONE, SQLITE_OK,
    SQLITE_OPEN_CREATE,
};
use crate::file_action::{action_views, FileAction, Planned};
use crate::io_methods::deletes;
use crate::pool::{persist_actions, FileHandle, Pool};
use crate::random::system_random;

verus! {

/// The name that the file system has in SQLite.
pub const VFS_NAME: &'static str = "logseq-sahpool-opfs";

/// The longest path that SQLite may use.
pub const MAX_PATHNAME: i32 = 1024;

/// The version of SQLite's interface that the file system, and its files, are
/// made for.
pub const INTERFACE_VERSION: i32 = 1;

/// How a file system is made known to SQLite.
#[derive(Debug)]
pub struct VfsRegistration {
    /// The version of the interface.
    pub version: i32,
    /// The longest path.
    pub max_pathname: i32,
    /// The name.
    pub name: String,
    /// Whether it is the one that SQLite takes when none is named.
    pub make_default: bool,
}

/// A file that has been opened.
#[derive(Debug)]
pub struct Opened {
    /// The file.
    pub file: FileHandle,
    /// The flags that it has been opened with.
    pub out_flags: i32,
    /// The requests to be performed, in order; the file is open when all have
    /// been.
    pub actions: Vec<FileAction>,
    /// The code for SQLite.
    pub code: i32,
}

/// Whether a file is to be made where there is none.
pub open spec fn creates(flags: i32) -> bool {
    SQLITE_OPEN_CREATE & flags == SQLITE_OPEN_CREATE
}

/// How the file system is made known to SQLite, once the pool is open.
pub fn init_sqlite_vfs() -> (registration: VfsRegistration)
    ensures
        registration.version == INTERFACE_VERSION,
        registration.max_pathname == MAX_PATHNAME,
        registration.name@ == VFS_NAME@,
        registration.make_default,
        registration.version == 1,
        registration.max_pathname == 1024,
        registration.name@ == "logseq-sahpool-opfs"@,
{
    VfsRegistration {
        version: INTERFACE_VERSION,
        max_pathname: MAX_PATHNAME,
        name: VFS_NAME.to_owned(),
        make_default: true,
    }
}

/// Opens a file. One that is not there is created where the flags ask for
/// that. A file without a name is refused.
pub fn open(pool: &mut Pool, fname: Option<&str>, flags: i32) -> (opened: Result<Opened, i32>)
    requires
        old(pool).wf(),
        match fname {
            Some(name) => {
                ||| old(pool)@.metadata.files.dom().contains(name@)
                ||| creates(flags) && old(pool)@.metadata.empty_files.len() > 0 && old(
                    pool,
                )@.meta_handle is Some
            },
            None => true,
        },
    ensures
        final(pool).wf(),
        match opened {
            Ok(o) => {
                &&& fname is Some
                &&& o.file.fname@ == fname->0@
                &&& o.file.flags == flags
                &&& o.file.lock == SQLITE_LOCK_NONE
                &&& o.out_flags == flags
                &&& o.code == SQLITE_OK
                &&& if old(pool)@.metadata.files.dom().contains(fname->0@) {
                    *final(pool) == *old(pool) && o.actions@.len() == 0
                } else {
                    &&& final(pool)@ == old(pool)@.allocated(fname->0@)
                    &&& action_views(o.actions@) == persist_actions(
                        old(pool)@.meta_handle->0,
                        final(pool).metadata_bytes(),
                    )
                }
            },
            Err(code) => fname is None && code == SQLITE_IOERR && *final(pool) == *old(pool),
        },
{
    match fname {
        Some(name) => {
            let actions = if SQLITE_OPEN_CREATE & flags == SQLITE_OPEN_CREATE {
                pool.get_or_create_file(name).actions
            } else {
                Vec::new()
            };
            Ok(
                Opened {
                    file: FileHandle { fname: name.to_owned(), flags, lock: SQLITE_LOCK_NONE },
                    out_flags: flags,
                    actions,
                    code: SQLITE_OK,
                },
            )
        },
        None => Err(SQLITE_IOERR),
    }
}

/// Begins to delete the file at `name`.
pub fn delete(pool: &mut Pool, name: &str) -> (plan: Planned<i32>)
    requires
        old(pool).wf(),
        old(pool)@.metadata.files.dom().contains(name@),
    ensures
        final(pool).wf(),
        final(pool)@ == old(pool)@.released(name@),
        deletes(old(pool)@, name@, final(pool).metadata_bytes(), plan),
{
    let plan = pool.delete(name);
    match plan.outcome {
        Ok(()) => Planned { actions: plan.actions, outcome: Ok(SQLITE_OK) },
        Err(error) => Planned { actions: plan.actions, outcome: Err(error) },
    }
}

/// The code for a file that has been deleted, or could not be.
pub fn finish_delete(done: bool) -> (code: i32)
    ensures
        code == if done {
            SQLITE_OK
        } else {
            SQLITE_IOERR_DELETE
        },
{
    if done {
        SQLITE_OK
    } else {
        SQLITE_IOERR_DELETE
    }
}

/// The code, and whether there is a file at `name`.
pub fn access(pool: &Pool, name: &str) -> (told: (i32, i32))
    requires
        pool.wf(),
    ensures
        told.0 == SQLITE_OK,
        told.1 == if pool@.metadata.files.dom().contains(name@) {
            1i32
        } else {
            0i32
        },
{
    let exists_res: i32 = if pool.has_file(name) {
        1
    } else {
        0
    };
    (SQLITE_OK, exists_res)
}

/// What `res_out` holds after the bytes of a path and a zero have been put at
/// its start, and a zero at `out`.
pub open spec fn with_path(res_out: Seq<u8>, path: Seq<u8>, out: int) -> Seq<u8> {
    (path.push(0) + res_out.skip(path.len() as int + 1)).update(out, 0)
}

/// Puts the full form of a path, which is the path itself, into `res_out`. A
/// path of more than `out` bytes is refused.
pub fn fullpathname(name: &str, out: i32, res_out: &mut [u8]) -> (code: i32)
    requires
        0 <= out < old(res_out)@.len(),
    ensures
        if encode_utf8(name@).len() > out {
            code == SQLITE_CANTOPEN && final(res_out)@ == old(res_out)@
        } else {
            code == SQLITE_OK && final(res_out)@ == with_path(
                old(res_out)@,
                encode_utf8(name@),
                out as int,
            )
        },
{
    let bytes = name.as_bytes();
    let n = bytes.len();
    if n > out as usize {
        return SQLITE_CANTOPEN;
    }
    let mut i: usize = 0;
    while i < n
        invariant
            i <= n,
            n == bytes@.len(),
            n < res_out@.len(),
            res_out@.len() == old(res_out)@.len(),
            forall|k: int| 0 <= k < i ==> res_out@[k] == bytes@[k],
            forall|k: int| i <= k < res_out@.len() ==> res_out@[k] == old(res_out)@[k],
        decreases n - i,
    {
        res_out[i] = bytes[i];
        i += 1;
    }
    res_out[n] = 0;
    res_out[out as usize] = 0;
    assert(res_out@ =~= with_path(old(res_out)@, bytes@, out as int));
    SQLITE_OK
}

/// The code for a buffer that has been filled with random bytes; none where it
/// could not be.
pub fn finish_randomness(filled: bool) -> (code: Option<i32>)
    ensures
        code == if filled {
            Some(SQLITE_OK)
        } else {
            None::<i32>
        },
{
    if filled {
        Some(SQLITE_OK)
    } else {
        None
    }
}

/// Fills a buffer with random bytes. There is no code where the system has
/// none to give.
pub fn randomness(out: &mut [u8]) -> (code: Option<i32>)
    ensures
        final(out)@.len() == old(out)@.len(),
        code is Some ==> code == Some(SQLITE_OK),
        old(out)@.len() == 0 ==> code is Some,
{
    match system_random(out) {
        Ok(()) => finish_randomness(true),
        Err(_) => finish_randomness(false),
    }
}

/// The code of the last failure of the host: none is kept.
pub fn get_last_error() -> (code: i32)
    ensures
        code == SQLITE_OK,
{
    SQLITE_OK
}

/// When a path has been put into a buffer, the buffer begins with the bytes of
/// the path and a zero, there is a zero at `out`, and the other bytes are as
/// they were.
pub proof fn law_full_path_is_read_back(res_out: Seq<u8>, path: Seq<u8>, out: int)
    requires
        path.len() <= out < res_out.len(),
    ensures
        with_path(res_out, path, out).len() == res_out.len(),
        with_path(res_out, path, out).take(path.len() as int) == path,
        with_path(res_out, path, out)[path.len() as int] == 0,
        with_path(res_out, path, out)[out] == 0,
        forall|i: int|
            path.len() < i < res_out.len() && i != out ==> #[trigger] with_path(
                res_out,
                path,
                out,
            )[i] == res_out[i],
{
    assert(with_path(res_out, path, out).take(path.len() as int) =~= path);
}

/// A file that is not there is made exactly where the bit of value 4 of the
/// flags is set, whatever the other flags are.
pub proof fn law_one_flag_creates(flags: i32, other: i32)
    ensures
        flags >= 0 ==> (creates(flags) <==> (flags / 4) % 2 == 1),
        (flags ^ other) & 4 == 0 ==> creates(flags) == creates(other),
        (flags ^ other) & 4 != 0 ==> creates(flags) != creates(other),
{
    assert(flags >= 0 ==> ((4i32 & flags == 4) <==> (flags as u32 / 4) % 2 == 1)) by (bit_vector);
    assert((flags ^ other) & 4i32 == 0 ==> ((4i32 & flags == 4) == (4i32 & other == 4))) by (
    bit_vector);
    assert((flags ^ other) & 4i32 != 0 ==> ((4i32 & flags == 4) != (4i32 & other == 4))) by (
    bit_vector);
}

} // verus!
