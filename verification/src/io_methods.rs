//! What SQLite asks of a file that it has open.
//!
//! An operation on the host's files comes in two halves: the first gives the
//! request to be made, or at once the code of a failure; the second, which has
//! a name that begins with `finish`, gives the code for what came of it.

use vstd::prelude::*;

use crate::codes::{
    SQLITE_IOCAP_SAFE_APPEND, SQLITE_IOCAP_UNDELETABLE_WHEN_OPEN, SQLITE_IOERR_FSTAT,
    SQLITE_IOERR_FSYNC, SQLITE_IOERR_READ, SQLITE_IOERR_SHORT_READ, SQLITE_IOERR_TRUNCATE,
    SQLITE_IOERR_WRITE, SQLITE_LOCK_RESERVED, SQLITE_NOTFOUND, SQLITE_OK, SQLITE_OPEN_DELETEONCLOSE,
};
use crate::error::PoolError;
use crate::file_action::{
    action_views, law_read_after_write, performed, performed_all, read_bytes, truncated_size,
    ActionView, FileAction, Planned,
};
use crate::pool::{persist_actions, FileHandle, Pool, PoolView};
use crate::pool_laws::{
    law_persist_writes_the_metadata, lemma_performed_concat, lemma_performed_three,
};

verus! {

/// The size in bytes of the sectors that a file is told to have.
pub const SECTOR_SIZE: i32 = 4096;

/// Whether a file is to be deleted when it is closed.
pub open spec fn deletes_on_close(file: FileHandle) -> bool {
    file.flags & SQLITE_OPEN_DELETEONCLOSE != 0
}

/// Begins to close a file: what was written to it is made to last.
pub fn close(pool: &Pool, file: &FileHandle) -> (action: FileAction)
    requires
        pool.wf(),
        pool@.metadata.files.dom().contains(file.fname@),
    ensures
        action@ == (ActionView::Flush { handle: pool@.handle_of(file.fname@) }),
{
    pool.flush(file).unwrap()
}

/// Closes a file. One that was opened to be deleted is given up.
pub fn finish_close(pool: &mut Pool, file: FileHandle) -> (plan: Planned<i32>)
    requires
        old(pool).wf(),
        deletes_on_close(file) ==> old(pool)@.metadata.files.dom().contains(file.fname@),
    ensures
        final(pool).wf(),
        if deletes_on_close(file) {
            &&& final(pool)@ == old(pool)@.released(file.fname@)
            &&& deletes(old(pool)@, file.fname@, final(pool).metadata_bytes(), plan)
        } else {
            &&& *final(pool) == *old(pool)
            &&& plan.outcome == Ok::<i32, PoolError>(SQLITE_OK)
            &&& plan.actions@.len() == 0
        },
        file.flags & 8 != 0 ==> final(pool)@ == old(pool)@.released(file.fname@)
            && plan.actions@.len() > 0,
        file.flags & 8 == 0 ==> final(pool)@ == old(pool)@ && plan.actions@.len() == 0,
{
    if file.flags & SQLITE_OPEN_DELETEONCLOSE != 0 {
        let plan = pool.delete(file.fname.as_str());
        assert(plan.actions@.len() == action_views(plan.actions@).len());
        match plan.outcome {
            Ok(()) => Planned { actions: plan.actions, outcome: Ok(SQLITE_OK) },
            Err(error) => Planned { actions: plan.actions, outcome: Err(error) },
        }
    } else {
        Planned { actions: Vec::new(), outcome: Ok(SQLITE_OK) }
    }
}

/// Whether a plan deletes the file at `path`: it empties the backing file and
/// writes the metadata, which `bytes` record, and ends well; or, where the
/// metadata file is not open, it empties the backing file and fails.
pub open spec fn deletes(
    pool: PoolView,
    path: Seq<char>,
    bytes: Seq<u8>,
    plan: Planned<i32>,
) -> bool {
    let handle = pool.handle_of(path);
    let empty_it = seq![ActionView::Truncate { handle, size: 0 }, ActionView::Flush { handle }];
    match pool.meta_handle {
        Some(meta) => {
            &&& plan.outcome == Ok::<i32, PoolError>(SQLITE_OK)
            &&& action_views(plan.actions@) == empty_it + persist_actions(meta, bytes)
        },
        None => {
            &&& plan.outcome == Err::<i32, PoolError>(PoolError::NotInited)
            &&& action_views(plan.actions@) == empty_it
        },
    }
}

/// Begins to read `amount` bytes of a file from `offset` on.
pub fn read(pool: &Pool, file: &FileHandle, amount: i32, offset: i64) -> (action: Result<
    FileAction,
    i32,
>)
    requires
        pool.wf(),
        amount >= 0,
    ensures
        match action {
            Ok(a) => {
                &&& pool@.metadata.files.dom().contains(file.fname@)
                &&& a@ == (ActionView::Read {
                    handle: pool@.handle_of(file.fname@),
                    len: amount as usize,
                    at: offset,
                })
            },
            Err(code) => code == SQLITE_IOERR_READ && !pool@.metadata.files.dom().contains(
                file.fname@,
            ),
        },
{
    match pool.read(file, amount as usize, offset) {
        Ok(action) => Ok(action),
        Err(_) => Err(SQLITE_IOERR_READ),
    }
}

/// The bytes of `buf` that were read, with zeros in place of those that were
/// not.
pub open spec fn zero_filled(buf: Seq<u8>, nread: int) -> Seq<u8> {
    Seq::new(
        buf.len(),
        |i: int|
            if i < nread {
                buf[i]
            } else {
                0
            },
    )
}

/// The code for a read of `amount` bytes into `buf` that gave `nread` bytes,
/// or failed. What is missing of the bytes asked for becomes zeros.
pub fn finish_read(buf: &mut [u8], amount: i32, nread: Option<i64>) -> (code: i32)
    requires
        amount == old(buf)@.len(),
        match nread {
            Some(n) => (n as i32) < amount ==> 0 <= n <= amount,
            None => true,
        },
    ensures
        match nread {
            Some(n) => if (n as i32) < amount {
                code == SQLITE_IOERR_SHORT_READ && final(buf)@ == zero_filled(old(buf)@, n as int)
            } else {
                code == SQLITE_OK && final(buf)@ == old(buf)@
            },
            None => code == SQLITE_IOERR_READ && final(buf)@ == old(buf)@,
        },
        final(buf)@.len() == old(buf)@.len(),
        forall|i: int|
            0 <= i < final(buf)@.len() ==> #[trigger] final(buf)@[i] == if nread is Some && 0
                <= nread->0 <= i {
                0
            } else {
                old(buf)@[i]
            },
{
    match nread {
        Some(n) => {
            if (n as i32) < amount {
                let mut i: usize = n as usize;
                while i < buf.len()
                    invariant
                        0 <= n <= i <= buf@.len(),
                        buf@.len() == old(buf)@.len(),
                        forall|k: int| 0 <= k < n ==> buf@[k] == old(buf)@[k],
                        forall|k: int| n <= k < i ==> buf@[k] == 0,
                    decreases buf@.len() - i,
                {
                    buf[i] = 0;
                    i += 1;
                }
                assert(buf@ =~= zero_filled(old(buf)@, n as int));
                SQLITE_IOERR_SHORT_READ
            } else {
                SQLITE_OK
            }
        },
        None => SQLITE_IOERR_READ,
    }
}

/// Begins to write `buf` to a file from `offset` on.
pub fn write(pool: &Pool, file: &FileHandle, buf: &[u8], offset: i64) -> (action: Result<
    FileAction,
    i32,
>)
    requires
        pool.wf(),
    ensures
        match action {
            Ok(a) => {
                &&& pool@.metadata.files.dom().contains(file.fname@)
                &&& a@ == (ActionView::Write {
                    handle: pool@.handle_of(file.fname@),
                    data: buf@,
                    at: offset,
                })
            },
            Err(code) => code == SQLITE_IOERR_WRITE && !pool@.metadata.files.dom().contains(
                file.fname@,
            ),
        },
{
    match pool.write(file, buf, offset) {
        Ok(action) => Ok(action),
        Err(_) => Err(SQLITE_IOERR_WRITE),
    }
}

/// The code for a write of `len` bytes that wrote `nwritten` bytes, which must
/// be all of them, or failed.
pub fn finish_write(len: usize, nwritten: Option<u64>) -> (code: i32)
    requires
        nwritten matches Some(n) ==> n == len,
    ensures
        code == if nwritten is Some {
            SQLITE_OK
        } else {
            SQLITE_IOERR_WRITE
        },
{
    match nwritten {
        Some(_) => SQLITE_OK,
        None => SQLITE_IOERR_WRITE,
    }
}

/// Begins to set the size of a file.
pub fn truncate(pool: &Pool, file: &FileHandle, size: i64) -> (action: Result<FileAction, i32>)
    requires
        pool.wf(),
    ensures
        match action {
            Ok(a) => {
                &&& pool@.metadata.files.dom().contains(file.fname@)
                &&& a@ == (ActionView::Truncate {
                    handle: pool@.handle_of(file.fname@),
                    size: truncated_size(size as int),
                })
            },
            Err(code) => code == SQLITE_IOERR_TRUNCATE && !pool@.metadata.files.dom().contains(
                file.fname@,
            ),
        },
{
    #[verifier::truncate]
    let unsigned: u64 = size as u64;
    assert(truncated_size(unsigned as int) == truncated_size(size as int)) by {
        assert(size >= 0 ==> size as u64 == size) by (bit_vector);
        assert(size < 0 ==> size as u64 == size + 0x1_0000_0000_0000_0000) by (bit_vector);
        assert((size + 0x1_0000_0000_0000_0000) % 0x1_0000_0000 == size as int % 0x1_0000_0000);
    }
    match pool.truncate(file, unsigned) {
        Ok(action) => Ok(action),
        Err(_) => Err(SQLITE_IOERR_TRUNCATE),
    }
}

/// The code for setting the size of a file.
pub fn finish_truncate(done: bool) -> (code: i32)
    ensures
        code == if done {
            SQLITE_OK
        } else {
            SQLITE_IOERR_TRUNCATE
        },
{
    if done {
        SQLITE_OK
    } else {
        SQLITE_IOERR_TRUNCATE
    }
}

/// Begins to make last what was written to a file.
pub fn sync(pool: &Pool, file: &FileHandle) -> (action: Result<FileAction, i32>)
    requires
        pool.wf(),
    ensures
        match action {
            Ok(a) => {
                &&& pool@.metadata.files.dom().contains(file.fname@)
                &&& a@ == (ActionView::Flush { handle: pool@.handle_of(file.fname@) })
            },
            Err(code) => code == SQLITE_IOERR_FSYNC && !pool@.metadata.files.dom().contains(
                file.fname@,
            ),
        },
{
    match pool.flush(file) {
        Ok(action) => Ok(action),
        Err(_) => Err(SQLITE_IOERR_FSYNC),
    }
}

/// The code for making last what was written to a file.
pub fn finish_sync(done: bool) -> (code: i32)
    ensures
        code == if done {
            SQLITE_OK
        } else {
            SQLITE_IOERR_FSYNC
        },
{
    if done {
        SQLITE_OK
    } else {
        SQLITE_IOERR_FSYNC
    }
}

/// Begins to tell the size of a file.
pub fn file_size(pool: &Pool, file: &FileHandle) -> (action: Result<FileAction, i32>)
    requires
        pool.wf(),
    ensures
        match action {
            Ok(a) => {
                &&& pool@.metadata.files.dom().contains(file.fname@)
                &&& a@ == (ActionView::Size { handle: pool@.handle_of(file.fname@) })
            },
            Err(code) => code == SQLITE_IOERR_FSTAT && !pool@.metadata.files.dom().contains(
                file.fname@,
            ),
        },
{
    match pool.file_size(file.fname.as_str()) {
        Ok(action) => Ok(action),
        Err(_) => Err(SQLITE_IOERR_FSTAT),
    }
}

/// The code for telling the size of a file, and the size as SQLite takes it.
pub fn finish_file_size(size: Option<u64>) -> (told: (i32, Option<i64>))
    ensures
        match size {
            Some(n) => told == (SQLITE_OK, Some(n as i64)),
            None => told == (SQLITE_IOERR_FSTAT, None::<i64>),
        },
{
    match size {
        Some(n) => {
            #[verifier::truncate]
            let signed: i64 = n as i64;
            (SQLITE_OK, Some(signed))
        },
        None => (SQLITE_IOERR_FSTAT, None),
    }
}

/// Notes the lock that SQLite asks for.
pub fn lock(file: &mut FileHandle, lock_type: i32) -> (code: i32)
    ensures
        code == SQLITE_OK,
        *final(file) == (FileHandle { lock: lock_type, ..*old(file) }),
{
    file.lock = lock_type;
    SQLITE_OK
}

/// Notes the lock that SQLite goes back to.
pub fn unlock(file: &mut FileHandle, lock_type: i32) -> (code: i32)
    ensures
        code == SQLITE_OK,
        *final(file) == (FileHandle { lock: lock_type, ..*old(file) }),
{
    file.lock = lock_type;
    SQLITE_OK
}

/// The locks that are held on the file at `path`: those of the open files that
/// have that path.
pub open spec fn locks_at(files: Seq<&FileHandle>, path: Seq<char>) -> Seq<i32> {
    files.filter(|f: &FileHandle| f.fname@ == path).map_values(|f: &FileHandle| f.lock)
}

/// The locks that are held on the file at `path`, of all the files that are
/// open.
pub fn locks_on(files: &Vec<&FileHandle>, path: &str) -> (locks: Vec<i32>)
    ensures
        locks@ == locks_at(files@, path@),
{
    let wanted = path.to_owned();
    let mut locks: Vec<i32> = Vec::new();
    let mut i: usize = 0;
    proof {
        reveal(Seq::filter);
        assert(locks@ =~= locks_at(files@.take(0), path@));
    }
    while i < files.len()
        invariant
            wanted@ == path@,
            i <= files.len(),
            locks@ == locks_at(files@.take(i as int), path@),
        decreases files.len() - i,
    {
        let ghost before = files@.take(i as int);
        let ghost after = files@.take(i + 1);
        assert(after.drop_last() =~= before);
        assert(after.last() == files@[i as int]);
        if files[i].fname == wanted {
            locks.push(files[i].lock);
        }
        proof {
            reveal(Seq::filter);
            assert(locks@ =~= locks_at(after, path@));
        }
        i += 1;
    }
    assert(files@.take(i as int) =~= files@);
    locks
}

/// Whether one of some locks is a reserved, a pending or an exclusive one.
pub open spec fn holds_reserved(locks: Seq<i32>) -> bool {
    exists|i: int| 0 <= i < locks.len() && #[trigger] locks[i] >= SQLITE_LOCK_RESERVED
}

/// The code, and whether any connection holds a reserved, a pending or an
/// exclusive lock on a file. `locks` are the locks that are held on it.
pub fn check_reserved_lock(locks: &Vec<i32>) -> (told: (i32, i32))
    ensures
        told.0 == SQLITE_OK,
        told.1 == if exists|i: int|
            0 <= i < locks@.len() && #[trigger] locks@[i] >= SQLITE_LOCK_RESERVED {
            1i32
        } else {
            0i32
        },
        told.1 == 1 <==> exists|i: int| 0 <= i < locks@.len() && #[trigger] locks@[i] >= 2,
{
    let mut i: usize = 0;
    while i < locks.len()
        invariant
            i <= locks.len(),
            forall|k: int| 0 <= k < i ==> #[trigger] locks@[k] < SQLITE_LOCK_RESERVED,
        decreases locks.len() - i,
    {
        if locks[i] >= SQLITE_LOCK_RESERVED {
            assert(locks@[i as int] >= SQLITE_LOCK_RESERVED);
            return (SQLITE_OK, 1);
        }
        i += 1;
    }
    (SQLITE_OK, 0)
}

/// Where no open file of a path has a lock for writing, none is told of; where
/// one has, it is, whichever files are open besides.
pub proof fn law_reserved_lock_is_told(files: Seq<&FileHandle>, path: Seq<char>)
    ensures
        holds_reserved(locks_at(files, path)) <==> exists|i: int|
            0 <= i < files.len() && (#[trigger] files[i]).fname@ == path && files[i].lock
                >= SQLITE_LOCK_RESERVED,
    decreases files.len(),
{
    reveal(Seq::filter);
    if files.len() > 0 {
        let front = files.drop_last();
        let last = files.last();
        law_reserved_lock_is_told(front, path);
        let before = locks_at(front, path);
        let now = locks_at(files, path);
        if last.fname@ == path {
            assert(now =~= before.push(last.lock));
        } else {
            assert(now =~= before);
        }
        if holds_reserved(now) {
            let i = choose|i: int| 0 <= i < now.len() && #[trigger] now[i] >= SQLITE_LOCK_RESERVED;
            if i < before.len() {
                assert(before[i] >= SQLITE_LOCK_RESERVED);
                let k = choose|k: int|
                    0 <= k < front.len() && (#[trigger] front[k]).fname@ == path && front[k].lock
                        >= SQLITE_LOCK_RESERVED;
                assert(files[k].fname@ == path);
            } else {
                assert(files[files.len() - 1].fname@ == path);
            }
        }
        if exists|i: int|
            0 <= i < files.len() && (#[trigger] files[i]).fname@ == path && files[i].lock
                >= SQLITE_LOCK_RESERVED {
            let i = choose|i: int|
                0 <= i < files.len() && (#[trigger] files[i]).fname@ == path && files[i].lock
                    >= SQLITE_LOCK_RESERVED;
            if i < front.len() {
                assert(front[i].fname@ == path);
                let k = choose|k: int|
                    0 <= k < before.len() && #[trigger] before[k] >= SQLITE_LOCK_RESERVED;
                assert(now[k] >= SQLITE_LOCK_RESERVED);
            } else {
                assert(now[before.len() as int] >= SQLITE_LOCK_RESERVED);
            }
        }
    }
}

/// The size of a sector.
pub fn sector_size() -> (size: i32)
    ensures
        size == SECTOR_SIZE,
        size == 4096,
{
    SECTOR_SIZE
}

/// The code for any special operation: there is none.
pub fn file_control() -> (code: i32)
    ensures
        code == SQLITE_NOTFOUND,
        code == 12,
{
    SQLITE_NOTFOUND
}

/// What can be relied on of the host's files.
pub fn device_characteristics() -> (flags: i32)
    ensures
        flags == SQLITE_IOCAP_UNDELETABLE_WHEN_OPEN | SQLITE_IOCAP_SAFE_APPEND,
        flags == 0xa00,
{
    assert(2048i32 | 512i32 == 0xa00) by (bit_vector);
    SQLITE_IOCAP_UNDELETABLE_WHEN_OPEN | SQLITE_IOCAP_SAFE_APPEND
}

/// When SQLite reads a file, it gets the bytes that the file has from `at` on
/// and zeros behind them, and is told whether any were missing.
pub proof fn law_read_gives_content_then_zeros(
    content: Seq<u8>,
    at: int,
    amount: i32,
    buf: Seq<u8>,
    nread: i64,
)
    requires
        at >= 0,
        amount >= 0,
        buf.len() == amount,
        nread == read_bytes(content, at, amount as nat).len(),
        buf.take(nread as int) == read_bytes(content, at, amount as nat),
    ensures
        ((nread as i32) < amount) == (content.len() < at + amount && amount > 0),
        forall|i: int|
            0 <= i < amount ==> #[trigger] zero_filled(buf, nread as int)[i] == if at + i
                < content.len() {
                content[at + i]
            } else {
                0
            },
{
    assert forall|i: int| 0 <= i < amount implies #[trigger] zero_filled(buf, nread as int)[i]
        == if at + i < content.len() {
        content[at + i]
    } else {
        0
    } by {
        if i < nread {
            assert(buf[i] == buf.take(nread as int)[i]);
        }
    }
}

/// What SQLite has written to a file it reads back from the same place, whole:
/// the buffer holds the bytes written, and none are missing.
pub proof fn law_sqlite_reads_what_it_wrote(
    pool: PoolView,
    contents: Map<u32, Seq<u8>>,
    path: Seq<char>,
    at: i64,
    data: Seq<u8>,
    amount: i32,
    buf: Seq<u8>,
    nread: i64,
)
    requires
        at >= 0,
        data.len() == amount,
        buf.len() == amount,
        ({
            let handle = pool.handle_of(path);
            let after = performed(contents, ActionView::Write { handle, data, at });
            let given = read_bytes(after[handle], at as int, amount as nat);
            nread == given.len() && buf.take(nread as int) == given
        }),
    ensures
        !((nread as i32) < amount),
        buf == data,
{
    law_read_after_write(contents[pool.handle_of(path)], at as int, data);
    assert(buf.take(nread as int) =~= buf);
}

/// A file is given up when it is closed exactly where the bit of value 8 of its
/// flags is set: whatever its other flags, path and lock are.
pub proof fn law_one_flag_deletes_on_close(file: FileHandle, other: FileHandle)
    ensures
        file.flags >= 0 ==> (deletes_on_close(file) <==> (file.flags / 8) % 2 == 1),
        (file.flags ^ other.flags) & 8 == 0 ==> deletes_on_close(file) == deletes_on_close(other),
        (file.flags ^ other.flags) & 8 != 0 ==> deletes_on_close(file) != deletes_on_close(other),
{
    let a = file.flags;
    let b = other.flags;
    assert(a >= 0 ==> ((a & 8i32 != 0) <==> (a as u32 / 8) % 2 == 1)) by (bit_vector);
    assert((a ^ b) & 8i32 == 0 ==> ((a & 8i32 != 0) == (b & 8i32 != 0))) by (bit_vector);
    assert((a ^ b) & 8i32 != 0 ==> ((a & 8i32 != 0) != (b & 8i32 != 0))) by (bit_vector);
}

/// A plan that deletes a file leaves its backing file without content, then
/// writes the metadata, each flushed after it has been changed, touches no other
/// file, and ends with the code for success.
pub proof fn law_plan_to_delete(
    pool: PoolView,
    path: Seq<char>,
    bytes: Seq<u8>,
    plan: Planned<i32>,
    contents: Map<u32, Seq<u8>>,
    meta: u32,
    other: u32,
)
    requires
        pool.wf(),
        pool.metadata.files.dom().contains(path),
        pool.meta_handle == Some(meta),
        bytes.len() < 0x1_0000_0000,
        other != meta,
        other != pool.handle_of(path),
        deletes(pool, path, bytes, plan),
    ensures
        plan.outcome == Ok::<i32, PoolError>(0i32),
        ({
            let actions = action_views(plan.actions@);
            let after = performed_all(contents, actions);
            &&& after[pool.handle_of(path)].len() == 0
            &&& after[meta] == bytes
            &&& after[other] == contents[other]
            &&& actions == seq![
                ActionView::Truncate { handle: pool.handle_of(path), size: 0 },
                ActionView::Flush { handle: pool.handle_of(path) },
                ActionView::Write { handle: meta, data: bytes, at: 0 },
                ActionView::Truncate { handle: meta, size: bytes.len() as u32 },
                ActionView::Flush { handle: meta },
            ]
        }),
{
    let handle = pool.handle_of(path);
    let t = ActionView::Truncate { handle, size: 0 };
    let f = ActionView::Flush { handle };
    let actions = action_views(plan.actions@);
    assert(pool.handles.dom().contains(pool.metadata.files[path]));
    lemma_performed_concat(contents, seq![t, f], persist_actions(meta, bytes));
    lemma_performed_three(contents, t, f, f);
    law_persist_writes_the_metadata(performed(contents, t), meta, bytes, handle);
    law_persist_writes_the_metadata(performed(contents, t), meta, bytes, other);
    assert(actions =~= seq![
        t,
        f,
        ActionView::Write { handle: meta, data: bytes, at: 0 },
        ActionView::Truncate { handle: meta, size: bytes.len() as u32 },
        ActionView::Flush { handle: meta },
    ]);
}

/// Where the metadata file is not open, a plan to delete a file empties its
/// backing file and fails.
pub proof fn law_plan_to_delete_fails_without_metadata(
    pool: PoolView,
    path: Seq<char>,
    bytes: Seq<u8>,
    plan: Planned<i32>,
    contents: Map<u32, Seq<u8>>,
    other: u32,
)
    requires
        pool.meta_handle is None,
        other != pool.handle_of(path),
        deletes(pool, path, bytes, plan),
    ensures
        plan.outcome == Err::<i32, PoolError>(PoolError::NotInited),
        action_views(plan.actions@) == seq![
            ActionView::Truncate { handle: pool.handle_of(path), size: 0 },
            ActionView::Flush { handle: pool.handle_of(path) },
        ],
        performed_all(contents, action_views(plan.actions@))[pool.handle_of(path)].len() == 0,
        performed_all(contents, action_views(plan.actions@))[other] == contents[other],
{
    let handle = pool.handle_of(path);
    let t = ActionView::Truncate { handle, size: 0 };
    let f = ActionView::Flush { handle };
    lemma_performed_three(contents, t, f, f);
}

/// The locks on a path are those of the open files of that path, one for each,
/// in their order, whatever they are; the other files add none.
pub proof fn law_every_lock_of_a_path_is_listed(
    files: Seq<&FileHandle>,
    file: &FileHandle,
    path: Seq<char>,
)
    ensures
        locks_at(Seq::<&FileHandle>::empty(), path) == Seq::<i32>::empty(),
        file.fname@ == path ==> locks_at(files.push(file), path) == locks_at(files, path).push(
            file.lock,
        ),
        file.fname@ != path ==> locks_at(files.push(file), path) == locks_at(files, path),
{
    reveal(Seq::filter);
    let more = files.push(file);
    assert(more.drop_last() =~= files);
    assert(more.last() == file);
    if file.fname@ == path {
        assert(locks_at(more, path) =~= locks_at(files, path).push(file.lock));
    }
    assert(locks_at(Seq::<&FileHandle>::empty(), path) =~= Seq::<i32>::empty());
}

/// When a read has ended early, the bytes that it gave stay and all behind them
/// are zero; the buffer is as long as it was.
pub proof fn law_missing_bytes_become_zeros(buf: Seq<u8>, nread: int, i: int)
    ensures
        zero_filled(buf, nread).len() == buf.len(),
        0 <= i < buf.len() && i < nread ==> zero_filled(buf, nread)[i] == buf[i],
        nread <= i < buf.len() && i >= 0 ==> zero_filled(buf, nread)[i] == 0,
{
}

} // verus!
