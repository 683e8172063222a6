use logseq_sqlite::codes;
use logseq_sqlite::file_action::FileAction;
use logseq_sqlite::init::{InitAction, InitEvent, InitStage};
use logseq_sqlite::io_methods;
use logseq_sqlite::opfs_vfs;
use logseq_sqlite::pool::{FileHandle, Pool};

/// A pool whose metadata file has handle 0 and whose backing files have
/// handles 1 to 6.
fn open_pool() -> Pool {
    let mut pool = Pool::new();
    let mut handle: u32 = 0;
    let mut stage = InitStage::Start;
    let mut event = InitEvent::Begin;
    loop {
        let (next, action) = pool.init(stage, event);
        stage = next;
        event = match action {
            InitAction::OpenRoot => InitEvent::Performed,
            InitAction::Open { .. } => {
                handle += 1;
                InitEvent::Opened { handle: handle - 1 }
            }
            InitAction::Measure { .. } => InitEvent::Sized { size: 0 },
            InitAction::Perform { .. } => InitEvent::Performed,
            InitAction::Done => return pool,
            other => panic!("{:?}", other),
        };
    }
}

fn file(name: &str, flags: i32) -> FileHandle {
    FileHandle { fname: name.to_string(), flags, lock: 0 }
}

#[test]
fn numbers_are_those_of_sqlite() {
    assert_eq!(codes::SQLITE_OK, libsqlite3_sys::SQLITE_OK);
    assert_eq!(codes::SQLITE_IOERR, libsqlite3_sys::SQLITE_IOERR);
    assert_eq!(codes::SQLITE_IOERR_READ, libsqlite3_sys::SQLITE_IOERR_READ);
    assert_eq!(codes::SQLITE_IOERR_SHORT_READ, libsqlite3_sys::SQLITE_IOERR_SHORT_READ);
    assert_eq!(codes::SQLITE_IOERR_WRITE, libsqlite3_sys::SQLITE_IOERR_WRITE);
    assert_eq!(codes::SQLITE_IOERR_FSYNC, libsqlite3_sys::SQLITE_IOERR_FSYNC);
    assert_eq!(codes::SQLITE_IOERR_TRUNCATE, libsqlite3_sys::SQLITE_IOERR_TRUNCATE);
    assert_eq!(codes::SQLITE_IOERR_FSTAT, libsqlite3_sys::SQLITE_IOERR_FSTAT);
    assert_eq!(codes::SQLITE_IOERR_DELETE, libsqlite3_sys::SQLITE_IOERR_DELETE);
    assert_eq!(codes::SQLITE_NOTFOUND, libsqlite3_sys::SQLITE_NOTFOUND);
    assert_eq!(codes::SQLITE_CANTOPEN, libsqlite3_sys::SQLITE_CANTOPEN);
    assert_eq!(codes::SQLITE_OPEN_CREATE, libsqlite3_sys::SQLITE_OPEN_CREATE);
    assert_eq!(codes::SQLITE_OPEN_DELETEONCLOSE, libsqlite3_sys::SQLITE_OPEN_DELETEONCLOSE);
    assert_eq!(
        codes::SQLITE_IOCAP_UNDELETABLE_WHEN_OPEN,
        libsqlite3_sys::SQLITE_IOCAP_UNDELETABLE_WHEN_OPEN
    );
    assert_eq!(codes::SQLITE_IOCAP_SAFE_APPEND, libsqlite3_sys::SQLITE_IOCAP_SAFE_APPEND);
    assert_eq!(codes::SQLITE_LOCK_NONE, libsqlite3_sys::SQLITE_LOCK_NONE);
    assert_eq!(codes::SQLITE_LOCK_RESERVED, libsqlite3_sys::SQLITE_LOCK_RESERVED);
}

#[test]
fn a_file_without_a_name_is_refused() {
    let mut pool = open_pool();
    assert_eq!(opfs_vfs::open(&mut pool, None, 6).unwrap_err(), 10);
}

#[test]
fn a_file_is_opened() {
    let mut pool = open_pool();
    let opened = opfs_vfs::open(&mut pool, Some("a"), 0x106).unwrap();
    assert_eq!(opened.file, file("a", 0x106));
    assert_eq!(opened.out_flags, 0x106);
    assert_eq!(opened.code, 0);
    assert_eq!(opened.actions.len(), 3);
    assert_eq!(pool.get_file_handle("a").unwrap(), 6);

    // It is there now, so nothing has to be done.
    let opened = opfs_vfs::open(&mut pool, Some("a"), 0x106).unwrap();
    assert!(opened.actions.is_empty());
    let opened = opfs_vfs::open(&mut pool, Some("a"), 0x102).unwrap();
    assert!(opened.actions.is_empty());
    assert_eq!(opened.file, file("a", 0x102));
    assert_eq!(pool.get_file_handle("a").unwrap(), 6);
}

#[test]
fn a_file_is_closed() {
    let mut pool = open_pool();
    let opened = opfs_vfs::open(&mut pool, Some("a"), 6).unwrap();
    assert_eq!(
        io_methods::close(&pool, &opened.file),
        FileAction::Flush { handle: 6 }
    );
    let plan = io_methods::finish_close(&mut pool, opened.file);
    assert_eq!(plan.outcome.unwrap(), 0);
    assert!(plan.actions.is_empty());
    assert!(pool.has_file("a"));
}

#[test]
fn a_temporary_file_is_deleted_when_it_is_closed() {
    let mut pool = open_pool();
    let opened = opfs_vfs::open(&mut pool, Some("t"), 4 | 8).unwrap();
    let plan = io_methods::finish_close(&mut pool, opened.file);
    assert_eq!(plan.outcome.unwrap(), 0);
    assert_eq!(plan.actions.len(), 5);
    assert_eq!(plan.actions[0], FileAction::Truncate { handle: 6, size: 0 });
    assert!(!pool.has_file("t"));
}

#[test]
fn codes_of_a_read() {
    let mut pool = open_pool();
    let opened = opfs_vfs::open(&mut pool, Some("a"), 4).unwrap();
    assert_eq!(
        io_methods::read(&pool, &opened.file, 4, 100).unwrap(),
        FileAction::Read { handle: 6, len: 4, at: 100 }
    );
    assert_eq!(io_methods::read(&pool, &file("b", 0), 4, 100).unwrap_err(), 266);

    let mut buf = [1u8, 2, 3, 4];
    assert_eq!(io_methods::finish_read(&mut buf, 4, Some(4)), 0);
    assert_eq!(buf, [1, 2, 3, 4]);
    assert_eq!(io_methods::finish_read(&mut buf, 4, None), 266);
    assert_eq!(buf, [1, 2, 3, 4]);
    assert_eq!(io_methods::finish_read(&mut buf, 4, Some(3)), 522);
    assert_eq!(buf, [1, 2, 3, 0]);
    assert_eq!(io_methods::finish_read(&mut buf, 4, Some(0)), 522);
    assert_eq!(buf, [0, 0, 0, 0]);
    assert_eq!(io_methods::finish_read(&mut [], 0, Some(0)), 0);
}

#[test]
fn codes_of_a_write() {
    let mut pool = open_pool();
    let opened = opfs_vfs::open(&mut pool, Some("a"), 4).unwrap();
    assert_eq!(
        io_methods::write(&pool, &opened.file, &[7, 8], 3).unwrap(),
        FileAction::Write { handle: 6, data: vec![7, 8], at: 3 }
    );
    assert_eq!(io_methods::write(&pool, &file("b", 0), &[7], 3).unwrap_err(), 778);
    assert_eq!(io_methods::finish_write(2, Some(2)), 0);
    assert_eq!(io_methods::finish_write(2, None), 778);
}

#[test]
fn codes_of_a_truncation() {
    let mut pool = open_pool();
    let opened = opfs_vfs::open(&mut pool, Some("a"), 4).unwrap();
    assert_eq!(
        io_methods::truncate(&pool, &opened.file, 512).unwrap(),
        FileAction::Truncate { handle: 6, size: 512 }
    );
    assert_eq!(
        io_methods::truncate(&pool, &opened.file, -1).unwrap(),
        FileAction::Truncate { handle: 6, size: u32::MAX }
    );
    assert_eq!(io_methods::truncate(&pool, &file("b", 0), 0).unwrap_err(), 1546);
    assert_eq!(io_methods::finish_truncate(true), 0);
    assert_eq!(io_methods::finish_truncate(false), 1546);
}

#[test]
fn codes_of_a_sync() {
    let mut pool = open_pool();
    let opened = opfs_vfs::open(&mut pool, Some("a"), 4).unwrap();
    assert_eq!(
        io_methods::sync(&pool, &opened.file).unwrap(),
        FileAction::Flush { handle: 6 }
    );
    assert_eq!(io_methods::sync(&pool, &file("b", 0)).unwrap_err(), 1034);
    assert_eq!(io_methods::finish_sync(true), 0);
    assert_eq!(io_methods::finish_sync(false), 1034);
}

#[test]
fn codes_of_a_size() {
    let mut pool = open_pool();
    let opened = opfs_vfs::open(&mut pool, Some("a"), 4).unwrap();
    assert_eq!(
        io_methods::file_size(&pool, &opened.file).unwrap(),
        FileAction::Size { handle: 6 }
    );
    assert_eq!(io_methods::file_size(&pool, &file("b", 0)).unwrap_err(), 1802);
    assert_eq!(io_methods::finish_file_size(Some(4096)), (0, Some(4096)));
    assert_eq!(io_methods::finish_file_size(Some(u64::MAX)), (0, Some(-1)));
    assert_eq!(io_methods::finish_file_size(None), (1802, None));
}

#[test]
fn locks_are_noted() {
    let mut f = file("a", 4);
    assert_eq!(io_methods::lock(&mut f, 2), 0);
    assert_eq!(f.lock, 2);
    assert_eq!(io_methods::unlock(&mut f, 1), 0);
    assert_eq!(f, FileHandle { fname: "a".to_string(), flags: 4, lock: 1 });
}

#[test]
fn a_lock_for_writing_is_told_of() {
    let mut pool = open_pool();
    let mut a = opfs_vfs::open(&mut pool, Some("a"), 6).unwrap().file;
    let mut again = opfs_vfs::open(&mut pool, Some("a"), 6).unwrap().file;
    let mut b = opfs_vfs::open(&mut pool, Some("b"), 6).unwrap().file;
    let told = |files: Vec<&FileHandle>| {
        io_methods::check_reserved_lock(&io_methods::locks_on(&files, "a"))
    };
    // No connection has called for a lock yet.
    assert_eq!(told(vec![&a, &again, &b]), (0, 0));
    // A shared lock is not one for writing.
    let _ = io_methods::lock(&mut a, 1);
    assert_eq!(told(vec![&a, &again, &b]), (0, 0));
    // A lock on another file does not count.
    let _ = io_methods::lock(&mut b, 4);
    assert_eq!(told(vec![&a, &again, &b]), (0, 0));
    for lock_type in [2, 3, 4] {
        let _ = io_methods::lock(&mut again, lock_type);
        assert_eq!(told(vec![&a, &again, &b]), (0, 1));
        let _ = io_methods::unlock(&mut again, 1);
        assert_eq!(told(vec![&a, &again, &b]), (0, 0));
    }
    assert_eq!(told(vec![]), (0, 0));
    assert_eq!(io_methods::check_reserved_lock(&vec![0, 1, 1]), (0, 0));
    assert_eq!(io_methods::check_reserved_lock(&vec![0, 2, 1]), (0, 1));
    assert_eq!(io_methods::locks_on(&vec![&a, &b, &again], "a"), vec![1, 1]);
    assert_eq!(io_methods::locks_on(&vec![&a, &b, &again], "b"), vec![4]);
}

#[test]
fn what_is_told_of_every_file() {
    assert_eq!(io_methods::sector_size(), 4096);
    assert_eq!(io_methods::file_control(), 12);
    assert_eq!(io_methods::device_characteristics(), 0xa00);
    assert_eq!(opfs_vfs::get_last_error(), 0);
}

#[test]
fn a_file_is_deleted_by_name() {
    let mut pool = open_pool();
    let _ = opfs_vfs::open(&mut pool, Some("a"), 4).unwrap();
    assert_eq!(opfs_vfs::access(&pool, "a"), (0, 1));
    let plan = opfs_vfs::delete(&mut pool, "a");
    assert_eq!(plan.outcome.unwrap(), 0);
    assert_eq!(plan.actions.len(), 5);
    assert_eq!(opfs_vfs::access(&pool, "a"), (0, 0));
    assert_eq!(opfs_vfs::finish_delete(true), 0);
    assert_eq!(opfs_vfs::finish_delete(false), 2570);
}

#[test]
fn the_full_form_of_a_path() {
    let mut out = [9u8; 8];
    assert_eq!(opfs_vfs::fullpathname("ab", 5, &mut out), 0);
    assert_eq!(out, [b'a', b'b', 0, 9, 9, 0, 9, 9]);

    let mut out = [9u8; 4];
    assert_eq!(opfs_vfs::fullpathname("abc", 3, &mut out), 0);
    assert_eq!(out, [b'a', b'b', b'c', 0]);

    let mut out = [9u8; 4];
    assert_eq!(opfs_vfs::fullpathname("abcd", 3, &mut out), 14);
    assert_eq!(out, [9, 9, 9, 9]);

    // Bytes are counted, not characters.
    let mut out = [9u8; 4];
    assert_eq!(opfs_vfs::fullpathname("üü", 3, &mut out), 14);
    let mut out = [9u8; 5];
    assert_eq!(opfs_vfs::fullpathname("üü", 4, &mut out), 0);
    assert_eq!(out, [0xc3, 0xbc, 0xc3, 0xbc, 0]);
}

#[test]
fn random_bytes() {
    let mut out = [0u8; 64];
    assert_eq!(opfs_vfs::randomness(&mut out), Some(0));
    let mut again = [0u8; 64];
    assert_eq!(opfs_vfs::randomness(&mut again), Some(0));
    assert_ne!(out, [0u8; 64]);
    assert_ne!(out, again);
    assert_eq!(opfs_vfs::randomness(&mut []), Some(0));
    assert_eq!(opfs_vfs::finish_randomness(true), Some(0));
    assert_eq!(opfs_vfs::finish_randomness(false), None);
}

#[test]
fn how_the_file_system_is_made_known() {
    let registration = opfs_vfs::init_sqlite_vfs();
    assert_eq!(registration.version, 1);
    assert_eq!(registration.max_pathname, 1024);
    assert_eq!(registration.name, "logseq-sahpool-opfs");
    assert!(registration.make_default);
}
