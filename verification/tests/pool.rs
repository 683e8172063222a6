use logseq_sqlite::error::PoolError;
use logseq_sqlite::file_action::{low_bits, FileAction};
use logseq_sqlite::init::{make_empty_file, InitAction, InitEvent, InitStage};
use logseq_sqlite::io_methods;
use logseq_sqlite::metadata::GlobalMetadata;
use logseq_sqlite::opfs_vfs;
use logseq_sqlite::pool::{is_db_file, FileHandle, Pool};

/// A directory of files, each opened at most once at a time.
struct Host {
    names: Vec<String>,
    contents: Vec<Vec<u8>>,
    closed: Vec<u32>,
    asked: Vec<String>,
}

impl Host {
    fn new() -> Host {
        Host {
            names: Vec::new(),
            contents: Vec::new(),
            closed: Vec::new(),
            asked: Vec::new(),
        }
    }

    fn open(&mut self, name: &str) -> u32 {
        if let Some(i) = self.names.iter().position(|n| n == name) {
            return i as u32;
        }
        self.names.push(name.to_string());
        self.contents.push(Vec::new());
        (self.names.len() - 1) as u32
    }

    fn content(&self, name: &str) -> &Vec<u8> {
        let i = self.names.iter().position(|n| n == name).unwrap();
        &self.contents[i]
    }

    fn perform(&mut self, actions: &[FileAction]) {
        for action in actions {
            match action {
                FileAction::Write { handle, data, at } => {
                    let content = &mut self.contents[*handle as usize];
                    let at = *at as usize;
                    if content.len() < at + data.len() {
                        content.resize(at + data.len(), 0);
                    }
                    content[at..at + data.len()].copy_from_slice(data);
                }
                FileAction::Truncate { handle, size } => {
                    self.contents[*handle as usize].resize(*size as usize, 0);
                }
                FileAction::Close { handle } => self.closed.push(*handle),
                FileAction::Flush { .. } => {}
                other => panic!("{:?}", other),
            }
        }
    }

    fn read(&self, action: &FileAction) -> Vec<u8> {
        match action {
            FileAction::Read { handle, len, at } => {
                let content = &self.contents[*handle as usize];
                let start = (*at as usize).min(content.len());
                let end = (*at as usize + len).min(content.len());
                content[start..end].to_vec()
            }
            other => panic!("{:?}", other),
        }
    }

    fn init(&mut self, pool: &mut Pool) -> Result<(), PoolError> {
        let mut stage = InitStage::Start;
        let mut event = InitEvent::Begin;
        loop {
            let (next, action) = pool.init(stage, event);
            stage = next;
            event = match action {
                InitAction::OpenRoot => InitEvent::Performed,
                InitAction::Open { name } => {
                    self.asked.push(name.clone());
                    InitEvent::Opened {
                        handle: self.open(&name),
                    }
                }
                InitAction::Measure { handle } => InitEvent::Sized {
                    size: self.contents[handle as usize].len(),
                },
                InitAction::ReadAll { handle, len } => {
                    assert_eq!(len, self.contents[handle as usize].len());
                    InitEvent::Content {
                        bytes: self.contents[handle as usize].clone(),
                    }
                }
                InitAction::Perform { actions } => {
                    self.perform(&actions);
                    InitEvent::Performed
                }
                InitAction::Done => return Ok(()),
                InitAction::Fail { error } => return Err(error),
            };
        }
    }
}

fn file(name: &str) -> FileHandle {
    FileHandle {
        fname: name.to_string(),
        flags: 0,
        lock: 0,
    }
}

#[test]
fn the_first_opening_makes_empty_files() {
    let mut host = Host::new();
    let mut pool = Pool::new();
    host.init(&mut pool).unwrap();
    assert_eq!(host.names.len(), 7);
    assert_eq!(host.names[0], "metadata.bincode");
    assert_eq!(host.asked, host.names);
    let recorded = GlobalMetadata::decode(host.content("metadata.bincode")).unwrap();
    assert_eq!(recorded.version, 1);
    assert_eq!(recorded.empty_files, host.names[1..].to_vec());
    assert_eq!(recorded.files.len(), 0);
}

#[test]
fn an_empty_file_is_asked_for_by_name() {
    match make_empty_file(3, "x.raw".to_string()) {
        (InitStage::Empty { left, name }, InitAction::Open { name: asked }) => {
            assert_eq!(left, 3);
            assert_eq!(name, "x.raw");
            assert_eq!(asked, "x.raw");
        }
        other => panic!("{:?}", other),
    }
}

#[test]
fn an_open_pool_is_not_opened_again() {
    let mut host = Host::new();
    let mut pool = Pool::new();
    host.init(&mut pool).unwrap();
    host.init(&mut pool).unwrap();
    assert_eq!(host.asked.len(), 7);
    assert_eq!(host.names.len(), 7);
}

#[test]
fn a_pool_opened_again_has_the_same_files() {
    let mut host = Host::new();
    let mut pool = Pool::new();
    host.init(&mut pool).unwrap();
    let plan = pool.get_or_create_file("logseq_db_a");
    let handle = plan.outcome.unwrap();
    host.perform(&plan.actions);
    let action = pool.write(&file("logseq_db_a"), b"data", 2).unwrap();
    host.perform(&[action]);

    let mut again = Pool::new();
    host.init(&mut again).unwrap();
    assert_eq!(again.list_db(), vec!["logseq_db_a".to_string()]);
    assert_eq!(again.get_file_handle("logseq_db_a").unwrap(), handle);
    let action = again.read(&file("logseq_db_a"), 10, 0).unwrap();
    assert_eq!(host.read(&action), b"\0\0data");
    // Five empty files were left, so a full set has been made.
    let recorded = GlobalMetadata::decode(host.content("metadata.bincode")).unwrap();
    assert_eq!(recorded.empty_files.len(), 11);
    assert_eq!(host.names.len(), 13);
}

#[test]
fn enough_empty_files_are_left_alone() {
    let mut host = Host::new();
    host.init(&mut Pool::new()).unwrap();
    let before = host.content("metadata.bincode").clone();
    host.init(&mut Pool::new()).unwrap();
    assert_eq!(host.names.len(), 7);
    assert_eq!(host.content("metadata.bincode"), &before);
}

#[test]
fn metadata_that_cannot_be_read_is_refused() {
    let mut host = Host::new();
    let handle = host.open("metadata.bincode");
    host.contents[handle as usize] = vec![1, 2, 3];
    let mut pool = Pool::new();
    match host.init(&mut pool) {
        Err(PoolError::Decode(text)) => {
            assert_eq!(
                text,
                bincode::deserialize::<i32>(&[1, 2, 3]).unwrap_err().to_string()
            );
        }
        other => panic!("{:?}", other),
    }
    assert_eq!(host.names, vec!["metadata.bincode".to_string()]);
    // The metadata file stays open.
    assert!(host.init(&mut pool).is_ok());
    assert_eq!(host.contents[handle as usize], vec![1, 2, 3]);
}

#[test]
fn the_backing_files_of_a_record_are_opened_in_turn() {
    let mut metadata = GlobalMetadata::new();
    metadata.files.insert("a".to_string(), "1.raw".to_string());
    for i in 2..8 {
        metadata.empty_files.push(format!("{}.raw", i));
    }
    let mut host = Host::new();
    let handle = host.open("metadata.bincode");
    host.contents[handle as usize] = metadata.encode();
    let mut pool = Pool::new();
    host.init(&mut pool).unwrap();
    assert_eq!(
        host.asked,
        vec![
            "metadata.bincode", "1.raw", "2.raw", "3.raw", "4.raw", "5.raw", "6.raw", "7.raw"
        ]
    );
    assert_eq!(host.content("metadata.bincode"), &metadata.encode());
}

#[test]
fn a_file_is_created_from_the_last_empty_one() {
    let mut host = Host::new();
    let mut pool = Pool::new();
    host.init(&mut pool).unwrap();
    assert!(!pool.has_file("a"));
    let plan = pool.get_or_create_file("a");
    assert_eq!(plan.outcome.unwrap(), 6);
    host.perform(&plan.actions);
    assert!(pool.has_file("a"));
    let recorded = GlobalMetadata::decode(host.content("metadata.bincode")).unwrap();
    assert_eq!(recorded.files.get("a"), Some(&host.names[6]));
    assert_eq!(recorded.empty_files, host.names[1..6].to_vec());

    let plan = pool.get_or_create_file("a");
    assert_eq!(plan.outcome.unwrap(), 6);
    assert!(plan.actions.is_empty());
}

#[test]
fn files_are_kept_apart() {
    let mut host = Host::new();
    let mut pool = Pool::new();
    host.init(&mut pool).unwrap();
    let mut handles = Vec::new();
    for name in ["a", "b", "c", "d", "e", "f"] {
        handles.push(pool.get_or_create_file(name).outcome.unwrap());
    }
    assert_eq!(handles, vec![6, 5, 4, 3, 2, 1]);
    let action = pool.write(&file("a"), &[1, 2, 3], 0).unwrap();
    host.perform(&[action]);
    let action = pool.write(&file("b"), &[9], 1).unwrap();
    host.perform(&[action]);
    let read = |name: &str| host.read(&pool.read(&file(name), 8, 0).unwrap());
    assert_eq!(read("a"), vec![1, 2, 3]);
    assert_eq!(read("b"), vec![0, 9]);
    assert_eq!(read("c"), Vec::<u8>::new());
}

#[test]
fn to_delete_undoes_to_create() {
    let mut host = Host::new();
    let mut pool = Pool::new();
    host.init(&mut pool).unwrap();
    let before = host.content("metadata.bincode").clone();

    let plan = pool.get_or_create_file("a");
    host.perform(&plan.actions);
    let action = pool.write(&file("a"), &[1, 2, 3], 0).unwrap();
    host.perform(&[action]);
    assert_ne!(host.content("metadata.bincode"), &before);

    let plan = pool.delete("a");
    assert!(plan.outcome.is_ok());
    assert_eq!(plan.actions.len(), 5);
    assert_eq!(plan.actions[0], FileAction::Truncate { handle: 6, size: 0 });
    assert_eq!(plan.actions[1], FileAction::Flush { handle: 6 });
    assert_eq!(
        plan.actions[2],
        FileAction::Write { handle: 0, data: before.clone(), at: 0 }
    );
    assert_eq!(
        plan.actions[3],
        FileAction::Truncate { handle: 0, size: before.len() as u32 }
    );
    assert_eq!(plan.actions[4], FileAction::Flush { handle: 0 });
    host.perform(&plan.actions);
    assert_eq!(host.content("metadata.bincode"), &before);
    assert!(!pool.has_file("a"));
    assert_eq!(host.contents[6].len(), 0);

    // The next file is blank again.
    assert_eq!(pool.get_or_create_file("b").outcome.unwrap(), 6);
    assert_eq!(host.read(&pool.read(&file("b"), 8, 0).unwrap()), Vec::<u8>::new());
}

#[test]
fn metadata_is_recorded_as_soon_as_it_is_written() {
    let mut host = Host::new();
    let mut pool = Pool::new();
    host.init(&mut pool).unwrap();
    for name in ["a", "b"] {
        let plan = pool.get_or_create_file(name);
        host.perform(&plan.actions);
    }
    let long = host.content("metadata.bincode").len();
    let plan = pool.delete("a");
    // Only the first of the requests on the metadata file is performed.
    host.perform(&plan.actions[..3]);
    assert_eq!(host.content("metadata.bincode").len(), long);
    let recorded = GlobalMetadata::decode(host.content("metadata.bincode")).unwrap();
    assert_eq!(recorded.files.len(), 1);
    assert!(recorded.files.get("b").is_some());
    assert_eq!(recorded.empty_files.len(), 5);
}

#[test]
fn requests_on_a_file() {
    let mut host = Host::new();
    let mut pool = Pool::new();
    host.init(&mut pool).unwrap();
    let _ = pool.get_or_create_file("a");
    let f = file("a");
    assert_eq!(
        pool.read(&f, 7, -1).unwrap(),
        FileAction::Read { handle: 6, len: 7, at: -1 }
    );
    assert_eq!(
        pool.write(&f, &[5, 6], 1 << 40).unwrap(),
        FileAction::Write { handle: 6, data: vec![5, 6], at: 1 << 40 }
    );
    assert_eq!(pool.flush(&f).unwrap(), FileAction::Flush { handle: 6 });
    assert_eq!(pool.file_size("a").unwrap(), FileAction::Size { handle: 6 });
    assert_eq!(
        pool.truncate(&f, 0x5_0000_0007).unwrap(),
        FileAction::Truncate { handle: 6, size: 7 }
    );
}

#[test]
fn a_file_that_is_not_there() {
    let pool = Pool::new();
    let f = file("a");
    let not_found = |e: PoolError| assert_eq!(e.message(), "file not found");
    not_found(pool.get_file_handle("a").unwrap_err());
    not_found(pool.read(&f, 1, 0).unwrap_err());
    not_found(pool.write(&f, &[1], 0).unwrap_err());
    not_found(pool.flush(&f).unwrap_err());
    not_found(pool.file_size("a").unwrap_err());
    not_found(pool.truncate(&f, 0).unwrap_err());
}

#[test]
fn metadata_is_not_written_before_it_is_open() {
    let mut pool = Pool::new();
    let plan = pool.persist_metadata();
    assert!(plan.actions.is_empty());
    assert_eq!(plan.outcome.unwrap_err().message(), "metadata file is not inited");

    pool.add_new_empty_file("x.raw".to_string(), 3);
    let plan = pool.get_or_create_file("a");
    assert!(plan.actions.is_empty());
    assert_eq!(plan.outcome.unwrap_err().message(), "metadata file is not inited");
    // The path has been given its backing file all the same.
    assert_eq!(pool.get_file_handle("a").unwrap(), 3);

    let plan = pool.delete("a");
    assert_eq!(
        plan.actions,
        vec![
            FileAction::Truncate { handle: 3, size: 0 },
            FileAction::Flush { handle: 3 }
        ]
    );
    assert!(plan.outcome.is_err());
    assert!(!pool.has_file("a"));
}

#[test]
fn deinit_forgets_everything() {
    let mut host = Host::new();
    let mut pool = Pool::new();
    host.init(&mut pool).unwrap();
    let _ = pool.get_or_create_file("a");
    let actions = pool.deinit();
    host.perform(&actions);
    let mut closed = host.closed.clone();
    assert_eq!(closed.pop(), Some(0));
    closed.sort();
    assert_eq!(closed, vec![1, 2, 3, 4, 5, 6]);
    assert!(!pool.has_file("a"));
    assert!(pool.persist_metadata().outcome.is_err());
    // It can be opened again.
    host.init(&mut pool).unwrap();
    assert!(pool.persist_metadata().outcome.is_ok());
}

#[test]
fn close_all_gives_the_handles_back() {
    let mut host = Host::new();
    let mut pool = Pool::new();
    host.init(&mut pool).unwrap();
    let _ = pool.get_or_create_file("a");
    let actions = pool.close_all();
    assert_eq!(actions.len(), 7);
    assert_eq!(actions[6], FileAction::Close { handle: 0 });
    assert!(pool.has_file("a"));
    assert!(pool.persist_metadata().outcome.is_err());
}

#[test]
fn databases_are_told_from_the_files_beside_them() {
    assert!(is_db_file("logseq_db_"));
    assert!(is_db_file("logseq_db_my-graph"));
    assert!(!is_db_file("logseq_db"));
    assert!(!is_db_file("my_logseq_db_a"));
    assert!(!is_db_file("logseq_db_a-journal"));
    assert!(!is_db_file("logseq_db_a-wal"));
    assert!(!is_db_file("logseq_db_a-shm"));
    assert!(is_db_file("logseq_db_a-wal2"));
    assert!(!is_db_file(""));
}

#[test]
fn databases_are_listed() {
    let mut pool = Pool::new();
    for (i, path) in [
        "logseq_db_a",
        "logseq_db_a-journal",
        "logseq_db_b",
        "logseq_db_b-wal",
        "logseq_db_b-shm",
        "other",
    ]
    .iter()
    .enumerate()
    {
        pool.add_new_empty_file(format!("{}.raw", i), i as u32);
        let _ = pool.get_or_create_file(path);
    }
    let mut found = pool.list_db();
    found.sort();
    assert_eq!(found, vec!["logseq_db_a", "logseq_db_b"]);
    let _ = pool.delete("logseq_db_a");
    assert_eq!(pool.list_db(), vec!["logseq_db_b"]);
}

#[test]
fn sizes_lose_their_high_bits() {
    assert_eq!(low_bits(0), 0);
    assert_eq!(low_bits(0xffff_ffff), 0xffff_ffff);
    assert_eq!(low_bits(0x1_0000_0000), 0);
    assert_eq!(low_bits(0x1_0000_0003), 3);
}

#[test]
fn a_write_leaves_the_rest_of_a_file() {
    let mut host = Host::new();
    let mut pool = Pool::new();
    host.init(&mut pool).unwrap();
    let _ = pool.get_or_create_file("a");
    let f = file("a");
    host.perform(&[pool.write(&f, &[1, 2, 3, 4, 5], 0).unwrap()]);
    host.perform(&[pool.write(&f, &[9], 2).unwrap()]);
    assert_eq!(host.read(&pool.read(&f, 2, 0).unwrap()), vec![1, 2]);
    assert_eq!(host.read(&pool.read(&f, 1, 2).unwrap()), vec![9]);
    assert_eq!(host.read(&pool.read(&f, 9, 3).unwrap()), vec![4, 5]);
    // No empty file has been touched.
    for handle in 1..6 {
        assert!(host.contents[handle].is_empty());
    }
}

#[test]
fn to_delete_leaves_other_files_alone() {
    let mut host = Host::new();
    let mut pool = Pool::new();
    host.init(&mut pool).unwrap();
    let _ = pool.get_or_create_file("a");
    let _ = pool.get_or_create_file("b");
    host.perform(&[pool.write(&file("a"), b"aaa", 0).unwrap()]);
    host.perform(&[pool.write(&file("b"), b"bbb", 0).unwrap()]);
    let plan = pool.delete("a");
    host.perform(&plan.actions);
    assert_eq!(host.read(&pool.read(&file("b"), 9, 0).unwrap()), b"bbb");
    assert_eq!(pool.get_file_handle("b").unwrap(), 5);
}

#[test]
fn sqlite_reads_what_it_wrote() {
    let mut host = Host::new();
    let mut pool = Pool::new();
    host.init(&mut pool).unwrap();
    let opened = opfs_vfs::open(&mut pool, Some("logseq_db_a"), 6).unwrap();
    host.perform(&opened.actions);
    let f = opened.file;
    host.perform(&[io_methods::write(&pool, &f, b"page", 4).unwrap()]);
    assert_eq!(io_methods::finish_write(4, Some(4)), 0);

    let mut read = |amount: i32, offset: i64| {
        let bytes = host.read(&io_methods::read(&pool, &f, amount, offset).unwrap());
        let mut buf = vec![7u8; amount as usize];
        buf[..bytes.len()].copy_from_slice(&bytes);
        let code = io_methods::finish_read(&mut buf, amount, Some(bytes.len() as i64));
        (code, buf)
    };
    assert_eq!(read(4, 4), (0, b"page".to_vec()));
    assert_eq!(read(4, 0), (0, vec![0, 0, 0, 0]));
    assert_eq!(read(4, 6), (522, vec![b'g', b'e', 0, 0]));
    assert_eq!(read(2, 100), (522, vec![0, 0]));
}

#[test]
fn the_file_freed_last_is_used_again() {
    let mut host = Host::new();
    let mut pool = Pool::new();
    host.init(&mut pool).unwrap();
    for name in ["a", "b", "c"] {
        let plan = pool.get_or_create_file(name);
        host.perform(&plan.actions);
        host.perform(&[pool.write(&file(name), name.as_bytes(), 0).unwrap()]);
    }
    let freed = pool.get_file_handle("b").unwrap();
    let plan = pool.delete("b");
    host.perform(&plan.actions);
    let plan = pool.get_or_create_file("d");
    host.perform(&plan.actions);
    assert_eq!(plan.outcome.unwrap(), freed);
    assert_eq!(host.contents[freed as usize].len(), 0);
    assert_eq!(host.read(&pool.read(&file("c"), 9, 0).unwrap()), b"c");
}
