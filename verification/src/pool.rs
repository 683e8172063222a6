//! A pool of backing files that are made ahead of time, and the paths that
//! they stand behind.

use vstd::prelude::*;

use crate::error::PoolError;
use crate::file_action::{
    action_views, low_bits, truncated_size, ActionView, FileAction, Planned,
};
use crate::metadata::{
    initial_metadata, law_decode_of_encode, records, GlobalMetadata, MetadataView,
};
use crate::name_table::{
    entries_map, lemma_entries_map_dom, names_differ, texts, NameTable,
};
use crate::text::{ends_with, starts_with};

verus! {

/// A file that the database has open.
#[derive(Debug, PartialEq, Eq)]
pub struct FileHandle {
    /// The path of the file.
    pub fname: String,
    /// The flags that it was opened with.
    pub flags: i32,
    /// The lock that the database last asked for.
    pub lock: i32,
}

/// The pool: the handle of the metadata file, what that file records, and the
/// handle of each backing file.
#[derive(Debug)]
pub struct Pool {
    meta_handle: Option<u32>,
    metadata: GlobalMetadata,
    handle_pool: NameTable<u32>,
}

/// What a pool holds.
#[verifier::ext_equal]
pub struct PoolView {
    /// The handle of the metadata file, once that is open.
    pub meta_handle: Option<u32>,
    /// The backing files and the files.
    pub metadata: MetadataView,
    /// From the name of each backing file to its handle.
    pub handles: Map<Seq<char>, u32>,
}

/// Whether a path is that of a database: not one of the files that SQLite
/// keeps beside a database while it works.
pub open spec fn is_db_path(path: Seq<char>) -> bool {
    &&& "logseq_db_"@.is_prefix_of(path)
    &&& !"-journal"@.is_suffix_of(path)
    &&& !"-wal"@.is_suffix_of(path)
    &&& !"-shm"@.is_suffix_of(path)
}

/// Whether `paths` lists the databases of a pool, each once.
pub open spec fn lists_databases(pool: PoolView, paths: Seq<Seq<char>>) -> bool {
    &&& paths.no_duplicates()
    &&& forall|path: Seq<char>| #[trigger]
        paths.contains(path) <==> pool.metadata.files.dom().contains(path) && is_db_path(path)
}

/// The requests that write `bytes` as the whole content of the metadata file.
pub open spec fn persist_actions(handle: u32, bytes: Seq<u8>) -> Seq<ActionView> {
    seq![
        ActionView::Write { handle, data: bytes, at: 0 },
        ActionView::Truncate { handle, size: truncated_size(bytes.len() as int) },
        ActionView::Flush { handle },
    ]
}

/// The requests that give each of a list of handles back.
pub open spec fn close_actions(entries: Seq<(Seq<char>, u32)>) -> Seq<ActionView> {
    entries.map_values(|e: (Seq<char>, u32)| ActionView::Close { handle: e.1 })
}

impl PoolView {
    /// The pool before anything has been opened.
    pub open spec fn initial() -> PoolView {
        PoolView { meta_handle: None, metadata: initial_metadata(), handles: Map::empty() }
    }

    /// No two backing files share a handle, and none has that of the metadata
    /// file.
    pub open spec fn handles_differ(self) -> bool {
        let handles = self.handles;
        &&& forall|a: Seq<char>, b: Seq<char>|
            #![trigger handles.dom().contains(a), handles.dom().contains(b)]
            handles.dom().contains(a) && handles.dom().contains(b) && a != b ==> handles[a]
                != handles[b]
        &&& forall|a: Seq<char>| #[trigger]
            handles.dom().contains(a) ==> self.meta_handle != Some(handles[a])
    }

    /// Whether a handle is that of no file of the pool.
    pub open spec fn is_new_handle(self, handle: u32) -> bool {
        &&& self.meta_handle != Some(handle)
        &&& forall|name: Seq<char>| #[trigger]
            self.handles.dom().contains(name) ==> self.handles[name] != handle
    }

    /// Every backing file that the metadata names is open, and every open file
    /// has a handle of its own.
    pub open spec fn wf(self) -> bool {
        &&& self.handles_differ()
        &&& forall|path: Seq<char>| #[trigger]
            self.metadata.files.dom().contains(path) ==> self.handles.dom().contains(
                self.metadata.files[path],
            )
        &&& forall|i: int|
            0 <= i < self.metadata.empty_files.len() ==> self.handles.dom().contains(
                #[trigger] self.metadata.empty_files[i],
            )
    }

    /// The metadata keeps the files apart.
    pub open spec fn exclusive(self) -> bool {
        self.metadata.exclusive()
    }

    /// The handle of the file at `path`.
    pub open spec fn handle_of(self, path: Seq<char>) -> u32 {
        self.handles[self.metadata.files[path]]
    }

    /// The pool after the last empty file has been put behind `path`.
    pub open spec fn allocated(self, path: Seq<char>) -> PoolView {
        PoolView {
            metadata: MetadataView {
                empty_files: self.metadata.empty_files.drop_last(),
                files: self.metadata.files.insert(path, self.metadata.empty_files.last()),
                ..self.metadata
            },
            ..self
        }
    }

    /// The pool after `path` has been given up and its backing file has become
    /// the last empty one.
    pub open spec fn released(self, path: Seq<char>) -> PoolView {
        PoolView {
            metadata: MetadataView {
                empty_files: self.metadata.empty_files.push(self.metadata.files[path]),
                files: self.metadata.files.remove(path),
                ..self.metadata
            },
            ..self
        }
    }

    /// The pool after a new empty backing file has come in.
    pub open spec fn with_empty_file(self, name: Seq<char>, handle: u32) -> PoolView {
        PoolView {
            metadata: MetadataView {
                empty_files: self.metadata.empty_files.push(name),
                ..self.metadata
            },
            handles: self.handles.insert(name, handle),
            ..self
        }
    }
}

impl View for Pool {
    type V = PoolView;

    closed spec fn view(&self) -> PoolView {
        PoolView {
            meta_handle: self.meta_handle,
            metadata: self.metadata@,
            handles: self.handle_pool@,
        }
    }
}

/// Whether a path is that of a database.
pub fn is_db_file(path: &str) -> (found: bool)
    ensures
        found == is_db_path(path@),
        found == ("logseq_db_"@.is_prefix_of(path@) && !"-journal"@.is_suffix_of(path@)
            && !"-wal"@.is_suffix_of(path@) && !"-shm"@.is_suffix_of(path@)),
{
    starts_with(path, "logseq_db_") && !ends_with(path, "-journal") && !ends_with(path, "-wal")
        && !ends_with(path, "-shm")
}

impl Pool {
    /// The tables of the pool hold no name twice.
    pub closed spec fn tables_wf(self) -> bool {
        self.metadata.wf() && self.handle_pool.wf()
    }

    /// The pool is sound: no table holds a name twice, every backing file that
    /// the metadata names is open, and every open file has a handle of its own.
    pub open spec fn wf(self) -> bool {
        self.tables_wf() && self@.wf()
    }

    /// The bytes that record the pool's metadata.
    pub closed spec fn metadata_bytes(self) -> Seq<u8> {
        self.metadata.bytes()
    }

    /// A pool that has nothing open.
    pub fn new() -> (pool: Pool)
        ensures
            pool.wf(),
            pool@ == PoolView::initial(),
    {
        Pool {
            meta_handle: None,
            metadata: GlobalMetadata::new(),
            handle_pool: NameTable::new(),
        }
    }

    /// Whether a file has that path.
    pub fn has_file(&self, path: &str) -> (found: bool)
        requires
            self.wf(),
        ensures
            found == self@.metadata.files.dom().contains(path@),
    {
        self.metadata.files.contains_key(path)
    }

    /// The handle of the file at `path`.
    pub fn get_file_handle(&self, path: &str) -> (handle: Result<u32, PoolError>)
        requires
            self.wf(),
        ensures
            match handle {
                Ok(h) => {
                    &&& self@.metadata.files.dom().contains(path@)
                    &&& h == self@.handle_of(path@)
                    &&& h == self@.handles[self@.metadata.files[path@]]
                },
                Err(e) => e is FileNotFound && !self@.metadata.files.dom().contains(path@),
            },
    {
        match self.metadata.files.get(path) {
            Some(mapped_path) => {
                assert(self@.metadata.files.dom().contains(path@));
                let handle = self.handle_pool.get(mapped_path.as_str()).unwrap();
                Ok(*handle)
            },
            None => Err(PoolError::FileNotFound),
        }
    }

    /// The paths of the databases, each once.
    pub fn list_db(&self) -> (paths: Vec<String>)
        requires
            self.wf(),
        ensures
            lists_databases(self@, texts(paths@)),
            texts(paths@).no_duplicates(),
            forall|path: Seq<char>| #[trigger]
                texts(paths@).contains(path) <==> self@.metadata.files.dom().contains(path)
                    && "logseq_db_"@.is_prefix_of(path) && !"-journal"@.is_suffix_of(path)
                    && !"-wal"@.is_suffix_of(path) && !"-shm"@.is_suffix_of(path),
    {
        let ghost entries = self.metadata.files.entries();
        let mut paths: Vec<String> = Vec::new();
        let mut i: usize = 0;
        while i < self.metadata.files.len()
            invariant
                self.wf(),
                entries == self.metadata.files.entries(),
                i <= entries.len(),
                texts(paths@).no_duplicates(),
                forall|path: Seq<char>| #[trigger]
                    texts(paths@).contains(path) <==> is_db_path(path) && exists|k: int|
                        0 <= k < i && (#[trigger] entries[k]).0 == path,
            decreases entries.len() - i,
        {
            let ghost before = texts(paths@);
            let fname = self.metadata.files.name_at(i);
            if is_db_file(fname.as_str()) {
                paths.push(fname.clone());
                proof {
                    assert(texts(paths@) =~= before.push(fname@));
                    assert(!before.contains(fname@)) by {
                        if before.contains(fname@) {
                            let k = choose|k: int| 0 <= k < i && (#[trigger] entries[k]).0 == fname@;
                            assert(entries[k].0 != entries[i as int].0);
                        }
                    }
                    assert(texts(paths@)[before.len() as int] == fname@);
                }
            }
            proof {
                assert forall|path: Seq<char>| #[trigger] texts(paths@).contains(path) <==> is_db_path(
                    path,
                ) && exists|k: int| 0 <= k < i + 1 && (#[trigger] entries[k]).0 == path by {
                    if texts(paths@).contains(path) {
                        if before.contains(path) {
                            let k = choose|k: int| 0 <= k < i && (#[trigger] entries[k]).0 == path;
                            assert(entries[k].0 == path);
                        } else {
                            assert(path == fname@);
                            assert(entries[i as int].0 == path);
                        }
                    }
                    if is_db_path(path) && exists|k: int|
                        0 <= k < i + 1 && (#[trigger] entries[k]).0 == path {
                        let k = choose|k: int| 0 <= k < i + 1 && (#[trigger] entries[k]).0 == path;
                        if k < i {
                            assert(before.contains(path));
                            let n = choose|n: int| 0 <= n < before.len() && before[n] == path;
                            assert(texts(paths@)[n] == path);
                        }
                    }
                }
            }
            i += 1;
        }
        proof {
            assert forall|path: Seq<char>| #[trigger]
                texts(paths@).contains(path) <==> self@.metadata.files.dom().contains(path)
                    && is_db_path(path) by {
                lemma_entries_map_dom(entries, path);
            }
        }
        paths
    }

    /// The handle of the metadata file.
    pub(crate) fn meta_handle(&self) -> (handle: Result<u32, PoolError>)
        ensures
            match handle {
                Ok(h) => self@.meta_handle == Some(h),
                Err(e) => e is NotInited && self@.meta_handle is None,
            },
    {
        match self.meta_handle {
            Some(handle) => Ok(handle),
            None => Err(PoolError::NotInited),
        }
    }

    /// Plans to write the metadata to the metadata file.
    pub fn persist_metadata(&self) -> (plan: Planned<()>)
        requires
            self.wf(),
        ensures
            match self@.meta_handle {
                Some(handle) => {
                    &&& plan.outcome is Ok
                    &&& action_views(plan.actions@) == persist_actions(
                        handle,
                        self.metadata_bytes(),
                    )
                },
                None => plan.outcome == Err::<(), PoolError>(PoolError::NotInited)
                    && plan.actions@.len() == 0,
            },
    {
        match self.meta_handle() {
            Ok(handle) => {
                let raw = self.metadata.encode();
                let size = low_bits(raw.len() as u64);
                let mut actions: Vec<FileAction> = Vec::new();
                actions.push(FileAction::Write { handle, data: raw, at: 0 });
                actions.push(FileAction::Truncate { handle, size });
                actions.push(FileAction::Flush { handle });
                assert(action_views(actions@) =~= persist_actions(handle, self.metadata_bytes()));
                Planned { actions, outcome: Ok(()) }
            },
            Err(error) => Planned { actions: Vec::new(), outcome: Err(error) },
        }
    }

    /// Plans to open the file at `path`. A path that has no file gets the last
    /// empty backing file, and the metadata is written anew.
    pub fn get_or_create_file(&mut self, path: &str) -> (plan: Planned<u32>)
        requires
            old(self).wf(),
            old(self)@.metadata.files.dom().contains(path@) || old(
                self,
            )@.metadata.empty_files.len() > 0,
        ensures
            final(self).wf(),
            if old(self)@.metadata.files.dom().contains(path@) {
                &&& *final(self) == *old(self)
                &&& plan.outcome == Ok::<u32, PoolError>(old(self)@.handle_of(path@))
                &&& plan.actions@.len() == 0
            } else {
                &&& final(self)@ == old(self)@.allocated(path@)
                &&& match old(self)@.meta_handle {
                    Some(handle) => {
                        &&& plan.outcome == Ok::<u32, PoolError>(final(self)@.handle_of(path@))
                        &&& action_views(plan.actions@) == persist_actions(
                            handle,
                            final(self).metadata_bytes(),
                        )
                    },
                    None => plan.outcome == Err::<u32, PoolError>(PoolError::NotInited)
                        && plan.actions@.len() == 0,
                }
            },
    {
        match self.get_file_handle(path) {
            Ok(handle) => Planned { actions: Vec::new(), outcome: Ok(handle) },
            Err(_) => {
                let ghost before = self@;
                let empty_file = self.metadata.empty_files.pop().unwrap();
                assert(empty_file@ == before.metadata.empty_files.last());
                let handle = *self.handle_pool.get(empty_file.as_str()).unwrap();
                self.metadata.files.insert(path.to_owned(), empty_file);
                proof {
                    assert(texts(self.metadata.empty_files@)
                        =~= before.metadata.empty_files.drop_last());
                    assert(self@ =~= before.allocated(path@));
                    lemma_allocated_wf(before, path@);
                }
                let persist = self.persist_metadata();
                match persist.outcome {
                    Ok(()) => Planned { actions: persist.actions, outcome: Ok(handle) },
                    Err(error) => Planned { actions: persist.actions, outcome: Err(error) },
                }
            },
        }
    }

    /// Plans to give the file at `path` up: its backing file is emptied and
    /// becomes the last empty one, and the metadata is written anew.
    pub fn delete(&mut self, path: &str) -> (plan: Planned<()>)
        requires
            old(self).wf(),
            old(self)@.metadata.files.dom().contains(path@),
        ensures
            final(self).wf(),
            final(self)@ == old(self)@.released(path@),
            ({
                let handle = old(self)@.handle_of(path@);
                let empty_it = seq![
                    ActionView::Truncate { handle, size: 0 },
                    ActionView::Flush { handle },
                ];
                match old(self)@.meta_handle {
                    Some(meta) => {
                        &&& plan.outcome is Ok
                        &&& action_views(plan.actions@) == empty_it + persist_actions(
                            meta,
                            final(self).metadata_bytes(),
                        )
                    },
                    None => {
                        &&& plan.outcome == Err::<(), PoolError>(PoolError::NotInited)
                        &&& action_views(plan.actions@) == empty_it
                    },
                }
            }),
    {
        let ghost before = self@;
        let mapped_path = self.metadata.files.get(path).unwrap().clone();
        assert(mapped_path@ == before.metadata.files[path@]);
        let handle = *self.handle_pool.get(mapped_path.as_str()).unwrap();
        let _ = self.metadata.files.remove(path);
        self.metadata.empty_files.push(mapped_path);
        proof {
            assert(texts(self.metadata.empty_files@) =~= before.metadata.empty_files.push(
                mapped_path@,
            ));
            assert(self@ =~= before.released(path@));
            lemma_released_wf(before, path@);
        }
        let mut actions: Vec<FileAction> = Vec::new();
        actions.push(FileAction::Truncate { handle, size: 0 });
        actions.push(FileAction::Flush { handle });
        let ghost empty_it = seq![
            ActionView::Truncate { handle, size: 0 },
            ActionView::Flush { handle },
        ];
        assert(action_views(actions@) =~= empty_it);
        let mut persist = self.persist_metadata();
        let ghost persisting = persist.actions@;
        actions.append(&mut persist.actions);
        assert(action_views(actions@) =~= empty_it + action_views(persisting));
        Planned { actions, outcome: persist.outcome }
    }

    /// The request that reads up to `len` bytes of a file from `offset` on.
    pub fn read(&self, handle: &FileHandle, len: usize, offset: i64) -> (action: Result<
        FileAction,
        PoolError,
    >)
        requires
            self.wf(),
        ensures
            match action {
                Ok(a) => {
                    &&& self@.metadata.files.dom().contains(handle.fname@)
                    &&& a@ == (ActionView::Read {
                        handle: self@.handle_of(handle.fname@),
                        len,
                        at: offset,
                    })
                },
                Err(e) => e is FileNotFound && !self@.metadata.files.dom().contains(
                    handle.fname@,
                ),
            },
    {
        match self.get_file_handle(handle.fname.as_str()) {
            Ok(h) => Ok(FileAction::Read { handle: h, len, at: offset }),
            Err(error) => Err(error),
        }
    }

    /// The request that writes `buf` to a file from `offset` on.
    pub fn write(&self, handle: &FileHandle, buf: &[u8], offset: i64) -> (action: Result<
        FileAction,
        PoolError,
    >)
        requires
            self.wf(),
        ensures
            match action {
                Ok(a) => {
                    &&& self@.metadata.files.dom().contains(handle.fname@)
                    &&& a@ == (ActionView::Write {
                        handle: self@.handle_of(handle.fname@),
                        data: buf@,
                        at: offset,
                    })
                },
                Err(e) => e is FileNotFound && !self@.metadata.files.dom().contains(
                    handle.fname@,
                ),
            },
    {
        match self.get_file_handle(handle.fname.as_str()) {
            Ok(h) => Ok(
                FileAction::Write { handle: h, data: vstd::slice::slice_to_vec(buf), at: offset },
            ),
            Err(error) => Err(error),
        }
    }

    /// The request that makes last what was written to a file.
    pub fn flush(&self, handle: &FileHandle) -> (action: Result<FileAction, PoolError>)
        requires
            self.wf(),
        ensures
            match action {
                Ok(a) => {
                    &&& self@.metadata.files.dom().contains(handle.fname@)
                    &&& a@ == (ActionView::Flush { handle: self@.handle_of(handle.fname@) })
                },
                Err(e) => e is FileNotFound && !self@.metadata.files.dom().contains(
                    handle.fname@,
                ),
            },
    {
        match self.get_file_handle(handle.fname.as_str()) {
            Ok(h) => Ok(FileAction::Flush { handle: h }),
            Err(error) => Err(error),
        }
    }

    /// The request that tells the size of the file at `path`.
    pub fn file_size(&self, path: &str) -> (action: Result<FileAction, PoolError>)
        requires
            self.wf(),
        ensures
            match action {
                Ok(a) => {
                    &&& self@.metadata.files.dom().contains(path@)
                    &&& a@ == (ActionView::Size { handle: self@.handle_of(path@) })
                },
                Err(e) => e is FileNotFound && !self@.metadata.files.dom().contains(path@),
            },
    {
        match self.get_file_handle(path) {
            Ok(h) => Ok(FileAction::Size { handle: h }),
            Err(error) => Err(error),
        }
    }

    /// The request that sets the size of a file. The host takes the low 32
    /// bits of the size.
    pub fn truncate(&self, handle: &FileHandle, new_size: u64) -> (action: Result<
        FileAction,
        PoolError,
    >)
        requires
            self.wf(),
        ensures
            match action {
                Ok(a) => {
                    &&& self@.metadata.files.dom().contains(handle.fname@)
                    &&& a@ == (ActionView::Truncate {
                        handle: self@.handle_of(handle.fname@),
                        size: truncated_size(new_size as int),
                    })
                },
                Err(e) => e is FileNotFound && !self@.metadata.files.dom().contains(
                    handle.fname@,
                ),
            },
    {
        match self.get_file_handle(handle.fname.as_str()) {
            Ok(h) => Ok(FileAction::Truncate { handle: h, size: low_bits(new_size) }),
            Err(error) => Err(error),
        }
    }

    /// The requests that give back every handle of a backing file, then that
    /// of the metadata file.
    fn close_handles(&self) -> (actions: Vec<FileAction>)
        requires
            self.wf(),
            self@.meta_handle is Some,
        ensures
            closes(self@, action_views(actions@)),
    {
        let ghost entries = self.handle_pool.entries();
        let mut actions: Vec<FileAction> = Vec::new();
        let mut i: usize = 0;
        while i < self.handle_pool.len()
            invariant
                entries == self.handle_pool.entries(),
                i <= entries.len(),
                action_views(actions@) == close_actions(entries.take(i as int)),
            decreases entries.len() - i,
        {
            let ghost before = action_views(actions@);
            actions.push(FileAction::Close { handle: *self.handle_pool.value_at(i) });
            assert(action_views(actions@) =~= before.push(
                ActionView::Close { handle: entries[i as int].1 },
            ));
            assert(close_actions(entries.take(i + 1)) =~= close_actions(
                entries.take(i as int),
            ).push(ActionView::Close { handle: entries[i as int].1 }));
            i += 1;
        }
        let ghost before = action_views(actions@);
        let meta = self.meta_handle.unwrap();
        actions.push(FileAction::Close { handle: meta });
        proof {
            assert(entries.take(i as int) =~= entries);
            assert(action_views(actions@) =~= close_actions(entries).push(
                ActionView::Close { handle: meta },
            ));
        }
        actions
    }

    /// Gives all handles back and forgets everything: the pool is as it was
    /// before it was opened.
    pub fn deinit(&mut self) -> (actions: Vec<FileAction>)
        requires
            old(self).wf(),
            old(self)@.meta_handle is Some,
        ensures
            final(self).wf(),
            final(self)@ == PoolView::initial(),
            closes(old(self)@, action_views(actions@)),
    {
        let actions = self.close_handles();
        self.handle_pool = NameTable::new();
        self.metadata = GlobalMetadata::new();
        self.meta_handle = None;
        actions
    }

    /// Gives all handles back. The pool cannot be used after that.
    pub fn close_all(&mut self) -> (actions: Vec<FileAction>)
        requires
            old(self).wf(),
            old(self)@.meta_handle is Some,
        ensures
            final(self).wf(),
            final(self)@ == (PoolView { meta_handle: None, ..old(self)@ }),
            closes(old(self)@, action_views(actions@)),
    {
        let actions = self.close_handles();
        self.meta_handle = None;
        actions
    }

    /// Notes the handle of the metadata file.
    pub(crate) fn set_meta_handle(&mut self, handle: u32)
        requires
            old(self).wf(),
            old(self)@.is_new_handle(handle),
        ensures
            final(self).wf(),
            final(self)@ == (PoolView { meta_handle: Some(handle), ..old(self)@ }),
    {
        self.meta_handle = Some(handle);
    }

    /// Whether the metadata file has been opened.
    pub fn is_inited(&self) -> (inited: bool)
        ensures
            inited == (self@.meta_handle is Some),
    {
        self.meta_handle.is_some()
    }

    /// The number of backing files that are listed as empty.
    pub fn empty_file_count(&self) -> (count: usize)
        ensures
            count == self@.metadata.empty_files.len(),
    {
        self.metadata.empty_files.len()
    }

    /// Notes the handle of a backing file.
    pub(crate) fn adopt_handle(&mut self, name: String, handle: u32)
        requires
            old(self).wf(),
            old(self)@.is_new_handle(handle),
        ensures
            final(self).wf(),
            final(self)@ == (PoolView {
                handles: old(self)@.handles.insert(name@, handle),
                ..old(self)@
            }),
    {
        self.handle_pool.insert(name, handle);
    }

    /// Takes over a metadata record whose backing files are all open.
    pub(crate) fn install_metadata(&mut self, metadata: GlobalMetadata)
        requires
            old(self).wf(),
            metadata.wf(),
            (PoolView { metadata: metadata@, ..old(self)@ }).wf(),
        ensures
            final(self).wf(),
            final(self)@ == (PoolView { metadata: metadata@, ..old(self)@ }),
    {
        self.metadata = metadata;
    }

    /// Takes in a new empty backing file.
    pub fn add_new_empty_file(&mut self, name: String, handle: u32)
        requires
            old(self).wf(),
            old(self)@.is_new_handle(handle),
        ensures
            final(self).wf(),
            final(self)@ == old(self)@.with_empty_file(name@, handle),
    {
        let ghost before = self@;
        self.handle_pool.insert(name.clone(), handle);
        self.metadata.empty_files.push(name);
        proof {
            assert(texts(self.metadata.empty_files@) =~= before.metadata.empty_files.push(name@));
            assert(self@ =~= before.with_empty_file(name@, handle));
            lemma_with_empty_file_wf(before, name@, handle);
        }
    }
}

/// The bytes that record a pool's metadata, with any bytes behind them, record
/// that and nothing else.
pub proof fn lemma_metadata_bytes_record(pool: Pool, trailing: Seq<u8>, view: MetadataView)
    requires
        pool.metadata_bytes().len() + trailing.len() <= u64::MAX,
    ensures
        records(pool.metadata_bytes() + trailing, view) <==> view == pool@.metadata,
{
    law_decode_of_encode(pool.metadata, trailing, view);
}

/// Whether the requests give back every handle of the pool: those of the
/// backing files, in some order, and then that of the metadata file.
pub open spec fn closes(pool: PoolView, actions: Seq<ActionView>) -> bool {
    exists|entries: Seq<(Seq<char>, u32)>| #[trigger]
        close_actions(entries).push(ActionView::Close { handle: pool.meta_handle->0 }) == actions
            && names_differ(entries) && entries_map(entries) == pool.handles
}

proof fn lemma_released_wf(pool: PoolView, path: Seq<char>)
    requires
        pool.wf(),
        pool.metadata.files.dom().contains(path),
    ensures
        pool.released(path).wf(),
{
    let empty = pool.metadata.empty_files;
    let after = pool.released(path);
    assert forall|p: Seq<char>| #[trigger]
        after.metadata.files.dom().contains(p) implies after.handles.dom().contains(
        after.metadata.files[p],
    ) by {
        assert(pool.metadata.files.dom().contains(p));
    }
    assert forall|i: int|
        0 <= i < after.metadata.empty_files.len() implies after.handles.dom().contains(
        #[trigger] after.metadata.empty_files[i],
    ) by {
        if i < empty.len() {
            assert(after.metadata.empty_files[i] == empty[i]);
        }
    }
}

/// A new empty backing file leaves all those open that the metadata names.
pub proof fn lemma_with_empty_file_wf(pool: PoolView, name: Seq<char>, handle: u32)
    requires
        pool.wf(),
        pool.is_new_handle(handle),
    ensures
        pool.with_empty_file(name, handle).wf(),
{
    let empty = pool.metadata.empty_files;
    let after = pool.with_empty_file(name, handle);
    assert forall|p: Seq<char>| #[trigger]
        after.metadata.files.dom().contains(p) implies after.handles.dom().contains(
        after.metadata.files[p],
    ) by {
        assert(pool.metadata.files.dom().contains(p));
    }
    assert forall|i: int|
        0 <= i < after.metadata.empty_files.len() implies after.handles.dom().contains(
        #[trigger] after.metadata.empty_files[i],
    ) by {
        if i < empty.len() {
            assert(after.metadata.empty_files[i] == empty[i]);
        }
    }
}

proof fn lemma_allocated_wf(pool: PoolView, path: Seq<char>)
    requires
        pool.wf(),
        pool.metadata.empty_files.len() > 0,
    ensures
        pool.allocated(path).wf(),
{
    let empty = pool.metadata.empty_files;
    assert(pool.handles.dom().contains(empty[empty.len() - 1]));
    let after = pool.allocated(path);
    assert forall|p: Seq<char>| #[trigger]
        after.metadata.files.dom().contains(p) implies after.handles.dom().contains(
        after.metadata.files[p],
    ) by {
        if p != path {
            assert(pool.metadata.files.dom().contains(p));
        }
    }
    assert forall|i: int|
        0 <= i < after.metadata.empty_files.len() implies after.handles.dom().contains(
        #[trigger] after.metadata.empty_files[i],
    ) by {
        assert(after.metadata.empty_files[i] == empty[i]);
    }
}

} // verus!
