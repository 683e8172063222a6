//! What holds of the pool as a whole.

use vstd::prelude::*;

use crate::file_action::{
    performed, performed_all, read_bytes, resized, truncated_size, written, ActionView,
};
use crate::metadata::{records, MetadataView};
use crate::name_table::{
    entries_map, lemma_entries_map_dom, lemma_entries_map_len, lemma_entries_map_value,
    names_differ,
};
use crate::pool::{close_actions, closes, lists_databases, persist_actions, Pool, PoolView};

verus! {

/// Every backing file that is listed as empty has no content.
pub open spec fn empty_files_are_blank(pool: PoolView, contents: Map<u32, Seq<u8>>) -> bool {
    forall|i: int|
        0 <= i < pool.metadata.empty_files.len() ==> contents[pool.handles[
            #[trigger] pool.metadata.empty_files[i]
        ]].len() == 0
}

/// A new pool has no backing file, so none stands behind two paths.
pub proof fn law_initial_pool_is_exclusive()
    ensures
        PoolView::initial().exclusive(),
        PoolView::initial().wf(),
{
}

/// To create a file never puts a backing file behind two paths.
pub proof fn law_create_keeps_files_apart(pool: PoolView, path: Seq<char>)
    requires
        pool.exclusive(),
        pool.metadata.empty_files.len() > 0,
        !pool.metadata.files.dom().contains(path),
    ensures
        pool.allocated(path).exclusive(),
{
    let empty = pool.metadata.empty_files;
    let files = pool.metadata.files;
    let after = pool.allocated(path).metadata;
    let last = empty.len() - 1;
    assert(after.empty_files =~= empty.take(last));
    assert forall|p: Seq<char>, q: Seq<char>|
        #![trigger after.files.dom().contains(p), after.files.dom().contains(q)]
        after.files.dom().contains(p) && after.files.dom().contains(q) && p
            != q implies after.files[p] != after.files[q] by {
        if p != path {
            assert(files.dom().contains(p));
            assert(!empty.contains(files[p]));
        }
        if q != path {
            assert(files.dom().contains(q));
            assert(!empty.contains(files[q]));
        }
        assert(empty.contains(empty[last]));
    }
    assert forall|p: Seq<char>| #[trigger]
        after.files.dom().contains(p) implies !after.empty_files.contains(after.files[p]) by {
        if after.empty_files.contains(after.files[p]) {
            let i = choose|i: int|
                0 <= i < after.empty_files.len() && after.empty_files[i] == after.files[p];
            assert(empty[i] == after.files[p]);
            if p != path {
                assert(files.dom().contains(p));
            }
        }
    }
}

/// To delete a file never puts a backing file behind two paths.
pub proof fn law_delete_keeps_files_apart(pool: PoolView, path: Seq<char>)
    requires
        pool.exclusive(),
        pool.metadata.files.dom().contains(path),
    ensures
        pool.released(path).exclusive(),
{
    let empty = pool.metadata.empty_files;
    let files = pool.metadata.files;
    let after = pool.released(path).metadata;
    assert forall|p: Seq<char>, q: Seq<char>|
        #![trigger after.files.dom().contains(p), after.files.dom().contains(q)]
        after.files.dom().contains(p) && after.files.dom().contains(q) && p
            != q implies after.files[p] != after.files[q] by {
        assert(files.dom().contains(p) && files.dom().contains(q));
    }
    assert(after.empty_files.no_duplicates()) by {
        assert(!empty.contains(files[path]));
    }
    assert forall|p: Seq<char>| #[trigger]
        after.files.dom().contains(p) implies !after.empty_files.contains(after.files[p]) by {
        assert(files.dom().contains(p));
        if after.empty_files.contains(after.files[p]) {
            let i = choose|i: int|
                0 <= i < after.empty_files.len() && after.empty_files[i] == after.files[p];
            if i < empty.len() {
                assert(empty[i] == files[p]);
            }
        }
    }
}

/// A backing file of a new name comes in without touching the others.
pub proof fn law_new_name_keeps_files_apart(pool: PoolView, name: Seq<char>, handle: u32)
    requires
        pool.wf(),
        pool.exclusive(),
        !pool.handles.dom().contains(name),
    ensures
        pool.with_empty_file(name, handle).exclusive(),
{
    let empty = pool.metadata.empty_files;
    let files = pool.metadata.files;
    let after = pool.with_empty_file(name, handle).metadata;
    assert(!empty.contains(name)) by {
        if empty.contains(name) {
            let i = choose|i: int| 0 <= i < empty.len() && empty[i] == name;
            assert(pool.handles.dom().contains(empty[i]));
        }
    }
    assert forall|p: Seq<char>| #[trigger]
        after.files.dom().contains(p) implies !after.empty_files.contains(after.files[p]) by {
        assert(files.dom().contains(p));
        if after.empty_files.contains(after.files[p]) {
            let i = choose|i: int|
                0 <= i < after.empty_files.len() && after.empty_files[i] == after.files[p];
            if i < empty.len() {
                assert(empty[i] == files[p]);
            }
        }
    }
}

/// A file that has been created is there, and has the handle of the last empty
/// backing file; the other files stay as they were.
pub proof fn law_create_leaves_other_files(pool: PoolView, path: Seq<char>, other: Seq<char>)
    requires
        other != path,
    ensures
        pool.allocated(path).metadata.files.dom().contains(path),
        pool.allocated(path).handle_of(path) == pool.handles[pool.metadata.empty_files.last()],
        pool.allocated(path).metadata.files.dom().contains(other)
            == pool.metadata.files.dom().contains(other),
        pool.metadata.files.dom().contains(other) ==> pool.allocated(path).handle_of(other)
            == pool.handle_of(other),
{
}

/// A file that has been deleted is not there any more; the other files stay as
/// they were.
pub proof fn law_delete_leaves_other_files(pool: PoolView, path: Seq<char>, other: Seq<char>)
    requires
        other != path,
    ensures
        !pool.released(path).metadata.files.dom().contains(path),
        pool.released(path).metadata.files.dom().contains(other)
            == pool.metadata.files.dom().contains(other),
        pool.metadata.files.dom().contains(other) ==> pool.released(path).handle_of(other)
            == pool.handle_of(other),
{
}

/// To delete a file that was just created leaves the pool as it was.
pub proof fn law_delete_undoes_create(pool: PoolView, path: Seq<char>)
    requires
        pool.metadata.empty_files.len() > 0,
        !pool.metadata.files.dom().contains(path),
    ensures
        pool.allocated(path).released(path) == pool,
{
    let back = pool.allocated(path).released(path);
    assert(back.metadata.empty_files =~= pool.metadata.empty_files);
    assert(back.metadata.files =~= pool.metadata.files);
}

/// Two files have two handles.
pub proof fn law_files_have_their_own_handles(pool: PoolView, p: Seq<char>, q: Seq<char>)
    requires
        pool.wf(),
        pool.exclusive(),
        pool.metadata.files.dom().contains(p),
        pool.metadata.files.dom().contains(q),
        p != q,
    ensures
        pool.handle_of(p) != pool.handle_of(q),
        pool.meta_handle != Some(pool.handle_of(p)),
{
    let a = pool.metadata.files[p];
    let b = pool.metadata.files[q];
    assert(pool.handles.dom().contains(a) && pool.handles.dom().contains(b));
}

/// What is written to a file is what is then read from it; the other files
/// keep their content.
pub proof fn law_write_is_read_back(
    pool: PoolView,
    contents: Map<u32, Seq<u8>>,
    path: Seq<char>,
    at: i64,
    data: Seq<u8>,
    other: Seq<char>,
)
    requires
        pool.wf(),
        pool.exclusive(),
        pool.metadata.files.dom().contains(path),
        pool.metadata.files.dom().contains(other),
        other != path,
        at >= 0,
    ensures
        ({
            let handle = pool.handle_of(path);
            let after = performed(contents, ActionView::Write { handle, data, at });
            &&& read_bytes(after[handle], at as int, data.len()) == data
            &&& after[pool.handle_of(other)] == contents[pool.handle_of(other)]
        }),
{
    law_files_have_their_own_handles(pool, path, other);
    crate::file_action::law_read_after_write(contents[pool.handle_of(path)], at as int, data);
}

/// To write to a file, or to set its size, leaves the empty files blank.
pub proof fn law_file_requests_leave_empty_files_blank(
    pool: PoolView,
    contents: Map<u32, Seq<u8>>,
    path: Seq<char>,
    action: ActionView,
)
    requires
        pool.wf(),
        pool.exclusive(),
        empty_files_are_blank(pool, contents),
        pool.metadata.files.dom().contains(path),
        match action {
            ActionView::Write { handle, .. } => handle == pool.handle_of(path),
            ActionView::Truncate { handle, .. } => handle == pool.handle_of(path),
            _ => true,
        },
    ensures
        empty_files_are_blank(pool, performed(contents, action)),
{
    let empty = pool.metadata.empty_files;
    let mapped = pool.metadata.files[path];
    assert forall|i: int| 0 <= i < empty.len() implies performed(contents, action)[pool.handles[
        #[trigger] empty[i]
    ]].len() == 0 by {
        assert(empty.contains(empty[i]));
        assert(pool.handles.dom().contains(mapped) && pool.handles.dom().contains(empty[i]));
    }
}

/// What one, two and three requests do.
pub proof fn lemma_performed_three(
    contents: Map<u32, Seq<u8>>,
    a: ActionView,
    b: ActionView,
    c: ActionView,
)
    ensures
        performed_all(contents, seq![a]) == performed(contents, a),
        performed_all(contents, seq![a, b]) == performed(performed(contents, a), b),
        performed_all(contents, seq![a, b, c]) == performed(
            performed(performed(contents, a), b),
            c,
        ),
{
    assert(seq![a].drop_last() =~= Seq::<ActionView>::empty());
    assert(seq![a, b].drop_last() =~= seq![a]);
    assert(seq![a, b, c].drop_last() =~= seq![a, b]);
    assert(performed_all(contents, Seq::<ActionView>::empty()) == contents);
    assert(performed_all(contents, seq![a]) == performed(contents, a));
    assert(performed_all(contents, seq![a, b]) == performed(performed(contents, a), b));
}

/// To perform two lists of requests is to perform one after the other.
pub proof fn lemma_performed_concat(
    contents: Map<u32, Seq<u8>>,
    first: Seq<ActionView>,
    second: Seq<ActionView>,
)
    ensures
        performed_all(contents, first + second) == performed_all(
            performed_all(contents, first),
            second,
        ),
    decreases second.len(),
{
    if second.len() == 0 {
        assert(first + second =~= first);
    } else {
        lemma_performed_concat(contents, first, second.drop_last());
        assert((first + second).drop_last() =~= first + second.drop_last());
    }
}

/// When the metadata has been written, the metadata file holds its bytes and
/// no others, and no other file has changed.
pub proof fn law_persist_writes_the_metadata(
    contents: Map<u32, Seq<u8>>,
    meta: u32,
    bytes: Seq<u8>,
    other: u32,
)
    requires
        bytes.len() < 0x1_0000_0000,
        other != meta,
    ensures
        performed_all(contents, persist_actions(meta, bytes))[meta] == bytes,
        performed_all(contents, persist_actions(meta, bytes))[other] == contents[other],
{
    let a = ActionView::Write { handle: meta, data: bytes, at: 0 };
    let b = ActionView::Truncate { handle: meta, size: truncated_size(bytes.len() as int) };
    let c = ActionView::Flush { handle: meta };
    lemma_performed_three(contents, a, b, c);
    assert(persist_actions(meta, bytes) =~= seq![a, b, c]);
    assert(resized(written(contents[meta], 0, bytes), bytes.len()) =~= bytes);
}

/// As soon as the first of the requests that write the metadata has been
/// performed, whether the others have been or not, the metadata file records
/// the pool's metadata and nothing else: what the pool is opened with the next
/// time.
pub proof fn law_metadata_is_recorded(
    pool: Pool,
    contents: Map<u32, Seq<u8>>,
    meta: u32,
    count: int,
    view: MetadataView,
)
    requires
        pool.metadata_bytes().len() < 0x1_0000_0000,
        contents[meta].len() <= u64::MAX,
        1 <= count <= 3,
    ensures
        records(
            performed_all(contents, persist_actions(meta, pool.metadata_bytes()).take(count))[meta],
            view,
        ) <==> view == pool@.metadata,
{
    let bytes = pool.metadata_bytes();
    let a = ActionView::Write { handle: meta, data: bytes, at: 0 };
    let b = ActionView::Truncate { handle: meta, size: truncated_size(bytes.len() as int) };
    let c = ActionView::Flush { handle: meta };
    lemma_performed_three(contents, a, b, c);
    let actions = persist_actions(meta, bytes);
    assert(actions.take(1) =~= seq![a]);
    assert(actions.take(2) =~= seq![a, b]);
    assert(actions.take(3) =~= seq![a, b, c]);
    let wrote = written(contents[meta], 0, bytes);
    assert(wrote =~= bytes + wrote.skip(bytes.len() as int));
    assert(resized(wrote, bytes.len()) =~= bytes + Seq::<u8>::empty());
    crate::pool::lemma_metadata_bytes_record(pool, wrote.skip(bytes.len() as int), view);
    crate::pool::lemma_metadata_bytes_record(pool, Seq::<u8>::empty(), view);
}

/// When a file has been deleted, its backing file has no content, as have all
/// the others that are listed as empty.
pub proof fn law_deleted_file_is_blank(
    pool: PoolView,
    contents: Map<u32, Seq<u8>>,
    path: Seq<char>,
    meta: u32,
    bytes: Seq<u8>,
)
    requires
        pool.wf(),
        pool.exclusive(),
        pool.meta_handle == Some(meta),
        pool.metadata.files.dom().contains(path),
        empty_files_are_blank(pool, contents),
    ensures
        ({
            let handle = pool.handle_of(path);
            let actions = seq![
                ActionView::Truncate { handle, size: 0 },
                ActionView::Flush { handle },
            ] + persist_actions(meta, bytes);
            empty_files_are_blank(pool.released(path), performed_all(contents, actions))
        }),
{
    let handle = pool.handle_of(path);
    let t = ActionView::Truncate { handle, size: 0 };
    let f = ActionView::Flush { handle };
    let a = ActionView::Write { handle: meta, data: bytes, at: 0 };
    let b = ActionView::Truncate { handle: meta, size: truncated_size(bytes.len() as int) };
    let c = ActionView::Flush { handle: meta };
    let after = pool.released(path);
    let emptied = performed(contents, t);
    lemma_performed_concat(contents, seq![t, f], persist_actions(meta, bytes));
    lemma_performed_three(contents, t, f, f);
    lemma_performed_three(emptied, a, b, c);
    assert(persist_actions(meta, bytes) =~= seq![a, b, c]);
    let done = performed_all(contents, seq![t, f] + persist_actions(meta, bytes));
    let empty = pool.metadata.empty_files;
    let mapped = pool.metadata.files[path];
    assert(pool.handles.dom().contains(mapped));
    assert forall|i: int| 0 <= i < after.metadata.empty_files.len() implies done[after.handles[
        #[trigger] after.metadata.empty_files[i]
    ]].len() == 0 by {
        if i < empty.len() {
            assert(after.metadata.empty_files[i] == empty[i]);
            assert(empty.contains(empty[i]));
            assert(pool.handles.dom().contains(empty[i]));
        } else {
            assert(after.metadata.empty_files[i] == mapped);
        }
    }
}

/// To delete a file leaves the content of the others alone.
pub proof fn law_delete_leaves_other_contents(
    pool: PoolView,
    contents: Map<u32, Seq<u8>>,
    path: Seq<char>,
    other: Seq<char>,
    meta: u32,
    bytes: Seq<u8>,
)
    requires
        pool.wf(),
        pool.exclusive(),
        pool.meta_handle == Some(meta),
        pool.metadata.files.dom().contains(path),
        pool.metadata.files.dom().contains(other),
        other != path,
    ensures
        ({
            let handle = pool.handle_of(path);
            let actions = seq![
                ActionView::Truncate { handle, size: 0 },
                ActionView::Flush { handle },
            ] + persist_actions(meta, bytes);
            performed_all(contents, actions)[pool.released(path).handle_of(other)]
                == contents[pool.handle_of(other)]
        }),
{
    let handle = pool.handle_of(path);
    let t = ActionView::Truncate { handle, size: 0 };
    let f = ActionView::Flush { handle };
    let a = ActionView::Write { handle: meta, data: bytes, at: 0 };
    let b = ActionView::Truncate { handle: meta, size: truncated_size(bytes.len() as int) };
    let c = ActionView::Flush { handle: meta };
    law_files_have_their_own_handles(pool, other, path);
    lemma_performed_concat(contents, seq![t, f], persist_actions(meta, bytes));
    lemma_performed_three(contents, t, f, f);
    lemma_performed_three(performed(contents, t), a, b, c);
    assert(persist_actions(meta, bytes) =~= seq![a, b, c]);
}

/// The backing file that was freed last is the first to be used again, and
/// nothing of what was deleted is to be seen under the new path: when a file
/// has been deleted and another created, that stands on the same backing file
/// and has no content.
pub proof fn law_freed_file_is_used_again_blank(
    pool: PoolView,
    contents: Map<u32, Seq<u8>>,
    path: Seq<char>,
    new_path: Seq<char>,
    meta: u32,
    deleted: Seq<u8>,
    created: Seq<u8>,
)
    requires
        pool.wf(),
        pool.meta_handle == Some(meta),
        pool.metadata.files.dom().contains(path),
        !pool.released(path).metadata.files.dom().contains(new_path),
    ensures
        ({
            let handle = pool.handle_of(path);
            let empty_it = seq![
                ActionView::Truncate { handle, size: 0 },
                ActionView::Flush { handle },
            ];
            let after_delete = performed_all(contents, empty_it + persist_actions(meta, deleted));
            let after = performed_all(after_delete, persist_actions(meta, created));
            let now = pool.released(path).allocated(new_path);
            &&& now.metadata.files[new_path] == pool.metadata.files[path]
            &&& now.handle_of(new_path) == handle
            &&& after[now.handle_of(new_path)].len() == 0
        }),
{
    let handle = pool.handle_of(path);
    assert(pool.handles.dom().contains(pool.metadata.files[path]));
    let t = ActionView::Truncate { handle, size: 0 };
    let f = ActionView::Flush { handle };
    let after_delete = performed_all(contents, seq![t, f] + persist_actions(meta, deleted));
    lemma_performed_concat(contents, seq![t, f], persist_actions(meta, deleted));
    lemma_performed_three(contents, t, f, f);
    lemma_persist_leaves_others(performed(contents, t), meta, deleted, handle);
    lemma_persist_leaves_others(after_delete, meta, created, handle);
}

proof fn lemma_persist_leaves_others(
    contents: Map<u32, Seq<u8>>,
    meta: u32,
    bytes: Seq<u8>,
    other: u32,
)
    requires
        other != meta,
    ensures
        performed_all(contents, persist_actions(meta, bytes))[other] == contents[other],
{
    let a = ActionView::Write { handle: meta, data: bytes, at: 0 };
    let b = ActionView::Truncate { handle: meta, size: truncated_size(bytes.len() as int) };
    let c = ActionView::Flush { handle: meta };
    lemma_performed_three(contents, a, b, c);
    assert(persist_actions(meta, bytes) =~= seq![a, b, c]);
}

/// A file that is created where the empty files are blank has no content.
pub proof fn law_created_file_is_blank(
    pool: PoolView,
    contents: Map<u32, Seq<u8>>,
    path: Seq<char>,
)
    requires
        pool.wf(),
        pool.metadata.empty_files.len() > 0,
        empty_files_are_blank(pool, contents),
    ensures
        contents[pool.allocated(path).handle_of(path)].len() == 0,
        empty_files_are_blank(pool.allocated(path), contents),
{
    let empty = pool.metadata.empty_files;
    let after = pool.allocated(path);
    assert(empty.last() == empty[empty.len() - 1]);
    assert forall|i: int| 0 <= i < after.metadata.empty_files.len() implies contents[after.handles[
        #[trigger] after.metadata.empty_files[i]
    ]].len() == 0 by {
        assert(after.metadata.empty_files[i] == empty[i]);
    }
}

/// A database is listed whatever its name and however long: every file of the
/// pool whose path is `logseq_db_` and a name is, unless that ends in
/// `-journal`, `-wal` or `-shm`. Nothing else is listed, and no file that
/// SQLite keeps beside another one.
pub proof fn law_every_database_is_listed(
    pool: PoolView,
    paths: Seq<Seq<char>>,
    name: Seq<char>,
    path: Seq<char>,
)
    requires
        lists_databases(pool, paths),
    ensures
        ({
            let db = "logseq_db_"@ + name;
            (paths.contains(db) <==> pool.metadata.files.dom().contains(db) && forall|p: Seq<char>|
                #![trigger p + "-journal"@]
                #![trigger p + "-wal"@]
                #![trigger p + "-shm"@]
                db != p + "-journal"@ && db != p + "-wal"@ && db != p + "-shm"@)
        }),
        !paths.contains(path + "-journal"@),
        !paths.contains(path + "-wal"@),
        !paths.contains(path + "-shm"@),
        paths.contains(path) ==> exists|n: Seq<char>| path == #[trigger] ("logseq_db_"@ + n),
        forall|i: int, k: int|
            0 <= i < k < paths.len() ==> #[trigger] paths[i] != #[trigger] paths[k],
{
    let db = "logseq_db_"@ + name;
    assert("logseq_db_"@.is_prefix_of(db)) by {
        assert(db.take("logseq_db_"@.len() as int) =~= "logseq_db_"@);
    }
    lemma_suffix(db, "-journal"@);
    lemma_suffix(db, "-wal"@);
    lemma_suffix(db, "-shm"@);
    if forall|p: Seq<char>|
        #![trigger p + "-journal"@]
        #![trigger p + "-wal"@]
        #![trigger p + "-shm"@]
        db != p + "-journal"@ && db != p + "-wal"@ && db != p + "-shm"@ {
        if "-journal"@.is_suffix_of(db) {
            let p = choose|p: Seq<char>| db == #[trigger] (p + "-journal"@);
            assert(db != p + "-journal"@);
        }
        if "-wal"@.is_suffix_of(db) {
            let p = choose|p: Seq<char>| db == #[trigger] (p + "-wal"@);
            assert(db != p + "-wal"@);
        }
        if "-shm"@.is_suffix_of(db) {
            let p = choose|p: Seq<char>| db == #[trigger] (p + "-shm"@);
            assert(db != p + "-shm"@);
        }
    }
    lemma_suffix(path + "-journal"@, "-journal"@);
    lemma_suffix(path + "-wal"@, "-wal"@);
    lemma_suffix(path + "-shm"@, "-shm"@);
    if paths.contains(path) {
        let n = path.skip("logseq_db_"@.len() as int);
        assert(path =~= "logseq_db_"@ + n);
    }
}

/// A text ends in a suffix where it is a text and that suffix.
proof fn lemma_suffix(text: Seq<char>, suffix: Seq<char>)
    ensures
        suffix.is_suffix_of(text) <==> exists|p: Seq<char>| text == #[trigger] (p + suffix),
{
    if suffix.is_suffix_of(text) {
        let p = text.take(text.len() - suffix.len());
        assert(text =~= p + suffix);
    }
    if exists|p: Seq<char>| text == #[trigger] (p + suffix) {
        let p = choose|p: Seq<char>| text == #[trigger] (p + suffix);
        assert(text.subrange(text.len() - suffix.len(), text.len() as int) =~= suffix);
    }
}

/// To write the metadata is to write its bytes at the start of the metadata
/// file, to cut that off behind them, and to flush it; nothing is asked of
/// another file.
pub proof fn law_persist_flushes_last(meta: u32, bytes: Seq<u8>)
    ensures
        persist_actions(meta, bytes).len() == 3,
        persist_actions(meta, bytes)[0] == (ActionView::Write { handle: meta, data: bytes, at: 0 }),
        bytes.len() < 0x1_0000_0000 ==> persist_actions(meta, bytes)[1] == (ActionView::Truncate {
            handle: meta,
            size: bytes.len() as u32,
        }),
        persist_actions(meta, bytes).last() == (ActionView::Flush { handle: meta }),
        forall|i: int|
            0 <= i < persist_actions(meta, bytes).len() ==> match #[trigger] persist_actions(
                meta,
                bytes,
            )[i] {
                ActionView::Write { handle, .. } => handle == meta,
                ActionView::Truncate { handle, .. } => handle == meta,
                ActionView::Flush { handle } => handle == meta,
                _ => false,
            },
{
}

/// Whether a request gives back the handle of a backing file.
pub open spec fn closes_one_of(pool: PoolView, action: ActionView) -> bool {
    exists|name: Seq<char>| #[trigger]
        pool.handles.dom().contains(name) && action == (ActionView::Close {
            handle: pool.handles[name],
        })
}

/// To give all handles back closes every handle of a backing file once and then
/// that of the metadata file, and does nothing else.
pub proof fn law_every_handle_is_closed_once(pool: PoolView, actions: Seq<ActionView>, meta: u32)
    requires
        pool.wf(),
        pool.meta_handle == Some(meta),
        closes(pool, actions),
    ensures
        actions.len() > 0,
        actions.last() == (ActionView::Close { handle: meta }),
        actions.no_duplicates(),
        forall|name: Seq<char>| #[trigger]
            pool.handles.dom().contains(name) ==> actions.contains(
                ActionView::Close { handle: pool.handles[name] },
            ),
        forall|i: int|
            0 <= i < actions.len() - 1 ==> closes_one_of(pool, #[trigger] actions[i]),
{
    let entries = choose|entries: Seq<(Seq<char>, u32)>| #[trigger]
        close_actions(entries).push(ActionView::Close { handle: pool.meta_handle->0 }) == actions
            && names_differ(entries) && entries_map(entries) == pool.handles;
    assert forall|i: int| 0 <= i < entries.len() implies {
        &&& pool.handles.dom().contains(entries[i].0)
        &&& pool.handles[entries[i].0] == entries[i].1
        &&& #[trigger] actions[i] == (ActionView::Close { handle: entries[i].1 })
    } by {
        lemma_entries_map_value(entries, i);
    }
    assert forall|name: Seq<char>| #[trigger]
        pool.handles.dom().contains(name) implies actions.contains(
        ActionView::Close { handle: pool.handles[name] },
    ) by {
        lemma_entries_map_dom(entries, name);
        let i = choose|i: int| 0 <= i < entries.len() && (#[trigger] entries[i]).0 == name;
        assert(actions[i] == (ActionView::Close { handle: entries[i].1 }));
    }
    assert forall|i: int| 0 <= i < actions.len() - 1 implies closes_one_of(
        pool,
        #[trigger] actions[i],
    ) by {
        lemma_entries_map_value(entries, i);
        assert(pool.handles.dom().contains(entries[i].0));
    }
    assert forall|i: int, k: int|
        0 <= i < actions.len() && 0 <= k < actions.len() && i != k implies actions[i]
        != actions[k] by {
        if i < entries.len() && k < entries.len() {
            assert(actions[i] == (ActionView::Close { handle: entries[i].1 }));
            assert(actions[k] == (ActionView::Close { handle: entries[k].1 }));
            if i < k {
                assert(entries[i].0 != entries[k].0);
            } else {
                assert(entries[k].0 != entries[i].0);
            }
        } else if i < entries.len() {
            assert(actions[i] == (ActionView::Close { handle: entries[i].1 }));
        } else if k < entries.len() {
            assert(actions[k] == (ActionView::Close { handle: entries[k].1 }));
        }
    }
}

/// Whether a pool knows a backing file: it stands behind a path or is empty.
pub open spec fn knows(pool: PoolView, name: Seq<char>) -> bool {
    ||| pool.metadata.empty_files.contains(name)
    ||| exists|path: Seq<char>| #[trigger]
        pool.metadata.files.dom().contains(path) && pool.metadata.files[path] == name
}

/// To create or to delete a file only moves a backing file: none is lost and
/// none is new, one more or one fewer is empty, the one that moves is the last,
/// and the version and all handles stay.
pub proof fn law_backing_files_are_only_moved(
    pool: PoolView,
    path: Seq<char>,
    new_path: Seq<char>,
    name: Seq<char>,
)
    ensures
        pool.metadata.files.dom().contains(path) ==> {
            let less = pool.released(path);
            &&& knows(less, name) == knows(pool, name)
            &&& less.metadata.empty_files.len() == pool.metadata.empty_files.len() + 1
            &&& less.metadata.empty_files.last() == pool.metadata.files[path]
            &&& pool.metadata.empty_files.is_prefix_of(less.metadata.empty_files)
            &&& less.metadata.version == pool.metadata.version
            &&& less.meta_handle == pool.meta_handle
            &&& less.handles == pool.handles
            &&& forall|p: Seq<char>|
                p != path ==> (#[trigger] less.metadata.files.dom().contains(p)
                    == pool.metadata.files.dom().contains(p)) && less.metadata.files[p]
                    == pool.metadata.files[p]
        },
        pool.metadata.empty_files.len() > 0 && !pool.metadata.files.dom().contains(new_path) ==> {
            let more = pool.allocated(new_path);
            &&& knows(more, name) == knows(pool, name)
            &&& more.metadata.empty_files.len() + 1 == pool.metadata.empty_files.len()
            &&& more.metadata.empty_files.is_prefix_of(pool.metadata.empty_files)
            &&& more.metadata.files[new_path] == pool.metadata.empty_files.last()
            &&& more.metadata.version == pool.metadata.version
            &&& more.meta_handle == pool.meta_handle
            &&& more.handles == pool.handles
            &&& forall|p: Seq<char>|
                p != new_path ==> (#[trigger] more.metadata.files.dom().contains(p)
                    == pool.metadata.files.dom().contains(p)) && more.metadata.files[p]
                    == pool.metadata.files[p]
        },
{
    let empty = pool.metadata.empty_files;
    let files = pool.metadata.files;
    let less = pool.released(path);
    assert(less.metadata.empty_files[empty.len() as int] == files[path]);
    if files.dom().contains(path) && knows(pool, name) {
        if empty.contains(name) {
            let i = choose|i: int| 0 <= i < empty.len() && empty[i] == name;
            assert(less.metadata.empty_files[i] == name);
        } else {
            let p = choose|p: Seq<char>| #[trigger] files.dom().contains(p) && files[p] == name;
            assert(p != path ==> less.metadata.files.dom().contains(p));
        }
    }
    if files.dom().contains(path) && knows(less, name) {
        if less.metadata.empty_files.contains(name) {
            let i = choose|i: int|
                0 <= i < less.metadata.empty_files.len() && less.metadata.empty_files[i] == name;
            if i < empty.len() {
                assert(empty[i] == name);
            }
        } else {
            let p = choose|p: Seq<char>| #[trigger]
                less.metadata.files.dom().contains(p) && less.metadata.files[p] == name;
            assert(files.dom().contains(p));
        }
    }
    if empty.len() > 0 && !files.dom().contains(new_path) {
        let more = pool.allocated(new_path);
        let last = empty.len() - 1;
        assert(more.metadata.files.dom().contains(new_path));
        if knows(pool, name) {
            if empty.contains(name) {
                let i = choose|i: int| 0 <= i < empty.len() && empty[i] == name;
                if i < last {
                    assert(more.metadata.empty_files[i] == name);
                }
            } else {
                let p = choose|p: Seq<char>| #[trigger] files.dom().contains(p) && files[p] == name;
                assert(more.metadata.files.dom().contains(p));
            }
        }
        if knows(more, name) {
            if more.metadata.empty_files.contains(name) {
                let i = choose|i: int|
                    0 <= i < more.metadata.empty_files.len() && more.metadata.empty_files[i]
                        == name;
                assert(empty[i] == name);
            } else {
                let p = choose|p: Seq<char>| #[trigger]
                    more.metadata.files.dom().contains(p) && more.metadata.files[p] == name;
                if p == new_path {
                    assert(empty[last] == name);
                } else {
                    assert(files.dom().contains(p));
                }
            }
        }
    }
}

/// A new empty backing file is the last empty one and has the handle that it
/// came with; files, the other empty ones and the other handles stay.
pub proof fn law_new_empty_file_comes_last(
    pool: PoolView,
    name: Seq<char>,
    handle: u32,
    other: Seq<char>,
)
    requires
        other != name,
    ensures
        ({
            let more = pool.with_empty_file(name, handle);
            &&& more.metadata.empty_files.len() == pool.metadata.empty_files.len() + 1
            &&& more.metadata.empty_files.last() == name
            &&& pool.metadata.empty_files.is_prefix_of(more.metadata.empty_files)
            &&& more.handles.dom().contains(name) && more.handles[name] == handle
            &&& more.handles.dom().contains(other) == pool.handles.dom().contains(other)
            &&& more.handles[other] == pool.handles[other]
            &&& more.metadata.files == pool.metadata.files
            &&& more.metadata.version == pool.metadata.version
            &&& more.meta_handle == pool.meta_handle
        }),
{
}

/// The handle of a file is that of the backing file that stands behind its path.
pub proof fn law_files_have_the_handles_of_their_backing_files(pool: PoolView, path: Seq<char>)
    ensures
        pool.handle_of(path) == pool.handles[pool.metadata.files[path]],
{
}

/// Before anything has been opened a pool has no handle, no file and no backing
/// file, and its record is of version 1.
pub proof fn law_nothing_is_open_at_first()
    ensures
        PoolView::initial().meta_handle is None,
        PoolView::initial().handles == Map::<Seq<char>, u32>::empty(),
        PoolView::initial().metadata.version == 1,
        PoolView::initial().metadata.files == Map::<Seq<char>, Seq<char>>::empty(),
        PoolView::initial().metadata.empty_files == Seq::<Seq<char>>::empty(),
{
}

/// A pool is sound where every backing file behind a path and every empty one
/// has a handle, and no handle is that of two files: nothing more is asked of it.
pub proof fn law_what_a_sound_pool_is(pool: PoolView)
    requires
        forall|path: Seq<char>| #[trigger]
            pool.metadata.files.dom().contains(path) ==> pool.handles.dom().contains(
                pool.metadata.files[path],
            ),
        forall|i: int|
            0 <= i < pool.metadata.empty_files.len() ==> pool.handles.dom().contains(
                #[trigger] pool.metadata.empty_files[i],
            ),
        forall|a: Seq<char>, b: Seq<char>| #[trigger]
            pool.handles.dom().contains(a) && #[trigger] pool.handles.dom().contains(b)
                && pool.handles[a] == pool.handles[b] ==> a == b,
        forall|a: Seq<char>| #[trigger]
            pool.handles.dom().contains(a) ==> pool.meta_handle != Some(pool.handles[a]),
    ensures
        pool.wf(),
{
}

/// A handle is new where neither the metadata file nor any backing file has it.
pub proof fn law_what_a_new_handle_is(pool: PoolView, handle: u32)
    requires
        pool.meta_handle != Some(handle),
        forall|name: Seq<char>| #[trigger]
            pool.handles.dom().contains(name) ==> pool.handles[name] != handle,
    ensures
        pool.is_new_handle(handle),
{
}

/// Requests that give all handles back give back as many as there are: one for
/// each backing file that is open, and one for the metadata file.
pub proof fn law_as_many_handles_are_closed_as_are_open(
    pool: PoolView,
    actions: Seq<ActionView>,
)
    requires
        closes(pool, actions),
    ensures
        pool.handles.dom().finite(),
        actions.len() == pool.handles.dom().len() + 1,
{
    let entries = choose|entries: Seq<(Seq<char>, u32)>| #[trigger]
        close_actions(entries).push(ActionView::Close { handle: pool.meta_handle->0 }) == actions
            && names_differ(entries) && entries_map(entries) == pool.handles;
    lemma_entries_map_len(entries);
}

} // verus!
