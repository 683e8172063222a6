//! How a pool is opened: what is asked of the host next, given its answer to
//! what was asked before.

use vstd::prelude::*;

use crate::backing_file::{is_new_file_name, new_empty_file_name};
use crate::error::PoolError;
use crate::file_action::{action_views, ActionView, FileAction};
use crate::metadata::{
    initial_metadata, lemma_lists_backing_files, lists_backing_files, records, refusal_text,
    GlobalMetadata, MetadataView, EMPTY_FILES, METADATA_FILENAME,
};
use crate::name_table::texts;
use crate::pool::{persist_actions, Pool, PoolView};

verus! {

/// How far the opening has come: which answer it waits for.
#[derive(Debug)]
pub enum InitStage {
    /// Nothing has been asked yet.
    Start,
    /// The directory is being opened.
    Root,
    /// The metadata file is being opened.
    Meta,
    /// The metadata file is being measured.
    Size,
    /// The metadata file, of `len` bytes, is being read.
    Content { len: usize },
    /// The backing file `names[next]` of the record `loaded` is being opened.
    Files { loaded: GlobalMetadata, names: Vec<String>, next: usize },
    /// The empty file `name` is being made, the first of `left` that are to be
    /// made.
    Empty { left: usize, name: String },
    /// The metadata is being written.
    Persist,
    /// Nothing is left to do.
    Finished,
}

/// What the host answered.
#[derive(Debug)]
pub enum InitEvent {
    /// Nothing: the opening begins.
    Begin,
    /// What was asked has been done.
    Performed,
    /// The file is open.
    Opened { handle: u32 },
    /// The file has `size` bytes.
    Sized { size: usize },
    /// The file holds `bytes`.
    Content { bytes: Vec<u8> },
}

/// What is asked of the host. If it fails, the opening ends there, with that
/// failure.
#[derive(Debug)]
pub enum InitAction {
    /// Open the directory of the files.
    OpenRoot,
    /// Open the file of that name, and make it if there is none.
    Open { name: String },
    /// Tell the size of a file.
    Measure { handle: u32 },
    /// Read `len` bytes from the start of a file.
    ReadAll { handle: u32, len: usize },
    /// Perform these requests in order.
    Perform { actions: Vec<FileAction> },
    /// Nothing: the pool is open.
    Done,
    /// Nothing: the pool cannot be opened.
    Fail { error: PoolError },
}

/// A stage, over what its record says.
pub enum StageView {
    Start,
    Root,
    Meta,
    Size,
    Content { len: usize },
    Files { loaded: MetadataView, names: Seq<Seq<char>>, next: int },
    Empty { left: int, name: Seq<char> },
    Persist,
    Finished,
}

/// An answer, with text and bytes as sequences.
pub enum EventView {
    Begin,
    Performed,
    Opened { handle: u32 },
    Sized { size: usize },
    Content { bytes: Seq<u8> },
}

/// A request, with text and bytes as sequences, or a failure: that the metadata
/// could not be read, for the reason that the text gives, that there were no
/// random bytes, or one of the others.
pub enum InitActionView {
    OpenRoot,
    Open { name: Seq<char> },
    Measure { handle: u32 },
    ReadAll { handle: u32, len: usize },
    Perform { actions: Seq<ActionView> },
    Done,
    Unreadable { text: Seq<char> },
    NoRandomness,
    FileNotFound,
    NotInited,
}

impl View for InitStage {
    type V = StageView;

    open spec fn view(&self) -> StageView {
        match *self {
            InitStage::Start => StageView::Start,
            InitStage::Root => StageView::Root,
            InitStage::Meta => StageView::Meta,
            InitStage::Size => StageView::Size,
            InitStage::Content { len } => StageView::Content { len },
            InitStage::Files { loaded, names, next } => StageView::Files {
                loaded: loaded@,
                names: texts(names@),
                next: next as int,
            },
            InitStage::Empty { left, name } => StageView::Empty {
                left: left as int,
                name: name@,
            },
            InitStage::Persist => StageView::Persist,
            InitStage::Finished => StageView::Finished,
        }
    }
}

impl InitStage {
    /// No name occurs twice in the record that is being opened.
    pub open spec fn wf(self) -> bool {
        match self {
            InitStage::Files { loaded, .. } => loaded.wf(),
            _ => true,
        }
    }
}

impl View for InitEvent {
    type V = EventView;

    open spec fn view(&self) -> EventView {
        match *self {
            InitEvent::Begin => EventView::Begin,
            InitEvent::Performed => EventView::Performed,
            InitEvent::Opened { handle } => EventView::Opened { handle },
            InitEvent::Sized { size } => EventView::Sized { size },
            InitEvent::Content { bytes } => EventView::Content { bytes: bytes@ },
        }
    }
}

impl View for InitAction {
    type V = InitActionView;

    open spec fn view(&self) -> InitActionView {
        match *self {
            InitAction::OpenRoot => InitActionView::OpenRoot,
            InitAction::Open { name } => InitActionView::Open { name: name@ },
            InitAction::Measure { handle } => InitActionView::Measure { handle },
            InitAction::ReadAll { handle, len } => InitActionView::ReadAll { handle, len },
            InitAction::Perform { actions } => InitActionView::Perform {
                actions: action_views(actions@),
            },
            InitAction::Done => InitActionView::Done,
            InitAction::Fail { error } => match error {
                PoolError::Decode(text) => InitActionView::Unreadable { text: text@ },
                PoolError::NoRandomness => InitActionView::NoRandomness,
                PoolError::FileNotFound => InitActionView::FileNotFound,
                PoolError::NotInited => InitActionView::NotInited,
            },
        }
    }
}

/// Where an opening stands: the pool, the stage, and what is asked next.
pub struct InitState {
    pub pool: PoolView,
    pub stage: StageView,
    pub action: InitActionView,
}

/// What holds of the pool at each stage.
pub open spec fn stage_sound(pool: PoolView, stage: StageView) -> bool {
    match stage {
        StageView::Start | StageView::Root | StageView::Meta | StageView::Finished => true,
        StageView::Size | StageView::Persist => pool.meta_handle is Some,
        StageView::Content { len } => pool.meta_handle is Some && len > 0,
        StageView::Files { loaded, names, next } => {
            &&& pool.meta_handle is Some
            &&& lists_backing_files(names, loaded)
            &&& 0 <= next < names.len()
            &&& forall|i: int|
                0 <= i < next ==> pool.handles.dom().contains(#[trigger] names[i])
        },
        StageView::Empty { left, .. } => pool.meta_handle is Some && 0 < left <= EMPTY_FILES,
    }
}

/// Whether an answer is one to what was asked at a stage.
pub open spec fn answers(stage: StageView, event: EventView) -> bool {
    match (stage, event) {
        (StageView::Start, EventView::Begin) => true,
        (StageView::Root, EventView::Performed) => true,
        (StageView::Meta, EventView::Opened { .. }) => true,
        (StageView::Size, EventView::Sized { .. }) => true,
        (StageView::Content { len }, EventView::Content { bytes }) => bytes.len() == len,
        (StageView::Files { .. }, EventView::Opened { .. }) => true,
        (StageView::Empty { .. }, EventView::Opened { .. }) => true,
        (StageView::Persist, EventView::Performed) => true,
        _ => false,
    }
}

/// Whether a handle that the host gave is that of no file yet.
pub open spec fn gives_new_handle(pool: PoolView, event: EventView) -> bool {
    match event {
        EventView::Opened { handle } => pool.is_new_handle(handle),
        _ => true,
    }
}

/// The metadata is written; `bytes` record it.
pub open spec fn persisting(pool: PoolView, bytes: Seq<u8>) -> InitState {
    InitState {
        pool,
        stage: StageView::Persist,
        action: InitActionView::Perform { actions: persist_actions(pool.meta_handle->0, bytes) },
    }
}

/// The empty file `fresh` is made, the first of `left`. Where no name could be
/// had, the opening fails.
pub open spec fn making(pool: PoolView, left: int, fresh: Option<Seq<char>>) -> InitState {
    match fresh {
        Some(name) => InitState {
            pool,
            stage: StageView::Empty { left, name },
            action: InitActionView::Open { name },
        },
        None => InitState {
            pool,
            stage: StageView::Finished,
            action: InitActionView::NoRandomness,
        },
    }
}

/// The pool takes the record over. Where that lists too few empty files, more
/// are made, `fresh` the first of them.
pub open spec fn installing(
    pool: PoolView,
    loaded: MetadataView,
    bytes: Seq<u8>,
    fresh: Option<Seq<char>>,
) -> InitState {
    let pool = PoolView { metadata: loaded, ..pool };
    if loaded.empty_files.len() < EMPTY_FILES {
        making(pool, EMPTY_FILES as int, fresh)
    } else {
        persisting(pool, bytes)
    }
}

/// The backing files of the record are opened one after the other, from
/// `names[next]` on; after the last the pool takes the record over.
pub open spec fn opening(
    pool: PoolView,
    loaded: MetadataView,
    names: Seq<Seq<char>>,
    next: int,
    bytes: Seq<u8>,
    fresh: Option<Seq<char>>,
) -> InitState {
    if next < names.len() {
        InitState {
            pool,
            stage: StageView::Files { loaded, names, next },
            action: InitActionView::Open { name: names[next] },
        }
    } else {
        installing(pool, loaded, bytes, fresh)
    }
}

/// The name that was picked for an empty file, where one is being made.
pub open spec fn picked(stage: StageView) -> Option<Seq<char>> {
    match stage {
        StageView::Empty { name, .. } => Some(name),
        _ => None,
    }
}

/// What an answer leads to. `bytes` are those that record the metadata of the
/// pool after it; which name an empty file gets is left to chance.
pub open spec fn follows(
    pool: PoolView,
    stage: StageView,
    event: EventView,
    after: InitState,
    bytes: Seq<u8>,
) -> bool {
    &&& picked(after.stage) is Some ==> is_new_file_name(picked(after.stage)->0)
    &&& follows_with(pool, stage, event, after, bytes, picked(after.stage))
}

/// What an answer leads to where `fresh` is the name that is picked for an
/// empty file, if one is to be made and a name can be had.
pub open spec fn follows_with(
    pool: PoolView,
    stage: StageView,
    event: EventView,
    after: InitState,
    bytes: Seq<u8>,
    fresh: Option<Seq<char>>,
) -> bool {
    match (stage, event) {
        // A pool that is open stays as it is.
        (StageView::Start, _) => after == if pool.meta_handle is Some {
            InitState { pool, stage: StageView::Finished, action: InitActionView::Done }
        } else {
            InitState { pool, stage: StageView::Root, action: InitActionView::OpenRoot }
        },
        (StageView::Root, _) => after == (InitState {
            pool,
            stage: StageView::Meta,
            action: InitActionView::Open { name: METADATA_FILENAME@ },
        }),
        // From here on the pool counts as open, even if the opening fails.
        (StageView::Meta, EventView::Opened { handle }) => after == (InitState {
            pool: PoolView { meta_handle: Some(handle), ..pool },
            stage: StageView::Size,
            action: InitActionView::Measure { handle },
        }),
        (StageView::Size, EventView::Sized { size }) => if size == 0 {
            exists|names: Seq<Seq<char>>| #[trigger]
                lists_backing_files(names, initial_metadata()) && after == opening(
                    pool,
                    initial_metadata(),
                    names,
                    0,
                    bytes,
                    fresh,
                )
        } else {
            after == (InitState {
                pool,
                stage: StageView::Content { len: size },
                action: InitActionView::ReadAll { handle: pool.meta_handle->0, len: size },
            })
        },
        (StageView::Content { .. }, EventView::Content { bytes: content }) => {
            ||| exists|loaded: MetadataView, names: Seq<Seq<char>>|
                records(content, loaded) && #[trigger] lists_backing_files(names, loaded) && after
                    == opening(pool, loaded, names, 0, bytes, fresh)
            ||| {
                &&& forall|view: MetadataView| !records(content, view)
                &&& after == (InitState {
                    pool,
                    stage: StageView::Finished,
                    action: InitActionView::Unreadable {
                        text: refusal_text(content, usize::BITS as int),
                    },
                })
            }
        },
        (StageView::Files { loaded, names, next }, EventView::Opened { handle }) => after
            == opening(
            PoolView { handles: pool.handles.insert(names[next], handle), ..pool },
            loaded,
            names,
            next + 1,
            bytes,
            fresh,
        ),
        (StageView::Empty { left, name }, EventView::Opened { handle }) => after == if left > 1 {
            making(pool.with_empty_file(name, handle), left - 1, fresh)
        } else {
            persisting(pool.with_empty_file(name, handle), bytes)
        },
        (StageView::Persist, _) => after == (InitState {
            pool,
            stage: StageView::Finished,
            action: InitActionView::Done,
        }),
        _ => false,
    }
}

/// Asks for the metadata to be written.
fn persist(pool: &Pool) -> (step: (InitStage, InitAction))
    requires
        pool.wf(),
        pool@.meta_handle is Some,
    ensures
        step.0.wf(),
        (InitState { pool: pool@, stage: step.0@, action: step.1@ }) == persisting(
            pool@,
            pool.metadata_bytes(),
        ),
{
    let plan = pool.persist_metadata();
    (InitStage::Persist, InitAction::Perform { actions: plan.actions })
}

/// Asks for an empty file of that name.
pub fn make_empty_file(left: usize, name: String) -> (step: (InitStage, InitAction))
    ensures
        step.0.wf(),
        step.0@ == (StageView::Empty { left: left as int, name: name@ }),
        step.1@ == (InitActionView::Open { name: name@ }),
{
    let asked = name.clone();
    (InitStage::Empty { left, name }, InitAction::Open { name: asked })
}

/// Asks for an empty file of a new name, if one can be had.
fn make_new_empty_file(left: usize) -> (step: (InitStage, InitAction))
    ensures
        step.0.wf(),
        match picked(step.0@) {
            Some(name) => {
                &&& is_new_file_name(name)
                &&& step.0@ == (StageView::Empty { left: left as int, name })
                &&& step.1@ == (InitActionView::Open { name })
            },
            None => step.0@ is Finished && step.1@ is NoRandomness,
        },
{
    match new_empty_file_name() {
        Some(name) => make_empty_file(left, name),
        None => (InitStage::Finished, InitAction::Fail { error: PoolError::NoRandomness }),
    }
}

/// Takes a record over whose backing files are all open.
fn install(pool: &mut Pool, loaded: GlobalMetadata) -> (step: (InitStage, InitAction))
    requires
        old(pool).wf(),
        old(pool)@.meta_handle is Some,
        loaded.wf(),
        (PoolView { metadata: loaded@, ..old(pool)@ }).wf(),
    ensures
        final(pool).wf(),
        step.0.wf(),
        (InitState { pool: final(pool)@, stage: step.0@, action: step.1@ }) == installing(
            old(pool)@,
            loaded@,
            final(pool).metadata_bytes(),
            picked(step.0@),
        ),
        picked(step.0@) is Some ==> is_new_file_name(picked(step.0@)->0),
{
    pool.install_metadata(loaded);
    if pool.empty_file_count() < EMPTY_FILES {
        make_new_empty_file(EMPTY_FILES)
    } else {
        persist(pool)
    }
}

/// A record whose backing files are all open can be taken over.
pub proof fn lemma_installed_wf(pool: PoolView, loaded: MetadataView, names: Seq<Seq<char>>)
    requires
        pool.wf(),
        lists_backing_files(names, loaded),
        forall|i: int|
            0 <= i < names.len() ==> pool.handles.dom().contains(#[trigger] names[i]),
    ensures
        (PoolView { metadata: loaded, ..pool }).wf(),
{
    lemma_lists_backing_files(names, loaded);
    let installed = PoolView { metadata: loaded, ..pool };
    assert forall|path: Seq<char>| #[trigger]
        installed.metadata.files.dom().contains(path) implies installed.handles.dom().contains(
        installed.metadata.files[path],
    ) by {
        let i = choose|i: int| 0 <= i < names.len() && names[i] == loaded.files[path];
        assert(pool.handles.dom().contains(names[i]));
    }
    assert forall|i: int|
        0 <= i < installed.metadata.empty_files.len() implies installed.handles.dom().contains(
        #[trigger] installed.metadata.empty_files[i],
    ) by {
        assert(names.contains(loaded.empty_files[i]));
        let k = choose|k: int| 0 <= k < names.len() && names[k] == loaded.empty_files[i];
        assert(pool.handles.dom().contains(names[k]));
    }
}

/// Asks for the next backing file of a record.
fn open_next(pool: &mut Pool, loaded: GlobalMetadata, names: Vec<String>, next: usize) -> (step: (
    InitStage,
    InitAction,
))
    requires
        old(pool).wf(),
        old(pool)@.meta_handle is Some,
        loaded.wf(),
        lists_backing_files(texts(names@), loaded@),
        next <= names.len(),
        forall|i: int|
            0 <= i < next ==> old(pool)@.handles.dom().contains(#[trigger] texts(names@)[i]),
    ensures
        final(pool).wf(),
        step.0.wf(),
        stage_sound(final(pool)@, step.0@),
        (InitState { pool: final(pool)@, stage: step.0@, action: step.1@ }) == opening(
            old(pool)@,
            loaded@,
            texts(names@),
            next as int,
            final(pool).metadata_bytes(),
            picked(step.0@),
        ),
        picked(step.0@) is Some ==> is_new_file_name(picked(step.0@)->0),
{
    if next < names.len() {
        let name = names[next].clone();
        (InitStage::Files { loaded, names, next }, InitAction::Open { name })
    } else {
        proof {
            lemma_installed_wf(pool@, loaded@, texts(names@));
        }
        install(pool, loaded)
    }
}

/// Begins to open the backing files of a record.
fn open_first(pool: &mut Pool, loaded: GlobalMetadata) -> (step: (InitStage, InitAction))
    requires
        old(pool).wf(),
        old(pool)@.meta_handle is Some,
        loaded.wf(),
    ensures
        final(pool).wf(),
        step.0.wf(),
        stage_sound(final(pool)@, step.0@),
        exists|names: Seq<Seq<char>>| #[trigger]
            lists_backing_files(names, loaded@) && (InitState {
                pool: final(pool)@,
                stage: step.0@,
                action: step.1@,
            }) == opening(
                old(pool)@,
                loaded@,
                names,
                0,
                final(pool).metadata_bytes(),
                picked(step.0@),
            ),
        picked(step.0@) is Some ==> is_new_file_name(picked(step.0@)->0),
{
    let names = loaded.backing_files();
    assert(lists_backing_files(texts(names@), loaded@));
    open_next(pool, loaded, names, 0)
}

impl Pool {
    /// One step of opening the pool: from the stage that it has come to and
    /// the host's answer to the next stage and the next request.
    ///
    /// The first step is that from `InitStage::Start` with
    /// `InitEvent::Begin`; the opening ends with `InitAction::Done` or
    /// `InitAction::Fail`.
    pub fn init(&mut self, stage: InitStage, event: InitEvent) -> (step: (InitStage, InitAction))
        requires
            old(self).wf(),
            stage.wf(),
            stage_sound(old(self)@, stage@),
            answers(stage@, event@),
            gives_new_handle(old(self)@, event@),
        ensures
            final(self).wf(),
            step.0.wf(),
            stage_sound(final(self)@, step.0@),
            follows(
                old(self)@,
                stage@,
                event@,
                (InitState { pool: final(self)@, stage: step.0@, action: step.1@ }),
                final(self).metadata_bytes(),
            ),
    {
        match (stage, event) {
            (InitStage::Start, InitEvent::Begin) => {
                if self.is_inited() {
                    (InitStage::Finished, InitAction::Done)
                } else {
                    (InitStage::Root, InitAction::OpenRoot)
                }
            },
            (InitStage::Root, InitEvent::Performed) => {
                (InitStage::Meta, InitAction::Open { name: METADATA_FILENAME.to_owned() })
            },
            (InitStage::Meta, InitEvent::Opened { handle }) => {
                self.set_meta_handle(handle);
                (InitStage::Size, InitAction::Measure { handle })
            },
            (InitStage::Size, InitEvent::Sized { size }) => {
                if size == 0 {
                    open_first(self, GlobalMetadata::new())
                } else {
                    match self.meta_handle() {
                        Ok(handle) => (
                            InitStage::Content { len: size },
                            InitAction::ReadAll { handle, len: size },
                        ),
                        Err(error) => (InitStage::Finished, InitAction::Fail { error }),
                    }
                }
            },
            (InitStage::Content { .. }, InitEvent::Content { bytes }) => {
                match GlobalMetadata::decode(bytes.as_slice()) {
                    Ok(loaded) => open_first(self, loaded),
                    Err(error) => (InitStage::Finished, InitAction::Fail { error }),
                }
            },
            (InitStage::Files { loaded, names, next }, InitEvent::Opened { handle }) => {
                assert(next < names.len());
                self.adopt_handle(names[next].clone(), handle);
                open_next(self, loaded, names, next + 1)
            },
            (InitStage::Empty { left, name }, InitEvent::Opened { handle }) => {
                self.add_new_empty_file(name, handle);
                if left > 1 {
                    make_new_empty_file(left - 1)
                } else {
                    persist(self)
                }
            },
            (InitStage::Persist, InitEvent::Performed) => (InitStage::Finished, InitAction::Done),
            _ => (InitStage::Finished, InitAction::Done),
        }
    }
}

} // verus!
