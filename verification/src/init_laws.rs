//! What holds of the opening of a pool as a whole.

use vstd::prelude::*;

use crate::backing_file::{has_uuid_form, is_new_file_name, law_new_names_are_found};
use crate::error::PoolError;
use crate::file_action::{action_views, performed_all, ActionView};
use crate::init::{
    answers, follows, gives_new_handle, installing, lemma_installed_wf, opening, picked,
    stage_sound, EventView, InitAction, InitActionView, InitEvent, InitStage, InitState,
    StageView,
};
use crate::metadata::{
    initial_metadata, law_backing_files_then_empty_files, law_bytes_record_one_metadata,
    lemma_lists_backing_files, lists_backing_files, records, refusal_text, MetadataView,
    EMPTY_FILES, METADATA_FILENAME,
};
use crate::name_table::texts;
use crate::pool::{persist_actions, Pool, PoolView};
use crate::pool_laws::{
    law_metadata_is_recorded, law_new_name_keeps_files_apart, law_persist_writes_the_metadata,
};

verus! {

/// The states of an opening, from its start on, and the host's answers
/// between them, which give every file that is opened a handle of its own.
/// `bytes[i]` record the metadata of the pool in `states[i + 1]`.
pub open spec fn is_opening(
    states: Seq<InitState>,
    events: Seq<EventView>,
    bytes: Seq<Seq<u8>>,
) -> bool {
    &&& states.len() == events.len() + 1
    &&& states[0].stage is Start
    &&& forall|i: int|
        0 <= i < events.len() ==> {
            &&& answers(states[i].stage, #[trigger] events[i])
            &&& gives_new_handle(states[i].pool, events[i])
            &&& follows(states[i].pool, states[i].stage, events[i], states[i + 1], bytes[i])
        }
}

/// Whether what the host says of the metadata file is true of `content`.
pub open spec fn tells_truth(content: Seq<u8>, event: EventView) -> bool {
    match event {
        EventView::Sized { size } => size == content.len(),
        EventView::Content { bytes } => bytes == content,
        _ => true,
    }
}

/// A record with more empty files.
pub open spec fn with_more_empty(view: MetadataView, names: Seq<Seq<char>>) -> MetadataView {
    MetadataView { empty_files: view.empty_files + names, ..view }
}

/// The number of empty files that are made for a record.
pub open spec fn missing_empty_files(view: MetadataView) -> int {
    if view.empty_files.len() < EMPTY_FILES {
        EMPTY_FILES as int
    } else {
        0
    }
}

/// Whether a pool holds what the metadata file records, and the empty files
/// `created` besides, which have new names.
pub open spec fn holds_recorded(
    content: Seq<u8>,
    pool: PoolView,
    recorded: MetadataView,
    created: Seq<Seq<char>>,
) -> bool {
    &&& records(content, recorded)
    &&& pool.metadata == with_more_empty(recorded, created)
    &&& forall|i: int| 0 <= i < created.len() ==> is_new_file_name(#[trigger] created[i])
}

/// What is so at each stage of an opening.
spec fn on_course(content: Seq<u8>, state: InitState) -> bool {
    let pool = state.pool;
    &&& pool.wf()
    &&& stage_sound(pool, state.stage)
    &&& match state.stage {
        StageView::Start => pool.meta_handle is None,
        StageView::Root | StageView::Meta | StageView::Size => true,
        StageView::Content { len } => len == content.len(),
        StageView::Files { loaded, .. } => records(content, loaded),
        StageView::Empty { left, name } => {
            &&& is_new_file_name(name)
            &&& exists|recorded: MetadataView, created: Seq<Seq<char>>|
                {
                    &&& #[trigger] holds_recorded(content, pool, recorded, created)
                    &&& recorded.empty_files.len() < EMPTY_FILES
                    &&& created.len() + left == EMPTY_FILES
                }
        },
        StageView::Persist => settled(content, pool),
        StageView::Finished => {
            ||| state.action is Done && pool.meta_handle is Some && settled(content, pool)
            ||| {
                &&& state.action == InitActionView::Unreadable {
                    text: refusal_text(content, usize::BITS as int),
                }
                &&& forall|view: MetadataView| !records(content, view)
            }
            ||| {
                &&& state.action is NoRandomness
                &&& pool.meta_handle is Some
                &&& exists|recorded: MetadataView, created: Seq<Seq<char>>|
                    {
                        &&& #[trigger] holds_recorded(content, pool, recorded, created)
                        &&& recorded.empty_files.len() < EMPTY_FILES
                        &&& created.len() < EMPTY_FILES
                    }
            }
        },
    }
}

/// Whether a pool holds what the metadata file records, and as many new empty
/// files as that calls for.
pub open spec fn settled(content: Seq<u8>, pool: PoolView) -> bool {
    exists|recorded: MetadataView, created: Seq<Seq<char>>|
        {
            &&& #[trigger] holds_recorded(content, pool, recorded, created)
            &&& created.len() == missing_empty_files(recorded)
        }
}

proof fn lemma_installing(
    content: Seq<u8>,
    pool: PoolView,
    loaded: MetadataView,
    names: Seq<Seq<char>>,
    bytes: Seq<u8>,
    fresh: Option<Seq<char>>,
)
    requires
        pool.wf(),
        pool.meta_handle is Some,
        records(content, loaded),
        lists_backing_files(names, loaded),
        fresh is Some ==> is_new_file_name(fresh->0),
        forall|i: int|
            0 <= i < names.len() ==> pool.handles.dom().contains(#[trigger] names[i]),
    ensures
        on_course(content, installing(pool, loaded, bytes, fresh)),
{
    let after = installing(pool, loaded, bytes, fresh);
    lemma_installed_wf(pool, loaded, names);
    let created = Seq::<Seq<char>>::empty();
    assert(with_more_empty(loaded, created) =~= loaded) by {
        assert(loaded.empty_files + created =~= loaded.empty_files);
    }
    assert(holds_recorded(content, after.pool, loaded, created));
}

proof fn lemma_opening(
    content: Seq<u8>,
    pool: PoolView,
    loaded: MetadataView,
    names: Seq<Seq<char>>,
    next: int,
    bytes: Seq<u8>,
    fresh: Option<Seq<char>>,
)
    requires
        pool.wf(),
        pool.meta_handle is Some,
        records(content, loaded),
        lists_backing_files(names, loaded),
        fresh is Some ==> is_new_file_name(fresh->0),
        0 <= next <= names.len(),
        forall|i: int| 0 <= i < next ==> pool.handles.dom().contains(#[trigger] names[i]),
    ensures
        on_course(content, opening(pool, loaded, names, next, bytes, fresh)),
{
    if next == names.len() {
        lemma_installing(content, pool, loaded, names, bytes, fresh);
    }
}

proof fn lemma_step_on_course(
    content: Seq<u8>,
    state: InitState,
    event: EventView,
    after: InitState,
    bytes: Seq<u8>,
)
    requires
        on_course(content, state),
        answers(state.stage, event),
        gives_new_handle(state.pool, event),
        tells_truth(content, event),
        follows(state.pool, state.stage, event, after, bytes),
    ensures
        on_course(content, after),
{
    let pool = state.pool;
    let fresh = picked(after.stage);
    match (state.stage, event) {
        (StageView::Size, EventView::Sized { size }) => {
            if size == 0 {
                let names = choose|names: Seq<Seq<char>>| #[trigger]
                    lists_backing_files(names, initial_metadata()) && after == opening(
                        pool,
                        initial_metadata(),
                        names,
                        0,
                        bytes,
                        fresh,
                    );
                lemma_opening(content, pool, initial_metadata(), names, 0, bytes, fresh);
            }
        },
        (StageView::Content { .. }, EventView::Content { .. }) => {
            if exists|loaded: MetadataView, names: Seq<Seq<char>>|
                records(content, loaded) && #[trigger] lists_backing_files(names, loaded) && after
                    == opening(pool, loaded, names, 0, bytes, fresh) {
                let (loaded, names) = choose|loaded: MetadataView, names: Seq<Seq<char>>|
                    records(content, loaded) && #[trigger] lists_backing_files(names, loaded)
                        && after == opening(pool, loaded, names, 0, bytes, fresh);
                lemma_opening(content, pool, loaded, names, 0, bytes, fresh);
            }
        },
        (StageView::Files { loaded, names, next }, EventView::Opened { handle }) => {
            let grown = PoolView { handles: pool.handles.insert(names[next], handle), ..pool };
            assert(grown.wf());
            lemma_opening(content, grown, loaded, names, next + 1, bytes, fresh);
        },
        (StageView::Empty { left, name }, EventView::Opened { handle }) => {
            let (recorded, created) = choose|recorded: MetadataView, created: Seq<Seq<char>>|
                {
                    &&& #[trigger] holds_recorded(content, pool, recorded, created)
                    &&& recorded.empty_files.len() < EMPTY_FILES
                    &&& created.len() + left == EMPTY_FILES
                };
            let more = created.push(name);
            assert(after.pool.metadata =~= with_more_empty(recorded, more)) by {
                assert((recorded.empty_files + created).push(name) =~= recorded.empty_files
                    + more);
            }
            assert(holds_recorded(content, after.pool, recorded, more));
            crate::pool::lemma_with_empty_file_wf(pool, name, handle);
        },
        _ => {},
    }
}

proof fn lemma_on_course(
    content: Seq<u8>,
    states: Seq<InitState>,
    events: Seq<EventView>,
    bytes: Seq<Seq<u8>>,
    n: int,
)
    requires
        is_opening(states, events, bytes),
        states[0].pool.wf(),
        states[0].pool.meta_handle is None,
        forall|i: int| 0 <= i < events.len() ==> tells_truth(content, #[trigger] events[i]),
        0 <= n < states.len(),
    ensures
        on_course(content, states[n]),
    decreases n,
{
    if n > 0 {
        lemma_on_course(content, states, events, bytes, n - 1);
        assert(tells_truth(content, events[n - 1]));
        lemma_step_on_course(content, states[n - 1], events[n - 1], states[n], bytes[n - 1]);
    }
}

/// A pool that has been opened holds what its metadata file records: the same
/// files behind the same backing files, the same empty files, and where those
/// were too few, a full set of new ones under new names. Every backing file is
/// open.
pub proof fn law_opened_pool_holds_what_is_recorded(
    content: Seq<u8>,
    states: Seq<InitState>,
    events: Seq<EventView>,
    bytes: Seq<Seq<u8>>,
)
    requires
        is_opening(states, events, bytes),
        states[0].pool.wf(),
        states[0].pool.meta_handle is None,
        forall|i: int| 0 <= i < events.len() ==> tells_truth(content, #[trigger] events[i]),
        states.last().stage is Finished,
        states.last().action is Done,
    ensures
        states.last().pool.wf(),
        states.last().pool.meta_handle is Some,
        settled(content, states.last().pool),
{
    lemma_on_course(content, states, events, bytes, states.len() - 1);
}

/// A pool is refused exactly where its metadata file holds no metadata, with
/// the reason that the decoder gives. Where it is neither opened nor refused,
/// there were no random bytes for the name of a new file.
pub proof fn law_refused_metadata_is_unreadable(
    content: Seq<u8>,
    states: Seq<InitState>,
    events: Seq<EventView>,
    bytes: Seq<Seq<u8>>,
)
    requires
        is_opening(states, events, bytes),
        states[0].pool.wf(),
        states[0].pool.meta_handle is None,
        forall|i: int| 0 <= i < events.len() ==> tells_truth(content, #[trigger] events[i]),
        states.last().stage is Finished,
    ensures
        states.last().action is Unreadable <==> forall|view: MetadataView| !records(content, view),
        states.last().action is Unreadable ==> states.last().action
            == (InitActionView::Unreadable { text: refusal_text(content, usize::BITS as int) }),
        states.last().action is Done || states.last().action is Unreadable
            || states.last().action is NoRandomness,
{
    lemma_on_course(content, states, events, bytes, states.len() - 1);
    let last = states.last();
    if !(last.action is Unreadable) {
        let (recorded, created) = choose|recorded: MetadataView, created: Seq<Seq<char>>| #[trigger]
            holds_recorded(content, last.pool, recorded, created);
        assert(records(content, recorded));
    }
}

/// What is so at each stage of an opening that will be refused: the pool holds
/// what it held, and nothing has been asked for but to open, measure and read
/// the metadata file.
spec fn untouched(first: PoolView, state: InitState) -> bool {
    &&& state.pool.metadata == first.metadata
    &&& state.pool.handles == first.handles
    &&& state.stage is Start || state.stage is Root || state.stage is Meta || state.stage is Size
        || state.stage is Content || state.stage is Finished
}

/// Whether a request leaves every file as it is and makes none but, where it
/// is not there, the metadata file.
pub open spec fn is_harmless(action: InitActionView) -> bool {
    match action {
        InitActionView::Open { name } => name == METADATA_FILENAME@,
        InitActionView::Perform { .. } => false,
        _ => true,
    }
}

/// Where the metadata file holds no metadata, to open the pool changes nothing:
/// at every point the pool has the files, the empty files and the handles that
/// it had, and nothing is asked for that would write to a file or make a
/// backing file.
pub proof fn law_refused_opening_changes_nothing(
    content: Seq<u8>,
    states: Seq<InitState>,
    events: Seq<EventView>,
    bytes: Seq<Seq<u8>>,
    n: int,
)
    requires
        is_opening(states, events, bytes),
        states[0].pool.wf(),
        states[0].pool.meta_handle is None,
        forall|i: int| 0 <= i < events.len() ==> tells_truth(content, #[trigger] events[i]),
        forall|view: MetadataView| !records(content, view),
        0 < n < states.len(),
    ensures
        states[n].pool.metadata == states[0].pool.metadata,
        states[n].pool.handles == states[0].pool.handles,
        is_harmless(states[n].action),
{
    lemma_untouched(content, states, events, bytes, n);
}

proof fn lemma_untouched(
    content: Seq<u8>,
    states: Seq<InitState>,
    events: Seq<EventView>,
    bytes: Seq<Seq<u8>>,
    n: int,
)
    requires
        is_opening(states, events, bytes),
        forall|i: int| 0 <= i < events.len() ==> tells_truth(content, #[trigger] events[i]),
        forall|view: MetadataView| !records(content, view),
        0 <= n < states.len(),
    ensures
        untouched(states[0].pool, states[n]),
        n > 0 ==> is_harmless(states[n].action),
    decreases n,
{
    if n > 0 {
        lemma_untouched(content, states, events, bytes, n - 1);
        let event = events[n - 1];
        assert(tells_truth(content, event));
        assert(answers(states[n - 1].stage, event));
        assert(follows(states[n - 1].pool, states[n - 1].stage, event, states[n], bytes[n - 1]));
        assert(!records(content, initial_metadata()));
    }
}

/// Where the metadata file was empty, the pool has no file, and a full set of
/// empty ones.
pub proof fn law_first_opening_makes_empty_files(
    states: Seq<InitState>,
    events: Seq<EventView>,
    bytes: Seq<Seq<u8>>,
)
    requires
        is_opening(states, events, bytes),
        states[0].pool.wf(),
        states[0].pool.meta_handle is None,
        forall|i: int|
            0 <= i < events.len() ==> tells_truth(Seq::<u8>::empty(), #[trigger] events[i]),
        states.last().stage is Finished,
        states.last().action is Done,
    ensures
        states.last().pool.metadata.version == 1,
        states.last().pool.metadata.files == Map::<Seq<char>, Seq<char>>::empty(),
        states.last().pool.metadata.empty_files.len() == EMPTY_FILES,
        states.last().pool.metadata.empty_files.len() == 6,
{
    lemma_on_course(Seq::<u8>::empty(), states, events, bytes, states.len() - 1);
}

/// A pool that has been opened has empty files enough for a graph.
pub proof fn law_opened_pool_has_empty_files(
    content: Seq<u8>,
    states: Seq<InitState>,
    events: Seq<EventView>,
    bytes: Seq<Seq<u8>>,
)
    requires
        is_opening(states, events, bytes),
        states[0].pool.wf(),
        states[0].pool.meta_handle is None,
        forall|i: int| 0 <= i < events.len() ==> tells_truth(content, #[trigger] events[i]),
        states.last().stage is Finished,
        states.last().action is Done,
    ensures
        states.last().pool.metadata.empty_files.len() >= EMPTY_FILES,
        states.last().pool.metadata.empty_files.len() >= 6,
{
    lemma_on_course(content, states, events, bytes, states.len() - 1);
}

/// What one pool wrote, the next is opened with: when the metadata of a pool
/// has been written and another is opened on the same files, that has the same
/// files behind the same backing files, and the same empty files before any
/// new ones; new ones come only where there were too few.
pub proof fn law_reopened_pool_has_the_same_files(
    pool: Pool,
    contents: Map<u32, Seq<u8>>,
    meta: u32,
    states: Seq<InitState>,
    events: Seq<EventView>,
    bytes: Seq<Seq<u8>>,
)
    requires
        pool.metadata_bytes().len() < 0x1_0000_0000,
        contents[meta].len() <= u64::MAX,
        is_opening(states, events, bytes),
        states[0].pool.wf(),
        states[0].pool.meta_handle is None,
        forall|i: int|
            0 <= i < events.len() ==> tells_truth(
                performed_all(contents, persist_actions(meta, pool.metadata_bytes()))[meta],
                #[trigger] events[i],
            ),
        states.last().stage is Finished,
        states.last().action is Done,
    ensures
        states.last().pool.metadata.version == pool@.metadata.version,
        states.last().pool.metadata.files == pool@.metadata.files,
        pool@.metadata.empty_files.is_prefix_of(states.last().pool.metadata.empty_files),
        pool@.metadata.empty_files.len() >= EMPTY_FILES
            ==> states.last().pool.metadata.empty_files == pool@.metadata.empty_files,
        states.last().pool.metadata.empty_files.len() == pool@.metadata.empty_files.len() + (
        if pool@.metadata.empty_files.len() < 6 {
            6int
        } else {
            0
        }),
{
    let actions = persist_actions(meta, pool.metadata_bytes());
    let content = performed_all(contents, actions)[meta];
    lemma_on_course(content, states, events, bytes, states.len() - 1);
    let (recorded, created) = choose|recorded: MetadataView, created: Seq<Seq<char>>|
        {
            &&& #[trigger] holds_recorded(content, states.last().pool, recorded, created)
            &&& created.len() == missing_empty_files(recorded)
        };
    assert(actions.take(3) =~= actions);
    law_metadata_is_recorded(pool, contents, meta, 3, recorded);
}

/// Whether the name that was picked for an empty file, where one is being
/// made, is that of no backing file yet.
pub open spec fn picked_unused(state: InitState) -> bool {
    match picked(state.stage) {
        Some(name) => !state.pool.handles.dom().contains(name),
        None => true,
    }
}

/// What is so at each stage of an opening of a record that keeps files apart.
spec fn apart(state: InitState) -> bool {
    match state.stage {
        StageView::Empty { .. } | StageView::Persist => state.pool.exclusive(),
        StageView::Finished => state.action is Done ==> state.pool.exclusive(),
        _ => true,
    }
}

proof fn lemma_step_apart(
    content: Seq<u8>,
    state: InitState,
    event: EventView,
    after: InitState,
    bytes: Seq<u8>,
)
    requires
        on_course(content, state),
        apart(state),
        answers(state.stage, event),
        tells_truth(content, event),
        picked_unused(state),
        follows(state.pool, state.stage, event, after, bytes),
        forall|view: MetadataView| records(content, view) ==> #[trigger] view.exclusive(),
    ensures
        apart(after),
{
    match (state.stage, event) {
        (StageView::Size, EventView::Sized { size }) => {
            if size == 0 {
                assert(records(content, initial_metadata()));
                assert(initial_metadata().exclusive());
            }
        },
        (StageView::Content { .. }, EventView::Content { .. }) => {},
        (StageView::Files { loaded, .. }, EventView::Opened { .. }) => {
            assert(loaded.exclusive());
        },
        (StageView::Empty { name, .. }, EventView::Opened { handle }) => {
            law_new_name_keeps_files_apart(state.pool, name, handle);
        },
        _ => {},
    }
}

proof fn lemma_apart(
    content: Seq<u8>,
    states: Seq<InitState>,
    events: Seq<EventView>,
    bytes: Seq<Seq<u8>>,
    n: int,
)
    requires
        is_opening(states, events, bytes),
        states[0].pool.wf(),
        states[0].pool.meta_handle is None,
        forall|i: int| 0 <= i < events.len() ==> tells_truth(content, #[trigger] events[i]),
        forall|i: int| 0 <= i < states.len() ==> picked_unused(#[trigger] states[i]),
        forall|view: MetadataView| records(content, view) ==> #[trigger] view.exclusive(),
        0 <= n < states.len(),
    ensures
        apart(states[n]),
    decreases n,
{
    if n > 0 {
        lemma_apart(content, states, events, bytes, n - 1);
        lemma_on_course(content, states, events, bytes, n - 1);
        assert(tells_truth(content, events[n - 1]));
        lemma_step_apart(content, states[n - 1], events[n - 1], states[n], bytes[n - 1]);
    }
}

/// Where the record puts no backing file behind two paths, and the names
/// that are picked for new files are not used yet, the pool that is opened puts none behind two paths
/// either.
pub proof fn law_opened_pool_keeps_files_apart(
    content: Seq<u8>,
    states: Seq<InitState>,
    events: Seq<EventView>,
    bytes: Seq<Seq<u8>>,
)
    requires
        is_opening(states, events, bytes),
        states[0].pool.wf(),
        states[0].pool.meta_handle is None,
        forall|i: int| 0 <= i < events.len() ==> tells_truth(content, #[trigger] events[i]),
        forall|i: int| 0 <= i < states.len() ==> picked_unused(#[trigger] states[i]),
        forall|view: MetadataView| records(content, view) ==> #[trigger] view.exclusive(),
        states.last().stage is Finished,
        states.last().action is Done,
    ensures
        states.last().pool.exclusive(),
{
    lemma_apart(content, states, events, bytes, states.len() - 1);
}

/// No two files of the pool share a handle, at whatever point of the opening.
pub proof fn law_opened_files_have_their_own_handles(
    states: Seq<InitState>,
    events: Seq<EventView>,
    bytes: Seq<Seq<u8>>,
    n: int,
)
    requires
        is_opening(states, events, bytes),
        states[0].pool.handles_differ(),
        0 <= n < states.len(),
    ensures
        states[n].pool.handles_differ(),
    decreases n,
{
    if n > 0 {
        law_opened_files_have_their_own_handles(states, events, bytes, n - 1);
        let before = states[n - 1].pool;
        let event = events[n - 1];
        let after = states[n].pool;
        assert(gives_new_handle(before, event));
        assert(follows(before, states[n - 1].stage, event, states[n], bytes[n - 1]));
        assert(after.handles == before.handles && after.meta_handle == before.meta_handle
            || (exists|name: Seq<char>, handle: u32|
            before.is_new_handle(handle) && after.handles == #[trigger] before.handles.insert(
                name,
                handle,
            ) && after.meta_handle == before.meta_handle) || (exists|handle: u32|
            #![trigger before.is_new_handle(handle)]
            before.is_new_handle(handle) && after.handles == before.handles && after.meta_handle
                == Some(handle)));
    }
}

/// The name of the backing file that is being opened at a stage.
pub open spec fn asked_name(stage: StageView) -> Option<Seq<char>> {
    match stage {
        StageView::Files { names, next, .. } => Some(names[next]),
        StageView::Empty { name, .. } => Some(name),
        _ => None,
    }
}

/// Whether a backing file of that name was asked for before state `n`.
pub open spec fn was_asked(states: Seq<InitState>, n: int, name: Seq<char>) -> bool {
    exists|i: int| 0 <= i < n && asked_name((#[trigger] states[i]).stage) == Some(name)
}

/// Whether, before state `n`, the host was asked to open the file of that name
/// and gave `handle` for it.
pub open spec fn gave_for(
    states: Seq<InitState>,
    events: Seq<EventView>,
    n: int,
    name: Seq<char>,
    handle: u32,
) -> bool {
    exists|i: int|
        {
            &&& 0 <= i < n
            &&& asked_name((#[trigger] states[i]).stage) == Some(name)
            &&& states[i].action == InitActionView::Open { name }
            &&& events[i] == EventView::Opened { handle }
        }
}

/// What is asked of the host at a stage that opens a backing file is to open
/// the file of that name; the name of a new one has the form of a UUID.
proof fn lemma_asked(
    states: Seq<InitState>,
    events: Seq<EventView>,
    bytes: Seq<Seq<u8>>,
    n: int,
)
    requires
        is_opening(states, events, bytes),
        0 <= n < states.len(),
    ensures
        match asked_name(states[n].stage) {
            Some(name) => states[n].action == (InitActionView::Open { name }),
            None => true,
        },
        picked(states[n].stage) is Some ==> is_new_file_name(picked(states[n].stage)->0),
{
    if n > 0 {
        assert(answers(states[n - 1].stage, events[n - 1]));
        assert(follows(
            states[n - 1].pool,
            states[n - 1].stage,
            events[n - 1],
            states[n],
            bytes[n - 1],
        ));
    }
}

/// At whatever point of an opening, a backing file that was asked for has the
/// handle that the host gave for its name, and the others have the handles that
/// they had. The names of new files have the form of UUIDs.
pub proof fn law_handles_are_those_given_by_name(
    states: Seq<InitState>,
    events: Seq<EventView>,
    bytes: Seq<Seq<u8>>,
    n: int,
    name: Seq<char>,
)
    requires
        is_opening(states, events, bytes),
        0 <= n < states.len(),
    ensures
        was_asked(states, n, name) ==> states[n].pool.handles.dom().contains(name) && gave_for(
            states,
            events,
            n,
            name,
            states[n].pool.handles[name],
        ),
        !was_asked(states, n, name) ==> {
            &&& states[n].pool.handles.dom().contains(name)
                == states[0].pool.handles.dom().contains(name)
            &&& states[n].pool.handles[name] == states[0].pool.handles[name]
        },
        match states[n].stage {
            StageView::Empty { name: new, .. } => has_uuid_form(new),
            _ => true,
        },
    decreases n,
{
    lemma_asked(states, events, bytes, n);
    if picked(states[n].stage) is Some {
        law_new_names_are_found(picked(states[n].stage)->0);
    }
    if n > 0 {
        law_handles_are_those_given_by_name(states, events, bytes, n - 1, name);
        lemma_asked(states, events, bytes, n - 1);
        let before = states[n - 1];
        let event = events[n - 1];
        assert(answers(before.stage, event));
        assert(follows(before.pool, before.stage, event, states[n], bytes[n - 1]));
        if asked_name(before.stage) == Some(name) {
            assert(gave_for(states, events, n, name, states[n].pool.handles[name]));
            assert(was_asked(states, n, name));
        } else {
            assert(states[n].pool.handles.dom().contains(name)
                == before.pool.handles.dom().contains(name));
            assert(states[n].pool.handles[name] == before.pool.handles[name]);
            if was_asked(states, n - 1, name) {
                let i = choose|i: int|
                    {
                        &&& 0 <= i < n - 1
                        &&& asked_name((#[trigger] states[i]).stage) == Some(name)
                        &&& states[i].action == InitActionView::Open { name }
                        &&& events[i] == EventView::Opened {
                            handle: before.pool.handles[name],
                        }
                    };
                assert(asked_name(states[i].stage) == Some(name));
                assert(gave_for(states, events, n, name, states[n].pool.handles[name]));
            }
            if was_asked(states, n, name) {
                let i = choose|i: int|
                    0 <= i < n && asked_name((#[trigger] states[i]).stage) == Some(name);
                assert(i != n - 1);
                assert(was_asked(states, n - 1, name));
            }
        }
    }
}

/// Whether all backing files of a record were asked for before state `n`.
spec fn all_asked(states: Seq<InitState>, n: int, view: MetadataView) -> bool {
    &&& forall|path: Seq<char>| #[trigger]
        view.files.dom().contains(path) ==> was_asked(states, n, view.files[path])
    &&& forall|i: int|
        0 <= i < view.empty_files.len() ==> was_asked(states, n, #[trigger] view.empty_files[i])
}

/// What has been asked for at each stage of an opening.
spec fn asked_so_far(states: Seq<InitState>, n: int) -> bool {
    let state = states[n];
    match state.stage {
        StageView::Start => state.pool.meta_handle is None,
        StageView::Files { loaded, names, next } => {
            &&& lists_backing_files(names, loaded)
            &&& 0 <= next < names.len()
            &&& forall|k: int| 0 <= k < next ==> was_asked(states, n, #[trigger] names[k])
        },
        StageView::Empty { .. } | StageView::Persist => all_asked(states, n, state.pool.metadata),
        StageView::Finished => state.action is Done ==> all_asked(
            states,
            n,
            state.pool.metadata,
        ),
        _ => true,
    }
}

proof fn lemma_was_asked_later(states: Seq<InitState>, n: int, name: Seq<char>)
    requires
        n >= 0,
        was_asked(states, n, name),
    ensures
        was_asked(states, n + 1, name),
{
    let i = choose|i: int| 0 <= i < n && asked_name((#[trigger] states[i]).stage) == Some(name);
    assert(asked_name(states[i].stage) == Some(name));
}

/// Where the backing files from the first to the one before `names[next]` have
/// been asked for, so have all that the next state needs.
proof fn lemma_opening_asked(
    states: Seq<InitState>,
    n: int,
    pool: PoolView,
    loaded: MetadataView,
    names: Seq<Seq<char>>,
    next: int,
    bytes: Seq<u8>,
    fresh: Option<Seq<char>>,
)
    requires
        states[n] == opening(pool, loaded, names, next, bytes, fresh),
        lists_backing_files(names, loaded),
        0 <= next <= names.len(),
        forall|k: int| 0 <= k < next ==> was_asked(states, n, #[trigger] names[k]),
    ensures
        asked_so_far(states, n),
{
    if next == names.len() {
        lemma_lists_backing_files(names, loaded);
        assert forall|path: Seq<char>| #[trigger] loaded.files.dom().contains(path) implies was_asked(
            states,
            n,
            loaded.files[path],
        ) by {
            let i = choose|i: int| 0 <= i < names.len() && names[i] == loaded.files[path];
            assert(was_asked(states, n, names[i]));
        }
        assert forall|i: int| 0 <= i < loaded.empty_files.len() implies was_asked(
            states,
            n,
            #[trigger] loaded.empty_files[i],
        ) by {
            assert(names.contains(loaded.empty_files[i]));
            let k = choose|k: int| 0 <= k < names.len() && names[k] == loaded.empty_files[i];
            assert(was_asked(states, n, names[k]));
        }
    }
}

proof fn lemma_asked_so_far(
    states: Seq<InitState>,
    events: Seq<EventView>,
    bytes: Seq<Seq<u8>>,
    n: int,
)
    requires
        is_opening(states, events, bytes),
        states[0].pool.meta_handle is None,
        0 <= n < states.len(),
    ensures
        asked_so_far(states, n),
    decreases n,
{
    if n > 0 {
        lemma_asked_so_far(states, events, bytes, n - 1);
        let before = states[n - 1];
        let event = events[n - 1];
        let fresh = picked(states[n].stage);
        assert(answers(before.stage, event));
        assert(follows(before.pool, before.stage, event, states[n], bytes[n - 1]));
        match (before.stage, event) {
            (StageView::Size, EventView::Sized { size }) => {
                if size == 0 {
                    let names = choose|names: Seq<Seq<char>>| #[trigger]
                        lists_backing_files(names, initial_metadata()) && states[n] == opening(
                            before.pool,
                            initial_metadata(),
                            names,
                            0,
                            bytes[n - 1],
                            fresh,
                        );
                    lemma_opening_asked(
                        states,
                        n,
                        before.pool,
                        initial_metadata(),
                        names,
                        0,
                        bytes[n - 1],
                        fresh,
                    );
                }
            },
            (StageView::Content { .. }, EventView::Content { bytes: content }) => {
                if exists|loaded: MetadataView, names: Seq<Seq<char>>|
                    records(content, loaded) && #[trigger] lists_backing_files(names, loaded)
                        && states[n] == opening(
                        before.pool,
                        loaded,
                        names,
                        0,
                        bytes[n - 1],
                        fresh,
                    ) {
                    let (loaded, names) = choose|loaded: MetadataView, names: Seq<Seq<char>>|
                        records(content, loaded) && #[trigger] lists_backing_files(names, loaded)
                            && states[n] == opening(
                            before.pool,
                            loaded,
                            names,
                            0,
                            bytes[n - 1],
                            fresh,
                        );
                    lemma_opening_asked(
                        states,
                        n,
                        before.pool,
                        loaded,
                        names,
                        0,
                        bytes[n - 1],
                        fresh,
                    );
                }
            },
            (StageView::Files { loaded, names, next }, EventView::Opened { handle }) => {
                let grown = PoolView {
                    handles: before.pool.handles.insert(names[next], handle),
                    ..before.pool
                };
                assert forall|k: int| 0 <= k < next + 1 implies was_asked(
                    states,
                    n,
                    #[trigger] names[k],
                ) by {
                    if k < next {
                        lemma_was_asked_later(states, n - 1, names[k]);
                    } else {
                        assert(asked_name(states[n - 1].stage) == Some(names[k]));
                    }
                }
                lemma_opening_asked(
                    states,
                    n,
                    grown,
                    loaded,
                    names,
                    next + 1,
                    bytes[n - 1],
                    fresh,
                );
            },
            (StageView::Empty { name, .. }, EventView::Opened { .. }) => {
                assert(asked_name(states[n - 1].stage) == Some(name));
                lemma_all_asked_later(states, n - 1, before.pool.metadata);
                let view = states[n].pool.metadata;
                assert forall|i: int| 0 <= i < view.empty_files.len() implies was_asked(
                    states,
                    n,
                    #[trigger] view.empty_files[i],
                ) by {
                    if i < before.pool.metadata.empty_files.len() {
                        assert(view.empty_files[i] == before.pool.metadata.empty_files[i]);
                    }
                }
            },
            (StageView::Persist, _) => {
                lemma_all_asked_later(states, n - 1, before.pool.metadata);
            },
            _ => {},
        }
    }
}

proof fn lemma_all_asked_later(states: Seq<InitState>, n: int, view: MetadataView)
    requires
        n >= 0,
        all_asked(states, n, view),
    ensures
        all_asked(states, n + 1, view),
{
    assert forall|path: Seq<char>| #[trigger] view.files.dom().contains(path) implies was_asked(
        states,
        n + 1,
        view.files[path],
    ) by {
        lemma_was_asked_later(states, n, view.files[path]);
    }
    assert forall|i: int| 0 <= i < view.empty_files.len() implies was_asked(
        states,
        n + 1,
        #[trigger] view.empty_files[i],
    ) by {
        lemma_was_asked_later(states, n, view.empty_files[i]);
    }
}

/// Every backing file that an opened pool names has the handle that the host
/// gave when it was asked to open the file of that name: those behind paths
/// and the empty ones.
pub proof fn law_opened_pool_has_the_handles_given(
    states: Seq<InitState>,
    events: Seq<EventView>,
    bytes: Seq<Seq<u8>>,
    path: Seq<char>,
    i: int,
)
    requires
        is_opening(states, events, bytes),
        states[0].pool.meta_handle is None,
        states.last().stage is Finished,
        states.last().action is Done,
    ensures
        ({
            let pool = states.last().pool;
            let n = states.len() - 1;
            &&& pool.metadata.files.dom().contains(path) ==> gave_for(
                states,
                events,
                n,
                pool.metadata.files[path],
                pool.handle_of(path),
            )
            &&& 0 <= i < pool.metadata.empty_files.len() ==> gave_for(
                states,
                events,
                n,
                pool.metadata.empty_files[i],
                pool.handles[pool.metadata.empty_files[i]],
            )
        }),
{
    let n = states.len() - 1;
    let pool = states.last().pool;
    lemma_asked_so_far(states, events, bytes, n);
    if pool.metadata.files.dom().contains(path) {
        law_handles_are_those_given_by_name(states, events, bytes, n, pool.metadata.files[path]);
    }
    if 0 <= i < pool.metadata.empty_files.len() {
        law_handles_are_those_given_by_name(states, events, bytes, n, pool.metadata.empty_files[i]);
    }
}

/// How much of an opening is left to come: the rank of the stage, and what is
/// left of it.
pub open spec fn to_come(stage: StageView) -> (nat, int) {
    match stage {
        StageView::Start => (8, 0),
        StageView::Root => (7, 0),
        StageView::Meta => (6, 0),
        StageView::Size => (5, 0),
        StageView::Content { .. } => (4, 0),
        StageView::Files { names, next, .. } => (3, names.len() - next),
        StageView::Empty { left, .. } => (2, left),
        StageView::Persist => (1, 0),
        StageView::Finished => (0, 0),
    }
}

/// Every answer brings the opening closer to its end, so it comes to one.
pub proof fn law_opening_ends(
    pool: PoolView,
    stage: StageView,
    event: EventView,
    after: InitState,
    bytes: Seq<u8>,
)
    requires
        stage_sound(pool, stage),
        answers(stage, event),
        follows(pool, stage, event, after, bytes),
    ensures
        ({
            let before = to_come(stage);
            let now = to_come(after.stage);
            now.0 < before.0 || now.0 == before.0 && 0 <= now.1 < before.1
        }),
{
}

/// One step of an opening. The directory is opened, then the metadata file,
/// which is measured and, where it is not empty, read as far as it goes; then
/// the backing files of the record, each of which gets the handle given for it;
/// then, where the record lists fewer than six empty files, six new ones are
/// made; then the metadata is written, and that is the end. A pool that is open
/// already is left alone.
pub proof fn law_opening_goes_step_by_step(
    pool: PoolView,
    stage: StageView,
    event: EventView,
    after: InitState,
    bytes: Seq<u8>,
)
    requires
        stage_sound(pool, stage),
        answers(stage, event),
        follows(pool, stage, event, after, bytes),
    ensures
        stage is Start ==> after.pool == pool && if pool.meta_handle is Some {
            after.stage is Finished && after.action is Done
        } else {
            after.stage is Root && after.action is OpenRoot
        },
        stage is Root ==> after.pool == pool && after.stage is Meta && after.action == (
        InitActionView::Open { name: "metadata.bincode"@ }),
        stage is Meta ==> {
            let handle = event->Opened_handle;
            &&& after.pool == PoolView { meta_handle: Some(handle), ..pool }
            &&& after.stage is Size
            &&& after.action == InitActionView::Measure { handle }
        },
        stage is Size && event->Sized_size > 0 ==> {
            let size = event->Sized_size;
            &&& after.pool == pool
            &&& after.stage == StageView::Content { len: size }
            &&& after.action == InitActionView::ReadAll { handle: pool.meta_handle->0, len: size }
        },
        stage is Size && event->Sized_size == 0 ==> {
            &&& after.pool.metadata.version == 1
            &&& after.pool.metadata.files == Map::<Seq<char>, Seq<char>>::empty()
            &&& after.pool.metadata.empty_files == Seq::<Seq<char>>::empty()
            &&& after.pool.handles == pool.handles
            &&& after.pool.meta_handle == pool.meta_handle
            &&& makes_new(after, 6)
        },
        stage is Content ==> {
            let content = event->Content_bytes;
            &&& after.pool.handles == pool.handles
            &&& after.pool.meta_handle == pool.meta_handle
            &&& if after.action is Unreadable {
                &&& after.pool == pool
                &&& after.stage is Finished
                &&& after.action->Unreadable_text == refusal_text(content, usize::BITS as int)
                &&& forall|view: MetadataView| !records(content, view)
            } else if after.stage is Files {
                &&& after.pool == pool
                &&& records(content, after.stage->Files_loaded)
                &&& after.stage->Files_next == 0
                &&& after.action == InitActionView::Open { name: after.stage->Files_names[0] }
            } else {
                &&& records(content, after.pool.metadata)
                &&& after.pool.metadata.files.dom() == Set::<Seq<char>>::empty()
                &&& after.pool.metadata.empty_files.len() == 0
                &&& makes_new(after, 6)
            }
        },
        stage is Files ==> {
            let loaded = stage->Files_loaded;
            let names = stage->Files_names;
            let next = stage->Files_next;
            let handle = event->Opened_handle;
            &&& after.pool.handles == pool.handles.insert(names[next], handle)
            &&& after.pool.meta_handle == pool.meta_handle
            &&& if next + 1 < names.len() {
                &&& after.pool.metadata == pool.metadata
                &&& after.stage == StageView::Files { loaded, names, next: next + 1 }
                &&& after.action == InitActionView::Open { name: names[next + 1] }
            } else {
                &&& after.pool.metadata == loaded
                &&& if loaded.empty_files.len() < 6 {
                    makes_new(after, 6)
                } else {
                    after.stage is Persist
                }
            }
        },
        stage is Empty ==> {
            let left = stage->Empty_left;
            let name = stage->Empty_name;
            let handle = event->Opened_handle;
            &&& after.pool.handles == pool.handles.insert(name, handle)
            &&& after.pool.meta_handle == pool.meta_handle
            &&& after.pool.metadata.empty_files == pool.metadata.empty_files.push(name)
            &&& after.pool.metadata.files == pool.metadata.files
            &&& after.pool.metadata.version == pool.metadata.version
            &&& if left > 1 {
                makes_new(after, left - 1)
            } else {
                after.stage is Persist
            }
        },
        stage is Persist ==> after.pool == pool && after.stage is Finished && after.action is Done,
        after.stage is Persist && bytes.len() < 0x1_0000_0000 ==> after.action == (
        InitActionView::Perform {
            actions: seq![
                ActionView::Write { handle: pool.meta_handle->0, data: bytes, at: 0 },
                ActionView::Truncate { handle: pool.meta_handle->0, size: bytes.len() as u32 },
                ActionView::Flush { handle: pool.meta_handle->0 },
            ],
        }),
        after.action is Perform <==> after.stage is Persist,
{
    let fresh = picked(after.stage);
    match (stage, event) {
        (StageView::Size, EventView::Sized { size }) => {
            if size == 0 {
                let names = choose|names: Seq<Seq<char>>| #[trigger]
                    lists_backing_files(names, initial_metadata()) && after == opening(
                        pool,
                        initial_metadata(),
                        names,
                        0,
                        bytes,
                        fresh,
                    );
                law_backing_files_then_empty_files(names, initial_metadata(), Seq::empty());
                assert(names.len() == 0);
            }
        },
        (StageView::Content { .. }, EventView::Content { bytes: content }) => {
            if !(after.action is Unreadable) {
                let (loaded, names) = choose|loaded: MetadataView, names: Seq<Seq<char>>|
                    records(content, loaded) && #[trigger] lists_backing_files(names, loaded)
                        && after == opening(pool, loaded, names, 0, bytes, fresh);
                law_backing_files_then_empty_files(names, loaded, Seq::empty());
                if names.len() == 0 {
                    assert(loaded.files.dom() =~= Set::<Seq<char>>::empty());
                }
            }
        },
        _ => {},
    }
    if after.stage is Persist && bytes.len() < 0x1_0000_0000 {
        let meta = pool.meta_handle->0;
        assert(persist_actions(meta, bytes) =~= seq![
            ActionView::Write { handle: meta, data: bytes, at: 0 },
            ActionView::Truncate { handle: meta, size: bytes.len() as u32 },
            ActionView::Flush { handle: meta },
        ]);
    }
}

/// Whether the first of `left` new empty files is being made, under a new name;
/// or no name could be had, and that is the end.
pub open spec fn makes_new(state: InitState, left: int) -> bool {
    ||| state.stage is Empty && state.stage->Empty_left == left && state.action == (
    InitActionView::Open { name: state.stage->Empty_name }) && is_new_file_name(
        state.stage->Empty_name,
    )
    ||| state.stage is Finished && state.action is NoRandomness
}

/// A pool that has been opened differs from its record by six new empty files
/// behind the others where those were fewer than six, and by nothing where they
/// were not.
pub proof fn law_opened_pool_adds_six_empty_files_or_none(
    content: Seq<u8>,
    states: Seq<InitState>,
    events: Seq<EventView>,
    bytes: Seq<Seq<u8>>,
    recorded: MetadataView,
    i: int,
)
    requires
        is_opening(states, events, bytes),
        states[0].pool.wf(),
        states[0].pool.meta_handle is None,
        forall|i: int| 0 <= i < events.len() ==> tells_truth(content, #[trigger] events[i]),
        states.last().stage is Finished,
        states.last().action is Done,
        content.len() <= u64::MAX,
        records(content, recorded),
    ensures
        ({
            let now = states.last().pool.metadata;
            let had = recorded.empty_files.len();
            &&& now.version == recorded.version
            &&& now.files == recorded.files
            &&& had >= 6 ==> now.empty_files == recorded.empty_files
            &&& had < 6 ==> now.empty_files.len() == had + 6
            &&& recorded.empty_files.is_prefix_of(now.empty_files)
            &&& had <= i < now.empty_files.len() ==> has_uuid_form(now.empty_files[i])
        }),
{
    lemma_on_course(content, states, events, bytes, states.len() - 1);
    let (found, created) = choose|found: MetadataView, created: Seq<Seq<char>>|
        {
            &&& #[trigger] holds_recorded(content, states.last().pool, found, created)
            &&& created.len() == missing_empty_files(found)
        };
    law_bytes_record_one_metadata(content, found, recorded);
    let now = states.last().pool.metadata;
    assert(recorded.empty_files.len() >= 6 ==> now.empty_files =~= recorded.empty_files);
    if recorded.empty_files.len() <= i < now.empty_files.len() {
        assert(now.empty_files[i] == created[i - recorded.empty_files.len()]);
        law_new_names_are_found(now.empty_files[i]);
    }
}

/// No file is opened but the metadata file, first, the backing files that the
/// record names, and new ones under new names.
pub proof fn law_only_known_files_are_opened(
    content: Seq<u8>,
    states: Seq<InitState>,
    events: Seq<EventView>,
    bytes: Seq<Seq<u8>>,
    n: int,
    recorded: MetadataView,
)
    requires
        is_opening(states, events, bytes),
        states[0].pool.wf(),
        states[0].pool.meta_handle is None,
        forall|i: int| 0 <= i < events.len() ==> tells_truth(content, #[trigger] events[i]),
        0 < n < states.len(),
        content.len() <= u64::MAX,
        records(content, recorded),
    ensures
        match states[n].action {
            InitActionView::Open { name } => {
                ||| name == "metadata.bincode"@ && n == 2
                ||| recorded.empty_files.contains(name)
                ||| exists|path: Seq<char>| #[trigger]
                    recorded.files.dom().contains(path) && recorded.files[path] == name
                ||| has_uuid_form(name)
            },
            _ => true,
        },
{
    lemma_on_course(content, states, events, bytes, n);
    lemma_on_course(content, states, events, bytes, n - 1);
    lemma_asked(states, events, bytes, n);
    let before = states[n - 1];
    assert(answers(before.stage, events[n - 1]));
    assert(follows(before.pool, before.stage, events[n - 1], states[n], bytes[n - 1]));
    match states[n].stage {
        StageView::Files { loaded, names, next } => {
            law_bytes_record_one_metadata(content, loaded, recorded);
            law_backing_files_then_empty_files(names, loaded, names[next]);
            assert(names.contains(names[next]));
        },
        StageView::Empty { name, .. } => {
            law_new_names_are_found(name);
        },
        StageView::Meta => {
            lemma_meta_is_second(states, events, bytes, n);
        },
        _ => {},
    }
}

proof fn lemma_meta_is_second(
    states: Seq<InitState>,
    events: Seq<EventView>,
    bytes: Seq<Seq<u8>>,
    n: int,
)
    requires
        is_opening(states, events, bytes),
        0 <= n < states.len(),
    ensures
        states[n].stage is Start ==> n == 0,
        states[n].stage is Root ==> n == 1,
        states[n].stage is Meta ==> n == 2,
    decreases n,
{
    if n > 0 {
        lemma_meta_is_second(states, events, bytes, n - 1);
        let before = states[n - 1];
        assert(answers(before.stage, events[n - 1]));
        assert(follows(before.pool, before.stage, events[n - 1], states[n], bytes[n - 1]));
    }
}

/// The metadata is written once, at the end, and to the metadata file: where a
/// pool has been opened that was not open, the last request before the end
/// leaves its bytes in that file, and no request before it changes a file.
pub proof fn law_metadata_is_written_once(
    content: Seq<u8>,
    states: Seq<InitState>,
    events: Seq<EventView>,
    bytes: Seq<Seq<u8>>,
    contents: Map<u32, Seq<u8>>,
    n: int,
)
    requires
        is_opening(states, events, bytes),
        states[0].pool.wf(),
        states[0].pool.meta_handle is None,
        forall|i: int| 0 <= i < events.len() ==> tells_truth(content, #[trigger] events[i]),
        states.last().stage is Finished,
        states.last().action is Done,
        bytes[states.len() - 3].len() < 0x1_0000_0000,
        0 < n < states.len(),
    ensures
        ({
            let last = states.len() - 2;
            let meta = states.last().pool.meta_handle->0;
            &&& last > 0
            &&& states[n].action is Perform <==> n == last
            &&& performed_all(
                contents,
                states[last].action->Perform_actions,
            )[meta] == bytes[last - 1]
            &&& states[last].pool == states.last().pool
        }),
{
    let end = states.len() - 1;
    let last = end - 1;
    assert(answers(states[last].stage, events[last]));
    assert(follows(
        states[last].pool,
        states[last].stage,
        events[last],
        states[end],
        bytes[last],
    ));
    lemma_on_course(content, states, events, bytes, last);
    assert(states[last].stage is Persist);
    let before = states[last - 1];
    assert(answers(before.stage, events[last - 1]));
    assert(follows(before.pool, before.stage, events[last - 1], states[last], bytes[last - 1]));
    let meta = states[last].pool.meta_handle->0;
    law_persist_writes_the_metadata(
        contents,
        meta,
        bytes[last - 1],
        if meta == 0 {
            1u32
        } else {
            0u32
        },
    );
    if n < end {
        lemma_no_persist_before(states, events, bytes, n, last);
        let earlier = states[n - 1];
        assert(answers(earlier.stage, events[n - 1]));
        assert(follows(earlier.pool, earlier.stage, events[n - 1], states[n], bytes[n - 1]));
    }
}

/// From the stage at which the metadata is written the next step is the end.
proof fn lemma_no_persist_before(
    states: Seq<InitState>,
    events: Seq<EventView>,
    bytes: Seq<Seq<u8>>,
    n: int,
    last: int,
)
    requires
        is_opening(states, events, bytes),
        0 <= n <= last < events.len(),
    ensures
        n < last ==> !(states[n].stage is Persist) || n + 1 == last && states[last].stage is Finished,
{
    if n < last {
        assert(answers(states[n].stage, events[n]));
        assert(follows(states[n].pool, states[n].stage, events[n], states[n + 1], bytes[n]));
        assert(answers(states[n + 1].stage, events[n + 1]));
    }
}

/// What a stage, an answer and a request say is what they are made of.
pub proof fn law_stages_say_what_they_are(stage: InitStage, event: InitEvent, action: InitAction)
    ensures
        match stage {
            InitStage::Start => stage@ is Start,
            InitStage::Root => stage@ is Root,
            InitStage::Meta => stage@ is Meta,
            InitStage::Size => stage@ is Size,
            InitStage::Content { len } => stage@ == (StageView::Content { len }),
            InitStage::Files { loaded, names, next } => stage@ == (StageView::Files {
                loaded: loaded@,
                names: texts(names@),
                next: next as int,
            }),
            InitStage::Empty { left, name } => stage@ == (StageView::Empty {
                left: left as int,
                name: name@,
            }),
            InitStage::Persist => stage@ is Persist,
            InitStage::Finished => stage@ is Finished,
        },
        match event {
            InitEvent::Begin => event@ is Begin,
            InitEvent::Performed => event@ is Performed,
            InitEvent::Opened { handle } => event@ == (EventView::Opened { handle }),
            InitEvent::Sized { size } => event@ == (EventView::Sized { size }),
            InitEvent::Content { bytes } => event@ == (EventView::Content { bytes: bytes@ }),
        },
        match action {
            InitAction::OpenRoot => action@ is OpenRoot,
            InitAction::Open { name } => action@ == (InitActionView::Open { name: name@ }),
            InitAction::Measure { handle } => action@ == (InitActionView::Measure { handle }),
            InitAction::ReadAll { handle, len } => action@ == (InitActionView::ReadAll {
                handle,
                len,
            }),
            InitAction::Perform { actions } => action@ == (InitActionView::Perform {
                actions: action_views(actions@),
            }),
            InitAction::Done => action@ is Done,
            InitAction::Fail { error } => match error {
                PoolError::Decode(text) => action@ == (InitActionView::Unreadable { text: text@ }),
                PoolError::NoRandomness => action@ is NoRandomness,
                PoolError::FileNotFound => action@ is FileNotFound,
                PoolError::NotInited => action@ is NotInited,
            },
        },
{
}

/// Every answer of the right kind is taken at every stage: any size, as many
/// bytes as were asked for whatever they are, and any handle that no file of the
/// pool has.
pub proof fn law_every_answer_is_taken(
    pool: PoolView,
    stage: StageView,
    handle: u32,
    size: usize,
    bytes: Seq<u8>,
)
    requires
        pool.meta_handle != Some(handle),
        forall|name: Seq<char>| #[trigger]
            pool.handles.dom().contains(name) ==> pool.handles[name] != handle,
    ensures
        stage is Start ==> answers(stage, EventView::Begin),
        stage is Root || stage is Persist ==> answers(stage, EventView::Performed),
        stage is Meta || stage is Files || stage is Empty ==> answers(
            stage,
            EventView::Opened { handle },
        ),
        gives_new_handle(pool, EventView::Opened { handle }),
        stage is Size ==> answers(stage, EventView::Sized { size }),
        stage is Content && bytes.len() == stage->Content_len ==> answers(
            stage,
            EventView::Content { bytes },
        ),
        gives_new_handle(pool, EventView::Begin),
        gives_new_handle(pool, EventView::Performed),
        gives_new_handle(pool, EventView::Sized { size }),
        gives_new_handle(pool, EventView::Content { bytes }),
{
}

/// An opening can begin on any sound pool, and where one has come to a stage
/// soundly, it goes on soundly.
pub proof fn law_opening_can_go_on(
    content: Seq<u8>,
    states: Seq<InitState>,
    events: Seq<EventView>,
    bytes: Seq<Seq<u8>>,
    n: int,
)
    requires
        is_opening(states, events, bytes),
        states[0].pool.wf(),
        states[0].pool.meta_handle is None,
        forall|i: int| 0 <= i < events.len() ==> tells_truth(content, #[trigger] events[i]),
        0 <= n < states.len(),
    ensures
        states[n].pool.wf(),
        stage_sound(states[n].pool, states[n].stage),
{
    lemma_on_course(content, states, events, bytes, n);
}

} // verus!
