//! What is asked of the host's files, and what it does to their content.

use vstd::prelude::*;

use crate::error::PoolError;

verus! {

/// One request to the host, on one of the file handles that it has open.
/// Handles are known by their numbers.
#[derive(Debug, PartialEq, Eq)]
pub enum FileAction {
    /// Read up to `len` bytes from `at` on.
    Read { handle: u32, len: usize, at: i64 },
    /// Write `data` from `at` on.
    Write { handle: u32, data: Vec<u8>, at: i64 },
    /// Cut the file off, or fill it up with zeros, to `size` bytes.
    Truncate { handle: u32, size: u32 },
    /// Make what was written last.
    Flush { handle: u32 },
    /// Tell the number of bytes in the file.
    Size { handle: u32 },
    /// Give the handle back.
    Close { handle: u32 },
}

/// A request, with the bytes to be written as a sequence.
pub enum ActionView {
    Read { handle: u32, len: usize, at: i64 },
    Write { handle: u32, data: Seq<u8>, at: i64 },
    Truncate { handle: u32, size: u32 },
    Flush { handle: u32 },
    Size { handle: u32 },
    Close { handle: u32 },
}

impl View for FileAction {
    type V = ActionView;

    open spec fn view(&self) -> ActionView {
        match *self {
            FileAction::Read { handle, len, at } => ActionView::Read { handle, len, at },
            FileAction::Write { handle, data, at } => ActionView::Write { handle, data: data@, at },
            FileAction::Truncate { handle, size } => ActionView::Truncate { handle, size },
            FileAction::Flush { handle } => ActionView::Flush { handle },
            FileAction::Size { handle } => ActionView::Size { handle },
            FileAction::Close { handle } => ActionView::Close { handle },
        }
    }
}

/// The views of a list of requests.
pub open spec fn action_views(actions: Seq<FileAction>) -> Seq<ActionView> {
    actions.map_values(|a: FileAction| a@)
}

/// An operation that has been decided on: the requests that it makes, to be
/// performed in order, and how it ends. A request that fails ends it there,
/// with that failure; when all have been performed it ends with `outcome`.
#[derive(Debug)]
pub struct Planned<T> {
    pub actions: Vec<FileAction>,
    pub outcome: Result<T, PoolError>,
}

/// A file of `content` after `data` has been written from `at` on. A gap
/// before `at` is filled with zeros.
pub open spec fn written(content: Seq<u8>, at: int, data: Seq<u8>) -> Seq<u8> {
    let end = at + data.len();
    Seq::new(
        (if content.len() < end {
            end
        } else {
            content.len() as int
        }) as nat,
        |i: int|
            if at <= i < end {
                data[i - at]
            } else if i < content.len() {
                content[i]
            } else {
                0
            },
    )
}

/// A file of `content` after its size has been set to `size`.
pub open spec fn resized(content: Seq<u8>, size: nat) -> Seq<u8> {
    Seq::new(
        size,
        |i: int|
            if i < content.len() {
                content[i]
            } else {
                0
            },
    )
}

/// The bytes that a read of `len` bytes from `at` on gives: those of them
/// that the file has.
pub open spec fn read_bytes(content: Seq<u8>, at: int, len: nat) -> Seq<u8> {
    let start = if at < content.len() {
        at
    } else {
        content.len() as int
    };
    let end = if at + len < content.len() {
        at + len
    } else {
        content.len() as int
    };
    content.subrange(start, end)
}

/// The contents of the host's files, by handle, after one request has been
/// performed.
pub open spec fn performed(files: Map<u32, Seq<u8>>, action: ActionView) -> Map<u32, Seq<u8>> {
    match action {
        ActionView::Write { handle, data, at } => files.insert(
            handle,
            written(files[handle], at as int, data),
        ),
        ActionView::Truncate { handle, size } => files.insert(
            handle,
            resized(files[handle], size as nat),
        ),
        _ => files,
    }
}

/// The contents of the host's files after requests have been performed in
/// order.
pub open spec fn performed_all(
    files: Map<u32, Seq<u8>>,
    actions: Seq<ActionView>,
) -> Map<u32, Seq<u8>>
    decreases actions.len(),
{
    if actions.len() == 0 {
        files
    } else {
        performed(performed_all(files, actions.drop_last()), actions.last())
    }
}

/// The size that a file gets when it is cut off at `size` bytes: the host
/// takes 32 bits of it.
pub open spec fn truncated_size(size: int) -> u32 {
    (size % 0x1_0000_0000) as u32
}

/// The low 32 bits of a size.
pub fn low_bits(size: u64) -> (low: u32)
    ensures
        low == truncated_size(size as int),
{
    assert(size as u32 == size % 0x1_0000_0000u64) by (bit_vector);
    #[verifier::truncate]
    let low: u32 = size as u32;
    low
}

/// What was written is what is read back from the same place.
pub proof fn law_read_after_write(content: Seq<u8>, at: int, data: Seq<u8>)
    requires
        at >= 0,
    ensures
        read_bytes(written(content, at, data), at, data.len()) == data,
{
    assert(read_bytes(written(content, at, data), at, data.len()) =~= data);
}

/// A write changes nothing outside the bytes written: a read elsewhere in the
/// file gives what it gave before.
pub proof fn law_write_leaves_the_rest(
    content: Seq<u8>,
    at: int,
    data: Seq<u8>,
    other: int,
    len: nat,
)
    requires
        0 <= at,
        0 <= other,
        other + len <= at || at + data.len() <= other,
        other + len <= content.len(),
    ensures
        read_bytes(written(content, at, data), other, len) == read_bytes(content, other, len),
{
    assert(read_bytes(written(content, at, data), other, len) =~= read_bytes(content, other, len));
}

/// A request leaves the files alone that it is not made on.
pub proof fn law_other_files_stay(
    files: Map<u32, Seq<u8>>,
    action: ActionView,
    handle: u32,
)
    requires
        match action {
            ActionView::Write { handle: h, .. } => h != handle,
            ActionView::Truncate { handle: h, .. } => h != handle,
            _ => true,
        },
    ensures
        performed(files, action).dom().contains(handle) == files.dom().contains(handle),
        performed(files, action)[handle] == files[handle],
{
}

/// What a request says is what it is made of.
pub proof fn law_requests_say_what_they_are(action: FileAction, actions: Seq<FileAction>, i: int)
    ensures
        match action {
            FileAction::Read { handle, len, at } => action@ == (ActionView::Read {
                handle,
                len,
                at,
            }),
            FileAction::Write { handle, data, at } => action@ == (ActionView::Write {
                handle,
                data: data@,
                at,
            }),
            FileAction::Truncate { handle, size } => action@ == (ActionView::Truncate {
                handle,
                size,
            }),
            FileAction::Flush { handle } => action@ == (ActionView::Flush { handle }),
            FileAction::Size { handle } => action@ == (ActionView::Size { handle }),
            FileAction::Close { handle } => action@ == (ActionView::Close { handle }),
        },
        action_views(actions).len() == actions.len(),
        0 <= i < actions.len() ==> action_views(actions)[i] == actions[i]@,
{
}

/// The low 32 bits of a size differ from it by a multiple of 2^32, so they are
/// the size itself where that fits.
pub proof fn law_size_keeps_its_low_bits(size: int)
    ensures
        (truncated_size(size) - size) % 0x1_0000_0000 == 0,
        0 <= size < 0x1_0000_0000 ==> truncated_size(size) == size,
{
    assert((size % 0x1_0000_0000 - size) % 0x1_0000_0000 == 0) by (nonlinear_arith);
}

/// A write makes a file as long as it has to be and no longer, and each byte is
/// the one that was written there, the one that was there, or zero.
pub proof fn law_written_bytes(content: Seq<u8>, at: int, data: Seq<u8>, i: int)
    requires
        at >= 0,
    ensures
        ({
            let after = written(content, at, data);
            &&& after.len() >= content.len() && after.len() >= at + data.len()
            &&& after.len() == content.len() || after.len() == at + data.len()
            &&& 0 <= i < data.len() ==> after[at + i] == data[i]
            &&& 0 <= i < content.len() && !(at <= i < at + data.len()) ==> after[i] == content[i]
            &&& content.len() <= i < at ==> after[i] == 0
        }),
{
}

/// A file whose size is set has that size; the bytes that it had stay, as far as
/// they go, and zeros come behind them.
pub proof fn law_resized_bytes(content: Seq<u8>, size: nat, i: int)
    ensures
        resized(content, size).len() == size,
        0 <= i < size && i < content.len() ==> resized(content, size)[i] == content[i],
        content.len() <= i < size ==> resized(content, size)[i] == 0,
{
}

/// A read gives the bytes asked for as far as the file has them.
pub proof fn law_read_bytes(content: Seq<u8>, at: int, len: nat, i: int)
    requires
        at >= 0,
    ensures
        ({
            let given = read_bytes(content, at, len);
            &&& given.len() <= len
            &&& given.len() < len ==> at + given.len() >= content.len()
            &&& at + given.len() <= content.len() || given.len() == 0
            &&& 0 <= i < given.len() ==> given[i] == content[at + i]
        }),
{
}

/// Only a write and a change of size change a file, and only the one that they
/// are made on: that is written to, or gets the size.
pub proof fn law_requests_change_their_file(
    files: Map<u32, Seq<u8>>,
    action: ActionView,
    other: u32,
)
    ensures
        match action {
            ActionView::Write { handle, data, at } => {
                &&& performed(files, action)[handle] == written(files[handle], at as int, data)
                &&& other != handle ==> performed(files, action)[other] == files[other]
            },
            ActionView::Truncate { handle, size } => {
                &&& performed(files, action)[handle] == resized(files[handle], size as nat)
                &&& other != handle ==> performed(files, action)[other] == files[other]
            },
            _ => performed(files, action) == files,
        },
{
}

/// Requests are performed in their order, one after the other.
pub proof fn law_requests_are_performed_in_order(
    files: Map<u32, Seq<u8>>,
    actions: Seq<ActionView>,
    last: ActionView,
)
    ensures
        performed_all(files, Seq::<ActionView>::empty()) == files,
        performed_all(files, actions.push(last)) == performed(performed_all(files, actions), last),
{
    assert(actions.push(last).drop_last() =~= actions);
}

} // verus!
