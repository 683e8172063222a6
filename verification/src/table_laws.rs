//! What holds of the blocks of a graph over several requests to a database.

use vstd::prelude::*;

use crate::blocks::{
    block_columns, block_kinds, block_row, info_kinds, info_row, lists_uuids, new_db_actions,
    removal, removal_actions, upsert, upsert_actions, upsert_params, BlockInfoView, BlockView,
};
use crate::blocks_laws::{lemma_block_row_unique, without_quotes};
use crate::row::{faultless, ValueView};
use crate::statement::DbActionView;
use crate::table::{
    applied_all, committed, given, gives, is_page, lists_latest, lists_selected, name_taken,
    place_of, row_of, row_page, row_uuid, run, selects, stepped, upserted, QueryView, RunView,
    TableView,
};
use crate::trials::dummy_block_views;

verus! {

/// Whether no two blocks have the same UUID.
pub open spec fn uuids_differ(blocks: Seq<BlockView>) -> bool {
    forall|i: int, k: int|
        0 <= i < k < blocks.len() ==> (#[trigger] blocks[i]).uuid != (#[trigger] blocks[k]).uuid
}

/// A block and its page.
pub open spec fn info_of(block: BlockView) -> BlockInfoView {
    BlockInfoView { uuid: block.uuid, page_uuid: block.page_uuid }
}

/// The blocks and their pages.
pub open spec fn infos_of(blocks: Seq<BlockView>) -> Seq<BlockInfoView> {
    blocks.map_values(|b: BlockView| info_of(b))
}

/// Whether blocks are what rows are read as.
pub open spec fn read_as(rows: Seq<Seq<ValueView>>, blocks: Seq<BlockView>) -> bool {
    &&& blocks.len() == rows.len()
    &&& forall|i: int| 0 <= i < rows.len() ==> block_row(blocks[i]) == (#[trigger] rows[i]).take(9)
}

/// Whether blocks and their pages are what rows are read as.
pub open spec fn read_as_infos(rows: Seq<Seq<ValueView>>, infos: Seq<BlockInfoView>) -> bool {
    &&& infos.len() == rows.len()
    &&& forall|i: int| 0 <= i < rows.len() ==> info_row(infos[i]) == (#[trigger] rows[i]).take(2)
}

/// To open a database again drops and clears nothing: the rows stay. To open a
/// new one makes an empty table.
pub proof fn law_opening_again_keeps_the_rows(table: TableView)
    requires
        table.wf(),
    ensures
        applied_all(table, new_db_actions()) == Some(TableView { made: true, ..table }),
        table.made ==> applied_all(table, new_db_actions()) == Some(table),
{
    let actions = new_db_actions();
    let made = TableView { made: true, ..table };
    let first = actions.drop_last();
    assert(first.drop_last() =~= Seq::<DbActionView>::empty());
    assert(run(table, first.drop_last()) == (RunView { kept: table, pending: None, done: true }));
    assert(run(table, first) == (RunView { kept: made, pending: None, done: true }));
    assert(run(table, actions) == stepped(run(table, first), actions.last()));
}

/// No two columns have the same name.
pub proof fn lemma_columns_differ(i: int, k: int)
    requires
        0 <= i < 9,
        0 <= k < 9,
        "@"@ + block_columns()[i] == "@"@ + block_columns()[k],
    ensures
        i == k,
{
    reveal_strlit("uuid");
    reveal_strlit("type");
    reveal_strlit("page_uuid");
    reveal_strlit("page_journal_day");
    reveal_strlit("name");
    reveal_strlit("content");
    reveal_strlit("datoms");
    reveal_strlit("created_at");
    reveal_strlit("updated_at");
    let a = block_columns()[i];
    let b = block_columns()[k];
    let n = "@"@.len() as int;
    assert(("@"@ + a).skip(n) =~= a);
    assert(("@"@ + b).skip(n) =~= b);
    assert(a == b);
    assert(a.len() == b.len() && a[0] == b[0]);
}

/// The row that a block is put in with holds its columns.
proof fn lemma_row_of(block: BlockView)
    ensures
        row_of(upsert_params(block)) == block_row(block),
        faultless(block_row(block), block_kinds()),
        row_uuid(block_row(block)) == block.uuid,
{
    let params = upsert_params(block);
    assert forall|i: int| 0 <= i < 9 implies row_of(params)[i] == block_row(block)[i] by {
        let name = "@"@ + block_columns()[i];
        assert(params[i].0 == name);
        let k = place_of(params, name);
        assert(0 <= k < params.len() && params[k].0 == name);
        lemma_columns_differ(i, k);
    }
    assert(row_of(params) =~= block_row(block));
    assert forall|i: int| 0 <= i < 9 implies crate::row::fault(
        block_row(block),
        i,
        #[trigger] block_kinds()[i],
    ) is None by {}
}

/// The table after blocks have been put in one after the other.
spec fn upserted_all(table: TableView, blocks: Seq<BlockView>) -> Option<TableView>
    decreases blocks.len(),
{
    if blocks.len() == 0 {
        Some(table)
    } else {
        match upserted_all(table, blocks.drop_last()) {
            Some(before) => upserted(before, block_row(blocks.last())),
            None => None,
        }
    }
}

proof fn lemma_upserts(table: TableView, blocks: Seq<BlockView>)
    ensures
        run(table, seq![DbActionView::Begin] + blocks.map_values(|b: BlockView| upsert(b)))
            == match upserted_all(table, blocks) {
            Some(after) => RunView { kept: table, pending: Some(after), done: true },
            None => RunView { kept: table, pending: None, done: false },
        },
    decreases blocks.len(),
{
    let actions = seq![DbActionView::Begin] + blocks.map_values(|b: BlockView| upsert(b));
    if blocks.len() == 0 {
        assert(actions.drop_last() =~= Seq::<DbActionView>::empty());
        assert(run(table, actions.drop_last()) == (RunView {
            kept: table,
            pending: None,
            done: true,
        }));
    } else {
        lemma_upserts(table, blocks.drop_last());
        lemma_row_of(blocks.last());
        assert(actions.drop_last() =~= seq![DbActionView::Begin] + blocks.drop_last().map_values(
            |b: BlockView| upsert(b),
        ));
        assert(actions.last() == upsert(blocks.last()));
    }
}

proof fn lemma_upsert_actions(table: TableView, blocks: Seq<BlockView>)
    ensures
        applied_all(table, upsert_actions(blocks)) == upserted_all(table, blocks),
        committed(table, upsert_actions(blocks)) == match upserted_all(table, blocks) {
            Some(after) => after,
            None => table,
        },
{
    let actions = upsert_actions(blocks);
    lemma_upserts(table, blocks);
    assert(actions.drop_last() =~= seq![DbActionView::Begin] + blocks.map_values(
        |b: BlockView| upsert(b),
    ));
}

/// Either all blocks of a list are put in or, where one cannot be, none is:
/// the table that lasts is that after all of them, or the one before.
pub proof fn law_upsert_is_all_or_none(table: TableView, blocks: Seq<BlockView>)
    ensures
        committed(table, upsert_actions(blocks)) == match applied_all(
            table,
            upsert_actions(blocks),
        ) {
            Some(after) => after,
            None => table,
        },
{
    lemma_upsert_actions(table, blocks);
}

/// The rows after blocks have been put in one after the other, each in place
/// of the one of the same UUID.
pub open spec fn rows_after(
    rows: Map<Seq<char>, Seq<ValueView>>,
    blocks: Seq<BlockView>,
) -> Map<Seq<char>, Seq<ValueView>>
    decreases blocks.len(),
{
    if blocks.len() == 0 {
        rows
    } else {
        rows_after(rows, blocks.drop_last()).insert(blocks.last().uuid, block_row(blocks.last()))
    }
}

/// Whether the block at `i`, when it is its turn to be put in, has a name that
/// a row of another UUID has.
pub open spec fn meets_at(
    rows: Map<Seq<char>, Seq<ValueView>>,
    blocks: Seq<BlockView>,
    i: int,
) -> bool {
    name_taken(rows_after(rows, blocks.take(i)), block_row(blocks[i]))
}

/// Whether one of some blocks meets a name that is taken.
pub open spec fn meets_taken_name(
    rows: Map<Seq<char>, Seq<ValueView>>,
    blocks: Seq<BlockView>,
) -> bool {
    exists|i: int| 0 <= i < blocks.len() && #[trigger] meets_at(rows, blocks, i)
}

proof fn lemma_meets_taken_name(rows: Map<Seq<char>, Seq<ValueView>>, blocks: Seq<BlockView>)
    requires
        blocks.len() > 0,
    ensures
        meets_taken_name(rows, blocks) <==> meets_taken_name(rows, blocks.drop_last())
            || name_taken(rows_after(rows, blocks.drop_last()), block_row(blocks.last())),
{
    let front = blocks.drop_last();
    let last = blocks.len() - 1;
    assert forall|i: int| 0 <= i < last implies #[trigger] meets_at(rows, front, i) == meets_at(
        rows,
        blocks,
        i,
    ) by {
        assert(front.take(i) =~= blocks.take(i));
    }
    assert(blocks.take(last) =~= front);
    assert(meets_at(rows, blocks, last) == name_taken(
        rows_after(rows, front),
        block_row(blocks.last()),
    ));
    if meets_taken_name(rows, blocks) {
        let i = choose|i: int| 0 <= i < blocks.len() && #[trigger] meets_at(rows, blocks, i);
        assert(i < last ==> meets_at(rows, front, i));
    }
    if meets_taken_name(rows, front) {
        let i = choose|i: int| 0 <= i < front.len() && #[trigger] meets_at(rows, front, i);
        assert(meets_at(rows, blocks, i));
    }
}

proof fn lemma_upserted_all(table: TableView, blocks: Seq<BlockView>)
    ensures
        upserted_all(table, blocks) == if (blocks.len() == 0 || table.made) && !meets_taken_name(
            table.rows,
            blocks,
        ) {
            Some(TableView { rows: rows_after(table.rows, blocks), ..table })
        } else {
            None
        },
    decreases blocks.len(),
{
    if blocks.len() > 0 {
        lemma_upserted_all(table, blocks.drop_last());
        lemma_meets_taken_name(table.rows, blocks);
        lemma_row_of(blocks.last());
    }
}

/// Blocks can be put in exactly where the table has been made and none of them
/// meets a name that a row of another UUID has; the rows are then those after
/// each has been put in in turn.
pub proof fn law_upsert_fails_only_on_taken_names(table: TableView, blocks: Seq<BlockView>)
    ensures
        applied_all(table, upsert_actions(blocks)) == if (blocks.len() == 0 || table.made)
            && !meets_taken_name(table.rows, blocks) {
            Some(TableView { rows: rows_after(table.rows, blocks), ..table })
        } else {
            None
        },
{
    lemma_upsert_actions(table, blocks);
    lemma_upserted_all(table, blocks);
}

/// To put one block in leaves the table sound, and the other rows alone.
proof fn lemma_upserted_wf(table: TableView, block: BlockView)
    requires
        table.wf(),
        upserted(table, block_row(block)) is Some,
    ensures
        upserted(table, block_row(block))->0.wf(),
{
    lemma_row_of(block);
    let row = block_row(block);
    let after = upserted(table, row)->0;
    assert forall|u: Seq<char>, v: Seq<char>|
        #![trigger after.rows.dom().contains(u), after.rows.dom().contains(v)]
        after.rows.dom().contains(u) && after.rows.dom().contains(v) && u
            != v implies after.rows[u][4] != after.rows[v][4] by {
        if u != block.uuid {
            assert(table.rows.dom().contains(u));
        }
        if v != block.uuid {
            assert(table.rows.dom().contains(v));
        }
    }
    assert forall|u: Seq<char>| #[trigger] after.rows.dom().contains(u) implies {
        &&& after.rows[u].len() == 9
        &&& faultless(after.rows[u], block_kinds())
        &&& after.rows[u][0] == ValueView::Text(u)
    } by {
        if u != block.uuid {
            assert(table.rows.dom().contains(u));
        }
    }
}

/// Whether no later block of a list has the UUID of the one at `i`.
pub open spec fn is_last(blocks: Seq<BlockView>, i: int) -> bool {
    &&& 0 <= i < blocks.len()
    &&& forall|k: int| i < k < blocks.len() ==> (#[trigger] blocks[k]).uuid != blocks[i].uuid
}

/// Where blocks have been put in, the table has the row of the last block of
/// each UUID, and under every other UUID what it had.
pub proof fn law_upserted_blocks_are_in_the_table(
    table: TableView,
    blocks: Seq<BlockView>,
    after: TableView,
)
    requires
        table.wf(),
        applied_all(table, upsert_actions(blocks)) == Some(after),
    ensures
        after.wf(),
        after.made == table.made,
        forall|i: int| #[trigger]
            is_last(blocks, i) ==> after.rows.dom().contains(blocks[i].uuid)
                && after.rows[blocks[i].uuid] == block_row(blocks[i]),
        forall|u: Seq<char>|
            (forall|i: int| 0 <= i < blocks.len() ==> (#[trigger] blocks[i]).uuid != u) ==> (
            #[trigger] after.rows.dom().contains(u) == table.rows.dom().contains(u)
                && after.rows[u] == table.rows[u]),
    decreases blocks.len(),
{
    lemma_upsert_actions(table, blocks);
    if blocks.len() > 0 {
        let front = blocks.drop_last();
        let last = blocks.last();
        let before = upserted_all(table, front)->0;
        lemma_upsert_actions(table, front);
        law_upserted_blocks_are_in_the_table(table, front, before);
        lemma_row_of(last);
        lemma_upserted_wf(before, last);
        assert forall|i: int| #[trigger] is_last(blocks, i) implies after.rows.dom().contains(
            blocks[i].uuid,
        ) && after.rows[blocks[i].uuid] == block_row(blocks[i]) by {
            if i < front.len() {
                assert(blocks[blocks.len() - 1].uuid != blocks[i].uuid);
                assert(is_last(front, i)) by {
                    assert forall|k: int| i < k < front.len() implies (#[trigger] front[k]).uuid
                        != front[i].uuid by {
                        assert(blocks[k].uuid != blocks[i].uuid);
                    }
                }
            }
        }
        assert forall|u: Seq<char>|
            (forall|i: int| 0 <= i < blocks.len() ==> (#[trigger] blocks[i]).uuid != u) implies (
        #[trigger] after.rows.dom().contains(u) == table.rows.dom().contains(u) && after.rows[u]
            == table.rows[u]) by {
            assert(blocks[blocks.len() - 1].uuid != u);
            assert forall|i: int| 0 <= i < front.len() implies (#[trigger] front[i]).uuid != u by {
                assert(blocks[i].uuid != u);
            }
            assert(before.rows.dom().contains(u) == table.rows.dom().contains(u));
        }
    }
}

/// In a list whose UUIDs differ, every block is the last of its UUID.
proof fn lemma_all_last(blocks: Seq<BlockView>, i: int)
    requires
        uuids_differ(blocks),
        0 <= i < blocks.len(),
    ensures
        is_last(blocks, i),
{
    assert forall|k: int| i < k < blocks.len() implies (#[trigger] blocks[k]).uuid
        != blocks[i].uuid by {
        assert(blocks[i].uuid != blocks[k].uuid);
    }
}

/// A list has a last block of each UUID that it has.
proof fn lemma_last_of(blocks: Seq<BlockView>, i: int) -> (last: int)
    requires
        0 <= i < blocks.len(),
    ensures
        i <= last,
        is_last(blocks, last),
        blocks[last].uuid == blocks[i].uuid,
    decreases blocks.len() - i,
{
    if is_last(blocks, i) {
        i
    } else {
        let k = choose|k: int| i < k < blocks.len() && (#[trigger] blocks[k]).uuid
            == blocks[i].uuid;
        lemma_last_of(blocks, k)
    }
}

/// To put blocks in that the table holds already changes nothing.
proof fn lemma_upserted_again(table: TableView, blocks: Seq<BlockView>)
    requires
        table.wf(),
        table.made,
        forall|i: int|
            0 <= i < blocks.len() ==> table.rows.dom().contains((#[trigger] blocks[i]).uuid)
                && table.rows[blocks[i].uuid] == block_row(blocks[i]),
    ensures
        upserted_all(table, blocks) == Some(table),
    decreases blocks.len(),
{
    if blocks.len() > 0 {
        let front = blocks.drop_last();
        let last = blocks.last();
        assert forall|i: int| 0 <= i < front.len() implies table.rows.dom().contains(
            (#[trigger] front[i]).uuid,
        ) && table.rows[front[i].uuid] == block_row(front[i]) by {
            assert(front[i] == blocks[i]);
        }
        lemma_upserted_again(table, front);
        lemma_row_of(last);
        assert(last == blocks[blocks.len() - 1]);
        assert(!name_taken(table.rows, block_row(last)));
        assert(table.rows.insert(last.uuid, block_row(last)) =~= table.rows);
    }
}

/// To put the same blocks in twice succeeds where it did once, and leaves the
/// table as once does.
pub proof fn law_upserting_twice_is_as_once(
    table: TableView,
    blocks: Seq<BlockView>,
    after: TableView,
)
    requires
        table.wf(),
        table.made,
        uuids_differ(blocks),
        applied_all(table, upsert_actions(blocks)) == Some(after),
    ensures
        applied_all(after, upsert_actions(blocks)) == Some(after),
{
    law_upserted_blocks_are_in_the_table(table, blocks, after);
    assert forall|i: int| 0 <= i < blocks.len() implies after.rows.dom().contains(
        (#[trigger] blocks[i]).uuid,
    ) && after.rows[blocks[i].uuid] == block_row(blocks[i]) by {
        lemma_all_last(blocks, i);
    }
    lemma_upsert_actions(after, blocks);
    lemma_upserted_again(after, blocks);
}

proof fn lemma_removals(table: TableView, uuids: Seq<Seq<char>>)
    requires
        table.made,
    ensures
        run(table, removal_actions(uuids)).done,
        run(table, removal_actions(uuids)).pending is None,
        run(table, removal_actions(uuids)).kept.made,
        uuids.len() > 0 ==> run(table, removal_actions(uuids)).kept.rows == run(
            table,
            removal_actions(uuids.drop_last()),
        ).kept.rows.remove(uuids.last()),
    decreases uuids.len(),
{
    let actions = removal_actions(uuids);
    if uuids.len() > 0 {
        lemma_removals(table, uuids.drop_last());
        assert(actions.drop_last() =~= removal_actions(uuids.drop_last()));
        assert(actions.last() == removal(uuids.last()));
    }
}

/// To take blocks out leaves no row of theirs, and the others as they were.
pub proof fn law_removed_blocks_are_gone(table: TableView, uuids: Seq<Seq<char>>)
    requires
        table.wf(),
        table.made,
    ensures
        applied_all(table, removal_actions(uuids)) is Some,
        ({
            let after = applied_all(table, removal_actions(uuids))->0;
            &&& after.made
            &&& forall|u: Seq<char>|
                {
                    &&& #[trigger] after.rows.dom().contains(u) <==> table.rows.dom().contains(u)
                        && !uuids.contains(u)
                    &&& after.rows.dom().contains(u) ==> after.rows[u] == table.rows[u]
                }
        }),
    decreases uuids.len(),
{
    let actions = removal_actions(uuids);
    lemma_removals(table, uuids);
    if uuids.len() > 0 {
        let front = uuids.drop_last();
        law_removed_blocks_are_gone(table, front);
        let after = applied_all(table, actions)->0;
        assert forall|u: Seq<char>|
            {
                &&& #[trigger] after.rows.dom().contains(u) <==> table.rows.dom().contains(u)
                    && !uuids.contains(u)
                &&& after.rows.dom().contains(u) ==> after.rows[u] == table.rows[u]
            } by {
            let before = applied_all(table, removal_actions(front))->0;
            assert(before.rows.dom().contains(u) <==> table.rows.dom().contains(u)
                && !front.contains(u));
            if uuids.contains(u) {
                let i = choose|i: int| 0 <= i < uuids.len() && uuids[i] == u;
                if i < front.len() {
                    assert(front[i] == u);
                }
            }
            if front.contains(u) {
                let i = choose|i: int| 0 <= i < front.len() && front[i] == u;
                assert(uuids[i] == u);
            }
            if u == uuids.last() {
                assert(uuids[uuids.len() - 1] == u);
            }
        }
    }
}

/// Whether a table has the row of a block.
pub open spec fn holds_block(table: TableView, block: BlockView) -> bool {
    table.rows.dom().contains(block.uuid) && table.rows[block.uuid] == block_row(block)
}

/// Whether a query gives whole rows, and its lists hold no quotes.
pub open spec fn gives_blocks(query: QueryView) -> bool {
    match query {
        QueryView::AllPages | QueryView::InitData => true,
        QueryView::BlocksOfPages { pages } => without_quotes(pages),
        QueryView::OtherBlocks { excluded } => without_quotes(excluded),
        QueryView::AllBlocks | QueryView::RecentJournals => false,
    }
}

/// Whether a query asks for a block.
pub open spec fn wants(query: QueryView, block: BlockView) -> bool {
    match query {
        QueryView::AllPages | QueryView::RecentJournals => block.block_type == 2,
        QueryView::AllBlocks => block.block_type == 1,
        QueryView::InitData => block.block_type == 3 || block.block_type == 4 || block.block_type
            == 5 || block.block_type == 6,
        QueryView::BlocksOfPages { pages } => block.block_type == 1 && pages.contains(
            block.page_uuid,
        ),
        QueryView::OtherBlocks { excluded } => block.block_type == 1 && !excluded.contains(
            block.uuid,
        ),
    }
}

/// What a query that gives whole rows is read as: the blocks of the table that
/// it asks for, each once, with all their fields.
pub proof fn law_query_reads_the_blocks_wanted(
    table: TableView,
    query: QueryView,
    result: Seq<Seq<ValueView>>,
    read: Seq<BlockView>,
)
    requires
        table.wf(),
        gives_blocks(query),
        gives(table, query, result),
        read_as(result, read),
    ensures
        forall|i: int| 0 <= i < result.len() ==> faultless(#[trigger] result[i], block_kinds()),
        read.no_duplicates(),
        forall|b: BlockView| #[trigger]
            read.contains(b) <==> holds_block(table, b) && wants(query, b),
{
    let order = choose|order: Seq<Seq<char>>| #[trigger]
        lists_selected(table, query, order) && result == order.map_values(
            |u: Seq<char>| given(query, table.rows[u]),
        );
    assert forall|b: BlockView| selects(query, #[trigger] block_row(b)) == wants(query, b) by {}
    assert forall|i: int| 0 <= i < result.len() implies {
        &&& #[trigger] result[i] == block_row(read[i])
        &&& faultless(result[i], block_kinds())
        &&& read[i].uuid == order[i]
        &&& holds_block(table, read[i])
        &&& wants(query, read[i])
    } by {
        let u = order[i];
        assert(order.contains(u));
        assert(table.rows.dom().contains(u));
        assert(result[i] == table.rows[u]);
        assert(result[i].take(9) =~= result[i]);
        assert(block_row(read[i])[0] == result[i][0]);
    }
    assert forall|i: int, k: int| 0 <= i < read.len() && 0 <= k < read.len() && i != k implies read[i]
        != read[k] by {
        assert(result[i] == block_row(read[i]));
        assert(result[k] == block_row(read[k]));
        assert(order[i] != order[k]);
    }
    assert forall|b: BlockView| #[trigger] read.contains(b) <==> holds_block(table, b) && wants(
        query,
        b,
    ) by {
        if read.contains(b) {
            let i = choose|i: int| 0 <= i < read.len() && read[i] == b;
            assert(result[i] == block_row(read[i]));
        }
        if holds_block(table, b) && wants(query, b) {
            assert(selects(query, block_row(b)));
            assert(order.contains(b.uuid));
            let i = choose|i: int| 0 <= i < order.len() && order[i] == b.uuid;
            assert(result[i] == block_row(read[i]));
            assert(result[i] == table.rows[order[i]]);
            lemma_block_row_unique(b, read[i]);
            assert(read[i] == b);
        }
    }
}

/// What the query for all blocks and their pages is read as: those of the
/// table, each once.
pub proof fn law_query_reads_the_infos_wanted(
    table: TableView,
    result: Seq<Seq<ValueView>>,
    infos: Seq<BlockInfoView>,
)
    requires
        table.wf(),
        gives(table, QueryView::AllBlocks, result),
        read_as_infos(result, infos),
    ensures
        forall|i: int| 0 <= i < result.len() ==> faultless(#[trigger] result[i], info_kinds()),
        infos.no_duplicates(),
        forall|info: BlockInfoView| #[trigger]
            infos.contains(info) <==> {
                &&& table.rows.dom().contains(info.uuid)
                &&& selects(QueryView::AllBlocks, table.rows[info.uuid])
                &&& row_page(table.rows[info.uuid]) == info.page_uuid
            },
{
    let order = choose|order: Seq<Seq<char>>| #[trigger]
        lists_selected(table, QueryView::AllBlocks, order) && result == order.map_values(
            |u: Seq<char>| given(QueryView::AllBlocks, table.rows[u]),
        );
    assert forall|i: int| 0 <= i < result.len() implies {
        &&& #[trigger] result[i] == seq![table.rows[order[i]][0], table.rows[order[i]][2]]
        &&& faultless(result[i], info_kinds())
        &&& infos[i].uuid == order[i]
        &&& row_page(table.rows[order[i]]) == infos[i].page_uuid
        &&& order.contains(order[i])
    } by {
        let row = table.rows[order[i]];
        assert(order.contains(order[i]));
        assert(table.rows.dom().contains(order[i]));
        assert(crate::row::fault(row, 2, block_kinds()[2]) is None);
        assert(result[i].take(2) =~= result[i]);
        assert(info_row(infos[i])[0] == result[i][0]);
        assert(info_row(infos[i])[1] == result[i][1]);
        assert forall|k: int| 0 <= k < info_kinds().len() implies crate::row::fault(
            result[i],
            k,
            #[trigger] info_kinds()[k],
        ) is None by {}
    }
    assert forall|i: int, k: int|
        0 <= i < infos.len() && 0 <= k < infos.len() && i != k implies infos[i] != infos[k] by {
        assert(result[i] == seq![table.rows[order[i]][0], table.rows[order[i]][2]]);
        assert(result[k] == seq![table.rows[order[k]][0], table.rows[order[k]][2]]);
        assert(order[i] != order[k]);
    }
    assert forall|info: BlockInfoView| #[trigger] infos.contains(info) <==> {
        &&& table.rows.dom().contains(info.uuid)
        &&& selects(QueryView::AllBlocks, table.rows[info.uuid])
        &&& row_page(table.rows[info.uuid]) == info.page_uuid
    } by {
        if infos.contains(info) {
            let i = choose|i: int| 0 <= i < infos.len() && infos[i] == info;
            assert(result[i] == seq![table.rows[order[i]][0], table.rows[order[i]][2]]);
        }
        if table.rows.dom().contains(info.uuid) && selects(
            QueryView::AllBlocks,
            table.rows[info.uuid],
        ) && row_page(table.rows[info.uuid]) == info.page_uuid {
            assert(order.contains(info.uuid));
            let i = choose|i: int| 0 <= i < order.len() && order[i] == info.uuid;
            assert(result[i] == seq![table.rows[order[i]][0], table.rows[order[i]][2]]);
            assert(infos[i] == info);
        }
    }
}

/// Whether a block is the last of its UUID in a list.
pub open spec fn stands(blocks: Seq<BlockView>, block: BlockView) -> bool {
    exists|i: int| #[trigger] is_last(blocks, i) && blocks[i] == block
}

/// In a list whose UUIDs differ, every block stands.
pub proof fn lemma_stands(blocks: Seq<BlockView>, block: BlockView)
    requires
        uuids_differ(blocks),
    ensures
        stands(blocks, block) <==> blocks.contains(block),
{
    if blocks.contains(block) {
        let i = choose|i: int| 0 <= i < blocks.len() && blocks[i] == block;
        lemma_all_last(blocks, i);
    }
}

/// A new database into which blocks have been put holds those that stand.
proof fn lemma_stored(
    blocks: Seq<BlockView>,
    made: TableView,
    after: TableView,
    uuid: Seq<char>,
)
    requires
        applied_all(TableView::empty(), new_db_actions()) == Some(made),
        applied_all(made, upsert_actions(blocks)) == Some(after),
    ensures
        after.wf(),
        forall|b: BlockView| #[trigger] holds_block(after, b) <==> stands(blocks, b),
        after.rows.dom().contains(uuid) ==> exists|i: int| #[trigger]
            is_last(blocks, i) && blocks[i].uuid == uuid && after.rows[uuid] == block_row(
                blocks[i],
            ),
{
    law_opening_again_keeps_the_rows(TableView::empty());
    law_upserted_blocks_are_in_the_table(made, blocks, after);
    assert forall|b: BlockView| #[trigger] holds_block(after, b) <==> stands(blocks, b) by {
        if holds_block(after, b) {
            let i = lemma_stored_at(blocks, made, after, b.uuid);
            lemma_block_row_unique(b, blocks[i]);
        }
    }
    if after.rows.dom().contains(uuid) {
        let i = lemma_stored_at(blocks, made, after, uuid);
        assert(is_last(blocks, i));
    }
}

proof fn lemma_stored_at(
    blocks: Seq<BlockView>,
    made: TableView,
    after: TableView,
    uuid: Seq<char>,
) -> (i: int)
    requires
        made.wf(),
        made.rows == Map::<Seq<char>, Seq<ValueView>>::empty(),
        applied_all(made, upsert_actions(blocks)) == Some(after),
        after.rows.dom().contains(uuid),
    ensures
        is_last(blocks, i),
        blocks[i].uuid == uuid,
        after.rows[uuid] == block_row(blocks[i]),
{
    law_upserted_blocks_are_in_the_table(made, blocks, after);
    if forall|k: int| 0 <= k < blocks.len() ==> (#[trigger] blocks[k]).uuid != uuid {
        assert(after.rows.dom().contains(uuid) == made.rows.dom().contains(uuid));
    }
    let k = choose|k: int| 0 <= k < blocks.len() && (#[trigger] blocks[k]).uuid == uuid;
    lemma_last_of(blocks, k)
}

/// The blocks that were put into a new database come back from each query for
/// blocks: those that it asks for, each once, with all fields as they were, and
/// nothing else. Of several blocks of one UUID it is the last that comes back.
pub proof fn law_stored_blocks_are_fetched(
    blocks: Seq<BlockView>,
    made: TableView,
    after: TableView,
    query: QueryView,
    result: Seq<Seq<ValueView>>,
    read: Seq<BlockView>,
)
    requires
        applied_all(TableView::empty(), new_db_actions()) == Some(made),
        applied_all(made, upsert_actions(blocks)) == Some(after),
        gives_blocks(query),
        gives(after, query, result),
        read_as(result, read),
    ensures
        forall|i: int| 0 <= i < result.len() ==> faultless(#[trigger] result[i], block_kinds()),
        read.no_duplicates(),
        forall|b: BlockView| #[trigger]
            read.contains(b) <==> stands(blocks, b) && wants(query, b),
        uuids_differ(blocks) ==> forall|b: BlockView| #[trigger]
            read.contains(b) <==> blocks.contains(b) && wants(query, b),
{
    lemma_stored(blocks, made, after, Seq::empty());
    law_query_reads_the_blocks_wanted(after, query, result, read);
    assert forall|b: BlockView| #[trigger] read.contains(b) <==> stands(blocks, b) && wants(
        query,
        b,
    ) by {
        assert(holds_block(after, b) <==> stands(blocks, b));
    }
    if uuids_differ(blocks) {
        assert forall|b: BlockView| #[trigger] read.contains(b) <==> blocks.contains(b) && wants(
            query,
            b,
        ) by {
            lemma_stands(blocks, b);
        }
    }
}

/// The blocks that were put into a new database come back from the query for
/// all blocks and their pages, each once, and nothing else.
pub proof fn law_stored_infos_are_fetched(
    blocks: Seq<BlockView>,
    made: TableView,
    after: TableView,
    result: Seq<Seq<ValueView>>,
    infos: Seq<BlockInfoView>,
)
    requires
        applied_all(TableView::empty(), new_db_actions()) == Some(made),
        applied_all(made, upsert_actions(blocks)) == Some(after),
        gives(after, QueryView::AllBlocks, result),
        read_as_infos(result, infos),
    ensures
        forall|i: int| 0 <= i < result.len() ==> faultless(#[trigger] result[i], info_kinds()),
        infos.no_duplicates(),
        forall|info: BlockInfoView| #[trigger]
            infos.contains(info) <==> exists|b: BlockView| #[trigger]
                stands(blocks, b) && wants(QueryView::AllBlocks, b) && info == info_of(b),
{
    lemma_stored(blocks, made, after, Seq::empty());
    law_query_reads_the_infos_wanted(after, result, infos);
    assert forall|info: BlockInfoView| #[trigger] infos.contains(info) <==> exists|b: BlockView|
        #[trigger] stands(blocks, b) && wants(QueryView::AllBlocks, b) && info == info_of(b) by {
        if infos.contains(info) {
            lemma_stored(blocks, made, after, info.uuid);
            let i = choose|i: int| #[trigger]
                is_last(blocks, i) && blocks[i].uuid == info.uuid && after.rows[info.uuid]
                    == block_row(blocks[i]);
            assert(stands(blocks, blocks[i]));
        }
        if exists|b: BlockView| #[trigger]
            stands(blocks, b) && wants(QueryView::AllBlocks, b) && info == info_of(b) {
            let b = choose|b: BlockView| #[trigger]
                stands(blocks, b) && wants(QueryView::AllBlocks, b) && info == info_of(b);
            assert(holds_block(after, b));
        }
    }
}

/// The blocks that are read for the recent journals are those of the latest
/// pages, each once.
pub proof fn law_recent_blocks_are_of_the_latest_pages(
    table: TableView,
    latest: Seq<Seq<ValueView>>,
    pages: Seq<Seq<char>>,
    result: Seq<Seq<ValueView>>,
    read: Seq<BlockView>,
)
    requires
        table.wf(),
        gives(table, QueryView::RecentJournals, latest),
        lists_uuids(latest, pages),
        without_quotes(pages),
        gives(table, QueryView::BlocksOfPages { pages }, result),
        read_as(result, read),
    ensures
        lists_latest(table, pages),
        forall|i: int| 0 <= i < result.len() ==> faultless(#[trigger] result[i], block_kinds()),
        read.no_duplicates(),
        forall|b: BlockView| #[trigger]
            read.contains(b) <==> holds_block(table, b) && b.block_type == 1 && pages.contains(
                b.page_uuid,
            ),
{
    let order = choose|order: Seq<Seq<char>>| #[trigger]
        lists_selected(table, QueryView::RecentJournals, order) && latest == order.map_values(
            |u: Seq<char>| given(QueryView::RecentJournals, table.rows[u]),
        );
    assert forall|i: int| 0 <= i < pages.len() implies pages[i] == order[i] by {
        assert(is_page(table, order[i]));
        assert(latest[i] == seq![table.rows[order[i]][0]]);
        assert(latest[i][0] == ValueView::Text(pages[i]));
    }
    assert(pages =~= order);
    law_query_reads_the_blocks_wanted(table, QueryView::BlocksOfPages { pages }, result, read);
}

/// The first trial, on a graph that was empty, succeeds and finds as many
/// blocks as it has put in.
pub proof fn law_first_trial_finds_its_blocks(
    made: TableView,
    result: Seq<Seq<ValueView>>,
    infos: Seq<BlockInfoView>,
)
    requires
        applied_all(TableView::empty(), new_db_actions()) == Some(made),
        gives(
            committed(made, upsert_actions(dummy_block_views())),
            QueryView::AllBlocks,
            result,
        ),
        read_as_infos(result, infos),
    ensures
        applied_all(made, upsert_actions(dummy_block_views())) is Some,
        infos.len() == dummy_block_views().len(),
{
    let blocks = dummy_block_views();
    reveal_strlit("1");
    reveal_strlit("2");
    reveal_strlit("3");
    assert("1"@[0] != "2"@[0] && "1"@[0] != "3"@[0] && "2"@[0] != "3"@[0]);
    assert(uuids_differ(blocks));
    law_opening_again_keeps_the_rows(TableView::empty());
    law_upsert_fails_only_on_taken_names(made, blocks);
    assert forall|i: int| 0 <= i < blocks.len() implies !#[trigger] meets_at(
        made.rows,
        blocks,
        i,
    ) by {
        lemma_rows_after_names(blocks, blocks.take(i), i);
    }
    assert(!meets_taken_name(made.rows, blocks));
    let after = applied_all(made, upsert_actions(blocks))->0;
    law_stored_infos_are_fetched(blocks, made, after, result, infos);
    let expected = infos_of(blocks);
    assert(expected.no_duplicates());
    assert forall|info: BlockInfoView| infos.to_set().contains(info) == expected.to_set().contains(
        info,
    ) by {
        assert(infos.contains(info) == infos.to_set().contains(info));
        if infos.contains(info) {
            let b = choose|b: BlockView| #[trigger]
                stands(blocks, b) && wants(QueryView::AllBlocks, b) && info == info_of(b);
            let i = choose|i: int| #[trigger] is_last(blocks, i) && blocks[i] == b;
            assert(expected[i] == info);
        }
        if expected.contains(info) {
            let i = choose|i: int| 0 <= i < expected.len() && expected[i] == info;
            lemma_all_last(blocks, i);
            assert(stands(blocks, blocks[i]));
            assert(info == info_of(blocks[i]));
        }
    }
    assert(infos.to_set() =~= expected.to_set());
    infos.unique_seq_to_set();
    expected.unique_seq_to_set();
}

/// In an empty table, blocks whose names are their UUIDs take no other's name.
proof fn lemma_rows_after_names(blocks: Seq<BlockView>, front: Seq<BlockView>, i: int)
    requires
        uuids_differ(blocks),
        forall|k: int| 0 <= k < blocks.len() ==> (#[trigger] blocks[k]).name == blocks[k].uuid,
        0 <= i < blocks.len(),
        front.len() <= i,
        front == blocks.take(front.len() as int),
    ensures
        forall|u: Seq<char>| #[trigger]
            rows_after(Map::empty(), front).dom().contains(u) ==> rows_after(
                Map::empty(),
                front,
            )[u][4] == ValueView::Text(u),
        !name_taken(rows_after(Map::empty(), front), block_row(blocks[i])),
    decreases front.len(),
{
    if front.len() > 0 {
        let less = front.drop_last();
        assert(less =~= blocks.take(less.len() as int));
        lemma_rows_after_names(blocks, less, i);
        assert(front.last() == blocks[front.len() - 1]);
    }
}

/// The query for all blocks but some gives, of the same table, those that the
/// query for all blocks gives, without the excluded ones: an empty list leaves
/// nothing out.
pub proof fn law_only_excluded_blocks_are_left_out(
    table: TableView,
    excluded: Seq<Seq<char>>,
    result: Seq<Seq<ValueView>>,
    read: Seq<BlockView>,
    all: Seq<Seq<ValueView>>,
    infos: Seq<BlockInfoView>,
)
    requires
        table.wf(),
        without_quotes(excluded),
        gives(table, QueryView::OtherBlocks { excluded }, result),
        read_as(result, read),
        gives(table, QueryView::AllBlocks, all),
        read_as_infos(all, infos),
    ensures
        forall|i: int| 0 <= i < result.len() ==> faultless(#[trigger] result[i], block_kinds()),
        forall|i: int| 0 <= i < all.len() ==> faultless(#[trigger] all[i], info_kinds()),
        forall|info: BlockInfoView| #[trigger]
            infos_of(read).contains(info) <==> infos.contains(info) && !excluded.contains(
                info.uuid,
            ),
        excluded.len() == 0 ==> read.len() == infos.len(),
{
    let query = QueryView::OtherBlocks { excluded };
    let pairs = infos_of(read);
    law_query_reads_the_blocks_wanted(table, query, result, read);
    law_query_reads_the_infos_wanted(table, all, infos);
    assert forall|info: BlockInfoView| #[trigger] pairs.contains(info) <==> infos.contains(info)
        && !excluded.contains(info.uuid) by {
        if pairs.contains(info) {
            let i = choose|i: int| 0 <= i < pairs.len() && pairs[i] == info;
            assert(read.contains(read[i]));
            assert(holds_block(table, read[i]));
        }
        if infos.contains(info) && !excluded.contains(info.uuid) {
            let b = lemma_block_of(table, info.uuid);
            assert(read.contains(b));
            let i = choose|i: int| 0 <= i < read.len() && read[i] == b;
            assert(pairs[i] == info);
        }
    }
    if excluded.len() == 0 {
        assert forall|i: int, k: int|
            0 <= i < pairs.len() && 0 <= k < pairs.len() && i != k implies pairs[i] != pairs[k] by {
            assert(read.contains(read[i]) && read.contains(read[k]));
            if read[i].uuid == read[k].uuid {
                lemma_block_row_unique(read[i], read[k]);
            }
        }
        assert forall|info: BlockInfoView| pairs.to_set().contains(info) == infos.to_set().contains(
            info,
        ) by {
            assert(pairs.contains(info) == infos.contains(info));
        }
        assert(pairs.to_set() =~= infos.to_set());
        pairs.unique_seq_to_set();
        infos.unique_seq_to_set();
    }
}

/// Every row of a sound table is that of a block.
proof fn lemma_block_of(table: TableView, uuid: Seq<char>) -> (block: BlockView)
    requires
        table.wf(),
        table.rows.dom().contains(uuid),
    ensures
        block.uuid == uuid,
        holds_block(table, block),
{
    let row = table.rows[uuid];
    let kinds = block_kinds();
    assert(crate::row::fault(row, 1, kinds[1]) is None);
    assert(crate::row::fault(row, 2, kinds[2]) is None);
    assert(crate::row::fault(row, 3, kinds[3]) is None);
    assert(crate::row::fault(row, 4, kinds[4]) is None);
    assert(crate::row::fault(row, 5, kinds[5]) is None);
    assert(crate::row::fault(row, 6, kinds[6]) is None);
    assert(crate::row::fault(row, 7, kinds[7]) is None);
    assert(crate::row::fault(row, 8, kinds[8]) is None);
    let block = BlockView {
        uuid,
        block_type: row[1]->Integer_0 as i32,
        page_uuid: row[2]->Text_0,
        page_journal_day: row[3]->Integer_0 as i32,
        name: row[4]->Text_0,
        content: row[5]->Text_0,
        datoms: row[6]->Text_0,
        created_at: row[7]->Integer_0,
        updated_at: row[8]->Integer_0,
    };
    assert(block_row(block) =~= row);
    block
}

} // verus!
