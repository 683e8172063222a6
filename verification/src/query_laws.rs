//! What the texts that go to a database say, and which value goes where.

use vstd::prelude::*;

use crate::blocks::{
    block_columns, block_kinds, block_row, info_kinds, info_row, lists_uuids, new_db_actions,
    quoted_list, removal_actions, upsert_actions, upsert_params, uuid_kinds, BlockInfoView,
    BlockView, SELECT_BLOCKS_OF_PAGES, SELECT_OTHER_BLOCKS,
};
use crate::blocks_laws::{law_listed_texts_can_be_told, without_quotes};
use crate::row::{faultless, ValueView};
use crate::statement::{DbActionView, ParamsView};
use crate::table::{
    given, gives, is_page, lists_latest, lists_selected, query_text, selects, QueryView, TableView,
};
use crate::table_laws::lemma_columns_differ;

verus! {

/// To open a database takes two statements, without values: the first makes the
/// table, with its nine columns, and the second the index, each only where there
/// is none.
pub proof fn law_opening_makes_the_table_and_its_index()
    ensures
        new_db_actions() == seq![
            DbActionView::Execute {
                sql: r#"
    CREATE TABLE IF NOT EXISTS blocks (
        uuid TEXT PRIMARY KEY NOT NULL,
        type INTEGER NOT NULL,
        page_uuid TEXT,
        page_journal_day INTEGER,
        name TEXT UNIQUE,
        content TEXT,
        datoms TEXT,
        created_at INTEGER NOT NULL,
        updated_at INTEGER NOT NULL
        )"#@,
                params: ParamsView::Positional(Seq::<ValueView>::empty()),
            },
            DbActionView::Execute {
                sql: "CREATE INDEX IF NOT EXISTS block_type ON blocks(type)"@,
                params: ParamsView::Positional(Seq::<ValueView>::empty()),
            },
        ],
{
}

/// Whether a value stands under a name, and no other does.
pub open spec fn binds(
    params: Seq<(Seq<char>, ValueView)>,
    name: Seq<char>,
    value: ValueView,
) -> bool {
    &&& exists|k: int| 0 <= k < params.len() && #[trigger] params[k] == (name, value)
    &&& forall|k: int|
        0 <= k < params.len() && (#[trigger] params[k]).0 == name ==> params[k].1 == value
}

proof fn lemma_binds(block: BlockView, i: int, name: Seq<char>, value: ValueView)
    requires
        0 <= i < 9,
        name == "@"@ + block_columns()[i],
        value == block_row(block)[i],
    ensures
        binds(upsert_params(block), name, value),
{
    let params = upsert_params(block);
    assert(params[i] == (name, value));
    assert forall|k: int| 0 <= k < params.len() && (#[trigger] params[k]).0 == name implies params[k].1
        == value by {
        lemma_columns_differ(i, k);
    }
}

/// Every field of a block goes to the database under the name of its own
/// column, and nothing else goes with them.
pub proof fn law_each_field_is_bound_to_its_column(block: BlockView)
    ensures
        upsert_params(block).len() == 9,
        binds(upsert_params(block), "@uuid"@, ValueView::Text(block.uuid)),
        binds(upsert_params(block), "@type"@, ValueView::Integer(block.block_type as i64)),
        binds(upsert_params(block), "@page_uuid"@, ValueView::Text(block.page_uuid)),
        binds(
            upsert_params(block),
            "@page_journal_day"@,
            ValueView::Integer(block.page_journal_day as i64),
        ),
        binds(upsert_params(block), "@name"@, ValueView::Text(block.name)),
        binds(upsert_params(block), "@content"@, ValueView::Text(block.content)),
        binds(upsert_params(block), "@datoms"@, ValueView::Text(block.datoms)),
        binds(upsert_params(block), "@created_at"@, ValueView::Integer(block.created_at)),
        binds(upsert_params(block), "@updated_at"@, ValueView::Integer(block.updated_at)),
{
    reveal_strlit("@");
    reveal_strlit("uuid");
    reveal_strlit("type");
    reveal_strlit("page_uuid");
    reveal_strlit("page_journal_day");
    reveal_strlit("name");
    reveal_strlit("content");
    reveal_strlit("datoms");
    reveal_strlit("created_at");
    reveal_strlit("updated_at");
    reveal_strlit("@uuid");
    reveal_strlit("@type");
    reveal_strlit("@page_uuid");
    reveal_strlit("@page_journal_day");
    reveal_strlit("@name");
    reveal_strlit("@content");
    reveal_strlit("@datoms");
    reveal_strlit("@created_at");
    reveal_strlit("@updated_at");
    assert("@uuid"@ =~= "@"@ + "uuid"@);
    assert("@type"@ =~= "@"@ + "type"@);
    assert("@page_uuid"@ =~= "@"@ + "page_uuid"@);
    assert("@page_journal_day"@ =~= "@"@ + "page_journal_day"@);
    assert("@name"@ =~= "@"@ + "name"@);
    assert("@content"@ =~= "@"@ + "content"@);
    assert("@datoms"@ =~= "@"@ + "datoms"@);
    assert("@created_at"@ =~= "@"@ + "created_at"@);
    assert("@updated_at"@ =~= "@"@ + "updated_at"@);
    lemma_binds(block, 0, "@uuid"@, ValueView::Text(block.uuid));
    lemma_binds(block, 1, "@type"@, ValueView::Integer(block.block_type as i64));
    lemma_binds(block, 2, "@page_uuid"@, ValueView::Text(block.page_uuid));
    lemma_binds(
        block,
        3,
        "@page_journal_day"@,
        ValueView::Integer(block.page_journal_day as i64),
    );
    lemma_binds(block, 4, "@name"@, ValueView::Text(block.name));
    lemma_binds(block, 5, "@content"@, ValueView::Text(block.content));
    lemma_binds(block, 6, "@datoms"@, ValueView::Text(block.datoms));
    lemma_binds(block, 7, "@created_at"@, ValueView::Integer(block.created_at));
    lemma_binds(block, 8, "@updated_at"@, ValueView::Integer(block.updated_at));
}

/// To put blocks in makes one request for each, in their order, between one that
/// begins a transaction and one that commits it. That for a block names every
/// column, gives it the value of that name, and changes the row where there is
/// one of the same UUID.
pub proof fn law_one_upsert_for_each_block(blocks: Seq<BlockView>, i: int)
    requires
        0 <= i < blocks.len(),
    ensures
        upsert_actions(blocks).len() == blocks.len() + 2,
        upsert_actions(blocks)[0] is Begin,
        upsert_actions(blocks).last() is Commit,
        upsert_actions(blocks)[i + 1] == (DbActionView::Execute {
            sql: r#"
    INSERT INTO blocks (uuid, type, page_uuid, page_journal_day, name, content,datoms, created_at, updated_at)
            VALUES (@uuid, @type, @page_uuid, @page_journal_day, @name, @content, @datoms, @created_at, @updated_at)
            ON CONFLICT (uuid)
            DO UPDATE
                SET (type, page_uuid, page_journal_day, name, content, datoms, created_at, updated_at)
                = (@type, @page_uuid, @page_journal_day, @name, @content, @datoms, @created_at, @updated_at)
    "#@,
            params: ParamsView::Named(upsert_params(blocks[i])),
        }),
{
}

/// To put no block in begins a transaction and commits it.
pub proof fn law_no_block_makes_an_empty_transaction(blocks: Seq<BlockView>)
    requires
        blocks.len() == 0,
    ensures
        upsert_actions(blocks) == seq![DbActionView::Begin, DbActionView::Commit],
{
    assert(upsert_actions(blocks) =~= seq![DbActionView::Begin, DbActionView::Commit]);
}

/// To take blocks out makes one request for each, in their order, and no other:
/// it is given the UUID and nothing else.
pub proof fn law_one_removal_for_each_block(uuids: Seq<Seq<char>>, i: int)
    ensures
        removal_actions(uuids).len() == uuids.len(),
        0 <= i < uuids.len() ==> removal_actions(uuids)[i] == (DbActionView::Execute {
            sql: "DELETE FROM blocks WHERE uuid = ?"@,
            params: ParamsView::Positional(seq![ValueView::Text(uuids[i])]),
        }),
{
}

/// A block is read from a row field by field, each from the column of its place
/// in the table: the row has those values, and a row that has others is read as
/// another block.
pub proof fn law_each_field_is_read_from_its_column(block: BlockView, row: Seq<ValueView>)
    requires
        row.len() >= 9,
    ensures
        block_row(block) == row.take(9) <==> {
            &&& row[0] == ValueView::Text(block.uuid)
            &&& row[1] == ValueView::Integer(block.block_type as i64)
            &&& row[2] == ValueView::Text(block.page_uuid)
            &&& row[3] == ValueView::Integer(block.page_journal_day as i64)
            &&& row[4] == ValueView::Text(block.name)
            &&& row[5] == ValueView::Text(block.content)
            &&& row[6] == ValueView::Text(block.datoms)
            &&& row[7] == ValueView::Integer(block.created_at)
            &&& row[8] == ValueView::Integer(block.updated_at)
        },
{
    let columns = block_row(block);
    if columns == row.take(9) {
        assert forall|k: int| 0 <= k < 9 implies #[trigger] row[k] == columns[k] by {
            assert(row.take(9)[k] == columns[k]);
        }
    } else if row[0] == columns[0] && row[1] == columns[1] && row[2] == columns[2] && row[3]
        == columns[3] && row[4] == columns[4] && row[5] == columns[5] && row[6] == columns[6]
        && row[7] == columns[7] && row[8] == columns[8] {
        assert(columns =~= row.take(9));
    }
}

/// A block and its page are read from the first two columns of a row.
pub proof fn law_infos_are_read_from_two_columns(info: BlockInfoView, row: Seq<ValueView>)
    requires
        row.len() >= 2,
    ensures
        info_row(info) == row.take(2) <==> row[0] == ValueView::Text(info.uuid) && row[1]
            == ValueView::Text(info.page_uuid),
{
    let columns = info_row(info);
    if columns == row.take(2) {
        assert(row.take(2)[0] == row[0] && row.take(2)[1] == row[1]);
    } else if row[0] == columns[0] && row[1] == columns[1] {
        assert(columns =~= row.take(2));
    }
}

/// The rows that a block can be read from are those whose columns are a text, an
/// integer of 32 bits, a text, an integer of 32 bits, three texts and two
/// integers; more columns do no harm. For a block and its page two texts are
/// enough, for a UUID one.
pub proof fn law_rows_that_can_be_read(row: Seq<ValueView>)
    ensures
        faultless(row, block_kinds()) <==> {
            &&& row.len() >= 9
            &&& row[0] is Text && row[2] is Text && row[4] is Text && row[5] is Text
                && row[6] is Text
            &&& row[1] is Integer && -0x8000_0000 <= row[1]->Integer_0 < 0x8000_0000
            &&& row[3] is Integer && -0x8000_0000 <= row[3]->Integer_0 < 0x8000_0000
            &&& row[7] is Integer && row[8] is Integer
        },
        faultless(row, info_kinds()) <==> row.len() >= 2 && row[0] is Text && row[1] is Text,
        faultless(row, uuid_kinds()) <==> row.len() >= 1 && row[0] is Text,
{
    let kinds = block_kinds();
    let two = info_kinds();
    let one = uuid_kinds();
    if faultless(row, kinds) {
        assert(crate::row::fault(row, 0, kinds[0]) is None);
        assert(crate::row::fault(row, 1, kinds[1]) is None);
        assert(crate::row::fault(row, 2, kinds[2]) is None);
        assert(crate::row::fault(row, 3, kinds[3]) is None);
        assert(crate::row::fault(row, 4, kinds[4]) is None);
        assert(crate::row::fault(row, 5, kinds[5]) is None);
        assert(crate::row::fault(row, 6, kinds[6]) is None);
        assert(crate::row::fault(row, 7, kinds[7]) is None);
        assert(crate::row::fault(row, 8, kinds[8]) is None);
    }
    if faultless(row, two) {
        assert(crate::row::fault(row, 0, two[0]) is None);
        assert(crate::row::fault(row, 1, two[1]) is None);
    }
    if faultless(row, one) {
        assert(crate::row::fault(row, 0, one[0]) is None);
    }
}

/// A list in a query is made of its texts: an empty one is empty, one text
/// stands between quotes, and two lists one behind the other have a comma and a
/// space between them.
pub proof fn law_lists_are_joined(a: Seq<Seq<char>>, b: Seq<Seq<char>>, text: Seq<char>)
    ensures
        quoted_list(Seq::<Seq<char>>::empty()) == Seq::<char>::empty(),
        quoted_list(seq![text]) == "'"@ + text + "'"@,
        a.len() > 0 && b.len() > 0 ==> quoted_list(a + b) == quoted_list(a) + ", "@
            + quoted_list(b),
    decreases b.len(),
{
    if a.len() > 0 && b.len() > 0 {
        let both = a + b;
        assert(both.last() == b.last());
        if b.len() == 1 {
            assert(both.drop_last() =~= a);
            assert(b[0] == b.last());
        } else {
            law_lists_are_joined(a, b.drop_last(), text);
            assert(both.drop_last() =~= a + b.drop_last());
            assert(quoted_list(a + b) =~= quoted_list(a) + ", "@ + quoted_list(b));
        }
    }
}

/// What each query says, word for word, and the rows that it takes by that: the
/// wording depends on nothing but the list, and stands before it as a whole.
pub proof fn law_query_takes_the_rows_that_it_names(query: QueryView, row: Seq<ValueView>)
    requires
        row.len() == 9,
        faultless(row, block_kinds()),
    ensures
        match query {
            QueryView::AllPages => {
                &&& query_text(query) == "SELECT * FROM blocks WHERE type = 2"@
                &&& selects(query, row) <==> row[1] == ValueView::Integer(2)
                &&& given(query, row) == row
            },
            QueryView::AllBlocks => {
                &&& query_text(query) == "SELECT uuid, page_uuid FROM blocks WHERE type = 1"@
                &&& selects(query, row) <==> row[1] == ValueView::Integer(1)
                &&& given(query, row) == seq![row[0], row[2]]
            },
            QueryView::RecentJournals => {
                &&& query_text(query)
                    == "SELECT uuid FROM blocks WHERE type = 2 ORDER BY page_journal_day DESC LIMIT 3"@
                &&& selects(query, row) <==> row[1] == ValueView::Integer(2)
                &&& given(query, row) == seq![row[0]]
            },
            QueryView::InitData => {
                &&& query_text(query) == "SELECT * FROM blocks WHERE type IN (3, 4, 5, 6)"@
                &&& selects(query, row) <==> row[1] == ValueView::Integer(3) || row[1]
                    == ValueView::Integer(4) || row[1] == ValueView::Integer(5) || row[1]
                    == ValueView::Integer(6)
                &&& given(query, row) == row
            },
            QueryView::BlocksOfPages { pages } => {
                &&& query_text(query) == "SELECT * FROM blocks WHERE type = 1 AND page_uuid IN ("@
                    + quoted_list(pages) + ")"@
                &&& selects(query, row) <==> row[1] == ValueView::Integer(1) && exists|i: int|
                    0 <= i < pages.len() && row[2] == ValueView::Text(#[trigger] pages[i])
                &&& given(query, row) == row
            },
            QueryView::OtherBlocks { excluded } => {
                &&& query_text(query) == "SELECT * FROM blocks WHERE type = 1 AND uuid NOT IN ("@
                    + quoted_list(excluded) + ")"@
                &&& selects(query, row) <==> row[1] == ValueView::Integer(1) && forall|i: int|
                    0 <= i < excluded.len() ==> row[0] != ValueView::Text(#[trigger] excluded[i])
                &&& given(query, row) == row
            },
        },
{
    law_rows_that_can_be_read(row);
    match query {
        QueryView::BlocksOfPages { pages } => {
            if exists|i: int|
                0 <= i < pages.len() && row[2] == ValueView::Text(#[trigger] pages[i]) {
                let i = choose|i: int|
                    0 <= i < pages.len() && row[2] == ValueView::Text(#[trigger] pages[i]);
                assert(pages[i] == row[2]->Text_0);
            }
        },
        QueryView::OtherBlocks { excluded } => {
            if excluded.contains(row[0]->Text_0) {
                let i = choose|i: int| 0 <= i < excluded.len() && excluded[i] == row[0]->Text_0;
                assert(row[0] == ValueView::Text(excluded[i]));
            }
        },
        _ => {},
    }
}

/// One more excluded UUID leaves out the row of that UUID and no other; one more
/// page adds the blocks of that page and no others. In the query it stands
/// behind those that were there.
pub proof fn law_one_more_in_the_list(
    list: Seq<Seq<char>>,
    more: Seq<char>,
    row: Seq<ValueView>,
)
    requires
        row.len() == 9,
        faultless(row, block_kinds()),
        list.len() > 0,
    ensures
        ({
            let now = list.push(more);
            let others = QueryView::OtherBlocks { excluded: list };
            let fewer = QueryView::OtherBlocks { excluded: now };
            let of_pages = QueryView::BlocksOfPages { pages: list };
            let of_more = QueryView::BlocksOfPages { pages: now };
            &&& selects(fewer, row) <==> selects(others, row) && row[0] != ValueView::Text(more)
            &&& selects(of_more, row) <==> selects(of_pages, row) || row[1] == ValueView::Integer(1)
                && row[2] == ValueView::Text(more)
            &&& query_text(fewer) == query_text(others).drop_last() + ", '"@ + more + "')"@
            &&& query_text(of_more) == query_text(of_pages).drop_last() + ", '"@ + more + "')"@
        }),
{
    let now = list.push(more);
    law_rows_that_can_be_read(row);
    assert forall|t: Seq<char>| now.contains(t) <==> list.contains(t) || t == more by {
        if list.contains(t) {
            let i = choose|i: int| 0 <= i < list.len() && list[i] == t;
            assert(now[i] == t);
        }
        if t == more {
            assert(now[list.len() as int] == t);
        }
    }
    lemma_one_more_text(SELECT_OTHER_BLOCKS@, list, more);
    lemma_one_more_text(SELECT_BLOCKS_OF_PAGES@, list, more);
}

proof fn lemma_one_more_text(head: Seq<char>, list: Seq<Seq<char>>, more: Seq<char>)
    requires
        list.len() > 0,
    ensures
        head + quoted_list(list.push(more)) + ")"@ == (head + quoted_list(list) + ")"@).drop_last()
            + ", '"@ + more + "')"@,
{
    reveal_strlit(")");
    reveal_strlit("'");
    reveal_strlit(", ");
    reveal_strlit(", '");
    reveal_strlit("')");
    let now = list.push(more);
    assert(now.drop_last() =~= list);
    let before = quoted_list(list);
    assert(quoted_list(now) == before + ", "@ + ("'"@ + more + "'"@));
    assert((head + before + ")"@).drop_last() =~= head + before);
    assert(", '"@ =~= ", "@ + "'"@);
    assert("')"@ =~= "'"@ + ")"@);
    assert(head + quoted_list(now) + ")"@ =~= head + before + ", '"@ + more + "')"@);
}

/// Whether the list of a query, if it has one, holds no quote.
pub open spec fn lists_no_quotes(query: QueryView) -> bool {
    match query {
        QueryView::BlocksOfPages { pages } => without_quotes(pages),
        QueryView::OtherBlocks { excluded } => without_quotes(excluded),
        _ => true,
    }
}

/// Two queries that ask for different things have different texts: what a query
/// asks for can be told from its text.
pub proof fn law_query_can_be_told_from_its_text(a: QueryView, b: QueryView)
    requires
        lists_no_quotes(a),
        lists_no_quotes(b),
    ensures
        query_text(a) == query_text(b) ==> a == b,
{
    reveal_strlit("SELECT * FROM blocks WHERE type = 2");
    reveal_strlit("SELECT uuid, page_uuid FROM blocks WHERE type = 1");
    reveal_strlit("SELECT uuid FROM blocks WHERE type = 2 ORDER BY page_journal_day DESC LIMIT 3");
    reveal_strlit("SELECT * FROM blocks WHERE type IN (3, 4, 5, 6)");
    reveal_strlit("SELECT * FROM blocks WHERE type = 1 AND page_uuid IN (");
    reveal_strlit("SELECT * FROM blocks WHERE type = 1 AND uuid NOT IN (");
    if query_text(a) == query_text(b) {
        let s = query_text(a);
        let t = query_text(b);
        assert(s[7] == t[7] && s[11] == t[11] && s[32] == t[32] && s[34] == t[34] && s[40]
            == t[40]);
        match (a, b) {
            (QueryView::BlocksOfPages { pages: p }, QueryView::BlocksOfPages { pages: q }) => {
                let head = "SELECT * FROM blocks WHERE type = 1 AND page_uuid IN ("@;
                lemma_same_lists(head, p, q);
            },
            (QueryView::OtherBlocks { excluded: p }, QueryView::OtherBlocks { excluded: q }) => {
                let head = "SELECT * FROM blocks WHERE type = 1 AND uuid NOT IN ("@;
                lemma_same_lists(head, p, q);
            },
            _ => {},
        }
    }
}

proof fn lemma_same_lists(head: Seq<char>, p: Seq<Seq<char>>, q: Seq<Seq<char>>)
    requires
        without_quotes(p),
        without_quotes(q),
        head + quoted_list(p) + ")"@ == head + quoted_list(q) + ")"@,
    ensures
        p == q,
{
    let s = head + quoted_list(p) + ")"@;
    let t = head + quoted_list(q) + ")"@;
    let n = head.len() as int;
    let m = ")"@.len() as int;
    assert(s.subrange(n, s.len() - m) =~= quoted_list(p));
    assert(t.subrange(n, t.len() - m) =~= quoted_list(q));
    law_listed_texts_can_be_told(p, q);
}

/// The recent journals are at most three pages, each once, of the latest days,
/// the latest first: a page is left out only where there are three, and none of
/// them has an earlier day than it.
pub proof fn law_recent_journals_are_the_latest_three(
    table: TableView,
    latest: Seq<Seq<ValueView>>,
    pages: Seq<Seq<char>>,
    other: Seq<char>,
)
    requires
        table.wf(),
        gives(table, QueryView::RecentJournals, latest),
        pages.len() == latest.len(),
        forall|i: int|
            0 <= i < pages.len() ==> #[trigger] latest[i] == seq![ValueView::Text(pages[i])],
    ensures
        pages.len() <= 3,
        pages.no_duplicates(),
        forall|i: int|
            0 <= i < pages.len() ==> table.rows.dom().contains(#[trigger] pages[i])
                && table.rows[pages[i]][1] == ValueView::Integer(2),
        forall|i: int, k: int|
            0 <= i < k < pages.len() ==> table.rows[#[trigger] pages[i]][3]->Integer_0
                >= table.rows[#[trigger] pages[k]][3]->Integer_0,
        table.rows.dom().contains(other) && table.rows[other][1] == ValueView::Integer(2)
            && !pages.contains(other) ==> {
            &&& pages.len() == 3
            &&& forall|i: int|
                0 <= i < 3 ==> table.rows[#[trigger] pages[i]][3]->Integer_0
                    >= table.rows[other][3]->Integer_0
        },
{
    let order = choose|order: Seq<Seq<char>>| #[trigger]
        lists_selected(table, QueryView::RecentJournals, order) && latest == order.map_values(
            |u: Seq<char>| given(QueryView::RecentJournals, table.rows[u]),
        );
    assert forall|i: int| 0 <= i < pages.len() implies #[trigger] pages[i] == order[i] by {
        assert(is_page(table, order[i]));
        assert(latest[i] == seq![table.rows[order[i]][0]]);
        assert(latest[i][0] == ValueView::Text(pages[i]));
    }
    assert(pages =~= order);
    assert(lists_latest(table, pages));
    assert forall|u: Seq<char>| #[trigger] table.rows.dom().contains(u) implies {
        &&& table.rows[u][1] is Integer
        &&& table.rows[u][3] is Integer
    } by {
        law_rows_that_can_be_read(table.rows[u]);
    }
    assert forall|i: int| 0 <= i < pages.len() implies table.rows.dom().contains(
        #[trigger] pages[i],
    ) && table.rows[pages[i]][1] == ValueView::Integer(2) by {
        assert(is_page(table, pages[i]));
    }
    if table.rows.dom().contains(other) && table.rows[other][1] == ValueView::Integer(2)
        && !pages.contains(other) {
        assert(is_page(table, other));
        assert forall|i: int| 0 <= i < 3 implies table.rows[#[trigger] pages[i]][3]->Integer_0
            >= table.rows[other][3]->Integer_0 by {
            assert(table.rows.dom().contains(pages[i]));
        }
    }
}

/// The UUIDs of rows are the texts in their first columns, one for each row, in
/// their order; there is one such list at most.
pub proof fn law_uuids_stand_in_the_first_column(
    rows: Seq<Seq<ValueView>>,
    uuids: Seq<Seq<char>>,
    i: int,
)
    requires
        lists_uuids(rows, uuids),
    ensures
        uuids.len() == rows.len(),
        0 <= i < rows.len() ==> rows[i].len() >= 1 && rows[i][0] == ValueView::Text(uuids[i]),
{
}

} // verus!
