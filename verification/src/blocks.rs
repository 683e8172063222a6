//! The blocks of a graph, and how they are kept in a database.
//!
//! A function that asks something of a database gives the requests, or the
//! query, and the connection that they go to; the rows that a query gives are
//! read by the functions whose names begin with `read`.

use vstd::prelude::*;

use crate::connections::Connections;
use crate::name_table::texts;
use crate::row::{
    faultless, first_fault, get_i32, get_i64, get_text, row_views, value_views, ColumnKind,
    RowError, SqlValue, ValueView,
};
use crate::statement::{
    db_action_views, execute_plain, named_views, plain, DbAction, DbActionView, DbPlan, DbQuery,
    Params, ParamsView,
};
use crate::table::{query_text, QueryView};

verus! {

/// Makes the table of blocks.
pub const CREATE_BLOCKS: &'static str = r#"
    CREATE TABLE IF NOT EXISTS blocks (
        uuid TEXT PRIMARY KEY NOT NULL,
        type INTEGER NOT NULL,
        page_uuid TEXT,
        page_journal_day INTEGER,
        name TEXT UNIQUE,
        content TEXT,
        datoms TEXT,
        created_at INTEGER NOT NULL,
        updated_at INTEGER NOT NULL
        )"#;

/// Makes the index of blocks by their type.
pub const CREATE_INDEX: &'static str = "CREATE INDEX IF NOT EXISTS block_type ON blocks(type)";

/// Takes one block out.
pub const DELETE_BLOCK: &'static str = "DELETE FROM blocks WHERE uuid = ?";

/// Puts one block in, in place of the one of the same UUID.
pub const UPSERT_BLOCK: &'static str = r#"
    INSERT INTO blocks (uuid, type, page_uuid, page_journal_day, name, content,datoms, created_at, updated_at)
            VALUES (@uuid, @type, @page_uuid, @page_journal_day, @name, @content, @datoms, @created_at, @updated_at)
            ON CONFLICT (uuid)
            DO UPDATE
                SET (type, page_uuid, page_journal_day, name, content, datoms, created_at, updated_at)
                = (@type, @page_uuid, @page_journal_day, @name, @content, @datoms, @created_at, @updated_at)
    "#;

/// All pages.
pub const SELECT_PAGES: &'static str = "SELECT * FROM blocks WHERE type = 2";

/// All blocks and their pages.
pub const SELECT_BLOCK_INFOS: &'static str = "SELECT uuid, page_uuid FROM blocks WHERE type = 1";

/// The pages of the last three days.
pub const SELECT_RECENT_JOURNALS: &'static str =
    "SELECT uuid FROM blocks WHERE type = 2 ORDER BY page_journal_day DESC LIMIT 3";

/// The blocks of some pages: before the list of the pages.
pub const SELECT_BLOCKS_OF_PAGES: &'static str =
    "SELECT * FROM blocks WHERE type = 1 AND page_uuid IN (";

/// What is needed at the start.
pub const SELECT_INIT_DATA: &'static str = "SELECT * FROM blocks WHERE type IN (3, 4, 5, 6)";

/// All blocks but some: before the list of those.
pub const SELECT_OTHER_BLOCKS: &'static str =
    "SELECT * FROM blocks WHERE type = 1 AND uuid NOT IN (";

/// A block of a graph.
#[derive(Debug, PartialEq, Eq)]
pub struct Block {
    pub uuid: String,
    pub block_type: i32,
    pub page_uuid: String,
    pub page_journal_day: i32,
    pub name: String,
    pub content: String,
    pub datoms: String,
    pub created_at: i64,
    pub updated_at: i64,
}

/// A block, with text as sequences.
#[verifier::ext_equal]
pub struct BlockView {
    pub uuid: Seq<char>,
    pub block_type: i32,
    pub page_uuid: Seq<char>,
    pub page_journal_day: i32,
    pub name: Seq<char>,
    pub content: Seq<char>,
    pub datoms: Seq<char>,
    pub created_at: i64,
    pub updated_at: i64,
}

impl View for Block {
    type V = BlockView;

    open spec fn view(&self) -> BlockView {
        BlockView {
            uuid: self.uuid@,
            block_type: self.block_type,
            page_uuid: self.page_uuid@,
            page_journal_day: self.page_journal_day,
            name: self.name@,
            content: self.content@,
            datoms: self.datoms@,
            created_at: self.created_at,
            updated_at: self.updated_at,
        }
    }
}

/// The views of a list of blocks.
pub open spec fn block_views(blocks: Seq<Block>) -> Seq<BlockView> {
    blocks.map_values(|b: Block| b@)
}

/// A block and its page.
#[derive(Debug, PartialEq, Eq)]
pub struct BlockInfo {
    pub uuid: String,
    pub page_uuid: String,
}

/// A block and its page, with text as sequences.
pub struct BlockInfoView {
    pub uuid: Seq<char>,
    pub page_uuid: Seq<char>,
}

impl View for BlockInfo {
    type V = BlockInfoView;

    open spec fn view(&self) -> BlockInfoView {
        BlockInfoView { uuid: self.uuid@, page_uuid: self.page_uuid@ }
    }
}

/// The views of a list of blocks and their pages.
pub open spec fn info_views(infos: Seq<BlockInfo>) -> Seq<BlockInfoView> {
    infos.map_values(|b: BlockInfo| b@)
}

/// What the columns of a block are read as.
pub open spec fn block_kinds() -> Seq<ColumnKind> {
    seq![
        ColumnKind::Text,
        ColumnKind::Int32,
        ColumnKind::Text,
        ColumnKind::Int32,
        ColumnKind::Text,
        ColumnKind::Text,
        ColumnKind::Text,
        ColumnKind::Int64,
        ColumnKind::Int64,
    ]
}

/// The columns of a block, in the order of the table.
pub open spec fn block_row(block: BlockView) -> Seq<ValueView> {
    seq![
        ValueView::Text(block.uuid),
        ValueView::Integer(block.block_type as i64),
        ValueView::Text(block.page_uuid),
        ValueView::Integer(block.page_journal_day as i64),
        ValueView::Text(block.name),
        ValueView::Text(block.content),
        ValueView::Text(block.datoms),
        ValueView::Integer(block.created_at),
        ValueView::Integer(block.updated_at),
    ]
}

/// What the columns of a block and its page are read as.
pub open spec fn info_kinds() -> Seq<ColumnKind> {
    seq![ColumnKind::Text, ColumnKind::Text]
}

/// The columns of a block and its page.
pub open spec fn info_row(info: BlockInfoView) -> Seq<ValueView> {
    seq![ValueView::Text(info.uuid), ValueView::Text(info.page_uuid)]
}

/// The names of the columns of the table, in its order.
pub open spec fn block_columns() -> Seq<Seq<char>> {
    seq![
        "uuid"@,
        "type"@,
        "page_uuid"@,
        "page_journal_day"@,
        "name"@,
        "content"@,
        "datoms"@,
        "created_at"@,
        "updated_at"@,
    ]
}

/// The values that a block is put in with, each under the name of its column
/// behind an `@`.
pub open spec fn upsert_params(block: BlockView) -> Seq<(Seq<char>, ValueView)> {
    Seq::new(9, |i: int| ("@"@ + block_columns()[i], block_row(block)[i]))
}

/// The request that puts a block in.
pub open spec fn upsert(block: BlockView) -> DbActionView {
    DbActionView::Execute { sql: UPSERT_BLOCK@, params: ParamsView::Named(upsert_params(block)) }
}

/// The request that takes a block out.
pub open spec fn removal(uuid: Seq<char>) -> DbActionView {
    DbActionView::Execute {
        sql: DELETE_BLOCK@,
        params: ParamsView::Positional(seq![ValueView::Text(uuid)]),
    }
}

/// The requests that make the table and its index.
pub open spec fn new_db_actions() -> Seq<DbActionView> {
    seq![plain(CREATE_BLOCKS@), plain(CREATE_INDEX@)]
}

/// The requests that put blocks in, in one transaction.
pub open spec fn upsert_actions(blocks: Seq<BlockView>) -> Seq<DbActionView> {
    seq![DbActionView::Begin] + blocks.map_values(|b: BlockView| upsert(b)) + seq![
        DbActionView::Commit,
    ]
}

/// The requests that take blocks out.
pub open spec fn removal_actions(uuids: Seq<Seq<char>>) -> Seq<DbActionView> {
    uuids.map_values(|u: Seq<char>| removal(u))
}

impl Block {
    /// Reads a block from the columns of the table. Columns beyond those are
    /// passed over.
    pub fn from_row(row: &Vec<SqlValue>) -> (read: Result<Block, RowError>)
        ensures
            match read {
                Ok(block) => {
                    &&& faultless(value_views(row@), block_kinds())
                    &&& block_row(block@) == value_views(row@).take(9)
                    &&& row@.len() >= 9
                    &&& row@[0]@ == ValueView::Text(block.uuid@)
                    &&& row@[1]@ == ValueView::Integer(block.block_type as i64)
                    &&& row@[2]@ == ValueView::Text(block.page_uuid@)
                    &&& row@[3]@ == ValueView::Integer(block.page_journal_day as i64)
                    &&& row@[4]@ == ValueView::Text(block.name@)
                    &&& row@[5]@ == ValueView::Text(block.content@)
                    &&& row@[6]@ == ValueView::Text(block.datoms@)
                    &&& row@[7]@ == ValueView::Integer(block.created_at)
                    &&& row@[8]@ == ValueView::Integer(block.updated_at)
                },
                Err(e) => first_fault(value_views(row@), block_kinds(), e),
            },
    {
        let ghost kinds = block_kinds();
        let ghost views = value_views(row@);
        assert(kinds.len() == 9);
        let uuid = match get_text(row, 0) {
            Ok(v) => v,
            Err(e) => {
                assert(crate::row::fault(views, 0, kinds[0]) == Some(e));
                return Err(e);
            },
        };
        let block_type = match get_i32(row, 1) {
            Ok(v) => v,
            Err(e) => {
                assert(crate::row::fault(views, 1, kinds[1]) == Some(e));
                return Err(e);
            },
        };
        let page_uuid = match get_text(row, 2) {
            Ok(v) => v,
            Err(e) => {
                assert(crate::row::fault(views, 2, kinds[2]) == Some(e));
                return Err(e);
            },
        };
        let page_journal_day = match get_i32(row, 3) {
            Ok(v) => v,
            Err(e) => {
                assert(crate::row::fault(views, 3, kinds[3]) == Some(e));
                return Err(e);
            },
        };
        let name = match get_text(row, 4) {
            Ok(v) => v,
            Err(e) => {
                assert(crate::row::fault(views, 4, kinds[4]) == Some(e));
                return Err(e);
            },
        };
        let content = match get_text(row, 5) {
            Ok(v) => v,
            Err(e) => {
                assert(crate::row::fault(views, 5, kinds[5]) == Some(e));
                return Err(e);
            },
        };
        let datoms = match get_text(row, 6) {
            Ok(v) => v,
            Err(e) => {
                assert(crate::row::fault(views, 6, kinds[6]) == Some(e));
                return Err(e);
            },
        };
        let created_at = match get_i64(row, 7) {
            Ok(v) => v,
            Err(e) => {
                assert(crate::row::fault(views, 7, kinds[7]) == Some(e));
                return Err(e);
            },
        };
        let updated_at = match get_i64(row, 8) {
            Ok(v) => v,
            Err(e) => {
                assert(crate::row::fault(views, 8, kinds[8]) == Some(e));
                return Err(e);
            },
        };
        let block = Block {
            uuid,
            block_type,
            page_uuid,
            page_journal_day,
            name,
            content,
            datoms,
            created_at,
            updated_at,
        };
        proof {
            assert(block_row(block@) =~= views.take(9));
            assert forall|k: int| 0 <= k < 9 implies #[trigger] row@[k]@ == block_row(block@)[k] by {
                assert(views[k] == row@[k]@);
            }
        }
        Ok(block)
    }

    /// The values that the block is put in with.
    fn upsert_params(&self) -> (params: Vec<(String, SqlValue)>)
        ensures
            named_views(params@) == upsert_params(self@),
            params@.len() == 9,
            params@[0].0@ == "@uuid"@ && params@[0].1@ == ValueView::Text(self.uuid@),
            params@[1].0@ == "@type"@ && params@[1].1@ == ValueView::Integer(
                self.block_type as i64,
            ),
            params@[2].0@ == "@page_uuid"@ && params@[2].1@ == ValueView::Text(self.page_uuid@),
            params@[3].0@ == "@page_journal_day"@ && params@[3].1@ == ValueView::Integer(
                self.page_journal_day as i64,
            ),
            params@[4].0@ == "@name"@ && params@[4].1@ == ValueView::Text(self.name@),
            params@[5].0@ == "@content"@ && params@[5].1@ == ValueView::Text(self.content@),
            params@[6].0@ == "@datoms"@ && params@[6].1@ == ValueView::Text(self.datoms@),
            params@[7].0@ == "@created_at"@ && params@[7].1@ == ValueView::Integer(self.created_at),
            params@[8].0@ == "@updated_at"@ && params@[8].1@ == ValueView::Integer(self.updated_at),
    {
        let mut params: Vec<(String, SqlValue)> = Vec::new();
        params.push(("@uuid".to_owned(), SqlValue::Text(self.uuid.clone())));
        params.push(("@type".to_owned(), SqlValue::Integer(self.block_type as i64)));
        params.push(("@page_uuid".to_owned(), SqlValue::Text(self.page_uuid.clone())));
        params.push(
            ("@page_journal_day".to_owned(), SqlValue::Integer(self.page_journal_day as i64)),
        );
        params.push(("@name".to_owned(), SqlValue::Text(self.name.clone())));
        params.push(("@content".to_owned(), SqlValue::Text(self.content.clone())));
        params.push(("@datoms".to_owned(), SqlValue::Text(self.datoms.clone())));
        params.push(("@created_at".to_owned(), SqlValue::Integer(self.created_at)));
        params.push(("@updated_at".to_owned(), SqlValue::Integer(self.updated_at)));
        proof {
            reveal_strlit("@");
            reveal_strlit("uuid");
            reveal_strlit("type");
            reveal_strlit("page_uuid");
            reveal_strlit("page_journal_day");
            reveal_strlit("name");
            reveal_strlit("content");
            reveal_strlit("datoms");
            reveal_strlit("created_at");
            reveal_strlit("updated_at");
            reveal_strlit("@uuid");
            reveal_strlit("@type");
            reveal_strlit("@page_uuid");
            reveal_strlit("@page_journal_day");
            reveal_strlit("@name");
            reveal_strlit("@content");
            reveal_strlit("@datoms");
            reveal_strlit("@created_at");
            reveal_strlit("@updated_at");
            assert("@uuid"@ =~= "@"@ + "uuid"@);
            assert("@type"@ =~= "@"@ + "type"@);
            assert("@page_uuid"@ =~= "@"@ + "page_uuid"@);
            assert("@page_journal_day"@ =~= "@"@ + "page_journal_day"@);
            assert("@name"@ =~= "@"@ + "name"@);
            assert("@content"@ =~= "@"@ + "content"@);
            assert("@datoms"@ =~= "@"@ + "datoms"@);
            assert("@created_at"@ =~= "@"@ + "created_at"@);
            assert("@updated_at"@ =~= "@"@ + "updated_at"@);
            assert(named_views(params@) =~= upsert_params(self@));
        }
        params
    }
}

impl BlockInfo {
    /// Reads a block and its page from the first two columns.
    pub fn from_row(row: &Vec<SqlValue>) -> (read: Result<BlockInfo, RowError>)
        ensures
            match read {
                Ok(info) => {
                    &&& faultless(value_views(row@), info_kinds())
                    &&& info_row(info@) == value_views(row@).take(2)
                    &&& row@.len() >= 2
                    &&& row@[0]@ == ValueView::Text(info.uuid@)
                    &&& row@[1]@ == ValueView::Text(info.page_uuid@)
                },
                Err(e) => first_fault(value_views(row@), info_kinds(), e),
            },
    {
        let ghost kinds = info_kinds();
        let ghost views = value_views(row@);
        assert(kinds.len() == 2);
        let uuid = match get_text(row, 0) {
            Ok(v) => v,
            Err(e) => {
                assert(crate::row::fault(views, 0, kinds[0]) == Some(e));
                return Err(e);
            },
        };
        let page_uuid = match get_text(row, 1) {
            Ok(v) => v,
            Err(e) => {
                assert(crate::row::fault(views, 1, kinds[1]) == Some(e));
                return Err(e);
            },
        };
        let info = BlockInfo { uuid, page_uuid };
        proof {
            assert(info_row(info@) =~= views.take(2));
            assert(views[0] == row@[0]@ && views[1] == row@[1]@);
        }
        Ok(info)
    }
}

/// A database that is to be opened.
#[derive(Debug)]
pub struct NewDb {
    /// Where a connection is to be opened.
    pub path: String,
    /// The requests to be made on it, in order.
    pub actions: Vec<DbAction>,
}

/// Begins to open a database: its path, and the requests that make its table
/// and its index.
pub fn new_db(db: &str) -> (new: NewDb)
    ensures
        new.path@ == db@,
        db_action_views(new.actions@) == new_db_actions(),
{
    let mut actions: Vec<DbAction> = Vec::new();
    actions.push(execute_plain(CREATE_BLOCKS));
    actions.push(execute_plain(CREATE_INDEX));
    assert(db_action_views(actions@) =~= new_db_actions());
    NewDb { path: db.to_owned(), actions }
}

/// Opens a database whose table and index have been made: `conn` is now its
/// connection.
pub fn finish_new_db(conns: &mut Connections, db: &str, conn: u32)
    requires
        old(conns).wf(),
    ensures
        final(conns).wf(),
        final(conns)@ == old(conns)@.insert(db@, conn),
{
    conns.register(db, conn);
}

/// Takes blocks out, one after the other.
pub fn delete_blocks(conns: &Connections, db: &str, uuids: Vec<String>) -> (plan: DbPlan)
    requires
        conns.wf(),
        conns@.dom().contains(db@),
    ensures
        plan.conn == conns@[db@],
        db_action_views(plan.actions@) == removal_actions(texts(uuids@)),
{
    let conn = conns.connection(db);
    let ghost given = texts(uuids@);
    let mut actions: Vec<DbAction> = Vec::new();
    for uuid in it: uuids
        invariant
            it.seq() == uuids@,
            given == texts(uuids@),
            db_action_views(actions@) == given.take(it.index() as int).map_values(
                |u: Seq<char>| removal(u),
            ),
    {
        let ghost before = db_action_views(actions@);
        let mut values: Vec<SqlValue> = Vec::new();
        values.push(SqlValue::Text(uuid));
        assert(value_views(values@) =~= seq![ValueView::Text(uuid@)]);
        actions.push(
            DbAction::Execute { sql: DELETE_BLOCK.to_owned(), params: Params::Positional(values) },
        );
        proof {
            let n = it.index() as int;
            assert(uuid@ == given[n]);
            assert(db_action_views(actions@) =~= before.push(removal(uuid@)));
            assert(given.take(n + 1) =~= given.take(n).push(given[n]));
            assert(given.take(n + 1).map_values(|u: Seq<char>| removal(u)) =~= given.take(
                n,
            ).map_values(|u: Seq<char>| removal(u)).push(removal(given[n])));
        }
    }
    assert(given.take(given.len() as int) =~= given);
    DbPlan { conn, actions }
}

/// Puts blocks in, each in place of the one of the same UUID: all of them or,
/// if one cannot be, none.
pub fn upsert_blocks(conns: &Connections, db: &str, blocks: Vec<Block>) -> (plan: DbPlan)
    requires
        conns.wf(),
        conns@.dom().contains(db@),
    ensures
        plan.conn == conns@[db@],
        db_action_views(plan.actions@) == upsert_actions(block_views(blocks@)),
{
    let conn = conns.connection(db);
    let ghost given = block_views(blocks@);
    let mut actions: Vec<DbAction> = Vec::new();
    actions.push(DbAction::Begin);
    assert(db_action_views(actions@) =~= seq![DbActionView::Begin] + given.take(0).map_values(
        |b: BlockView| upsert(b),
    ));
    for block in it: blocks
        invariant
            it.seq() == blocks@,
            given == block_views(blocks@),
            db_action_views(actions@) == seq![DbActionView::Begin] + given.take(
                it.index() as int,
            ).map_values(|b: BlockView| upsert(b)),
    {
        let ghost before = db_action_views(actions@);
        let params = block.upsert_params();
        actions.push(
            DbAction::Execute { sql: UPSERT_BLOCK.to_owned(), params: Params::Named(params) },
        );
        proof {
            let n = it.index() as int;
            assert(block@ == given[n]);
            assert(db_action_views(actions@) =~= before.push(upsert(block@)));
            assert(given.take(n + 1) =~= given.take(n).push(given[n]));
            assert(seq![DbActionView::Begin] + given.take(n + 1).map_values(
                |b: BlockView| upsert(b),
            ) =~= (seq![DbActionView::Begin] + given.take(n).map_values(
                |b: BlockView| upsert(b),
            )).push(upsert(given[n])));
        }
    }
    let ghost before = db_action_views(actions@);
    assert(given.take(given.len() as int) =~= given);
    actions.push(DbAction::Commit);
    assert(db_action_views(actions@) =~= before + seq![DbActionView::Commit]);
    DbPlan { conn, actions }
}

/// The query for all pages.
pub fn fetch_all_pages(conns: &Connections, db: &str) -> (query: DbQuery)
    requires
        conns.wf(),
        conns@.dom().contains(db@),
    ensures
        query.conn == conns@[db@],
        query.sql@ == query_text(QueryView::AllPages),
        query.sql@ == "SELECT * FROM blocks WHERE type = 2"@,
{
    DbQuery { conn: conns.connection(db), sql: SELECT_PAGES.to_owned() }
}

/// The query for all blocks and their pages.
pub fn fetch_all_blocks(conns: &Connections, db: &str) -> (query: DbQuery)
    requires
        conns.wf(),
        conns@.dom().contains(db@),
    ensures
        query.conn == conns@[db@],
        query.sql@ == query_text(QueryView::AllBlocks),
        query.sql@ == "SELECT uuid, page_uuid FROM blocks WHERE type = 1"@,
{
    DbQuery { conn: conns.connection(db), sql: SELECT_BLOCK_INFOS.to_owned() }
}

/// The query for the pages whose blocks are wanted first; the query for the
/// blocks follows from its rows, by `blocks_of_recent_journals`.
pub fn fetch_recent_journals(conns: &Connections, db: &str) -> (query: DbQuery)
    requires
        conns.wf(),
        conns@.dom().contains(db@),
    ensures
        query.conn == conns@[db@],
        query.sql@ == query_text(QueryView::RecentJournals),
        query.sql@
            == "SELECT uuid FROM blocks WHERE type = 2 ORDER BY page_journal_day DESC LIMIT 3"@,
{
    DbQuery { conn: conns.connection(db), sql: SELECT_RECENT_JOURNALS.to_owned() }
}

/// The query for what is needed at the start.
pub fn fetch_init_data(conns: &Connections, db: &str) -> (query: DbQuery)
    requires
        conns.wf(),
        conns@.dom().contains(db@),
    ensures
        query.conn == conns@[db@],
        query.sql@ == query_text(QueryView::InitData),
        query.sql@ == "SELECT * FROM blocks WHERE type IN (3, 4, 5, 6)"@,
{
    DbQuery { conn: conns.connection(db), sql: SELECT_INIT_DATA.to_owned() }
}

/// The query for all blocks but those that are excluded.
pub fn fetch_blocks_excluding(conns: &Connections, db: &str, excluded_uuids: &Vec<String>) -> (query:
    DbQuery)
    requires
        conns.wf(),
        conns@.dom().contains(db@),
    ensures
        query.conn == conns@[db@],
        query.sql@ == query_text(QueryView::OtherBlocks { excluded: texts(excluded_uuids@) }),
        query.sql@ == "SELECT * FROM blocks WHERE type = 1 AND uuid NOT IN ("@ + quoted_list(
            texts(excluded_uuids@),
        ) + ")"@,
{
    DbQuery { conn: conns.connection(db), sql: with_list(SELECT_OTHER_BLOCKS, excluded_uuids) }
}

/// A text between quotes.
pub open spec fn quoted(text: Seq<char>) -> Seq<char> {
    "'"@ + text + "'"@
}

/// A list of texts, each between quotes, with a comma and a space between
/// them.
pub open spec fn quoted_list(list: Seq<Seq<char>>) -> Seq<char>
    decreases list.len(),
{
    if list.len() == 0 {
        Seq::empty()
    } else if list.len() == 1 {
        quoted(list[0])
    } else {
        quoted_list(list.drop_last()) + ", "@ + quoted(list.last())
    }
}

/// A query that ends in a list.
fn with_list(head: &str, uuids: &Vec<String>) -> (sql: String)
    ensures
        sql@ == head@ + quoted_list(texts(uuids@)) + ")"@,
{
    let ghost list = texts(uuids@);
    let mut sql = head.to_owned();
    let mut i: usize = 0;
    assert(sql@ =~= head@ + quoted_list(list.take(0)));
    while i < uuids.len()
        invariant
            list == texts(uuids@),
            i <= uuids.len(),
            sql@ == head@ + quoted_list(list.take(i as int)),
        decreases uuids.len() - i,
    {
        let ghost before = sql@;
        let ghost next = list.take(i + 1);
        if i > 0 {
            sql.append(", ");
        }
        sql.append("'");
        sql.append(uuids[i].as_str());
        sql.append("'");
        proof {
            assert(next.drop_last() =~= list.take(i as int));
            assert(next.last() == list[i as int]);
            if i == 0 {
                assert(quoted_list(list.take(0)) =~= Seq::<char>::empty());
                assert(sql@ =~= head@ + quoted_list(next));
            } else {
                assert(sql@ =~= head@ + (quoted_list(list.take(i as int)) + ", "@ + quoted(
                    next.last(),
                )));
            }
        }
        i += 1;
    }
    assert(list.take(i as int) =~= list);
    sql.append(")");
    sql
}

/// Reads blocks from rows. The first row that cannot be read ends it.
pub fn read_blocks(rows: &Vec<Vec<SqlValue>>) -> (read: Result<Vec<Block>, RowError>)
    ensures
        match read {
            Ok(blocks) => {
                &&& blocks@.len() == rows@.len()
                &&& forall|i: int|
                    0 <= i < rows@.len() ==> {
                        &&& faultless(#[trigger] row_views(rows@)[i], block_kinds())
                        &&& block_row(block_views(blocks@)[i]) == row_views(rows@)[i].take(9)
                    }
            },
            Err(e) => first_bad_row(row_views(rows@), block_kinds(), e),
        },
{
    let ghost views = row_views(rows@);
    let mut blocks: Vec<Block> = Vec::new();
    let mut i: usize = 0;
    while i < rows.len()
        invariant
            views == row_views(rows@),
            i <= rows.len(),
            blocks@.len() == i,
            forall|k: int|
                0 <= k < i ==> {
                    &&& faultless(#[trigger] views[k], block_kinds())
                    &&& block_row(block_views(blocks@)[k]) == views[k].take(9)
                },
        decreases rows.len() - i,
    {
        assert(views[i as int] == value_views(rows@[i as int]@));
        match Block::from_row(&rows[i]) {
            Ok(block) => {
                let ghost before = block_views(blocks@);
                blocks.push(block);
                assert(block_views(blocks@) =~= before.push(block@));
            },
            Err(e) => {
                assert(first_fault(views[i as int], block_kinds(), e));
                return Err(e);
            },
        }
        i += 1;
    }
    Ok(blocks)
}

/// Whether `error` is the fault of the first of some rows that cannot be read.
pub open spec fn first_bad_row(
    rows: Seq<Seq<ValueView>>,
    kinds: Seq<ColumnKind>,
    error: RowError,
) -> bool {
    exists|i: int|
        {
            &&& 0 <= i < rows.len()
            &&& first_fault(#[trigger] rows[i], kinds, error)
            &&& forall|k: int| 0 <= k < i ==> faultless(#[trigger] rows[k], kinds)
        }
}

/// Reads blocks and their pages from rows. The first row that cannot be read
/// ends it.
pub fn read_block_infos(rows: &Vec<Vec<SqlValue>>) -> (read: Result<Vec<BlockInfo>, RowError>)
    ensures
        match read {
            Ok(infos) => {
                &&& infos@.len() == rows@.len()
                &&& forall|i: int|
                    0 <= i < rows@.len() ==> {
                        &&& faultless(#[trigger] row_views(rows@)[i], info_kinds())
                        &&& info_row(info_views(infos@)[i]) == row_views(rows@)[i].take(2)
                    }
            },
            Err(e) => first_bad_row(row_views(rows@), info_kinds(), e),
        },
{
    let ghost views = row_views(rows@);
    let mut infos: Vec<BlockInfo> = Vec::new();
    let mut i: usize = 0;
    while i < rows.len()
        invariant
            views == row_views(rows@),
            i <= rows.len(),
            infos@.len() == i,
            forall|k: int|
                0 <= k < i ==> {
                    &&& faultless(#[trigger] views[k], info_kinds())
                    &&& info_row(info_views(infos@)[k]) == views[k].take(2)
                },
        decreases rows.len() - i,
    {
        assert(views[i as int] == value_views(rows@[i as int]@));
        match BlockInfo::from_row(&rows[i]) {
            Ok(info) => {
                let ghost before = info_views(infos@);
                infos.push(info);
                assert(info_views(infos@) =~= before.push(info@));
            },
            Err(e) => {
                assert(first_fault(views[i as int], info_kinds(), e));
                return Err(e);
            },
        }
        i += 1;
    }
    Ok(infos)
}

/// What a UUID is read as: the first column, a text.
pub open spec fn uuid_kinds() -> Seq<ColumnKind> {
    seq![ColumnKind::Text]
}

/// The UUIDs in the first column of rows.
fn read_uuids(rows: &Vec<Vec<SqlValue>>) -> (read: Result<Vec<String>, RowError>)
    ensures
        match read {
            Ok(uuids) => lists_uuids(row_views(rows@), texts(uuids@)),
            Err(e) => first_bad_row(row_views(rows@), uuid_kinds(), e),
        },
{
    let ghost views = row_views(rows@);
    let mut uuids: Vec<String> = Vec::new();
    let mut i: usize = 0;
    while i < rows.len()
        invariant
            views == row_views(rows@),
            i <= rows.len(),
            lists_uuids(views.take(i as int), texts(uuids@)),
        decreases rows.len() - i,
    {
        let ghost taken = views.take(i as int);
        assert(views[i as int] == value_views(rows@[i as int]@));
        assert forall|k: int| 0 <= k < i implies views[k] == #[trigger] taken[k] by {}
        match get_text(&rows[i], 0) {
            Ok(uuid) => {
                let ghost before = texts(uuids@);
                uuids.push(uuid);
                proof {
                    assert(texts(uuids@) =~= before.push(uuid@));
                    let more = views.take(i + 1);
                    assert forall|k: int| 0 <= k < more.len() implies {
                        &&& (#[trigger] more[k]).len() > 0
                        &&& more[k][0] == ValueView::Text(texts(uuids@)[k])
                    } by {
                        if k < i {
                            assert(more[k] == taken[k]);
                        }
                    }
                }
            },
            Err(e) => {
                proof {
                    let kinds = uuid_kinds();
                    assert(crate::row::fault(views[i as int], 0, kinds[0]) == Some(e));
                    assert(first_fault(views[i as int], kinds, e));
                    assert forall|k: int| 0 <= k < i implies faultless(#[trigger] views[k], kinds) by {
                        assert(taken[k].len() > 0);
                    }
                }
                return Err(e);
            },
        }
        i += 1;
    }
    assert(views.take(i as int) =~= views);
    Ok(uuids)
}

/// Whether `uuids` are the texts in the first column of rows.
pub open spec fn lists_uuids(rows: Seq<Seq<ValueView>>, uuids: Seq<Seq<char>>) -> bool {
    &&& uuids.len() == rows.len()
    &&& forall|i: int|
        0 <= i < rows.len() ==> {
            &&& (#[trigger] rows[i]).len() > 0
            &&& rows[i][0] == ValueView::Text(uuids[i])
        }
}

/// The query for the blocks of the pages whose UUIDs are in the rows.
pub fn blocks_of_recent_journals(conns: &Connections, db: &str, rows: &Vec<Vec<SqlValue>>) -> (query:
    Result<DbQuery, RowError>)
    requires
        conns.wf(),
        conns@.dom().contains(db@),
    ensures
        match query {
            Ok(q) => {
                &&& q.conn == conns@[db@]
                &&& exists|pages: Seq<Seq<char>>| #[trigger]
                    lists_uuids(row_views(rows@), pages) && q.sql@ == query_text(
                        QueryView::BlocksOfPages { pages },
                    ) && q.sql@ == "SELECT * FROM blocks WHERE type = 1 AND page_uuid IN ("@
                        + quoted_list(pages) + ")"@
            },
            Err(e) => first_bad_row(row_views(rows@), uuid_kinds(), e),
        },
{
    match read_uuids(rows) {
        Ok(uuids) => {
            let sql = with_list(SELECT_BLOCKS_OF_PAGES, &uuids);
            assert(lists_uuids(row_views(rows@), texts(uuids@)));
            Ok(DbQuery { conn: conns.connection(db), sql })
        },
        Err(e) => Err(e),
    }
}

} // verus!
