//! What the requests of the library do to the table of blocks, and what its
//! queries give of it.

use vstd::prelude::*;

use crate::blocks::{
    block_columns, block_kinds, quoted_list, CREATE_BLOCKS, CREATE_INDEX, DELETE_BLOCK,
    SELECT_BLOCKS_OF_PAGES, SELECT_BLOCK_INFOS, SELECT_INIT_DATA, SELECT_OTHER_BLOCKS,
    SELECT_PAGES, SELECT_RECENT_JOURNALS, UPSERT_BLOCK,
};
use crate::row::{faultless, ValueView};
use crate::statement::{DbActionView, ParamsView};

verus! {

/// A database: whether it has the table of blocks, and the rows of that by
/// their UUIDs.
#[verifier::ext_equal]
pub struct TableView {
    pub made: bool,
    pub rows: Map<Seq<char>, Seq<ValueView>>,
}

/// The UUID of a row.
pub open spec fn row_uuid(row: Seq<ValueView>) -> Seq<char> {
    match row[0] {
        ValueView::Text(uuid) => uuid,
        _ => Seq::empty(),
    }
}

/// The type of the block in a row.
pub open spec fn row_type(row: Seq<ValueView>) -> int {
    match row[1] {
        ValueView::Integer(n) => n as int,
        _ => -1,
    }
}

/// The day of the page in a row.
pub open spec fn row_day(row: Seq<ValueView>) -> int {
    match row[3] {
        ValueView::Integer(n) => n as int,
        _ => -1,
    }
}

/// The page of the block in a row.
pub open spec fn row_page(row: Seq<ValueView>) -> Seq<char> {
    match row[2] {
        ValueView::Text(uuid) => uuid,
        _ => Seq::empty(),
    }
}

impl TableView {
    /// A database without the table.
    pub open spec fn empty() -> TableView {
        TableView { made: false, rows: Map::empty() }
    }

    /// The table of a database is sound: every row has the columns of a block
    /// and stands under its UUID, and no two blocks have the same name.
    pub open spec fn wf(self) -> bool {
        &&& !self.made ==> self.rows == Map::<Seq<char>, Seq<ValueView>>::empty()
        &&& forall|u: Seq<char>| #[trigger]
            self.rows.dom().contains(u) ==> {
                &&& self.rows[u].len() == 9
                &&& faultless(self.rows[u], block_kinds())
                &&& self.rows[u][0] == ValueView::Text(u)
            }
        &&& forall|u: Seq<char>, v: Seq<char>|
            #![trigger self.rows.dom().contains(u), self.rows.dom().contains(v)]
            self.rows.dom().contains(u) && self.rows.dom().contains(v) && u != v ==> self.rows[u][4]
                != self.rows[v][4]
    }
}

/// Where the value of a name stands among those that are given.
pub open spec fn place_of(params: Seq<(Seq<char>, ValueView)>, name: Seq<char>) -> int {
    choose|k: int| 0 <= k < params.len() && (#[trigger] params[k]).0 == name
}

/// The row that is put in with values: in each column that which is given
/// under its name.
pub open spec fn row_of(params: Seq<(Seq<char>, ValueView)>) -> Seq<ValueView> {
    Seq::new(9, |i: int| params[place_of(params, "@"@ + block_columns()[i])].1)
}

/// Whether another row has the name of a row.
pub open spec fn name_taken(rows: Map<Seq<char>, Seq<ValueView>>, row: Seq<ValueView>) -> bool {
    exists|u: Seq<char>| #[trigger]
        rows.dom().contains(u) && u != row_uuid(row) && rows[u][4] == row[4]
}

/// The table after a row of a block has been put in, in place of the one of
/// the same UUID. It cannot be where another row has its name.
pub open spec fn upserted(table: TableView, row: Seq<ValueView>) -> Option<TableView> {
    if table.made && faultless(row, block_kinds()) && !name_taken(table.rows, row) {
        Some(TableView { rows: table.rows.insert(row_uuid(row), row), ..table })
    } else {
        None
    }
}

/// The table after a statement. There is none where the statement fails, or is
/// not one that the library makes.
pub open spec fn executed(
    table: TableView,
    sql: Seq<char>,
    params: ParamsView,
) -> Option<TableView> {
    match params {
        ParamsView::Named(params) => {
            if sql == UPSERT_BLOCK@ {
                upserted(table, row_of(params))
            } else {
                None
            }
        },
        ParamsView::Positional(values) => {
            if values.len() == 0 && sql == CREATE_BLOCKS@ {
                Some(TableView { made: true, ..table })
            } else if values.len() == 0 && sql == CREATE_INDEX@ && table.made {
                Some(table)
            } else if values.len() == 1 && sql == DELETE_BLOCK@ && table.made && values[0] is Text {
                Some(TableView { rows: table.rows.remove(row_uuid(values)), ..table })
            } else {
                None
            }
        },
    }
}

/// A database while requests are made on it.
pub struct RunView {
    /// The table that lasts: what it is when the connection is lost now.
    pub kept: TableView,
    /// The table as the open transaction has it, if there is one.
    pub pending: Option<TableView>,
    /// Whether all requests so far have succeeded.
    pub done: bool,
}

/// The database after one more request. A statement outside a transaction
/// lasts at once, one inside it when the transaction is committed. A request
/// that fails drops the transaction.
pub open spec fn stepped(run: RunView, action: DbActionView) -> RunView {
    let failed = RunView { pending: None, done: false, ..run };
    match action {
        DbActionView::Begin => match run.pending {
            Some(_) => failed,
            None => RunView { pending: Some(run.kept), ..run },
        },
        DbActionView::Commit => match run.pending {
            Some(table) => RunView { kept: table, pending: None, ..run },
            None => failed,
        },
        DbActionView::Execute { sql, params } => match run.pending {
            Some(table) => match executed(table, sql, params) {
                Some(after) => RunView { pending: Some(after), ..run },
                None => failed,
            },
            None => match executed(run.kept, sql, params) {
                Some(after) => RunView { kept: after, ..run },
                None => failed,
            },
        },
    }
}

/// The database after requests in order, up to the first that fails.
pub open spec fn run(table: TableView, actions: Seq<DbActionView>) -> RunView
    decreases actions.len(),
{
    if actions.len() == 0 {
        RunView { kept: table, pending: None, done: true }
    } else {
        let before = run(table, actions.drop_last());
        if before.done {
            stepped(before, actions.last())
        } else {
            before
        }
    }
}

/// The table that lasts after an operation, whether it succeeded or not. A
/// transaction that was not committed leaves nothing.
pub open spec fn committed(table: TableView, actions: Seq<DbActionView>) -> TableView {
    run(table, actions).kept
}

/// The table after an operation that succeeds; none where it fails.
pub open spec fn applied_all(table: TableView, actions: Seq<DbActionView>) -> Option<TableView> {
    if run(table, actions).done {
        Some(committed(table, actions))
    } else {
        None
    }
}

/// A query of the library.
pub enum QueryView {
    /// All pages.
    AllPages,
    /// All blocks, with their pages.
    AllBlocks,
    /// The latest pages.
    RecentJournals,
    /// What is needed at the start.
    InitData,
    /// The blocks of some pages.
    BlocksOfPages { pages: Seq<Seq<char>> },
    /// All blocks but some.
    OtherBlocks { excluded: Seq<Seq<char>> },
}

/// The text of a query.
pub open spec fn query_text(query: QueryView) -> Seq<char> {
    match query {
        QueryView::AllPages => SELECT_PAGES@,
        QueryView::AllBlocks => SELECT_BLOCK_INFOS@,
        QueryView::RecentJournals => SELECT_RECENT_JOURNALS@,
        QueryView::InitData => SELECT_INIT_DATA@,
        QueryView::BlocksOfPages { pages } => SELECT_BLOCKS_OF_PAGES@ + quoted_list(pages) + ")"@,
        QueryView::OtherBlocks { excluded } => SELECT_OTHER_BLOCKS@ + quoted_list(excluded)
            + ")"@,
    }
}

/// Whether a query can take a row. Its lists hold no quotes.
pub open spec fn selects(query: QueryView, row: Seq<ValueView>) -> bool {
    match query {
        QueryView::AllPages => row_type(row) == 2,
        QueryView::AllBlocks => row_type(row) == 1,
        QueryView::RecentJournals => row_type(row) == 2,
        QueryView::InitData => 3 <= row_type(row) <= 6,
        QueryView::BlocksOfPages { pages } => row_type(row) == 1 && pages.contains(row_page(row)),
        QueryView::OtherBlocks { excluded } => row_type(row) == 1 && !excluded.contains(
            row_uuid(row),
        ),
    }
}

/// What a query gives of a row that it takes.
pub open spec fn given(query: QueryView, row: Seq<ValueView>) -> Seq<ValueView> {
    match query {
        QueryView::AllBlocks => seq![row[0], row[2]],
        QueryView::RecentJournals => seq![row[0]],
        _ => row,
    }
}

/// The number of pages that are recent.
pub const RECENT_PAGES: usize = 3;

/// Whether there is a page of that UUID.
pub open spec fn is_page(table: TableView, uuid: Seq<char>) -> bool {
    table.rows.dom().contains(uuid) && selects(QueryView::RecentJournals, table.rows[uuid])
}

/// Whether `order` lists the latest pages, each once, the latest first: as many
/// as are recent, or all where there are fewer. No page that is left out has a
/// later day than one that is taken.
pub open spec fn lists_latest(table: TableView, order: Seq<Seq<char>>) -> bool {
    &&& order.no_duplicates()
    &&& order.len() <= RECENT_PAGES
    &&& forall|i: int| 0 <= i < order.len() ==> is_page(table, #[trigger] order[i])
    &&& order.len() < RECENT_PAGES ==> forall|u: Seq<char>| #[trigger]
        is_page(table, u) ==> order.contains(u)
    &&& forall|i: int, k: int|
        0 <= i < k < order.len() ==> row_day(table.rows[#[trigger] order[i]]) >= row_day(
            table.rows[#[trigger] order[k]],
        )
    &&& forall|u: Seq<char>, i: int| #[trigger]
        is_page(table, u) && !order.contains(u) && 0 <= i < order.len() ==> row_day(table.rows[u])
            <= row_day(table.rows[#[trigger] order[i]])
}

/// Whether `order` lists the rows that a query takes, each once.
pub open spec fn lists_selected(
    table: TableView,
    query: QueryView,
    order: Seq<Seq<char>>,
) -> bool {
    match query {
        QueryView::RecentJournals => lists_latest(table, order),
        _ => {
            &&& order.no_duplicates()
            &&& forall|u: Seq<char>| #[trigger]
                order.contains(u) <==> table.rows.dom().contains(u) && selects(
                    query,
                    table.rows[u],
                )
        },
    }
}

/// Whether `result` is what a query gives: of each row that it takes, once, in
/// some order; the latest pages come latest first.
pub open spec fn gives(table: TableView, query: QueryView, result: Seq<Seq<ValueView>>) -> bool {
    exists|order: Seq<Seq<char>>| #[trigger]
        lists_selected(table, query, order) && result == order.map_values(
            |u: Seq<char>| given(query, table.rows[u]),
        )
}

} // verus!
