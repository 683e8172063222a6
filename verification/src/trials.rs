//! Two trials of a database from end to end.

use vstd::prelude::*;

use crate::blocks::{
    block_views, fetch_all_blocks, first_bad_row, new_db, new_db_actions, upsert_actions,
    upsert_blocks, Block, BlockInfo, BlockView, NewDb,
};
use crate::connections::Connections;
use crate::row::{
    faultless, first_fault, get_i32, get_optional_blob, get_text, row_views, value_views,
    ColumnKind, RowError, SqlValue, ValueView,
};
use crate::statement::{
    db_action_views, execute_plain, plain, DbAction, DbActionView, DbPlan, DbQuery, Params,
    ParamsView,
};
use crate::table::{query_text, QueryView};

verus! {

/// The database of the first trial.
pub const TRIAL_GRAPH: &'static str = "my-graph";

/// The database of the second trial.
pub const DEMO_DB: &'static str = "demo.db";

/// The rows that the second trial puts in.
pub const DEMO_ROWS: usize = 500;

/// Makes the table of people.
pub const CREATE_PERSON: &'static str = "CREATE TABLE IF NOT EXISTS person (
                  id              INTEGER PRIMARY KEY,
                  name            TEXT NOT NULL,
                  data            BLOB
                  )";

/// Puts one person in.
pub const INSERT_PERSON: &'static str = "INSERT INTO person (name, data) VALUES (?1, ?2)";

/// The first ten people.
pub const SELECT_PEOPLE: &'static str = "SELECT id, name, data FROM person limit 10";

/// What the first trial does with its database, once that is open.
#[derive(Debug)]
pub struct BlockTrial {
    /// Puts the blocks in.
    pub upsert: DbPlan,
    /// Asks for all blocks and their pages.
    pub query: DbQuery,
}

/// What the second trial does with its database.
#[derive(Debug)]
pub struct DemoTrial {
    /// Where a connection is to be opened.
    pub path: String,
    /// Makes the table.
    pub create: DbAction,
    /// Puts the rows in.
    pub inserts: Vec<DbAction>,
    /// Asks for some of them.
    pub query: String,
}

/// A person of the second trial.
#[derive(Debug, PartialEq, Eq)]
pub struct Person {
    pub id: i32,
    pub name: String,
    pub data: Option<Vec<u8>>,
}

/// A block whose texts are all `text`, but for its page, and whose times are
/// both `time`.
pub open spec fn dummy_block(text: Seq<char>, time: i64) -> BlockView {
    BlockView {
        uuid: text,
        block_type: 1,
        page_uuid: "1"@,
        page_journal_day: 1,
        name: text,
        content: text,
        datoms: text,
        created_at: time,
        updated_at: time,
    }
}

/// The blocks of the first trial.
pub open spec fn dummy_block_views() -> Seq<BlockView> {
    seq![dummy_block("1"@, 1), dummy_block("2"@, 2), dummy_block("3"@, 3)]
}

/// One block of the first trial.
fn make_dummy_block(text: &str, time: i64) -> (block: Block)
    ensures
        block@ == dummy_block(text@, time),
{
    Block {
        uuid: text.to_owned(),
        block_type: 1,
        page_uuid: "1".to_owned(),
        page_journal_day: 1,
        name: text.to_owned(),
        content: text.to_owned(),
        datoms: text.to_owned(),
        created_at: time,
        updated_at: time,
    }
}

/// The blocks of the first trial.
pub fn dummy_blocks() -> (blocks: Vec<Block>)
    ensures
        block_views(blocks@) == dummy_block_views(),
{
    let mut blocks: Vec<Block> = Vec::new();
    blocks.push(make_dummy_block("1", 1));
    blocks.push(make_dummy_block("2", 2));
    blocks.push(make_dummy_block("3", 3));
    assert(block_views(blocks@) =~= dummy_block_views());
    blocks
}

/// Begins the first trial: its graph is to be opened.
pub fn begin_block_db_test() -> (new: NewDb)
    ensures
        new.path@ == TRIAL_GRAPH@,
        new.path@ == "my-graph"@,
        db_action_views(new.actions@) == new_db_actions(),
{
    new_db(TRIAL_GRAPH)
}

/// The first trial, on a graph that has been opened: three blocks are put in,
/// and all are asked for.
pub fn block_db_test(conns: &Connections) -> (trial: BlockTrial)
    requires
        conns.wf(),
        conns@.dom().contains(TRIAL_GRAPH@),
    ensures
        trial.upsert.conn == conns@[TRIAL_GRAPH@],
        db_action_views(trial.upsert.actions@) == upsert_actions(dummy_block_views()),
        trial.query.conn == conns@[TRIAL_GRAPH@],
        trial.query.sql@ == query_text(QueryView::AllBlocks),
        trial.query.sql@ == "SELECT uuid, page_uuid FROM blocks WHERE type = 1"@,
{
    let upsert = upsert_blocks(conns, TRIAL_GRAPH, dummy_blocks());
    let query = fetch_all_blocks(conns, TRIAL_GRAPH);
    BlockTrial { upsert, query }
}

/// Whether the first trial has found what it put in: that many blocks.
pub fn block_db_test_passed(blocks: &Vec<BlockInfo>) -> (passed: bool)
    ensures
        passed == (blocks@.len() == dummy_block_views().len()),
        passed == (blocks@.len() == 3),
{
    blocks.len() == 3
}

/// The request that puts the person of the second trial in.
pub open spec fn insertion() -> DbActionView {
    DbActionView::Execute {
        sql: INSERT_PERSON@,
        params: ParamsView::Positional(seq![ValueView::Text("Steven"@), ValueView::Null]),
    }
}

/// The second trial: the same person is put in many times, and some of the
/// rows are asked for.
pub fn rusqlite_test() -> (trial: DemoTrial)
    ensures
        trial.path@ == DEMO_DB@,
        trial.path@ == "demo.db"@,
        trial.create@ == plain(CREATE_PERSON@),
        db_action_views(trial.inserts@) == Seq::new(DEMO_ROWS as nat, |i: int| insertion()),
        trial.inserts@.len() == 500,
        trial.query@ == SELECT_PEOPLE@,
        trial.query@ == "SELECT id, name, data FROM person limit 10"@,
{
    let mut inserts: Vec<DbAction> = Vec::new();
    let mut i: usize = 0;
    assert(db_action_views(inserts@) =~= Seq::new(0, |k: int| insertion()));
    while i < DEMO_ROWS
        invariant
            i <= DEMO_ROWS,
            db_action_views(inserts@) == Seq::new(i as nat, |k: int| insertion()),
        decreases DEMO_ROWS - i,
    {
        let ghost before = db_action_views(inserts@);
        let mut values: Vec<SqlValue> = Vec::new();
        values.push(SqlValue::Text("Steven".to_owned()));
        values.push(SqlValue::Null);
        assert(value_views(values@) =~= seq![ValueView::Text("Steven"@), ValueView::Null]);
        inserts.push(
            DbAction::Execute { sql: INSERT_PERSON.to_owned(), params: Params::Positional(values) },
        );
        assert(db_action_views(inserts@) =~= before.push(insertion()));
        i += 1;
        assert(db_action_views(inserts@) =~= Seq::new(i as nat, |k: int| insertion()));
    }
    assert(inserts@.len() == db_action_views(inserts@).len());
    DemoTrial {
        path: DEMO_DB.to_owned(),
        create: execute_plain(CREATE_PERSON),
        inserts,
        query: SELECT_PEOPLE.to_owned(),
    }
}

/// What the columns of a person are read as.
pub open spec fn person_kinds() -> Seq<ColumnKind> {
    seq![ColumnKind::Int32, ColumnKind::Text, ColumnKind::OptionalBlob]
}

/// The columns of a person.
pub open spec fn person_row(person: Person) -> Seq<ValueView> {
    seq![
        ValueView::Integer(person.id as i64),
        ValueView::Text(person.name@),
        match person.data {
            Some(bytes) => ValueView::Blob(bytes@),
            None => ValueView::Null,
        },
    ]
}

impl Person {
    /// Reads a person from the first three columns.
    pub fn from_row(row: &Vec<SqlValue>) -> (read: Result<Person, RowError>)
        ensures
            match read {
                Ok(person) => {
                    &&& faultless(value_views(row@), person_kinds())
                    &&& person_row(person) == value_views(row@).take(3)
                    &&& row@.len() >= 3
                    &&& row@[0]@ == ValueView::Integer(person.id as i64)
                    &&& row@[1]@ == ValueView::Text(person.name@)
                    &&& row@[2]@ == match person.data {
                        Some(bytes) => ValueView::Blob(bytes@),
                        None => ValueView::Null,
                    }
                },
                Err(e) => first_fault(value_views(row@), person_kinds(), e),
            },
    {
        let ghost kinds = person_kinds();
        let ghost views = value_views(row@);
        assert(kinds.len() == 3);
        let id = match get_i32(row, 0) {
            Ok(v) => v,
            Err(e) => {
                assert(crate::row::fault(views, 0, kinds[0]) == Some(e));
                return Err(e);
            },
        };
        let name = match get_text(row, 1) {
            Ok(v) => v,
            Err(e) => {
                assert(crate::row::fault(views, 1, kinds[1]) == Some(e));
                return Err(e);
            },
        };
        let data = match get_optional_blob(row, 2) {
            Ok(v) => v,
            Err(e) => {
                assert(crate::row::fault(views, 2, kinds[2]) == Some(e));
                return Err(e);
            },
        };
        let person = Person { id, name, data };
        proof {
            assert(person_row(person) =~= views.take(3));
            assert(views[0] == row@[0]@ && views[1] == row@[1]@ && views[2] == row@[2]@);
        }
        Ok(person)
    }
}

/// Reads the people that the second trial finds. The first row that cannot be
/// read ends it.
pub fn read_people(rows: &Vec<Vec<SqlValue>>) -> (read: Result<Vec<Person>, RowError>)
    ensures
        match read {
            Ok(people) => {
                &&& people@.len() == rows@.len()
                &&& forall|i: int|
                    0 <= i < rows@.len() ==> {
                        &&& faultless(#[trigger] row_views(rows@)[i], person_kinds())
                        &&& person_row(people@[i]) == row_views(rows@)[i].take(3)
                    }
            },
            Err(e) => first_bad_row(row_views(rows@), person_kinds(), e),
        },
{
    let ghost views = row_views(rows@);
    let mut people: Vec<Person> = Vec::new();
    let mut i: usize = 0;
    while i < rows.len()
        invariant
            views == row_views(rows@),
            i <= rows.len(),
            people@.len() == i,
            forall|k: int|
                0 <= k < i ==> {
                    &&& faultless(#[trigger] views[k], person_kinds())
                    &&& person_row(people@[k]) == views[k].take(3)
                },
        decreases rows.len() - i,
    {
        assert(views[i as int] == value_views(rows@[i as int]@));
        match Person::from_row(&rows[i]) {
            Ok(person) => {
                people.push(person);
            },
            Err(e) => {
                assert(first_fault(views[i as int], person_kinds(), e));
                return Err(e);
            },
        }
        i += 1;
    }
    Ok(people)
}

/// The blocks of the first trial are three, of type 1, on the page and the day
/// 1; the texts of each are its number, and so are its times.
pub proof fn law_trial_blocks()
    ensures
        dummy_block_views().len() == 3,
        forall|i: int|
            0 <= i < 3 ==> {
                let block = #[trigger] dummy_block_views()[i];
                let text = if i == 0 {
                    "1"@
                } else if i == 1 {
                    "2"@
                } else {
                    "3"@
                };
                &&& block.uuid == text
                &&& block.block_type == 1
                &&& block.page_uuid == "1"@
                &&& block.page_journal_day == 1
                &&& block.name == text
                &&& block.content == text
                &&& block.datoms == text
                &&& block.created_at == i + 1
                &&& block.updated_at == i + 1
            },
{
}

/// What the second trial asks of its database: to make the table of people, to
/// put one person in, without data, and to give the first ten.
pub proof fn law_second_trial_is_worded_so()
    ensures
        CREATE_PERSON@ == "CREATE TABLE IF NOT EXISTS person (
                  id              INTEGER PRIMARY KEY,
                  name            TEXT NOT NULL,
                  data            BLOB
                  )"@,
        SELECT_PEOPLE@ == "SELECT id, name, data FROM person limit 10"@,
        insertion() == (DbActionView::Execute {
            sql: "INSERT INTO person (name, data) VALUES (?1, ?2)"@,
            params: ParamsView::Positional(seq![ValueView::Text("Steven"@), ValueView::Null]),
        }),
        plain(CREATE_PERSON@) == (DbActionView::Execute {
            sql: CREATE_PERSON@,
            params: ParamsView::Positional(Seq::<ValueView>::empty()),
        }),
{
}

/// A person is read from the first three columns: the number, the name and the
/// data, which may be missing.
pub proof fn law_people_are_read_from_three_columns(person: Person, row: Seq<ValueView>)
    requires
        row.len() >= 3,
    ensures
        person_row(person) == row.take(3) <==> {
            &&& row[0] == ValueView::Integer(person.id as i64)
            &&& row[1] == ValueView::Text(person.name@)
            &&& person.data is None ==> row[2] is Null
            &&& person.data is Some ==> row[2] == ValueView::Blob(person.data->0@)
        },
        faultless(row, person_kinds()) <==> {
            &&& row[0] is Integer && -0x8000_0000 <= row[0]->Integer_0 < 0x8000_0000
            &&& row[1] is Text
            &&& row[2] is Null || row[2] is Blob
        },
{
    let columns = person_row(person);
    let kinds = person_kinds();
    if columns == row.take(3) {
        assert forall|k: int| 0 <= k < 3 implies #[trigger] row[k] == columns[k] by {
            assert(row.take(3)[k] == columns[k]);
        }
    } else if row[0] == columns[0] && row[1] == columns[1] && row[2] == columns[2] {
        assert(columns =~= row.take(3));
    }
    if faultless(row, kinds) {
        assert(crate::row::fault(row, 0, kinds[0]) is None);
        assert(crate::row::fault(row, 1, kinds[1]) is None);
        assert(crate::row::fault(row, 2, kinds[2]) is None);
    }
}

} // verus!
