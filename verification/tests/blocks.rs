use rusqlite::types::{Value, ValueRef};
use rusqlite::Connection;

use logseq_sqlite::blocks::{
    blocks_of_recent_journals, delete_blocks, fetch_all_blocks, fetch_all_pages,
    fetch_blocks_excluding, fetch_init_data, fetch_recent_journals, finish_new_db, new_db,
    read_block_infos, read_blocks, upsert_blocks, Block, BlockInfo,
};
use logseq_sqlite::connections::Connections;
use logseq_sqlite::row::{RowError, SqlValue};
use logseq_sqlite::statement::{DbAction, Params};
use logseq_sqlite::trials;

fn bound(value: &SqlValue) -> Value {
    match value {
        SqlValue::Null => Value::Null,
        SqlValue::Integer(n) => Value::Integer(*n),
        SqlValue::Real(bits) => Value::Real(f64::from_bits(*bits)),
        SqlValue::Text(s) => Value::Text(s.clone()),
        SqlValue::Blob(b) => Value::Blob(b.clone()),
    }
}

fn perform(conn: &Connection, actions: &[DbAction]) {
    for action in actions {
        match action {
            DbAction::Begin => conn.execute_batch("BEGIN").unwrap(),
            DbAction::Commit => conn.execute_batch("COMMIT").unwrap(),
            DbAction::Execute { sql, params: Params::Positional(values) } => {
                let values: Vec<Value> = values.iter().map(bound).collect();
                conn.execute(sql, rusqlite::params_from_iter(values)).unwrap();
            }
            DbAction::Execute { sql, params: Params::Named(params) } => {
                let values: Vec<(&str, Value)> =
                    params.iter().map(|(n, v)| (n.as_str(), bound(v))).collect();
                let values: Vec<(&str, &dyn rusqlite::ToSql)> =
                    values.iter().map(|(n, v)| (*n, v as &dyn rusqlite::ToSql)).collect();
                conn.execute(sql, &values[..]).unwrap();
            }
        }
    }
}

fn rows(conn: &Connection, sql: &str) -> Vec<Vec<SqlValue>> {
    let mut stmt = conn.prepare(sql).unwrap();
    let width = stmt.column_count();
    let mut found = stmt.query([]).unwrap();
    let mut all = Vec::new();
    while let Some(row) = found.next().unwrap() {
        let mut values = Vec::new();
        for i in 0..width {
            values.push(match row.get_ref(i).unwrap() {
                ValueRef::Null => SqlValue::Null,
                ValueRef::Integer(n) => SqlValue::Integer(n),
                ValueRef::Real(x) => SqlValue::Real(x.to_bits()),
                ValueRef::Text(t) => SqlValue::Text(String::from_utf8(t.to_vec()).unwrap()),
                ValueRef::Blob(b) => SqlValue::Blob(b.to_vec()),
            });
        }
        all.push(values);
    }
    all
}

/// A database in memory, which is connection 7.
fn open(db: &str) -> (Connections, Connection) {
    let new = new_db(db);
    assert_eq!(new.path, db);
    let conn = Connection::open_in_memory().unwrap();
    perform(&conn, &new.actions);
    let mut conns = Connections::new();
    assert!(!conns.is_open(db));
    finish_new_db(&mut conns, db, 7);
    assert!(conns.is_open(db));
    (conns, conn)
}

fn block(uuid: &str, block_type: i32, page_uuid: &str, day: i32) -> Block {
    Block {
        uuid: uuid.to_string(),
        block_type,
        page_uuid: page_uuid.to_string(),
        page_journal_day: day,
        name: format!("name of {}", uuid),
        content: format!("it's {} \"ü\"", uuid),
        datoms: format!("[{}]", uuid),
        created_at: i64::MIN + day as i64,
        updated_at: i64::MAX,
    }
}

fn uuids(blocks: &[Block]) -> Vec<&str> {
    blocks.iter().map(|b| b.uuid.as_str()).collect()
}

#[test]
fn block_db_test() {
    let new = trials::begin_block_db_test();
    assert_eq!(new.path, "my-graph");
    let conn = Connection::open_in_memory().unwrap();
    perform(&conn, &new.actions);
    let mut conns = Connections::new();
    finish_new_db(&mut conns, &new.path, 7);
    let trial = trials::block_db_test(&conns);
    assert_eq!(trial.upsert.conn, 7);
    perform(&conn, &trial.upsert.actions);
    assert_eq!(trial.query.conn, 7);
    let blocks = read_block_infos(&rows(&conn, &trial.query.sql)).unwrap();
    assert_eq!(blocks.len(), 3);
    assert!(trials::block_db_test_passed(&blocks));
    assert!(!trials::block_db_test_passed(&Vec::new()));
    assert_eq!(
        blocks[1],
        BlockInfo { uuid: "2".to_string(), page_uuid: "1".to_string() }
    );
    let dummies = trials::dummy_blocks();
    assert_eq!(uuids(&dummies), vec!["1", "2", "3"]);
    assert_eq!(
        dummies[2],
        Block {
            uuid: "3".to_string(),
            block_type: 1,
            page_uuid: "1".to_string(),
            page_journal_day: 1,
            name: "3".to_string(),
            content: "3".to_string(),
            datoms: "3".to_string(),
            created_at: 3,
            updated_at: 3,
        }
    );
}

#[test]
fn rusqlite_test() {
    let trial = trials::rusqlite_test();
    assert_eq!(trial.path, "demo.db");
    assert_eq!(trial.inserts.len(), 500);
    let conn = Connection::open_in_memory().unwrap();
    perform(&conn, &[trial.create]);
    perform(&conn, &trial.inserts);
    let people = trials::read_people(&rows(&conn, &trial.query)).unwrap();
    assert_eq!(people.len(), 10);
    assert_eq!(
        people[0],
        trials::Person { id: 1, name: "Steven".to_string(), data: None }
    );
    assert_eq!(people[9].id, 10);
    assert_eq!(
        rows(&conn, "SELECT count(*) FROM person"),
        vec![vec![SqlValue::Integer(500)]]
    );
}

#[test]
fn a_stored_block_is_read_back() {
    let (conns, conn) = open("g");
    let stored = || vec![block("u", 2, "p", -5), block("v", 2, "", i32::MAX)];
    let plan = upsert_blocks(&conns, "g", stored());
    assert_eq!(plan.conn, 7);
    assert_eq!(plan.actions.len(), 4);
    perform(&conn, &plan.actions);
    let query = fetch_all_pages(&conns, "g");
    assert_eq!(query.conn, 7);
    let blocks = read_blocks(&rows(&conn, &query.sql)).unwrap();
    assert_eq!(blocks, stored());
}

#[test]
fn a_block_is_put_in_the_place_of_the_same_uuid() {
    let (conns, conn) = open("g");
    perform(&conn, &upsert_blocks(&conns, "g", vec![block("u", 2, "p", 1)]).actions);
    let mut changed = block("u", 2, "q", 9);
    changed.name = "another".to_string();
    perform(&conn, &upsert_blocks(&conns, "g", vec![changed]).actions);
    let blocks = read_blocks(&rows(&conn, &fetch_all_pages(&conns, "g").sql)).unwrap();
    assert_eq!(blocks.len(), 1);
    assert_eq!(blocks[0].page_uuid, "q");
    assert_eq!(blocks[0].page_journal_day, 9);
    assert_eq!(blocks[0].name, "another");
}

#[test]
fn no_blocks_are_put_in() {
    let (conns, conn) = open("g");
    let plan = upsert_blocks(&conns, "g", Vec::new());
    assert_eq!(plan.actions, vec![DbAction::Begin, DbAction::Commit]);
    perform(&conn, &plan.actions);
}

#[test]
fn the_values_of_a_block_have_names() {
    let (conns, _) = open("g");
    let plan = upsert_blocks(&conns, "g", vec![block("u", 3, "p", 4)]);
    match &plan.actions[1] {
        DbAction::Execute { params: Params::Named(params), .. } => {
            let names: Vec<&str> = params.iter().map(|p| p.0.as_str()).collect();
            assert_eq!(
                names,
                vec![
                    "@uuid",
                    "@type",
                    "@page_uuid",
                    "@page_journal_day",
                    "@name",
                    "@content",
                    "@datoms",
                    "@created_at",
                    "@updated_at"
                ]
            );
            assert_eq!(params[1].1, SqlValue::Integer(3));
            assert_eq!(params[2].1, SqlValue::Text("p".to_string()));
        }
        other => panic!("{:?}", other),
    }
}

#[test]
fn blocks_are_deleted() {
    let (conns, conn) = open("g");
    let all = vec![block("a", 1, "p", 1), block("b", 1, "p", 2), block("c", 1, "p", 3)];
    perform(&conn, &upsert_blocks(&conns, "g", all).actions);
    let plan = delete_blocks(&conns, "g", vec!["a".to_string(), "c".to_string(), "x".to_string()]);
    assert_eq!(plan.conn, 7);
    assert_eq!(plan.actions.len(), 3);
    assert_eq!(
        plan.actions[1],
        DbAction::Execute {
            sql: "DELETE FROM blocks WHERE uuid = ?".to_string(),
            params: Params::Positional(vec![SqlValue::Text("c".to_string())]),
        }
    );
    perform(&conn, &plan.actions);
    let infos = read_block_infos(&rows(&conn, &fetch_all_blocks(&conns, "g").sql)).unwrap();
    assert_eq!(infos, vec![BlockInfo { uuid: "b".to_string(), page_uuid: "p".to_string() }]);
    assert!(delete_blocks(&conns, "g", Vec::new()).actions.is_empty());
}

#[test]
fn blocks_are_fetched_by_type() {
    let (conns, conn) = open("g");
    let mut all = Vec::new();
    for t in 1..8 {
        all.push(block(&format!("u{}", t), t, "p", t));
    }
    perform(&conn, &upsert_blocks(&conns, "g", all).actions);
    let pages = read_blocks(&rows(&conn, &fetch_all_pages(&conns, "g").sql)).unwrap();
    assert_eq!(uuids(&pages), vec!["u2"]);
    let mut data = read_blocks(&rows(&conn, &fetch_init_data(&conns, "g").sql)).unwrap();
    data.sort_by(|a, b| a.uuid.cmp(&b.uuid));
    assert_eq!(uuids(&data), vec!["u3", "u4", "u5", "u6"]);
    assert_eq!(fetch_init_data(&conns, "g").conn, 7);
}

#[test]
fn some_blocks_are_excluded() {
    let (conns, conn) = open("g");
    let all = vec![
        block("a", 1, "p", 1),
        block("b", 1, "p", 2),
        block("c", 1, "p", 3),
        block("d", 2, "p", 3),
    ];
    perform(&conn, &upsert_blocks(&conns, "g", all).actions);
    let excluded = vec!["a".to_string(), "c".to_string()];
    let query = fetch_blocks_excluding(&conns, "g", &excluded);
    assert_eq!(query.conn, 7);
    assert_eq!(
        query.sql,
        "SELECT * FROM blocks WHERE type = 1 AND uuid NOT IN ('a', 'c')"
    );
    let blocks = read_blocks(&rows(&conn, &query.sql)).unwrap();
    assert_eq!(uuids(&blocks), vec!["b"]);

    let query = fetch_blocks_excluding(&conns, "g", &Vec::new());
    assert_eq!(query.sql, "SELECT * FROM blocks WHERE type = 1 AND uuid NOT IN ()");
    assert_eq!(read_blocks(&rows(&conn, &query.sql)).unwrap().len(), 3);
    let query = fetch_blocks_excluding(&conns, "g", &vec!["b".to_string()]);
    assert_eq!(query.sql, "SELECT * FROM blocks WHERE type = 1 AND uuid NOT IN ('b')");
}

#[test]
fn the_blocks_of_recent_journals() {
    let (conns, conn) = open("g");
    let mut all = Vec::new();
    for day in 1..6 {
        all.push(block(&format!("page{}", day), 2, "", day));
        all.push(block(&format!("block{}", day), 1, &format!("page{}", day), 0));
    }
    perform(&conn, &upsert_blocks(&conns, "g", all).actions);
    let first = fetch_recent_journals(&conns, "g");
    assert_eq!(first.conn, 7);
    let found = rows(&conn, &first.sql);
    let second = blocks_of_recent_journals(&conns, "g", &found).unwrap();
    assert_eq!(second.conn, 7);
    assert_eq!(
        second.sql,
        "SELECT * FROM blocks WHERE type = 1 AND page_uuid IN ('page5', 'page4', 'page3')"
    );
    let mut blocks = read_blocks(&rows(&conn, &second.sql)).unwrap();
    blocks.sort_by(|a, b| a.uuid.cmp(&b.uuid));
    assert_eq!(uuids(&blocks), vec!["block3", "block4", "block5"]);

    let none = blocks_of_recent_journals(&conns, "g", &Vec::new()).unwrap();
    assert_eq!(none.sql, "SELECT * FROM blocks WHERE type = 1 AND page_uuid IN ()");
    let bad = vec![vec![SqlValue::Text("a".to_string())], vec![SqlValue::Integer(1)]];
    assert_eq!(
        blocks_of_recent_journals(&conns, "g", &bad).unwrap_err(),
        RowError::InvalidColumnType(0)
    );
}

#[test]
fn each_database_has_its_connection() {
    let (mut conns, _) = open("g");
    finish_new_db(&mut conns, "h", 8);
    assert_eq!(fetch_all_pages(&conns, "g").conn, 7);
    assert_eq!(fetch_all_pages(&conns, "h").conn, 8);
    assert_eq!(fetch_all_blocks(&conns, "h").conn, 8);
    assert_eq!(fetch_recent_journals(&conns, "h").conn, 8);
    finish_new_db(&mut conns, "g", 9);
    assert_eq!(conns.connection("g"), 9);
    assert_eq!(conns.connection("h"), 8);
}

fn good_row() -> Vec<SqlValue> {
    vec![
        SqlValue::Text("u".to_string()),
        SqlValue::Integer(1),
        SqlValue::Text("p".to_string()),
        SqlValue::Integer(2),
        SqlValue::Text("n".to_string()),
        SqlValue::Text("c".to_string()),
        SqlValue::Text("d".to_string()),
        SqlValue::Integer(3),
        SqlValue::Integer(i64::MAX),
    ]
}

#[test]
fn columns_that_cannot_be_read() {
    let read = |row: Vec<SqlValue>| Block::from_row(&row);
    assert_eq!(read(good_row()).unwrap().updated_at, i64::MAX);

    let mut row = good_row();
    row[2] = SqlValue::Null;
    assert_eq!(read(row).unwrap_err(), RowError::InvalidColumnType(2));
    let mut row = good_row();
    row[3] = SqlValue::Real(0);
    row[4] = SqlValue::Null;
    assert_eq!(read(row).unwrap_err(), RowError::InvalidColumnType(3));
    let mut row = good_row();
    row[1] = SqlValue::Integer(1 << 31);
    assert_eq!(
        read(row).unwrap_err(),
        RowError::IntegralValueOutOfRange(1, 1 << 31)
    );
    let mut row = good_row();
    row[1] = SqlValue::Integer(i32::MIN as i64);
    assert_eq!(read(row).unwrap().block_type, i32::MIN);
    let mut row = good_row();
    row.pop();
    assert_eq!(read(row).unwrap_err(), RowError::InvalidColumnIndex(8));
    assert_eq!(read(Vec::new()).unwrap_err(), RowError::InvalidColumnIndex(0));
    let mut row = good_row();
    row[0] = SqlValue::Blob(vec![b'u']);
    assert_eq!(read(row).unwrap_err(), RowError::InvalidColumnType(0));
    let mut row = good_row();
    row.push(SqlValue::Null);
    assert_eq!(read(row).unwrap().uuid, "u");

    let mut bad = good_row();
    bad[8] = SqlValue::Text("3".to_string());
    assert_eq!(
        read_blocks(&vec![good_row(), bad, Vec::new()]).unwrap_err(),
        RowError::InvalidColumnType(8)
    );
    assert_eq!(
        read_block_infos(&vec![vec![SqlValue::Text("u".to_string())]]).unwrap_err(),
        RowError::InvalidColumnIndex(1)
    );
}

#[test]
fn columns_are_read_as_rusqlite_reads_them() {
    let conn = Connection::open_in_memory().unwrap();
    let values = vec![
        SqlValue::Null,
        SqlValue::Integer(0),
        SqlValue::Integer(i32::MAX as i64),
        SqlValue::Integer(i32::MAX as i64 + 1),
        SqlValue::Integer(i32::MIN as i64 - 1),
        SqlValue::Integer(i64::MIN),
        SqlValue::Real(1.5f64.to_bits()),
        SqlValue::Text("5".to_string()),
        SqlValue::Blob(vec![5]),
    ];
    let mut stmt = conn.prepare("SELECT ?1").unwrap();
    for value in &values {
        let row = vec![match value {
            SqlValue::Null => SqlValue::Null,
            SqlValue::Integer(n) => SqlValue::Integer(*n),
            SqlValue::Real(b) => SqlValue::Real(*b),
            SqlValue::Text(s) => SqlValue::Text(s.clone()),
            SqlValue::Blob(b) => SqlValue::Blob(b.clone()),
        }];
        let outside = |e: rusqlite::Error| match e {
            rusqlite::Error::InvalidColumnType(i, _, _) => RowError::InvalidColumnType(i),
            rusqlite::Error::IntegralValueOutOfRange(i, n) => {
                RowError::IntegralValueOutOfRange(i, n)
            }
            rusqlite::Error::InvalidColumnIndex(i) => RowError::InvalidColumnIndex(i),
            other => panic!("{:?}", other),
        };
        let mut found = stmt.query([bound(value)]).unwrap();
        let r = found.next().unwrap().unwrap();
        assert_eq!(
            logseq_sqlite::row::get_text(&row, 0),
            r.get::<usize, String>(0).map_err(outside)
        );
        assert_eq!(
            logseq_sqlite::row::get_i32(&row, 0),
            r.get::<usize, i32>(0).map_err(outside)
        );
        assert_eq!(
            logseq_sqlite::row::get_i64(&row, 0),
            r.get::<usize, i64>(0).map_err(outside)
        );
        assert_eq!(
            logseq_sqlite::row::get_optional_blob(&row, 0),
            r.get::<usize, Option<Vec<u8>>>(0).map_err(outside)
        );
        assert_eq!(
            logseq_sqlite::row::get_text(&row, 1),
            r.get::<usize, String>(1).map_err(outside)
        );
    }
}

#[test]
fn different_lists_make_different_queries() {
    let (conns, _) = open("g");
    let sql = |list: &[&str]| {
        let list: Vec<String> = list.iter().map(|s| s.to_string()).collect();
        fetch_blocks_excluding(&conns, "g", &list).sql
    };
    let lists: [&[&str]; 6] = [&[], &[""], &["a"], &["a", "b"], &["a, b"], &["b", "a"]];
    for i in 0..lists.len() {
        for k in 0..lists.len() {
            assert_eq!(sql(lists[i]) == sql(lists[k]), i == k);
        }
    }
}

#[test]
fn blocks_put_in_twice_are_there_once() {
    let (conns, conn) = open("g");
    let all = || vec![block("a", 1, "p", 1), block("b", 2, "p", 2), block("c", 2, "q", 3)];
    perform(&conn, &upsert_blocks(&conns, "g", all()).actions);
    let once = rows(&conn, "SELECT * FROM blocks ORDER BY uuid");
    perform(&conn, &upsert_blocks(&conns, "g", all()).actions);
    assert_eq!(rows(&conn, "SELECT * FROM blocks ORDER BY uuid"), once);
    assert_eq!(read_blocks(&once).unwrap(), all());
}

#[test]
fn a_database_opened_again_keeps_its_rows() {
    let (conns, conn) = open("g");
    perform(&conn, &upsert_blocks(&conns, "g", vec![block("a", 1, "p", 1)]).actions);
    perform(&conn, &new_db("g").actions);
    let infos = read_block_infos(&rows(&conn, &fetch_all_blocks(&conns, "g").sql)).unwrap();
    assert_eq!(infos, vec![BlockInfo { uuid: "a".to_string(), page_uuid: "p".to_string() }]);
}

/// Makes requests up to the first that fails; a transaction that was not
/// committed is rolled back.
fn try_perform(conn: &Connection, actions: &[DbAction]) -> bool {
    let mut tx = None;
    for action in actions {
        match action {
            DbAction::Begin => tx = Some(conn.unchecked_transaction().unwrap()),
            DbAction::Commit => tx.take().unwrap().commit().unwrap(),
            DbAction::Execute { sql, params: Params::Named(params) } => {
                let values: Vec<(&str, Value)> =
                    params.iter().map(|(n, v)| (n.as_str(), bound(v))).collect();
                let values: Vec<(&str, &dyn rusqlite::ToSql)> =
                    values.iter().map(|(n, v)| (*n, v as &dyn rusqlite::ToSql)).collect();
                if conn.execute(sql, &values[..]).is_err() {
                    return false;
                }
            }
            other => panic!("{:?}", other),
        }
    }
    true
}

fn named(uuid: &str, name: &str) -> Block {
    let mut named = block(uuid, 1, "p", 1);
    named.name = name.to_string();
    named
}

#[test]
fn all_blocks_are_put_in_or_none() {
    let (conns, conn) = open("g");
    let all = |conn: &Connection| rows(conn, "SELECT uuid, name FROM blocks ORDER BY uuid");
    perform(&conn, &upsert_blocks(&conns, "g", vec![named("a", "x"), named("b", "y")]).actions);
    let before = all(&conn);
    // The last block has a name that another row has.
    let batch = vec![named("c", "z"), named("a", "w"), named("d", "y")];
    assert!(!try_perform(&conn, &upsert_blocks(&conns, "g", batch).actions));
    assert_eq!(all(&conn), before);
    let batch = vec![named("c", "z"), named("a", "w"), named("d", "v")];
    assert!(try_perform(&conn, &upsert_blocks(&conns, "g", batch).actions));
    assert_eq!(all(&conn).len(), 4);
}

#[test]
fn the_last_block_of_a_uuid_wins() {
    let (conns, conn) = open("g");
    let batch = vec![named("a", "x"), named("b", "y"), named("a", "z"), named("c", "x")];
    assert!(try_perform(&conn, &upsert_blocks(&conns, "g", batch).actions));
    let mut found = read_blocks(&rows(
        &conn,
        &fetch_blocks_excluding(&conns, "g", &Vec::new()).sql,
    ))
    .unwrap();
    found.sort_by(|a, b| a.uuid.cmp(&b.uuid));
    assert_eq!(found, vec![named("a", "z"), named("b", "y"), named("c", "x")]);
    // In the same order once more, the first block meets a name that is taken.
    let batch = vec![named("a", "x"), named("b", "y"), named("a", "z"), named("c", "x")];
    assert!(!try_perform(&conn, &upsert_blocks(&conns, "g", batch).actions));
}

#[test]
fn the_latest_pages_are_recent() {
    let (conns, conn) = open("g");
    let sql = fetch_recent_journals(&conns, "g").sql;
    assert!(rows(&conn, &sql).is_empty());
    let page = |uuid: &str, day: i32| block(uuid, 2, "", day);
    let put = |blocks: Vec<Block>| perform(&conn, &upsert_blocks(&conns, "g", blocks).actions);
    put(vec![page("p1", -1), page("p2", 7), block("b", 1, "p1", 99)]);
    assert_eq!(
        rows(&conn, &sql),
        vec![
            vec![SqlValue::Text("p2".to_string())],
            vec![SqlValue::Text("p1".to_string())]
        ]
    );
    put(vec![page("p3", 7), page("p4", 7), page("p5", 3)]);
    let mut found: Vec<String> = rows(&conn, &sql)
        .into_iter()
        .map(|row| match &row[0] {
            SqlValue::Text(uuid) => uuid.clone(),
            other => panic!("{:?}", other),
        })
        .collect();
    found.sort();
    assert_eq!(found, vec!["p2", "p3", "p4"]);
}

#[test]
fn an_empty_list_excludes_nothing() {
    let (conns, conn) = open("g");
    let all = vec![block("a", 1, "p", 1), block("b", 1, "q", 2), block("c", 2, "q", 3)];
    perform(&conn, &upsert_blocks(&conns, "g", all).actions);
    let mut infos = read_block_infos(&rows(&conn, &fetch_all_blocks(&conns, "g").sql)).unwrap();
    let query = fetch_blocks_excluding(&conns, "g", &Vec::new());
    let mut pairs: Vec<BlockInfo> = read_blocks(&rows(&conn, &query.sql))
        .unwrap()
        .into_iter()
        .map(|b| BlockInfo { uuid: b.uuid, page_uuid: b.page_uuid })
        .collect();
    infos.sort_by(|a, b| a.uuid.cmp(&b.uuid));
    pairs.sort_by(|a, b| a.uuid.cmp(&b.uuid));
    assert_eq!(pairs.len(), 2);
    assert_eq!(pairs, infos);
}
