use shardingite::error::Error;
use shardingite::merge::{aggregate_count, apply_limit_offset, ordered_merge, unordered_merge};
use shardingite::parser::{Aggregate, Parser};
use shardingite::rewriter::ReWriter;
use shardingite::router::{ModShardingIndex, Router};
use shardingite::sql_daemon::{SqlParam, SqlValue};
use shardingite::ShardingIteConfig;

// Two embedded engines stand for the two shard files; the library's own
// routing, rewriting, planning and merging carry every statement between
// them, exactly as the worker pool would.

fn user_config() -> ShardingIteConfig<ModShardingIndex> {
    ShardingIteConfig {
        sharding_count: 2,
        sharding_table: String::from("user"),
        sharding_column: String::from("id"),
        sharding_index: ModShardingIndex { count: 2 },
    }
}

fn open_shards(schema: &str) -> Vec<rusqlite::Connection> {
    let mut shards = Vec::new();
    for _ in 0..2 {
        let conn = rusqlite::Connection::open_in_memory().unwrap();
        for piece in shardingite::text::split_statements(schema) {
            conn.execute(piece.as_str(), []).unwrap();
        }
        shards.push(conn);
    }
    shards
}

fn engine_params(params: &[SqlParam]) -> Vec<rusqlite::types::Value> {
    params
        .iter()
        .map(|p| match p {
            SqlParam::String(s) => rusqlite::types::Value::Text(s.clone()),
            SqlParam::I64(n) => rusqlite::types::Value::Integer(*n),
            SqlParam::U32(n) => rusqlite::types::Value::Integer(*n as i64),
            SqlParam::U16(n) => rusqlite::types::Value::Integer(*n as i64),
        })
        .collect()
}

fn routed_execute(
    shards: &[rusqlite::Connection],
    cfg: &ShardingIteConfig<ModShardingIndex>,
    sql: &str,
    params: Vec<SqlParam>,
) -> Result<(), Error> {
    let parsed = Parser::parse(sql)?;
    let targets = Router::get_indexes_with_params(cfg, &parsed, &params)?;
    let rewritten = ReWriter::rewrite(&parsed);
    for t in targets {
        shards[t as usize]
            .execute(
                rewritten.as_str(),
                rusqlite::params_from_iter(engine_params(&params)),
            )
            .map_err(|e| Error::EngineError(e.to_string()))?;
    }
    Ok(())
}

fn shard_rows(conn: &rusqlite::Connection, sql: &str) -> Vec<Vec<SqlValue>> {
    let mut stmt = conn.prepare(sql).unwrap();
    let ncols = stmt.column_count();
    let mut rows = stmt.query([]).unwrap();
    let mut out = Vec::new();
    while let Some(row) = rows.next().unwrap() {
        let mut cells = Vec::new();
        for i in 0..ncols {
            cells.push(match row.get_ref(i).unwrap() {
                rusqlite::types::ValueRef::Null => SqlValue::Null,
                rusqlite::types::ValueRef::Integer(n) => SqlValue::Integer(n),
                rusqlite::types::ValueRef::Real(f) => SqlValue::Real(f.to_bits()),
                rusqlite::types::ValueRef::Text(t) => SqlValue::Text(t.to_vec()),
                rusqlite::types::ValueRef::Blob(b) => SqlValue::Blob(b.to_vec()),
            });
        }
        out.push(cells);
    }
    out
}

fn run_select(
    shards: &[rusqlite::Connection],
    cfg: &ShardingIteConfig<ModShardingIndex>,
    sql: &str,
) -> Vec<Vec<SqlValue>> {
    let parsed = Parser::parse(sql).unwrap();
    let plan = Parser::get_query_from_ast(&parsed).unwrap();
    let targets = Router::get_indexes_with_params(cfg, &parsed, &Vec::new()).unwrap();
    let rewritten = ReWriter::rewrite(&parsed);
    let per_shard: Vec<Vec<Vec<SqlValue>>> = targets
        .iter()
        .map(|t| shard_rows(&shards[*t as usize], rewritten.as_str()))
        .collect();
    let merged = match &plan.order_by {
        Some(ob) => ordered_merge(per_shard, ob.column_index, ob.is_asc).unwrap(),
        None => unordered_merge(per_shard),
    };
    let merged = match &plan.aggregate {
        Some(Aggregate::Count(_)) => match aggregate_count(&merged).unwrap() {
            Some(row) => vec![row],
            None => Vec::new(),
        },
        None => merged,
    };
    match &plan.limit {
        Some(l) => apply_limit_offset(merged, l.limit, l.offset),
        None => merged,
    }
}

fn tuples(rows: &[Vec<SqlValue>]) -> Vec<(i64, String, i64)> {
    rows.iter()
        .map(|r| {
            let id = match &r[0] {
                SqlValue::Integer(n) => *n,
                _ => panic!("expected an integer id"),
            };
            let name = match &r[1] {
                SqlValue::Text(t) => String::from_utf8(t.clone()).unwrap(),
                _ => panic!("expected a text name"),
            };
            let age = match &r[2] {
                SqlValue::Integer(n) => *n,
                _ => panic!("expected an integer age"),
            };
            (id, name, age)
        })
        .collect()
}

fn single_count(rows: &[Vec<SqlValue>]) -> i64 {
    assert_eq!(rows.len(), 1);
    match &rows[0][0] {
        SqlValue::Integer(n) => *n,
        _ => panic!("expected an integer count"),
    }
}

const USER_SCHEMA: &str = "CREATE TABLE user (id INTEGER NOT NULL, name VARCHAR NOT NULL, \
                           age INTEGER NOT NULL)";

fn seed_users(shards: &[rusqlite::Connection], cfg: &ShardingIteConfig<ModShardingIndex>) {
    for i in 0..10u32 {
        routed_execute(
            shards,
            cfg,
            "INSERT INTO user (id, name, age) VALUES (?1, ?2, ?3)",
            vec![
                SqlParam::U32(i),
                SqlParam::String(format!("name{}", i)),
                SqlParam::U16(i as u16),
            ],
        )
        .unwrap();
    }
}

#[test]
fn s1_routed_insert_lands_on_one_shard() {
    let cfg = user_config();
    let shards = open_shards(USER_SCHEMA);
    routed_execute(
        &shards,
        &cfg,
        "INSERT INTO user (id, name, age) VALUES (?1, ?2, ?3)",
        vec![
            SqlParam::U32(4),
            SqlParam::String(String::from("name4")),
            SqlParam::U16(4),
        ],
    )
    .unwrap();
    assert_eq!(shard_rows(&shards[0], "SELECT id FROM user").len(), 1);
    assert_eq!(shard_rows(&shards[1], "SELECT id FROM user").len(), 0);
    let rows = run_select(&shards, &cfg, "SELECT count(*) from user WHERE id = 4");
    assert_eq!(single_count(&rows), 1);
}

#[test]
fn s2_bulk_insert_and_counts() {
    let cfg = user_config();
    let shards = open_shards(USER_SCHEMA);
    seed_users(&shards, &cfg);
    assert_eq!(
        single_count(&run_select(&shards, &cfg, "SELECT count(*) from user")),
        10
    );
    assert_eq!(
        single_count(&run_select(&shards, &cfg, "SELECT count(*) from user WHERE id > 5")),
        4
    );
    assert_eq!(
        single_count(&run_select(&shards, &cfg, "SELECT count(*) from user WHERE age > 4")),
        5
    );
}

#[test]
fn s3_ordered_ascending() {
    let cfg = user_config();
    let shards = open_shards(USER_SCHEMA);
    seed_users(&shards, &cfg);
    let rows = run_select(
        &shards,
        &cfg,
        "SELECT id, name, age FROM user WHERE id >= 6 ORDER BY id ASC",
    );
    assert_eq!(
        tuples(&rows),
        vec![
            (6, String::from("name6"), 6),
            (7, String::from("name7"), 7),
            (8, String::from("name8"), 8),
            (9, String::from("name9"), 9),
        ]
    );
}

#[test]
fn s4_ordered_descending() {
    let cfg = user_config();
    let shards = open_shards(USER_SCHEMA);
    seed_users(&shards, &cfg);
    let rows = run_select(
        &shards,
        &cfg,
        "SELECT id, name, age FROM user WHERE id >= 6 ORDER BY id DESC",
    );
    assert_eq!(
        tuples(&rows),
        vec![
            (9, String::from("name9"), 9),
            (8, String::from("name8"), 8),
            (7, String::from("name7"), 7),
            (6, String::from("name6"), 6),
        ]
    );
}

#[test]
fn s5_global_limit() {
    let cfg = user_config();
    let shards = open_shards(USER_SCHEMA);
    seed_users(&shards, &cfg);
    let rows = run_select(
        &shards,
        &cfg,
        "SELECT id, name, age FROM user WHERE id >= 2 ORDER BY id ASC LIMIT 3",
    );
    assert_eq!(
        tuples(&rows),
        vec![
            (2, String::from("name2"), 2),
            (3, String::from("name3"), 3),
            (4, String::from("name4"), 4),
        ]
    );
}

#[test]
fn s6_global_limit_and_offset() {
    let cfg = user_config();
    let shards = open_shards(USER_SCHEMA);
    seed_users(&shards, &cfg);
    let rows = run_select(
        &shards,
        &cfg,
        "SELECT id, name, age FROM user WHERE id >= 2 ORDER BY id ASC LIMIT 3 OFFSET 1",
    );
    assert_eq!(
        tuples(&rows),
        vec![
            (3, String::from("name3"), 3),
            (4, String::from("name4"), 4),
            (5, String::from("name5"), 5),
        ]
    );
}

#[test]
fn s7_errors_leave_the_seed_row_alone() {
    let cfg = ShardingIteConfig {
        sharding_count: 2,
        sharding_table: String::from("test"),
        sharding_column: String::from("value"),
        sharding_index: ModShardingIndex { count: 2 },
    };
    let shards = open_shards("CREATE TABLE test (value INTEGER NOT NULL)");
    routed_execute(&shards, &cfg, "INSERT INTO test (value) VALUES (0)", vec![]).unwrap();
    assert_eq!(
        single_count(&run_select(&shards, &cfg, "SELECT count(*) from test")),
        1
    );
    assert!(matches!(Parser::parse("xxxx"), Err(Error::ParseError(_))));
    assert_eq!(
        single_count(&run_select(&shards, &cfg, "SELECT count(*) from test")),
        1
    );
    let bad = routed_execute(
        &shards,
        &cfg,
        "INSERT INTO test (value) VALUES (?1)",
        vec![SqlParam::String(String::from("abc"))],
    );
    assert!(matches!(bad, Err(Error::InvalidShardingKey)));
    assert_eq!(
        single_count(&run_select(&shards, &cfg, "SELECT count(*) from test")),
        1
    );
}

#[test]
fn query_exact_row_without_ordering() {
    let cfg = user_config();
    let shards = open_shards(USER_SCHEMA);
    seed_users(&shards, &cfg);
    let rows = run_select(&shards, &cfg, "SELECT id, name, age FROM user WHERE id = 2");
    assert_eq!(tuples(&rows), vec![(2, String::from("name2"), 2)]);
}
