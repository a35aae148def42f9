use shardingite::error::Error;
use shardingite::parser::Parser;
use shardingite::router::{ModShardingIndex, Router, ShardingIndex};
use shardingite::sql_daemon::SqlParam;
use shardingite::ShardingIteConfig;

fn user_config() -> ShardingIteConfig<ModShardingIndex> {
    ShardingIteConfig {
        sharding_count: 2,
        sharding_table: String::from("user"),
        sharding_column: String::from("id"),
        sharding_index: ModShardingIndex { count: 2 },
    }
}

fn route(
    config: &ShardingIteConfig<ModShardingIndex>,
    sql: &str,
    params: Vec<SqlParam>,
) -> Result<Vec<u32>, Error> {
    let parsed = Parser::parse(sql).unwrap();
    Router::get_indexes_with_params(config, &parsed, &params)
}

#[test]
fn placeholder_insert_routes_to_one_shard() {
    let cfg = user_config();
    let routes = route(
        &cfg,
        "INSERT INTO user (id, name, age) VALUES (?1, ?2, ?3)",
        vec![
            SqlParam::U32(4),
            SqlParam::String(String::from("name4")),
            SqlParam::U16(4),
        ],
    )
    .unwrap();
    assert_eq!(routes, vec![0]);
}

#[test]
fn placeholder_uses_the_column_position() {
    let cfg = user_config();
    let routes = route(
        &cfg,
        "INSERT INTO user (name, id, age) VALUES (?1, ?2, ?3)",
        vec![
            SqlParam::String(String::from("n")),
            SqlParam::U32(3),
            SqlParam::U16(3),
        ],
    )
    .unwrap();
    assert_eq!(routes, vec![1]);
}

#[test]
fn literal_insert_routes_by_its_value() {
    let cfg = user_config();
    let even = route(&cfg, "INSERT INTO user (id, name) VALUES (4, 'x')", vec![]).unwrap();
    assert_eq!(even, vec![0]);
    let odd = route(&cfg, "INSERT INTO user (id, name) VALUES (5, 'x')", vec![]).unwrap();
    assert_eq!(odd, vec![1]);
}

#[test]
fn other_table_broadcasts() {
    let cfg = user_config();
    let routes = route(&cfg, "INSERT INTO other (id) VALUES (?1)", vec![SqlParam::U32(1)]).unwrap();
    assert_eq!(routes, vec![0, 1]);
}

#[test]
fn select_broadcasts() {
    let cfg = user_config();
    let routes = route(&cfg, "SELECT id FROM user WHERE id = 4", vec![]).unwrap();
    assert_eq!(routes, vec![0, 1]);
}

#[test]
fn insert_without_sharding_column_broadcasts() {
    let cfg = user_config();
    let routes = route(
        &cfg,
        "INSERT INTO user (name, age) VALUES (?1, ?2)",
        vec![SqlParam::String(String::from("n")), SqlParam::U16(1)],
    )
    .unwrap();
    assert_eq!(routes, vec![0, 1]);
}

#[test]
fn multi_row_values_is_rejected() {
    let cfg = user_config();
    assert!(matches!(
        route(
            &cfg,
            "INSERT INTO user (id, name) VALUES (1, 'a'), (2, 'b')",
            vec![],
        ),
        Err(Error::UnsupportedInsertShape)
    ));
}

#[test]
fn missing_sharding_param() {
    let cfg = user_config();
    assert!(matches!(
        route(&cfg, "INSERT INTO user (id) VALUES (?1)", vec![]),
        Err(Error::ShardingParamMissing)
    ));
}

#[test]
fn text_param_is_an_invalid_key() {
    let cfg = ShardingIteConfig {
        sharding_count: 2,
        sharding_table: String::from("test"),
        sharding_column: String::from("value"),
        sharding_index: ModShardingIndex { count: 2 },
    };
    assert!(matches!(
        route(
            &cfg,
            "INSERT INTO test (value) VALUES (?1)",
            vec![SqlParam::String(String::from("abc"))],
        ),
        Err(Error::InvalidShardingKey)
    ));
}

#[test]
fn text_literal_is_an_invalid_key() {
    let cfg = user_config();
    assert!(matches!(
        route(&cfg, "INSERT INTO user (id) VALUES ('abc')", vec![]),
        Err(Error::InvalidShardingKey)
    ));
}

#[test]
fn negative_literal_is_an_invalid_key() {
    let cfg = user_config();
    assert!(matches!(
        route(&cfg, "INSERT INTO user (id) VALUES (-5)", vec![]),
        Err(Error::InvalidShardingKey)
    ));
}

#[test]
fn modulo_index_maps_each_variant() {
    let p = ModShardingIndex { count: 2 };
    assert_eq!(p.sharding_index(&SqlParam::I64(7)), Some(1));
    assert_eq!(p.sharding_index(&SqlParam::U32(6)), Some(0));
    assert_eq!(p.sharding_index(&SqlParam::U16(3)), Some(1));
    assert_eq!(p.sharding_index(&SqlParam::I64(-1)), None);
    assert_eq!(p.sharding_index(&SqlParam::String(String::from("x"))), None);
    let zero = ModShardingIndex { count: 0 };
    assert_eq!(zero.sharding_index(&SqlParam::U32(1)), None);
}
