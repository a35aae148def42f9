use shardingite::error::Error;
use shardingite::parser::{Aggregate, Parser, Query};

fn plan(sql: &str) -> Result<Query, Error> {
    let parsed = Parser::parse(sql).expect("parse should succeed");
    Parser::get_query_from_ast(&parsed)
}

#[test]
fn plain_select_has_empty_plan() {
    let q = plan("SELECT id, name FROM user").unwrap();
    assert!(q.limit.is_none());
    assert!(q.order_by.is_none());
    assert!(q.aggregate.is_none());
}

#[test]
fn order_by_defaults_to_ascending() {
    let q = plan("SELECT id, name FROM user ORDER BY name").unwrap();
    let ob = q.order_by.unwrap();
    assert_eq!(ob.column_index, 1);
    assert!(ob.is_asc);
}

#[test]
fn order_by_desc_is_recognized() {
    let q = plan("SELECT id, name, age FROM user WHERE id >= 6 ORDER BY id DESC").unwrap();
    let ob = q.order_by.unwrap();
    assert_eq!(ob.column_index, 0);
    assert!(!ob.is_asc);
}

#[test]
fn limit_and_offset_are_read() {
    let q = plan("SELECT id FROM user LIMIT 3 OFFSET 1").unwrap();
    let l = q.limit.unwrap();
    assert_eq!(l.limit, 3);
    assert_eq!(l.offset, 1);
}

#[test]
fn offset_defaults_to_zero() {
    let q = plan("SELECT id FROM user LIMIT 7").unwrap();
    let l = q.limit.unwrap();
    assert_eq!(l.limit, 7);
    assert_eq!(l.offset, 0);
}

#[test]
fn count_star_is_the_aggregate() {
    let q = plan("SELECT count(*) FROM user WHERE id > 5").unwrap();
    match q.aggregate {
        Some(Aggregate::Count(ref s)) => assert_eq!(s.as_str(), "*"),
        _ => panic!("expected a count aggregate"),
    }
}

#[test]
fn count_is_case_insensitive() {
    let q = plan("SELECT COUNT(*) FROM user").unwrap();
    assert!(matches!(q.aggregate, Some(Aggregate::Count(_))));
}

#[test]
fn count_must_stand_alone() {
    assert!(matches!(
        plan("SELECT count(*), id FROM user"),
        Err(Error::UnsupportedQueryShape)
    ));
}

#[test]
fn count_takes_only_star() {
    assert!(matches!(
        plan("SELECT count(id) FROM user"),
        Err(Error::UnsupportedQueryShape)
    ));
}

#[test]
fn other_functions_are_rejected() {
    assert!(matches!(
        plan("SELECT max(id) FROM user"),
        Err(Error::UnsupportedQueryShape)
    ));
}

#[test]
fn json_extract_is_permitted() {
    let q = plan("SELECT json_extract(data, '$.a') FROM user").unwrap();
    assert!(q.aggregate.is_none());
}

#[test]
fn order_column_missing_from_projection() {
    assert!(matches!(
        plan("SELECT id FROM user ORDER BY name"),
        Err(Error::ColumnNotFound)
    ));
}

#[test]
fn order_by_expression_is_rejected() {
    assert!(matches!(
        plan("SELECT id FROM user ORDER BY id + 1"),
        Err(Error::UnsupportedQueryShape)
    ));
}

#[test]
fn aliased_projection_is_rejected() {
    assert!(matches!(
        plan("SELECT id AS x FROM user"),
        Err(Error::UnsupportedQueryShape)
    ));
}

#[test]
fn star_projection_is_rejected() {
    assert!(matches!(
        plan("SELECT * FROM user"),
        Err(Error::UnsupportedQueryShape)
    ));
}

#[test]
fn planning_an_insert_is_rejected() {
    let parsed = Parser::parse("INSERT INTO user (id) VALUES (1)").unwrap();
    assert!(matches!(
        Parser::get_query_from_ast(&parsed),
        Err(Error::UnsupportedQueryShape)
    ));
}

#[test]
fn limit_placeholder_is_rejected() {
    assert!(matches!(
        plan("SELECT id FROM user LIMIT ?1"),
        Err(Error::UnsupportedQueryShape)
    ));
}

#[test]
fn garbage_fails_to_parse() {
    assert!(matches!(Parser::parse("xxxx"), Err(Error::ParseError(_))));
}

#[test]
fn two_statements_fail_to_parse() {
    assert!(matches!(
        Parser::parse("SELECT 1; SELECT 2"),
        Err(Error::ParseError(_))
    ));
}

#[test]
fn empty_text_fails_to_parse() {
    assert!(matches!(Parser::parse(""), Err(Error::ParseError(_))));
}
