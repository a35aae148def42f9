use shardingite::error::Error;
use shardingite::merge::{
    aggregate_count, apply_limit_offset, key_of, ordered_merge, unordered_merge, HeapBuf, HeapData,
};
use shardingite::sql_daemon::SqlValue;

fn row(id: i64, name: &str) -> Vec<SqlValue> {
    vec![
        SqlValue::Integer(id),
        SqlValue::Text(name.as_bytes().to_vec()),
    ]
}

fn ids(rows: &Vec<Vec<SqlValue>>) -> Vec<i64> {
    rows.iter()
        .map(|r| match &r[0] {
            SqlValue::Integer(n) => *n,
            _ => panic!("expected an integer id"),
        })
        .collect()
}

#[test]
fn ordered_merge_ascending() {
    let shards = vec![
        vec![row(1, "a"), row(3, "c"), row(5, "e")],
        vec![row(2, "b"), row(4, "d")],
    ];
    let out = ordered_merge(shards, 0, true).unwrap();
    assert_eq!(ids(&out), vec![1, 2, 3, 4, 5]);
}

#[test]
fn ordered_merge_descending() {
    let shards = vec![
        vec![row(5, "e"), row(3, "c"), row(1, "a")],
        vec![row(4, "d"), row(2, "b")],
    ];
    let out = ordered_merge(shards, 0, false).unwrap();
    assert_eq!(ids(&out), vec![5, 4, 3, 2, 1]);
}

#[test]
fn ordered_merge_is_a_permutation_with_ties() {
    let shards = vec![vec![row(1, "x"), row(1, "y")], vec![row(1, "z")]];
    let out = ordered_merge(shards, 0, true).unwrap();
    assert_eq!(ids(&out), vec![1, 1, 1]);
    let mut names: Vec<String> = out
        .iter()
        .map(|r| match &r[1] {
            SqlValue::Text(t) => String::from_utf8(t.clone()).unwrap(),
            _ => panic!("expected text"),
        })
        .collect();
    names.sort();
    assert_eq!(names, vec!["x", "y", "z"]);
}

#[test]
fn ordered_merge_with_empty_shards() {
    let shards = vec![vec![], vec![row(2, "b")], vec![]];
    let out = ordered_merge(shards, 0, true).unwrap();
    assert_eq!(ids(&out), vec![2]);
}

#[test]
fn ordered_merge_rejects_a_text_key() {
    let shards = vec![vec![row(1, "a")], vec![vec![SqlValue::Text(b"x".to_vec())]]];
    assert!(matches!(
        ordered_merge(shards, 0, true),
        Err(Error::UnorderableColumn)
    ));
}

#[test]
fn ordered_merge_rejects_a_short_row() {
    let shards = vec![vec![row(1, "a")], vec![vec![SqlValue::Integer(7)]]];
    assert!(matches!(
        ordered_merge(shards, 1, true),
        Err(Error::UnorderableColumn)
    ));
}

#[test]
fn unordered_merge_concatenates_in_shard_order() {
    let shards = vec![
        vec![row(9, "a"), row(1, "b")],
        vec![],
        vec![row(5, "c")],
    ];
    let out = unordered_merge(shards);
    assert_eq!(ids(&out), vec![9, 1, 5]);
}

#[test]
fn count_sums_per_shard_counts() {
    let drained = vec![vec![SqlValue::Integer(3)], vec![SqlValue::Integer(7)]];
    let out = aggregate_count(&drained).unwrap().unwrap();
    assert_eq!(ids(&vec![out]), vec![10]);
}

#[test]
fn count_of_zero_yields_no_row() {
    let drained = vec![vec![SqlValue::Integer(0)], vec![SqlValue::Integer(0)]];
    assert!(aggregate_count(&drained).unwrap().is_none());
    let empty: Vec<Vec<SqlValue>> = vec![];
    assert!(aggregate_count(&empty).unwrap().is_none());
}

#[test]
fn count_rejects_a_text_cell() {
    let drained = vec![vec![SqlValue::Text(b"x".to_vec())]];
    assert!(matches!(
        aggregate_count(&drained),
        Err(Error::EngineError(_))
    ));
}

#[test]
fn count_rejects_an_overflowing_sum() {
    let drained = vec![
        vec![SqlValue::Integer(i64::MAX)],
        vec![SqlValue::Integer(1)],
    ];
    assert!(matches!(
        aggregate_count(&drained),
        Err(Error::EngineError(_))
    ));
}

#[test]
fn limit_offset_takes_the_window() {
    let rows = vec![row(1, "a"), row(2, "b"), row(3, "c"), row(4, "d"), row(5, "e")];
    let out = apply_limit_offset(rows, 3, 1);
    assert_eq!(ids(&out), vec![2, 3, 4]);
}

#[test]
fn limit_offset_clamps_to_the_stream() {
    let rows = vec![row(1, "a"), row(2, "b")];
    let out = apply_limit_offset(rows, 10, 0);
    assert_eq!(ids(&out), vec![1, 2]);
    let out2 = apply_limit_offset(vec![row(1, "a")], 3, 5);
    assert!(out2.is_empty());
    let out3 = apply_limit_offset(vec![row(1, "a"), row(2, "b")], 0, 0);
    assert!(out3.is_empty());
}

#[test]
fn heap_buf_pops_the_extremum() {
    let mut h = HeapBuf::new();
    h.push(HeapData { shard: 0, key: 4, row: row(4, "d") });
    h.push(HeapData { shard: 1, key: 2, row: row(2, "b") });
    h.push(HeapData { shard: 2, key: 9, row: row(9, "i") });
    let e = h.pop_best(true).unwrap();
    assert_eq!(e.key, 2);
    assert_eq!(e.shard, 1);
    let e2 = h.pop_best(false).unwrap();
    assert_eq!(e2.key, 9);
    assert_eq!(h.len(), 1);
}

#[test]
fn heap_buf_breaks_ties_by_insertion() {
    let mut h = HeapBuf::new();
    h.push(HeapData { shard: 0, key: 1, row: row(1, "first") });
    h.push(HeapData { shard: 1, key: 1, row: row(1, "second") });
    let e = h.pop_best(true).unwrap();
    assert_eq!(e.shard, 0);
}

#[test]
fn key_of_reads_the_order_column() {
    let r = row(7, "x");
    assert_eq!(key_of(&r, 0), Some(7));
    assert_eq!(key_of(&r, 1), None);
    assert_eq!(key_of(&r, 9), None);
}
