use shardingite::error::Error;
use shardingite::router::ModShardingIndex;
use shardingite::sql_daemon::{DataCall, DataRet, SqlParam};
use shardingite::{ShardingIte, ShardingIteConfig};
use std::sync::mpsc;

fn config2() -> ShardingIteConfig<ModShardingIndex> {
    ShardingIteConfig {
        sharding_count: 2,
        sharding_table: String::from("user"),
        sharding_column: String::from("id"),
        sharding_index: ModShardingIndex { count: 2 },
    }
}

fn handle2() -> (
    ShardingIte<ModShardingIndex>,
    Vec<mpsc::Receiver<DataCall>>,
    mpsc::Sender<(u32, DataRet)>,
) {
    let (ret_tx, ret_rx) = mpsc::channel();
    let mut senders = Vec::new();
    let mut receivers = Vec::new();
    for _ in 0..2 {
        let (tx, rx) = mpsc::channel();
        senders.push(tx);
        receivers.push(rx);
    }
    let si = ShardingIte::new(config2(), senders, ret_rx).unwrap();
    (si, receivers, ret_tx)
}

#[test]
fn row_cells_are_read_by_index() {
    let row = shardingite::Row::new(vec![
        shardingite::SqlValue::Integer(1),
        shardingite::SqlValue::Text(b"ab".to_vec()),
    ]);
    assert_eq!(row.get_i64(0).unwrap(), 1);
    assert_eq!(row.get_text(1).unwrap(), b"ab".to_vec());
    assert!(matches!(row.get(5), Err(Error::ColumnNotFound)));
    assert!(matches!(row.get_i64(1), Err(Error::EngineError(_))));
    assert!(matches!(row.get_text(0), Err(Error::EngineError(_))));
}

#[test]
fn zero_shards_are_rejected() {
    let (_ret_tx, ret_rx) = mpsc::channel();
    let cfg = ShardingIteConfig {
        sharding_count: 0,
        sharding_table: String::from("user"),
        sharding_column: String::from("id"),
        sharding_index: ModShardingIndex { count: 2 },
    };
    assert!(matches!(
        ShardingIte::new(cfg, Vec::new(), ret_rx),
        Err(Error::InvalidConfig)
    ));
}

#[test]
fn channel_list_must_match_the_count() {
    let (_ret_tx, ret_rx) = mpsc::channel();
    let (tx, _rx) = mpsc::channel();
    assert!(matches!(
        ShardingIte::new(config2(), vec![tx], ret_rx),
        Err(Error::InvalidConfig)
    ));
}

#[test]
fn prepare_broadcasts_the_rewritten_text() {
    let (mut si, workers, ret_tx) = handle2();
    ret_tx.send((0, DataRet::Prepare(Ok(())))).unwrap();
    ret_tx.send((1, DataRet::Prepare(Ok(())))).unwrap();
    let stmt = si
        .prepare("SELECT id, name FROM user ORDER BY id ASC LIMIT 3 OFFSET 1")
        .unwrap();
    for rx in &workers {
        match rx.try_recv().unwrap() {
            DataCall::Prepare(text) => {
                assert!(!text.contains("LIMIT"));
                assert!(!text.contains("OFFSET"));
                assert!(text.contains("ORDER BY"));
            }
            other => panic!("expected a prepare, got {:?}", other),
        }
    }
    stmt.finish(&mut si);
    for rx in &workers {
        assert!(matches!(rx.try_recv().unwrap(), DataCall::StatementEnd));
    }
}

#[test]
fn prepare_surfaces_the_first_engine_error() {
    let (mut si, _workers, ret_tx) = handle2();
    ret_tx.send((0, DataRet::Prepare(Err(String::from("no such table"))))).unwrap();
    match si.prepare("SELECT id FROM user") {
        Err(Error::EngineError(m)) => assert_eq!(m.as_str(), "no such table"),
        other => panic!("expected an engine error, got {:?}", other.is_ok()),
    }
}

#[test]
fn prepare_rejects_a_mismatched_response() {
    let (mut si, _workers, ret_tx) = handle2();
    ret_tx.send((0, DataRet::Transaction(Ok(())))).unwrap();
    assert!(matches!(
        si.prepare("SELECT id FROM user"),
        Err(Error::ProtocolMismatch)
    ));
}

#[test]
fn prepare_fails_when_the_response_channel_dies() {
    let (mut si, _workers, ret_tx) = handle2();
    drop(ret_tx);
    assert!(matches!(
        si.prepare("SELECT id FROM user"),
        Err(Error::ChannelClosed)
    ));
}

#[test]
fn transaction_and_commit_round_trip() {
    let (mut si, workers, ret_tx) = handle2();
    ret_tx.send((0, DataRet::Transaction(Ok(())))).unwrap();
    ret_tx.send((1, DataRet::Transaction(Ok(())))).unwrap();
    let tx = si.transaction().unwrap();
    for rx in &workers {
        assert!(matches!(rx.try_recv().unwrap(), DataCall::Transaction));
    }
    ret_tx.send((0, DataRet::TransactionCommit(Ok(())))).unwrap();
    ret_tx.send((1, DataRet::TransactionCommit(Ok(())))).unwrap();
    tx.commit(&mut si).unwrap();
    for rx in &workers {
        assert!(matches!(rx.try_recv().unwrap(), DataCall::TransactionCommit));
    }
}

#[test]
fn execute_dispatches_to_the_routed_shard_only() {
    let (mut si, workers, ret_tx) = handle2();
    ret_tx.send((0, DataRet::Transaction(Ok(())))).unwrap();
    ret_tx.send((1, DataRet::Transaction(Ok(())))).unwrap();
    let tx = si.transaction().unwrap();
    ret_tx.send((0, DataRet::Prepare(Ok(())))).unwrap();
    ret_tx.send((1, DataRet::Prepare(Ok(())))).unwrap();
    let mut stmt = tx
        .prepare(&mut si, "INSERT INTO user (id, name) VALUES (?1, ?2)")
        .unwrap();
    stmt.execute(
        &mut si,
        vec![SqlParam::U32(3), SqlParam::String(String::from("name3"))],
    )
    .unwrap();
    for rx in &workers {
        assert!(matches!(rx.try_recv().unwrap(), DataCall::Transaction));
        assert!(matches!(rx.try_recv().unwrap(), DataCall::Prepare(_)));
    }
    assert!(matches!(
        workers[1].try_recv().unwrap(),
        DataCall::StatementExecute(_)
    ));
    assert!(workers[0].try_recv().is_err());
    ret_tx.send((1, DataRet::StatementExecute(Ok(())))).unwrap();
    stmt.finish(&mut si);
    ret_tx.send((0, DataRet::TransactionRollback(Ok(())))).unwrap();
    ret_tx.send((1, DataRet::TransactionRollback(Ok(())))).unwrap();
    tx.rollback(&mut si).unwrap();
}

#[test]
fn query_streams_rows_from_each_shard_in_order() {
    let (mut si, workers, ret_tx) = handle2();
    ret_tx.send((0, DataRet::Prepare(Ok(())))).unwrap();
    ret_tx.send((1, DataRet::Prepare(Ok(())))).unwrap();
    let stmt = si.prepare("SELECT id FROM user").unwrap();
    ret_tx.send((0, DataRet::StatementQuery(Ok(())))).unwrap();
    ret_tx.send((1, DataRet::StatementQuery(Ok(())))).unwrap();
    let mut rows = stmt.query(&mut si, Vec::new()).unwrap();
    ret_tx
        .send((0, DataRet::Next(Ok(Some(vec![shardingite::SqlValue::Integer(1)])))))
        .unwrap();
    let first = rows.next(&mut si).unwrap().unwrap();
    assert_eq!(first.get_i64(0).unwrap(), 1);
    ret_tx.send((0, DataRet::Next(Ok(None)))).unwrap();
    ret_tx
        .send((1, DataRet::Next(Ok(Some(vec![shardingite::SqlValue::Integer(2)])))))
        .unwrap();
    let second = rows.next(&mut si).unwrap().unwrap();
    assert_eq!(second.get_i64(0).unwrap(), 2);
    ret_tx.send((0, DataRet::Next(Ok(None)))).unwrap();
    ret_tx.send((1, DataRet::Next(Ok(None)))).unwrap();
    assert!(rows.next(&mut si).unwrap().is_none());
    rows.finish(&mut si);
    stmt.finish(&mut si);
    for rx in &workers {
        assert!(matches!(rx.try_recv().unwrap(), DataCall::Prepare(_)));
        assert!(matches!(rx.try_recv().unwrap(), DataCall::StatementQuery(_)));
    }
}

#[test]
fn ordered_query_streams_by_the_heap() {
    let (mut si, workers, ret_tx) = handle2();
    ret_tx.send((0, DataRet::Prepare(Ok(())))).unwrap();
    ret_tx.send((1, DataRet::Prepare(Ok(())))).unwrap();
    let stmt = si.prepare("SELECT id FROM user ORDER BY id ASC").unwrap();
    ret_tx.send((0, DataRet::StatementQuery(Ok(())))).unwrap();
    ret_tx.send((1, DataRet::StatementQuery(Ok(())))).unwrap();
    let mut rows = stmt.query(&mut si, Vec::new()).unwrap();
    let cell = |n: i64| vec![shardingite::SqlValue::Integer(n)];
    ret_tx.send((0, DataRet::Next(Ok(Some(cell(1)))))).unwrap();
    ret_tx.send((1, DataRet::Next(Ok(Some(cell(2)))))).unwrap();
    ret_tx.send((0, DataRet::Next(Ok(Some(cell(3)))))).unwrap();
    assert_eq!(rows.next(&mut si).unwrap().unwrap().get_i64(0).unwrap(), 1);
    ret_tx.send((1, DataRet::Next(Ok(None)))).unwrap();
    assert_eq!(rows.next(&mut si).unwrap().unwrap().get_i64(0).unwrap(), 2);
    ret_tx.send((0, DataRet::Next(Ok(None)))).unwrap();
    assert_eq!(rows.next(&mut si).unwrap().unwrap().get_i64(0).unwrap(), 3);
    assert!(rows.next(&mut si).unwrap().is_none());
    rows.finish(&mut si);
    stmt.finish(&mut si);
    for rx in &workers {
        assert!(matches!(rx.try_recv().unwrap(), DataCall::Prepare(_)));
        assert!(matches!(rx.try_recv().unwrap(), DataCall::StatementQuery(_)));
    }
}

#[test]
fn ordered_query_rejects_a_text_order_key() {
    let (mut si, _workers, ret_tx) = handle2();
    ret_tx.send((0, DataRet::Prepare(Ok(())))).unwrap();
    ret_tx.send((1, DataRet::Prepare(Ok(())))).unwrap();
    let stmt = si.prepare("SELECT id FROM user ORDER BY id ASC").unwrap();
    ret_tx.send((0, DataRet::StatementQuery(Ok(())))).unwrap();
    ret_tx.send((1, DataRet::StatementQuery(Ok(())))).unwrap();
    let mut rows = stmt.query(&mut si, Vec::new()).unwrap();
    ret_tx
        .send((0, DataRet::Next(Ok(Some(vec![shardingite::SqlValue::Text(b"x".to_vec())])))))
        .unwrap();
    assert!(matches!(
        rows.next(&mut si),
        Err(Error::UnorderableColumn)
    ));
    rows.finish(&mut si);
    stmt.finish(&mut si);
}

#[test]
fn limit_and_offset_bound_the_stream() {
    let (mut si, _workers, ret_tx) = handle2();
    ret_tx.send((0, DataRet::Prepare(Ok(())))).unwrap();
    ret_tx.send((1, DataRet::Prepare(Ok(())))).unwrap();
    let stmt = si
        .prepare("SELECT id FROM user ORDER BY id ASC LIMIT 1 OFFSET 1")
        .unwrap();
    ret_tx.send((0, DataRet::StatementQuery(Ok(())))).unwrap();
    ret_tx.send((1, DataRet::StatementQuery(Ok(())))).unwrap();
    let mut rows = stmt.query(&mut si, Vec::new()).unwrap();
    let cell = |n: i64| vec![shardingite::SqlValue::Integer(n)];
    ret_tx.send((0, DataRet::Next(Ok(Some(cell(1)))))).unwrap();
    ret_tx.send((1, DataRet::Next(Ok(Some(cell(2)))))).unwrap();
    ret_tx.send((0, DataRet::Next(Ok(Some(cell(3)))))).unwrap();
    ret_tx.send((1, DataRet::Next(Ok(None)))).unwrap();
    assert_eq!(rows.next(&mut si).unwrap().unwrap().get_i64(0).unwrap(), 2);
    assert!(rows.next(&mut si).unwrap().is_none());
    assert!(rows.next(&mut si).unwrap().is_none());
    rows.finish(&mut si);
    stmt.finish(&mut si);
}

#[test]
fn query_map_applies_to_each_row() {
    let (mut si, _workers, ret_tx) = handle2();
    ret_tx.send((0, DataRet::Prepare(Ok(())))).unwrap();
    ret_tx.send((1, DataRet::Prepare(Ok(())))).unwrap();
    let stmt = si.prepare("SELECT id FROM user").unwrap();
    ret_tx.send((0, DataRet::StatementQuery(Ok(())))).unwrap();
    ret_tx.send((1, DataRet::StatementQuery(Ok(())))).unwrap();
    let mut mapped = stmt
        .query_map(&mut si, Vec::new(), |row| row.get_i64(0))
        .unwrap();
    ret_tx
        .send((0, DataRet::Next(Ok(Some(vec![shardingite::SqlValue::Integer(5)])))))
        .unwrap();
    assert_eq!(mapped.next(&mut si).unwrap(), Some(5));
    ret_tx.send((0, DataRet::Next(Ok(None)))).unwrap();
    ret_tx.send((1, DataRet::Next(Ok(None)))).unwrap();
    assert_eq!(mapped.next(&mut si).unwrap(), None);
    mapped.finish(&mut si);
    stmt.finish(&mut si);
}

#[test]
fn query_row_applies_the_mapping() {
    let (mut si, _workers, ret_tx) = handle2();
    ret_tx.send((0, DataRet::Prepare(Ok(())))).unwrap();
    ret_tx.send((1, DataRet::Prepare(Ok(())))).unwrap();
    ret_tx.send((0, DataRet::StatementQuery(Ok(())))).unwrap();
    ret_tx.send((1, DataRet::StatementQuery(Ok(())))).unwrap();
    ret_tx
        .send((0, DataRet::Next(Ok(Some(vec![shardingite::SqlValue::Integer(42)])))))
        .unwrap();
    let got: i64 = si
        .query_row("SELECT id FROM user", Vec::new(), |row| row.get_i64(0))
        .unwrap();
    assert_eq!(got, 42);
}

#[test]
fn query_row_empty_result() {
    let (mut si, _workers, ret_tx) = handle2();
    ret_tx.send((0, DataRet::Prepare(Ok(())))).unwrap();
    ret_tx.send((1, DataRet::Prepare(Ok(())))).unwrap();
    ret_tx.send((0, DataRet::StatementQuery(Ok(())))).unwrap();
    ret_tx.send((1, DataRet::StatementQuery(Ok(())))).unwrap();
    ret_tx.send((0, DataRet::Next(Ok(None)))).unwrap();
    ret_tx.send((1, DataRet::Next(Ok(None)))).unwrap();
    let got: Result<i64, Error> = si.query_row("SELECT id FROM user", Vec::new(), |row| {
        row.get_i64(0)
    });
    assert!(matches!(got, Err(Error::EmptyResult)));
}

#[test]
fn execute_batch_runs_each_piece_in_its_own_transaction() {
    let (mut si, workers, ret_tx) = handle2();
    for _ in 0..2 {
        ret_tx.send((0, DataRet::Transaction(Ok(())))).unwrap();
        ret_tx.send((1, DataRet::Transaction(Ok(())))).unwrap();
        ret_tx.send((0, DataRet::Prepare(Ok(())))).unwrap();
        ret_tx.send((1, DataRet::Prepare(Ok(())))).unwrap();
        ret_tx.send((0, DataRet::StatementExecute(Ok(())))).unwrap();
        ret_tx.send((1, DataRet::StatementExecute(Ok(())))).unwrap();
        ret_tx.send((0, DataRet::TransactionCommit(Ok(())))).unwrap();
        ret_tx.send((1, DataRet::TransactionCommit(Ok(())))).unwrap();
    }
    si.execute_batch("CREATE TABLE a (x INTEGER); CREATE TABLE b (y INTEGER);")
        .unwrap();
    for rx in &workers {
        for _ in 0..2 {
            assert!(matches!(rx.try_recv().unwrap(), DataCall::Transaction));
            assert!(matches!(rx.try_recv().unwrap(), DataCall::Prepare(_)));
            assert!(matches!(rx.try_recv().unwrap(), DataCall::StatementExecute(_)));
            assert!(matches!(rx.try_recv().unwrap(), DataCall::StatementEnd));
            assert!(matches!(rx.try_recv().unwrap(), DataCall::TransactionCommit));
        }
        assert!(rx.try_recv().is_err());
    }
}

#[test]
fn abort_rolls_back_best_effort() {
    let (mut si, workers, ret_tx) = handle2();
    ret_tx.send((0, DataRet::Transaction(Ok(())))).unwrap();
    ret_tx.send((1, DataRet::Transaction(Ok(())))).unwrap();
    let tx = si.transaction().unwrap();
    ret_tx.send((0, DataRet::TransactionRollback(Ok(())))).unwrap();
    ret_tx.send((1, DataRet::TransactionRollback(Ok(())))).unwrap();
    tx.abort(&mut si);
    for rx in &workers {
        assert!(matches!(rx.try_recv().unwrap(), DataCall::Transaction));
        assert!(matches!(rx.try_recv().unwrap(), DataCall::TransactionRollback));
    }
}

#[test]
fn close_tells_every_worker_to_exit() {
    let (si, workers, _ret_tx) = handle2();
    si.close();
    for rx in &workers {
        assert!(matches!(rx.try_recv().unwrap(), DataCall::Exit));
    }
}
