use shardingite::sql_daemon::{DataCall, WorkerAction, WorkerState};

fn resolved(state: WorkerState, call: DataCall, ok: bool) -> WorkerState {
    let mut s = state;
    let kind = call.kind();
    s.resolve(kind, ok);
    s
}

#[test]
fn idle_transitions() {
    assert!(matches!(WorkerState::Idle.step(DataCall::Exit), WorkerAction::Stop));
    assert!(matches!(
        WorkerState::Idle.step(DataCall::Transaction),
        WorkerAction::BeginTransaction
    ));
    assert!(matches!(
        WorkerState::Idle.step(DataCall::Prepare(String::from("SELECT 1"))),
        WorkerAction::PrepareStatement(_)
    ));
    assert!(matches!(
        WorkerState::Idle.step(DataCall::LastInsertRowId),
        WorkerAction::ReadLastInsertRowId
    ));
    assert_eq!(resolved(WorkerState::Idle, DataCall::Exit, true), WorkerState::Stopped);
    assert_eq!(resolved(WorkerState::Idle, DataCall::Transaction, true), WorkerState::InTx);
    assert_eq!(resolved(WorkerState::Idle, DataCall::Transaction, false), WorkerState::Idle);
    assert_eq!(
        resolved(WorkerState::Idle, DataCall::Prepare(String::from("s")), true),
        WorkerState::Prepared { in_tx: false }
    );
    assert_eq!(
        resolved(WorkerState::Idle, DataCall::Prepare(String::from("s")), false),
        WorkerState::Idle
    );
}

#[test]
fn transaction_transitions() {
    assert!(matches!(
        WorkerState::InTx.step(DataCall::Prepare(String::from("s"))),
        WorkerAction::PrepareStatement(_)
    ));
    assert!(matches!(
        WorkerState::InTx.step(DataCall::TransactionCommit),
        WorkerAction::CommitTransaction
    ));
    assert!(matches!(
        WorkerState::InTx.step(DataCall::TransactionRollback),
        WorkerAction::RollbackTransaction
    ));
    assert_eq!(
        resolved(WorkerState::InTx, DataCall::Prepare(String::from("s")), true),
        WorkerState::Prepared { in_tx: true }
    );
    assert_eq!(
        resolved(WorkerState::InTx, DataCall::Prepare(String::from("s")), false),
        WorkerState::InTx
    );
    assert_eq!(resolved(WorkerState::InTx, DataCall::TransactionCommit, true), WorkerState::Idle);
    assert_eq!(resolved(WorkerState::InTx, DataCall::TransactionCommit, false), WorkerState::Idle);
    assert_eq!(
        resolved(WorkerState::InTx, DataCall::TransactionRollback, true),
        WorkerState::Idle
    );
}

#[test]
fn prepared_transitions() {
    let p = WorkerState::Prepared { in_tx: false };
    let pt = WorkerState::Prepared { in_tx: true };
    assert!(matches!(
        p.step(DataCall::StatementExecute(vec![])),
        WorkerAction::ExecuteStatement(_)
    ));
    assert!(matches!(
        p.step(DataCall::StatementQuery(vec![])),
        WorkerAction::QueryStatement(_)
    ));
    assert!(matches!(p.step(DataCall::StatementEnd), WorkerAction::CloseStatement));
    assert_eq!(resolved(p, DataCall::StatementExecute(vec![]), true), p);
    assert_eq!(resolved(p, DataCall::StatementExecute(vec![]), false), p);
    assert_eq!(
        resolved(p, DataCall::StatementQuery(vec![]), true),
        WorkerState::Streaming { in_tx: false }
    );
    assert_eq!(resolved(p, DataCall::StatementQuery(vec![]), false), p);
    assert_eq!(resolved(p, DataCall::StatementEnd, true), WorkerState::Idle);
    assert_eq!(resolved(pt, DataCall::StatementEnd, true), WorkerState::InTx);
}

#[test]
fn streaming_transitions() {
    let s = WorkerState::Streaming { in_tx: false };
    let st = WorkerState::Streaming { in_tx: true };
    assert!(matches!(s.step(DataCall::RowsNext), WorkerAction::FetchRow));
    assert!(matches!(s.step(DataCall::RowsEnd), WorkerAction::CloseRows));
    assert_eq!(resolved(s, DataCall::RowsNext, true), s);
    assert_eq!(resolved(s, DataCall::RowsNext, false), s);
    assert_eq!(resolved(s, DataCall::RowsEnd, true), WorkerState::Prepared { in_tx: false });
    assert_eq!(resolved(st, DataCall::RowsEnd, true), WorkerState::Prepared { in_tx: true });
}

#[test]
fn statement_lifecycle_returns_to_the_parent_state() {
    let mut s = WorkerState::InTx;
    s.resolve(DataCall::Prepare(String::from("q")).kind(), true);
    assert_eq!(s, WorkerState::Prepared { in_tx: true });
    s.resolve(DataCall::StatementExecute(vec![]).kind(), true);
    s.resolve(DataCall::StatementQuery(vec![]).kind(), true);
    assert_eq!(s, WorkerState::Streaming { in_tx: true });
    s.resolve(DataCall::RowsNext.kind(), true);
    s.resolve(DataCall::RowsNext.kind(), false);
    s.resolve(DataCall::RowsEnd.kind(), true);
    assert_eq!(s, WorkerState::Prepared { in_tx: true });
    s.resolve(DataCall::StatementEnd.kind(), true);
    assert_eq!(s, WorkerState::InTx);
}

#[test]
fn unexpected_requests_are_discarded() {
    assert!(matches!(
        WorkerState::Idle.step(DataCall::TransactionCommit),
        WorkerAction::Discard
    ));
    assert!(matches!(WorkerState::InTx.step(DataCall::RowsNext), WorkerAction::Discard));
    assert!(matches!(
        WorkerState::Streaming { in_tx: false }.step(DataCall::Transaction),
        WorkerAction::Discard
    ));
    assert_eq!(resolved(WorkerState::Idle, DataCall::TransactionCommit, true), WorkerState::Idle);
    assert_eq!(resolved(WorkerState::InTx, DataCall::RowsNext, true), WorkerState::InTx);
    let stopped = WorkerState::Stopped;
    assert!(matches!(stopped.step(DataCall::Transaction), WorkerAction::Discard));
    assert_eq!(resolved(stopped, DataCall::Transaction, true), WorkerState::Stopped);
}
