//! The worker protocol: the request and response types, and the strictly
//! sequential lifecycle machine every shard worker obeys.

use vstd::prelude::*;

verus! {

/// A tagged value used for input parameter bindings. Widened integer
/// variants are carried through to the engine without narrowing.
#[derive(Debug)]
pub enum SqlParam {
    String(String),
    I64(i64),
    U32(u32),
    U16(u16),
}

impl SqlParam {
    /// An explicit copy whose result is known to equal the value copied.
    pub fn duplicate(&self) -> (r: SqlParam)
        ensures
            r == *self,
    {
        match self {
            SqlParam::String(s) => SqlParam::String(s.clone()),
            SqlParam::I64(v) => SqlParam::I64(*v),
            SqlParam::U32(v) => SqlParam::U32(*v),
            SqlParam::U16(v) => SqlParam::U16(*v),
        }
    }
}

/// Copies a parameter list element by element.
pub fn duplicate_params(params: &Vec<SqlParam>) -> (r: Vec<SqlParam>)
    ensures
        r@ =~= params@,
{
    let mut out: Vec<SqlParam> = Vec::new();
    let mut i: usize = 0;
    while i < params.len()
        invariant
            i <= params.len(),
            out@ =~= params@.subrange(0, i as int),
        decreases params.len() - i,
    {
        out.push(params[i].duplicate());
        i = i + 1;
    }
    out
}

/// A tagged value used for output cells. The `Real` variant carries the
/// IEEE-754 bit pattern of the engine's double so that the layer can move
/// such cells around without interpreting them.
#[derive(Debug)]
pub enum SqlValue {
    Null,
    Integer(i64),
    Real(u64),
    Text(Vec<u8>),
    Blob(Vec<u8>),
}

/// One row as produced by a worker: the cells in projection order.
pub type SqlRow = Vec<SqlValue>;

/// A request addressed to one shard worker.
#[derive(Debug)]
pub enum DataCall {
    Exit,
    Prepare(String),
    StatementExecute(Vec<SqlParam>),
    StatementQuery(Vec<SqlParam>),
    StatementEnd,
    RowsNext,
    RowsEnd,
    Transaction,
    TransactionCommit,
    TransactionRollback,
    LastInsertRowId,
}

/// A response produced by one shard worker. Engine failures travel as
/// plain messages.
#[derive(Debug)]
pub enum DataRet {
    Prepare(Result<(), String>),
    StatementExecute(Result<(), String>),
    StatementQuery(Result<(), String>),
    Next(Result<Option<SqlRow>, String>),
    Transaction(Result<(), String>),
    TransactionCommit(Result<(), String>),
    TransactionRollback(Result<(), String>),
    LastInsertRowId(i64),
}

/// The request kinds, used by the ghost send log of the coordinator.
#[derive(Debug, PartialEq, Eq, Structural, Clone, Copy)]
pub enum CallKind {
    Exit,
    Prepare,
    StatementExecute,
    StatementQuery,
    StatementEnd,
    RowsNext,
    RowsEnd,
    Transaction,
    TransactionCommit,
    TransactionRollback,
    LastInsertRowId,
}

/// One request as the coordinator's ghost log records it: its kind and
/// its payload — the prepared text, or the bound parameters; both empty
/// for the kinds that carry none.
pub struct SentCall {
    pub kind: CallKind,
    pub text: Seq<char>,
    pub params: Seq<SqlParam>,
}

/// A request without a payload.
pub open spec fn plain_call(k: CallKind) -> SentCall {
    SentCall { kind: k, text: Seq::empty(), params: Seq::empty() }
}

/// A `Prepare` carrying its statement text.
pub open spec fn prepare_call(text: Seq<char>) -> SentCall {
    SentCall { kind: CallKind::Prepare, text, params: Seq::empty() }
}

/// A `StatementExecute` carrying its bound parameters.
pub open spec fn exec_call(params: Seq<SqlParam>) -> SentCall {
    SentCall { kind: CallKind::StatementExecute, text: Seq::empty(), params }
}

/// A `StatementQuery` carrying its bound parameters.
pub open spec fn query_call(params: Seq<SqlParam>) -> SentCall {
    SentCall { kind: CallKind::StatementQuery, text: Seq::empty(), params }
}

/// What the ghost log records for one request value.
pub open spec fn call_view(call: &DataCall) -> SentCall {
    match call {
        DataCall::Prepare(s) => prepare_call(s@),
        DataCall::StatementExecute(p) => exec_call(p@),
        DataCall::StatementQuery(p) => query_call(p@),
        _ => plain_call(kind_of(call)),
    }
}

/// What the ghost log records for one request built from `kind` with the
/// payloads `text` and `params`.
pub open spec fn record_of(kind: CallKind, text: Seq<char>, params: Seq<SqlParam>) -> SentCall {
    match kind {
        CallKind::Prepare => prepare_call(text),
        CallKind::StatementExecute => exec_call(params),
        CallKind::StatementQuery => query_call(params),
        _ => plain_call(kind),
    }
}

/// The kind of a request.
pub open spec fn kind_of(call: &DataCall) -> CallKind {
    match call {
        DataCall::Exit => CallKind::Exit,
        DataCall::Prepare(_) => CallKind::Prepare,
        DataCall::StatementExecute(_) => CallKind::StatementExecute,
        DataCall::StatementQuery(_) => CallKind::StatementQuery,
        DataCall::StatementEnd => CallKind::StatementEnd,
        DataCall::RowsNext => CallKind::RowsNext,
        DataCall::RowsEnd => CallKind::RowsEnd,
        DataCall::Transaction => CallKind::Transaction,
        DataCall::TransactionCommit => CallKind::TransactionCommit,
        DataCall::TransactionRollback => CallKind::TransactionRollback,
        DataCall::LastInsertRowId => CallKind::LastInsertRowId,
    }
}

/// Whether a worker answers the request with exactly one response.
/// `Exit`, `StatementEnd` and `RowsEnd` are terminators without a reply.
pub open spec fn expects_response(kind: CallKind) -> bool {
    match kind {
        CallKind::Exit => false,
        CallKind::StatementEnd => false,
        CallKind::RowsEnd => false,
        _ => true,
    }
}

impl DataCall {
    /// The kind of this request.
    pub fn kind(&self) -> (k: CallKind)
        ensures
            k == kind_of(self),
    {
        match self {
            DataCall::Exit => CallKind::Exit,
            DataCall::Prepare(_) => CallKind::Prepare,
            DataCall::StatementExecute(_) => CallKind::StatementExecute,
            DataCall::StatementQuery(_) => CallKind::StatementQuery,
            DataCall::StatementEnd => CallKind::StatementEnd,
            DataCall::RowsNext => CallKind::RowsNext,
            DataCall::RowsEnd => CallKind::RowsEnd,
            DataCall::Transaction => CallKind::Transaction,
            DataCall::TransactionCommit => CallKind::TransactionCommit,
            DataCall::TransactionRollback => CallKind::TransactionRollback,
            DataCall::LastInsertRowId => CallKind::LastInsertRowId,
        }
    }
}

/// Run-time twin of [`expects_response`].
pub fn call_expects_response(call: &DataCall) -> (r: bool)
    ensures
        r == expects_response(kind_of(call)),
{
    match call {
        DataCall::Exit => false,
        DataCall::StatementEnd => false,
        DataCall::RowsEnd => false,
        _ => true,
    }
}

/// The state of one shard worker's strictly sequential lifecycle:
/// idle, in a transaction, holding a prepared statement (inside or outside
/// a transaction), streaming rows, or terminated.
#[derive(Debug, PartialEq, Eq, Structural, Clone, Copy)]
pub enum WorkerState {
    Idle,
    InTx,
    Prepared { in_tx: bool },
    Streaming { in_tx: bool },
    Stopped,
}

/// What the worker's host must do for one accepted request.
/// `Discard` stands for an unexpected request in the current state: it is
/// dropped without a response and the state is kept.
#[derive(Debug)]
pub enum WorkerAction {
    Stop,
    BeginTransaction,
    CommitTransaction,
    RollbackTransaction,
    PrepareStatement(String),
    ExecuteStatement(Vec<SqlParam>),
    QueryStatement(Vec<SqlParam>),
    FetchRow,
    ReadLastInsertRowId,
    CloseStatement,
    CloseRows,
    Discard,
}

/// The kind of action chosen for a `(state, request)` pair.
#[derive(Debug, PartialEq, Eq, Structural, Clone, Copy)]
pub enum WorkerActionKind {
    Stop,
    BeginTransaction,
    CommitTransaction,
    RollbackTransaction,
    PrepareStatement,
    ExecuteStatement,
    QueryStatement,
    FetchRow,
    ReadLastInsertRowId,
    CloseStatement,
    CloseRows,
    Discard,
}

/// The kind of an action.
pub open spec fn action_kind(action: &WorkerAction) -> WorkerActionKind {
    match action {
        WorkerAction::Stop => WorkerActionKind::Stop,
        WorkerAction::BeginTransaction => WorkerActionKind::BeginTransaction,
        WorkerAction::CommitTransaction => WorkerActionKind::CommitTransaction,
        WorkerAction::RollbackTransaction => WorkerActionKind::RollbackTransaction,
        WorkerAction::PrepareStatement(_) => WorkerActionKind::PrepareStatement,
        WorkerAction::ExecuteStatement(_) => WorkerActionKind::ExecuteStatement,
        WorkerAction::QueryStatement(_) => WorkerActionKind::QueryStatement,
        WorkerAction::FetchRow => WorkerActionKind::FetchRow,
        WorkerAction::ReadLastInsertRowId => WorkerActionKind::ReadLastInsertRowId,
        WorkerAction::CloseStatement => WorkerActionKind::CloseStatement,
        WorkerAction::CloseRows => WorkerActionKind::CloseRows,
        WorkerAction::Discard => WorkerActionKind::Discard,
    }
}

/// The action a worker takes for one request in one state.
pub open spec fn spec_worker_action(state: WorkerState, call: CallKind) -> WorkerActionKind {
    match (state, call) {
        (WorkerState::Idle, CallKind::Exit) => WorkerActionKind::Stop,
        (WorkerState::Idle, CallKind::Transaction) => WorkerActionKind::BeginTransaction,
        (WorkerState::Idle, CallKind::Prepare) => WorkerActionKind::PrepareStatement,
        (WorkerState::Idle, CallKind::LastInsertRowId) => WorkerActionKind::ReadLastInsertRowId,
        (WorkerState::InTx, CallKind::Prepare) => WorkerActionKind::PrepareStatement,
        (WorkerState::InTx, CallKind::TransactionCommit) => WorkerActionKind::CommitTransaction,
        (WorkerState::InTx, CallKind::TransactionRollback) => (
            WorkerActionKind::RollbackTransaction
        ),
        (WorkerState::Prepared { .. }, CallKind::StatementExecute) => (
            WorkerActionKind::ExecuteStatement
        ),
        (WorkerState::Prepared { .. }, CallKind::StatementQuery) => (
            WorkerActionKind::QueryStatement
        ),
        (WorkerState::Prepared { .. }, CallKind::StatementEnd) => WorkerActionKind::CloseStatement,
        (WorkerState::Streaming { .. }, CallKind::RowsNext) => WorkerActionKind::FetchRow,
        (WorkerState::Streaming { .. }, CallKind::RowsEnd) => WorkerActionKind::CloseRows,
        _ => WorkerActionKind::Discard,
    }
}

/// The worker's state once the chosen action has run, `ok` saying whether
/// the engine call succeeded. An engine failure inside a transaction keeps
/// the worker in the transaction until commit or rollback; a failed
/// `StatementQuery` keeps the statement prepared; a failed row fetch keeps
/// the stream open, since the coordinator still terminates it with
/// `RowsEnd`.
pub open spec fn spec_worker_next(state: WorkerState, call: CallKind, ok: bool) -> WorkerState {
    match spec_worker_action(state, call) {
        WorkerActionKind::Stop => WorkerState::Stopped,
        WorkerActionKind::BeginTransaction => if ok {
            WorkerState::InTx
        } else {
            WorkerState::Idle
        },
        WorkerActionKind::CommitTransaction => WorkerState::Idle,
        WorkerActionKind::RollbackTransaction => WorkerState::Idle,
        WorkerActionKind::PrepareStatement => if ok {
            WorkerState::Prepared { in_tx: state is InTx }
        } else {
            state
        },
        WorkerActionKind::ExecuteStatement => state,
        WorkerActionKind::QueryStatement => if ok {
            WorkerState::Streaming { in_tx: state->Prepared_in_tx }
        } else {
            state
        },
        WorkerActionKind::FetchRow => state,
        WorkerActionKind::ReadLastInsertRowId => state,
        WorkerActionKind::CloseStatement => if state->Prepared_in_tx {
            WorkerState::InTx
        } else {
            WorkerState::Idle
        },
        WorkerActionKind::CloseRows => WorkerState::Prepared { in_tx: state->Streaming_in_tx },
        WorkerActionKind::Discard => state,
    }
}

impl WorkerState {
    /// Chooses the action for one incoming request, handing the request's
    /// payload to the host. The state is unchanged until the host reports
    /// the outcome through [`WorkerState::resolve`].
    pub fn step(&self, call: DataCall) -> (action: WorkerAction)
        ensures
            action_kind(&action) == spec_worker_action(*self, kind_of(&call)),
            action matches WorkerAction::PrepareStatement(sql) ==> (
            call matches DataCall::Prepare(c) && sql == c),
            action matches WorkerAction::ExecuteStatement(p) ==> (
            call matches DataCall::StatementExecute(c) && p == c),
            action matches WorkerAction::QueryStatement(p) ==> (
            call matches DataCall::StatementQuery(c) && p == c),
    {
        match (self, call) {
            (WorkerState::Idle, DataCall::Exit) => WorkerAction::Stop,
            (WorkerState::Idle, DataCall::Transaction) => WorkerAction::BeginTransaction,
            (WorkerState::Idle, DataCall::Prepare(sql)) => WorkerAction::PrepareStatement(sql),
            (WorkerState::Idle, DataCall::LastInsertRowId) => WorkerAction::ReadLastInsertRowId,
            (WorkerState::InTx, DataCall::Prepare(sql)) => WorkerAction::PrepareStatement(sql),
            (WorkerState::InTx, DataCall::TransactionCommit) => WorkerAction::CommitTransaction,
            (WorkerState::InTx, DataCall::TransactionRollback) => (
            WorkerAction::RollbackTransaction
            ),
            (WorkerState::Prepared { .. }, DataCall::StatementExecute(p)) => (
            WorkerAction::ExecuteStatement(p)
            ),
            (WorkerState::Prepared { .. }, DataCall::StatementQuery(p)) => (
            WorkerAction::QueryStatement(p)
            ),
            (WorkerState::Prepared { .. }, DataCall::StatementEnd) => WorkerAction::CloseStatement,
            (WorkerState::Streaming { .. }, DataCall::RowsNext) => WorkerAction::FetchRow,
            (WorkerState::Streaming { .. }, DataCall::RowsEnd) => WorkerAction::CloseRows,
            _ => WorkerAction::Discard,
        }
    }

    /// Moves to the state after the action for a request of the given
    /// kind has run, `ok` saying whether the engine call succeeded.
    pub fn resolve(&mut self, kind: CallKind, ok: bool)
        ensures
            *final(self) == spec_worker_next(*old(self), kind, ok),
    {
        let next = match (&*self, kind) {
            (WorkerState::Idle, CallKind::Exit) => WorkerState::Stopped,
            (WorkerState::Idle, CallKind::Transaction) => if ok {
                WorkerState::InTx
            } else {
                WorkerState::Idle
            },
            (WorkerState::Idle, CallKind::Prepare) => if ok {
                WorkerState::Prepared { in_tx: false }
            } else {
                WorkerState::Idle
            },
            (WorkerState::InTx, CallKind::Prepare) => if ok {
                WorkerState::Prepared { in_tx: true }
            } else {
                WorkerState::InTx
            },
            (WorkerState::InTx, CallKind::TransactionCommit) => WorkerState::Idle,
            (WorkerState::InTx, CallKind::TransactionRollback) => WorkerState::Idle,
            (WorkerState::Prepared { in_tx }, CallKind::StatementQuery) => if ok {
                WorkerState::Streaming { in_tx: *in_tx }
            } else {
                WorkerState::Prepared { in_tx: *in_tx }
            },
            (WorkerState::Prepared { in_tx }, CallKind::StatementEnd) => if *in_tx {
                WorkerState::InTx
            } else {
                WorkerState::Idle
            },
            (WorkerState::Streaming { in_tx }, CallKind::RowsEnd) => WorkerState::Prepared {
                in_tx: *in_tx,
            },
            _ => *self,
        };
        *self = next;
    }
}

/// After a successful `Prepare`, a single `StatementEnd` returns the worker
/// to exactly the state the statement was prepared in: the transaction if
/// one was open, and idle otherwise.
pub proof fn lemma_statement_end_returns_to_parent(state: WorkerState, ok_any: bool)
    requires
        state is Idle || state is InTx,
    ensures
        spec_worker_next(
            spec_worker_next(state, CallKind::Prepare, true),
            CallKind::StatementEnd,
            ok_any,
        ) == state,
{
}

/// A streaming worker returns to its prepared state on `RowsEnd`, whatever
/// row fetches happened in between and however they ended.
pub proof fn lemma_rows_end_returns_to_prepared(in_tx: bool, ok_any: bool)
    ensures
        spec_worker_next(
            WorkerState::Streaming { in_tx },
            CallKind::RowsEnd,
            ok_any,
        ) == (WorkerState::Prepared { in_tx }),
        spec_worker_next(
            WorkerState::Streaming { in_tx },
            CallKind::RowsNext,
            ok_any,
        ) == (WorkerState::Streaming { in_tx }),
{
}

/// An unexpected request never moves the worker: it is discarded.
pub proof fn lemma_discard_keeps_state(state: WorkerState, call: CallKind, ok: bool)
    requires
        spec_worker_action(state, call) == WorkerActionKind::Discard,
    ensures
        spec_worker_next(state, call, ok) == state,
{
}


/// A worker's state after a run of requests, each paired with whether its
/// engine call succeeded.
pub open spec fn run_worker(state: WorkerState, trace: Seq<(CallKind, bool)>) -> WorkerState
    decreases trace.len(),
{
    if trace.len() == 0 {
        state
    } else {
        run_worker(spec_worker_next(state, trace[0].0, trace[0].1), trace.drop_first())
    }
}

/// The requests a coordinator addresses to a prepared statement between
/// its prepare and its end.
pub open spec fn statement_phase_kind(k: CallKind) -> bool {
    k == CallKind::StatementExecute || k == CallKind::StatementQuery || k == CallKind::RowsNext
        || k == CallKind::RowsEnd
}

/// During the statement phase the worker never leaves the statement: it
/// stays prepared or streaming, under the same parent.
pub proof fn lemma_statement_phase_stays(in_tx: bool, state: WorkerState, trace: Seq<(CallKind, bool)>)
    requires
        state == (WorkerState::Prepared { in_tx }) || state == (WorkerState::Streaming { in_tx }),
        forall|i: int| 0 <= i < trace.len() ==> statement_phase_kind(#[trigger] trace[i].0),
    ensures
        run_worker(state, trace) == (WorkerState::Prepared { in_tx }) || run_worker(state, trace)
            == (WorkerState::Streaming { in_tx }),
    decreases trace.len(),
{
    if trace.len() > 0 {
        let next = spec_worker_next(state, trace[0].0, trace[0].1);
        assert(statement_phase_kind(trace[0].0));
        assert(next == (WorkerState::Prepared { in_tx }) || next == (WorkerState::Streaming {
            in_tx,
        }));
        assert(forall|i: int|
            0 <= i < trace.drop_first().len() ==> statement_phase_kind(
                #[trigger] trace.drop_first()[i].0,
            ));
        lemma_statement_phase_stays(in_tx, next, trace.drop_first());
    }
}

/// The statement lifecycle law: a worker that accepts a `Prepare`, then
/// any run of statement-phase requests that leaves no stream open, and
/// then one `StatementEnd`, stands exactly where it stood before the
/// prepare: in its transaction if one was open, and idle otherwise.
pub proof fn lemma_statement_lifecycle(
    parent: WorkerState,
    trace: Seq<(CallKind, bool)>,
    ok_any: bool,
)
    requires
        parent is Idle || parent is InTx,
        forall|i: int| 0 <= i < trace.len() ==> statement_phase_kind(#[trigger] trace[i].0),
        run_worker(spec_worker_next(parent, CallKind::Prepare, true), trace) is Prepared,
    ensures
        spec_worker_next(
            run_worker(spec_worker_next(parent, CallKind::Prepare, true), trace),
            CallKind::StatementEnd,
            ok_any,
        ) == parent,
{
    let in_tx = parent is InTx;
    lemma_statement_phase_stays(
        in_tx,
        spec_worker_next(parent, CallKind::Prepare, true),
        trace,
    );
}


} // verus!
