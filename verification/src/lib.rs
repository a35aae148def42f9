//! A client-side horizontal sharding layer over an embedded SQL engine:
//! one connection-like handle fans each statement out to `N` shard
//! workers and merges their row streams back into one, preserving
//! ordering, limits, offsets and count aggregation. This crate holds the
//! verified core: the statement planner, the router, the rewriter, the
//! per-worker lifecycle machine, the merge engine and the coordinator;
//! the threads, files and the engine itself live outside it.

pub mod channel;
pub mod error;
pub mod merge;
pub mod parser;
pub mod rewriter;
pub mod router;
pub mod sql_daemon;
pub mod text;

pub use error::Error;
pub use parser::{Aggregate, Limit, OrderBy, Parser, Query};
pub use rewriter::ReWriter;
pub use router::{ModShardingIndex, Router, ShardingIndex};

use crate::router::{spec_route, RoutePlan};
pub use sql_daemon::{DataCall, DataRet, SqlParam, SqlRow, SqlValue, WorkerAction, WorkerState};

use crate::channel::{chan_recv, chan_send};
use crate::merge::HeapBuf;
use crate::parser::{parse_outcome_of, ParsedStatement};
use crate::rewriter::rewritten_of;
use crate::sql_daemon::{call_expects_response, call_view, duplicate_params, exec_call,
    expects_response, kind_of, plain_call, prepare_call, query_call, record_of, CallKind,
    SentCall};
use vstd::prelude::*;
use vstd::string::StringExecFns;

verus! {

/// The immutable configuration of a sharding handle: the shard count, the
/// routed table, the sharding column and the sharding function.
pub struct ShardingIteConfig<P> {
    pub sharding_count: u32,
    pub sharding_table: String,
    pub sharding_column: String,
    pub sharding_index: P,
}

/// One empty request log per shard.
pub open spec fn empty_logs(n: u32) -> Seq<Seq<SentCall>> {
    Seq::new(n as nat, |i: int| Seq::<SentCall>::empty())
}

/// Every shard's log extended by the same request record.
pub open spec fn logs_with_push(logs: Seq<Seq<SentCall>>, c: SentCall) -> Seq<Seq<SentCall>> {
    Seq::new(logs.len(), |i: int| logs[i].push(c))
}

/// Each listed shard's log extended by the same request record; every
/// other shard's log unchanged.
pub open spec fn logs_with_push_at(
    logs: Seq<Seq<SentCall>>,
    targets: Seq<u32>,
    c: SentCall,
) -> Seq<Seq<SentCall>> {
    Seq::new(
        logs.len(),
        |i: int|
            if targets.contains(i as u32) {
                logs[i].push(c)
            } else {
                logs[i]
            },
    )
}

/// The log `post` extends `pre` without dispatching work: no appended
/// request is a `StatementExecute` or a `TransactionCommit`, so no
/// shard's persistent data can have changed through the growth.
pub open spec fn no_dispatch(pre: Seq<SentCall>, post: Seq<SentCall>) -> bool {
    &&& pre.len() <= post.len()
    &&& post.subrange(0, pre.len() as int) =~= pre
    &&& forall|j: int|
        pre.len() <= j < post.len() ==> (#[trigger] post[j]).kind != CallKind::StatementExecute
            && post[j].kind != CallKind::TransactionCommit
}

/// A log extends itself, and extends what it extends.
pub proof fn lemma_no_dispatch_trans(a: Seq<SentCall>, b: Seq<SentCall>, c: Seq<SentCall>)
    requires
        no_dispatch(a, b),
        no_dispatch(b, c),
    ensures
        no_dispatch(a, c),
{
    assert(c.subrange(0, a.len() as int) =~= b.subrange(0, b.len() as int).subrange(
        0,
        a.len() as int,
    ));
    assert forall|j: int|
        a.len() <= j < c.len() implies (#[trigger] c[j]).kind != CallKind::StatementExecute && c[j].kind
        != CallKind::TransactionCommit by {
        if j < b.len() {
            assert(c.subrange(0, b.len() as int)[j] == c[j]);
            assert(b[j] == c[j]);
            assert(b[j].kind != CallKind::StatementExecute && b[j].kind
                != CallKind::TransactionCommit);
        }
    }
}

/// One best-effort push of a non-dispatching record keeps the log free of
/// dispatch.
pub proof fn lemma_no_dispatch_push(pre: Seq<SentCall>, post: Seq<SentCall>, c: SentCall)
    requires
        post =~= pre.push(c) || post =~= pre,
        c.kind != CallKind::StatementExecute,
        c.kind != CallKind::TransactionCommit,
    ensures
        no_dispatch(pre, post),
{
    if post =~= pre.push(c) {
        assert(post.subrange(0, pre.len() as int) =~= pre);
    } else {
        assert(post.subrange(0, pre.len() as int) =~= pre);
    }
}

/// The request kind a response answers.
pub open spec fn ret_kind(ret: DataRet) -> CallKind {
    match ret {
        DataRet::Prepare(_) => CallKind::Prepare,
        DataRet::StatementExecute(_) => CallKind::StatementExecute,
        DataRet::StatementQuery(_) => CallKind::StatementQuery,
        DataRet::Next(_) => CallKind::RowsNext,
        DataRet::Transaction(_) => CallKind::Transaction,
        DataRet::TransactionCommit(_) => CallKind::TransactionCommit,
        DataRet::TransactionRollback(_) => CallKind::TransactionRollback,
        DataRet::LastInsertRowId(_) => CallKind::LastInsertRowId,
    }
}

/// Whether a response reports success.
pub open spec fn ret_ok(ret: DataRet) -> bool {
    match ret {
        DataRet::Prepare(r) => r is Ok,
        DataRet::StatementExecute(r) => r is Ok,
        DataRet::StatementQuery(r) => r is Ok,
        DataRet::Next(r) => r is Ok,
        DataRet::Transaction(r) => r is Ok,
        DataRet::TransactionCommit(r) => r is Ok,
        DataRet::TransactionRollback(r) => r is Ok,
        DataRet::LastInsertRowId(_) => true,
    }
}

/// Checks one response against the request kind the caller is waiting
/// for: a matching success passes, a matching failure surfaces the
/// engine's message, and anything else is a protocol mismatch.
fn classify_ret(ret: DataRet, kind: CallKind) -> (r: Result<(), Error>)
    ensures
        match r {
            Ok(()) => ret_kind(ret) == kind && ret_ok(ret),
            Err(e) => if ret_kind(ret) == kind {
                e is EngineError && !ret_ok(ret)
            } else {
                e is ProtocolMismatch
            },
        },
{
    let matches_kind = match (&ret, kind) {
        (DataRet::Prepare(_), CallKind::Prepare) => true,
        (DataRet::StatementExecute(_), CallKind::StatementExecute) => true,
        (DataRet::StatementQuery(_), CallKind::StatementQuery) => true,
        (DataRet::Next(_), CallKind::RowsNext) => true,
        (DataRet::Transaction(_), CallKind::Transaction) => true,
        (DataRet::TransactionCommit(_), CallKind::TransactionCommit) => true,
        (DataRet::TransactionRollback(_), CallKind::TransactionRollback) => true,
        (DataRet::LastInsertRowId(_), CallKind::LastInsertRowId) => true,
        _ => false,
    };
    if !matches_kind {
        return Err(Error::ProtocolMismatch);
    }
    match ret {
        DataRet::Prepare(r) => match r {
            Ok(()) => Ok(()),
            Err(m) => Err(Error::EngineError(m)),
        },
        DataRet::StatementExecute(r) => match r {
            Ok(()) => Ok(()),
            Err(m) => Err(Error::EngineError(m)),
        },
        DataRet::StatementQuery(r) => match r {
            Ok(()) => Ok(()),
            Err(m) => Err(Error::EngineError(m)),
        },
        DataRet::Next(r) => match r {
            Ok(_) => Ok(()),
            Err(m) => Err(Error::EngineError(m)),
        },
        DataRet::Transaction(r) => match r {
            Ok(()) => Ok(()),
            Err(m) => Err(Error::EngineError(m)),
        },
        DataRet::TransactionCommit(r) => match r {
            Ok(()) => Ok(()),
            Err(m) => Err(Error::EngineError(m)),
        },
        DataRet::TransactionRollback(r) => match r {
            Ok(()) => Ok(()),
            Err(m) => Err(Error::EngineError(m)),
        },
        DataRet::LastInsertRowId(_) => Ok(()),
    }
}

/// The handle over the pool of shard workers: one request channel per
/// shard and the one shared response channel. The ghost request log, the
/// count of responses implied by sent requests and the count of consumed
/// responses state the request/response discipline: a public operation
/// consumes exactly as many responses as it sent requests before it
/// returns successfully. The ghost history of completed one-shot
/// operations states what a batch ran and in which order.
pub struct ShardingIte<P> {
    config: ShardingIteConfig<P>,
    call_map: Vec<std::sync::mpsc::Sender<DataCall>>,
    ret_rx: std::sync::mpsc::Receiver<(u32, DataRet)>,
    sent: Ghost<Seq<Seq<SentCall>>>,
    alive: Ghost<Seq<bool>>,
    expect: Ghost<nat>,
    recvd: Ghost<nat>,
    done: Ghost<Seq<(Seq<char>, Seq<SqlParam>)>>,
}

impl<P> ShardingIte<P> {
    /// The number of shards.
    pub closed spec fn spec_count(&self) -> u32 {
        self.config.sharding_count
    }

    /// The configured sharding table name.
    pub closed spec fn spec_table(&self) -> Seq<char> {
        self.config.sharding_table@
    }

    /// The configured sharding column name.
    pub closed spec fn spec_column(&self) -> Seq<char> {
        self.config.sharding_column@
    }

    /// The configured sharding function.
    pub closed spec fn policy(&self) -> P {
        self.config.sharding_index
    }

    /// The requests sent to each shard, in order, with their payloads.
    pub closed spec fn sent_log(&self) -> Seq<Seq<SentCall>> {
        self.sent@
    }

    /// Whether each shard's request channel has never failed: a shard's
    /// flag is cleared the first time a send to it fails, and never set
    /// again. A terminator reaches every shard whose flag is still set.
    pub closed spec fn alive(&self) -> Seq<bool> {
        self.alive@
    }

    /// How many responses the sent requests imply.
    pub closed spec fn expected(&self) -> nat {
        self.expect@
    }

    /// How many responses were consumed.
    pub closed spec fn received(&self) -> nat {
        self.recvd@
    }

    /// The history of completed one-shot operations: the text and the
    /// parameters of every [`ShardingIte::execute`] that returned
    /// successfully, in order.
    pub closed spec fn ops(&self) -> Seq<(Seq<char>, Seq<SqlParam>)> {
        self.done@
    }

    /// Well-formedness: one channel and one log per shard, and at least
    /// one shard.
    pub closed spec fn wf(&self) -> bool {
        &&& self.call_map@.len() == self.config.sharding_count
        &&& self.sent@.len() == self.config.sharding_count
        &&& self.alive@.len() == self.config.sharding_count
        &&& self.config.sharding_count >= 1
    }

    /// The other handle state has the same configuration.
    pub open spec fn same_config(&self, other: &Self) -> bool {
        &&& self.spec_count() == other.spec_count()
        &&& self.spec_table() == other.spec_table()
        &&& self.spec_column() == other.spec_column()
        &&& self.policy() == other.policy()
    }

    /// The number of shards.
    pub fn sharding_count(&self) -> (n: u32)
        ensures
            n == self.spec_count(),
    {
        self.config.sharding_count
    }
}

/// The shard list one statement is dispatched to: every shard in
/// ascending order under a broadcast plan, the sharding function's shard
/// under a key plan, and nothing when routing or the sharding function
/// rejects.
pub open spec fn spec_target_list<P: ShardingIndex>(
    si: ShardingIte<P>,
    m: parser::StatementModel,
    params: Seq<SqlParam>,
) -> Option<Seq<u32>> {
    match spec_route(si.spec_table(), si.spec_column(), m, params) {
        RoutePlan::All => Some(Seq::new(si.spec_count() as nat, |i: int| i as u32)),
        RoutePlan::ByKey(p) => match si.policy().spec_sharding_index(&p) {
            Some(ix) => Some(seq![ix]),
            None => None,
        },
        RoutePlan::Reject(_) => None,
    }
}

/// The per-shard request pattern of one successful one-shot execute: the
/// transaction begin, the prepare carrying the rewritten text, the
/// execute carrying the bound parameters where the shard was routed, the
/// best-effort statement end, and the commit, in that order.
pub open spec fn spec_exec_log_shape(
    pre: Seq<SentCall>,
    post: Seq<SentCall>,
    sql: Seq<char>,
    params: Seq<SqlParam>,
    routed: bool,
) -> bool {
    let mid = if routed {
        pre + seq![
            plain_call(CallKind::Transaction),
            prepare_call(rewritten_of(sql)),
            exec_call(params),
        ]
    } else {
        pre + seq![plain_call(CallKind::Transaction), prepare_call(rewritten_of(sql))]
    };
    post =~= mid + seq![plain_call(CallKind::TransactionCommit)] || post =~= mid + seq![
        plain_call(CallKind::StatementEnd),
        plain_call(CallKind::TransactionCommit),
    ]
}

/// The value is a result the row consumer can produce on some row: what
/// a single-row query returns, stated through the consumer's own
/// contract.
pub open spec fn first_row_yields<T, F: FnOnce(Row) -> Result<T, Error>>(f: F, v: T) -> bool {
    exists|row: Row| #[trigger] f.ensures((row,), Ok(v))
}

/// The history entries one batch of statements appends: each non-empty
/// trimmed piece of the text split at `;`, run without parameters.
pub open spec fn batch_ops(sql: Seq<char>) -> Seq<(Seq<char>, Seq<SqlParam>)> {
    crate::text::batch_pieces(sql).map_values(|p: Seq<char>| (p, Seq::<SqlParam>::empty()))
}

/// Whether a row stream carries exactly the plan of one statement model:
/// the planned limit and offset, the planned ordering and the planned
/// aggregate, with nothing produced yet.
pub open spec fn rows_plan_matches(m: parser::StatementModel, rows: Rows) -> bool {
    match crate::parser::spec_plan(m) {
        parser::PlanOutcome::Planned { limit, order_by, count_star } => {
            &&& rows.spec_limit() == limit
            &&& rows.spec_order() == order_by
            &&& rows.spec_is_count() == count_star
        },
        parser::PlanOutcome::Rejected(_) => false,
    }
}

/// The routed half of [`spec_query_post`]: what holds of a query once the
/// routed shard list `t` is fixed. A planning rejection surfaces as that
/// error with the handle untouched; on success `StatementQuery` was sent
/// to exactly the shards of `t` and no others, one response was consumed
/// per shard of `t`, and the returned stream is fresh, scoped to `t` and
/// carrying the statement's plan.
pub open spec fn spec_query_routed<P: ShardingIndex>(
    si0: ShardingIte<P>,
    si1: ShardingIte<P>,
    m: parser::StatementModel,
    params: Seq<SqlParam>,
    t: Seq<u32>,
    r: Result<Rows, Error>,
) -> bool {
    &&& (crate::parser::spec_plan(m) matches parser::PlanOutcome::Rejected(e) ==> (
    r matches Err(e2) && e2 == e && si1 == si0))
    &&& (r matches Ok(rows) ==> {
        &&& rows.targets() =~= t
        &&& rows.spec_counter() == 0
        &&& !rows.spec_skipped()
        &&& rows.pulled() =~= Seq::<(u32, Seq<SqlValue>)>::empty()
        &&& rows_plan_matches(m, rows)
        &&& si1.sent_log() =~= logs_with_push_at(si0.sent_log(), t, query_call(params))
        &&& si1.expected() == si0.expected() + t.len()
        &&& si1.received() == si0.received() + t.len()
    })
}

/// What a query over one statement model guarantees: a routing rejection,
/// a rejected sharding key or a planning rejection surfaces as that error
/// with the handle untouched, and a success dispatched to exactly the
/// routed shards, as [`spec_query_routed`] states it.
pub open spec fn spec_query_post<P: ShardingIndex>(
    si0: ShardingIte<P>,
    si1: ShardingIte<P>,
    m: parser::StatementModel,
    params: Seq<SqlParam>,
    r: Result<Rows, Error>,
) -> bool {
    match spec_route(si0.spec_table(), si0.spec_column(), m, params) {
        RoutePlan::Reject(e) => r matches Err(e2) && e2 == e && si1 == si0,
        RoutePlan::ByKey(p) => match si0.policy().spec_sharding_index(&p) {
            None => r matches Err(e) && e is InvalidShardingKey && si1 == si0,
            Some(ix) => spec_query_routed(si0, si1, m, params, seq![ix], r),
        },
        RoutePlan::All => spec_query_routed(
            si0,
            si1,
            m,
            params,
            Seq::new(si0.spec_count() as nat, |i: int| i as u32),
            r,
        ),
    }
}

impl<P: ShardingIndex> ShardingIte<P> {
    /// Builds the handle over already-connected workers: one request
    /// channel per shard, in shard order, and the shared response
    /// channel. A shard count of zero, or a channel list of another
    /// length, is rejected.
    pub fn new(
        config: ShardingIteConfig<P>,
        call_map: Vec<std::sync::mpsc::Sender<DataCall>>,
        ret_rx: std::sync::mpsc::Receiver<(u32, DataRet)>,
    ) -> (r: Result<Self, Error>)
        ensures
            (config.sharding_count >= 1 && call_map@.len() == config.sharding_count) <==> r is Ok,
            r matches Ok(si) ==> {
                &&& si.wf()
                &&& si.spec_count() == config.sharding_count
                &&& si.spec_table() == config.sharding_table@
                &&& si.spec_column() == config.sharding_column@
                &&& si.policy() == config.sharding_index
                &&& si.sent_log() =~= empty_logs(config.sharding_count)
                &&& si.alive() =~= Seq::new(config.sharding_count as nat, |i: int| true)
                &&& si.expected() == 0
                &&& si.received() == 0
                &&& si.ops() =~= Seq::<(Seq<char>, Seq<SqlParam>)>::empty()
            },
            r matches Err(e) ==> e is InvalidConfig,
    {
        if config.sharding_count == 0 {
            return Err(Error::InvalidConfig);
        }
        if call_map.len() != config.sharding_count as usize {
            return Err(Error::InvalidConfig);
        }
        let ghost n = config.sharding_count;
        Ok(
            ShardingIte {
                config,
                call_map,
                ret_rx,
                sent: Ghost(empty_logs(n)),
                alive: Ghost(Seq::new(n as nat, |i: int| true)),
                expect: Ghost(0nat),
                recvd: Ghost(0nat),
                done: Ghost(Seq::empty()),
            },
        )
    }

    /// Sends one request to one shard and accounts for it in the ghost
    /// log; a request kind that a worker answers raises the count of
    /// expected responses by one, and a failed send clears the shard's
    /// liveness flag.
    fn send_data(&mut self, index: u32, data: DataCall) -> (r: Result<(), Error>)
        requires
            old(self).wf(),
            index < old(self).spec_count(),
        ensures
            final(self).wf(),
            final(self).same_config(old(self)),
            final(self).ops() == old(self).ops(),
            final(self).received() == old(self).received(),
            r matches Ok(()) ==> {
                &&& final(self).sent_log() =~= old(self).sent_log().update(
                    index as int,
                    old(self).sent_log()[index as int].push(call_view(&data)),
                )
                &&& final(self).expected() == old(self).expected() + (
                if expects_response(kind_of(&data)) {
                    1nat
                } else {
                    0nat
                })
                &&& final(self).alive() == old(self).alive()
            },
            r matches Err(e) ==> e is ChannelClosed && final(self).sent_log() =~= old(
                self,
            ).sent_log() && final(self).expected() == old(self).expected() && final(self).alive()
                =~= old(self).alive().update(index as int, false),
    {
        let ghost c = call_view(&data);
        let expects = call_expects_response(&data);
        let tx = &self.call_map[index as usize];
        match chan_send(tx, data) {
            Ok(()) => {
                self.sent = Ghost(
                    self.sent@.update(index as int, self.sent@[index as int].push(c)),
                );
                if expects {
                    self.expect = Ghost((self.expect@ + 1) as nat);
                }
                Ok(())
            },
            Err(e) => {
                self.alive = Ghost(self.alive@.update(index as int, false));
                Err(e)
            },
        }
    }

    /// Consumes one response from the shared channel.
    fn recv_one(&mut self) -> (r: Result<(u32, DataRet), Error>)
        requires
            old(self).wf(),
        ensures
            final(self).wf(),
            final(self).same_config(old(self)),
            final(self).ops() == old(self).ops(),
            final(self).sent_log() =~= old(self).sent_log(),
            final(self).alive() == old(self).alive(),
            final(self).expected() == old(self).expected(),
            r is Ok ==> final(self).received() == old(self).received() + 1,
            r matches Err(e) ==> e is ChannelClosed && final(self).received() == old(
                self,
            ).received(),
    {
        match chan_recv(&self.ret_rx) {
            Ok(v) => {
                self.recvd = Ghost((self.recvd@ + 1) as nat);
                Ok(v)
            },
            Err(e) => Err(e),
        }
    }

    /// Broadcasts one request kind to every shard; the payload is rebuilt
    /// per shard from `sql` or `params` according to `kind`.
    fn broadcast_kind(&mut self, kind: CallKind, sql: &str, params: &Vec<SqlParam>) -> (r: Result<
        (),
        Error,
    >)
        requires
            old(self).wf(),
        ensures
            final(self).wf(),
            final(self).same_config(old(self)),
            final(self).ops() == old(self).ops(),
            final(self).received() == old(self).received(),
            r matches Ok(()) ==> {
                &&& final(self).sent_log() =~= logs_with_push(
                    old(self).sent_log(),
                    record_of(kind, sql@, params@),
                )
                &&& final(self).expected() == old(self).expected() + (
                if expects_response(kind) {
                    old(self).spec_count() as nat
                } else {
                    0nat
                })
            },
            r matches Err(e) ==> e is ChannelClosed,
            forall|k: int|
                0 <= k < final(self).sent_log().len() ==> (#[trigger] final(self).sent_log()[k]
                    =~= old(self).sent_log()[k].push(record_of(kind, sql@, params@))
                    || final(self).sent_log()[k] =~= old(self).sent_log()[k]),
            old(self).expected() <= final(self).expected() <= old(self).expected() + old(
                self,
            ).spec_count(),
    {
        let n = self.config.sharding_count;
        let mut i: u32 = 0;
        while i < n
            invariant
                self.wf(),
                self.same_config(old(self)),
                self.ops() == old(self).ops(),
                n == self.spec_count(),
                i <= n,
                self.received() == old(self).received(),
                self.sent_log() =~= Seq::new(
                    old(self).sent_log().len(),
                    |j: int|
                        if j < i {
                            old(self).sent_log()[j].push(record_of(kind, sql@, params@))
                        } else {
                            old(self).sent_log()[j]
                        },
                ),
                self.expected() == old(self).expected() + (
                if expects_response(kind) {
                    i as nat
                } else {
                    0nat
                }),
            decreases n - i,
        {
            let call = Self::build_call(kind, sql, params);
            proof {
                assert(kind_of(&call) == kind);
                assert(call_view(&call) == record_of(kind, sql@, params@));
            }
            match self.send_data(i, call) {
                Ok(()) => {},
                Err(e) => {
                    return Err(e);
                },
            }
            i = i + 1;
        }
        proof {
            assert(self.sent_log() =~= logs_with_push(
                old(self).sent_log(),
                record_of(kind, sql@, params@),
            ));
        }
        Ok(())
    }

    /// Builds one request of the given kind, copying the payload.
    fn build_call(kind: CallKind, sql: &str, params: &Vec<SqlParam>) -> (c: DataCall)
        ensures
            kind_of(&c) == kind,
            call_view(&c) == record_of(kind, sql@, params@),
    {
        match kind {
            CallKind::Exit => DataCall::Exit,
            CallKind::Prepare => DataCall::Prepare(String::from_str(sql)),
            CallKind::StatementExecute => DataCall::StatementExecute(duplicate_params(params)),
            CallKind::StatementQuery => DataCall::StatementQuery(duplicate_params(params)),
            CallKind::StatementEnd => DataCall::StatementEnd,
            CallKind::RowsNext => DataCall::RowsNext,
            CallKind::RowsEnd => DataCall::RowsEnd,
            CallKind::Transaction => DataCall::Transaction,
            CallKind::TransactionCommit => DataCall::TransactionCommit,
            CallKind::TransactionRollback => DataCall::TransactionRollback,
            CallKind::LastInsertRowId => DataCall::LastInsertRowId,
        }
    }

    /// Collects `n` responses of the given kind. The first engine failure
    /// or mismatched variant aborts the collection and surfaces; on
    /// success exactly `n` responses were consumed.
    fn collect_kind(&mut self, n: u32, kind: CallKind) -> (r: Result<(), Error>)
        requires
            old(self).wf(),
        ensures
            final(self).wf(),
            final(self).same_config(old(self)),
            final(self).ops() == old(self).ops(),
            final(self).sent_log() =~= old(self).sent_log(),
            final(self).expected() == old(self).expected(),
            r is Ok ==> final(self).received() == old(self).received() + n,
            old(self).received() <= final(self).received() <= old(self).received() + n,
            r matches Err(e) ==> e is EngineError || e is ProtocolMismatch || e is ChannelClosed,
    {
        let mut i: u32 = 0;
        while i < n
            invariant
                self.wf(),
                self.same_config(old(self)),
                self.ops() == old(self).ops(),
                self.sent_log() =~= old(self).sent_log(),
                self.expected() == old(self).expected(),
                i <= n,
                self.received() == old(self).received() + i,
            decreases n - i,
        {
            let (_, ret) = match self.recv_one() {
                Ok(v) => v,
                Err(e) => {
                    return Err(e);
                },
            };
            match classify_ret(ret, kind) {
                Ok(()) => {},
                Err(e) => {
                    return Err(e);
                },
            }
            i = i + 1;
        }
        Ok(())
    }

    /// Starts a transaction on every shard, exactly as
    /// [`Transaction::new`] does.
    pub fn transaction(&mut self) -> (r: Result<Transaction, Error>)
        requires
            old(self).wf(),
        ensures
            final(self).wf(),
            final(self).same_config(old(self)),
            final(self).ops() == old(self).ops(),
            r is Ok ==> {
                &&& final(self).sent_log() =~= logs_with_push(
                    old(self).sent_log(),
                    plain_call(CallKind::Transaction),
                )
                &&& final(self).expected() == old(self).expected() + old(self).spec_count()
                &&& final(self).received() == old(self).received() + old(self).spec_count()
            },
            forall|k: int|
                0 <= k < final(self).sent_log().len() ==> (#[trigger] final(self).sent_log()[k]
                    =~= old(self).sent_log()[k].push(plain_call(CallKind::Transaction))
                    || final(self).sent_log()[k] =~= old(self).sent_log()[k]),
    {
        Transaction::new(self)
    }

    /// Parses the statement, rewrites it for the shards, prepares it on
    /// every shard and collects every response: exactly one `Prepare`
    /// carrying the rewritten text is sent to, and one response consumed
    /// from, each of the `N` shards, and the returned statement carries
    /// the parsed model. A text that does not parse as exactly one
    /// statement is rejected before anything is sent.
    pub fn prepare(&mut self, sql: &str) -> (r: Result<Stmt, Error>)
        requires
            old(self).wf(),
        ensures
            final(self).wf(),
            final(self).same_config(old(self)),
            final(self).ops() == old(self).ops(),
            r is Ok ==> {
                &&& final(self).sent_log() =~= logs_with_push(
                    old(self).sent_log(),
                    prepare_call(rewritten_of(sql@)),
                )
                &&& final(self).expected() == old(self).expected() + old(self).spec_count()
                &&& final(self).received() == old(self).received() + old(self).spec_count()
            },
            r matches Ok(stmt) ==> stmt.pending() == 0 && (parse_outcome_of(sql@) matches Ok(ms)
                && ms.len() == 1 && stmt.spec_model() == ms[0]),
            !(parse_outcome_of(sql@) matches Ok(ms) && ms.len() == 1) ==> (r matches Err(e)
                && e is ParseError && *final(self) == *old(self)),
            r matches Err(e) ==> e is ParseError || e is EngineError || e is ProtocolMismatch
                || e is ChannelClosed,
            forall|k: int|
                0 <= k < final(self).sent_log().len() ==> (#[trigger] final(self).sent_log()[k]
                    =~= old(self).sent_log()[k].push(prepare_call(rewritten_of(sql@)))
                    || final(self).sent_log()[k] =~= old(self).sent_log()[k]),
    {
        let parsed = match Parser::parse(sql) {
            Ok(p) => p,
            Err(e) => {
                return Err(e);
            },
        };
        let rewritten = ReWriter::rewrite(&parsed);
        let n = self.config.sharding_count;
        let no_params: Vec<SqlParam> = Vec::new();
        match self.broadcast_kind(CallKind::Prepare, rewritten.as_str(), &no_params) {
            Ok(()) => {},
            Err(e) => {
                return Err(e);
            },
        }
        match self.collect_kind(n, CallKind::Prepare) {
            Ok(()) => {},
            Err(e) => {
                return Err(e);
            },
        }
        Ok(Stmt::new(parsed))
    }

    /// One statement under one transaction: begin, prepare, execute with
    /// the given parameters, then commit; on any failure the transaction
    /// is rolled back best-effort and the error surfaces. Single-row
    /// inserts participate in routing through the prepared statement: on
    /// success every shard saw begin, prepare and commit, exactly the
    /// routed shards saw the execute, and the completed operation is
    /// appended to the handle's history.
    pub fn execute(&mut self, sql: &str, params: Vec<SqlParam>) -> (r: Result<(), Error>)
        requires
            old(self).wf(),
        ensures
            final(self).wf(),
            final(self).same_config(old(self)),
            r is Ok ==> final(self).ops() =~= old(self).ops().push((sql@, params@)),
            r is Err ==> final(self).ops() == old(self).ops(),
            r is Ok ==> (parse_outcome_of(sql@) matches Ok(ms) && ms.len() == 1
                && (spec_target_list(*old(self), ms[0], params@) matches Some(t) && {
                &&& forall|k: int|
                    0 <= k < final(self).sent_log().len() ==> spec_exec_log_shape(
                        old(self).sent_log()[k],
                        #[trigger] final(self).sent_log()[k],
                        sql@,
                        params@,
                        t.contains(k as u32),
                    )
                &&& final(self).expected() == old(self).expected() + 3 * old(
                    self,
                ).spec_count() + t.len()
                &&& old(self).received() + 3 * old(self).spec_count() <= final(self).received()
                &&& final(self).received() <= old(self).received() + 3 * old(
                    self,
                ).spec_count() + t.len()
            })),
            !(parse_outcome_of(sql@) matches Ok(ms) && ms.len() == 1) ==> (r is Err && forall|
                k: int,
            |
                0 <= k < final(self).sent_log().len() ==> no_dispatch(
                    old(self).sent_log()[k],
                    #[trigger] final(self).sent_log()[k],
                )),
            (parse_outcome_of(sql@) matches Ok(ms) && ms.len() == 1 && spec_target_list(
                *old(self),
                ms[0],
                params@,
            ) is None) ==> (r is Err && forall|k: int|
                0 <= k < final(self).sent_log().len() ==> no_dispatch(
                    old(self).sent_log()[k],
                    #[trigger] final(self).sent_log()[k],
                )),
    {
        let ghost si0 = *self;
        let tx = match self.transaction() {
            Ok(tx) => tx,
            Err(e) => {
                proof {
                    assert forall|k: int| 0 <= k < self.sent_log().len() implies no_dispatch(
                        si0.sent_log()[k],
                        #[trigger] self.sent_log()[k],
                    ) by {
                        lemma_no_dispatch_push(
                            si0.sent_log()[k],
                            self.sent_log()[k],
                            plain_call(CallKind::Transaction),
                        );
                    }
                }
                return Err(e);
            },
        };
        let ghost si1 = *self;
        let mut stmt = match tx.prepare(self, sql) {
            Ok(s) => s,
            Err(e) => {
                let ghost si1b = *self;
                tx.abort(self);
                proof {
                    assert forall|k: int| 0 <= k < self.sent_log().len() implies no_dispatch(
                        si0.sent_log()[k],
                        #[trigger] self.sent_log()[k],
                    ) by {
                        lemma_no_dispatch_push(
                            si0.sent_log()[k],
                            si1.sent_log()[k],
                            plain_call(CallKind::Transaction),
                        );
                        lemma_no_dispatch_push(
                            si1.sent_log()[k],
                            si1b.sent_log()[k],
                            prepare_call(rewritten_of(sql@)),
                        );
                        lemma_no_dispatch_push(
                            si1b.sent_log()[k],
                            self.sent_log()[k],
                            plain_call(CallKind::TransactionRollback),
                        );
                        lemma_no_dispatch_trans(
                            si0.sent_log()[k],
                            si1.sent_log()[k],
                            si1b.sent_log()[k],
                        );
                        lemma_no_dispatch_trans(
                            si0.sent_log()[k],
                            si1b.sent_log()[k],
                            self.sent_log()[k],
                        );
                    }
                }
                return Err(e);
            },
        };
        let ghost si2 = *self;
        proof {
            assert(si0.spec_table() == si2.spec_table() && si0.spec_column() == si2.spec_column()
                && si0.spec_count() == si2.spec_count() && si0.policy() == si2.policy());
            assert(spec_route(si0.spec_table(), si0.spec_column(), stmt.spec_model(), params@)
                == spec_route(si2.spec_table(), si2.spec_column(), stmt.spec_model(), params@));
            assert(spec_target_list(si0, stmt.spec_model(), params@) == spec_target_list(
                si2,
                stmt.spec_model(),
                params@,
            ));
        }
        match stmt.execute(self, params) {
            Ok(()) => {},
            Err(e) => {
                let ghost si3e = *self;
                let ghost model_e = stmt.spec_model();
                stmt.finish(self);
                let ghost si4e = *self;
                tx.abort(self);
                proof {
                    if spec_target_list(si0, model_e, params@) is None {
                        assert(si3e == si2);
                        assert forall|k: int| 0 <= k < self.sent_log().len() implies no_dispatch(
                            si0.sent_log()[k],
                            #[trigger] self.sent_log()[k],
                        ) by {
                            lemma_no_dispatch_push(
                                si0.sent_log()[k],
                                si1.sent_log()[k],
                                plain_call(CallKind::Transaction),
                            );
                            lemma_no_dispatch_push(
                                si1.sent_log()[k],
                                si2.sent_log()[k],
                                prepare_call(rewritten_of(sql@)),
                            );
                            lemma_no_dispatch_push(
                                si3e.sent_log()[k],
                                si4e.sent_log()[k],
                                plain_call(CallKind::StatementEnd),
                            );
                            lemma_no_dispatch_push(
                                si4e.sent_log()[k],
                                self.sent_log()[k],
                                plain_call(CallKind::TransactionRollback),
                            );
                            lemma_no_dispatch_trans(
                                si0.sent_log()[k],
                                si1.sent_log()[k],
                                si2.sent_log()[k],
                            );
                            lemma_no_dispatch_trans(
                                si0.sent_log()[k],
                                si3e.sent_log()[k],
                                si4e.sent_log()[k],
                            );
                            lemma_no_dispatch_trans(
                                si0.sent_log()[k],
                                si4e.sent_log()[k],
                                self.sent_log()[k],
                            );
                        }
                    }
                }
                return Err(e);
            },
        }
        let ghost si3 = *self;
        let ghost model = stmt.spec_model();
        stmt.finish(self);
        let ghost si4 = *self;
        match tx.commit(self) {
            Ok(()) => {
                proof {
                    let t = match spec_target_list(si0, model, params@) {
                        Some(t) => t,
                        None => Seq::empty(),
                    };
                    assert(spec_target_list(si0, model, params@) == Some(t));
                    assert forall|k: int| 0 <= k < self.sent_log().len() implies spec_exec_log_shape(
                        si0.sent_log()[k],
                        #[trigger] self.sent_log()[k],
                        sql@,
                        params@,
                        t.contains(k as u32),
                    ) by {
                        let pre = si0.sent_log()[k];
                        assert(si1.sent_log()[k] =~= pre.push(plain_call(CallKind::Transaction)));
                        assert(si2.sent_log()[k] =~= si1.sent_log()[k].push(
                            prepare_call(rewritten_of(sql@)),
                        ));
                        let mid = if t.contains(k as u32) {
                            pre + seq![
                                plain_call(CallKind::Transaction),
                                prepare_call(rewritten_of(sql@)),
                                exec_call(params@),
                            ]
                        } else {
                            pre + seq![
                                plain_call(CallKind::Transaction),
                                prepare_call(rewritten_of(sql@)),
                            ]
                        };
                        assert(si3.sent_log()[k] =~= mid);
                        assert(self.sent_log()[k] =~= si4.sent_log()[k].push(
                            plain_call(CallKind::TransactionCommit),
                        ));
                        if si4.sent_log()[k] =~= si3.sent_log()[k].push(
                            plain_call(CallKind::StatementEnd),
                        ) {
                            assert(self.sent_log()[k] =~= mid + seq![
                                plain_call(CallKind::StatementEnd),
                                plain_call(CallKind::TransactionCommit),
                            ]);
                        } else {
                            assert(si4.sent_log()[k] =~= si3.sent_log()[k]);
                            assert(self.sent_log()[k] =~= mid + seq![
                                plain_call(CallKind::TransactionCommit),
                            ]);
                        }
                    }
                }
                self.done = Ghost(self.done@.push((sql@, params@)));
                Ok(())
            },
            Err(e) => Err(e),
        }
    }

    /// Splits the text on `;`, trims each piece, drops the empty ones and
    /// runs each piece through [`ShardingIte::execute`] without
    /// parameters, in textual order, stopping at the first failure: on
    /// success the history grew by exactly the pieces, and on a failure
    /// by the pieces that completed before it, a strict prefix.
    pub fn execute_batch(&mut self, sql: &str) -> (r: Result<(), Error>)
        requires
            old(self).wf(),
        ensures
            final(self).wf(),
            final(self).same_config(old(self)),
            r is Ok ==> final(self).ops() =~= old(self).ops() + batch_ops(sql@),
            r is Err ==> exists|j: int|
                0 <= j < batch_ops(sql@).len() && final(self).ops() =~= old(self).ops() + (
                #[trigger] batch_ops(sql@).subrange(0, j)),
    {
        let pieces = crate::text::split_statements(sql);
        let n = pieces.len();
        proof {
            assert(batch_ops(sql@).len() == crate::text::batch_pieces(sql@).len());
            assert(pieces@.map_values(|t: String| t@).len() == n);
        }
        let mut i: usize = 0;
        while i < n
            invariant
                self.wf(),
                self.same_config(old(self)),
                n == pieces@.len(),
                i <= n,
                pieces@.map_values(|t: String| t@) =~= crate::text::batch_pieces(sql@),
                n == batch_ops(sql@).len(),
                self.ops() =~= old(self).ops() + batch_ops(sql@).subrange(0, i as int),
            decreases n - i,
        {
            let ghost ops0 = self.ops();
            match self.execute(pieces[i].as_str(), Vec::new()) {
                Ok(()) => {},
                Err(e) => {
                    proof {
                        assert(self.ops() =~= old(self).ops() + batch_ops(sql@).subrange(
                            0,
                            i as int,
                        ));
                    }
                    return Err(e);
                },
            }
            proof {
                let piece = crate::text::batch_pieces(sql@)[i as int];
                assert(pieces@.map_values(|t: String| t@)[i as int] == piece);
                assert(batch_ops(sql@)[i as int] == (piece, Seq::<SqlParam>::empty()));
                assert(batch_ops(sql@).subrange(0, i as int + 1) =~= batch_ops(sql@).subrange(
                    0,
                    i as int,
                ).push(batch_ops(sql@)[i as int]));
                assert(self.ops() =~= ops0.push((piece, Seq::<SqlParam>::empty())));
                assert(self.ops() =~= old(self).ops() + batch_ops(sql@).subrange(
                    0,
                    i as int + 1,
                ));
            }
            i = i + 1;
        }
        proof {
            assert(batch_ops(sql@).subrange(0, n as int) =~= batch_ops(sql@));
        }
        Ok(())
    }

    /// Prepares the statement, queries it with the given parameters,
    /// takes the first merged row and applies `f` to it; the statement
    /// and the row stream are closed either way, so a successful call
    /// leaves no response outstanding. `EmptyResult` when the merge
    /// yields nothing, in which case `f` is never applied; a produced
    /// value is `f`'s result on a row of the merge, through `f`'s own
    /// contract.
    pub fn query_row<T, F: FnOnce(Row) -> Result<T, Error>>(
        &mut self,
        sql: &str,
        params: Vec<SqlParam>,
        f: F,
    ) -> (r: Result<T, Error>)
        requires
            old(self).wf(),
            forall|row: Row| #[trigger] f.requires((row,)),
        ensures
            final(self).wf(),
            final(self).same_config(old(self)),
            final(self).ops() == old(self).ops(),
            r matches Ok(v) ==> first_row_yields(f, v),
            r is Ok ==> final(self).expected() - old(self).expected() == final(self).received()
                - old(self).received(),
    {
        let stmt = match self.prepare(sql) {
            Ok(s) => s,
            Err(e) => {
                return Err(e);
            },
        };
        let mut rows = match stmt.query(self, params) {
            Ok(r) => r,
            Err(e) => {
                stmt.finish(self);
                return Err(e);
            },
        };
        let first = rows.next(self);
        rows.finish(self);
        stmt.finish(self);
        match first {
            Ok(Some(row)) => {
                let ghost taken = row;
                match f(row) {
                    Ok(v) => {
                        proof {
                            assert(f.ensures((taken,), Ok(v)));
                            assert(first_row_yields(f, v));
                        }
                        Ok(v)
                    },
                    Err(e) => Err(e),
                }
            },
            Ok(None) => Err(Error::EmptyResult),
            Err(e) => Err(e),
        }
    }

    /// Sends `Exit` to every shard, best effort, and gives the handle up.
    pub fn close(self)
        requires
            self.wf(),
    {
        let mut this = self;
        let n = this.config.sharding_count;
        let mut i: u32 = 0;
        while i < n
            invariant
                this.wf(),
                n == this.spec_count(),
                i <= n,
            decreases n - i,
        {
            let _ = this.send_data(i, DataCall::Exit);
            i = i + 1;
        }
    }
}

/// A scoped transaction over every shard. It is opened by
/// [`Transaction::new`], and closed by exactly one of
/// [`Transaction::commit`], [`Transaction::rollback`] or
/// [`Transaction::abort`]; the last stands where a scope exit without a
/// commit would roll back.
pub struct Transaction {}

impl Transaction {
    /// Broadcasts `Transaction` to every shard and waits for every
    /// response; the first failure aborts the collection. Shards that
    /// already began stay in their transaction until a rollback reaches
    /// them.
    pub fn new<P: ShardingIndex>(si: &mut ShardingIte<P>) -> (r: Result<Transaction, Error>)
        requires
            old(si).wf(),
        ensures
            final(si).wf(),
            final(si).same_config(old(si)),
            final(si).ops() == old(si).ops(),
            r is Ok ==> {
                &&& final(si).sent_log() =~= logs_with_push(
                    old(si).sent_log(),
                    plain_call(CallKind::Transaction),
                )
                &&& final(si).expected() == old(si).expected() + old(si).spec_count()
                &&& final(si).received() == old(si).received() + old(si).spec_count()
            },
            forall|k: int|
                0 <= k < final(si).sent_log().len() ==> (#[trigger] final(si).sent_log()[k]
                    =~= old(si).sent_log()[k].push(plain_call(CallKind::Transaction))
                    || final(si).sent_log()[k] =~= old(si).sent_log()[k]),
    {
        let n = si.sharding_count();
        let no_params: Vec<SqlParam> = Vec::new();
        match si.broadcast_kind(CallKind::Transaction, "", &no_params) {
            Ok(()) => {},
            Err(e) => {
                return Err(e);
            },
        }
        match si.collect_kind(n, CallKind::Transaction) {
            Ok(()) => {},
            Err(e) => {
                return Err(e);
            },
        }
        Ok(Transaction {  })
    }

    /// Prepares a statement on every shard inside the transaction,
    /// exactly as [`ShardingIte::prepare`] does.
    pub fn prepare<P: ShardingIndex>(&self, si: &mut ShardingIte<P>, sql: &str) -> (r: Result<
        Stmt,
        Error,
    >)
        requires
            old(si).wf(),
        ensures
            final(si).wf(),
            final(si).same_config(old(si)),
            final(si).ops() == old(si).ops(),
            r is Ok ==> {
                &&& final(si).sent_log() =~= logs_with_push(
                    old(si).sent_log(),
                    prepare_call(rewritten_of(sql@)),
                )
                &&& final(si).expected() == old(si).expected() + old(si).spec_count()
                &&& final(si).received() == old(si).received() + old(si).spec_count()
            },
            r matches Ok(stmt) ==> stmt.pending() == 0 && (parse_outcome_of(sql@) matches Ok(ms)
                && ms.len() == 1 && stmt.spec_model() == ms[0]),
            !(parse_outcome_of(sql@) matches Ok(ms) && ms.len() == 1) ==> (r matches Err(e)
                && e is ParseError && *final(si) == *old(si)),
            forall|k: int|
                0 <= k < final(si).sent_log().len() ==> (#[trigger] final(si).sent_log()[k]
                    =~= old(si).sent_log()[k].push(prepare_call(rewritten_of(sql@)))
                    || final(si).sent_log()[k] =~= old(si).sent_log()[k]),
    {
        si.prepare(sql)
    }

    /// Broadcasts `TransactionCommit` to every shard and collects every
    /// response. Commits are independent per shard: a failure on one
    /// shard surfaces but does not undo the others.
    pub fn commit<P: ShardingIndex>(self, si: &mut ShardingIte<P>) -> (r: Result<(), Error>)
        requires
            old(si).wf(),
        ensures
            final(si).wf(),
            final(si).same_config(old(si)),
            final(si).ops() == old(si).ops(),
            r is Ok ==> {
                &&& final(si).sent_log() =~= logs_with_push(
                    old(si).sent_log(),
                    plain_call(CallKind::TransactionCommit),
                )
                &&& final(si).expected() == old(si).expected() + old(si).spec_count()
                &&& final(si).received() == old(si).received() + old(si).spec_count()
            },
            forall|k: int|
                0 <= k < final(si).sent_log().len() ==> (#[trigger] final(si).sent_log()[k]
                    =~= old(si).sent_log()[k].push(plain_call(CallKind::TransactionCommit))
                    || final(si).sent_log()[k] =~= old(si).sent_log()[k]),
    {
        let n = si.sharding_count();
        let no_params: Vec<SqlParam> = Vec::new();
        match si.broadcast_kind(CallKind::TransactionCommit, "", &no_params) {
            Ok(()) => {},
            Err(e) => {
                return Err(e);
            },
        }
        si.collect_kind(n, CallKind::TransactionCommit)
    }

    /// Broadcasts `TransactionRollback` to every shard and collects every
    /// response.
    pub fn rollback<P: ShardingIndex>(self, si: &mut ShardingIte<P>) -> (r: Result<(), Error>)
        requires
            old(si).wf(),
        ensures
            final(si).wf(),
            final(si).same_config(old(si)),
            final(si).ops() == old(si).ops(),
            r is Ok ==> {
                &&& final(si).sent_log() =~= logs_with_push(
                    old(si).sent_log(),
                    plain_call(CallKind::TransactionRollback),
                )
                &&& final(si).expected() == old(si).expected() + old(si).spec_count()
                &&& final(si).received() == old(si).received() + old(si).spec_count()
            },
            forall|k: int|
                0 <= k < final(si).sent_log().len() ==> (#[trigger] final(si).sent_log()[k]
                    =~= old(si).sent_log()[k].push(plain_call(CallKind::TransactionRollback))
                    || final(si).sent_log()[k] =~= old(si).sent_log()[k]),
    {
        let n = si.sharding_count();
        let no_params: Vec<SqlParam> = Vec::new();
        match si.broadcast_kind(CallKind::TransactionRollback, "", &no_params) {
            Ok(()) => {},
            Err(e) => {
                return Err(e);
            },
        }
        si.collect_kind(n, CallKind::TransactionRollback)
    }

    /// Rolls the transaction back best-effort, ignoring failures: what a
    /// scope exit without a commit does. Every shard whose channel never
    /// failed is sent exactly one `TransactionRollback`, and up to one
    /// response per shard is drained.
    pub fn abort<P: ShardingIndex>(self, si: &mut ShardingIte<P>)
        requires
            old(si).wf(),
        ensures
            final(si).wf(),
            final(si).same_config(old(si)),
            final(si).ops() == old(si).ops(),
            forall|k: int|
                0 <= k < final(si).sent_log().len() ==> (#[trigger] final(si).sent_log()[k]
                    =~= old(si).sent_log()[k].push(plain_call(CallKind::TransactionRollback))
                    || final(si).sent_log()[k] =~= old(si).sent_log()[k]),
            forall|k: int|
                0 <= k < final(si).sent_log().len() && final(si).alive()[k]
                    ==> #[trigger] final(si).sent_log()[k] =~= old(si).sent_log()[k].push(
                    plain_call(CallKind::TransactionRollback),
                ),
            old(si).expected() <= final(si).expected() <= old(si).expected() + old(
                si,
            ).spec_count(),
            old(si).received() <= final(si).received() <= old(si).received() + old(
                si,
            ).spec_count(),
    {
        let n = si.sharding_count();
        let mut j: u32 = 0;
        while j < n
            invariant
                si.wf(),
                si.same_config(old(si)),
                si.ops() == old(si).ops(),
                j <= n == si.spec_count(),
                si.received() == old(si).received(),
                old(si).expected() <= si.expected() <= old(si).expected() + j,
                forall|k: int|
                    0 <= k < si.sent_log().len() ==> (#[trigger] si.sent_log()[k] =~= old(
                        si,
                    ).sent_log()[k].push(plain_call(CallKind::TransactionRollback))
                        || si.sent_log()[k] =~= old(si).sent_log()[k]),
                forall|k: int|
                    0 <= k < j && si.alive()[k] ==> #[trigger] si.sent_log()[k] =~= old(
                        si,
                    ).sent_log()[k].push(plain_call(CallKind::TransactionRollback)),
                forall|k: int|
                    j <= k < n ==> #[trigger] si.sent_log()[k] =~= old(si).sent_log()[k],
            decreases n - j,
        {
            let ghost alive0 = si.alive();
            let _ = si.send_data(j, DataCall::TransactionRollback);
            proof {
                assert(call_view(&DataCall::TransactionRollback) == plain_call(
                    CallKind::TransactionRollback,
                ));
            }
            j = j + 1;
        }
        let mut i: u32 = 0;
        while i < n
            invariant
                si.wf(),
                si.same_config(old(si)),
                si.ops() == old(si).ops(),
                i <= n == si.spec_count(),
                forall|k: int|
                    0 <= k < si.sent_log().len() ==> (#[trigger] si.sent_log()[k] =~= old(
                        si,
                    ).sent_log()[k].push(plain_call(CallKind::TransactionRollback))
                        || si.sent_log()[k] =~= old(si).sent_log()[k]),
                forall|k: int|
                    0 <= k < n && si.alive()[k] ==> #[trigger] si.sent_log()[k] =~= old(
                        si,
                    ).sent_log()[k].push(plain_call(CallKind::TransactionRollback)),
                old(si).expected() <= si.expected() <= old(si).expected() + si.spec_count(),
                old(si).received() <= si.received() <= old(si).received() + i,
            decreases n - i,
        {
            let _ = si.recv_one();
            i = i + 1;
        }
    }
}

/// A prepared statement: the parsed text it was prepared from and the
/// count of outstanding fire-and-collect execute replies.
pub struct Stmt {
    parsed: ParsedStatement,
    exec_counter: usize,
}

impl Stmt {
    /// The model of the statement this handle was prepared from.
    pub closed spec fn spec_model(&self) -> parser::StatementModel {
        self.parsed.spec_model()
    }

    /// How many execute replies are outstanding.
    pub closed spec fn pending(&self) -> nat {
        self.exec_counter as nat
    }

    /// Wraps a parsed statement.
    pub fn new(parsed: ParsedStatement) -> (s: Stmt)
        ensures
            s.pending() == 0,
            s.spec_model() == parsed.spec_model(),
    {
        Stmt { parsed, exec_counter: 0 }
    }

    /// Routes the statement and dispatches `StatementExecute` to exactly
    /// the routed shards without waiting: each dispatch adds one
    /// outstanding reply, which [`Stmt::finish`] drains, and no other
    /// shard is sent anything. A routing rejection surfaces before any
    /// dispatch; a sharding function result outside `[0, N)` is an
    /// invalid sharding key.
    pub fn execute<P: ShardingIndex>(
        &mut self,
        si: &mut ShardingIte<P>,
        params: Vec<SqlParam>,
    ) -> (r: Result<(), Error>)
        requires
            old(si).wf(),
        ensures
            final(si).wf(),
            final(si).same_config(old(si)),
            final(si).ops() == old(si).ops(),
            final(si).received() == old(si).received(),
            final(self).spec_model() == old(self).spec_model(),
            r is Ok ==> final(self).pending() == old(self).pending() + (final(si).expected() - old(
                si,
            ).expected()),
            r is Ok ==> (spec_target_list(*old(si), old(self).spec_model(), params@) matches Some(
                t,
            ) && {
                &&& final(si).sent_log() =~= logs_with_push_at(
                    old(si).sent_log(),
                    t,
                    exec_call(params@),
                )
                &&& final(si).expected() == old(si).expected() + t.len()
                &&& final(self).pending() == old(self).pending() + t.len()
            }),
            spec_route(
                old(si).spec_table(),
                old(si).spec_column(),
                old(self).spec_model(),
                params@,
            ) matches RoutePlan::Reject(e) ==> (r matches Err(e2) && e2 == e && *final(si) == *old(
                si,
            ) && *final(self) == *old(self)),
            (spec_route(
                old(si).spec_table(),
                old(si).spec_column(),
                old(self).spec_model(),
                params@,
            ) matches RoutePlan::ByKey(p) && old(si).policy().spec_sharding_index(&p) is None)
                ==> (r matches Err(e) && e is InvalidShardingKey && *final(si) == *old(si)
                && *final(self) == *old(self)),
    {
        let ghost route = spec_route(
            old(si).spec_table(),
            old(si).spec_column(),
            old(self).spec_model(),
            params@,
        );
        let list = match Router::get_indexes_with_params(&si.config, &self.parsed, &params) {
            Ok(list) => list,
            Err(e) => {
                return Err(e);
            },
        };
        proof {
            assert forall|k1: int, k2: int| 0 <= k1 < k2 < list@.len() implies list@[k1]
                != list@[k2] by {
                match route {
                    RoutePlan::All => {
                        assert(list@[k1] == k1 as u32);
                        assert(list@[k2] == k2 as u32);
                    },
                    RoutePlan::ByKey(_) => {},
                    RoutePlan::Reject(_) => {},
                }
            }
        }
        let m = list.len();
        let mut i: usize = 0;
        while i < m
            invariant
                si.wf(),
                si.same_config(old(si)),
                si.ops() == old(si).ops(),
                si.received() == old(si).received(),
                self.spec_model() == old(self).spec_model(),
                m == list@.len(),
                i <= m,
                route == spec_route(
                    old(si).spec_table(),
                    old(si).spec_column(),
                    old(self).spec_model(),
                    params@,
                ),
                !(route is Reject),
                route matches RoutePlan::ByKey(p) ==> old(si).policy().spec_sharding_index(&p)
                    is Some,
                forall|k1: int, k2: int| 0 <= k1 < k2 < list@.len() ==> list@[k1] != list@[k2],
                si.sent_log() =~= logs_with_push_at(
                    old(si).sent_log(),
                    list@.subrange(0, i as int),
                    exec_call(params@),
                ),
                self.pending() == old(self).pending() + (si.expected() - old(si).expected()),
                si.expected() == old(si).expected() + i,
                self.pending() <= usize::MAX,
            decreases m - i,
        {
            let target = list[i];
            if target >= si.sharding_count() {
                return Err(Error::InvalidShardingKey);
            }
            if self.exec_counter == usize::MAX {
                return Err(Error::ProtocolMismatch);
            }
            let ghost log1 = si.sent_log();
            let call = DataCall::StatementExecute(duplicate_params(&params));
            match si.send_data(target, call) {
                Ok(()) => {},
                Err(e) => {
                    return Err(e);
                },
            }
            proof {
                let log0 = old(si).sent_log();
                let pref = list@.subrange(0, i as int);
                let pref2 = list@.subrange(0, i as int + 1);
                assert(pref2 =~= pref.push(list@[i as int]));
                assert(!pref.contains(target)) by {
                    if pref.contains(target) {
                        let j = choose|j: int| 0 <= j < pref.len() && pref[j] == target;
                        assert(list@[j] == list@[i as int]);
                    }
                }
                assert forall|k: int| 0 <= k < si.sent_log().len() implies si.sent_log()[k]
                    =~= logs_with_push_at(log0, pref2, exec_call(params@))[k] by {
                    if k == target as int {
                        assert(pref2[i as int] == target);
                        assert(pref2.contains(target));
                        assert(log1[k] =~= log0[k]);
                    } else {
                        if pref2.contains(k as u32) {
                            let j = choose|j: int| 0 <= j < pref2.len() && pref2[j] == k as u32;
                            if j == pref.len() {
                                assert(k as u32 == target);
                                assert(k == target as int);
                            } else {
                                assert(pref.contains(k as u32));
                            }
                        }
                        if pref.contains(k as u32) {
                            let j = choose|j: int| 0 <= j < pref.len() && pref[j] == k as u32;
                            assert(pref2[j] == k as u32);
                        }
                        assert(si.sent_log()[k] =~= log1[k]);
                    }
                }
                assert(si.sent_log() =~= logs_with_push_at(
                    log0,
                    pref2,
                    exec_call(params@),
                ));
            }
            self.exec_counter = self.exec_counter + 1;
            i = i + 1;
        }
        proof {
            assert(list@.subrange(0, m as int) =~= list@);
            match route {
                RoutePlan::All => {
                    assert(list@ =~= Seq::new(old(si).spec_count() as nat, |k: int| k as u32));
                    assert(spec_target_list(*old(si), old(self).spec_model(), params@) == Some(
                        list@,
                    ));
                },
                RoutePlan::ByKey(p) => {
                    match old(si).policy().spec_sharding_index(&p) {
                        Some(ix) => {
                            assert(list@ =~= seq![ix]);
                            assert(spec_target_list(*old(si), old(self).spec_model(), params@)
                                == Some(list@));
                        },
                        None => {
                            assert(false);
                        },
                    }
                },
                RoutePlan::Reject(_) => {
                    assert(false);
                },
            }
        }
        Ok(())
    }

    /// Routes the statement, broadcasts `StatementQuery` to exactly the
    /// routed shards, collects one response per routed shard, and hands
    /// back a fresh row stream scoped to those shards and carrying the
    /// statement's plan; a routing or planning rejection surfaces as that
    /// error before anything is sent.
    pub fn query<P: ShardingIndex>(&self, si: &mut ShardingIte<P>, params: Vec<SqlParam>) -> (r:
        Result<Rows, Error>)
        requires
            old(si).wf(),
        ensures
            final(si).wf(),
            final(si).same_config(old(si)),
            final(si).ops() == old(si).ops(),
            r matches Ok(rows) ==> rows.wf_for(final(si).spec_count()) && final(si).received()
                == old(si).received() + rows.targets().len(),
            spec_query_post(*old(si), *final(si), self.spec_model(), params@, r),
    {
        let ghost route = spec_route(
            old(si).spec_table(),
            old(si).spec_column(),
            self.spec_model(),
            params@,
        );
        let list = match Router::get_indexes_with_params(&si.config, &self.parsed, &params) {
            Ok(list) => list,
            Err(e) => {
                return Err(e);
            },
        };
        let query = match Parser::get_query_from_ast(&self.parsed) {
            Ok(q) => q,
            Err(e) => {
                return Err(e);
            },
        };
        proof {
            assert forall|k1: int, k2: int| 0 <= k1 < k2 < list@.len() implies list@[k1]
                != list@[k2] by {
                match route {
                    RoutePlan::All => {
                        assert(list@[k1] == k1 as u32);
                        assert(list@[k2] == k2 as u32);
                    },
                    RoutePlan::ByKey(_) => {},
                    RoutePlan::Reject(_) => {},
                }
            }
        }
        let m = list.len();
        let mut i: usize = 0;
        while i < m
            invariant
                si.wf(),
                si.same_config(old(si)),
                si.ops() == old(si).ops(),
                si.received() == old(si).received(),
                m == list@.len(),
                i <= m,
                route == spec_route(
                    old(si).spec_table(),
                    old(si).spec_column(),
                    self.spec_model(),
                    params@,
                ),
                !(route is Reject),
                route matches RoutePlan::ByKey(p) ==> old(si).policy().spec_sharding_index(&p)
                    is Some,
                !(crate::parser::spec_plan(self.spec_model()) is Rejected),
                forall|k1: int, k2: int| 0 <= k1 < k2 < list@.len() ==> list@[k1] != list@[k2],
                si.sent_log() =~= logs_with_push_at(
                    old(si).sent_log(),
                    list@.subrange(0, i as int),
                    query_call(params@),
                ),
                si.expected() == old(si).expected() + i,
                forall|k: int| 0 <= k < i ==> #[trigger] list@[k] < si.spec_count(),
            decreases m - i,
        {
            let target = list[i];
            if target >= si.sharding_count() {
                return Err(Error::InvalidShardingKey);
            }
            let ghost log1 = si.sent_log();
            let call = DataCall::StatementQuery(duplicate_params(&params));
            match si.send_data(target, call) {
                Ok(()) => {},
                Err(e) => {
                    return Err(e);
                },
            }
            proof {
                let log0 = old(si).sent_log();
                let pref = list@.subrange(0, i as int);
                let pref2 = list@.subrange(0, i as int + 1);
                assert(pref2 =~= pref.push(list@[i as int]));
                assert(!pref.contains(target)) by {
                    if pref.contains(target) {
                        let j = choose|j: int| 0 <= j < pref.len() && pref[j] == target;
                        assert(list@[j] == list@[i as int]);
                    }
                }
                assert forall|k: int| 0 <= k < si.sent_log().len() implies si.sent_log()[k]
                    =~= logs_with_push_at(log0, pref2, query_call(params@))[k] by {
                    if k == target as int {
                        assert(pref2[i as int] == target);
                        assert(pref2.contains(target));
                        assert(log1[k] =~= log0[k]);
                    } else {
                        if pref2.contains(k as u32) {
                            let j = choose|j: int| 0 <= j < pref2.len() && pref2[j] == k as u32;
                            if j == pref.len() {
                                assert(k as u32 == target);
                                assert(k == target as int);
                            } else {
                                assert(pref.contains(k as u32));
                            }
                        }
                        if pref.contains(k as u32) {
                            let j = choose|j: int| 0 <= j < pref.len() && pref[j] == k as u32;
                            assert(pref2[j] == k as u32);
                        }
                        assert(si.sent_log()[k] =~= log1[k]);
                    }
                }
                assert(si.sent_log() =~= logs_with_push_at(
                    log0,
                    pref2,
                    query_call(params@),
                ));
            }
            i = i + 1;
        }
        if m > u32::MAX as usize {
            return Err(Error::ProtocolMismatch);
        }
        match si.collect_kind(m as u32, CallKind::StatementQuery) {
            Ok(()) => {},
            Err(e) => {
                return Err(e);
            },
        }
        proof {
            assert(list@.subrange(0, m as int) =~= list@);
            match route {
                RoutePlan::All => {
                    assert(list@ =~= Seq::new(old(si).spec_count() as nat, |k: int| k as u32));
                },
                RoutePlan::ByKey(p) => {
                    match old(si).policy().spec_sharding_index(&p) {
                        Some(ix) => {
                            assert(list@ =~= seq![ix]);
                        },
                        None => {
                            assert(false);
                        },
                    }
                },
                RoutePlan::Reject(_) => {
                    assert(false);
                },
            }
        }
        Ok(
            Rows {
                sharding_index_list: list,
                query,
                counter: 0,
                skipped: false,
                heap: None,
                got: Ghost(Seq::empty()),
            },
        )
    }

    /// Queries exactly like [`Stmt::query`] and wraps the stream it would
    /// return so that every produced row is put through the caller's map;
    /// an error of the query is propagated unchanged and the map is never
    /// called.
    pub fn query_map<P: ShardingIndex, T, F: Fn(&Row) -> Result<T, Error>>(
        &self,
        si: &mut ShardingIte<P>,
        params: Vec<SqlParam>,
        map: F,
    ) -> (r: Result<MappedRows<F>, Error>)
        requires
            old(si).wf(),
        ensures
            final(si).wf(),
            final(si).same_config(old(si)),
            final(si).ops() == old(si).ops(),
            r matches Ok(mr) ==> mr.rows_wf(final(si).spec_count()) && mr.map_fn() == map
                && final(si).received() == old(si).received() + mr.spec_rows().targets().len(),
            r matches Ok(mr) ==> spec_query_post(
                *old(si),
                *final(si),
                self.spec_model(),
                params@,
                Ok(mr.spec_rows()),
            ),
            r matches Err(e) ==> spec_query_post(
                *old(si),
                *final(si),
                self.spec_model(),
                params@,
                Err(e),
            ),
    {
        let rows = match self.query(si, params) {
            Ok(r) => r,
            Err(e) => {
                return Err(e);
            },
        };
        Ok(MappedRows { rows, map })
    }

    /// Drains the outstanding execute replies, stopping early only if the
    /// response channel dies, then sends one `StatementEnd` to every
    /// shard whose channel never failed: each worker that prepared this
    /// statement returns to the state it was prepared in.
    pub fn finish<P: ShardingIndex>(self, si: &mut ShardingIte<P>)
        requires
            old(si).wf(),
        ensures
            final(si).wf(),
            final(si).same_config(old(si)),
            final(si).ops() == old(si).ops(),
            old(si).received() <= final(si).received() <= old(si).received() + self.pending(),
            final(si).expected() == old(si).expected(),
            forall|i: int|
                0 <= i < final(si).sent_log().len() ==> (#[trigger] final(si).sent_log()[i] =~= old(
                    si,
                ).sent_log()[i].push(plain_call(CallKind::StatementEnd)) || final(si).sent_log()[i] =~= old(
                    si,
                ).sent_log()[i]),
            forall|i: int|
                0 <= i < final(si).sent_log().len() && final(si).alive()[i]
                    ==> #[trigger] final(si).sent_log()[i] =~= old(si).sent_log()[i].push(
                    plain_call(CallKind::StatementEnd),
                ),
    {
        let pending = self.exec_counter;
        let mut i: usize = 0;
        while i < pending
            invariant
                si.wf(),
                si.same_config(old(si)),
                si.ops() == old(si).ops(),
                si.sent_log() =~= old(si).sent_log(),
                si.expected() == old(si).expected(),
                i <= pending,
                old(si).received() <= si.received() <= old(si).received() + i,
            decreases pending - i,
        {
            match si.recv_one() {
                Ok(_) => {},
                Err(_) => {
                    break ;
                },
            }
            i = i + 1;
        }
        let n = si.sharding_count();
        let mut j: u32 = 0;
        while j < n
            invariant
                si.wf(),
                si.same_config(old(si)),
                si.ops() == old(si).ops(),
                n == si.spec_count(),
                j <= n,
                si.expected() == old(si).expected(),
                old(si).received() <= si.received() <= old(si).received() + pending,
                forall|k: int|
                    0 <= k < n ==> (#[trigger] si.sent_log()[k] =~= old(si).sent_log()[k].push(
                        plain_call(CallKind::StatementEnd),
                    ) || si.sent_log()[k] =~= old(si).sent_log()[k]),
                forall|k: int|
                    0 <= k < j && si.alive()[k] ==> #[trigger] si.sent_log()[k] =~= old(
                        si,
                    ).sent_log()[k].push(plain_call(CallKind::StatementEnd)),
                forall|k: int| j <= k < n ==> #[trigger] si.sent_log()[k] =~= old(si).sent_log()[k],
            decreases n - j,
        {
            let _ = si.send_data(j, DataCall::StatementEnd);
            j = j + 1;
        }
    }
}

/// One cell-indexed row of the merged stream.
pub struct Row {
    v: Vec<SqlValue>,
}

impl View for Row {
    type V = Seq<SqlValue>;

    closed spec fn view(&self) -> Seq<SqlValue> {
        self.v@
    }
}

impl Row {
    /// Wraps the cells of one row.
    pub fn new(v: Vec<SqlValue>) -> (r: Row)
        ensures
            r@ =~= v@,
    {
        Row { v }
    }

    /// The cell at `index`; `ColumnNotFound` past the end of the row.
    pub fn get(&self, index: usize) -> (r: Result<&SqlValue, Error>)
        ensures
            index < self@.len() <==> r is Ok,
            r matches Ok(c) ==> *c == self@[index as int],
            r matches Err(e) ==> e is ColumnNotFound,
    {
        if index < self.v.len() {
            Ok(&self.v[index])
        } else {
            Err(Error::ColumnNotFound)
        }
    }

    /// The integer in the cell at `index`; `ColumnNotFound` past the end,
    /// an engine-level conversion error for any other cell kind.
    pub fn get_i64(&self, index: usize) -> (r: Result<i64, Error>)
        ensures
            r matches Ok(v) ==> index < self@.len() && (self@[index as int] matches
                SqlValue::Integer(n) && n == v),
            r matches Err(e) ==> (e is ColumnNotFound && index >= self@.len()) || (
            e is EngineError && index < self@.len() && !(self@[index as int] is Integer)),
    {
        match self.get(index) {
            Ok(SqlValue::Integer(n)) => Ok(*n),
            Ok(_) => Err(Error::EngineError(String::from_str("cell is not an integer"))),
            Err(e) => Err(e),
        }
    }

    /// The text bytes in the cell at `index`; `ColumnNotFound` past the
    /// end, an engine-level conversion error for any other cell kind.
    pub fn get_text(&self, index: usize) -> (r: Result<Vec<u8>, Error>)
        ensures
            r matches Ok(v) ==> index < self@.len() && (self@[index as int] matches
                SqlValue::Text(t) && t@ =~= v@),
            r matches Err(e) ==> (e is ColumnNotFound && index >= self@.len()) || (
            e is EngineError && index < self@.len() && !(self@[index as int] is Text)),
    {
        match self.get(index) {
            Ok(SqlValue::Text(t)) => {
                let mut out: Vec<u8> = Vec::new();
                let mut i: usize = 0;
                while i < t.len()
                    invariant
                        i <= t@.len(),
                        out@ =~= t@.subrange(0, i as int),
                    decreases t@.len() - i,
                {
                    out.push(t[i]);
                    i = i + 1;
                }
                proof {
                    assert(out@ =~= t@);
                }
                Ok(out)
            },
            Ok(_) => Err(Error::EngineError(String::from_str("cell is not text"))),
            Err(e) => Err(e),
        }
    }
}

/// The merged row stream over the routed shard set, configured by the
/// query plan: `COUNT(*)` aggregation, heap-ordered or shard-ordered row
/// pull, and the global limit and offset.
pub struct Rows {
    sharding_index_list: Vec<u32>,
    query: Query,
    counter: u32,
    skipped: bool,
    heap: Option<HeapBuf>,
    got: Ghost<Seq<(u32, Seq<SqlValue>)>>,
}

impl Rows {
    /// The shard set this stream pulls from.
    pub closed spec fn targets(&self) -> Seq<u32> {
        self.sharding_index_list@
    }

    /// The rows this stream has pulled from the workers so far, in
    /// arrival order, each paired with the shard that handed it back.
    /// Every row the stream produces is one of these.
    pub closed spec fn pulled(&self) -> Seq<(u32, Seq<SqlValue>)> {
        self.got@
    }

    /// How many rows were produced against the global limit.
    pub closed spec fn spec_counter(&self) -> u32 {
        self.counter
    }

    /// The plan's global limit and offset, if one was written.
    pub closed spec fn spec_limit(&self) -> Option<(u32, u32)> {
        self.query.spec_limit_pair()
    }

    /// The plan's ordering, if one was written: the order column's
    /// projection position and the direction.
    pub closed spec fn spec_order(&self) -> Option<(u8, bool)> {
        self.query.spec_order_pair()
    }

    /// Whether the plan aggregates with `COUNT`.
    pub closed spec fn spec_is_count(&self) -> bool {
        self.query.spec_count_star()
    }

    /// Whether the global offset was already skipped; it is skipped at
    /// most once over the stream's lifetime.
    pub closed spec fn spec_skipped(&self) -> bool {
        self.skipped
    }

    /// The pending entries of the ordered merge: one buffered row per
    /// live shard, each keyed by the order column; `None` until the
    /// first ordered pull seeds them.
    pub closed spec fn pending(&self) -> Option<Seq<crate::merge::HeapData>> {
        match self.heap {
            Some(h) => Some(h@),
            None => None,
        }
    }

    /// The stream's targets are distinct shards inside `[0, count)`;
    /// every pulled row came from a targeted shard; and every pending
    /// entry is a pulled row of a targeted shard.
    pub closed spec fn wf_for(&self, count: u32) -> bool {
        &&& forall|i: int| 0 <= i < self.sharding_index_list@.len() ==> #[trigger] self
            .sharding_index_list@[i] < count
        &&& forall|k1: int, k2: int|
            0 <= k1 < k2 < self.sharding_index_list@.len() ==> self.sharding_index_list@[k1]
                != self.sharding_index_list@[k2]
        &&& forall|i: int|
            0 <= i < self.got@.len() ==> self.sharding_index_list@.contains(
                (#[trigger] self.got@[i]).0,
            )
        &&& match self.heap {
            Some(h) => forall|i: int|
                0 <= i < h@.len() ==> (#[trigger] h@[i]).shard < count
                    && self.sharding_index_list@.contains(h@[i].shard) && (exists|j: int|
                    0 <= j < self.got@.len() && (#[trigger] self.got@[j]) == (
                    h@[i].shard,
                    h@[i].row@,
                )) && (match self.query.spec_order_pair() {
                    Some(ord) => crate::merge::row_key(h@[i].row, ord.0 as int) == Some(
                        h@[i].key,
                    ),
                    None => true,
                }),
            None => true,
        }
    }

    /// Wraps the routed shard set and the plan.
    pub fn new(list: Vec<u32>, query: Query) -> (r: Rows)
        ensures
            r.targets() =~= list@,
            r.spec_counter() == 0,
            !r.spec_skipped(),
            r.spec_limit() == query.spec_limit_pair(),
            r.spec_order() == query.spec_order_pair(),
            r.spec_is_count() == query.spec_count_star(),
            r.pulled() =~= Seq::<(u32, Seq<SqlValue>)>::empty(),
    {
        Rows {
            sharding_index_list: list,
            query,
            counter: 0,
            skipped: false,
            heap: None,
            got: Ghost(Seq::empty()),
        }
    }

    /// The next merged row. Under a `COUNT(*)` plan the per-shard counts
    /// are drained and summed once. Under an ordering plan the heap is
    /// seeded from every routed shard, then the extremal entry is emitted
    /// and its shard refilled. Without ordering the shards are drained in
    /// ascending shard order. A global limit ends the stream after
    /// `limit` produced rows, and a global offset silently skips the
    /// first `offset` merged rows.
    #[verifier::loop_isolation(false)]
    pub fn next<P: ShardingIndex>(&mut self, si: &mut ShardingIte<P>) -> (r: Result<
        Option<Row>,
        Error,
    >)
        requires
            old(si).wf(),
            old(self).wf_for(old(si).spec_count()),
        ensures
            final(si).wf(),
            final(si).same_config(old(si)),
            final(si).ops() == old(si).ops(),
            final(self).wf_for(final(si).spec_count()),
            final(self).targets() =~= old(self).targets(),
            r is Ok ==> final(si).expected() - old(si).expected() == final(si).received() - old(
                si,
            ).received(),
            (old(self).spec_limit() matches Some(lo) && old(self).spec_counter() >= lo.0) ==> (
            r matches Ok(None) && *final(si) == *old(si) && *final(self) == *old(self)),
            old(self).spec_is_count() ==> (r matches Ok(Some(row)) ==> row@.len() == 1
                && row@[0] is Integer),
            final(self).spec_counter() >= old(self).spec_counter(),
            final(self).spec_limit() == old(self).spec_limit(),
            final(self).spec_order() == old(self).spec_order(),
            final(self).spec_is_count() == old(self).spec_is_count(),
            old(self).spec_skipped() ==> final(self).spec_skipped(),
            (old(self).spec_limit() matches Some(lo) && old(self).spec_counter() < lo.0 && r is Ok)
                ==> final(self).spec_skipped(),
            (!old(self).spec_is_count() && (r matches Ok(Some(_))) && old(self).spec_counter()
                < u32::MAX) ==> final(self).spec_counter() == old(self).spec_counter() + 1,
            forall|j: int|
                0 <= j < old(self).pulled().len() ==> #[trigger] final(self).pulled()[j] == old(
                    self,
                ).pulled()[j],
            old(self).pulled().len() <= final(self).pulled().len(),
            forall|j: int|
                0 <= j < final(self).pulled().len() ==> old(self).targets().contains(
                    (#[trigger] final(self).pulled()[j]).0,
                ),
            !old(self).spec_is_count() ==> (r matches Ok(Some(row)) ==> exists|j: int|
                0 <= j < final(self).pulled().len() && (#[trigger] final(self).pulled()[j]).1
                    =~= row@ && old(self).targets().contains(final(self).pulled()[j].0)),
            old(self).spec_order() matches Some(ord) ==> (old(self).pending() matches Some(
                entries,
            ) ==> ((!old(self).spec_is_count() && (old(self).spec_limit() is None || old(
                self,
            ).spec_skipped())) ==> (r matches Ok(Some(row)) ==> extremal_of(
                entries,
                ord.1,
                row@,
            )))),
            (old(self).spec_order() is None && !old(self).spec_is_count() && (old(
                self,
            ).spec_limit() is None || old(self).spec_skipped())) ==> (r matches Ok(Some(row))
                ==> final(self).pulled().len() > 0 && (final(self).pulled().last()).1 =~= row@),
    {
        let lim = match &self.query.limit {
            Some(l) => Some((l.limit, l.offset)),
            None => None,
        };
        if let Some((limit_n, offset)) = lim {
            if self.counter >= limit_n {
                return Ok(None);
            }
            if !self.skipped {
                let mut k: u32 = 0;
                while k < offset
                    invariant
                        si.wf(),
                        si.same_config(old(si)),
                        si.ops() == old(si).ops(),
                        self.wf_for(si.spec_count()),
                        self.targets() =~= old(self).targets(),
                        self.spec_counter() == old(self).spec_counter(),
                        self.spec_limit() == old(self).spec_limit(),
                        self.spec_order() == old(self).spec_order(),
                        self.spec_is_count() == old(self).spec_is_count(),
                        self.spec_skipped() == old(self).spec_skipped(),
                        forall|j: int|
                            0 <= j < old(self).pulled().len() ==> #[trigger] self.pulled()[j]
                                == old(self).pulled()[j],
                        old(self).pulled().len() <= self.pulled().len(),
                        k <= offset,
                        si.expected() - old(si).expected() == si.received() - old(si).received(),
                    decreases offset - k,
                {
                    match self.pull_merged(si) {
                        Ok(_) => {},
                        Err(e) => {
                            return Err(e);
                        },
                    }
                    k = k + 1;
                }
            }
            let ghost s_b = *self;
            self.skipped = true;
            proof {
                lemma_wf_same(s_b, *self, si.spec_count());
            }
        }
        let is_count = match &self.query.aggregate {
            Some(Aggregate::Count(_)) => true,
            None => false,
        };
        proof {
            assert(is_count == self.spec_is_count());
            assert(self.wf_for(si.spec_count()));
        }
        if is_count {
            let mut drained: Vec<SqlRow> = Vec::new();
            // One response is consumed per turn; the bound only makes the
            // loop's end a theorem, it is never reached by a real stream.
            let mut fuel: u64 = u64::MAX;
            loop
                invariant
                    si.wf(),
                    si.same_config(old(si)),
                    si.ops() == old(si).ops(),
                    self.wf_for(si.spec_count()),
                    self.targets() =~= old(self).targets(),
                    self.spec_counter() == old(self).spec_counter(),
                    self.spec_limit() == old(self).spec_limit(),
                    self.spec_order() == old(self).spec_order(),
                    self.spec_is_count() == old(self).spec_is_count(),
                    old(self).spec_skipped() ==> self.spec_skipped(),
                    (old(self).spec_limit() matches Some(lo) && old(self).spec_counter() < lo.0)
                        ==> self.spec_skipped(),
                    forall|j: int|
                        0 <= j < old(self).pulled().len() ==> #[trigger] self.pulled()[j] == old(
                            self,
                        ).pulled()[j],
                    old(self).pulled().len() <= self.pulled().len(),
                    si.expected() - old(si).expected() == si.received() - old(si).received(),
                decreases fuel,
            {
                if fuel == 0 {
                    return Err(Error::ProtocolMismatch);
                }
                fuel = fuel - 1;
                match self.pull_merged(si) {
                    Ok(Some(row)) => {
                        drained.push(row);
                    },
                    Ok(None) => {
                        break ;
                    },
                    Err(e) => {
                        return Err(e);
                    },
                }
            }
            match crate::merge::aggregate_count(&drained) {
                Ok(Some(row)) => Ok(Some(Row::new(row))),
                Ok(None) => Ok(None),
                Err(e) => Err(e),
            }
        } else {
            let next = match self.pull_merged(si) {
                Ok(v) => v,
                Err(e) => {
                    return Err(e);
                },
            };
            let ghost s_c = *self;
            if self.counter < u32::MAX {
                self.counter = self.counter + 1;
            }
            proof {
                lemma_wf_same(s_c, *self, si.spec_count());
            }
            match next {
                Some(row) => Ok(Some(Row::new(row))),
                None => Ok(None),
            }
        }
    }

    /// One row of the merged stream, ordered or not, before limit
    /// accounting: a produced row is always one this stream pulled from
    /// a targeted shard.
    fn pull_merged<P: ShardingIndex>(&mut self, si: &mut ShardingIte<P>) -> (r: Result<
        Option<SqlRow>,
        Error,
    >)
        requires
            old(si).wf(),
            old(self).wf_for(old(si).spec_count()),
        ensures
            final(si).wf(),
            final(si).same_config(old(si)),
            final(si).ops() == old(si).ops(),
            final(self).wf_for(final(si).spec_count()),
            final(self).targets() =~= old(self).targets(),
            final(self).spec_counter() == old(self).spec_counter(),
            final(self).spec_limit() == old(self).spec_limit(),
            final(self).spec_order() == old(self).spec_order(),
            final(self).spec_is_count() == old(self).spec_is_count(),
            final(self).spec_skipped() == old(self).spec_skipped(),
            forall|j: int|
                0 <= j < old(self).pulled().len() ==> #[trigger] final(self).pulled()[j] == old(
                    self,
                ).pulled()[j],
            old(self).pulled().len() <= final(self).pulled().len(),
            r matches Ok(Some(v)) ==> exists|j: int|
                0 <= j < final(self).pulled().len() && (#[trigger] final(self).pulled()[j]).1
                    =~= v@ && old(self).targets().contains(final(self).pulled()[j].0),
            old(self).spec_order() matches Some(ord) ==> (old(self).pending() matches Some(
                entries,
            ) ==> (r matches Ok(Some(v)) ==> extremal_of(entries, ord.1, v@))),
            old(self).spec_order() is None ==> (r matches Ok(Some(v))
                ==> final(self).pulled().len() > 0 && (final(self).pulled().last()).1 =~= v@
                && old(self).targets().contains(final(self).pulled().last().0)),
            r is Ok ==> final(si).expected() - old(si).expected() == final(si).received() - old(
                si,
            ).received(),
    {
        let order = match &self.query.order_by {
            Some(ob) => Some((ob.column_index, ob.is_asc)),
            None => None,
        };
        match order {
            Some((column_index, is_asc)) => self.next_with_order(si, column_index, is_asc),
            None => self.next_without_order(si),
        }
    }

    /// Pulls one row from one shard: sends `RowsNext`, waits for its
    /// `Next` response and records a received row in the pulled log.
    fn next_index<P: ShardingIndex>(&mut self, si: &mut ShardingIte<P>, index: u32) -> (r: Result<
        Option<SqlRow>,
        Error,
    >)
        requires
            old(si).wf(),
            index < old(si).spec_count(),
        ensures
            final(si).wf(),
            final(si).same_config(old(si)),
            final(si).ops() == old(si).ops(),
            final(self).sharding_index_list == old(self).sharding_index_list,
            final(self).query == old(self).query,
            final(self).counter == old(self).counter,
            final(self).skipped == old(self).skipped,
            final(self).heap == old(self).heap,
            r matches Ok(Some(v)) ==> final(self).got@ =~= old(self).got@.push((index, v@)),
            r matches Ok(None) ==> final(self).got@ =~= old(self).got@,
            r is Err ==> final(self).got@ =~= old(self).got@,
            old(self).got@.len() <= final(self).got@.len(),
            forall|j: int|
                0 <= j < old(self).got@.len() ==> #[trigger] final(self).got@[j] == old(
                    self,
                ).got@[j],
            forall|j: int|
                old(self).got@.len() <= j < final(self).got@.len() ==> (
                #[trigger] final(self).got@[j]).0 == index,
            r is Ok ==> final(si).expected() - old(si).expected() == final(si).received() - old(
                si,
            ).received(),
    {
        match si.send_data(index, DataCall::RowsNext) {
            Ok(()) => {},
            Err(e) => {
                return Err(e);
            },
        }
        let (_, ret) = match si.recv_one() {
            Ok(v) => v,
            Err(e) => {
                return Err(e);
            },
        };
        match ret {
            DataRet::Next(v) => match v {
                Ok(v) => match v {
                    Some(row) => {
                        self.got = Ghost(self.got@.push((index, row@)));
                        Ok(Some(row))
                    },
                    None => Ok(None),
                },
                Err(m) => Err(Error::EngineError(m)),
            },
            _ => Err(Error::ProtocolMismatch),
        }
    }

    /// The unordered merge step: walks the routed shards in ascending
    /// shard order, pulling from the current shard until it ends. A
    /// produced row is the one the addressed shard just handed back.
    fn next_without_order<P: ShardingIndex>(&mut self, si: &mut ShardingIte<P>) -> (r: Result<
        Option<SqlRow>,
        Error,
    >)
        requires
            old(si).wf(),
            old(self).wf_for(old(si).spec_count()),
        ensures
            final(si).wf(),
            final(si).same_config(old(si)),
            final(si).ops() == old(si).ops(),
            final(self).wf_for(final(si).spec_count()),
            final(self).sharding_index_list == old(self).sharding_index_list,
            final(self).query == old(self).query,
            final(self).counter == old(self).counter,
            final(self).skipped == old(self).skipped,
            final(self).heap == old(self).heap,
            forall|j: int|
                0 <= j < old(self).got@.len() ==> #[trigger] final(self).got@[j] == old(
                    self,
                ).got@[j],
            old(self).got@.len() <= final(self).got@.len(),
            r matches Ok(Some(v)) ==> final(self).got@.len() > 0 && final(self).got@.last().1
                =~= v@ && old(self).targets().contains(final(self).got@.last().0),
            r is Ok ==> final(si).expected() - old(si).expected() == final(si).received() - old(
                si,
            ).received(),
    {
        let m = self.sharding_index_list.len();
        let mut i: usize = 0;
        while i < m
            invariant
                si.wf(),
                si.same_config(old(si)),
                si.ops() == old(si).ops(),
                self.wf_for(si.spec_count()),
                self.sharding_index_list == old(self).sharding_index_list,
                self.query == old(self).query,
                self.counter == old(self).counter,
                self.skipped == old(self).skipped,
                self.heap == old(self).heap,
                forall|j: int|
                    0 <= j < old(self).got@.len() ==> #[trigger] self.got@[j] == old(
                        self,
                    ).got@[j],
                old(self).got@.len() <= self.got@.len(),
                m == self.targets().len(),
                i <= m,
                si.expected() - old(si).expected() == si.received() - old(si).received(),
            decreases m - i,
        {
            let index = self.sharding_index_list[i];
            // One response is consumed per turn; the bound only makes the
            // loop's end a theorem, it is never reached by a real stream.
            let mut fuel: u64 = u64::MAX;
            loop
                invariant
                    si.wf(),
                    si.same_config(old(si)),
                    si.ops() == old(si).ops(),
                    self.wf_for(si.spec_count()),
                    self.sharding_index_list == old(self).sharding_index_list,
                    self.query == old(self).query,
                    self.counter == old(self).counter,
                    self.skipped == old(self).skipped,
                    self.heap == old(self).heap,
                    forall|j: int|
                        0 <= j < old(self).got@.len() ==> #[trigger] self.got@[j] == old(
                            self,
                        ).got@[j],
                    old(self).got@.len() <= self.got@.len(),
                    i < m == self.targets().len(),
                    index == self.targets()[i as int],
                    index < si.spec_count(),
                    si.expected() - old(si).expected() == si.received() - old(si).received(),
                decreases fuel,
            {
                if fuel == 0 {
                    return Err(Error::ProtocolMismatch);
                }
                fuel = fuel - 1;
                let ghost s0 = *self;
                match self.next_index(si, index) {
                    Ok(Some(v)) => {
                        proof {
                            assert(self.targets()[i as int] == index);
                            assert(self.targets().contains(index));
                            assert(self.got@.last() == (index, v@));
                            lemma_wf_grow(s0, *self, si.spec_count());
                        }
                        return Ok(Some(v));
                    },
                    Ok(None) => {
                        proof {
                            lemma_wf_grow(s0, *self, si.spec_count());
                        }
                        break ;
                    },
                    Err(e) => {
                        proof {
                            lemma_wf_grow(s0, *self, si.spec_count());
                        }
                        return Err(e);
                    },
                }
            }
            i = i + 1;
        }
        Ok(None)
    }

    /// One refill: pulls a row from the given shard, records it in the
    /// pulled log and keys it for the heap; a row without an integer key
    /// in the order column is `UnorderableColumn`.
    fn next_heap_data<P: ShardingIndex>(
        &mut self,
        si: &mut ShardingIte<P>,
        index: u32,
        column_index: u8,
    ) -> (r: Result<Option<crate::merge::HeapData>, Error>)
        requires
            old(si).wf(),
            index < old(si).spec_count(),
        ensures
            final(si).wf(),
            final(si).same_config(old(si)),
            final(si).ops() == old(si).ops(),
            final(self).sharding_index_list == old(self).sharding_index_list,
            final(self).query == old(self).query,
            final(self).counter == old(self).counter,
            final(self).skipped == old(self).skipped,
            final(self).heap == old(self).heap,
            forall|j: int|
                0 <= j < old(self).got@.len() ==> #[trigger] final(self).got@[j] == old(
                    self,
                ).got@[j],
            old(self).got@.len() <= final(self).got@.len(),
            forall|j: int|
                old(self).got@.len() <= j < final(self).got@.len() ==> (
                #[trigger] final(self).got@[j]).0 == index,
            r matches Ok(Some(e)) ==> e.shard == index && crate::merge::row_key(
                e.row,
                column_index as int,
            ) == Some(e.key) && final(self).got@ =~= old(self).got@.push((index, e.row@)),
            r is Ok ==> final(si).expected() - old(si).expected() == final(si).received() - old(
                si,
            ).received(),
    {
        let row = match self.next_index(si, index) {
            Ok(Some(v)) => v,
            Ok(None) => {
                return Ok(None);
            },
            Err(e) => {
                return Err(e);
            },
        };
        match crate::merge::key_of(&row, column_index) {
            Some(key) => Ok(Some(crate::merge::HeapData { shard: index, key, row })),
            None => Err(Error::UnorderableColumn),
        }
    }

    /// The ordered merge step: on the first call one entry per routed
    /// shard seeds the heap; afterwards the extremal entry is emitted and
    /// its shard refilled. An emitted row is always one a targeted shard
    /// handed back.
    fn next_with_order<P: ShardingIndex>(
        &mut self,
        si: &mut ShardingIte<P>,
        column_index: u8,
        is_asc: bool,
    ) -> (r: Result<Option<SqlRow>, Error>)
        requires
            old(si).wf(),
            old(self).wf_for(old(si).spec_count()),
            old(self).spec_order() == Some((column_index, is_asc)),
        ensures
            old(self).pending() matches Some(entries) ==> (r matches Ok(Some(v)) ==> extremal_of(
                entries,
                is_asc,
                v@,
            )),
            final(si).wf(),
            final(si).same_config(old(si)),
            final(si).ops() == old(si).ops(),
            final(self).wf_for(final(si).spec_count()),
            final(self).targets() =~= old(self).targets(),
            final(self).spec_counter() == old(self).spec_counter(),
            final(self).spec_limit() == old(self).spec_limit(),
            final(self).spec_order() == old(self).spec_order(),
            final(self).spec_is_count() == old(self).spec_is_count(),
            final(self).spec_skipped() == old(self).spec_skipped(),
            forall|j: int|
                0 <= j < old(self).got@.len() ==> #[trigger] final(self).got@[j] == old(
                    self,
                ).got@[j],
            old(self).got@.len() <= final(self).got@.len(),
            r matches Ok(Some(v)) ==> exists|j: int|
                0 <= j < final(self).got@.len() && (#[trigger] final(self).got@[j]).1 =~= v@
                    && old(self).targets().contains(final(self).got@[j].0),
            r is Ok ==> final(si).expected() - old(si).expected() == final(si).received() - old(
                si,
            ).received(),
    {
        if self.heap.is_none() {
            let mut h = HeapBuf::new();
            let m = self.sharding_index_list.len();
            let mut i: usize = 0;
            while i < m
                invariant
                    si.wf(),
                    si.same_config(old(si)),
                    si.ops() == old(si).ops(),
                    self.wf_for(si.spec_count()),
                    self.sharding_index_list == old(self).sharding_index_list,
                    self.query == old(self).query,
                    self.counter == old(self).counter,
                    self.skipped == old(self).skipped,
                    self.heap == old(self).heap,
                    forall|j: int|
                        0 <= j < old(self).got@.len() ==> #[trigger] self.got@[j] == old(
                            self,
                        ).got@[j],
                    old(self).got@.len() <= self.got@.len(),
                    m == self.targets().len(),
                    i <= m,
                    self.spec_order() == Some((column_index, is_asc)),
                    forall|k: int|
                        0 <= k < h@.len() ==> (#[trigger] h@[k]).shard < si.spec_count()
                            && self.targets().contains(h@[k].shard) && (exists|j: int|
                            0 <= j < self.got@.len() && (#[trigger] self.got@[j]) == (
                            h@[k].shard,
                            h@[k].row@,
                        )) && crate::merge::row_key(h@[k].row, column_index as int) == Some(
                            h@[k].key,
                        ),
                    si.expected() - old(si).expected() == si.received() - old(si).received(),
                decreases m - i,
            {
                let index = self.sharding_index_list[i];
                let ghost s0 = *self;
                let ghost got0 = self.got@;
                let ghost h0 = h@;
                match self.next_heap_data(si, index, column_index) {
                    Ok(Some(e)) => {
                        h.push(e);
                        proof {
                            assert(self.targets()[i as int] == index);
                            assert(self.targets().contains(index));
                            lemma_wf_grow(s0, *self, si.spec_count());
                            assert(self.got@[self.got@.len() - 1] == (index, e.row@));
                            assert forall|k: int|
                                0 <= k < h@.len() implies (#[trigger] h@[k]).shard
                                < si.spec_count() && self.targets().contains(h@[k].shard) && (
                            exists|j: int|
                                0 <= j < self.got@.len() && (#[trigger] self.got@[j]) == (
                                h@[k].shard,
                                h@[k].row@,
                            )) && crate::merge::row_key(h@[k].row, column_index as int) == Some(
                                h@[k].key,
                            ) by {
                                if k < h0.len() {
                                    assert(h@[k] == h0[k]);
                                    let j0 = choose|j: int|
                                        0 <= j < got0.len() && (#[trigger] got0[j]) == (
                                        h0[k].shard,
                                        h0[k].row@,
                                        );
                                    assert(self.got@[j0] == got0[j0]);
                                } else {
                                    assert(h@[k] == e);
                                    assert(self.got@[self.got@.len() - 1] == (e.shard, e.row@));
                                }
                            }
                        }
                    },
                    Ok(None) => {
                        proof {
                            assert(self.targets()[i as int] == index);
                            assert(self.targets().contains(index));
                            lemma_wf_grow(s0, *self, si.spec_count());
                            assert forall|k: int|
                                0 <= k < h@.len() implies (#[trigger] h@[k]).shard
                                < si.spec_count() && self.targets().contains(h@[k].shard) && (
                            exists|j: int|
                                0 <= j < self.got@.len() && (#[trigger] self.got@[j]) == (
                                h@[k].shard,
                                h@[k].row@,
                            )) && crate::merge::row_key(h@[k].row, column_index as int) == Some(
                                h@[k].key,
                            ) by {
                                assert(h@[k] == h0[k]);
                                let j0 = choose|j: int|
                                    0 <= j < got0.len() && (#[trigger] got0[j]) == (
                                    h0[k].shard,
                                    h0[k].row@,
                                    );
                                assert(self.got@[j0] == got0[j0]);
                            }
                        }
                    },
                    Err(e) => {
                        proof {
                            assert(self.targets()[i as int] == index);
                            assert(self.targets().contains(index));
                            lemma_wf_grow(s0, *self, si.spec_count());
                        }
                        return Err(e);
                    },
                }
                i = i + 1;
            }
            self.heap = Some(h);
        }
        let ghost gotp = self.got@;
        proof {
            assert(self.wf_for(si.spec_count()));
        }
        let ghost sp = *self;
        let heap = match &mut self.heap {
            Some(h) => h,
            None => {
                return Err(Error::ProtocolMismatch);
            },
        };
        let ghost heapp = heap@;
        match heap.pop_best(is_asc) {
            Some(e) => {
                let ghost heap1 = heap@;
                proof {
                    let k0 = choose|k: int|
                        0 <= k < heapp.len() && e == heapp[k] && heap1 =~= heapp.remove(k);
                    assert(e == heapp[k0]);
                    match sp.heap {
                        Some(hb) => {
                            assert(hb@ == heapp);
                            assert(hb@[k0] == e);
                            assert((hb@[k0]).shard == e.shard);
                        },
                        None => {
                            assert(false);
                        },
                    }
                    assert(self.targets().contains(e.shard));
                    assert(exists|j: int|
                        0 <= j < gotp.len() && (#[trigger] gotp[j]) == (e.shard, e.row@));
                    assert forall|k: int|
                        0 <= k < heap1.len() implies (#[trigger] heap1[k]).shard
                        < si.spec_count() && self.targets().contains(heap1[k].shard) && (
                    exists|j: int|
                        0 <= j < self.got@.len() && (#[trigger] self.got@[j]) == (
                        heap1[k].shard,
                        heap1[k].row@,
                    )) && crate::merge::row_key(heap1[k].row, column_index as int) == Some(
                        heap1[k].key,
                    ) by {
                        match sp.heap {
                            Some(hb) => {
                                assert(hb@ == heapp);
                                assert(sp.got@ == self.got@);
                                assert(sp.targets() == self.targets());
                                let kp = if k < k0 {
                                    k
                                } else {
                                    k + 1
                                };
                                assert(heap1[k] == heapp[kp]);
                                assert((hb@[kp]).shard == heap1[k].shard);
                                assert((hb@[kp]).shard < si.spec_count());
                                assert(exists|j: int|
                                    0 <= j < sp.got@.len() && (#[trigger] sp.got@[j]) == (
                                    (hb@[kp]).shard,
                                    (hb@[kp]).row@,
                                ));
                                let jw = choose|j: int|
                                    0 <= j < sp.got@.len() && (#[trigger] sp.got@[j]) == (
                                    (hb@[kp]).shard,
                                    (hb@[kp]).row@,
                                    );
                                assert(self.got@[jw] == (heap1[k].shard, heap1[k].row@));
                            },
                            None => {
                                assert(false);
                            },
                        }
                    }
                    assert(self.wf_for(si.spec_count()));
                }
                let shard = e.shard;
                if shard >= si.sharding_count() {
                    return Err(Error::ProtocolMismatch);
                }
                let ghost s1 = *self;
                match self.next_heap_data(si, shard, column_index) {
                    Ok(Some(e2)) => {
                        proof {
                            lemma_wf_grow(s1, *self, si.spec_count());
                        }
                        let ghost s2 = *self;
                        match &mut self.heap {
                            Some(h2) => {
                                let ghost h1 = h2@;
                                h2.push(e2);
                                proof {
                                    assert(s2.wf_for(si.spec_count()));
                                    assert(self.got@ == s2.got@);
                                    assert(s2.got@ =~= s1.got@.push((shard, e2.row@)));
                                    assert forall|k: int|
                                        0 <= k < h2@.len() implies (#[trigger] h2@[k]).shard
                                        < si.spec_count() && self.targets().contains(
                                        h2@[k].shard,
                                    ) && (exists|j: int|
                                        0 <= j < self.got@.len() && (#[trigger] self.got@[j]) == (
                                        h2@[k].shard,
                                        h2@[k].row@,
                                    )) && crate::merge::row_key(
                                        h2@[k].row,
                                        column_index as int,
                                    ) == Some(h2@[k].key) by {
                                        if k < h1.len() {
                                            assert(h2@[k] == h1[k]);
                                            match s2.heap {
                                                Some(hb) => {
                                                    assert(hb@ == h1);
                                                    assert(hb@[k] == h1[k]);
                                                },
                                                None => {
                                                    assert(false);
                                                },
                                            }
                                        } else {
                                            assert(h2@[k] == e2);
                                            assert(self.got@[self.got@.len() - 1] == (
                                                e2.shard,
                                                e2.row@,
                                            ));
                                        }
                                    }
                                }
                            },
                            None => {},
                        }
                        proof {
                            assert(self.wf_for(si.spec_count()));
                        }
                    },
                    Ok(None) => {
                        proof {
                            lemma_wf_grow(s1, *self, si.spec_count());
                        }
                    },
                    Err(err) => {
                        proof {
                            lemma_wf_grow(s1, *self, si.spec_count());
                        }
                        return Err(err);
                    },
                }
                proof {
                    assert(exists|j: int|
                        0 <= j < self.got@.len() && (#[trigger] self.got@[j]) == (
                        e.shard,
                        e.row@,
                        )) by {
                        let j0 = choose|j: int|
                            0 <= j < gotp.len() && (#[trigger] gotp[j]) == (e.shard, e.row@);
                        assert(self.got@[j0] == gotp[j0]);
                    }
                    match old(self).pending() {
                        Some(entries) => {
                            assert(sp == *old(self));
                            assert(entries == heapp);
                            let k0 = choose|k: int|
                                0 <= k < heapp.len() && e == heapp[k] && heap1 =~= heapp.remove(
                                    k,
                                );
                            assert(entries[k0].row@ =~= e.row@);
                            assert(forall|m: int|
                                0 <= m < entries.len() ==> crate::merge::le_key(
                                    is_asc,
                                    entries[k0].key,
                                    entries[m].key,
                                ));
                            assert(extremal_of(entries, is_asc, e.row@));
                        },
                        None => {},
                    }
                }
                Ok(Some(e.row))
            },
            None => Ok(None),
        }
    }

    /// Broadcasts `RowsEnd` to each targeted shard, best effort: the
    /// workers return to their prepared statement whether or not the
    /// stream was drained. Each addressed shard is sent exactly one
    /// `RowsEnd`, unless its channel is gone; no other shard is sent
    /// anything.
    pub fn finish<P: ShardingIndex>(self, si: &mut ShardingIte<P>)
        requires
            old(si).wf(),
            self.wf_for(old(si).spec_count()),
        ensures
            final(si).wf(),
            final(si).same_config(old(si)),
            final(si).ops() == old(si).ops(),
            final(si).expected() == old(si).expected(),
            final(si).received() == old(si).received(),
            forall|k: int|
                0 <= k < final(si).sent_log().len() ==> if self.targets().contains(k as u32) {
                    (#[trigger] final(si).sent_log()[k]) =~= old(si).sent_log()[k].push(
                        plain_call(CallKind::RowsEnd),
                    ) || final(si).sent_log()[k] =~= old(si).sent_log()[k]
                } else {
                    final(si).sent_log()[k] =~= old(si).sent_log()[k]
                },
            forall|k: int|
                0 <= k < final(si).sent_log().len() && self.targets().contains(k as u32)
                    && final(si).alive()[k] ==> #[trigger] final(si).sent_log()[k] =~= old(
                    si,
                ).sent_log()[k].push(plain_call(CallKind::RowsEnd)),
    {
        let m = self.sharding_index_list.len();
        let mut i: usize = 0;
        while i < m
            invariant
                si.wf(),
                si.same_config(old(si)),
                si.ops() == old(si).ops(),
                si.expected() == old(si).expected(),
                si.received() == old(si).received(),
                self.wf_for(si.spec_count()),
                m == self.targets().len(),
                i <= m,
                forall|k: int|
                    0 <= k < si.sent_log().len() ==> if exists|j: int|
                        0 <= j < i && self.targets()[j] == k as u32 {
                        (#[trigger] si.sent_log()[k]) =~= old(si).sent_log()[k].push(
                            plain_call(CallKind::RowsEnd),
                        ) || si.sent_log()[k] =~= old(si).sent_log()[k]
                    } else {
                        si.sent_log()[k] =~= old(si).sent_log()[k]
                    },
                forall|k: int|
                    0 <= k < si.sent_log().len() && si.alive()[k] && (exists|j: int|
                        0 <= j < i && self.targets()[j] == k as u32)
                        ==> #[trigger] si.sent_log()[k] =~= old(si).sent_log()[k].push(
                        plain_call(CallKind::RowsEnd),
                    ),
            decreases m - i,
        {
            let target = self.sharding_index_list[i];
            let ghost log0 = si.sent_log();
            let _ = si.send_data(target, DataCall::RowsEnd);
            proof {
                assert forall|k: int|
                    0 <= k < si.sent_log().len() implies if exists|j: int|
                        0 <= j < i + 1 && self.targets()[j] == k as u32 {
                        (#[trigger] si.sent_log()[k]) =~= old(si).sent_log()[k].push(
                            plain_call(CallKind::RowsEnd),
                        ) || si.sent_log()[k] =~= old(si).sent_log()[k]
                    } else {
                        si.sent_log()[k] =~= old(si).sent_log()[k]
                    } by {
                    if k == target as int {
                        assert(self.targets()[i as int] == k as u32);
                        assert(!(exists|j: int| 0 <= j < i && self.targets()[j] == k as u32));
                        assert(log0[k] =~= old(si).sent_log()[k]);
                    } else {
                        assert(si.sent_log()[k] =~= log0[k]);
                        assert(forall|j: int|
                            0 <= j < i + 1 && #[trigger] self.targets()[j] == k as u32 ==> j < i);
                    }
                }
                assert forall|k: int|
                    0 <= k < si.sent_log().len() && si.alive()[k] && (exists|j: int|
                        0 <= j < i + 1 && self.targets()[j] == k as u32)
                        implies #[trigger] si.sent_log()[k] =~= old(si).sent_log()[k].push(
                        plain_call(CallKind::RowsEnd),
                    ) by {
                    if k == target as int {
                        assert(log0[k] =~= old(si).sent_log()[k]);
                    } else {
                        assert(si.sent_log()[k] =~= log0[k]);
                        assert(forall|j: int|
                            0 <= j < i + 1 && #[trigger] self.targets()[j] == k as u32 ==> j < i);
                    }
                }
            }
            i = i + 1;
        }
        proof {
            assert forall|k: int| #![trigger si.sent_log()[k]]
                0 <= k < si.sent_log().len() implies (if self.targets().contains(k as u32) {
                    si.sent_log()[k] =~= old(si).sent_log()[k].push(plain_call(CallKind::RowsEnd)) || si
                        .sent_log()[k] =~= old(si).sent_log()[k]
                } else {
                    si.sent_log()[k] =~= old(si).sent_log()[k]
                }) by {
                if self.targets().contains(k as u32) {
                    let j = choose|j: int|
                        0 <= j < self.targets().len() && self.targets()[j] == k as u32;
                    assert(exists|j2: int|
                        0 <= j2 < m && #[trigger] self.targets()[j2] == k as u32);
                } else {
                    assert(!(exists|j2: int|
                        0 <= j2 < m && #[trigger] self.targets()[j2] == k as u32)) by {
                        if exists|j2: int|
                            0 <= j2 < m && #[trigger] self.targets()[j2] == k as u32 {
                            let j2 = choose|j2: int|
                                0 <= j2 < m && #[trigger] self.targets()[j2] == k as u32;
                            assert(self.targets().contains(k as u32));
                        }
                    }
                }
            }
            assert forall|k: int|
                0 <= k < si.sent_log().len() && self.targets().contains(k as u32)
                    && si.alive()[k] implies #[trigger] si.sent_log()[k] =~= old(
                si,
            ).sent_log()[k].push(plain_call(CallKind::RowsEnd)) by {
                let j = choose|j: int|
                    0 <= j < self.targets().len() && self.targets()[j] == k as u32;
                assert(exists|j2: int| 0 <= j2 < m && self.targets()[j2] == k as u32);
            }
        }
    }
}


/// The row is held by an extremal pending entry: one whose key is least
/// under ascending order (greatest under descending) among all pending
/// entries.
pub open spec fn extremal_of(
    entries: Seq<crate::merge::HeapData>,
    asc: bool,
    row: Seq<SqlValue>,
) -> bool {
    exists|k: int|
        0 <= k < entries.len() && (#[trigger] entries[k]).row@ =~= row && (forall|m: int|
            0 <= m < entries.len() ==> crate::merge::le_key(
                asc,
                entries[k].key,
                entries[m].key,
            ))
}

/// A stream state change that keeps the targets, the pulled log and the
/// pending entries keeps it well-formed.
proof fn lemma_wf_same(r0: Rows, r1: Rows, count: u32)
    requires
        r0.wf_for(count),
        r1.sharding_index_list == r0.sharding_index_list,
        r1.query == r0.query,
        r1.heap == r0.heap,
        r1.got == r0.got,
    ensures
        r1.wf_for(count),
{
    match r1.heap {
        Some(h) => {
            assert forall|i: int|
                0 <= i < h@.len() implies (#[trigger] h@[i]).shard < count
                && r1.sharding_index_list@.contains(h@[i].shard) && (exists|j: int|
                0 <= j < r1.got@.len() && (#[trigger] r1.got@[j]) == (
                h@[i].shard,
                h@[i].row@,
            )) && (match r1.query.spec_order_pair() {
                Some(ord) => crate::merge::row_key(h@[i].row, ord.0 as int) == Some(h@[i].key),
                None => true,
            }) by {
                match r0.heap {
                    Some(h0) => {
                        assert(h0@ == h@);
                        assert((h0@[i]).shard == h@[i].shard);
                    },
                    None => {
                        assert(false);
                    },
                }
            }
        },
        None => {},
    }
}

/// Growing the pulled log with rows from targeted shards, while the
/// targets and the pending entries stay put, keeps a stream well-formed.
proof fn lemma_wf_grow(r0: Rows, r1: Rows, count: u32)
    requires
        r0.wf_for(count),
        r1.sharding_index_list == r0.sharding_index_list,
        r1.query == r0.query,
        r1.heap == r0.heap,
        r0.got@.len() <= r1.got@.len(),
        forall|j: int| 0 <= j < r0.got@.len() ==> #[trigger] r1.got@[j] == r0.got@[j],
        forall|j: int|
            r0.got@.len() <= j < r1.got@.len() ==> r0.sharding_index_list@.contains(
                (#[trigger] r1.got@[j]).0,
            ),
    ensures
        r1.wf_for(count),
{
    assert forall|i: int| 0 <= i < r1.got@.len() implies r1.sharding_index_list@.contains(
        (#[trigger] r1.got@[i]).0,
    ) by {
        if i < r0.got@.len() {
            assert(r1.got@[i] == r0.got@[i]);
        }
    }
    match r1.heap {
        Some(h) => {
            assert forall|i: int|
                0 <= i < h@.len() implies (#[trigger] h@[i]).shard < count
                && r1.sharding_index_list@.contains(h@[i].shard) && (exists|j: int|
                0 <= j < r1.got@.len() && (#[trigger] r1.got@[j]) == (
                h@[i].shard,
                h@[i].row@,
            )) && (match r1.query.spec_order_pair() {
                Some(ord) => crate::merge::row_key(h@[i].row, ord.0 as int) == Some(h@[i].key),
                None => true,
            }) by {
                let j0 = choose|j: int|
                    0 <= j < r0.got@.len() && (#[trigger] r0.got@[j]) == (
                    h@[i].shard,
                    h@[i].row@,
                    );
                assert(r1.got@[j0] == r0.got@[j0]);
            }
        },
        None => {},
    }
}

/// The mapped row stream: each merged row put through the caller's map.
pub struct MappedRows<F> {
    rows: Rows,
    map: F,
}

/// The value is a result the map can produce on some row: what a mapped
/// stream's produced values are, stated through the map's own contract.
pub open spec fn map_yields<T, F: Fn(&Row) -> Result<T, Error>>(map: F, v: T) -> bool {
    exists|row: Row| #[trigger] map.ensures((&row,), Ok(v))
}

/// The value is the map's result on a row the stream actually pulled
/// from a worker: no produced value is fabricated.
pub open spec fn map_yields_pulled<T, F: Fn(&Row) -> Result<T, Error>>(
    map: F,
    rows: Rows,
    v: T,
) -> bool {
    exists|row: Row|
        #[trigger] map.ensures((&row,), Ok(v)) && (exists|j: int|
            0 <= j < rows.pulled().len() && (#[trigger] rows.pulled()[j]).1 =~= row@)
}

impl<F> MappedRows<F> {
    /// The mapping applied to each row.
    pub closed spec fn map_fn(&self) -> F {
        self.map
    }

    /// The underlying merged row stream.
    pub closed spec fn spec_rows(&self) -> Rows {
        self.rows
    }

    /// The underlying stream stays inside `[0, count)`.
    pub closed spec fn rows_wf(&self, count: u32) -> bool {
        self.rows.wf_for(count)
    }

    /// The next mapped row: the next merged row put through the map, or
    /// the end of the stream. A produced value is the map's result on a
    /// row of the stream, a failing map's error is yielded as the
    /// result, and the map is called only when a row was produced.
    pub fn next<P: ShardingIndex, T>(&mut self, si: &mut ShardingIte<P>) -> (r: Result<
        Option<T>,
        Error,
    >) where F: Fn(&Row) -> Result<T, Error>
        requires
            old(si).wf(),
            old(self).rows_wf(old(si).spec_count()),
            forall|row: Row| #[trigger] old(self).map_fn().requires((&row,)),
        ensures
            final(si).wf(),
            final(si).same_config(old(si)),
            final(si).ops() == old(si).ops(),
            final(self).rows_wf(final(si).spec_count()),
            final(self).map_fn() == old(self).map_fn(),
            final(self).spec_rows().targets() =~= old(self).spec_rows().targets(),
            r matches Ok(Some(v)) ==> map_yields(old(self).map_fn(), v),
            forall|j: int|
                0 <= j < old(self).spec_rows().pulled().len()
                    ==> #[trigger] final(self).spec_rows().pulled()[j] == old(
                    self,
                ).spec_rows().pulled()[j],
            old(self).spec_rows().pulled().len() <= final(self).spec_rows().pulled().len(),
            !old(self).spec_rows().spec_is_count() ==> (r matches Ok(Some(v))
                ==> map_yields_pulled(old(self).map_fn(), final(self).spec_rows(), v)),
            r is Ok ==> final(si).expected() - old(si).expected() == final(si).received() - old(
                si,
            ).received(),
    {
        let next = match self.rows.next(si) {
            Ok(v) => v,
            Err(e) => {
                return Err(e);
            },
        };
        match next {
            Some(row) => {
                proof {
                    assert(old(self).map_fn().requires((&row,)));
                }
                match (self.map)(&row) {
                    Ok(v) => {
                        proof {
                            assert(old(self).map_fn().ensures((&row,), Ok(v)));
                            assert(map_yields(old(self).map_fn(), v));
                            if !old(self).spec_rows().spec_is_count() {
                                let j = choose|j: int|
                                    0 <= j < self.rows.pulled().len() && (
                                    #[trigger] self.rows.pulled()[j]).1 =~= row@ && old(
                                        self,
                                    ).spec_rows().targets().contains(self.rows.pulled()[j].0);
                                assert(0 <= j < self.spec_rows().pulled().len() && (
                                self.spec_rows().pulled()[j]).1 =~= row@);
                                assert(exists|j2: int|
                                    0 <= j2 < self.spec_rows().pulled().len() && (
                                    #[trigger] self.spec_rows().pulled()[j2]).1 =~= row@);
                                assert(map_yields_pulled(old(self).map_fn(), self.spec_rows(), v));
                            }
                        }
                        Ok(Some(v))
                    },
                    Err(e) => Err(e),
                }
            },
            None => Ok(None),
        }
    }

    /// Closes the underlying stream.
    pub fn finish<P: ShardingIndex>(self, si: &mut ShardingIte<P>)
        requires
            old(si).wf(),
            self.rows_wf(old(si).spec_count()),
        ensures
            final(si).wf(),
            final(si).same_config(old(si)),
            final(si).ops() == old(si).ops(),
    {
        self.rows.finish(si);
    }
}


} // verus!
