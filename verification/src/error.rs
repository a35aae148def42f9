//! The error kinds of the sharding layer.

use vstd::prelude::*;

verus! {

/// The error kinds surfaced by the sharding layer.
///
/// Parse, routing and rewrite errors are produced before any worker is
/// addressed; engine errors are passed through from the embedded SQL engine
/// as plain messages.
#[derive(Debug, Clone)]
pub enum Error {
    /// Invalid SQL text, or text holding zero or several statements.
    ParseError(String),
    /// A query construct that the planner, rewriter or merge does not handle.
    UnsupportedQueryShape,
    /// A routed insert whose `VALUES` holds more than one row.
    UnsupportedInsertShape,
    /// An order-by identifier missing from the projection, or a cell index
    /// out of range.
    ColumnNotFound,
    /// A non-integer value in the order-by column at row time.
    UnorderableColumn,
    /// A sharding key the sharding function rejects, or a non-integer
    /// literal in the sharding column.
    InvalidShardingKey,
    /// A placeholder in the sharding column indexing past the bound
    /// parameters.
    ShardingParamMissing,
    /// A worker response whose variant does not match the pending request.
    ProtocolMismatch,
    /// An error message passed through from the SQL engine.
    EngineError(String),
    /// A worker is gone and its channel is unusable.
    ChannelClosed,
    /// `query_row` found no row.
    EmptyResult,
    /// A configuration rejected at open time, such as a shard count of zero.
    InvalidConfig,
}

} // verus!
