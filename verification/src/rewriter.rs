//! The per-shard rewriter: the statement rendered with its global
//! `LIMIT`/`OFFSET` cleared, since the merge applies both globally.

use crate::parser::{ParsedStatement, QueryModel, StatementModel};
use sqlparser::ast as sq;
use vstd::prelude::*;

verus! {

/// The per-shard text of the statement parsed from `sql`: the statement
/// rendered back to SQL with its `LIMIT`/`OFFSET` clause cleared when it
/// is a query, and rendered unchanged otherwise. Names what the rendering
/// below returns: parsing, clearing and rendering are each deterministic,
/// so the result is a function of the parsed text alone.
pub uninterp spec fn rewritten_of(sql: Seq<char>) -> Seq<char>;

/// Relies on `Clone` for sqlparser's `ast::Statement`, on the
/// `limit_clause` field of its `ast::Query`, and on `Display` for
/// `ast::Statement`: the statement rendered back to SQL with its
/// `LIMIT`/`OFFSET` clause cleared when it is a query (clearing a
/// non-query changes nothing). The parser ties the tree to the text, so
/// the result is [`rewritten_of`] that text.
#[verifier::external_body]
fn render_rewritten(parsed: &ParsedStatement) -> (r: String)
    ensures
        r@ == rewritten_of(parsed.spec_text()),
{
    let mut s = parsed.ast_ref().clone();
    if let sq::Statement::Query(q) = &mut s {
        q.limit_clause = None;
    }
    s.to_string()
}

/// A query model with its limit and offset cleared; any other model kept.
pub open spec fn spec_rewrite_model(m: StatementModel) -> StatementModel {
    match m {
        StatementModel::Query(q) => StatementModel::Query(
            QueryModel {
                projection: q.projection,
                order_first: q.order_first,
                limit: None,
                offset: None,
            },
        ),
        other => other,
    }
}

/// Rewriting a model is idempotent on its own output, and a rewritten
/// query holds no limit and no offset: the merge applies both globally,
/// so each shard must return its full matching set under the same
/// ordering.
pub proof fn lemma_rewrite_model_idempotent(m: StatementModel)
    ensures
        spec_rewrite_model(spec_rewrite_model(m)) == spec_rewrite_model(m),
        spec_rewrite_model(m) matches StatementModel::Query(q) ==> q.limit is None && q.offset
            is None,
{
}

/// The per-shard statement rewriter.
pub struct ReWriter {}

impl ReWriter {
    /// The per-shard SQL text: the statement rendered with `LIMIT` and
    /// `OFFSET` cleared when it is a query, and rendered unchanged
    /// otherwise — [`rewritten_of`] the text the statement was parsed
    /// from.
    pub fn rewrite(parsed: &ParsedStatement) -> (r: String)
        ensures
            r@ == rewritten_of(parsed.spec_text()),
    {
        render_rewritten(parsed)
    }
}

} // verus!
