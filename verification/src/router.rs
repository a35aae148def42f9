//! The statement router: which shards one statement is dispatched to.

use crate::error::Error;
use crate::parser::{ParsedStatement, StatementModel, ValueExpr};
use crate::sql_daemon::SqlParam;
use crate::text::{all_digits, dec_value, parse_i64_digits, starts_with_char, string_eq};
use crate::ShardingIteConfig;
use vstd::prelude::*;

verus! {

/// The user-supplied sharding function: a pure map from a parameter value
/// to the shard it belongs to, or `None` for a value it rejects.
pub trait ShardingIndex {
    /// What the function returns for each parameter value.
    spec fn spec_sharding_index(&self, param: &SqlParam) -> Option<u32>;

    /// Computes the shard of one parameter value.
    fn sharding_index(&self, param: &SqlParam) -> (r: Option<u32>)
        ensures
            r == self.spec_sharding_index(param),
    ;
}

/// A ready-made sharding function: integer parameters modulo the shard
/// count; negative values, text values and a count of zero are rejected.
pub struct ModShardingIndex {
    pub count: u32,
}

impl ShardingIndex for ModShardingIndex {
    open spec fn spec_sharding_index(&self, param: &SqlParam) -> Option<u32> {
        if self.count == 0 {
            None
        } else {
            match *param {
                SqlParam::I64(n) => if n >= 0 {
                    Some((n % (self.count as i64)) as u32)
                } else {
                    None
                },
                SqlParam::U32(n) => Some(n % self.count),
                SqlParam::U16(n) => Some((n as u32) % self.count),
                SqlParam::String(_) => None,
            }
        }
    }

    fn sharding_index(&self, param: &SqlParam) -> (r: Option<u32>)
        ensures
            r == self.spec_sharding_index(param),
    {
        if self.count == 0 {
            return None;
        }
        match param {
            SqlParam::I64(n) => if *n >= 0 {
                Some((*n % (self.count as i64)) as u32)
            } else {
                None
            },
            SqlParam::U32(n) => Some(*n % self.count),
            SqlParam::U16(n) => Some((*n as u32) % self.count),
            SqlParam::String(_) => None,
        }
    }
}

/// Where one statement is dispatched: to every shard, to the shard of one
/// key value, or nowhere because the statement's shape is rejected.
pub enum RoutePlan {
    All,
    ByKey(SqlParam),
    Reject(Error),
}

/// The first position at or after `i` whose column is the plain
/// identifier `column`.
pub open spec fn spec_col_position(
    cols: Seq<Option<String>>,
    column: Seq<char>,
    i: int,
) -> Option<int>
    decreases cols.len() - i,
{
    if i < 0 || i >= cols.len() {
        None
    } else {
        match cols[i] {
            Some(c) => if c@ == column {
                Some(i)
            } else {
                spec_col_position(cols, column, i + 1)
            },
            None => spec_col_position(cols, column, i + 1),
        }
    }
}

/// The routing policy over a statement model. Only an `INSERT` into the
/// sharding table whose sharding column is directly addressable is routed
/// to one shard: a `?` placeholder takes the bound parameter at the
/// column's position, a decimal literal is read as a signed 64-bit
/// integer, and every other expression form is an invalid sharding key.
/// A multi-row `VALUES` is rejected; every other statement shape
/// broadcasts to every shard.
pub open spec fn spec_route(
    table: Seq<char>,
    column: Seq<char>,
    m: StatementModel,
    params: Seq<SqlParam>,
) -> RoutePlan {
    match m {
        StatementModel::Insert(ins) => if !(ins.table matches Some(t) && t@ == table) {
            RoutePlan::All
        } else {
            match spec_col_position(ins.columns@, column, 0) {
                None => RoutePlan::All,
                Some(j) => match ins.rows {
                    None => RoutePlan::All,
                    Some(rows) => if rows@.len() != 1 {
                        RoutePlan::Reject(Error::UnsupportedInsertShape)
                    } else if j >= rows@[0]@.len() {
                        RoutePlan::All
                    } else {
                        match rows@[0]@[j] {
                            ValueExpr::Placeholder(s) => if s@.len() > 0 && s@[0] == '?' {
                                if j < params.len() {
                                    RoutePlan::ByKey(params[j])
                                } else {
                                    RoutePlan::Reject(Error::ShardingParamMissing)
                                }
                            } else {
                                RoutePlan::Reject(Error::InvalidShardingKey)
                            },
                            ValueExpr::Number(n) => if n@.len() > 0 && all_digits(n@) && dec_value(
                                n@,
                            ) <= i64::MAX {
                                RoutePlan::ByKey(SqlParam::I64(dec_value(n@) as i64))
                            } else {
                                RoutePlan::Reject(Error::InvalidShardingKey)
                            },
                            ValueExpr::Other => RoutePlan::Reject(Error::InvalidShardingKey),
                        }
                    },
                },
            }
        },
        _ => RoutePlan::All,
    }
}

/// The full shard set `[0, N)`, in ascending order.
pub fn full_route(count: u32) -> (r: Vec<u32>)
    ensures
        r@ =~= Seq::new(count as nat, |i: int| i as u32),
{
    let mut v: Vec<u32> = Vec::new();
    let mut i: u32 = 0;
    while i < count
        invariant
            i <= count,
            v@ =~= Seq::new(i as nat, |k: int| k as u32),
        decreases count - i,
    {
        v.push(i);
        i = i + 1;
    }
    v
}

/// The statement router.
pub struct Router {}

impl Router {
    /// Maps one statement and its bound parameters to the shard indices it
    /// is dispatched to, exactly as [`spec_route`] decides it; a routed
    /// key is put through the configured sharding function, whose
    /// rejection surfaces as `InvalidShardingKey`.
    pub fn get_indexes_with_params<P: ShardingIndex>(
        config: &ShardingIteConfig<P>,
        parsed: &ParsedStatement,
        params: &Vec<SqlParam>,
    ) -> (r: Result<Vec<u32>, Error>)
        ensures
            match spec_route(
                config.sharding_table@,
                config.sharding_column@,
                parsed.spec_model(),
                params@,
            ) {
                RoutePlan::All => r matches Ok(v) && v@ =~= Seq::new(
                    config.sharding_count as nat,
                    |i: int| i as u32,
                ),
                RoutePlan::ByKey(p) => match config.sharding_index.spec_sharding_index(&p) {
                    Some(ix) => r matches Ok(v) && v@ =~= seq![ix],
                    None => r matches Err(e) && e is InvalidShardingKey,
                },
                RoutePlan::Reject(e) => r matches Err(e2) && e2 == e,
            },
    {
        let ins = match parsed.model() {
            StatementModel::Insert(ins) => ins,
            _ => {
                return Ok(full_route(config.sharding_count));
            },
        };
        let table_match = match &ins.table {
            Some(t) => string_eq(t, &config.sharding_table),
            None => false,
        };
        if !table_match {
            return Ok(full_route(config.sharding_count));
        }
        let j = match Self::find_column_position(&ins.columns, &config.sharding_column) {
            Some(j) => j,
            None => {
                return Ok(full_route(config.sharding_count));
            },
        };
        let rows = match &ins.rows {
            Some(rows) => rows,
            None => {
                return Ok(full_route(config.sharding_count));
            },
        };
        if rows.len() != 1 {
            return Err(Error::UnsupportedInsertShape);
        }
        let row = &rows[0];
        if j >= row.len() {
            return Ok(full_route(config.sharding_count));
        }
        match &row[j] {
            ValueExpr::Placeholder(s) => {
                if starts_with_char(s.as_str(), '?') {
                    if j < params.len() {
                        match config.sharding_index.sharding_index(&params[j]) {
                            Some(ix) => {
                                let mut v: Vec<u32> = Vec::new();
                                v.push(ix);
                                Ok(v)
                            },
                            None => Err(Error::InvalidShardingKey),
                        }
                    } else {
                        Err(Error::ShardingParamMissing)
                    }
                } else {
                    Err(Error::InvalidShardingKey)
                }
            },
            ValueExpr::Number(n) => {
                match parse_i64_digits(n.as_str()) {
                    Some(k) => match config.sharding_index.sharding_index(&SqlParam::I64(k)) {
                        Some(ix) => {
                            let mut v: Vec<u32> = Vec::new();
                            v.push(ix);
                            Ok(v)
                        },
                        None => Err(Error::InvalidShardingKey),
                    },
                    None => Err(Error::InvalidShardingKey),
                }
            },
            ValueExpr::Other => Err(Error::InvalidShardingKey),
        }
    }

    /// Finds the sharding column's position in the insert's column list,
    /// as [`spec_col_position`] describes it.
    fn find_column_position(cols: &Vec<Option<String>>, column: &String) -> (r: Option<usize>)
        ensures
            match spec_col_position(cols@, column@, 0) {
                Some(j) => r matches Some(j2) && j2 == j,
                None => r is None,
            },
    {
        let n = cols.len();
        let mut i: usize = 0;
        while i < n
            invariant
                n == cols@.len(),
                i <= n,
                spec_col_position(cols@, column@, 0) == spec_col_position(cols@, column@, i as int),
            decreases n - i,
        {
            proof {
                let step = spec_col_position(cols@, column@, i as int);
                match cols@[i as int] {
                    Some(c) => {
                        if c@ == column@ {
                            assert(step == Some(i as int));
                        } else {
                            assert(step == spec_col_position(cols@, column@, i as int + 1));
                        }
                    },
                    None => {
                        assert(step == spec_col_position(cols@, column@, i as int + 1));
                    },
                }
            }
            match &cols[i] {
                Some(c) => {
                    if string_eq(c, column) {
                        return Some(i);
                    }
                },
                None => {},
            }
            i = i + 1;
        }
        None
    }
}

/// A single-row insert into the sharding table whose sharding column, at
/// position `j` of the column list, holds a `?` placeholder.
pub open spec fn placeholder_routed_shape(
    table: Seq<char>,
    column: Seq<char>,
    m: StatementModel,
    j: int,
) -> bool {
    match m {
        StatementModel::Insert(ins) => {
            &&& match ins.table {
                Some(t) => t@ == table,
                None => false,
            }
            &&& spec_col_position(ins.columns@, column, 0) == Some(j)
            &&& match ins.rows {
                Some(rows) => rows@.len() == 1 && j < rows@[0]@.len() && match rows@[0]@[j] {
                    ValueExpr::Placeholder(s) => s@.len() > 0 && s@[0] == '?',
                    _ => false,
                },
                None => false,
            }
        },
        _ => false,
    }
}

/// Routing law, placeholder side: a single-row insert into the sharding
/// table whose sharding column holds a `?` placeholder routes to exactly
/// the shard of the bound parameter at the column's position.
pub proof fn lemma_route_placeholder(
    table: Seq<char>,
    column: Seq<char>,
    m: StatementModel,
    params: Seq<SqlParam>,
    j: int,
)
    requires
        placeholder_routed_shape(table, column, m, j),
        0 <= j < params.len(),
    ensures
        spec_route(table, column, m, params) == RoutePlan::ByKey(params[j]),
{
}

/// Routing law, broadcast side: any statement that is not an insert, and
/// any insert into another table, is dispatched to the full shard set.
pub proof fn lemma_route_broadcast(
    table: Seq<char>,
    column: Seq<char>,
    m: StatementModel,
    params: Seq<SqlParam>,
)
    requires
        !(m matches StatementModel::Insert(ins) && ins.table matches Some(t) && t@ == table),
    ensures
        spec_route(table, column, m, params) == RoutePlan::All,
{
}

} // verus!
