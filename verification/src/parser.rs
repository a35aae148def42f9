//! The statement parser and plan extractor: the engine-facing parser
//! reads the text once, the parts the layer acts on are copied into a
//! plain statement model, and everything downstream is verified over
//! that model.

use crate::error::Error;
use crate::text::{all_digits, dec_value, parse_u32_digits, seq_eq_ignore_case,
    str_eq_ignore_ascii_case};
use sqlparser::ast as sq;
use vstd::prelude::*;
use vstd::string::StringExecFns;

verus! {

// ---------------------------------------------------------------------------
// The statement model: what the planner, router and rewriter read from one
// parsed statement, as plain values.
// ---------------------------------------------------------------------------

/// A value expression in a position the layer inspects: a positional
/// placeholder, a numeric literal (its digits as written), or anything
/// else.
#[derive(Debug)]
pub enum ValueExpr {
    Placeholder(String),
    Number(String),
    Other,
}

/// One projection item of a `SELECT`.
#[derive(Debug)]
pub enum ProjItem {
    /// An unnamed bare identifier.
    Ident(String),
    /// An unnamed function call: its name, if the name is a plain
    /// identifier, and whether its first argument is `*`.
    Call { name: Option<String>, star: bool },
    /// An unnamed expression of any other kind.
    OtherExpr,
    /// An aliased, qualified or wildcard item.
    Named,
}

/// The first `ORDER BY` term: the identifier ordered by, if the term is a
/// bare identifier, and the direction if one was written.
#[derive(Debug)]
pub struct OrderItemModel {
    pub ident: Option<String>,
    pub asc: Option<bool>,
}

/// What the layer reads from a `SELECT` statement.
#[derive(Debug)]
pub struct QueryModel {
    /// The projection items; `None` when the body is not a plain `SELECT`.
    pub projection: Option<Vec<ProjItem>>,
    /// The first ordering term, if any.
    pub order_first: Option<OrderItemModel>,
    /// The `LIMIT` expression, if any.
    pub limit: Option<ValueExpr>,
    /// The `OFFSET` expression, if any.
    pub offset: Option<ValueExpr>,
}

/// What the layer reads from an `INSERT` statement.
#[derive(Debug)]
pub struct InsertModel {
    /// The first part of the table name, when it is a plain identifier.
    pub table: Option<String>,
    /// The column list; a column that is not a single plain identifier is
    /// `None`.
    pub columns: Vec<Option<String>>,
    /// The `VALUES` rows; `None` when the source is not a plain `VALUES`.
    pub rows: Option<Vec<Vec<ValueExpr>>>,
}

/// The model of one statement.
#[derive(Debug)]
pub enum StatementModel {
    Query(QueryModel),
    Insert(InsertModel),
    Other,
}

/// One parsed statement: the engine-facing syntax tree, kept for the
/// rewriter's rendering, beside the plain model that the verified logic
/// reads and the ghost text it was parsed from. The fields are private so
/// that every value comes out of the parser, where the trusted boundary
/// ties the tree, the model and the text together.
pub struct ParsedStatement {
    ast: sq::Statement,
    model: StatementModel,
    text: Ghost<Seq<char>>,
}

impl ParsedStatement {
    /// The plain model the verified logic reads.
    pub closed spec fn spec_model(&self) -> StatementModel {
        self.model
    }

    /// The text this statement was parsed from.
    pub closed spec fn spec_text(&self) -> Seq<char> {
        self.text@
    }

    /// Reads the plain model.
    pub fn model(&self) -> (m: &StatementModel)
        ensures
            *m == self.spec_model(),
    {
        &self.model
    }

    /// The engine-facing syntax tree, for the rewriter's rendering.
    pub(crate) fn ast_ref(&self) -> &sq::Statement {
        &self.ast
    }
}

/// The outcome of handing one SQL text to the parser: the models of its
/// statements in order, or the syntax error's message. Names what
/// sqlparser's `Parser::parse_sql` returns under the SQLite dialect,
/// read through the model extractors below: a function of the text
/// alone.
pub uninterp spec fn parse_outcome_of(sql: Seq<char>) -> Result<Seq<StatementModel>, Seq<char>>;

// ---------------------------------------------------------------------------
// The trusted boundary around sqlparser. The wrappers below parse the text
// and copy the parts the layer reads into the model; Verus believes their
// contracts and everything downstream is verified over the model.
// ---------------------------------------------------------------------------

/// Declares sqlparser's statement type; the verified logic carries such
/// values through without looking inside them.
#[verifier::external_type_specification]
#[verifier::external_body]
pub struct ExSqStatement(sqlparser::ast::Statement);

/// Declares sqlparser's insert node for the converters below.
#[verifier::external_type_specification]
#[verifier::external_body]
pub struct ExSqInsert(sqlparser::ast::Insert);

/// Declares sqlparser's projection item for the converters below.
#[verifier::external_type_specification]
#[verifier::external_body]
pub struct ExSqSelectItem(sqlparser::ast::SelectItem);

/// Declares sqlparser's ordering expression for the converters below.
#[verifier::external_type_specification]
#[verifier::external_body]
pub struct ExSqOrderByExpr(sqlparser::ast::OrderByExpr);

/// Declares sqlparser's expression node for the converters below.
#[verifier::external_type_specification]
#[verifier::external_body]
pub struct ExSqExpr(sqlparser::ast::Expr);

/// Declares sqlparser's function-call node for the converters below.
#[verifier::external_type_specification]
#[verifier::external_body]
pub struct ExSqFunction(sqlparser::ast::Function);

/// Relies on sqlparser's `Parser::parse_sql` with the SQLite dialect: it
/// parses the text into a list of statements, or fails on a syntax
/// error, deterministically in the text alone. Positional placeholders
/// such as `?1` are read as placeholder values. Each statement is paired
/// with its model, copied out by the readers below.
#[verifier::external_body]
fn parse_sql_text(sql: &str) -> (r: Result<Vec<(sq::Statement, StatementModel)>, String>)
    ensures
        match parse_outcome_of(sql@) {
            Ok(ms) => r matches Ok(v) && v@.map_values(
                |p: (sq::Statement, StatementModel)| p.1,
            ) == ms,
            Err(m) => r matches Err(m2) && m2@ == m,
        },
{
    let list = match sqlparser::parser::Parser::parse_sql(&sqlparser::dialect::SQLiteDialect {}, sql) {
        Ok(l) => l,
        Err(e) => return Err(e.to_string()),
    };
    let mut out: Vec<(sq::Statement, StatementModel)> = Vec::new();
    for ast in list {
        let model = model_of_statement(&ast);
        out.push((ast, model));
    }
    Ok(out)
}

/// Relies on sqlparser's `ast::Statement`: tells queries and inserts apart
/// and copies the parts the layer reads into the model.
#[verifier::external_body]
fn model_of_statement(stmt: &sq::Statement) -> StatementModel {
    match stmt {
        sq::Statement::Query(_) => StatementModel::Query(
            QueryModel {
                projection: model_of_projection(stmt),
                order_first: model_of_order(stmt),
                limit: model_of_limit(stmt),
                offset: model_of_offset(stmt),
            },
        ),
        sq::Statement::Insert(ins) => StatementModel::Insert(model_of_insert(ins)),
        _ => StatementModel::Other,
    }
}

/// Relies on sqlparser's `ast::SetExpr`: the projection items of a plain
/// `SELECT` body, or `None` for any other body.
#[verifier::external_body]
fn model_of_projection(stmt: &sq::Statement) -> Option<Vec<ProjItem>> {
    let q = match stmt {
        sq::Statement::Query(q) => q,
        _ => return None,
    };
    match q.body.as_ref() {
        sq::SetExpr::Select(sel) => {
            let mut items: Vec<ProjItem> = Vec::new();
            for it in sel.projection.iter() {
                items.push(model_of_select_item(it));
            }
            Some(items)
        },
        _ => None,
    }
}

/// Relies on sqlparser's `ast::SelectItem` and `ast::Expr`: classifies one
/// projection item.
#[verifier::external_body]
fn model_of_select_item(it: &sq::SelectItem) -> ProjItem {
    match it {
        sq::SelectItem::UnnamedExpr(sq::Expr::Identifier(id)) => ProjItem::Ident(id.value.clone()),
        sq::SelectItem::UnnamedExpr(sq::Expr::Function(f)) => ProjItem::Call {
            name: match f.name.0.first() {
                Some(sq::ObjectNamePart::Identifier(id)) => Some(id.value.clone()),
                _ => None,
            },
            star: call_has_star_arg(f),
        },
        sq::SelectItem::UnnamedExpr(_) => ProjItem::OtherExpr,
        _ => ProjItem::Named,
    }
}

/// Relies on sqlparser's `ast::FunctionArguments`: whether the call's
/// first argument is a bare `*`.
#[verifier::external_body]
fn call_has_star_arg(f: &sq::Function) -> bool {
    match &f.args {
        sq::FunctionArguments::List(l) => matches!(
            l.args.first(),
            Some(sq::FunctionArg::Unnamed(sq::FunctionArgExpr::Wildcard))
        ),
        _ => false,
    }
}

/// Relies on sqlparser's `ast::OrderBy`: the first ordering expression,
/// with `ORDER BY ALL` read as a term that is not an identifier.
#[verifier::external_body]
fn model_of_order(stmt: &sq::Statement) -> Option<OrderItemModel> {
    let q = match stmt {
        sq::Statement::Query(q) => q,
        _ => return None,
    };
    match &q.order_by {
        Some(ob) => match &ob.kind {
            sq::OrderByKind::Expressions(v) => match v.first() {
                Some(oe) => Some(model_of_order_expr(oe)),
                None => None,
            },
            _ => Some(OrderItemModel { ident: None, asc: None }),
        },
        None => None,
    }
}

/// Relies on sqlparser's `ast::OrderByExpr`: the ordered-by identifier, if
/// the term is one, and the written direction.
#[verifier::external_body]
fn model_of_order_expr(oe: &sq::OrderByExpr) -> OrderItemModel {
    OrderItemModel {
        ident: match &oe.expr {
            sq::Expr::Identifier(id) => Some(id.value.clone()),
            _ => None,
        },
        asc: match &oe.options.sort {
            Some(sq::OrderBySort::Asc) => Some(true),
            Some(sq::OrderBySort::Desc) => Some(false),
            _ => None,
        },
    }
}

/// Relies on sqlparser's `ast::LimitClause`: the `LIMIT` expression, in
/// either written order of the clause.
#[verifier::external_body]
fn model_of_limit(stmt: &sq::Statement) -> Option<ValueExpr> {
    let q = match stmt {
        sq::Statement::Query(q) => q,
        _ => return None,
    };
    match &q.limit_clause {
        Some(sq::LimitClause::LimitOffset { limit: Some(e), .. }) => Some(model_of_value_expr(e)),
        Some(sq::LimitClause::OffsetCommaLimit { limit, .. }) => Some(model_of_value_expr(limit)),
        _ => None,
    }
}

/// Relies on sqlparser's `ast::LimitClause`: the `OFFSET` expression, in
/// either written order of the clause.
#[verifier::external_body]
fn model_of_offset(stmt: &sq::Statement) -> Option<ValueExpr> {
    let q = match stmt {
        sq::Statement::Query(q) => q,
        _ => return None,
    };
    match &q.limit_clause {
        Some(sq::LimitClause::LimitOffset { offset: Some(o), .. }) => Some(
            model_of_value_expr(&o.value),
        ),
        Some(sq::LimitClause::OffsetCommaLimit { offset, .. }) => Some(model_of_value_expr(offset)),
        _ => None,
    }
}

/// Relies on sqlparser's `ast::Expr` and `ast::Value`: classifies a value
/// position as a placeholder, a numeric literal, or anything else.
#[verifier::external_body]
fn model_of_value_expr(e: &sq::Expr) -> ValueExpr {
    match e {
        sq::Expr::Value(v) => match &v.value {
            sq::Value::Number(n, _) => ValueExpr::Number(n.clone()),
            sq::Value::Placeholder(p) => ValueExpr::Placeholder(p.clone()),
            _ => ValueExpr::Other,
        },
        _ => ValueExpr::Other,
    }
}

/// Relies on sqlparser's `ast::Insert`: the table name, columns and rows.
#[verifier::external_body]
fn model_of_insert(ins: &sq::Insert) -> InsertModel {
    InsertModel {
        table: insert_table_name(ins),
        columns: insert_column_names(ins),
        rows: insert_value_rows(ins),
    }
}

/// Relies on sqlparser's `ast::TableObject`: the first part of the target
/// table's name, when it is a plain identifier.
#[verifier::external_body]
fn insert_table_name(ins: &sq::Insert) -> Option<String> {
    match &ins.table {
        sq::TableObject::TableName(n) => match n.0.first() {
            Some(sq::ObjectNamePart::Identifier(id)) => Some(id.value.clone()),
            _ => None,
        },
        _ => None,
    }
}

/// Relies on sqlparser's `ast::ObjectName`: each column of the insert's
/// column list that is a single plain identifier, by name.
#[verifier::external_body]
fn insert_column_names(ins: &sq::Insert) -> Vec<Option<String>> {
    let mut cols: Vec<Option<String>> = Vec::new();
    for c in ins.columns.iter() {
        cols.push(match c.0.first() {
            Some(sq::ObjectNamePart::Identifier(id)) if c.0.len() == 1 => Some(id.value.clone()),
            _ => None,
        });
    }
    cols
}

/// Relies on sqlparser's `ast::Values`: the rows of a plain `VALUES`
/// source, or `None` for any other source.
#[verifier::external_body]
fn insert_value_rows(ins: &sq::Insert) -> Option<Vec<Vec<ValueExpr>>> {
    let q = match &ins.source {
        Some(q) => q,
        None => return None,
    };
    let vals = match q.body.as_ref() {
        sq::SetExpr::Values(v) => v,
        _ => return None,
    };
    let mut rows: Vec<Vec<ValueExpr>> = Vec::new();
    for row in vals.rows.iter() {
        rows.push(model_of_value_row(&row.content));
    }
    Some(rows)
}

/// Relies on sqlparser's `ast::Expr`: classifies every expression of one
/// `VALUES` row.
#[verifier::external_body]
fn model_of_value_row(row: &Vec<sq::Expr>) -> Vec<ValueExpr> {
    let mut exprs: Vec<ValueExpr> = Vec::new();
    for e in row.iter() {
        exprs.push(model_of_value_expr(e));
    }
    exprs
}

// ---------------------------------------------------------------------------
// The query plan.
// ---------------------------------------------------------------------------

/// A global limit: at most `limit` rows after skipping `offset` rows.
#[derive(Debug, Clone)]
pub struct Limit {
    pub limit: u32,
    pub offset: u32,
}

/// The ordering of the merged stream: the projection position of the order
/// column and the direction.
#[derive(Debug, Clone)]
pub struct OrderBy {
    pub column_index: u8,
    pub is_asc: bool,
}

/// The one supported aggregate: `count` over the named argument.
#[derive(Debug, Clone)]
pub enum Aggregate {
    Count(String),
}

/// The parsed summary of one `SELECT`, computed once per prepare.
#[derive(Debug, Clone)]
pub struct Query {
    pub limit: Option<Limit>,
    pub order_by: Option<OrderBy>,
    pub aggregate: Option<Aggregate>,
}

impl Query {
    /// The plan's global limit and offset as a plain pair.
    pub open spec fn spec_limit_pair(&self) -> Option<(u32, u32)> {
        match self.limit {
            Some(l) => Some((l.limit, l.offset)),
            None => None,
        }
    }

    /// The plan's ordering as a plain pair: the order column's projection
    /// position and the direction.
    pub open spec fn spec_order_pair(&self) -> Option<(u8, bool)> {
        match self.order_by {
            Some(ob) => Some((ob.column_index, ob.is_asc)),
            None => None,
        }
    }

    /// Whether the plan aggregates with `COUNT`.
    pub open spec fn spec_count_star(&self) -> bool {
        self.aggregate is Some
    }
}

/// The outcome of planning one statement model: a rejection with its
/// error, or the plan's content as plain values.
pub enum PlanOutcome {
    Rejected(Error),
    Planned { limit: Option<(u32, u32)>, order_by: Option<(u8, bool)>, count_star: bool },
}

/// The position of `name` in the projection: scanning from `i`, the first
/// bare identifier equal to it. A projection item that is not a bare
/// identifier rejects the search; a missing column is `ColumnNotFound`.
pub open spec fn spec_find_column(items: Seq<ProjItem>, name: Seq<char>, i: int) -> Result<
    int,
    Error,
>
    decreases items.len() - i,
{
    if i < 0 || i >= items.len() {
        Err(Error::ColumnNotFound)
    } else {
        match items[i] {
            ProjItem::Ident(id) => if id@ == name {
                Ok(i)
            } else {
                spec_find_column(items, name, i + 1)
            },
            _ => Err(Error::UnsupportedQueryShape),
        }
    }
}

/// The order part of the plan: nothing without an `ORDER BY`; otherwise
/// the term must be a bare identifier found in the projection of a plain
/// `SELECT`, at a position a `u8` can hold, and the direction defaults to
/// ascending.
pub open spec fn spec_order_plan(q: QueryModel) -> Result<Option<(u8, bool)>, Error> {
    match q.order_first {
        None => Ok(None),
        Some(item) => match item.ident {
            None => Err(Error::UnsupportedQueryShape),
            Some(name) => match q.projection {
                None => Err(Error::UnsupportedQueryShape),
                Some(items) => match spec_find_column(items@, name@, 0) {
                    Err(e) => Err(e),
                    Ok(ci) => if ci <= u8::MAX {
                        Ok(
                            Some(
                                (
                                    ci as u8,
                                    match item.asc {
                                        Some(b) => b,
                                        None => true,
                                    },
                                ),
                            ),
                        )
                    } else {
                        Err(Error::UnsupportedQueryShape)
                    },
                },
            },
        },
    }
}

/// A limit or offset position: absent, or a decimal literal a `u32` can
/// hold; anything else is an unsupported shape.
pub open spec fn spec_limit_num(v: Option<ValueExpr>) -> Result<Option<u32>, Error> {
    match v {
        None => Ok(None),
        Some(ValueExpr::Number(n)) => if n@.len() > 0 && all_digits(n@) && dec_value(n@)
            <= u32::MAX {
            Ok(Some(dec_value(n@) as u32))
        } else {
            Err(Error::UnsupportedQueryShape)
        },
        Some(_) => Err(Error::UnsupportedQueryShape),
    }
}

/// The aggregate scan from position `i`: identifiers and other plain
/// expressions pass; a `count` call must be the sole item and take `*`; a
/// `json_extract` call passes; every other call, and every named item,
/// rejects the query.
pub open spec fn spec_scan_aggregate(items: Seq<ProjItem>, i: int) -> Result<bool, Error>
    decreases items.len() - i,
{
    if i < 0 || i >= items.len() {
        Ok(false)
    } else {
        match items[i] {
            ProjItem::Ident(_) => spec_scan_aggregate(items, i + 1),
            ProjItem::OtherExpr => spec_scan_aggregate(items, i + 1),
            ProjItem::Named => Err(Error::UnsupportedQueryShape),
            ProjItem::Call { name, star } => match name {
                Some(n) => if seq_eq_ignore_case(n@, "count"@) {
                    if items.len() > 1 {
                        Err(Error::UnsupportedQueryShape)
                    } else if star {
                        Ok(true)
                    } else {
                        Err(Error::UnsupportedQueryShape)
                    }
                } else if seq_eq_ignore_case(n@, "json_extract"@) {
                    spec_scan_aggregate(items, i + 1)
                } else {
                    Err(Error::UnsupportedQueryShape)
                },
                None => Err(Error::UnsupportedQueryShape),
            },
        }
    }
}

/// The aggregate part of the plan, over the projection of a plain
/// `SELECT`.
pub open spec fn spec_aggregate(q: QueryModel) -> Result<bool, Error> {
    match q.projection {
        None => Err(Error::UnsupportedQueryShape),
        Some(items) => spec_scan_aggregate(items@, 0),
    }
}

/// The whole plan of one statement model, with the checks in the order
/// they are made: only queries are planned; then the ordering term, the
/// limit, the offset and the aggregate are read in turn, and the first
/// rejection wins.
pub open spec fn spec_plan(m: StatementModel) -> PlanOutcome {
    match m {
        StatementModel::Query(q) => match spec_order_plan(q) {
            Err(e) => PlanOutcome::Rejected(e),
            Ok(ord) => match spec_limit_num(q.limit) {
                Err(e) => PlanOutcome::Rejected(e),
                Ok(l) => match spec_limit_num(q.offset) {
                    Err(e) => PlanOutcome::Rejected(e),
                    Ok(o) => match spec_aggregate(q) {
                        Err(e) => PlanOutcome::Rejected(e),
                        Ok(cnt) => PlanOutcome::Planned {
                            limit: match l {
                                None => None,
                                Some(ln) => Some(
                                    (
                                        ln,
                                        match o {
                                            None => 0u32,
                                            Some(x) => x,
                                        },
                                    ),
                                ),
                            },
                            order_by: ord,
                            count_star: cnt,
                        },
                    },
                },
            },
        },
        _ => PlanOutcome::Rejected(Error::UnsupportedQueryShape),
    }
}

/// Whether a produced plan says what the planning outcome demands.
pub open spec fn plan_matches(m: StatementModel, r: Result<Query, Error>) -> bool {
    match spec_plan(m) {
        PlanOutcome::Rejected(e) => r matches Err(e2) && e2 == e,
        PlanOutcome::Planned { limit, order_by, count_star } => r matches Ok(q) && {
            &&& match limit {
                None => q.limit is None,
                Some((l, o)) => q.limit matches Some(lim) && lim.limit == l && lim.offset == o,
            }
            &&& match order_by {
                None => q.order_by is None,
                Some((ci, asc)) => q.order_by matches Some(ob) && ob.column_index == ci
                    && ob.is_asc == asc,
            }
            &&& if count_star {
                q.aggregate matches Some(Aggregate::Count(s)) && s@ == "*"@
            } else {
                q.aggregate is None
            }
        },
    }
}

/// The statement parser and plan extractor.
pub struct Parser {}

impl Parser {
    /// Parses the text as exactly one statement: succeeds exactly when
    /// the text parses and holds a single statement, and then carries
    /// that statement's model and the text. Fails with `ParseError` on a
    /// syntax error and on zero or several statements.
    pub fn parse(sql: &str) -> (r: Result<ParsedStatement, Error>)
        ensures
            r is Ok <==> (parse_outcome_of(sql@) matches Ok(ms) && ms.len() == 1),
            r matches Ok(p) ==> (parse_outcome_of(sql@) matches Ok(ms) && ms.len() == 1
                && p.spec_model() == ms[0] && p.spec_text() == sql@),
            r matches Err(e) ==> e is ParseError,
    {
        let mut list = match parse_sql_text(sql) {
            Ok(l) => l,
            Err(m) => return Err(Error::ParseError(m)),
        };
        if list.len() == 1 {
            match list.pop() {
                Some(pair) => {
                    proof {
                        match parse_outcome_of(sql@) {
                            Ok(ms) => {
                                assert(ms[0] == list@.push(pair).map_values(
                                    |q: (sq::Statement, StatementModel)| q.1,
                                )[0]);
                            },
                            Err(_) => {
                                assert(false);
                            },
                        }
                    }
                    let (ast, model) = pair;
                    Ok(ParsedStatement { ast, model, text: Ghost(sql@) })
                },
                None => Err(Error::ParseError(String::from_str("empty sql"))),
            }
        } else if list.len() == 0 {
            Err(Error::ParseError(String::from_str("empty sql")))
        } else {
            Err(Error::ParseError(String::from_str("expected a single sql statement")))
        }
    }

    /// Extracts the query plan from a parsed statement, exactly as
    /// [`spec_plan`] describes it on the statement's model.
    pub fn get_query_from_ast(parsed: &ParsedStatement) -> (r: Result<Query, Error>)
        ensures
            plan_matches(parsed.spec_model(), r),
    {
        let q = match parsed.model() {
            StatementModel::Query(q) => q,
            _ => {
                return Err(Error::UnsupportedQueryShape);
            },
        };
        let order_by = match &q.order_first {
            None => None,
            Some(item) => {
                let name = match &item.ident {
                    Some(n) => n,
                    None => {
                        return Err(Error::UnsupportedQueryShape);
                    },
                };
                let items = match &q.projection {
                    Some(items) => items,
                    None => {
                        return Err(Error::UnsupportedQueryShape);
                    },
                };
                let ci = match Self::find_column_index_in_select(items, name) {
                    Ok(ci) => ci,
                    Err(e) => {
                        return Err(e);
                    },
                };
                let is_asc = match item.asc {
                    Some(b) => b,
                    None => true,
                };
                Some(OrderBy { column_index: ci, is_asc })
            },
        };
        let limit_number = match Self::limit_value(&q.limit) {
            Ok(v) => v,
            Err(e) => {
                return Err(e);
            },
        };
        let offset_number = match Self::limit_value(&q.offset) {
            Ok(v) => v,
            Err(e) => {
                return Err(e);
            },
        };
        let limit = match limit_number {
            Some(l) => Some(
                Limit {
                    limit: l,
                    offset: match offset_number {
                        Some(o) => o,
                        None => 0,
                    },
                },
            ),
            None => None,
        };
        let aggregate = match Self::get_aggregate(q) {
            Ok(a) => a,
            Err(e) => {
                return Err(e);
            },
        };
        Ok(Query { limit, order_by, aggregate })
    }

    /// Reads a limit or offset position as [`spec_limit_num`] describes
    /// it.
    fn limit_value(v: &Option<ValueExpr>) -> (r: Result<Option<u32>, Error>)
        ensures
            r == spec_limit_num(*v),
    {
        match v {
            None => Ok(None),
            Some(ValueExpr::Number(n)) => match parse_u32_digits(n.as_str()) {
                Some(x) => Ok(Some(x)),
                None => Err(Error::UnsupportedQueryShape),
            },
            Some(_) => Err(Error::UnsupportedQueryShape),
        }
    }

    /// Scans the projection for the one supported aggregate, as
    /// [`spec_aggregate`] describes it.
    fn get_aggregate(q: &QueryModel) -> (r: Result<Option<Aggregate>, Error>)
        ensures
            match spec_aggregate(*q) {
                Ok(true) => r matches Ok(Some(Aggregate::Count(s))) && s@ == "*"@,
                Ok(false) => r matches Ok(None),
                Err(e) => r matches Err(e2) && e2 == e,
            },
    {
        let items = match &q.projection {
            Some(items) => items,
            None => {
                return Err(Error::UnsupportedQueryShape);
            },
        };
        let n = items.len();
        let mut i: usize = 0;
        while i < n
            invariant
                q.projection matches Some(v) && v@ == items@,
                n == items@.len(),
                i <= n,
                spec_scan_aggregate(items@, 0) == spec_scan_aggregate(items@, i as int),
            decreases n - i,
        {
            proof {
                let step = spec_scan_aggregate(items@, i as int);
                match items@[i as int] {
                    ProjItem::Ident(_) => {
                        assert(step == spec_scan_aggregate(items@, i as int + 1));
                    },
                    ProjItem::OtherExpr => {
                        assert(step == spec_scan_aggregate(items@, i as int + 1));
                    },
                    ProjItem::Named => {
                        assert(step == Err::<bool, Error>(Error::UnsupportedQueryShape));
                    },
                    ProjItem::Call { name, star } => {
                        assert(step == (match name {
                            Some(n) => if seq_eq_ignore_case(n@, "count"@) {
                                if items@.len() > 1 {
                                    Err(Error::UnsupportedQueryShape)
                                } else if star {
                                    Ok(true)
                                } else {
                                    Err(Error::UnsupportedQueryShape)
                                }
                            } else if seq_eq_ignore_case(n@, "json_extract"@) {
                                spec_scan_aggregate(items@, i as int + 1)
                            } else {
                                Err(Error::UnsupportedQueryShape)
                            },
                            None => Err::<bool, Error>(Error::UnsupportedQueryShape),
                        }));
                    },
                }
            }
            match &items[i] {
                ProjItem::Ident(_) => {},
                ProjItem::OtherExpr => {},
                ProjItem::Named => {
                    return Err(Error::UnsupportedQueryShape);
                },
                ProjItem::Call { name, star } => {
                    let nm = match name {
                        Some(nm) => nm,
                        None => {
                            return Err(Error::UnsupportedQueryShape);
                        },
                    };
                    if str_eq_ignore_ascii_case(nm.as_str(), "count") {
                        if n > 1 {
                            return Err(Error::UnsupportedQueryShape);
                        } else if *star {
                            return Ok(Some(Aggregate::Count(String::from_str("*"))));
                        } else {
                            return Err(Error::UnsupportedQueryShape);
                        }
                    } else if !str_eq_ignore_ascii_case(nm.as_str(), "json_extract") {
                        return Err(Error::UnsupportedQueryShape);
                    }
                },
            }
            i = i + 1;
        }
        Ok(None)
    }

    /// Finds the order column's position in the projection, as
    /// [`spec_find_column`] describes it; the position must fit a `u8`.
    fn find_column_index_in_select(items: &Vec<ProjItem>, column: &String) -> (r: Result<
        u8,
        Error,
    >)
        ensures
            match spec_find_column(items@, column@, 0) {
                Ok(ci) => if ci <= u8::MAX {
                    r matches Ok(c) && c == ci
                } else {
                    r == Err::<u8, Error>(Error::UnsupportedQueryShape)
                },
                Err(e) => r matches Err(e2) && e2 == e,
            },
    {
        let n = items.len();
        let mut i: usize = 0;
        while i < n
            invariant
                n == items@.len(),
                i <= n,
                spec_find_column(items@, column@, 0) == spec_find_column(items@, column@, i as int),
            decreases n - i,
        {
            proof {
                let step = spec_find_column(items@, column@, i as int);
                match items@[i as int] {
                    ProjItem::Ident(id) => {
                        if id@ == column@ {
                            assert(step == Ok::<int, Error>(i as int));
                        } else {
                            assert(step == spec_find_column(items@, column@, i as int + 1));
                        }
                    },
                    _ => {
                        assert(step == Err::<int, Error>(Error::UnsupportedQueryShape));
                    },
                }
            }
            match &items[i] {
                ProjItem::Ident(id) => {
                    if crate::text::string_eq(id, column) {
                        if i <= u8::MAX as usize {
                            return Ok(i as u8);
                        } else {
                            return Err(Error::UnsupportedQueryShape);
                        }
                    }
                },
                _ => {
                    return Err(Error::UnsupportedQueryShape);
                },
            }
            i = i + 1;
        }
        Err(Error::ColumnNotFound)
    }
}

} // verus!
