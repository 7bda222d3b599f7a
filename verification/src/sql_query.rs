//! The row budget of a query: which statements may be bounded or read page by page, and how.
use vstd::prelude::*;
use vstd::string::*;

use sqlparser::ast::{
    Expr, LimitClause, Offset, OffsetRows, Query, SetExpr, Statement, UnaryOperator, Value,
};
use sqlparser::dialect::{MySqlDialect, PostgreSqlDialect, SQLiteDialect};
use sqlparser::parser::Parser;

use crate::number_text::{decimal, lemma_decimal_reads_back, parse_u64, parse_unsigned};
use crate::sql_text::DatabaseDriver;
use crate::text::same;

verus! {

/// `sqlparser::ast::Statement`, carried through as it is.
#[verifier::external_type_specification]
#[verifier::external_body]
pub struct ExStatement(sqlparser::ast::Statement);

/// `sqlparser::ast::Query`, carried through as it is.
#[verifier::external_type_specification]
#[verifier::external_body]
pub struct ExQuery(sqlparser::ast::Query);

/// `sqlparser::ast::SetExpr`, carried through as it is.
#[verifier::external_type_specification]
#[verifier::external_body]
pub struct ExSetExpr(sqlparser::ast::SetExpr);

/// `sqlparser::ast::LimitClause`, carried through as it is.
#[verifier::external_type_specification]
#[verifier::external_body]
pub struct ExLimitClause(sqlparser::ast::LimitClause);

/// `sqlparser::ast::Expr`, carried through as it is.
#[verifier::external_type_specification]
#[verifier::external_body]
pub struct ExExpr(sqlparser::ast::Expr);

/// The grammar that a statement is read with.
#[derive(Clone, Copy, Debug, PartialEq, Eq, Structural)]
pub enum SqlDialect {
    Sqlite,
    Mysql,
    Postgres,
}

/// An expression where a number of rows stands.
#[derive(Debug)]
pub enum RowTerm {
    /// A number as it is written.
    Number(String),
    /// `NULL`.
    Null,
    /// A minus sign before a number.
    Minus(String),
    /// Anything else.
    Other,
}

/// The limit of a query.
#[derive(Debug)]
pub enum LimitShape {
    Absent,
    LimitOffset { limit: Option<RowTerm>, offset: Option<RowTerm> },
    OffsetComma { start: RowTerm, count: RowTerm },
}

/// The `FETCH` of a query.
#[derive(Debug)]
pub struct FetchShape {
    pub with_ties: bool,
    pub percent: bool,
    pub quantity: Option<RowTerm>,
}

/// What a query is made of.
#[derive(Debug)]
pub enum BodyShape {
    Select { into: bool },
    Query(Box<QueryShape>),
    SetOperation { left: Box<BodyShape>, right: Box<BodyShape> },
    Values,
    Table,
    Write,
}

/// A query with what it is built on.
#[derive(Debug)]
pub struct QueryShape {
    pub locks: usize,
    pub body: BodyShape,
    pub with: Vec<QueryShape>,
}

/// A statement.
#[derive(Debug)]
pub enum StatementShape {
    Query { query: QueryShape, limit: LimitShape, fetch: Option<FetchShape> },
    Other,
}

/// What an expression for a number of rows says.
pub ghost enum RowTermView {
    Number(Seq<char>),
    Null,
    Minus(Seq<char>),
    Other,
}

/// What the limit of a query says.
pub ghost enum LimitView {
    Absent,
    LimitOffset { limit: Option<RowTermView>, offset: Option<RowTermView> },
    OffsetComma { start: RowTermView, count: RowTermView },
}

/// What the `FETCH` of a query says.
pub ghost struct FetchView {
    pub with_ties: bool,
    pub percent: bool,
    pub quantity: Option<RowTermView>,
}

/// The make of a query, with lists as sequences.
pub ghost enum BodyView {
    Select { into: bool },
    Query(Box<QueryView>),
    SetOperation { left: Box<BodyView>, right: Box<BodyView> },
    Values,
    Table,
    Write,
}

/// A query, with lists as sequences.
pub ghost struct QueryView {
    pub locks: nat,
    pub body: BodyView,
    pub with: Seq<QueryView>,
}

/// A statement, with lists as sequences.
pub ghost enum StatementView {
    Query { query: QueryView, limit: LimitView, fetch: Option<FetchView> },
    Other,
}

impl RowTerm {
    pub open spec fn view(&self) -> RowTermView {
        match self {
            RowTerm::Number(s) => RowTermView::Number(s@),
            RowTerm::Null => RowTermView::Null,
            RowTerm::Minus(s) => RowTermView::Minus(s@),
            RowTerm::Other => RowTermView::Other,
        }
    }
}

/// The view of a term that may be missing.
pub open spec fn opt_term(term: Option<RowTerm>) -> Option<RowTermView> {
    match term {
        Some(t) => Some(t.view()),
        None => None,
    }
}

impl LimitShape {
    pub open spec fn view(&self) -> LimitView {
        match self {
            LimitShape::Absent => LimitView::Absent,
            LimitShape::LimitOffset { limit, offset } => LimitView::LimitOffset {
                limit: opt_term(*limit),
                offset: opt_term(*offset),
            },
            LimitShape::OffsetComma { start, count } => LimitView::OffsetComma {
                start: start.view(),
                count: count.view(),
            },
        }
    }
}

/// The view of a `FETCH` that may be missing.
pub open spec fn opt_fetch(fetch: Option<FetchShape>) -> Option<FetchView> {
    match fetch {
        Some(f) => Some(
            FetchView { with_ties: f.with_ties, percent: f.percent, quantity: opt_term(f.quantity) },
        ),
        None => None,
    }
}

impl BodyShape {
    pub open spec fn view(&self) -> BodyView
        decreases self,
    {
        match self {
            BodyShape::Select { into } => BodyView::Select { into: *into },
            BodyShape::Query(query) => BodyView::Query(Box::new(query.view())),
            BodyShape::SetOperation { left, right } => BodyView::SetOperation {
                left: Box::new(left.view()),
                right: Box::new(right.view()),
            },
            BodyShape::Values => BodyView::Values,
            BodyShape::Table => BodyView::Table,
            BodyShape::Write => BodyView::Write,
        }
    }
}

/// The view of each query of a list.
pub open spec fn query_views(list: Seq<QueryShape>) -> Seq<QueryView>
    decreases list,
{
    if list.len() == 0 {
        Seq::empty()
    } else {
        query_views(list.drop_last()).push(list.last().view())
    }
}

impl QueryShape {
    pub open spec fn view(&self) -> QueryView
        decreases self,
    {
        QueryView {
            locks: self.locks as nat,
            body: self.body.view(),
            with: query_views(self.with@),
        }
    }
}

impl StatementShape {
    pub open spec fn view(&self) -> StatementView {
        match self {
            StatementShape::Query { query, limit, fetch } => StatementView::Query {
                query: query.view(),
                limit: limit.view(),
                fetch: opt_fetch(*fetch),
            },
            StatementShape::Other => StatementView::Other,
        }
    }
}

/// The view of each statement of a text; nothing where the text could not be read.
pub open spec fn opt_statements(list: Option<Vec<StatementShape>>) -> Option<Seq<StatementView>> {
    match list {
        Some(v) => Some(v@.map_values(|s: StatementShape| s.view())),
        None => None,
    }
}

/// The grammar of a driver.
pub open spec fn dialect(driver: DatabaseDriver) -> SqlDialect {
    match driver {
        DatabaseDriver::Sqlite => SqlDialect::Sqlite,
        DatabaseDriver::Postgres => SqlDialect::Postgres,
        DatabaseDriver::Mysql | DatabaseDriver::Mariadb => SqlDialect::Mysql,
    }
}

fn dialect_of(driver: DatabaseDriver) -> (r: SqlDialect)
    ensures
        r == dialect(driver),
{
    match driver {
        DatabaseDriver::Sqlite => SqlDialect::Sqlite,
        DatabaseDriver::Postgres => SqlDialect::Postgres,
        DatabaseDriver::Mysql | DatabaseDriver::Mariadb => SqlDialect::Mysql,
    }
}

/// What is written into a query for the rows that it asks for.
#[derive(Clone, Copy, Debug, PartialEq, Eq, Structural)]
pub enum LimitEdit {
    /// The limit becomes `LIMIT limit`, with `OFFSET offset` where there is one.
    LimitOffset { limit: usize, offset: Option<usize> },
    /// The limit becomes `LIMIT offset, limit`.
    OffsetComma { offset: usize, limit: usize },
    /// The number behind `LIMIT` becomes this one; the rest of the limit stays.
    Limit(usize),
    /// The number behind `FETCH` becomes this one.
    Fetch(usize),
}

/// A number of rows as it is written.
pub open spec fn number_term(n: usize) -> RowTermView {
    RowTermView::Number(decimal(n as nat))
}

/// The limit of a query once the edit is written into it.
pub open spec fn limit_after(limit: LimitView, edit: LimitEdit) -> LimitView {
    match edit {
        LimitEdit::LimitOffset { limit, offset } => LimitView::LimitOffset {
            limit: Some(number_term(limit)),
            offset: match offset {
                Some(n) => Some(number_term(n)),
                None => None,
            },
        },
        LimitEdit::OffsetComma { offset, limit } => LimitView::OffsetComma {
            start: number_term(offset),
            count: number_term(limit),
        },
        LimitEdit::Limit(n) => match limit {
            LimitView::Absent => LimitView::Absent,
            LimitView::LimitOffset { offset, .. } => LimitView::LimitOffset {
                limit: Some(number_term(n)),
                offset,
            },
            LimitView::OffsetComma { start, .. } => LimitView::OffsetComma {
                start,
                count: number_term(n),
            },
        },
        LimitEdit::Fetch(_) => limit,
    }
}

/// The `FETCH` of a query once the edit is written into it.
pub open spec fn fetch_after(fetch: Option<FetchView>, edit: LimitEdit) -> Option<FetchView> {
    match (edit, fetch) {
        (LimitEdit::Fetch(n), Some(f)) => Some(FetchView { quantity: Some(number_term(n)), ..f }),
        _ => fetch,
    }
}

/// The statements that `sqlparser::parser::Parser::parse_sql` reads in a text; nothing where it
/// fails.
pub uninterp spec fn parsed_sql(sql: Seq<char>, dialect: SqlDialect) -> Option<Seq<StatementView>>;

/// The text that `sqlparser::ast::Statement` writes for the first statement of a text once an edit
/// was put into it.
pub uninterp spec fn limited_sql(
    sql: Seq<char>,
    dialect: SqlDialect,
    edit: LimitEdit,
) -> Seq<char>;

/// Calls `sqlparser::parser::Parser::parse_sql` with the dialect; nothing where it fails. `parse_sql`
/// and `write_limit` are built on it.
#[verifier::external_body]
fn statements_of(sql: &str, dialect: SqlDialect) -> (r: Option<Vec<Statement>>)
{
    match dialect {
        SqlDialect::Sqlite => Parser::parse_sql(&SQLiteDialect {}, sql).ok(),
        SqlDialect::Mysql => Parser::parse_sql(&MySqlDialect {}, sql).ok(),
        SqlDialect::Postgres => Parser::parse_sql(&PostgreSqlDialect {}, sql).ok(),
    }
}

/// Takes over an expression of `sqlparser::ast::Expr` by its variant: a step of `parse_sql`.
#[verifier::external_body]
fn row_term(expr: &Expr) -> (r: RowTerm)
{
    match expr {
        Expr::Value(v) => match &v.value {
            Value::Number(n, _) => RowTerm::Number(n.clone()),
            Value::Null => RowTerm::Null,
            _ => RowTerm::Other,
        },
        Expr::UnaryOp { op: UnaryOperator::Minus, expr } => match row_term(expr) {
            RowTerm::Number(n) => RowTerm::Minus(n),
            _ => RowTerm::Other,
        },
        _ => RowTerm::Other,
    }
}

/// Takes over a `sqlparser::ast::SetExpr` by its variant: a step of `parse_sql`.
#[verifier::external_body]
fn body_shape(body: &SetExpr) -> (r: BodyShape)
{
    match body {
        SetExpr::Select(s) => BodyShape::Select { into: s.into.is_some() },
        SetExpr::Query(q) => BodyShape::Query(Box::new(query_shape(q))),
        SetExpr::SetOperation { left, right, .. } => BodyShape::SetOperation {
            left: Box::new(body_shape(left)),
            right: Box::new(body_shape(right)),
        },
        SetExpr::Values(_) => BodyShape::Values,
        SetExpr::Table(_) => BodyShape::Table,
        _ => BodyShape::Write,
    }
}

/// Takes over a `sqlparser::ast::Query`, how many locks it takes, its body, and the queries of its
/// `WITH`: a step of `parse_sql`.
#[verifier::external_body]
fn query_shape(query: &Query) -> (r: QueryShape)
{
    QueryShape {
        locks: query.locks.len(),
        body: body_shape(&query.body),
        with: query.with.iter().flat_map(|w| w.cte_tables.iter()).map(|c| query_shape(&c.query)).collect(),
    }
}

/// Takes over a `sqlparser::ast::LimitClause` by its variant: a step of `parse_sql`.
#[verifier::external_body]
fn limit_shape(limit: &Option<LimitClause>) -> (r: LimitShape)
{
    match limit {
        None => LimitShape::Absent,
        Some(LimitClause::LimitOffset { limit, offset, .. }) => LimitShape::LimitOffset {
            limit: limit.as_ref().map(row_term),
            offset: offset.as_ref().map(|o| row_term(&o.value)),
        },
        Some(LimitClause::OffsetCommaLimit { offset, limit }) => LimitShape::OffsetComma {
            start: row_term(offset),
            count: row_term(limit),
        },
    }
}

/// Takes over a `sqlparser::ast::Statement` by its variant: a step of `parse_sql`.
#[verifier::external_body]
fn statement_shape(statement: &Statement) -> (r: StatementShape)
{
    match statement {
        Statement::Query(query) => StatementShape::Query {
            query: query_shape(query),
            limit: limit_shape(&query.limit_clause),
            fetch: query.fetch.as_ref().map(|f| FetchShape {
                with_ties: f.with_ties,
                percent: f.percent,
                quantity: f.quantity.as_ref().map(row_term),
            }),
        },
        _ => StatementShape::Other,
    }
}

/// Reads a text with `sqlparser::parser::Parser::parse_sql` and takes over what it reads. What that
/// is has a name, `parsed_sql`.
#[verifier::external_body]
fn parse_sql(sql: &str, dialect: SqlDialect) -> (r: Option<Vec<StatementShape>>)
    ensures
        opt_statements(r) == parsed_sql(sql@, dialect),
{
    statements_of(sql, dialect).map(|list| list.iter().map(statement_shape).collect())
}

/// Makes a `sqlparser::ast::Expr` of a number: a step of `write_limit`.
#[verifier::external_body]
fn number_expr(n: usize) -> (r: Expr)
{
    Expr::Value(Value::Number(n.to_string(), false).into())
}

/// Writes a number into the limit of a `sqlparser::ast::LimitClause` by its variant: a step of
/// `write_limit`.
#[verifier::external_body]
fn set_limit(clause: &mut LimitClause, n: usize)
{
    match clause {
        LimitClause::LimitOffset { limit, .. } => *limit = Some(number_expr(n)),
        LimitClause::OffsetCommaLimit { limit, .. } => *limit = number_expr(n),
    }
}

/// Makes a `sqlparser::ast::LimitClause` of `LIMIT` and `OFFSET`, field by field: a step of
/// `write_limit`.
#[verifier::external_body]
fn limit_clause(limit: usize, offset: Option<usize>) -> (r: LimitClause)
{
    LimitClause::LimitOffset {
        limit: Some(number_expr(limit)),
        offset: offset.map(|n| Offset { value: number_expr(n), rows: OffsetRows::None }),
        limit_by: vec![],
    }
}

/// Puts an edit into the fields of a `sqlparser::ast::Query` that it names: a step of `write_limit`.
#[verifier::external_body]
fn put_edit(query: &mut Query, edit: LimitEdit)
{
    match edit {
        LimitEdit::LimitOffset { limit, offset } => query.limit_clause = Some(limit_clause(limit, offset)),
        LimitEdit::OffsetComma { offset, limit } => query.limit_clause = Some(LimitClause::OffsetCommaLimit {
            offset: number_expr(offset),
            limit: number_expr(limit),
        }),
        LimitEdit::Limit(n) => query.limit_clause.iter_mut().for_each(|clause| set_limit(clause, n)),
        LimitEdit::Fetch(n) => query.fetch.iter_mut().for_each(|fetch| fetch.quantity = Some(number_expr(n))),
    }
}

/// Reads a text with `sqlparser::parser::Parser::parse_sql`, puts the edit into its first query, and
/// writes it with the `Display` of `sqlparser::ast::Statement`. What comes out has a name,
/// `limited_sql`. What the query asks for then is stated by `limit_after` and `fetch_after`; that the
/// written text is read back so is left unsaid.
#[verifier::external_body]
fn write_limit(sql: &str, dialect: SqlDialect, edit: LimitEdit) -> (r: String)
    ensures
        r@ == limited_sql(sql@, dialect, edit),
{
    let mut statements = statements_of(sql, dialect).unwrap_or_default();
    if let Some(Statement::Query(query)) = statements.first_mut() {
        put_edit(query, edit);
    }
    statements.first().map(|s| s.to_string()).unwrap_or_default()
}

/// The query only reads: no lock, no `INTO`, no writing statement, in none of its parts.
pub open spec fn reads(query: QueryView) -> bool
    decreases query,
{
    query.locks == 0 && body_reads(query.body) && all_read(query.with)
}

/// The body of a query only reads.
pub open spec fn body_reads(body: BodyView) -> bool
    decreases body,
{
    match body {
        BodyView::Select { into } => !into,
        BodyView::Query(query) => reads(*query),
        BodyView::SetOperation { left, right } => body_reads(*left) && body_reads(*right),
        BodyView::Values | BodyView::Table => true,
        BodyView::Write => false,
    }
}

/// Each query of a list only reads.
pub open spec fn all_read(list: Seq<QueryView>) -> bool
    decreases list,
{
    list.len() == 0 || (all_read(list.drop_last()) && reads(list.last()))
}

/// SQLite takes a limit behind this body.
pub open spec fn takes_limit(body: BodyView) -> bool
    decreases body,
{
    match body {
        BodyView::Select { .. } => true,
        BodyView::SetOperation { right, .. } => takes_limit(*right),
        _ => false,
    }
}

fn query_reads(query: &QueryShape) -> (r: bool)
    ensures
        r == reads(query.view()),
    decreases query,
{
    reveal_with_fuel(reads, 2);
    query.locks == 0 && shape_reads(&query.body) && list_reads(&query.with)
}

fn shape_reads(body: &BodyShape) -> (r: bool)
    ensures
        r == body_reads(body.view()),
    decreases body,
{
    reveal_with_fuel(body_reads, 2);
    match body {
        BodyShape::Select { into } => !*into,
        BodyShape::Query(query) => query_reads(query),
        BodyShape::SetOperation { left, right } => {
            let first = shape_reads(left);
            let second = shape_reads(right);
            first && second
        },
        BodyShape::Values => true,
        BodyShape::Table => true,
        BodyShape::Write => false,
    }
}

fn list_reads(list: &Vec<QueryShape>) -> (r: bool)
    ensures
        r == all_read(query_views(list@)),
    decreases list,
{
    let mut i: usize = 0;
    let mut r: bool = true;
    while i < list.len()
        invariant
            i <= list@.len(),
            r == all_read(query_views(list@.take(i as int))),
        decreases list@.len() - i,
    {
        let one = query_reads(&list[i]);
        proof {
            let now = list@.take(i + 1);
            assert(now.drop_last() =~= list@.take(i as int));
            assert(query_views(now).drop_last() =~= query_views(list@.take(i as int)));
        }
        r = r && one;
        i = i + 1;
    }
    assert(list@.take(i as int) =~= list@);
    r
}

fn shape_takes_limit(body: &BodyShape) -> (r: bool)
    ensures
        r == takes_limit(body.view()),
    decreases body,
{
    reveal_with_fuel(takes_limit, 2);
    match body {
        BodyShape::Select { .. } => true,
        BodyShape::SetOperation { right, .. } => shape_takes_limit(right),
        _ => false,
    }
}

/// The number of rows that a term gives.
pub open spec fn rows_of(term: RowTermView) -> Option<nat> {
    match term {
        RowTermView::Number(s) => parse_unsigned(s, usize::MAX as nat),
        _ => None,
    }
}

fn row_number(term: &RowTerm) -> (r: Option<usize>)
    ensures
        r is Some == rows_of(term.view()) is Some,
        r is Some ==> r->0 == rows_of(term.view())->0,
{
    match term {
        RowTerm::Number(s) => match parse_u64(s.as_str()) {
            Some(n) => if n <= usize::MAX as u64 {
                Some(n as usize)
            } else {
                None
            },
            None => None,
        },
        _ => None,
    }
}

/// A term that may ask for more rows than the budget and can be set to it: a larger number,
/// `NULL`, or the `-1` that SQLite reads as no limit.
pub open spec fn exceeds(term: RowTermView, cap: nat) -> bool {
    match term {
        RowTermView::Number(s) => match parse_unsigned(s, u64::MAX as nat) {
            Some(n) => n > cap,
            None => false,
        },
        RowTermView::Null => true,
        RowTermView::Minus(s) => s == "1"@,
        RowTermView::Other => false,
    }
}

fn term_exceeds(term: &RowTerm, cap: usize) -> (r: bool)
    ensures
        r == exceeds(term.view(), cap as nat),
{
    match term {
        RowTerm::Number(s) => match parse_u64(s.as_str()) {
            Some(n) => n > cap as u64,
            None => false,
        },
        RowTerm::Null => true,
        RowTerm::Minus(s) => same(s.as_str(), "1"),
        RowTerm::Other => false,
    }
}

/// What is to be done with a statement: leave it, or change its limit; and whether it can be read
/// on behind what it now asks for.
#[derive(Clone, Copy, Debug, PartialEq, Eq, Structural)]
pub struct QueryPlan {
    pub edit: Option<LimitEdit>,
    pub pageable: bool,
}

/// The statement is left as it is.
pub open spec fn keep() -> QueryPlan {
    QueryPlan { edit: None, pageable: false }
}

/// How many rows are left behind an offset.
pub open spec fn rest_of(total: nat, offset: nat) -> nat {
    if total > offset {
        (total - offset) as nat
    } else {
        0
    }
}

/// The rows that an explicit limit spans: how many, where it says so, and from which on.
pub ghost struct RowSpan {
    pub total: Option<nat>,
    pub base: nat,
}

struct LimitSpan {
    total: Option<usize>,
    base: usize,
}

/// The rows that an explicit limit spans; nothing where a term is no number.
pub open spec fn span_of(limit: LimitView) -> Option<RowSpan> {
    match limit {
        LimitView::Absent => Some(RowSpan { total: None, base: 0 }),
        LimitView::LimitOffset { limit, offset } => {
            let total_ok = limit is None || rows_of(limit->0) is Some;
            let offset_ok = offset is None || rows_of(offset->0) is Some;
            if total_ok && offset_ok {
                Some(
                    RowSpan {
                        total: match limit {
                            Some(t) => rows_of(t),
                            None => None,
                        },
                        base: match offset {
                            Some(t) => rows_of(t)->0,
                            None => 0,
                        },
                    },
                )
            } else {
                None
            }
        },
        LimitView::OffsetComma { start, count } => if rows_of(count) is Some && rows_of(
            start,
        ) is Some {
            Some(RowSpan { total: rows_of(count), base: rows_of(start)->0 })
        } else {
            None
        },
    }
}

fn limit_span(limit: &LimitShape) -> (r: Option<LimitSpan>)
    ensures
        r is Some == span_of(limit.view()) is Some,
        r is Some ==> {
            let span = span_of(limit.view())->0;
            let found = r->0;
            &&& found.total is Some == span.total is Some
            &&& found.total is Some ==> found.total->0 == span.total->0
            &&& found.base == span.base
        },
{
    match limit {
        LimitShape::Absent => Some(LimitSpan { total: None, base: 0 }),
        LimitShape::LimitOffset { limit, offset } => {
            let total: Option<usize> = match limit {
                None => None,
                Some(term) => match row_number(term) {
                    Some(n) => Some(n),
                    None => {
                        return None;
                    },
                },
            };
            let base: usize = match offset {
                None => 0,
                Some(term) => match row_number(term) {
                    Some(n) => n,
                    None => {
                        return None;
                    },
                },
            };
            Some(LimitSpan { total, base })
        },
        LimitShape::OffsetComma { start, count } => match (row_number(count), row_number(start)) {
            (Some(total), Some(base)) => Some(LimitSpan { total: Some(total), base }),
            _ => None,
        },
    }
}

/// The number of rows of a page: what an explicit limit leaves, and at most the page size.
pub open spec fn page_count(total: Option<nat>, page_offset: nat, cap: nat) -> nat {
    match total {
        Some(n) => if rest_of(n, page_offset) < cap {
            rest_of(n, page_offset)
        } else {
            cap
        },
        None => cap,
    }
}

/// The limit of a page as the driver writes it.
pub open spec fn page_edit(driver: DatabaseDriver, count: nat, offset: nat) -> LimitEdit {
    if driver == DatabaseDriver::Mysql || driver == DatabaseDriver::Mariadb {
        LimitEdit::OffsetComma { offset: offset as usize, limit: count as usize }
    } else {
        LimitEdit::LimitOffset { limit: count as usize, offset: Some(offset as usize) }
    }
}

/// The plan for one page of a query: an explicit limit stays the whole budget, and the offset
/// moves within it.
pub open spec fn page_plan(
    limit: LimitView,
    fetch: Option<FetchView>,
    driver: DatabaseDriver,
    cap: nat,
    page_offset: nat,
) -> QueryPlan {
    if fetch is Some {
        keep()
    } else {
        match span_of(limit) {
            None => keep(),
            Some(RowSpan { total, base }) => if base + page_offset > usize::MAX {
                keep()
            } else {
                QueryPlan {
                    edit: Some(
                        page_edit(driver, page_count(total, page_offset, cap), base + page_offset),
                    ),
                    pageable: match total {
                        Some(n) => rest_of(n, page_offset) > cap,
                        None => true,
                    },
                }
            },
        }
    }
}

/// The change that keeps a query within its budget.
pub open spec fn bound_edit(
    limit: LimitView,
    fetch: Option<FetchView>,
    cap: usize,
) -> Option<LimitEdit> {
    match fetch {
        Some(f) => if !f.with_ties && !f.percent && f.quantity is Some && exceeds(
            f.quantity->0,
            cap as nat,
        ) {
            Some(LimitEdit::Fetch(cap))
        } else {
            None
        },
        None => {
            let over = match limit {
                LimitView::Absent => false,
                LimitView::LimitOffset { limit, .. } => match limit {
                    None => true,
                    Some(term) => exceeds(term, cap as nat),
                },
                LimitView::OffsetComma { count, .. } => exceeds(count, cap as nat),
            };
            if limit is Absent {
                Some(LimitEdit::LimitOffset { limit: cap, offset: None })
            } else if over {
                Some(LimitEdit::Limit(cap))
            } else {
                None
            }
        },
    }
}

/// The statement is one query that only reads and that takes a limit.
pub open spec fn is_bounded_query(
    parsed: Option<Seq<StatementView>>,
    driver: DatabaseDriver,
) -> bool {
    &&& parsed is Some
    &&& parsed->0.len() == 1
    &&& parsed->0[0] matches StatementView::Query { query, .. } && reads(query) && (driver
        == DatabaseDriver::Sqlite ==> takes_limit(query.body))
}

/// What is to be done with a text, given what was read in it.
pub open spec fn query_plan(
    parsed: Option<Seq<StatementView>>,
    driver: DatabaseDriver,
    cap: usize,
    page_offset: Option<usize>,
) -> QueryPlan {
    if !is_bounded_query(parsed, driver) {
        keep()
    } else {
        let limit = parsed->0[0]->limit;
        let fetch = parsed->0[0]->fetch;
        match page_offset {
            Some(offset) => page_plan(limit, fetch, driver, cap as nat, offset as nat),
            None => QueryPlan { edit: bound_edit(limit, fetch, cap), pageable: false },
        }
    }
}

fn plan_page(
    limit: &LimitShape,
    fetch: &Option<FetchShape>,
    driver: DatabaseDriver,
    cap: usize,
    page_offset: usize,
) -> (r: QueryPlan)
    ensures
        r == page_plan(limit.view(), opt_fetch(*fetch), driver, cap as nat, page_offset as nat),
{
    if fetch.is_some() {
        return QueryPlan { edit: None, pageable: false };
    }
    let LimitSpan { total, base } = match limit_span(limit) {
        Some(span) => span,
        None => {
            return QueryPlan { edit: None, pageable: false };
        },
    };
    let (count, pageable): (usize, bool) = match total {
        Some(n) => {
            let rest: usize = if n > page_offset {
                n - page_offset
            } else {
                0
            };
            if rest < cap {
                (rest, false)
            } else {
                (cap, rest > cap)
            }
        },
        None => (cap, true),
    };
    match base.checked_add(page_offset) {
        None => QueryPlan { edit: None, pageable: false },
        Some(offset) => {
            let edit = match driver {
                DatabaseDriver::Mysql | DatabaseDriver::Mariadb => LimitEdit::OffsetComma {
                    offset,
                    limit: count,
                },
                DatabaseDriver::Sqlite | DatabaseDriver::Postgres => LimitEdit::LimitOffset {
                    limit: count,
                    offset: Some(offset),
                },
            };
            QueryPlan { edit: Some(edit), pageable }
        },
    }
}

fn plan_bound(limit: &LimitShape, fetch: &Option<FetchShape>, cap: usize) -> (r: Option<LimitEdit>)
    ensures
        r == bound_edit(limit.view(), opt_fetch(*fetch), cap),
{
    match fetch {
        Some(f) => {
            if f.with_ties || f.percent {
                return None;
            }
            match &f.quantity {
                Some(term) => if term_exceeds(term, cap) {
                    Some(LimitEdit::Fetch(cap))
                } else {
                    None
                },
                None => None,
            }
        },
        None => {
            let over = match limit {
                LimitShape::Absent => {
                    return Some(LimitEdit::LimitOffset { limit: cap, offset: None });
                },
                LimitShape::LimitOffset { limit, .. } => match limit {
                    None => true,
                    Some(term) => term_exceeds(term, cap),
                },
                LimitShape::OffsetComma { count, .. } => term_exceeds(count, cap),
            };
            if over {
                Some(LimitEdit::Limit(cap))
            } else {
                None
            }
        },
    }
}

/// Decides what is to be done with a text, given what was read in it.
pub fn plan_query(
    parsed: &Option<Vec<StatementShape>>,
    driver: DatabaseDriver,
    cap: usize,
    page_offset: Option<usize>,
) -> (r: QueryPlan)
    ensures
        r == query_plan(opt_statements(*parsed), driver, cap, page_offset),
{
    let list = match parsed {
        Some(list) => list,
        None => {
            return QueryPlan { edit: None, pageable: false };
        },
    };
    if list.len() != 1 {
        return QueryPlan { edit: None, pageable: false };
    }
    match &list[0] {
        StatementShape::Other => QueryPlan { edit: None, pageable: false },
        StatementShape::Query { query, limit, fetch } => {
            if !query_reads(query) {
                return QueryPlan { edit: None, pageable: false };
            }
            if driver == DatabaseDriver::Sqlite && !shape_takes_limit(&query.body) {
                return QueryPlan { edit: None, pageable: false };
            }
            match page_offset {
                Some(offset) => plan_page(limit, fetch, driver, cap, offset),
                None => QueryPlan { edit: plan_bound(limit, fetch, cap), pageable: false },
            }
        },
    }
}

/// The text that is sent for a plan.
pub open spec fn planned_sql(sql: Seq<char>, driver: DatabaseDriver, plan: QueryPlan) -> Seq<char> {
    match plan.edit {
        Some(edit) => limited_sql(sql, dialect(driver), edit),
        None => sql,
    }
}

/// The plan for a text.
pub open spec fn plan_of(
    sql: Seq<char>,
    driver: DatabaseDriver,
    cap: usize,
    page_offset: Option<usize>,
) -> QueryPlan {
    query_plan(parsed_sql(sql, dialect(driver)), driver, cap, page_offset)
}

/// The text with its rows bounded, or one page of it, and whether it can be read on.
pub fn prepare_query(
    sql: &str,
    driver: DatabaseDriver,
    cap: usize,
    page_offset: Option<usize>,
) -> (r: (String, bool))
    ensures
        r.0@ == planned_sql(sql@, driver, plan_of(sql@, driver, cap, page_offset)),
        r.1 == plan_of(sql@, driver, cap, page_offset).pageable,
{
    let parsed = parse_sql(sql, dialect_of(driver));
    let plan = plan_query(&parsed, driver, cap, page_offset);
    match plan.edit {
        Some(edit) => (write_limit(sql, dialect_of(driver), edit), plan.pageable),
        None => (sql.to_owned(), plan.pageable),
    }
}

/// The text with its rows bounded.
pub fn bounded_query_sql(sql: &str, driver: DatabaseDriver, cap: usize) -> (r: String)
    ensures
        r@ == planned_sql(sql@, driver, plan_of(sql@, driver, cap, None)),
{
    prepare_query(sql, driver, cap, None).0
}

/// A page size within 1 and 10000.
pub open spec fn row_budget(rows: usize) -> usize {
    if rows < 1 {
        1
    } else if rows > 10000 {
        10000
    } else {
        rows
    }
}

/// A number of rows within 1 and 10000.
pub fn clamp_rows(rows: usize) -> (r: usize)
    ensures
        r == row_budget(rows),
{
    if rows < 1 {
        1
    } else if rows > 10000 {
        10000
    } else {
        rows
    }
}

/// One page of a query, ready to be sent.
#[derive(Debug)]
pub struct QueryPage {
    pub sql: String,
    pub pageable: bool,
    pub page_size: usize,
}

/// The text for one page; refused behind the first page where the text cannot be read page by page.
pub fn prepare_page(
    sql: &str,
    driver: DatabaseDriver,
    page_offset: usize,
    page_size: usize,
) -> (r: Result<QueryPage, String>)
    ensures
        ({
            let size = row_budget(page_size);
            let plan = plan_of(sql@, driver, size, Some(page_offset));
            let text = planned_sql(sql@, driver, plan);
            if page_offset > 0 && text == sql@ && !plan.pageable {
                r is Err && r->Err_0@ == "此 SQL 不支持自动翻页，请修改 SQL 后执行"@
            } else {
                &&& r is Ok
                &&& r->Ok_0.sql@ == text
                &&& r->Ok_0.pageable == plan.pageable
                &&& r->Ok_0.page_size == size
            }
        }),
{
    let size: usize = clamp_rows(page_size);
    let (text, pageable) = prepare_query(sql, driver, size, Some(page_offset));
    if page_offset > 0 && !pageable && same(text.as_str(), sql) {
        return Err("此 SQL 不支持自动翻页，请修改 SQL 后执行".to_owned());
    }
    Ok(QueryPage { sql: text, pageable, page_size: size })
}

/// Whether another page may follow one with this many rows.
pub fn has_more(pageable: bool, rows: usize, page_size: usize) -> (r: bool)
    ensures
        r == (pageable && rows == page_size),
{
    pageable && rows == page_size
}

/// What writes, locks, or holds more than one statement is never touched.
pub proof fn law_writes_are_left_alone(
    parsed: Option<Seq<StatementView>>,
    driver: DatabaseDriver,
    cap: usize,
    page_offset: Option<usize>,
)
    requires
        parsed is None || parsed->0.len() != 1 || parsed->0[0] is Other || !reads(
            parsed->0[0]->query,
        ),
    ensures
        query_plan(parsed, driver, cap, page_offset) == keep(),
{
}

/// The terms of an explicit limit span these rows.
pub open spec fn spans(limit: LimitView, count: nat, base: nat) -> bool {
    span_of(limit) == Some(RowSpan { total: Some(count), base })
}

proof fn lemma_number_term(n: usize)
    ensures
        rows_of(number_term(n)) == Some(n as nat),
        !exceeds(number_term(n), n as nat),
{
    lemma_decimal_reads_back(n as nat, usize::MAX as nat);
    lemma_decimal_reads_back(n as nat, u64::MAX as nat);
}

/// The query asks for no more rows than the budget, once the edit is written into it.
pub open spec fn stays_within(limit: LimitView, fetch: Option<FetchView>, cap: nat) -> bool {
    match fetch {
        Some(f) => f.quantity is Some && rows_of(f.quantity->0) is Some && rows_of(f.quantity->0)->0
            <= cap,
        None => match limit {
            LimitView::Absent => false,
            LimitView::LimitOffset { limit, .. } => limit is Some && rows_of(limit->0) is Some
                && rows_of(limit->0)->0 <= cap,
            LimitView::OffsetComma { count, .. } => rows_of(count) is Some && rows_of(count)->0
                <= cap,
        },
    }
}

/// No plan asks for more rows than the budget: a query with the planned edit says so itself.
pub proof fn law_plans_stay_within_the_budget(
    parsed: Option<Seq<StatementView>>,
    driver: DatabaseDriver,
    cap: usize,
    page_offset: Option<usize>,
)
    ensures
        match query_plan(parsed, driver, cap, page_offset).edit {
            Some(edit) => {
                let limit = parsed->0[0]->limit;
                let fetch = parsed->0[0]->fetch;
                stays_within(limit_after(limit, edit), fetch_after(fetch, edit), cap as nat)
            },
            None => true,
        },
{
    let plan = query_plan(parsed, driver, cap, page_offset);
    lemma_number_term(cap);
    match plan.edit {
        Some(LimitEdit::LimitOffset { limit, .. }) => {
            lemma_number_term(limit);
        },
        Some(LimitEdit::OffsetComma { limit, .. }) => {
            lemma_number_term(limit);
        },
        _ => {},
    }
}

/// The pages of a query span the rows that they are for: a query with the edit of a page asks for
/// the rows of that page, from the first of them on. Where the query has a limit of its own they lie
/// within it.
pub proof fn law_pages_span_their_rows(
    limit: LimitView,
    driver: DatabaseDriver,
    cap: nat,
    page_offset: nat,
)
    requires
        cap <= usize::MAX,
        page_plan(limit, None, driver, cap, page_offset).edit is Some,
    ensures
        ({
            let RowSpan { total, base } = span_of(limit)->0;
            let count = page_count(total, page_offset, cap);
            let edit = page_plan(limit, None, driver, cap, page_offset).edit->0;
            &&& spans(limit_after(limit, edit), count, base + page_offset)
            &&& total is Some && page_offset <= total->0 ==> base + page_offset + count <= base
                + total->0
        }),
{
    let RowSpan { total, base } = span_of(limit)->0;
    let count = page_count(total, page_offset, cap);
    assert(count <= cap);
    assert((count as usize) as nat == count);
    assert(((base + page_offset) as usize) as nat == base + page_offset);
    lemma_number_term(count as usize);
    lemma_number_term((base + page_offset) as usize);
}

/// Pages follow each other without a gap: behind a full page that can be read on, the next page
/// starts at the row behind the last one, and has rows.
pub proof fn law_pages_follow_each_other(
    limit: LimitView,
    driver: DatabaseDriver,
    cap: nat,
    page_offset: nat,
)
    requires
        0 < cap <= usize::MAX,
        page_plan(limit, None, driver, cap, page_offset).pageable,
        (span_of(limit)->0).base + page_offset + cap <= usize::MAX,
    ensures
        ({
            let RowSpan { total, base } = span_of(limit)->0;
            let now = page_plan(limit, None, driver, cap, page_offset).edit;
            let next = page_plan(limit, None, driver, cap, page_offset + cap).edit;
            let left = page_count(total, page_offset + cap, cap);
            &&& now is Some && next is Some
            &&& spans(limit_after(limit, now->0), cap, base + page_offset)
            &&& spans(limit_after(limit, next->0), left, base + page_offset + cap)
            &&& left > 0
        }),
{
    law_pages_span_their_rows(limit, driver, cap, page_offset);
    law_pages_span_their_rows(limit, driver, cap, page_offset + cap);
    let RowSpan { total, base } = span_of(limit)->0;
    assert(page_count(total, page_offset, cap) == cap);
}

/// The term that says how many rows a query asks for: that of its `FETCH` where it has one, else
/// that of its limit.
pub open spec fn count_term(limit: LimitView, fetch: Option<FetchView>) -> Option<RowTermView> {
    match (fetch, limit) {
        (Some(f), _) => f.quantity,
        (None, LimitView::Absent) => None,
        (None, LimitView::LimitOffset { limit, .. }) => limit,
        (None, LimitView::OffsetComma { count, .. }) => Some(count),
    }
}

/// The term that says from which row on a query asks.
pub open spec fn start_term(limit: LimitView) -> Option<RowTermView> {
    match limit {
        LimitView::Absent => None,
        LimitView::LimitOffset { offset, .. } => offset,
        LimitView::OffsetComma { start, .. } => Some(start),
    }
}

/// What a query asks for once it is bounded: how many rows, and from which on.
pub open spec fn asked_after(
    limit: LimitView,
    fetch: Option<FetchView>,
    edit: Option<LimitEdit>,
) -> (Option<RowTermView>, Option<RowTermView>) {
    match edit {
        None => (count_term(limit, fetch), start_term(limit)),
        Some(e) => (
            count_term(limit_after(limit, e), fetch_after(fetch, e)),
            start_term(limit_after(limit, e)),
        ),
    }
}

/// Bounding a query that asks for a number of rows leaves the smaller of that number and the cap,
/// in whichever form the number is written, and the offset stays: a query that is within the cap is
/// not touched at all.
pub proof fn law_bounding_takes_the_smaller_number(
    limit: LimitView,
    fetch: Option<FetchView>,
    cap: usize,
    own: Seq<char>,
    n: nat,
)
    requires
        count_term(limit, fetch) == Some(RowTermView::Number(own)),
        parse_unsigned(own, u64::MAX as nat) == Some(n),
        fetch matches Some(f) ==> !f.with_ties && !f.percent,
    ensures
        n <= cap ==> bound_edit(limit, fetch, cap) is None,
        n > cap ==> bound_edit(limit, fetch, cap) is Some,
        ({
            let (count, start) = asked_after(limit, fetch, bound_edit(limit, fetch, cap));
            let least: nat = if n <= cap {
                n
            } else {
                cap as nat
            };
            &&& count matches Some(RowTermView::Number(text)) && parse_unsigned(
                text,
                u64::MAX as nat,
            ) == Some(least)
            &&& start == start_term(limit)
        }),
{
    lemma_decimal_reads_back(cap as nat, u64::MAX as nat);
}

/// A query that asks for rows without end gets the cap as its limit, and keeps its offset: one
/// without a limit, with an offset alone, with `NULL`, or with the `-1` that stands for no limit.
pub proof fn law_endless_queries_get_the_cap(
    limit: LimitView,
    fetch: Option<FetchView>,
    cap: usize,
)
    requires
        match count_term(limit, fetch) {
            None => fetch is None,
            Some(RowTermView::Null) => true,
            Some(RowTermView::Minus(text)) => text == "1"@,
            _ => false,
        },
        fetch matches Some(f) ==> !f.with_ties && !f.percent,
    ensures
        ({
            let (count, start) = asked_after(limit, fetch, bound_edit(limit, fetch, cap));
            &&& bound_edit(limit, fetch, cap) is Some
            &&& count == Some(RowTermView::Number(decimal(cap as nat)))
            &&& start == start_term(limit)
        }),
{
}

/// What cannot be counted is left alone: shares of the rows, ties, and terms that are no numbers.
pub proof fn law_uncounted_limits_are_left_alone(
    limit: LimitView,
    fetch: Option<FetchView>,
    cap: usize,
)
    requires
        (fetch matches Some(f) && (f.with_ties || f.percent || f.quantity is None)) || match
            count_term(limit, fetch) {
            Some(RowTermView::Other) => true,
            Some(RowTermView::Minus(text)) => text != "1"@,
            Some(RowTermView::Number(text)) => parse_unsigned(text, u64::MAX as nat) is None,
            _ => false,
        },
    ensures
        bound_edit(limit, fetch, cap) is None,
{
}

/// One statement that only reads is bounded, whatever the driver, as long as the driver takes a
/// limit behind it; nothing is read on behind a bounded query.
pub proof fn law_reading_queries_are_bounded(
    query: QueryView,
    limit: LimitView,
    fetch: Option<FetchView>,
    driver: DatabaseDriver,
    cap: usize,
)
    requires
        reads(query),
        driver == DatabaseDriver::Sqlite ==> takes_limit(query.body),
    ensures
        query_plan(
            Some(seq![StatementView::Query { query, limit, fetch }]),
            driver,
            cap,
            None,
        ).edit == bound_edit(limit, fetch, cap),
        !query_plan(
            Some(seq![StatementView::Query { query, limit, fetch }]),
            driver,
            cap,
            None,
        ).pageable,
        forall|offset: usize|
            #![trigger page_plan(limit, fetch, driver, cap as nat, offset as nat)]
            query_plan(
                Some(seq![StatementView::Query { query, limit, fetch }]),
                driver,
                cap,
                Some(offset),
            ) == page_plan(limit, fetch, driver, cap as nat, offset as nat),
{
    let parsed = seq![StatementView::Query { query, limit, fetch }];
    assert(parsed[0] == StatementView::Query { query, limit, fetch });
    assert(parsed.len() == 1);
}

/// A query only reads exactly where it locks nothing, its body only reads, and so does each query
/// of its `WITH`.
pub proof fn law_queries_read_in_all_their_parts(query: QueryView)
    ensures
        reads(query) <==> query.locks == 0 && body_reads(query.body) && forall|i: int|
            0 <= i < query.with.len() ==> reads(#[trigger] query.with[i]),
{
    lemma_all_read(query.with);
}

proof fn lemma_all_read(list: Seq<QueryView>)
    ensures
        all_read(list) <==> forall|i: int| 0 <= i < list.len() ==> reads(#[trigger] list[i]),
    decreases list.len(),
{
    if list.len() > 0 {
        let front = list.drop_last();
        lemma_all_read(front);
        assert forall|i: int| 0 <= i < front.len() implies #[trigger] front[i] == list[i] by {}
        if forall|i: int| 0 <= i < list.len() ==> reads(#[trigger] list[i]) {
            assert forall|i: int| 0 <= i < front.len() implies reads(#[trigger] front[i]) by {
                assert(reads(list[i]));
            }
            assert(reads(list[list.len() - 1]));
        }
        if all_read(list) {
            assert forall|i: int| 0 <= i < list.len() implies reads(#[trigger] list[i]) by {
                if i < front.len() {
                    assert(reads(front[i]));
                }
            }
        }
    }
}

/// A body writes somewhere where one of its parts does: a `SELECT` with `INTO`, a writing statement,
/// a nested query that does not only read, or either side of a set operation.
pub proof fn law_bodies_read_in_all_their_parts(
    left: BodyView,
    right: BodyView,
    query: QueryView,
)
    ensures
        body_reads(BodyView::Select { into: false }),
        !body_reads(BodyView::Select { into: true }),
        !body_reads(BodyView::Write),
        body_reads(BodyView::Values),
        body_reads(BodyView::Table),
        body_reads(BodyView::Query(Box::new(query))) <==> reads(query),
        body_reads(
            BodyView::SetOperation { left: Box::new(left), right: Box::new(right) },
        ) <==> body_reads(left) && body_reads(right),
        takes_limit(BodyView::Select { into: false }),
        !takes_limit(BodyView::Values),
        !takes_limit(BodyView::Table),
        !takes_limit(BodyView::Query(Box::new(query))),
        takes_limit(
            BodyView::SetOperation { left: Box::new(left), right: Box::new(right) },
        ) <==> takes_limit(right),
{
}

/// A page that cannot be read on is the last one: the limit of the query ends within it. A page is
/// planned for every query without `FETCH` whose limit is made of numbers, and for no other.
pub proof fn law_the_last_page_ends_the_query(
    limit: LimitView,
    fetch: Option<FetchView>,
    driver: DatabaseDriver,
    cap: nat,
    page_offset: nat,
)
    requires
        cap <= usize::MAX,
    ensures
        ({
            let plan = page_plan(limit, fetch, driver, cap, page_offset);
            let span = span_of(limit);
            &&& plan.edit is Some <==> fetch is None && span is Some && span->0.base + page_offset
                <= usize::MAX
            &&& plan.edit is Some && !plan.pageable ==> (span->0.total matches Some(n) && n
                <= page_offset + cap)
            &&& plan.pageable ==> plan.edit is Some
            &&& plan.pageable ==> (span->0.total matches Some(n) ==> n > page_offset + cap)
        }),
{
}

/// The rows that a written limit spans: as many as its count says and from its offset on, in both
/// forms; without a limit all rows from the first on.
pub proof fn law_limits_span_what_they_say(count: usize, start: usize)
    ensures
        span_of(LimitView::Absent) == Some(RowSpan { total: None, base: 0 }),
        spans(
            LimitView::LimitOffset {
                limit: Some(number_term(count)),
                offset: Some(number_term(start)),
            },
            count as nat,
            start as nat,
        ),
        spans(
            LimitView::LimitOffset { limit: Some(number_term(count)), offset: None },
            count as nat,
            0,
        ),
        span_of(LimitView::LimitOffset { limit: None, offset: Some(number_term(start)) }) == Some(
            RowSpan { total: None, base: start as nat },
        ),
        spans(
            LimitView::OffsetComma { start: number_term(start), count: number_term(count) },
            count as nat,
            start as nat,
        ),
{
    lemma_number_term(count);
    lemma_number_term(start);
}

/// A page is written as its driver reads it: `LIMIT offset, count` for MySQL and MariaDB, and
/// `LIMIT count OFFSET offset` for the others.
pub proof fn law_pages_are_written_for_their_driver(driver: DatabaseDriver, count: usize, offset: usize)
    ensures
        driver == DatabaseDriver::Mysql || driver == DatabaseDriver::Mariadb ==> page_edit(
            driver,
            count as nat,
            offset as nat,
        ) == (LimitEdit::OffsetComma { offset, limit: count }),
        driver == DatabaseDriver::Sqlite || driver == DatabaseDriver::Postgres ==> page_edit(
            driver,
            count as nat,
            offset as nat,
        ) == (LimitEdit::LimitOffset { limit: count, offset: Some(offset) }),
        dialect(DatabaseDriver::Mysql) == dialect(DatabaseDriver::Mariadb),
        dialect(DatabaseDriver::Sqlite) == SqlDialect::Sqlite,
        dialect(DatabaseDriver::Postgres) == SqlDialect::Postgres,
        dialect(DatabaseDriver::Mysql) == SqlDialect::Mysql,
{
}

/// The size of a page is what was asked for, held within 1 and 10000.
pub proof fn law_page_sizes_are_held_in_bounds(rows: usize)
    ensures
        1 <= row_budget(rows) <= 10000,
        1 <= rows <= 10000 <==> row_budget(rows) == rows,
        rows > 10000 ==> row_budget(rows) == 10000,
        rows == 0 ==> row_budget(rows) == 1,
{
}

/// Another page may follow exactly behind a full page of a query that can be read on.
pub proof fn law_full_pages_may_be_followed(pageable: bool, rows: usize, page_size: usize, r: bool)
    requires
        has_more.ensures((pageable, rows, page_size), r),
    ensures
        r ==> pageable,
        r ==> rows == page_size,
        pageable && rows == page_size ==> r,
{
}

/// A text whose plan changes nothing is sent as it is; one that is changed is sent with the planned
/// limit, in the grammar of its driver.
pub proof fn law_unplanned_texts_are_sent_as_they_are(
    sql: Seq<char>,
    driver: DatabaseDriver,
    plan: QueryPlan,
)
    ensures
        plan.edit is None ==> planned_sql(sql, driver, plan) == sql,
        plan.edit matches Some(edit) ==> planned_sql(sql, driver, plan) == limited_sql(
            sql,
            dialect(driver),
            edit,
        ),
{
}

} // verus!
