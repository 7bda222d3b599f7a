//! The order of a dump: schema first, then data, then what may depend on both.
use vstd::prelude::*;
use vstd::string::*;

use crate::sql_dump::{law_end_marks_are_taken_off, trim_end_mark, without_end_mark};
use crate::text::{push_text, same, views};

verus! {

/// One step of a dump.
#[derive(Debug)]
pub enum DumpStep {
    /// A text is written.
    Write(String),
    /// The definition of a table or a view is read and written.
    Define { name: String, is_view: bool },
    /// The rows of a table are read and written.
    Data(String),
    /// The indexes of a table are read and written.
    Indexes(String),
    /// The constraints of a table are read and written: its foreign keys, or the others.
    Constraints { table: String, foreign: bool },
    /// The sequences of a table are set behind its rows.
    Sequences(String),
    /// The progress is reported.
    Report { current: usize, total: usize, done: Option<String> },
}

/// What a step of a dump says.
pub ghost enum StepView {
    Write(Seq<char>),
    Define { name: Seq<char>, is_view: bool },
    Data(Seq<char>),
    Indexes(Seq<char>),
    Constraints { table: Seq<char>, foreign: bool },
    Sequences(Seq<char>),
    Report { current: nat, total: nat, done: Option<Seq<char>> },
}

impl DumpStep {
    pub open spec fn view(&self) -> StepView {
        match self {
            DumpStep::Write(text) => StepView::Write(text@),
            DumpStep::Define { name, is_view } => StepView::Define {
                name: name@,
                is_view: *is_view,
            },
            DumpStep::Data(table) => StepView::Data(table@),
            DumpStep::Indexes(table) => StepView::Indexes(table@),
            DumpStep::Constraints { table, foreign } => StepView::Constraints {
                table: table@,
                foreign: *foreign,
            },
            DumpStep::Sequences(table) => StepView::Sequences(table@),
            DumpStep::Report { current, total, done } => StepView::Report {
                current: *current as nat,
                total: *total as nat,
                done: match done {
                    Some(name) => Some(name@),
                    None => None,
                },
            },
        }
    }
}

/// The view of each step.
pub open spec fn step_views(steps: Seq<DumpStep>) -> Seq<StepView> {
    steps.map_values(|s: DumpStep| s.view())
}

fn push_step(steps: &mut Vec<DumpStep>, step: DumpStep)
    ensures
        step_views(final(steps)@) == step_views(old(steps)@).push(step.view()),
{
    let ghost added = step.view();
    steps.push(step);
    assert(step_views(steps@) =~= step_views(old(steps)@).push(added));
}

fn push_write(steps: &mut Vec<DumpStep>, text: &str)
    ensures
        step_views(final(steps)@) == step_views(old(steps)@).push(StepView::Write(text@)),
{
    push_step(steps, DumpStep::Write(text.to_owned()));
}

/// The report before the first table, where there is one.
pub open spec fn first_report(total: nat) -> Seq<StepView> {
    if total > 0 {
        seq![StepView::Report { current: 0, total, done: None }]
    } else {
        Seq::empty()
    }
}

fn push_first_report(steps: &mut Vec<DumpStep>, total: usize)
    ensures
        step_views(final(steps)@) == step_views(old(steps)@) + first_report(total as nat),
{
    if total > 0 {
        push_step(steps, DumpStep::Report { current: 0, total, done: None });
    }
    assert(step_views(steps@) =~= step_views(old(steps)@) + first_report(total as nat));
}

/// An empty line where something was listed.
pub open spec fn gap(listed: nat) -> Seq<StepView> {
    if listed > 0 {
        seq![StepView::Write("\n"@)]
    } else {
        Seq::empty()
    }
}

fn push_gap(steps: &mut Vec<DumpStep>, listed: usize)
    ensures
        step_views(final(steps)@) == step_views(old(steps)@) + gap(listed as nat),
{
    if listed > 0 {
        push_write(steps, "\n");
    }
    assert(step_views(steps@) =~= step_views(old(steps)@) + gap(listed as nat));
}

/// The report behind the table with this place.
pub open spec fn table_report(place: nat, total: nat, table: Seq<char>) -> StepView {
    StepView::Report { current: place + 1, total, done: Some(table) }
}

/// The rows of each table, with a report behind each.
pub open spec fn data_steps(tables: Seq<Seq<char>>, total: nat) -> Seq<StepView>
    decreases tables.len(),
{
    if tables.len() == 0 {
        Seq::empty()
    } else {
        data_steps(tables.drop_last(), total).push(StepView::Data(tables.last())).push(
            table_report((tables.len() - 1) as nat, total, tables.last()),
        )
    }
}

fn push_data_steps(steps: &mut Vec<DumpStep>, tables: &[String])
    ensures
        step_views(final(steps)@) == step_views(old(steps)@) + data_steps(
            views(tables@),
            tables@.len(),
        ),
{
    let total: usize = tables.len();
    let mut i: usize = 0;
    let ghost names = views(tables@);
    assert(step_views(steps@) =~= step_views(old(steps)@) + data_steps(
        names.take(0),
        total as nat,
    ));
    while i < tables.len()
        invariant
            i <= tables@.len(),
            total == tables@.len(),
            names == views(tables@),
            step_views(steps@) == step_views(old(steps)@) + data_steps(
                names.take(i as int),
                total as nat,
            ),
        decreases tables@.len() - i,
    {
        push_step(steps, DumpStep::Data(tables[i].clone()));
        push_step(
            steps,
            DumpStep::Report { current: i + 1, total, done: Some(tables[i].clone()) },
        );
        proof {
            assert(names.take(i + 1).drop_last() =~= names.take(i as int));
            assert(step_views(steps@) =~= step_views(old(steps)@) + data_steps(
                names.take(i + 1),
                total as nat,
            ));
        }
        i = i + 1;
    }
    assert(names.take(i as int) =~= names);
}

/// A statement and the end of its line.
pub open spec fn statement_line(sql: Seq<char>) -> Seq<char> {
    trim_end_mark(sql, ';') + ";\n"@
}

fn line_of(sql: &str) -> (r: String)
    ensures
        r@ == statement_line(sql@),
{
    let mut line: String = without_end_mark(sql, ';');
    line.append(";\n");
    line
}

/// An object of a SQLite database and the statement that made it.
#[derive(Debug)]
pub struct SqliteObject {
    pub kind: String,
    pub name: String,
    pub sql: String,
}

/// The statement that lists the objects of a SQLite database with the statements that made them, or
/// one table or view, named by the first parameter, with its indexes and triggers.
pub open spec fn sqlite_objects_statement(one: bool) -> Seq<char> {
    "SELECT type, name, sql FROM sqlite_master WHERE sql IS NOT NULL AND name NOT LIKE 'sqlite\\_%' ESCAPE '\\'"@
        + (if one {
        " AND (name = ?1 OR (tbl_name = ?1 AND type IN ('index', 'trigger')))"@
    } else {
        Seq::empty()
    }) + " ORDER BY rowid"@
}

/// The statement that lists the objects of a SQLite database.
pub fn sqlite_dump_objects_sql(one: bool) -> (r: String)
    ensures
        r@ == sqlite_objects_statement(one),
{
    let mut sql: String = "SELECT type, name, sql FROM sqlite_master WHERE sql IS NOT NULL AND name NOT LIKE 'sqlite\\_%' ESCAPE '\\'".to_owned();
    if one {
        sql.append(" AND (name = ?1 OR (tbl_name = ?1 AND type IN ('index', 'trigger')))");
    }
    sql.append(" ORDER BY rowid");
    assert(sql@ =~= sqlite_objects_statement(one));
    sql
}

/// What a SQLite object says.
pub ghost struct SqliteObjectView {
    pub name: Seq<char>,
    pub sql: Seq<char>,
}

/// The tables among the objects, or the others, in their order.
pub open spec fn of_kind(objects: Seq<SqliteObject>, tables: bool) -> Seq<SqliteObjectView>
    decreases objects.len(),
{
    if objects.len() == 0 {
        Seq::empty()
    } else {
        let rest = of_kind(objects.drop_last(), tables);
        let last = objects.last();
        if (last.kind@ == "table"@) == tables {
            rest.push(SqliteObjectView { name: last.name@, sql: last.sql@ })
        } else {
            rest
        }
    }
}

/// The names of the objects.
pub open spec fn object_names(objects: Seq<SqliteObjectView>) -> Seq<Seq<char>> {
    objects.map_values(|o: SqliteObjectView| o.name)
}

/// The statement of each table; a report behind each where no rows follow.
pub open spec fn table_lines(
    tables: Seq<SqliteObjectView>,
    total: nat,
    schema_only: bool,
) -> Seq<StepView>
    decreases tables.len(),
{
    if tables.len() == 0 {
        Seq::empty()
    } else {
        let line = table_lines(tables.drop_last(), total, schema_only).push(
            StepView::Write(statement_line(tables.last().sql)),
        );
        if schema_only {
            line.push(table_report((tables.len() - 1) as nat, total, tables.last().name))
        } else {
            line
        }
    }
}

/// The statement of each object.
pub open spec fn object_lines(objects: Seq<SqliteObjectView>) -> Seq<StepView>
    decreases objects.len(),
{
    if objects.len() == 0 {
        Seq::empty()
    } else {
        object_lines(objects.drop_last()).push(
            StepView::Write(statement_line(objects.last().sql)),
        )
    }
}

/// What opens a SQLite dump.
pub open spec fn sqlite_header(table: Option<Seq<char>>) -> Seq<char> {
    match table {
        Some(name) => "-- Luna Mux dump: "@ + name + "\n\n"@,
        None => "-- Luna Mux database dump\n-- Schema first, then data, then indexes/triggers/views.\n\n"@,
    }
}

/// What a SQLite dump writes before the rows: its heading and the tables.
pub open spec fn sqlite_head(
    objects: Seq<SqliteObject>,
    table: Option<Seq<char>>,
    schema_only: bool,
) -> Seq<StepView> {
    let tables = of_kind(objects, true);
    seq![StepView::Write(sqlite_header(table))] + first_report(tables.len()) + table_lines(
        tables,
        tables.len(),
        schema_only,
    ) + gap(tables.len())
}

/// The rows of a SQLite dump.
pub open spec fn sqlite_rows(objects: Seq<SqliteObject>, schema_only: bool) -> Seq<StepView> {
    let tables = of_kind(objects, true);
    if schema_only {
        Seq::empty()
    } else {
        data_steps(object_names(tables), tables.len())
    }
}

/// What a SQLite dump writes behind the rows: the indexes, triggers and views.
pub open spec fn sqlite_tail(objects: Seq<SqliteObject>) -> Seq<StepView> {
    let others = of_kind(objects, false);
    gap(others.len()) + object_lines(others)
}

/// The steps of a SQLite dump: the tables, their rows, and behind them the indexes, triggers and
/// views.
pub open spec fn sqlite_steps(
    objects: Seq<SqliteObject>,
    table: Option<Seq<char>>,
    schema_only: bool,
) -> Seq<StepView> {
    sqlite_head(objects, table, schema_only) + sqlite_rows(objects, schema_only) + sqlite_tail(
        objects,
    )
}

/// The name of a table as a view.
pub open spec fn opt_str(table: Option<&str>) -> Option<Seq<char>> {
    match table {
        Some(name) => Some(name@),
        None => None,
    }
}

fn push_lines(
    steps: &mut Vec<DumpStep>,
    objects: &[SqliteObject],
    tables: bool,
    report: bool,
    total: usize,
) -> (r: (Vec<String>, usize))
    requires
        report ==> tables,
        total == of_kind(objects@, tables).len(),
    ensures
        views(r.0@) == object_names(of_kind(objects@, tables)),
        r.1 == of_kind(objects@, tables).len(),
        step_views(final(steps)@) == step_views(old(steps)@) + (if tables {
            table_lines(of_kind(objects@, true), total as nat, report)
        } else {
            object_lines(of_kind(objects@, false))
        }),
{
    let mut names: Vec<String> = Vec::new();
    let mut count: usize = 0;
    let mut i: usize = 0;
    let ghost before = step_views(steps@);
    proof {
        assert(objects@.take(0) =~= Seq::<SqliteObject>::empty());
        assert(step_views(steps@) =~= before + (if tables {
            table_lines(of_kind(objects@.take(0), true), total as nat, report)
        } else {
            object_lines(of_kind(objects@.take(0), false))
        }));
        assert(views(names@) =~= object_names(of_kind(objects@.take(0), tables)));
    }
    while i < objects.len()
        invariant
            i <= objects@.len(),
            count <= i,
            report ==> tables,
            count == of_kind(objects@.take(i as int), tables).len(),
            views(names@) == object_names(of_kind(objects@.take(i as int), tables)),
            step_views(steps@) == before + (if tables {
                table_lines(of_kind(objects@.take(i as int), true), total as nat, report)
            } else {
                object_lines(of_kind(objects@.take(i as int), false))
            }),
        decreases objects@.len() - i,
    {
        let is_table = same(objects[i].kind.as_str(), "table");
        let ghost had = of_kind(objects@.take(i as int), tables);
        let ghost now = of_kind(objects@.take(i + 1), tables);
        proof {
            assert(objects@.take(i + 1).drop_last() =~= objects@.take(i as int));
        }
        if is_table == tables {
            push_step(steps, DumpStep::Write(line_of(objects[i].sql.as_str())));
            if report {
                push_step(
                    steps,
                    DumpStep::Report {
                        current: count + 1,
                        total,
                        done: Some(objects[i].name.clone()),
                    },
                );
            }
            push_text(&mut names, objects[i].name.clone());
            count = count + 1;
            proof {
                assert(now.drop_last() =~= had);
                assert(object_names(now) =~= object_names(had).push(now.last().name));
                assert(views(names@) =~= object_names(now));
                assert(step_views(steps@) =~= before + (if tables {
                    table_lines(now, total as nat, report)
                } else {
                    object_lines(now)
                }));
            }
        }
        i = i + 1;
    }
    assert(objects@.take(i as int) =~= objects@);
    (names, count)
}

fn count_tables(objects: &[SqliteObject]) -> (r: usize)
    ensures
        r == of_kind(objects@, true).len(),
{
    let mut count: usize = 0;
    let mut i: usize = 0;
    while i < objects.len()
        invariant
            i <= objects@.len(),
            count <= i,
            count == of_kind(objects@.take(i as int), true).len(),
        decreases objects@.len() - i,
    {
        proof {
            assert(objects@.take(i + 1).drop_last() =~= objects@.take(i as int));
        }
        if same(objects[i].kind.as_str(), "table") {
            count = count + 1;
        }
        i = i + 1;
    }
    assert(objects@.take(i as int) =~= objects@);
    count
}

proof fn lemma_kinds_add_up(objects: Seq<SqliteObject>)
    ensures
        of_kind(objects, true).len() + of_kind(objects, false).len() == objects.len(),
    decreases objects.len(),
{
    if objects.len() > 0 {
        lemma_kinds_add_up(objects.drop_last());
    }
}

/// A dump that is ready to be carried out.
#[derive(Debug)]
pub struct DumpPlan {
    pub steps: Vec<DumpStep>,
    pub tables: usize,
}

/// Plans the dump of a SQLite database, or of one table or view with what belongs to it.
pub fn write_sql_dump(objects: &[SqliteObject], table: Option<&str>, schema_only: bool) -> (r: Result<
    DumpPlan,
    String,
>)
    ensures
        if objects@.len() == 0 && table is Some {
            r is Err && r->Err_0@ == "数据库中找不到该表或视图"@
        } else {
            &&& r is Ok
            &&& step_views(r->Ok_0.steps@) == sqlite_steps(objects@, opt_str(table), schema_only)
            &&& r->Ok_0.tables == of_kind(objects@, true).len()
        },
{
    if objects.len() == 0 && table.is_some() {
        return Err("数据库中找不到该表或视图".to_owned());
    }
    let header: String = match table {
        Some(name) => {
            let mut text: String = "-- Luna Mux dump: ".to_owned();
            text.append(name);
            text.append("\n\n");
            text
        },
        None => "-- Luna Mux database dump\n-- Schema first, then data, then indexes/triggers/views.\n\n".to_owned(),
    };
    let total: usize = count_tables(objects);
    proof {
        lemma_kinds_add_up(objects@);
    }
    let others: usize = objects.len() - total;
    let mut steps: Vec<DumpStep> = Vec::new();
    push_step(&mut steps, DumpStep::Write(header));
    assert(step_views(steps@) =~= seq![StepView::Write(sqlite_header(opt_str(table)))]);
    push_first_report(&mut steps, total);
    let (names, _) = push_lines(&mut steps, objects, true, schema_only, total);
    push_gap(&mut steps, total);
    if !schema_only {
        push_data_steps(&mut steps, names.as_slice());
        assert(names@.len() == views(names@).len());
    }
    assert(step_views(steps@) =~= seq![StepView::Write(sqlite_header(opt_str(table)))]
        + first_report(total as nat) + table_lines(
        of_kind(objects@, true),
        total as nat,
        schema_only,
    ) + gap(total as nat) + (if schema_only {
        Seq::empty()
    } else {
        data_steps(object_names(of_kind(objects@, true)), total as nat)
    }));
    push_gap(&mut steps, others);
    let _ = push_lines(&mut steps, objects, false, false, others);
    Ok(DumpPlan { steps, tables: total })
}

/// A table or a view of a database server.
#[derive(Debug)]
pub struct NetworkObject {
    pub name: String,
    pub is_view: bool,
}

/// The names of the views among the objects, or of the tables, in their order.
pub open spec fn names_of(objects: Seq<NetworkObject>, is_view: bool) -> Seq<Seq<char>>
    decreases objects.len(),
{
    if objects.len() == 0 {
        Seq::empty()
    } else {
        let rest = names_of(objects.drop_last(), is_view);
        if objects.last().is_view == is_view {
            rest.push(objects.last().name@)
        } else {
            rest
        }
    }
}

fn object_list(objects: &[NetworkObject], is_view: bool) -> (r: Vec<String>)
    ensures
        views(r@) == names_of(objects@, is_view),
{
    let mut names: Vec<String> = Vec::new();
    let mut i: usize = 0;
    assert(views(names@) =~= names_of(objects@.take(0), is_view));
    while i < objects.len()
        invariant
            i <= objects@.len(),
            views(names@) == names_of(objects@.take(i as int), is_view),
        decreases objects@.len() - i,
    {
        proof {
            assert(objects@.take(i + 1).drop_last() =~= objects@.take(i as int));
        }
        if objects[i].is_view == is_view {
            push_text(&mut names, objects[i].name.clone());
        }
        i = i + 1;
    }
    assert(objects@.take(i as int) =~= objects@);
    names
}

/// The definition of each table; a report behind each where no rows follow.
pub open spec fn define_tables(tables: Seq<Seq<char>>, total: nat, report: bool) -> Seq<StepView>
    decreases tables.len(),
{
    if tables.len() == 0 {
        Seq::empty()
    } else {
        let defined = define_tables(tables.drop_last(), total, report).push(
            StepView::Define { name: tables.last(), is_view: false },
        );
        if report {
            defined.push(table_report((tables.len() - 1) as nat, total, tables.last()))
        } else {
            defined
        }
    }
}

fn push_define_tables(steps: &mut Vec<DumpStep>, tables: &[String], report: bool)
    ensures
        step_views(final(steps)@) == step_views(old(steps)@) + define_tables(
            views(tables@),
            tables@.len(),
            report,
        ),
{
    let total: usize = tables.len();
    let ghost names = views(tables@);
    let mut i: usize = 0;
    assert(step_views(steps@) =~= step_views(old(steps)@) + define_tables(
        names.take(0),
        total as nat,
        report,
    ));
    while i < tables.len()
        invariant
            i <= tables@.len(),
            total == tables@.len(),
            names == views(tables@),
            step_views(steps@) == step_views(old(steps)@) + define_tables(
                names.take(i as int),
                total as nat,
                report,
            ),
        decreases tables@.len() - i,
    {
        push_step(steps, DumpStep::Define { name: tables[i].clone(), is_view: false });
        if report {
            push_step(
                steps,
                DumpStep::Report { current: i + 1, total, done: Some(tables[i].clone()) },
            );
        }
        proof {
            assert(names.take(i + 1).drop_last() =~= names.take(i as int));
            assert(step_views(steps@) =~= step_views(old(steps)@) + define_tables(
                names.take(i + 1),
                total as nat,
                report,
            ));
        }
        i = i + 1;
    }
    assert(names.take(i as int) =~= names);
}

/// The definition of each view.
pub open spec fn define_views(names: Seq<Seq<char>>) -> Seq<StepView> {
    names.map_values(|name: Seq<char>| StepView::Define { name, is_view: true })
}

fn push_define_views(steps: &mut Vec<DumpStep>, names: &[String])
    ensures
        step_views(final(steps)@) == step_views(old(steps)@) + define_views(views(names@)),
{
    let ghost all = views(names@);
    let mut i: usize = 0;
    assert(step_views(steps@) =~= step_views(old(steps)@) + define_views(all.take(0)));
    while i < names.len()
        invariant
            i <= names@.len(),
            all == views(names@),
            step_views(steps@) == step_views(old(steps)@) + define_views(all.take(i as int)),
        decreases names@.len() - i,
    {
        push_step(steps, DumpStep::Define { name: names[i].clone(), is_view: true });
        assert(step_views(steps@) =~= step_views(old(steps)@) + define_views(all.take(i + 1)));
        i = i + 1;
    }
    assert(all.take(i as int) =~= all);
}

/// What opens a MySQL dump.
pub open spec fn mysql_header(table: Option<Seq<char>>) -> Seq<char> {
    match table {
        Some(name) => "-- Luna Mux dump: "@ + name
            + "\n-- Triggers, routines and events are not included.\n\n"@,
        None => "-- Luna Mux database dump\n-- Schema first, then data. Triggers, routines and events are not included.\n\n"@,
    }
}

/// The steps of a MySQL dump: the tables, their rows, and then the views, which may select from
/// any table.
pub open spec fn mysql_steps(
    objects: Seq<NetworkObject>,
    table: Option<Seq<char>>,
    schema_only: bool,
) -> Seq<StepView> {
    let tables = names_of(objects, false);
    let selects = names_of(objects, true);
    let total = tables.len();
    first_report(total) + seq![
        StepView::Write(mysql_header(table)),
        StepView::Write("SET NAMES utf8mb4;\n\n"@),
    ] + define_tables(tables, total, schema_only) + gap(total) + (if schema_only {
        Seq::empty()
    } else {
        data_steps(tables, total)
    }) + gap(selects.len()) + define_views(selects)
}

/// Plans the dump of a MySQL database, or of one table or view.
pub fn mysql_export_plan(
    objects: &[NetworkObject],
    table: Option<&str>,
    schema_only: bool,
) -> (r: Result<DumpPlan, String>)
    ensures
        if objects@.len() == 0 && table is Some {
            r is Err && r->Err_0@ == "数据库中找不到该表或视图"@
        } else {
            &&& r is Ok
            &&& step_views(r->Ok_0.steps@) == mysql_steps(objects@, opt_str(table), schema_only)
            &&& r->Ok_0.tables == names_of(objects@, false).len()
        },
{
    if objects.len() == 0 && table.is_some() {
        return Err("数据库中找不到该表或视图".to_owned());
    }
    let header: String = match table {
        Some(name) => {
            let mut text: String = "-- Luna Mux dump: ".to_owned();
            text.append(name);
            text.append("\n-- Triggers, routines and events are not included.\n\n");
            text
        },
        None => "-- Luna Mux database dump\n-- Schema first, then data. Triggers, routines and events are not included.\n\n".to_owned(),
    };
    let tables = object_list(objects, false);
    let selects = object_list(objects, true);
    let total: usize = tables.len();
    assert(views(tables@).len() == tables@.len());
    assert(views(selects@).len() == selects@.len());
    let mut steps: Vec<DumpStep> = Vec::new();
    push_first_report(&mut steps, total);
    push_step(&mut steps, DumpStep::Write(header));
    push_write(&mut steps, "SET NAMES utf8mb4;\n\n");
    assert(step_views(steps@) =~= first_report(total as nat) + seq![
        StepView::Write(mysql_header(opt_str(table))),
        StepView::Write("SET NAMES utf8mb4;\n\n"@),
    ]);
    push_define_tables(&mut steps, tables.as_slice(), schema_only);
    push_gap(&mut steps, total);
    let ghost defined = step_views(steps@);
    if !schema_only {
        push_data_steps(&mut steps, tables.as_slice());
    }
    assert(step_views(steps@) =~= defined + (if schema_only {
        Seq::empty()
    } else {
        data_steps(views(tables@), total as nat)
    }));
    push_gap(&mut steps, selects.len());
    push_define_views(&mut steps, selects.as_slice());
    Ok(DumpPlan { steps, tables: total })
}

/// What opens a PostgreSQL dump.
pub open spec fn postgres_header(table: Option<Seq<char>>) -> Seq<char> {
    match table {
        Some(name) => "-- Luna Mux dump: "@ + name
            + "\n-- Triggers, functions, ownership and grants are not included.\n\n"@,
        None => "-- Luna Mux database dump\n-- Tables first, then data, then indexes, constraints and views.\n-- Triggers, functions, ownership and grants are not included.\n\n"@,
    }
}

/// What follows the rows of each table: its indexes, the constraints that need no other table, and
/// its sequences where rows were written.
pub open spec fn finish_tables(tables: Seq<Seq<char>>, schema_only: bool) -> Seq<StepView>
    decreases tables.len(),
{
    if tables.len() == 0 {
        Seq::empty()
    } else {
        let finished = finish_tables(tables.drop_last(), schema_only).push(
            StepView::Indexes(tables.last()),
        ).push(StepView::Constraints { table: tables.last(), foreign: false });
        if schema_only {
            finished
        } else {
            finished.push(StepView::Sequences(tables.last()))
        }
    }
}

fn push_finish_tables(steps: &mut Vec<DumpStep>, tables: &[String], schema_only: bool)
    ensures
        step_views(final(steps)@) == step_views(old(steps)@) + finish_tables(
            views(tables@),
            schema_only,
        ),
{
    let ghost names = views(tables@);
    let mut i: usize = 0;
    assert(step_views(steps@) =~= step_views(old(steps)@) + finish_tables(
        names.take(0),
        schema_only,
    ));
    while i < tables.len()
        invariant
            i <= tables@.len(),
            names == views(tables@),
            step_views(steps@) == step_views(old(steps)@) + finish_tables(
                names.take(i as int),
                schema_only,
            ),
        decreases tables@.len() - i,
    {
        push_step(steps, DumpStep::Indexes(tables[i].clone()));
        push_step(steps, DumpStep::Constraints { table: tables[i].clone(), foreign: false });
        if !schema_only {
            push_step(steps, DumpStep::Sequences(tables[i].clone()));
        }
        proof {
            assert(names.take(i + 1).drop_last() =~= names.take(i as int));
            assert(step_views(steps@) =~= step_views(old(steps)@) + finish_tables(
                names.take(i + 1),
                schema_only,
            ));
        }
        i = i + 1;
    }
    assert(names.take(i as int) =~= names);
}

/// The foreign keys of each table.
pub open spec fn foreign_keys(tables: Seq<Seq<char>>) -> Seq<StepView> {
    tables.map_values(|table: Seq<char>| StepView::Constraints { table, foreign: true })
}

fn push_foreign_keys(steps: &mut Vec<DumpStep>, tables: &[String])
    ensures
        step_views(final(steps)@) == step_views(old(steps)@) + foreign_keys(views(tables@)),
{
    let ghost all = views(tables@);
    let mut i: usize = 0;
    assert(step_views(steps@) =~= step_views(old(steps)@) + foreign_keys(all.take(0)));
    while i < tables.len()
        invariant
            i <= tables@.len(),
            all == views(tables@),
            step_views(steps@) == step_views(old(steps)@) + foreign_keys(all.take(i as int)),
        decreases tables@.len() - i,
    {
        push_step(steps, DumpStep::Constraints { table: tables[i].clone(), foreign: true });
        assert(step_views(steps@) =~= step_views(old(steps)@) + foreign_keys(all.take(i + 1)));
        i = i + 1;
    }
    assert(all.take(i as int) =~= all);
}

/// The steps of a PostgreSQL dump: the tables, their rows, what belongs to each table, the foreign
/// keys of all tables, and the views.
pub open spec fn postgres_steps(
    objects: Seq<NetworkObject>,
    table: Option<Seq<char>>,
    schema_only: bool,
) -> Seq<StepView> {
    let tables = names_of(objects, false);
    let selects = names_of(objects, true);
    let total = tables.len();
    first_report(total) + seq![
        StepView::Write(postgres_header(table)),
        StepView::Write("SET client_encoding = 'UTF8';\n\n"@),
    ] + define_tables(tables, total, schema_only) + (if schema_only {
        Seq::empty()
    } else {
        data_steps(tables, total)
    }) + gap(total) + finish_tables(tables, schema_only) + foreign_keys(tables) + gap(selects.len())
        + define_views(selects)
}

/// Plans the dump of a PostgreSQL database, or of one table or view.
pub fn postgres_export_plan(
    objects: &[NetworkObject],
    table: Option<&str>,
    schema_only: bool,
) -> (r: Result<DumpPlan, String>)
    ensures
        if objects@.len() == 0 && table is Some {
            r is Err && r->Err_0@ == "数据库中找不到该表或视图"@
        } else {
            &&& r is Ok
            &&& step_views(r->Ok_0.steps@) == postgres_steps(objects@, opt_str(table), schema_only)
            &&& r->Ok_0.tables == names_of(objects@, false).len()
        },
{
    if objects.len() == 0 && table.is_some() {
        return Err("数据库中找不到该表或视图".to_owned());
    }
    let header: String = match table {
        Some(name) => {
            let mut text: String = "-- Luna Mux dump: ".to_owned();
            text.append(name);
            text.append("\n-- Triggers, functions, ownership and grants are not included.\n\n");
            text
        },
        None => "-- Luna Mux database dump\n-- Tables first, then data, then indexes, constraints and views.\n-- Triggers, functions, ownership and grants are not included.\n\n".to_owned(),
    };
    let tables = object_list(objects, false);
    let selects = object_list(objects, true);
    let total: usize = tables.len();
    assert(views(tables@).len() == tables@.len());
    assert(views(selects@).len() == selects@.len());
    let mut steps: Vec<DumpStep> = Vec::new();
    push_first_report(&mut steps, total);
    push_step(&mut steps, DumpStep::Write(header));
    push_write(&mut steps, "SET client_encoding = 'UTF8';\n\n");
    assert(step_views(steps@) =~= first_report(total as nat) + seq![
        StepView::Write(postgres_header(opt_str(table))),
        StepView::Write("SET client_encoding = 'UTF8';\n\n"@),
    ]);
    push_define_tables(&mut steps, tables.as_slice(), schema_only);
    let ghost defined = step_views(steps@);
    if !schema_only {
        push_data_steps(&mut steps, tables.as_slice());
    }
    assert(step_views(steps@) =~= defined + (if schema_only {
        Seq::empty()
    } else {
        data_steps(views(tables@), total as nat)
    }));
    push_gap(&mut steps, total);
    push_finish_tables(&mut steps, tables.as_slice(), schema_only);
    push_foreign_keys(&mut steps, tables.as_slice());
    push_gap(&mut steps, selects.len());
    push_define_views(&mut steps, selects.as_slice());
    Ok(DumpPlan { steps, tables: total })
}

/// All rows stand before the first index, constraint or view.
pub open spec fn rows_come_first(steps: Seq<StepView>) -> bool {
    forall|i: int, j: int|
        0 <= i < steps.len() && 0 <= j < steps.len() && (#[trigger] steps[i]) is Data && ((
        #[trigger] steps[j]) is Constraints || steps[j] is Indexes || (steps[j] matches StepView::Define {
            is_view,
            ..
        } && is_view)) ==> i < j
}

/// Each table is defined before any row is written.
pub open spec fn tables_come_first(steps: Seq<StepView>) -> bool {
    forall|i: int, j: int|
        0 <= i < steps.len() && 0 <= j < steps.len() && (#[trigger] steps[i] matches StepView::Define {
            is_view,
            ..
        } && !is_view) && (#[trigger] steps[j]) is Data ==> i < j
}

/// None of the steps is about rows.
pub open spec fn no_data(steps: Seq<StepView>) -> bool {
    forall|i: int| 0 <= i < steps.len() ==> !((#[trigger] steps[i]) is Data)
}

spec fn no_tables(steps: Seq<StepView>) -> bool {
    forall|i: int|
        0 <= i < steps.len() ==> !(#[trigger] steps[i] matches StepView::Define { is_view, .. }
            && !is_view)
}

spec fn no_tail(steps: Seq<StepView>) -> bool {
    forall|i: int|
        0 <= i < steps.len() ==> !((#[trigger] steps[i]) is Constraints) && !(steps[i] is Indexes)
            && !(steps[i] matches StepView::Define { is_view, .. } && is_view)
}

proof fn lemma_data_kind(tables: Seq<Seq<char>>, total: nat)
    ensures
        no_tables(data_steps(tables, total)),
        no_tail(data_steps(tables, total)),
    decreases tables.len(),
{
    if tables.len() > 0 {
        lemma_data_kind(tables.drop_last(), total);
    }
}

proof fn lemma_define_kind(tables: Seq<Seq<char>>, total: nat, report: bool)
    ensures
        no_data(define_tables(tables, total, report)),
        no_tail(define_tables(tables, total, report)),
    decreases tables.len(),
{
    if tables.len() > 0 {
        lemma_define_kind(tables.drop_last(), total, report);
    }
}

proof fn lemma_finish_kind(tables: Seq<Seq<char>>, schema_only: bool)
    ensures
        no_data(finish_tables(tables, schema_only)),
        no_tables(finish_tables(tables, schema_only)),
    decreases tables.len(),
{
    if tables.len() > 0 {
        lemma_finish_kind(tables.drop_last(), schema_only);
    }
}

proof fn lemma_order(head: Seq<StepView>, rows: Seq<StepView>, tail: Seq<StepView>)
    requires
        no_data(head),
        no_tail(head),
        no_tables(rows),
        no_tail(rows),
        no_data(tail),
        no_tables(tail),
    ensures
        rows_come_first(head + rows + tail),
        tables_come_first(head + rows + tail),
{
    let all = head + rows + tail;
    assert forall|k: int| 0 <= k < all.len() implies #[trigger] all[k] == (if k < head.len() {
        head[k]
    } else if k < head.len() + rows.len() {
        rows[k - head.len()]
    } else {
        tail[k - head.len() - rows.len()]
    }) by {}
}

/// In a PostgreSQL dump every table is made before the first row, and every row stands before the
/// indexes, constraints and views: a restore pays for none of them row by row, and tables may come
/// in any order.
pub proof fn law_postgres_dump_order(
    objects: Seq<NetworkObject>,
    table: Option<Seq<char>>,
    schema_only: bool,
)
    ensures
        rows_come_first(postgres_steps(objects, table, schema_only)),
        tables_come_first(postgres_steps(objects, table, schema_only)),
{
    let tables = names_of(objects, false);
    let selects = names_of(objects, true);
    let total = tables.len();
    lemma_data_kind(tables, total);
    lemma_define_kind(tables, total, schema_only);
    lemma_finish_kind(tables, schema_only);
    let opening = first_report(total) + seq![
        StepView::Write(postgres_header(table)),
        StepView::Write("SET client_encoding = 'UTF8';\n\n"@),
    ];
    let defined = define_tables(tables, total, schema_only);
    let head = opening + defined;
    assert(no_data(head) && no_tail(head)) by {
        assert forall|k: int| 0 <= k < head.len() implies #[trigger] head[k] == (if k
            < opening.len() {
            opening[k]
        } else {
            defined[k - opening.len()]
        }) by {}
    }
    let rows = if schema_only {
        Seq::empty()
    } else {
        data_steps(tables, total)
    };
    let finished = finish_tables(tables, schema_only);
    let tail = gap(total) + finished + foreign_keys(tables) + gap(selects.len()) + define_views(
        selects,
    );
    assert(no_data(tail) && no_tables(tail)) by {
        let a = gap(total) + finished;
        assert forall|k: int| 0 <= k < a.len() implies !((#[trigger] a[k]) is Data) && !(
        a[k] matches StepView::Define { is_view, .. } && !is_view) by {
            if k >= gap(total).len() {
                assert(a[k] == finished[k - gap(total).len()]);
            }
        }
    }
    lemma_order(head, rows, tail);
    assert(head + rows + tail =~= postgres_steps(objects, table, schema_only));
}

/// In a MySQL dump every table is made before the first row, and every row stands before the
/// views.
pub proof fn law_mysql_dump_order(
    objects: Seq<NetworkObject>,
    table: Option<Seq<char>>,
    schema_only: bool,
)
    ensures
        rows_come_first(mysql_steps(objects, table, schema_only)),
        tables_come_first(mysql_steps(objects, table, schema_only)),
{
    let tables = names_of(objects, false);
    let selects = names_of(objects, true);
    let total = tables.len();
    lemma_data_kind(tables, total);
    lemma_define_kind(tables, total, schema_only);
    let opening = first_report(total) + seq![
        StepView::Write(mysql_header(table)),
        StepView::Write("SET NAMES utf8mb4;\n\n"@),
    ];
    let defined = define_tables(tables, total, schema_only);
    let head = opening + defined + gap(total);
    assert(no_data(head) && no_tail(head)) by {
        assert forall|k: int| 0 <= k < head.len() implies #[trigger] head[k] == (if k
            < opening.len() {
            opening[k]
        } else if k < opening.len() + defined.len() {
            defined[k - opening.len()]
        } else {
            gap(total)[k - opening.len() - defined.len()]
        }) by {}
    }
    let rows = if schema_only {
        Seq::empty()
    } else {
        data_steps(tables, total)
    };
    let tail = gap(selects.len()) + define_views(selects);
    lemma_order(head, rows, tail);
    assert(head + rows + tail =~= mysql_steps(objects, table, schema_only));
}

proof fn lemma_data_count(tables: Seq<Seq<char>>, total: nat, table: Seq<char>)
    ensures
        data_steps(tables, total).contains(StepView::Data(table)) <==> tables.contains(table),
    decreases tables.len(),
{
    let steps = data_steps(tables, total);
    if tables.len() > 0 {
        let rest = tables.drop_last();
        let before = data_steps(rest, total);
        lemma_data_count(rest, total, table);
        assert(tables =~= rest.push(tables.last()));
        assert(steps =~= before.push(StepView::Data(tables.last())).push(
            table_report((tables.len() - 1) as nat, total, tables.last()),
        ));
        if tables.contains(table) {
            if table == tables.last() {
                assert(steps[before.len() as int] == StepView::Data(table));
            } else {
                let i = choose|i: int| 0 <= i < tables.len() && tables[i] == table;
                assert(rest[i] == table);
                let k = choose|k: int| 0 <= k < before.len() && before[k] == StepView::Data(table);
                assert(steps[k] == StepView::Data(table));
            }
        }
        if steps.contains(StepView::Data(table)) {
            let k = choose|k: int| 0 <= k < steps.len() && steps[k] == StepView::Data(table);
            if k < before.len() {
                assert(before[k] == StepView::Data(table));
                let i = choose|i: int| 0 <= i < rest.len() && rest[i] == table;
                assert(tables[i] == table);
            } else {
                assert(tables[tables.len() - 1] == table);
            }
        }
    }
}

/// The rows of every table are part of a dump with data, and a dump of the schema alone holds no
/// rows.
pub proof fn law_dumps_hold_the_rows_of_every_table(
    objects: Seq<NetworkObject>,
    table: Option<Seq<char>>,
    name: Seq<char>,
)
    ensures
        names_of(objects, false).contains(name) ==> mysql_steps(objects, table, false).contains(
            StepView::Data(name),
        ) && postgres_steps(objects, table, false).contains(StepView::Data(name)),
        !mysql_steps(objects, table, true).contains(StepView::Data(name)),
        !postgres_steps(objects, table, true).contains(StepView::Data(name)),
{
    let tables = names_of(objects, false);
    let total = tables.len();
    let rows = data_steps(tables, total);
    lemma_data_count(tables, total, name);
    lemma_define_kind(tables, total, true);
    lemma_finish_kind(tables, true);
    if tables.contains(name) {
        let k = choose|k: int| 0 <= k < rows.len() && rows[k] == StepView::Data(name);
        let m = mysql_steps(objects, table, false);
        let m0 = first_report(total) + seq![
            StepView::Write(mysql_header(table)),
            StepView::Write("SET NAMES utf8mb4;\n\n"@),
        ] + define_tables(tables, total, false) + gap(total);
        assert(m[m0.len() + k] == rows[k]);
        let p = postgres_steps(objects, table, false);
        let p0 = first_report(total) + seq![
            StepView::Write(postgres_header(table)),
            StepView::Write("SET client_encoding = 'UTF8';\n\n"@),
        ] + define_tables(tables, total, false);
        assert(p[p0.len() + k] == rows[k]);
    }
    lemma_schema_dumps_hold_no_rows(objects, table);
}

proof fn lemma_schema_dumps_hold_no_rows(objects: Seq<NetworkObject>, table: Option<Seq<char>>)
    ensures
        no_data(mysql_steps(objects, table, true)),
        no_data(postgres_steps(objects, table, true)),
{
    let tables = names_of(objects, false);
    let selects = names_of(objects, true);
    let total = tables.len();
    lemma_define_kind(tables, total, true);
    lemma_finish_kind(tables, true);
    let empty = Seq::<StepView>::empty();
    lemma_no_data_joins(
        first_report(total) + seq![
            StepView::Write(mysql_header(table)),
            StepView::Write("SET NAMES utf8mb4;\n\n"@),
        ],
        define_tables(tables, total, true),
    );
    let m1 = first_report(total) + seq![
        StepView::Write(mysql_header(table)),
        StepView::Write("SET NAMES utf8mb4;\n\n"@),
    ] + define_tables(tables, total, true);
    lemma_no_data_joins(m1, gap(total));
    lemma_no_data_joins(m1 + gap(total), empty);
    lemma_no_data_joins(m1 + gap(total) + empty, gap(selects.len()));
    lemma_no_data_joins(m1 + gap(total) + empty + gap(selects.len()), define_views(selects));
    lemma_no_data_joins(
        first_report(total) + seq![
            StepView::Write(postgres_header(table)),
            StepView::Write("SET client_encoding = 'UTF8';\n\n"@),
        ],
        define_tables(tables, total, true),
    );
    let p1 = first_report(total) + seq![
        StepView::Write(postgres_header(table)),
        StepView::Write("SET client_encoding = 'UTF8';\n\n"@),
    ] + define_tables(tables, total, true);
    lemma_no_data_joins(p1, empty);
    lemma_no_data_joins(p1 + empty, gap(total));
    lemma_no_data_joins(p1 + empty + gap(total), finish_tables(tables, true));
    let p2 = p1 + empty + gap(total) + finish_tables(tables, true);
    lemma_no_data_joins(p2, foreign_keys(tables));
    lemma_no_data_joins(p2 + foreign_keys(tables), gap(selects.len()));
    lemma_no_data_joins(
        p2 + foreign_keys(tables) + gap(selects.len()),
        define_views(selects),
    );
}

proof fn lemma_no_data_joins(a: Seq<StepView>, b: Seq<StepView>)
    requires
        no_data(a),
        no_data(b),
    ensures
        no_data(a + b),
{
    assert forall|i: int| 0 <= i < (a + b).len() implies !((#[trigger] (a + b)[i]) is Data) by {
        if i < a.len() {
            assert((a + b)[i] == a[i]);
        } else {
            assert((a + b)[i] == b[i - a.len()]);
        }
    }
}

proof fn lemma_table_lines(tables: Seq<SqliteObjectView>, total: nat, schema_only: bool)
    ensures
        no_data(table_lines(tables, total, schema_only)),
        forall|i: int|
            0 <= i < tables.len() ==> table_lines(tables, total, schema_only).contains(
                StepView::Write(statement_line((#[trigger] tables[i]).sql)),
            ),
    decreases tables.len(),
{
    if tables.len() > 0 {
        let rest = tables.drop_last();
        let before = table_lines(rest, total, schema_only);
        let steps = table_lines(tables, total, schema_only);
        lemma_table_lines(rest, total, schema_only);
        assert forall|i: int| 0 <= i < tables.len() implies steps.contains(
            StepView::Write(statement_line((#[trigger] tables[i]).sql)),
        ) by {
            let line = StepView::Write(statement_line(tables[i].sql));
            if i < rest.len() {
                assert(rest[i] == tables[i]);
                let k = choose|k: int| 0 <= k < before.len() && before[k] == line;
                assert(steps[k] == line);
            } else {
                assert(steps[before.len() as int] == line);
            }
        }
        assert forall|k: int| 0 <= k < steps.len() implies !((#[trigger] steps[k]) is Data) by {
            if k < before.len() {
                assert(steps[k] == before[k]);
            }
        }
    }
}

proof fn lemma_object_lines(objects: Seq<SqliteObjectView>)
    ensures
        object_lines(objects).len() == objects.len(),
        forall|i: int|
            0 <= i < objects.len() ==> object_lines(objects)[i] == StepView::Write(
                statement_line((#[trigger] objects[i]).sql),
            ),
    decreases objects.len(),
{
    if objects.len() > 0 {
        let rest = objects.drop_last();
        lemma_object_lines(rest);
        assert forall|i: int| 0 <= i < objects.len() implies object_lines(objects)[i]
            == StepView::Write(statement_line((#[trigger] objects[i]).sql)) by {
            if i < rest.len() {
                assert(rest[i] == objects[i]);
            }
        }
    }
}

/// In a SQLite dump every table is made before the first row, and every index, trigger and view
/// behind the last one: what comes before and behind the rows holds none of them.
pub proof fn law_sqlite_dump_order(
    objects: Seq<SqliteObject>,
    table: Option<Seq<char>>,
    schema_only: bool,
)
    ensures
        sqlite_steps(objects, table, schema_only) == sqlite_head(objects, table, schema_only)
            + sqlite_rows(objects, schema_only) + sqlite_tail(objects),
        no_data(sqlite_head(objects, table, schema_only)),
        no_data(sqlite_tail(objects)),
        forall|k: int|
            0 <= k < sqlite_rows(objects, schema_only).len() ==> !((#[trigger] sqlite_rows(
                objects,
                schema_only,
            )[k]) is Write),
        forall|i: int|
            0 <= i < of_kind(objects, true).len() ==> sqlite_head(
                objects,
                table,
                schema_only,
            ).contains(StepView::Write(statement_line((#[trigger] of_kind(objects, true)[i]).sql))),
        forall|i: int|
            0 <= i < of_kind(objects, false).len() ==> sqlite_tail(objects).contains(
                StepView::Write(statement_line((#[trigger] of_kind(objects, false)[i]).sql)),
            ),
{
    let tables = of_kind(objects, true);
    let others = of_kind(objects, false);
    let total = tables.len();
    let opening = seq![StepView::Write(sqlite_header(table))] + first_report(total);
    let made = table_lines(tables, total, schema_only);
    let head = sqlite_head(objects, table, schema_only);
    let tail = sqlite_tail(objects);
    lemma_table_lines(tables, total, schema_only);
    lemma_object_lines(others);
    lemma_no_data_joins(opening, made);
    lemma_no_data_joins(opening + made, gap(total));
    assert(head =~= opening + made + gap(total));
    assert(no_data(object_lines(others))) by {
        assert forall|k: int| 0 <= k < object_lines(others).len() implies !((
        #[trigger] object_lines(others)[k]) is Data) by {
            let other = others[k];
        }
    }
    lemma_no_data_joins(gap(others.len()), object_lines(others));
    assert forall|i: int| 0 <= i < tables.len() implies head.contains(
        StepView::Write(statement_line((#[trigger] tables[i]).sql)),
    ) by {
        let line = StepView::Write(statement_line(tables[i].sql));
        let k = choose|k: int| 0 <= k < made.len() && made[k] == line;
        assert(head[opening.len() + k] == line);
    }
    assert forall|i: int| 0 <= i < others.len() implies tail.contains(
        StepView::Write(statement_line((#[trigger] others[i]).sql)),
    ) by {
        assert(tail[gap(others.len()).len() + i] == object_lines(others)[i]);
    }
    if !schema_only {
        lemma_data_steps(object_names(tables), total);
    }
}

proof fn lemma_data_steps(tables: Seq<Seq<char>>, total: nat)
    ensures
        forall|k: int|
            0 <= k < data_steps(tables, total).len() ==> !((#[trigger] data_steps(
                tables,
                total,
            )[k]) is Write),
    decreases tables.len(),
{
    if tables.len() > 0 {
        let before = data_steps(tables.drop_last(), total);
        lemma_data_steps(tables.drop_last(), total);
        assert forall|k: int| 0 <= k < data_steps(tables, total).len() implies !((
        #[trigger] data_steps(tables, total)[k]) is Write) by {
            if k < before.len() {
                assert(data_steps(tables, total)[k] == before[k]);
            }
        }
    }
}

/// The rows of every table are part of a SQLite dump with data, and a dump of the schema alone
/// holds no rows.
pub proof fn law_sqlite_dumps_hold_the_rows_of_every_table(
    objects: Seq<SqliteObject>,
    table: Option<Seq<char>>,
    name: Seq<char>,
)
    ensures
        sqlite_steps(objects, table, false).contains(StepView::Data(name)) <==> object_names(
            of_kind(objects, true),
        ).contains(name),
        !sqlite_steps(objects, table, true).contains(StepView::Data(name)),
{
    let tables = of_kind(objects, true);
    law_sqlite_dump_order(objects, table, false);
    law_sqlite_dump_order(objects, table, true);
    lemma_data_count(object_names(tables), tables.len(), name);
    let step = StepView::Data(name);
    let head = sqlite_head(objects, table, false);
    let rows = sqlite_rows(objects, false);
    let tail = sqlite_tail(objects);
    let all = sqlite_steps(objects, table, false);
    if rows.contains(step) {
        let k = choose|k: int| 0 <= k < rows.len() && rows[k] == step;
        assert(all[head.len() + k] == step);
    }
    if all.contains(step) {
        let k = choose|k: int| 0 <= k < all.len() && all[k] == step;
        if k < head.len() {
            assert(head[k] == step);
        } else if k < head.len() + rows.len() {
            assert(rows[k - head.len()] == step);
        } else {
            assert(tail[k - head.len() - rows.len()] == step);
        }
    }
    lemma_no_data_joins(sqlite_head(objects, table, true), sqlite_rows(objects, true));
    lemma_no_data_joins(sqlite_head(objects, table, true) + sqlite_rows(objects, true), tail);
}

proof fn lemma_names_of(objects: Seq<NetworkObject>, is_view: bool, object: NetworkObject)
    requires
        objects.contains(object),
    ensures
        names_of(objects, is_view).contains(object.name@) <== object.is_view == is_view,
    decreases objects.len(),
{
    let front = objects.drop_last();
    let rest = names_of(front, is_view);
    let all = names_of(objects, is_view);
    let i = choose|i: int| 0 <= i < objects.len() && objects[i] == object;
    if object.is_view == is_view {
        if i < front.len() {
            assert(front[i] == object);
            lemma_names_of(front, is_view, object);
            let k = choose|k: int| 0 <= k < rest.len() && rest[k] == object.name@;
            assert(all[k] == object.name@);
        } else {
            assert(all[all.len() - 1] == object.name@);
        }
    }
}

proof fn lemma_defines(tables: Seq<Seq<char>>, total: nat, report: bool, name: Seq<char>)
    requires
        tables.contains(name),
    ensures
        define_tables(tables, total, report).contains(StepView::Define { name, is_view: false }),
    decreases tables.len(),
{
    let front = tables.drop_last();
    let rest = define_tables(front, total, report);
    let all = define_tables(tables, total, report);
    let step = StepView::Define { name, is_view: false };
    let i = choose|i: int| 0 <= i < tables.len() && tables[i] == name;
    if i < front.len() {
        assert(front[i] == name);
        lemma_defines(front, total, report, name);
        let k = choose|k: int| 0 <= k < rest.len() && rest[k] == step;
        assert(all[k] == step);
    } else {
        assert(all[rest.len() as int] == step);
    }
}

proof fn lemma_finishes(tables: Seq<Seq<char>>, schema_only: bool, name: Seq<char>)
    requires
        tables.contains(name),
    ensures
        finish_tables(tables, schema_only).contains(StepView::Indexes(name)),
        finish_tables(tables, schema_only).contains(
            StepView::Constraints { table: name, foreign: false },
        ),
        !schema_only ==> finish_tables(tables, schema_only).contains(StepView::Sequences(name)),
    decreases tables.len(),
{
    let front = tables.drop_last();
    let rest = finish_tables(front, schema_only);
    let all = finish_tables(tables, schema_only);
    let i = choose|i: int| 0 <= i < tables.len() && tables[i] == name;
    let n = rest.len() as int;
    if i < front.len() {
        assert(front[i] == name);
        lemma_finishes(front, schema_only, name);
        let a = choose|k: int| 0 <= k < n && rest[k] == StepView::Indexes(name);
        let b = choose|k: int|
            0 <= k < n && rest[k] == (StepView::Constraints { table: name, foreign: false });
        assert(all[a] == rest[a] && all[b] == rest[b]);
        if !schema_only {
            let c = choose|k: int| 0 <= k < n && rest[k] == StepView::Sequences(name);
            assert(all[c] == rest[c]);
        }
    } else {
        assert(all[n] == StepView::Indexes(name));
        assert(all[n + 1] == (StepView::Constraints { table: name, foreign: false }));
        if !schema_only {
            assert(all[n + 2] == StepView::Sequences(name));
        }
    }
}

proof fn lemma_part(a: Seq<StepView>, b: Seq<StepView>, c: Seq<StepView>, step: StepView)
    requires
        b.contains(step),
    ensures
        (a + b + c).contains(step),
{
    let k = choose|k: int| 0 <= k < b.len() && b[k] == step;
    assert((a + b + c)[a.len() + k] == step);
}

/// Every table and every view is defined in a dump, with or without its rows.
pub proof fn law_dumps_define_every_object(
    objects: Seq<NetworkObject>,
    table: Option<Seq<char>>,
    schema_only: bool,
    object: NetworkObject,
)
    requires
        objects.contains(object),
    ensures
        mysql_steps(objects, table, schema_only).contains(
            StepView::Define { name: object.name@, is_view: object.is_view },
        ),
        postgres_steps(objects, table, schema_only).contains(
            StepView::Define { name: object.name@, is_view: object.is_view },
        ),
{
    let tables = names_of(objects, false);
    let selects = names_of(objects, true);
    let total = tables.len();
    let name = object.name@;
    let step = StepView::Define { name, is_view: object.is_view };
    let none = Seq::<StepView>::empty();
    let m0 = first_report(total) + seq![
        StepView::Write(mysql_header(table)),
        StepView::Write("SET NAMES utf8mb4;\n\n"@),
    ];
    let p0 = first_report(total) + seq![
        StepView::Write(postgres_header(table)),
        StepView::Write("SET client_encoding = 'UTF8';\n\n"@),
    ];
    let defined = define_tables(tables, total, schema_only);
    let rows = if schema_only {
        none
    } else {
        data_steps(tables, total)
    };
    let shown = define_views(selects);
    let m = mysql_steps(objects, table, schema_only);
    let p = postgres_steps(objects, table, schema_only);
    let m1 = gap(total) + rows + gap(selects.len()) + shown;
    let p1 = rows + gap(total) + finish_tables(tables, schema_only) + foreign_keys(tables) + gap(
        selects.len(),
    ) + shown;
    assert(m =~= m0 + defined + m1);
    assert(p =~= p0 + defined + p1);
    lemma_names_of(objects, object.is_view, object);
    if object.is_view {
        let k = choose|k: int| 0 <= k < selects.len() && selects[k] == name;
        assert(shown[k] == step);
        let mf = m0 + defined + gap(total) + rows + gap(selects.len());
        let pf = p0 + defined + rows + gap(total) + finish_tables(tables, schema_only)
            + foreign_keys(tables) + gap(selects.len());
        assert(m =~= mf + shown + none);
        assert(p =~= pf + shown + none);
        lemma_part(mf, shown, none, step);
        lemma_part(pf, shown, none, step);
    } else {
        lemma_defines(tables, total, schema_only, name);
        lemma_part(m0, defined, m1, step);
        lemma_part(p0, defined, p1, step);
    }
}

/// The indexes, the constraints and the foreign keys of every table of a PostgreSQL database are part
/// of its dump, and its sequences too where its rows are.
pub proof fn law_postgres_dumps_finish_every_table(
    objects: Seq<NetworkObject>,
    table: Option<Seq<char>>,
    schema_only: bool,
    object: NetworkObject,
)
    requires
        objects.contains(object),
        !object.is_view,
    ensures
        ({
            let steps = postgres_steps(objects, table, schema_only);
            let name = object.name@;
            &&& steps.contains(StepView::Indexes(name))
            &&& steps.contains(StepView::Constraints { table: name, foreign: false })
            &&& steps.contains(StepView::Constraints { table: name, foreign: true })
            &&& !schema_only ==> steps.contains(StepView::Sequences(name))
        }),
{
    let tables = names_of(objects, false);
    let selects = names_of(objects, true);
    let total = tables.len();
    let name = object.name@;
    let none = Seq::<StepView>::empty();
    let rows = if schema_only {
        none
    } else {
        data_steps(tables, total)
    };
    let front = first_report(total) + seq![
        StepView::Write(postgres_header(table)),
        StepView::Write("SET client_encoding = 'UTF8';\n\n"@),
    ] + define_tables(tables, total, schema_only) + rows + gap(total);
    let finished = finish_tables(tables, schema_only);
    let keys = foreign_keys(tables);
    let back = gap(selects.len()) + define_views(selects);
    let p = postgres_steps(objects, table, schema_only);
    lemma_names_of(objects, false, object);
    lemma_finishes(tables, schema_only, name);
    let k = choose|k: int| 0 <= k < tables.len() && tables[k] == name;
    assert(keys[k] == (StepView::Constraints { table: name, foreign: true }));
    assert(p =~= front + finished + (keys + back));
    assert(p =~= (front + finished) + keys + back);
    lemma_part(front, finished, keys + back, StepView::Indexes(name));
    lemma_part(
        front,
        finished,
        keys + back,
        StepView::Constraints { table: name, foreign: false },
    );
    lemma_part(
        front + finished,
        keys,
        back,
        StepView::Constraints { table: name, foreign: true },
    );
    if !schema_only {
        lemma_part(front, finished, keys + back, StepView::Sequences(name));
    }
}

proof fn lemma_no_foreign(tables: Seq<Seq<char>>, schema_only: bool)
    ensures
        forall|i: int|
            0 <= i < finish_tables(tables, schema_only).len() ==> !((#[trigger] finish_tables(
                tables,
                schema_only,
            )[i]) matches StepView::Constraints { foreign, .. } && foreign),
    decreases tables.len(),
{
    if tables.len() > 0 {
        lemma_no_foreign(tables.drop_last(), schema_only);
        let rest = finish_tables(tables.drop_last(), schema_only);
        let all = finish_tables(tables, schema_only);
        assert forall|i: int| 0 <= i < all.len() implies !((#[trigger] all[i]) matches
            StepView::Constraints { foreign, .. } && foreign) by {
            if i < rest.len() {
                assert(all[i] == rest[i]);
            }
        }
    }
}

/// Foreign keys come behind everything that they can refer to: behind the indexes and all other
/// constraints of every table.
pub proof fn law_foreign_keys_come_last(
    objects: Seq<NetworkObject>,
    table: Option<Seq<char>>,
    schema_only: bool,
    i: int,
    j: int,
)
    requires
        0 <= i < postgres_steps(objects, table, schema_only).len(),
        0 <= j < postgres_steps(objects, table, schema_only).len(),
        postgres_steps(objects, table, schema_only)[i] matches StepView::Constraints {
            foreign,
            ..
        } && foreign,
        postgres_steps(objects, table, schema_only)[j] is Indexes || postgres_steps(
            objects,
            table,
            schema_only,
        )[j] is Sequences || (postgres_steps(objects, table, schema_only)[j] matches
            StepView::Constraints { foreign, .. } && !foreign),
    ensures
        j < i,
{
    let tables = names_of(objects, false);
    let selects = names_of(objects, true);
    let total = tables.len();
    let none = Seq::<StepView>::empty();
    let rows = if schema_only {
        none
    } else {
        data_steps(tables, total)
    };
    let opening = first_report(total) + seq![
        StepView::Write(postgres_header(table)),
        StepView::Write("SET client_encoding = 'UTF8';\n\n"@),
    ];
    let defined = define_tables(tables, total, schema_only);
    let finished = finish_tables(tables, schema_only);
    let keys = foreign_keys(tables);
    let back = gap(selects.len()) + define_views(selects);
    let p = postgres_steps(objects, table, schema_only);
    lemma_data_kind(tables, total);
    lemma_define_kind(tables, total, schema_only);
    lemma_no_foreign(tables, schema_only);
    let a = opening.len() as int;
    let b = a + defined.len();
    let c = b + rows.len();
    let d = c + gap(total).len();
    let e = d + finished.len();
    let f = e + keys.len();
    assert(p =~= opening + defined + rows + gap(total) + finished + keys + back);
    assert forall|k: int| 0 <= k < p.len() implies #[trigger] p[k] == (if k < a {
        opening[k]
    } else if k < b {
        defined[k - a]
    } else if k < c {
        rows[k - b]
    } else if k < d {
        gap(total)[k - c]
    } else if k < e {
        finished[k - d]
    } else if k < f {
        keys[k - e]
    } else {
        back[k - f]
    }) by {}
    if i < d {
        if a <= i < b {
            assert(p[i] == defined[i - a]);
        } else if b <= i < c {
            assert(p[i] == rows[i - b]);
        }
    } else if i < e {
        assert(p[i] == finished[i - d]);
    }
    if j >= f {
        let k = j - f;
        assert(p[j] == back[k]);
        if k >= gap(selects.len()).len() {
            assert(back[k] == define_views(selects)[k - gap(selects.len()).len()]);
        }
    } else if j >= e {
        assert(p[j] == keys[j - e]);
    }
    assert(i >= e);
    assert(j < e);
}

/// The rows of the tables come in the order of the tables, and behind the rows of each its progress
/// is told: how many are done, of how many, and which.
pub proof fn law_progress_is_told_table_by_table(tables: Seq<Seq<char>>, total: nat, i: int)
    requires
        0 <= i < tables.len(),
    ensures
        data_steps(tables, total).len() == 2 * tables.len(),
        data_steps(tables, total)[2 * i] == StepView::Data(tables[i]),
        data_steps(tables, total)[2 * i + 1] == (StepView::Report {
            current: (i + 1) as nat,
            total,
            done: Some(tables[i]),
        }),
    decreases tables.len(),
{
    lemma_data_length(tables, total);
    lemma_data_length(tables.drop_last(), total);
    if i < tables.len() - 1 {
        law_progress_is_told_table_by_table(tables.drop_last(), total, i);
        assert(tables.drop_last()[i] == tables[i]);
    }
}

proof fn lemma_data_length(tables: Seq<Seq<char>>, total: nat)
    ensures
        data_steps(tables, total).len() == 2 * tables.len(),
    decreases tables.len(),
{
    if tables.len() > 0 {
        lemma_data_length(tables.drop_last(), total);
    }
}

/// A statement is written with one semicolon at its end, however many it had, and on its own line.
pub proof fn law_statements_end_in_one_semicolon(sql: Seq<char>)
    ensures
        ({
            let line = statement_line(sql);
            let n = line.len() as int;
            &&& n >= 2 && line[n - 2] == ';' && line[n - 1] == '\n'
            &&& n >= 3 ==> line[n - 3] != ';'
            &&& n - 2 <= sql.len() && line.take(n - 2) == sql.take(n - 2)
        }),
{
    reveal_strlit(";\n");
    law_end_marks_are_taken_off(sql, ';');
    let rest = trim_end_mark(sql, ';');
    let line = statement_line(sql);
    assert(line.take(line.len() - 2) =~= rest);
}

/// A dump says what it is: of which table, or of the whole database; and every dump of a server sets
/// the encoding of its texts before anything else is read.
pub proof fn law_dumps_say_what_they_are(
    objects: Seq<NetworkObject>,
    table: Option<Seq<char>>,
    schema_only: bool,
    name: Seq<char>,
)
    ensures
        sqlite_header(Some(name)) == "-- Luna Mux dump: "@ + name + "\n\n"@,
        ({
            let m = mysql_steps(objects, table, schema_only);
            let p = postgres_steps(objects, table, schema_only);
            let at: int = if names_of(objects, false).len() > 0 {
                1
            } else {
                0
            };
            &&& m.len() >= at + 2 && p.len() >= at + 2
            &&& m[at] == StepView::Write(mysql_header(table)) && m[at + 1] == StepView::Write(
                "SET NAMES utf8mb4;\n\n"@,
            )
            &&& p[at] == StepView::Write(postgres_header(table)) && p[at + 1] == StepView::Write(
                "SET client_encoding = 'UTF8';\n\n"@,
            )
            &&& at == 1 ==> m[0] == (StepView::Report {
                current: 0,
                total: names_of(objects, false).len(),
                done: None,
            })
        }),
{
}

} // verus!
