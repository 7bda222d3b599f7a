//! What the PostgreSQL driver sends and receives: statements, rows of text, and values in dumps.
use vstd::prelude::*;
use vstd::string::*;

use crate::dump_plan::{opt_str, NetworkObject};
use crate::sql_dump::{row_of, row_text, trim_end_mark, without_end_mark};
use crate::sql_text::{
    identifier, law_quoted_names_read_back, law_quoted_names_show_their_end, sql_identifier,
    sql_string_literal, string_literal, unquoted,
};
use crate::text::{
    contains, copy_opt, has_prefix, join, joined, lowered, occurs_at, opt_view, push_text, same,
    starts_with, to_chars, to_lower, views,
};

verus! {

/// A row of a result: each value as text, or nothing for `NULL`.
pub type TextRow = Vec<Option<String>>;

/// A name between double quotes.
pub fn postgres_quote_ident(name: &str) -> (r: String)
    ensures
        r@ == identifier('"', name@),
{
    sql_identifier('"', name)
}

/// A table by its exact name, as a `regclass`.
pub open spec fn relclass(name: Seq<char>) -> Seq<char> {
    string_literal(identifier('"', name)) + "::regclass"@
}

/// A table by its exact name, as a `regclass`.
pub fn postgres_relclass(name: &str) -> (r: String)
    ensures
        r@ == relclass(name@),
{
    let mut r: String = sql_string_literal(postgres_quote_ident(name).as_str());
    r.append("::regclass");
    r
}

/// The text at a place of a row; `NULL` and a missing place both give nothing.
pub open spec fn row_item(row: Seq<Option<String>>, place: int) -> Option<Seq<char>> {
    if 0 <= place < row.len() {
        opt_view(row[place])
    } else {
        None
    }
}

/// The text at a place of a row.
pub fn text_at(row: &TextRow, place: usize) -> (r: Option<String>)
    ensures
        opt_view(r) == row_item(row@, place as int),
{
    if place < row.len() {
        copy_opt(&row[place])
    } else {
        None
    }
}

/// A text that may be missing, read as empty.
pub open spec fn or_empty(text: Option<Seq<char>>) -> Seq<char> {
    match text {
        Some(s) => s,
        None => Seq::empty(),
    }
}

fn text_or_empty(row: &TextRow, place: usize) -> (r: String)
    ensures
        r@ == or_empty(row_item(row@, place as int)),
{
    match text_at(row, place) {
        Some(s) => s,
        None => String::new(),
    }
}

fn text_is(row: &TextRow, place: usize, word: &str) -> (r: bool)
    ensures
        r == (row_item(row@, place as int) == Some(word@)),
{
    match text_at(row, place) {
        Some(s) => same(s.as_str(), word),
        None => false,
    }
}

/// A column of a table. `serial` is the pseudo-type of a column whose default came from a sequence,
/// and `identity` marks a generated column.
#[derive(Debug)]
pub struct PostgresColumn {
    pub name: String,
    pub type_sql: String,
    pub not_null: bool,
    pub default: Option<String>,
    pub serial: Option<&'static str>,
    pub identity: bool,
}

/// What is known of a column of a table.
pub ghost struct ColumnView {
    pub name: Seq<char>,
    pub type_sql: Seq<char>,
    pub not_null: bool,
    pub default: Option<Seq<char>>,
    pub serial: Option<Seq<char>>,
    pub identity: bool,
}

impl View for PostgresColumn {
    type V = ColumnView;

    open spec fn view(&self) -> ColumnView {
        ColumnView {
            name: self.name@,
            type_sql: self.type_sql@,
            not_null: self.not_null,
            default: opt_view(self.default),
            serial: match self.serial {
                Some(s) => Some(s@),
                None => None,
            },
            identity: self.identity,
        }
    }
}

/// The view of each column.
pub open spec fn column_views(columns: Seq<PostgresColumn>) -> Seq<ColumnView> {
    columns.map_values(|c: PostgresColumn| c@)
}

impl ColumnView {
    /// The column as `CREATE TABLE` lists it. Generated columns come back as `BY DEFAULT`, which
    /// takes the values that a dump has to insert.
    pub open spec fn definition(self) -> Seq<char> {
        let base = "  "@ + identifier('"', self.name) + " "@ + (match self.serial {
            Some(s) => s,
            None => self.type_sql,
        });
        let generated = if self.identity {
            base + " GENERATED BY DEFAULT AS IDENTITY"@
        } else {
            base
        };
        let checked = if self.not_null {
            generated + " NOT NULL"@
        } else {
            generated
        };
        if self.serial is None && !self.identity && self.default is Some {
            checked + (" DEFAULT "@ + self.default->0)
        } else {
            checked
        }
    }

    /// A sequence stands behind the column.
    pub open spec fn has_sequence(self) -> bool {
        self.identity || self.serial is Some
    }
}

impl PostgresColumn {
    /// Whether the column holds bytes.
    pub fn is_bytea(&self) -> (r: bool)
        ensures
            r == (self@.type_sql == "bytea"@),
    {
        same(self.type_sql.as_str(), "bytea")
    }

    /// The column as `CREATE TABLE` lists it.
    pub fn definition(&self) -> (r: String)
        ensures
            r@ == self@.definition(),
    {
        let mut definition: String = "  ".to_owned();
        definition.append(postgres_quote_ident(self.name.as_str()).as_str());
        definition.append(" ");
        match self.serial {
            Some(serial) => definition.append(serial),
            None => definition.append(self.type_sql.as_str()),
        }
        if self.identity {
            definition.append(" GENERATED BY DEFAULT AS IDENTITY");
        }
        if self.not_null {
            definition.append(" NOT NULL");
        }
        if self.serial.is_none() && !self.identity {
            match &self.default {
                Some(default) => {
                    let mut clause: String = " DEFAULT ".to_owned();
                    clause.append(default.as_str());
                    definition.append(clause.as_str());
                },
                None => {},
            }
        }
        definition
    }

    /// Whether a sequence stands behind the column.
    pub fn needs_sequence_reset(&self) -> (r: bool)
        ensures
            r == self@.has_sequence(),
    {
        self.identity || self.serial.is_some()
    }
}

/// The pseudo-type of a column with this type and default.
pub open spec fn serial_type(type_sql: Seq<char>, default: Option<Seq<char>>) -> Option<Seq<char>> {
    if !(default is Some && starts_with(default->0, "nextval("@)) {
        None
    } else if type_sql == "smallint"@ {
        Some("smallserial"@)
    } else if type_sql == "integer"@ {
        Some("serial"@)
    } else if type_sql == "bigint"@ {
        Some("bigserial"@)
    } else {
        None
    }
}

/// The pseudo-type of a column: a default from a sequence means that it was declared serial.
pub fn postgres_serial_type(type_sql: &str, default: Option<&str>) -> (r: Option<&'static str>)
    ensures
        opt_str(r) == serial_type(type_sql@, opt_str(default)),
{
    match default {
        Some(text) => if !has_prefix(text, "nextval(") {
            return None;
        },
        None => {
            return None;
        },
    }
    if same(type_sql, "smallint") {
        Some("smallserial")
    } else if same(type_sql, "integer") {
        Some("serial")
    } else if same(type_sql, "bigint") {
        Some("bigserial")
    } else {
        None
    }
}

/// The statement that lists the tables and views, or looks up one of them.
pub open spec fn objects_statement(table: Option<Seq<char>>) -> Seq<char> {
    let base = "SELECT table_name, table_type FROM information_schema.tables WHERE table_schema = current_schema()"@;
    match table {
        Some(name) => base + " AND table_name = "@ + string_literal(name)
            + " ORDER BY table_type, table_name"@,
        None => base + " ORDER BY table_type, table_name"@,
    }
}

/// The statement that lists the tables and views, or looks up one of them.
pub fn postgres_dump_objects_sql(table: Option<&str>) -> (r: String)
    ensures
        r@ == objects_statement(opt_str(table)),
{
    let mut sql: String = "SELECT table_name, table_type FROM information_schema.tables WHERE table_schema = current_schema()".to_owned();
    match table {
        Some(name) => {
            sql.append(" AND table_name = ");
            sql.append(sql_string_literal(name).as_str());
        },
        None => {},
    }
    sql.append(" ORDER BY table_type, table_name");
    sql
}

/// The word for a view, in any case.
pub open spec fn says_view(kind: Seq<char>) -> bool {
    to_lower(kind) == "view"@
}

/// A table or a view by its name and the word for its kind.
pub fn network_object(name: String, kind: &str) -> (r: NetworkObject)
    ensures
        r.name@ == name@,
        r.is_view == says_view(kind@),
{
    let lower = lowered(kind);
    NetworkObject { name, is_view: same(lower.as_str(), "view") }
}

/// The object that a row lists.
pub open spec fn is_object_of(object: NetworkObject, row: Seq<Option<String>>) -> bool {
    &&& object.name@ == or_empty(row_item(row, 0))
    &&& object.is_view == (row_item(row, 1) is Some && says_view(row_item(row, 1)->0))
}

/// The tables and views that the rows list.
pub fn postgres_dump_objects(rows: &[TextRow]) -> (r: Vec<NetworkObject>)
    ensures
        r@.len() == rows@.len(),
        forall|i: int| 0 <= i < r@.len() ==> is_object_of(#[trigger] r@[i], rows@[i]@),
{
    let mut r: Vec<NetworkObject> = Vec::new();
    let mut i: usize = 0;
    while i < rows.len()
        invariant
            i <= rows@.len(),
            r@.len() == i,
            forall|j: int| 0 <= j < i ==> is_object_of(#[trigger] r@[j], rows@[j]@),
        decreases rows@.len() - i,
    {
        let name = text_or_empty(&rows[i], 0);
        let object = match text_at(&rows[i], 1) {
            Some(kind) => network_object(name, kind.as_str()),
            None => NetworkObject { name, is_view: false },
        };
        r.push(object);
        i = i + 1;
    }
    r
}

/// The statement that describes the columns of a table.
pub fn postgres_table_columns_sql(table: &str) -> (r: String)
    ensures
        r@ == "SELECT a.attname, format_type(a.atttypid, a.atttypmod), a.attnotnull, a.attidentity, pg_get_expr(d.adbin, d.adrelid) FROM pg_attribute a LEFT JOIN pg_attrdef d ON d.adrelid = a.attrelid AND d.adnum = a.attnum WHERE a.attrelid = "@
            + relclass(table@) + " AND a.attnum > 0 AND NOT a.attisdropped ORDER BY a.attnum"@,
{
    let mut sql: String = "SELECT a.attname, format_type(a.atttypid, a.atttypmod), a.attnotnull, a.attidentity, pg_get_expr(d.adbin, d.adrelid) FROM pg_attribute a LEFT JOIN pg_attrdef d ON d.adrelid = a.attrelid AND d.adnum = a.attnum WHERE a.attrelid = ".to_owned();
    sql.append(postgres_relclass(table).as_str());
    sql.append(" AND a.attnum > 0 AND NOT a.attisdropped ORDER BY a.attnum");
    sql
}

/// The column that a row describes.
pub open spec fn column_of(row: Seq<Option<String>>) -> ColumnView {
    ColumnView {
        name: or_empty(row_item(row, 0)),
        type_sql: or_empty(row_item(row, 1)),
        not_null: row_item(row, 2) == Some("t"@),
        default: row_item(row, 4),
        serial: serial_type(or_empty(row_item(row, 1)), row_item(row, 4)),
        identity: row_item(row, 3) == Some("a"@) || row_item(row, 3) == Some("d"@),
    }
}

/// The columns that the rows describe.
pub open spec fn columns_of(rows: Seq<TextRow>) -> Seq<ColumnView> {
    rows.map_values(|row: TextRow| column_of(row@))
}

/// The columns that the rows describe.
pub fn postgres_table_columns(rows: &[TextRow]) -> (r: Vec<PostgresColumn>)
    ensures
        column_views(r@) == columns_of(rows@),
{
    let mut r: Vec<PostgresColumn> = Vec::new();
    let mut i: usize = 0;
    while i < rows.len()
        invariant
            i <= rows@.len(),
            column_views(r@) == columns_of(rows@.take(i as int)),
        decreases rows@.len() - i,
    {
        let row = &rows[i];
        let type_sql = text_or_empty(row, 1);
        let default = text_at(row, 4);
        let serial = match &default {
            Some(text) => postgres_serial_type(type_sql.as_str(), Some(text.as_str())),
            None => None,
        };
        let identity = text_is(row, 3, "a") || text_is(row, 3, "d");
        let column = PostgresColumn {
            name: text_or_empty(row, 0),
            type_sql,
            not_null: text_is(row, 2, "t"),
            default,
            serial,
            identity,
        };
        assert(column@ == column_of(rows@[i as int]@));
        let ghost before = column_views(r@);
        let ghost added = column@;
        r.push(column);
        assert(column_views(r@) =~= before.push(added));
        assert(columns_of(rows@.take(i + 1)) =~= columns_of(rows@.take(i as int)).push(added));
        i = i + 1;
    }
    assert(rows@.take(i as int) =~= rows@);
    r
}

/// The statement that lists the indexes of a table; those behind a constraint come back with it.
pub fn postgres_table_indexes_sql(table: &str) -> (r: String)
    ensures
        r@ == "SELECT pg_get_indexdef(i.indexrelid) FROM pg_index i WHERE i.indrelid = "@
            + relclass(table@)
            + " AND NOT i.indisprimary AND NOT EXISTS (SELECT 1 FROM pg_constraint c WHERE c.conindid = i.indexrelid) ORDER BY i.indexrelid"@,
{
    let mut sql: String = "SELECT pg_get_indexdef(i.indexrelid) FROM pg_index i WHERE i.indrelid = ".to_owned();
    sql.append(postgres_relclass(table).as_str());
    sql.append(" AND NOT i.indisprimary AND NOT EXISTS (SELECT 1 FROM pg_constraint c WHERE c.conindid = i.indexrelid) ORDER BY i.indexrelid");
    sql
}

/// The texts in the first place of the rows that have one.
pub open spec fn first_texts(rows: Seq<TextRow>) -> Seq<Seq<char>>
    decreases rows.len(),
{
    if rows.len() == 0 {
        Seq::empty()
    } else {
        let rest = first_texts(rows.drop_last());
        match row_item(rows.last()@, 0) {
            Some(text) => rest.push(text),
            None => rest,
        }
    }
}

/// The index definitions that the rows list.
pub fn postgres_table_indexes(rows: &[TextRow]) -> (r: Vec<String>)
    ensures
        views(r@) == first_texts(rows@),
{
    let mut r: Vec<String> = Vec::new();
    let mut i: usize = 0;
    assert(views(r@) =~= first_texts(rows@.take(0)));
    while i < rows.len()
        invariant
            i <= rows@.len(),
            views(r@) == first_texts(rows@.take(i as int)),
        decreases rows@.len() - i,
    {
        proof {
            assert(rows@.take(i + 1).drop_last() =~= rows@.take(i as int));
        }
        match text_at(&rows[i], 0) {
            Some(text) => push_text(&mut r, text),
            None => {},
        }
        i = i + 1;
    }
    assert(rows@.take(i as int) =~= rows@);
    r
}

/// The statement that lists the constraints of a table.
pub fn postgres_table_constraints_sql(table: &str) -> (r: String)
    ensures
        r@ == "SELECT conname, contype::text, pg_get_constraintdef(oid) FROM pg_constraint WHERE conrelid = "@
            + relclass(table@) + " AND contype IN ('p','u','c','f') ORDER BY contype, conname"@,
{
    let mut sql: String = "SELECT conname, contype::text, pg_get_constraintdef(oid) FROM pg_constraint WHERE conrelid = ".to_owned();
    sql.append(postgres_relclass(table).as_str());
    sql.append(" AND contype IN ('p','u','c','f') ORDER BY contype, conname");
    sql
}

/// The statement that adds a constraint.
pub open spec fn constraint_line(
    table: Seq<char>,
    name: Seq<char>,
    definition: Seq<char>,
) -> Seq<char> {
    "ALTER TABLE "@ + identifier('"', table) + " ADD CONSTRAINT "@ + identifier('"', name) + " "@
        + definition + ";\n"@
}

/// A row names a constraint, a foreign key or another one.
pub open spec fn is_constraint(row: Seq<Option<String>>, foreign: bool) -> bool {
    row_item(row, 0) is Some && row_item(row, 1) is Some && row_item(row, 2) is Some && (row_item(
        row,
        1,
    )->0 == "f"@) == foreign
}

/// The statements for the foreign keys among the constraints, or for the others.
pub open spec fn constraint_text(table: Seq<char>, rows: Seq<TextRow>, foreign: bool) -> Seq<char>
    decreases rows.len(),
{
    if rows.len() == 0 {
        Seq::empty()
    } else {
        let rest = constraint_text(table, rows.drop_last(), foreign);
        let last = rows.last()@;
        if is_constraint(last, foreign) {
            rest + constraint_line(table, row_item(last, 0)->0, row_item(last, 2)->0)
        } else {
            rest
        }
    }
}

/// The statements for the foreign keys that the rows list, or for the other constraints.
pub fn postgres_table_constraints(table: &str, rows: &[TextRow], foreign: bool) -> (r: String)
    ensures
        r@ == constraint_text(table@, rows@, foreign),
{
    let mut out: String = String::new();
    let mut i: usize = 0;
    assert(out@ =~= constraint_text(table@, rows@.take(0), foreign));
    while i < rows.len()
        invariant
            i <= rows@.len(),
            out@ == constraint_text(table@, rows@.take(i as int), foreign),
        decreases rows@.len() - i,
    {
        proof {
            assert(rows@.take(i + 1).drop_last() =~= rows@.take(i as int));
        }
        match (text_at(&rows[i], 0), text_at(&rows[i], 1), text_at(&rows[i], 2)) {
            (Some(name), Some(kind), Some(definition)) => {
                if same(kind.as_str(), "f") == foreign {
                    let mut line: String = "ALTER TABLE ".to_owned();
                    line.append(postgres_quote_ident(table).as_str());
                    line.append(" ADD CONSTRAINT ");
                    line.append(postgres_quote_ident(name.as_str()).as_str());
                    line.append(" ");
                    line.append(definition.as_str());
                    line.append(";\n");
                    out.append(line.as_str());
                }
            },
            _ => {},
        }
        i = i + 1;
    }
    assert(rows@.take(i as int) =~= rows@);
    out
}

/// The statement that shows the definition of a view.
pub fn postgres_view_definition_sql(view: &str) -> (r: String)
    ensures
        r@ == "SELECT pg_get_viewdef("@ + relclass(view@) + ", true)"@,
{
    let mut sql: String = "SELECT pg_get_viewdef(".to_owned();
    sql.append(postgres_relclass(view).as_str());
    sql.append(", true)");
    sql
}

/// The definition that the server showed for a view.
pub open spec fn shown_definition(rows: Seq<TextRow>) -> Option<Seq<char>> {
    if rows.len() > 0 {
        row_item(rows[0]@, 0)
    } else {
        None
    }
}

/// A view in a dump, given what the server showed.
pub fn postgres_view_text(view: &str, rows: &[TextRow]) -> (r: Result<String, String>)
    ensures
        match shown_definition(rows@) {
            None => r is Err && r->Err_0@ == "无法读取视图 "@ + view@ + " 的定义"@,
            Some(definition) => r is Ok && r->Ok_0@ == "DROP VIEW IF EXISTS "@ + identifier(
                '"',
                view@,
            ) + ";\nCREATE VIEW "@ + identifier('"', view@) + " AS "@ + trim_end_mark(
                definition,
                ';',
            ) + ";\n"@,
        },
{
    let shown = if rows.len() > 0 {
        text_at(&rows[0], 0)
    } else {
        None
    };
    match shown {
        None => {
            let mut message: String = "无法读取视图 ".to_owned();
            message.append(view);
            message.append(" 的定义");
            Err(message)
        },
        Some(definition) => {
            let quoted = postgres_quote_ident(view);
            let mut out: String = "DROP VIEW IF EXISTS ".to_owned();
            out.append(quoted.as_str());
            out.append(";\nCREATE VIEW ");
            out.append(quoted.as_str());
            out.append(" AS ");
            out.append(without_end_mark(definition.as_str(), ';').as_str());
            out.append(";\n");
            Ok(out)
        },
    }
}

/// The definitions of the columns.
pub open spec fn definitions(columns: Seq<ColumnView>) -> Seq<Seq<char>> {
    columns.map_values(|c: ColumnView| c.definition())
}

/// A table in a dump.
pub fn postgres_table_text(table: &str, columns: &[PostgresColumn]) -> (r: String)
    ensures
        r@ == "DROP TABLE IF EXISTS "@ + identifier('"', table@) + ";\nCREATE TABLE "@ + identifier(
            '"',
            table@,
        ) + " (\n"@ + join(definitions(column_views(columns@)), ",\n"@) + "\n);\n\n"@,
{
    let mut list: Vec<String> = Vec::new();
    let ghost all = definitions(column_views(columns@));
    let mut i: usize = 0;
    assert(views(list@) =~= all.take(0));
    while i < columns.len()
        invariant
            i <= columns@.len(),
            all == definitions(column_views(columns@)),
            views(list@) == all.take(i as int),
        decreases columns@.len() - i,
    {
        push_text(&mut list, columns[i].definition());
        assert(views(list@) =~= all.take(i + 1));
        i = i + 1;
    }
    assert(all.take(i as int) =~= all);
    let quoted = postgres_quote_ident(table);
    let mut out: String = "DROP TABLE IF EXISTS ".to_owned();
    out.append(quoted.as_str());
    out.append(";\nCREATE TABLE ");
    out.append(quoted.as_str());
    out.append(" (\n");
    out.append(joined(list.as_slice(), ",\n").as_str());
    out.append("\n);\n\n");
    out
}

/// The characters of a literal: quotes are doubled, and backslashes too in the `E'...'` form.
pub open spec fn escape(text: Seq<char>, escaped: bool) -> Seq<char>
    decreases text.len(),
{
    if text.len() == 0 {
        text
    } else {
        escape(text.drop_last(), escaped) + (if text.last() == '\'' {
            "''"@
        } else if text.last() == '\\' && escaped {
            "\\\\"@
        } else {
            seq![text.last()]
        })
    }
}

/// The `E'...'` form is used: for bytes, and for anything that holds a backslash.
pub open spec fn needs_escape(text: Seq<char>, bytea: bool) -> bool {
    bytea || text.contains('\\')
}

/// The literal of a value.
pub open spec fn dump_value(value: Option<Seq<char>>, bytea: bool) -> Seq<char> {
    match value {
        None => "NULL"@,
        Some(text) => (if needs_escape(text, bytea) {
            "E'"@
        } else {
            "'"@
        }) + escape(text, needs_escape(text, bytea)) + "'"@,
    }
}

fn has_backslash(text: &str) -> (r: bool)
    ensures
        r == text@.contains('\\'),
{
    let chars = to_chars(text);
    let mut i: usize = 0;
    while i < chars.len()
        invariant
            chars@ == text@,
            i <= chars@.len(),
            forall|j: int| 0 <= j < i ==> #[trigger] text@[j] != '\\',
        decreases chars@.len() - i,
    {
        if chars[i] == '\\' {
            assert(text@[i as int] == '\\');
            return true;
        }
        i = i + 1;
    }
    false
}

/// The literal of a value: every value arrives as text, and the type of its column reads it back.
pub fn postgres_dump_value(value: Option<&str>, bytea: bool) -> (r: String)
    ensures
        r@ == dump_value(opt_str(value), bytea),
{
    let text = match value {
        None => {
            return "NULL".to_owned();
        },
        Some(text) => text,
    };
    let escaped = bytea || has_backslash(text);
    let mut out: String = if escaped {
        "E'".to_owned()
    } else {
        "'".to_owned()
    };
    let ghost open = out@;
    let chars = to_chars(text);
    let mut i: usize = 0;
    assert(out@ =~= open + escape(text@.take(0), escaped));
    while i < chars.len()
        invariant
            chars@ == text@,
            i <= chars@.len(),
            out@ == open + escape(text@.take(i as int), escaped),
        decreases chars@.len() - i,
    {
        let c: char = chars[i];
        if c == '\'' {
            out.append("''");
        } else if c == '\\' && escaped {
            out.append("\\\\");
        } else {
            out.push(c);
        }
        proof {
            assert(text@.take(i + 1).drop_last() =~= text@.take(i as int));
            assert(out@ =~= open + escape(text@.take(i + 1), escaped));
        }
        i = i + 1;
    }
    assert(text@.take(i as int) =~= text@);
    out.append("'");
    out
}

/// The first column with this name holds bytes.
pub open spec fn holds_bytes(columns: Seq<ColumnView>, name: Seq<char>) -> bool
    decreases columns.len(),
{
    if columns.len() == 0 {
        false
    } else if columns[0].name == name {
        columns[0].type_sql == "bytea"@
    } else {
        holds_bytes(columns.skip(1), name)
    }
}

fn column_holds_bytes(columns: &[PostgresColumn], name: &str) -> (r: bool)
    ensures
        r == holds_bytes(column_views(columns@), name@),
{
    let ghost all = column_views(columns@);
    let mut i: usize = 0;
    assert(all.skip(0) =~= all);
    while i < columns.len()
        invariant
            i <= columns@.len(),
            all == column_views(columns@),
            holds_bytes(all, name@) == holds_bytes(all.skip(i as int), name@),
        decreases columns@.len() - i,
    {
        assert(all.skip(i as int)[0] == columns@[i as int]@);
        if same(columns[i].name.as_str(), name) {
            return columns[i].is_bytea();
        }
        assert(all.skip(i as int).skip(1) =~= all.skip(i + 1));
        i = i + 1;
    }
    false
}

/// The literals of the values of a row, in the order of the names.
pub open spec fn dump_values(
    row: Seq<Option<String>>,
    names: Seq<Seq<char>>,
    columns: Seq<ColumnView>,
) -> Seq<Seq<char>> {
    Seq::new(
        names.len(),
        |i: int| dump_value(row_item(row, i), holds_bytes(columns, names[i])),
    )
}

/// A row of PostgreSQL values.
pub fn postgres_row(row: &TextRow, names: &[String], columns: &[PostgresColumn]) -> (r: String)
    ensures
        r@ == row_text(dump_values(row@, views(names@), column_views(columns@))),
{
    let ghost all = dump_values(row@, views(names@), column_views(columns@));
    let mut literals: Vec<String> = Vec::new();
    let mut i: usize = 0;
    assert(views(literals@) =~= all.take(0));
    while i < names.len()
        invariant
            i <= names@.len(),
            all == dump_values(row@, views(names@), column_views(columns@)),
            views(literals@) == all.take(i as int),
        decreases names@.len() - i,
    {
        let bytea = column_holds_bytes(columns, names[i].as_str());
        let literal = match text_at(row, i) {
            Some(text) => postgres_dump_value(Some(text.as_str()), bytea),
            None => postgres_dump_value(None, bytea),
        };
        push_text(&mut literals, literal);
        assert(views(literals@) =~= all.take(i + 1));
        i = i + 1;
    }
    assert(all.take(i as int) =~= all);
    row_of(literals.as_slice())
}

/// The statement that sets the sequence behind a column past the rows of the table.
pub open spec fn sequence_reset(table: Seq<char>, column: Seq<char>) -> Seq<char> {
    "SELECT setval(pg_get_serial_sequence("@ + string_literal(identifier('"', table)) + ", "@
        + string_literal(column) + "), COALESCE(MAX("@ + identifier('"', column) + "), 1), COUNT("@
        + identifier('"', column) + ") > 0) FROM "@ + identifier('"', table) + ";"@
}

/// The statement that sets the sequence behind a column past the rows of the table.
pub fn postgres_sequence_reset(table: &str, column: &PostgresColumn) -> (r: String)
    ensures
        r@ == sequence_reset(table@, column@.name),
{
    let name = postgres_quote_ident(column.name.as_str());
    let quoted = postgres_quote_ident(table);
    let mut sql: String = "SELECT setval(pg_get_serial_sequence(".to_owned();
    sql.append(sql_string_literal(quoted.as_str()).as_str());
    sql.append(", ");
    sql.append(sql_string_literal(column.name.as_str()).as_str());
    sql.append("), COALESCE(MAX(");
    sql.append(name.as_str());
    sql.append("), 1), COUNT(");
    sql.append(name.as_str());
    sql.append(") > 0) FROM ");
    sql.append(quoted.as_str());
    sql.append(";");
    sql
}

/// The statements for all sequences of a table, each on its line.
pub open spec fn sequence_lines(table: Seq<char>, columns: Seq<ColumnView>) -> Seq<char>
    decreases columns.len(),
{
    if columns.len() == 0 {
        Seq::empty()
    } else {
        let rest = sequence_lines(table, columns.drop_last());
        if columns.last().has_sequence() {
            rest + (sequence_reset(table, columns.last().name) + "\n"@)
        } else {
            rest
        }
    }
}

/// The statements for all sequences of a table.
pub fn postgres_sequence_text(table: &str, columns: &[PostgresColumn]) -> (r: String)
    ensures
        r@ == sequence_lines(table@, column_views(columns@)),
{
    let ghost all = column_views(columns@);
    let mut out: String = String::new();
    let mut i: usize = 0;
    assert(out@ =~= sequence_lines(table@, all.take(0)));
    while i < columns.len()
        invariant
            i <= columns@.len(),
            all == column_views(columns@),
            out@ == sequence_lines(table@, all.take(i as int)),
        decreases columns@.len() - i,
    {
        proof {
            assert(all.take(i + 1).drop_last() =~= all.take(i as int));
        }
        if columns[i].needs_sequence_reset() {
            let mut line = postgres_sequence_reset(table, &columns[i]);
            line.append("\n");
            out.append(line.as_str());
        }
        i = i + 1;
    }
    assert(all.take(i as int) =~= all);
    out
}

/// The text that the characters of an `E'...'` literal stand for.
pub open spec fn unescaped(s: Seq<char>, escaped: bool) -> Option<Seq<char>>
    decreases s.len(),
{
    if s.len() == 0 {
        Some(s)
    } else if s.len() >= 2 && s[s.len() - 2] == s.last() && (s.last() == '\'' || (s.last() == '\\'
        && escaped)) {
        match unescaped(s.take(s.len() - 2), escaped) {
            Some(rest) => Some(rest.push(s.last())),
            None => None,
        }
    } else if s.last() == '\'' || (s.last() == '\\' && escaped) {
        None
    } else {
        match unescaped(s.drop_last(), escaped) {
            Some(rest) => Some(rest.push(s.last())),
            None => None,
        }
    }
}

/// The characters of a literal stand for the value that was written.
pub proof fn law_dumped_values_read_back(text: Seq<char>, escaped: bool)
    ensures
        unescaped(escape(text, escaped), escaped) == Some(text),
    decreases text.len(),
{
    if text.len() > 0 {
        let front = text.drop_last();
        law_dumped_values_read_back(front, escaped);
        let whole = escape(text, escaped);
        let before = escape(front, escaped);
        reveal_strlit("''");
        reveal_strlit("\\\\");
        if text.last() == '\'' || (text.last() == '\\' && escaped) {
            assert(whole.take(whole.len() - 2) =~= before);
            assert(whole.last() == text.last());
            assert(whole[whole.len() - 2] == text.last());
        } else {
            assert(whole.drop_last() =~= before);
            assert(whole.last() == text.last());
        }
        assert(front.push(text.last()) =~= text);
    }
}

/// What follows the name of a plain column: its type, whether it takes `NULL`, and its default.
pub open spec fn column_tail(type_sql: Seq<char>, not_null: bool, default: Option<Seq<char>>) -> Seq<
    char,
> {
    let checked = if not_null {
        type_sql + " NOT NULL"@
    } else {
        type_sql
    };
    match default {
        Some(d) => checked + " DEFAULT "@ + d,
        None => checked,
    }
}

/// A column without a sequence keeps its name, its type, its `NOT NULL` and its default, each of
/// them whatever the others are; with a default the definition ends in it.
pub proof fn law_columns_keep_their_default(c: ColumnView)
    requires
        c.serial is None,
        !c.identity,
    ensures
        c.definition() == "  "@ + identifier('"', c.name) + " "@ + column_tail(
            c.type_sql,
            c.not_null,
            c.default,
        ),
        c.default matches Some(d) ==> {
            let text = c.definition();
            let clause = " DEFAULT "@ + d;
            &&& text.len() >= clause.len()
            &&& text.skip(text.len() - clause.len()) == clause
        },
{
    let text = c.definition();
    assert(text =~= "  "@ + identifier('"', c.name) + " "@ + column_tail(
        c.type_sql,
        c.not_null,
        c.default,
    ));
    if c.default is Some {
        let clause = " DEFAULT "@ + c.default->0;
        assert(text.skip(text.len() - clause.len()) =~= clause);
    }
}

/// A column with a sequence behind it has no default of its own in a dump: the pseudo-type or the
/// word for a generated column brings the sequence back, and `NOT NULL` stays.
pub proof fn law_sequences_come_back(c: ColumnView)
    requires
        c.serial is Some || c.identity,
    ensures
        ({
            let kind = match c.serial {
                Some(s) => s,
                None => c.type_sql,
            };
            let generated = if c.identity {
                kind + " GENERATED BY DEFAULT AS IDENTITY"@
            } else {
                kind
            };
            c.definition() == "  "@ + identifier('"', c.name) + " "@ + column_tail(
                generated,
                c.not_null,
                None,
            )
        }),
        c.has_sequence(),
{
    let kind = match c.serial {
        Some(s) => s,
        None => c.type_sql,
    };
    let generated = if c.identity {
        kind + " GENERATED BY DEFAULT AS IDENTITY"@
    } else {
        kind
    };
    assert(c.definition() =~= "  "@ + identifier('"', c.name) + " "@ + column_tail(
        generated,
        c.not_null,
        None,
    ));
}

/// A type as the server writes it: it holds neither of the words that may follow a type.
pub open spec fn is_bare_type(type_sql: Seq<char>) -> bool {
    !contains(type_sql, " NOT NULL"@) && !contains(type_sql, " DEFAULT"@)
}

proof fn lemma_bare_types_end(
    one: Seq<char>,
    one_not_null: bool,
    one_default: Option<Seq<char>>,
    other: Seq<char>,
    other_not_null: bool,
    other_default: Option<Seq<char>>,
)
    requires
        is_bare_type(other),
        column_tail(one, one_not_null, one_default) == column_tail(
            other,
            other_not_null,
            other_default,
        ),
    ensures
        one.len() >= other.len(),
{
    let a = column_tail(one, one_not_null, one_default);
    let b = column_tail(other, other_not_null, other_default);
    let n = one.len() as int;
    let m = other.len() as int;
    reveal_strlit(" NOT NULL");
    reveal_strlit(" DEFAULT");
    reveal_strlit(" DEFAULT ");
    if n < m {
        assert(a.len() == b.len());
        assert forall|i: int| n <= i < m implies a[i] == #[trigger] other[i] by {
            assert(b[i] == other[i]);
        }
        if one_not_null {
            assert forall|i: int| 0 <= i < 9 implies a[n + i] == #[trigger] " NOT NULL"@[i] by {}
            if m >= n + 9 {
                assert(other.subrange(n, n + 9) =~= " NOT NULL"@) by {
                    assert forall|i: int| 0 <= i < 9 implies #[trigger] other.subrange(n, n + 9)[i]
                        == " NOT NULL"@[i] by {
                        assert(other[n + i] == a[n + i]);
                        assert(a[n + i] == " NOT NULL"@[i]);
                    }
                }
                assert(occurs_at(other, " NOT NULL"@, n));
                assert(false);
            }
            assert(b[m] == ' ');
            assert(a[m] == " NOT NULL"@[m - n]);
            assert(m == n + 4);
            assert(a[m + 1] == " NOT NULL"@[5]);
            assert(a[m + 2] == " NOT NULL"@[6]);
            if other_not_null {
                assert(b[m + 2] == " NOT NULL"@[2]);
            } else {
                assert(b[m + 1] == " DEFAULT "@[1]);
            }
        } else if one_default is Some {
            assert forall|i: int| 0 <= i < 9 implies a[n + i] == #[trigger] " DEFAULT "@[i] by {}
            if m >= n + 8 {
                assert(other.subrange(n, n + 8) =~= " DEFAULT"@) by {
                    assert forall|i: int| 0 <= i < 8 implies #[trigger] other.subrange(n, n + 8)[i]
                        == " DEFAULT"@[i] by {
                        assert(other[n + i] == a[n + i]);
                        assert(a[n + i] == " DEFAULT "@[i]);
                    }
                }
                assert(occurs_at(other, " DEFAULT"@, n));
                assert(false);
            }
            assert(b[m] == ' ');
            assert(a[m] == " DEFAULT "@[m - n]);
        }
    }
}

/// Columns can be told apart by their definitions: the name, the type, `NOT NULL` and the default
/// of a column without a sequence are read back from its definition.
pub proof fn law_column_definitions_read_back(one: ColumnView, other: ColumnView)
    requires
        one.serial is None && !one.identity && is_bare_type(one.type_sql),
        other.serial is None && !other.identity && is_bare_type(other.type_sql),
        one.definition() == other.definition(),
    ensures
        one == other,
{
    law_columns_keep_their_default(one);
    law_columns_keep_their_default(other);
    let a = column_tail(one.type_sql, one.not_null, one.default);
    let b = column_tail(other.type_sql, other.not_null, other.default);
    reveal_strlit("  ");
    reveal_strlit(" ");
    reveal_strlit(" NOT NULL");
    reveal_strlit(" DEFAULT ");
    assert(one.definition().skip(2) =~= identifier('"', one.name) + (" "@ + a));
    assert(other.definition().skip(2) =~= identifier('"', other.name) + (" "@ + b));
    law_quoted_names_show_their_end(one.name, other.name, '"', " "@ + a, " "@ + b);
    assert((" "@ + a).skip(1) =~= a);
    assert((" "@ + b).skip(1) =~= b);
    lemma_bare_types_end(
        one.type_sql,
        one.not_null,
        one.default,
        other.type_sql,
        other.not_null,
        other.default,
    );
    lemma_bare_types_end(
        other.type_sql,
        other.not_null,
        other.default,
        one.type_sql,
        one.not_null,
        one.default,
    );
    let n = one.type_sql.len() as int;
    assert(a.take(n) =~= one.type_sql);
    assert(b.take(n) =~= other.type_sql);
    if one.not_null {
        assert(a[n + 1] == 'N');
    } else if one.default is Some {
        assert(a[n + 1] == 'D');
    } else {
        assert(a.len() == n);
    }
    if other.not_null {
        assert(b[n + 1] == 'N');
    } else if other.default is Some {
        assert(b[n + 1] == 'D');
    } else {
        assert(b.len() == n);
    }
    assert(one.not_null == other.not_null);
    let k: int = if one.not_null {
        n + 9
    } else {
        n
    };
    assert(one.default is Some == other.default is Some);
    if one.default is Some {
        assert(a.skip(k + 9) =~= one.default->0);
        assert(b.skip(k + 9) =~= other.default->0);
    }
}

/// A column counts as declared serial exactly where its default comes from a sequence and its type
/// is one of the whole numbers; the pseudo-type is that of its width.
pub proof fn law_serial_columns_have_a_sequence(type_sql: Seq<char>, default: Option<Seq<char>>)
    ensures
        ({
            let counted = default is Some && starts_with(default->0, "nextval("@);
            let serial = serial_type(type_sql, default);
            &&& !counted ==> serial is None
            &&& counted && type_sql == "smallint"@ ==> serial == Some("smallserial"@)
            &&& counted && type_sql == "integer"@ ==> serial == Some("serial"@)
            &&& counted && type_sql == "bigint"@ ==> serial == Some("bigserial"@)
            &&& type_sql != "smallint"@ && type_sql != "integer"@ && type_sql != "bigint"@ ==> serial
                is None
        }),
{
    reveal_strlit("smallint");
    reveal_strlit("integer");
    reveal_strlit("bigint");
    assert("smallint"@.len() == 8);
    assert("integer"@.len() == 7);
    assert("bigint"@.len() == 6);
}

/// A column is read as the server describes it: `t` says that it takes no `NULL`, and `a` and `d`
/// that it is generated.
pub proof fn law_columns_are_read_as_described(row: Seq<Option<String>>)
    requires
        row.len() >= 5,
    ensures
        ({
            let c = column_of(row);
            &&& row[0] matches Some(name) ==> c.name == name@
            &&& row[1] matches Some(type_sql) ==> c.type_sql == type_sql@
            &&& c.not_null <==> (row[2] matches Some(mark) && mark@ == "t"@)
            &&& c.identity <==> (row[3] matches Some(mark) && (mark@ == "a"@ || mark@ == "d"@))
            &&& c.default == opt_view(row[4])
            &&& c.serial == serial_type(c.type_sql, c.default)
        }),
{
}

/// Each constraint that is described in full is added once: foreign keys with the foreign keys, and
/// all others with the others, in their order.
pub proof fn law_constraints_are_added_once(table: Seq<char>, rows: Seq<TextRow>, row: TextRow)
    ensures
        ({
            let own = row@;
            let full = own.len() >= 3 && own[0] is Some && own[1] is Some && own[2] is Some;
            let line = "ALTER TABLE "@ + identifier('"', table) + " ADD CONSTRAINT "@ + identifier(
                '"',
                own[0]->0@,
            ) + " "@ + own[2]->0@ + ";\n"@;
            let foreign = own[1]->0@ == "f"@;
            &&& full ==> constraint_text(table, rows.push(row), foreign) == constraint_text(
                table,
                rows,
                foreign,
            ) + line
            &&& full ==> constraint_text(table, rows.push(row), !foreign) == constraint_text(
                table,
                rows,
                !foreign,
            )
            &&& !full ==> forall|which: bool| #[trigger]
                constraint_text(table, rows.push(row), which) == constraint_text(table, rows, which)
        }),
{
    assert(rows.push(row).drop_last() =~= rows);
    assert(rows.push(row).last() == row);
}

/// Every value of a dump reads back: nothing is written as `NULL` but nothing, and what stands
/// between the marks of a literal stands for the text that was there. The marks say whether a
/// backslash escapes.
pub proof fn law_values_read_back(value: Option<Seq<char>>, bytea: bool)
    ensures
        value is None ==> dump_value(value, bytea) == "NULL"@,
        value matches Some(text) ==> {
            let written = dump_value(value, bytea);
            let escaped = bytea || text.contains('\\');
            let skipped: int = if escaped {
                2
            } else {
                1
            };
            &&& written.len() > skipped
            &&& written.last() == '\''
            &&& escaped ==> written[0] == 'E' && written[1] == '\''
            &&& !escaped ==> written[0] == '\''
            &&& unescaped(written.subrange(skipped, written.len() - 1), escaped) == Some(text)
        },
{
    reveal_strlit("E'");
    reveal_strlit("'");
    if value is Some {
        let text = value->0;
        let escaped = needs_escape(text, bytea);
        let written = dump_value(value, bytea);
        let inner = escape(text, escaped);
        law_dumped_values_read_back(text, escaped);
        let skipped: int = if escaped {
            2
        } else {
            1
        };
        assert(written.subrange(skipped, written.len() - 1) =~= inner);
    }
}

/// Whether a column holds bytes is told by its type, for the first column with the name.
pub proof fn law_bytes_are_told_by_the_type(columns: Seq<ColumnView>, i: int)
    requires
        0 <= i < columns.len(),
        forall|k: int| 0 <= k < i ==> (#[trigger] columns[k]).name != columns[i].name,
    ensures
        holds_bytes(columns, columns[i].name) <==> columns[i].type_sql == "bytea"@,
    decreases columns.len(),
{
    if i > 0 {
        assert(columns[0].name != columns[i].name);
        let rest = columns.skip(1);
        assert(rest[i - 1] == columns[i]);
        assert forall|k: int| 0 <= k < i - 1 implies (#[trigger] rest[k]).name != rest[i
            - 1].name by {
            assert(rest[k] == columns[k + 1]);
        }
        law_bytes_are_told_by_the_type(rest, i - 1);
    }
}

/// Each sequence of a table is set past its rows, and none for a column that has no sequence.
pub proof fn law_every_sequence_is_set(table: Seq<char>, columns: Seq<ColumnView>, c: ColumnView)
    ensures
        c.identity || c.serial is Some ==> sequence_lines(table, columns.push(c)) == sequence_lines(
            table,
            columns,
        ) + sequence_reset(table, c.name) + "\n"@,
        !c.identity && c.serial is None ==> sequence_lines(table, columns.push(c))
            == sequence_lines(table, columns),
        sequence_lines(table, Seq::empty()).len() == 0,
{
    assert(columns.push(c).drop_last() =~= columns);
    assert(sequence_lines(table, columns) + (sequence_reset(table, c.name) + "\n"@)
        =~= sequence_lines(table, columns) + sequence_reset(table, c.name) + "\n"@);
}

/// An object that the server calls a view, in any case of the letters, is one.
pub proof fn law_views_are_told_by_their_kind(kind: Seq<char>)
    ensures
        says_view(kind) <==> to_lower(kind) == "view"@,
        says_view("VIEW"@),
        says_view("view"@),
        !says_view("BASE TABLE"@),
{
    reveal_strlit("VIEW");
    reveal_strlit("view");
    reveal_strlit("BASE TABLE");
    assert(to_lower("VIEW"@) =~= "view"@);
    assert(to_lower("view"@) =~= "view"@);
    assert(to_lower("BASE TABLE"@).len() == 10);
    assert("view"@.len() == 4);
}

/// A view is written with the definition that the server shows, with one semicolon at its end; one
/// without a definition cannot be dumped.
pub proof fn law_views_are_written_as_shown(
    view: &str,
    rows: &[TextRow],
    r: Result<String, String>,
)
    requires
        postgres_view_text.ensures((view, rows), r),
    ensures
        r is Ok <==> rows@.len() > 0 && rows@[0]@.len() > 0 && rows@[0]@[0] is Some,
        r matches Ok(text) ==> text@ == "DROP VIEW IF EXISTS "@ + identifier('"', view@)
            + ";\nCREATE VIEW "@ + identifier('"', view@) + " AS "@ + trim_end_mark(
            rows@[0]@[0]->0@,
            ';',
        ) + ";\n"@,
{
}

/// A table is written with all of its columns, in their order, and nothing else.
pub proof fn law_tables_are_written_with_their_columns(
    table: &str,
    columns: &[PostgresColumn],
    r: String,
)
    requires
        postgres_table_text.ensures((table, columns), r),
    ensures
        ({
            let lines = Seq::new(columns@.len(), |i: int| columns@[i]@.definition());
            r@ == "DROP TABLE IF EXISTS "@ + identifier('"', table@) + ";\nCREATE TABLE "@
                + identifier('"', table@) + " (\n"@ + join(lines, ",\n"@) + "\n);\n\n"@
        }),
{
    let lines = Seq::new(columns@.len(), |i: int| columns@[i]@.definition());
    assert(definitions(column_views(columns@)) =~= lines);
}

/// The index definitions are those that the server lists, in their order.
pub proof fn law_indexes_are_those_listed(rows: Seq<TextRow>, row: TextRow)
    ensures
        row@.len() > 0 && row@[0] is Some ==> first_texts(rows.push(row)) == first_texts(rows).push(
            row@[0]->0@,
        ),
        row@.len() == 0 || row@[0] is None ==> first_texts(rows.push(row)) == first_texts(rows),
        first_texts(Seq::empty()).len() == 0,
{
    assert(rows.push(row).drop_last() =~= rows);
}

/// Each value of a row is written for its column: as bytes where the column holds bytes.
pub proof fn law_each_value_is_written_for_its_column(
    row: Seq<Option<String>>,
    names: Seq<Seq<char>>,
    columns: Seq<ColumnView>,
    i: int,
)
    requires
        0 <= i < names.len() <= row.len(),
    ensures
        dump_values(row, names, columns).len() == names.len(),
        dump_values(row, names, columns)[i] == dump_value(
            opt_view(row[i]),
            holds_bytes(columns, names[i]),
        ),
{
}

/// The object that a row lists is named by its first place, and its second place tells whether it is a
/// view.
pub proof fn law_objects_are_listed_by_name_and_kind(
    object: NetworkObject,
    row: Seq<Option<String>>,
)
    requires
        row.len() >= 2,
        is_object_of(object, row),
    ensures
        row[0] matches Some(name) ==> object.name@ == name@,
        object.is_view <==> (row[1] matches Some(kind) && to_lower(kind@) == "view"@),
{
}

/// A table is named by a literal that holds its quoted name, and both read back.
pub proof fn law_tables_are_named_exactly(name: Seq<char>)
    ensures
        ({
            let text = relclass(name);
            let mark = "::regclass"@;
            let n = text.len() - mark.len();
            &&& n >= 2 && text.skip(n) == mark
            &&& text.take(n) == string_literal(identifier('"', name))
            &&& unquoted(text.subrange(1, n - 1), '\'') == Some(identifier('"', name))
        }),
{
    let text = relclass(name);
    let mark = "::regclass"@;
    let n = text.len() - mark.len();
    let own = string_literal(identifier('"', name));
    law_quoted_names_read_back(identifier('"', name), '\'');
    assert(text.skip(n) =~= mark);
    assert(text.take(n) =~= own);
    assert(text.subrange(1, n - 1) =~= own.subrange(1, own.len() - 1));
}

/// A sequence is set behind the greatest value of its column, or to its first value where the table
/// has no rows; table and column are named exactly.
pub proof fn law_sequences_are_set_behind_the_greatest_value(table: Seq<char>, column: Seq<char>)
    ensures
        ({
            let own = identifier('"', column);
            sequence_reset(table, column) == "SELECT setval(pg_get_serial_sequence("@
                + string_literal(identifier('"', table)) + ", "@ + string_literal(column)
                + "), COALESCE(MAX("@ + own + "), 1), COUNT("@ + own + ") > 0) FROM "@ + identifier(
                '"',
                table,
            ) + ";"@
        }),
{
}

/// One object is looked up by its name among those of the schema that is in use.
pub proof fn law_one_object_is_looked_up_by_name(name: Seq<char>)
    ensures
        ({
            let front = "SELECT table_name, table_type FROM information_schema.tables WHERE table_schema = current_schema()"@;
            let order = " ORDER BY table_type, table_name"@;
            &&& objects_statement(None) == front + order
            &&& objects_statement(Some(name)) == front + " AND table_name = "@ + string_literal(name)
                + order
        }),
{
}

} // verus!
