//! The statements that the database panes send, and the quoting that they rest on.
use vstd::prelude::*;
use vstd::string::*;

use crate::text::{join, joined, push_text, replace_char, replaced, to_chars, views};

verus! {

/// What a database is spoken to with.
#[derive(Clone, Copy, Debug, PartialEq, Eq, Structural)]
pub enum DatabaseDriver {
    Sqlite,
    Mysql,
    Mariadb,
    Postgres,
}

/// A letter or a digit of ASCII, or an underscore.
pub open spec fn is_name_char(c: char) -> bool {
    ('0' <= c && c <= '9') || ('A' <= c && c <= 'Z') || ('a' <= c && c <= 'z') || c == '_'
}

/// Made of letters, digits and underscores alone.
pub open spec fn is_name_text(s: Seq<char>) -> bool {
    forall|i: int| 0 <= i < s.len() ==> is_name_char(#[trigger] s[i])
}

/// A name that may stand in a statement.
pub open spec fn is_name(s: Seq<char>) -> bool {
    s.len() > 0 && is_name_text(s)
}

/// A name or a column type: round brackets and spaces may occur too.
pub open spec fn is_type_text(s: Seq<char>) -> bool {
    s.len() > 0 && forall|i: int|
        0 <= i < s.len() ==> is_name_char(#[trigger] s[i]) || s[i] == '(' || s[i] == ')' || s[i]
            == ' '
}

/// Each of the texts is a name.
pub open spec fn all_names(list: Seq<Seq<char>>) -> bool {
    forall|i: int| 0 <= i < list.len() ==> is_name(#[trigger] list[i])
}

fn name_char(c: char) -> (r: bool)
    ensures
        r == is_name_char(c),
{
    ('0' <= c && c <= '9') || ('A' <= c && c <= 'Z') || ('a' <= c && c <= 'z') || c == '_'
}

/// Whether the text holds letters, digits and underscores alone.
pub fn name_text(s: &str) -> (r: bool)
    ensures
        r == is_name_text(s@),
{
    let chars = to_chars(s);
    let mut i: usize = 0;
    while i < chars.len()
        invariant
            chars@ == s@,
            i <= chars@.len(),
            forall|j: int| 0 <= j < i ==> is_name_char(#[trigger] s@[j]),
        decreases chars@.len() - i,
    {
        if !name_char(chars[i]) {
            assert(!is_name_char(s@[i as int]));
            return false;
        }
        i = i + 1;
    }
    true
}

/// Whether the text may stand in a statement as a name.
pub fn name(s: &str) -> (r: bool)
    ensures
        r == is_name(s@),
{
    let chars = to_chars(s);
    chars.len() > 0 && name_text(s)
}

/// Whether the text may stand in a statement as a column type.
pub fn type_text(s: &str) -> (r: bool)
    ensures
        r == is_type_text(s@),
{
    let chars = to_chars(s);
    let mut i: usize = 0;
    while i < chars.len()
        invariant
            chars@ == s@,
            i <= chars@.len(),
            forall|j: int|
                0 <= j < i ==> is_name_char(#[trigger] s@[j]) || s@[j] == '(' || s@[j] == ')'
                    || s@[j] == ' ',
        decreases chars@.len() - i,
    {
        let c: char = chars[i];
        if !(name_char(c) || c == '(' || c == ')' || c == ' ') {
            assert(!is_name_char(s@[i as int]));
            return false;
        }
        i = i + 1;
    }
    chars.len() > 0
}

fn names(list: &[String]) -> (r: bool)
    ensures
        r == all_names(views(list@)),
{
    let mut i: usize = 0;
    while i < list.len()
        invariant
            i <= list@.len(),
            forall|j: int| 0 <= j < i ==> is_name(#[trigger] views(list@)[j]),
        decreases list@.len() - i,
    {
        if !name(list[i].as_str()) {
            assert(!is_name(views(list@)[i as int]));
            return false;
        }
        i = i + 1;
    }
    true
}

/// The name between two marks, with each mark in it written twice.
pub open spec fn identifier(quote: char, name: Seq<char>) -> Seq<char> {
    seq![quote] + replace_char(name, quote, seq![quote, quote]) + seq![quote]
}

/// An identifier in a dump of a database that quotes with `quote`.
pub fn sql_identifier(quote: char, name: &str) -> (r: String)
    ensures
        r@ == identifier(quote, name@),
{
    let mut twice: String = String::new();
    twice.push(quote);
    twice.push(quote);
    assert(twice@ =~= seq![quote, quote]);
    let mut r: String = String::new();
    r.push(quote);
    r.append(replaced(name, quote, twice.as_str()).as_str());
    r.push(quote);
    assert(r@ =~= identifier(quote, name@));
    r
}

/// An identifier in a dump of a SQLite database.
pub fn sql_dump_identifier(name: &str) -> (r: String)
    ensures
        r@ == identifier('"', name@),
{
    sql_identifier('"', name)
}

/// A string literal.
pub open spec fn string_literal(value: Seq<char>) -> Seq<char> {
    identifier('\'', value)
}

/// A string literal of the given text.
pub fn sql_string_literal(value: &str) -> (r: String)
    ensures
        r@ == string_literal(value@),
{
    sql_identifier('\'', value)
}

/// The text without one of each two marks; none where a mark stands alone.
pub open spec fn unquoted(s: Seq<char>, quote: char) -> Option<Seq<char>>
    decreases s.len(),
{
    if s.len() == 0 {
        Some(s)
    } else if s[0] != quote {
        match unquoted(s.skip(1), quote) {
            Some(rest) => Some(seq![s[0]] + rest),
            None => None,
        }
    } else if s.len() >= 2 && s[1] == quote {
        match unquoted(s.skip(2), quote) {
            Some(rest) => Some(seq![quote] + rest),
            None => None,
        }
    } else {
        None
    }
}

proof fn lemma_unquoted_joins(a: Seq<char>, b: Seq<char>, quote: char)
    requires
        unquoted(a, quote) is Some,
        unquoted(b, quote) is Some,
    ensures
        unquoted(a + b, quote) == Some(unquoted(a, quote)->0 + unquoted(b, quote)->0),
    decreases a.len(),
{
    let whole = a + b;
    if a.len() == 0 {
        assert(whole =~= b);
        assert(unquoted(a, quote)->0 + unquoted(b, quote)->0 =~= unquoted(b, quote)->0);
    } else if a[0] != quote {
        lemma_unquoted_joins(a.skip(1), b, quote);
        assert(whole.skip(1) =~= a.skip(1) + b);
        assert(seq![a[0]] + (unquoted(a.skip(1), quote)->0 + unquoted(b, quote)->0) =~= seq![a[0]]
            + unquoted(a.skip(1), quote)->0 + unquoted(b, quote)->0);
    } else {
        lemma_unquoted_joins(a.skip(2), b, quote);
        assert(whole.skip(2) =~= a.skip(2) + b);
        assert(seq![quote] + (unquoted(a.skip(2), quote)->0 + unquoted(b, quote)->0) =~= seq![quote]
            + unquoted(a.skip(2), quote)->0 + unquoted(b, quote)->0);
    }
}

/// What stands between the marks of an identifier or a string literal is the name itself, once
/// each doubled mark is read as one: no name can end its own quotes.
pub proof fn law_quoted_names_read_back(name: Seq<char>, quote: char)
    ensures
        ({
            let text = identifier(quote, name);
            &&& text.len() >= 2
            &&& text[0] == quote
            &&& text.last() == quote
            &&& unquoted(text.subrange(1, text.len() - 1), quote) == Some(name)
        }),
{
    let inner = replace_char(name, quote, seq![quote, quote]);
    let text = identifier(quote, name);
    assert(text.subrange(1, text.len() - 1) =~= inner);
    lemma_doubled_reads_back(name, quote);
}

proof fn lemma_doubled_reads_back(name: Seq<char>, quote: char)
    ensures
        unquoted(replace_char(name, quote, seq![quote, quote]), quote) == Some(name),
    decreases name.len(),
{
    if name.len() > 0 {
        let front = name.drop_last();
        let piece = if name.last() == quote {
            seq![quote, quote]
        } else {
            seq![name.last()]
        };
        lemma_doubled_reads_back(front, quote);
        assert(unquoted(piece, quote) == Some(seq![name.last()])) by {
            reveal_with_fuel(unquoted, 3);
            assert(piece.skip(1).len() == piece.len() - 1);
            if name.last() == quote {
                assert(piece.skip(2) =~= Seq::<char>::empty());
                assert(seq![quote] + Seq::<char>::empty() =~= seq![name.last()]);
            } else {
                assert(piece.skip(1) =~= Seq::<char>::empty());
                assert(seq![name.last()] + Seq::<char>::empty() =~= seq![name.last()]);
            }
        }
        lemma_unquoted_joins(replace_char(front, quote, seq![quote, quote]), piece, quote);
        assert(front + seq![name.last()] =~= name);
    }
}

/// Balanced text cannot go on behind balanced text with a mark that stands alone.
proof fn lemma_lone_mark(a: Seq<char>, b: Seq<char>, quote: char)
    requires
        unquoted(a, quote) is Some,
        a.len() < b.len(),
        b.take(a.len() as int) == a,
        b[a.len() as int] == quote,
        a.len() + 1 < b.len() ==> b[a.len() as int + 1] != quote,
    ensures
        unquoted(b, quote) is None,
    decreases a.len(),
{
    if a.len() > 0 {
        assert(b[0] == b.take(a.len() as int)[0]);
        let step: int = if a[0] != quote {
            1
        } else {
            2
        };
        if step == 2 {
            assert(b[1] == b.take(a.len() as int)[1]);
        }
        let rest = b.skip(step);
        assert(rest.take(a.len() - step) =~= a.skip(step)) by {
            assert forall|i: int| 0 <= i < a.len() - step implies #[trigger] rest[i] == a.skip(
                step,
            )[i] by {
                assert(b.take(a.len() as int)[i + step] == b[i + step]);
            }
        }
        lemma_lone_mark(a.skip(step), rest, quote);
    }
}

proof fn lemma_quoted_names_end(
    one: Seq<char>,
    other: Seq<char>,
    quote: char,
    behind: Seq<char>,
    other_behind: Seq<char>,
)
    requires
        identifier(quote, one) + behind == identifier(quote, other) + other_behind,
        behind.len() > 0,
        behind[0] != quote,
    ensures
        identifier(quote, one).len() >= identifier(quote, other).len(),
{
    let a = replace_char(one, quote, seq![quote, quote]);
    let b = replace_char(other, quote, seq![quote, quote]);
    let n = a.len() as int;
    let whole = identifier(quote, one) + behind;
    let same = identifier(quote, other) + other_behind;
    lemma_doubled_reads_back(one, quote);
    lemma_doubled_reads_back(other, quote);
    if n < b.len() {
        assert forall|i: int| 0 <= i < n implies #[trigger] a[i] == b[i] by {
            assert(whole[i + 1] == a[i]);
            assert(same[i + 1] == b[i]);
        }
        assert(b.take(n) =~= a);
        assert(whole[n + 1] == quote);
        assert(same[n + 1] == b[n]);
        assert(whole[n + 2] == behind[0]);
        if n + 1 < b.len() {
            assert(same[n + 2] == b[n + 1]);
        } else {
            assert(same[n + 2] == quote);
        }
        lemma_lone_mark(a, b, quote);
    }
}

/// A quoted name shows where it ends: where the texts behind two quoted names do not begin with the
/// mark, the names are read back from the whole, and so is what stands behind them.
pub proof fn law_quoted_names_show_their_end(
    one: Seq<char>,
    other: Seq<char>,
    quote: char,
    behind: Seq<char>,
    other_behind: Seq<char>,
)
    requires
        identifier(quote, one) + behind == identifier(quote, other) + other_behind,
        behind.len() > 0,
        behind[0] != quote,
        other_behind.len() > 0,
        other_behind[0] != quote,
    ensures
        one == other,
        behind == other_behind,
{
    let a = identifier(quote, one);
    let b = identifier(quote, other);
    lemma_quoted_names_end(one, other, quote, behind, other_behind);
    lemma_quoted_names_end(other, one, quote, other_behind, behind);
    assert((a + behind).take(a.len() as int) =~= a);
    assert((b + other_behind).take(a.len() as int) =~= b);
    assert((a + behind).skip(a.len() as int) =~= behind);
    assert((b + other_behind).skip(a.len() as int) =~= other_behind);
    law_quoted_names_read_back(one, quote);
    law_quoted_names_read_back(other, quote);
}

/// The names between double quotes.
pub open spec fn quoted_names(names: Seq<Seq<char>>) -> Seq<Seq<char>> {
    names.map_values(|name: Seq<char>| "\""@ + name + "\""@)
}

/// The statement that puts one row into a table.
pub open spec fn insert_statement(table: Seq<char>, columns: Seq<Seq<char>>) -> Seq<char> {
    "INSERT INTO \""@ + table + "\" ("@ + join(quoted_names(columns), ","@) + ") VALUES ("@ + join(
        Seq::new(columns.len(), |i: int| "?"@),
        ","@,
    ) + ")"@
}

/// The statement that puts one row into a table, with a placeholder for each column.
pub fn import_rows_sql(table: &str, columns: &[String]) -> (r: Result<String, String>)
    ensures
        if is_name(table@) && columns@.len() > 0 && all_names(views(columns@)) {
            r is Ok && r->Ok_0@ == insert_statement(table@, views(columns@))
        } else {
            r is Err && r->Err_0@ == "非法表名或字段名"@
        },
{
    if !name(table) || columns.len() == 0 || !names(columns) {
        return Err("非法表名或字段名".to_owned());
    }
    let mut quoted: Vec<String> = Vec::new();
    let mut marks: Vec<String> = Vec::new();
    let mut i: usize = 0;
    while i < columns.len()
        invariant
            i <= columns@.len(),
            views(quoted@) == quoted_names(views(columns@).take(i as int)),
            views(marks@) == Seq::new(i as nat, |i: int| "?"@),
        decreases columns@.len() - i,
    {
        let mut column: String = "\"".to_owned();
        column.append(columns[i].as_str());
        column.append("\"");
        let ghost shown = column@;
        push_text(&mut quoted, column);
        push_text(&mut marks, "?".to_owned());
        proof {
            let now = views(columns@).take(i + 1);
            assert(views(quoted@) =~= quoted_names(now));
            assert(views(marks@) =~= Seq::new((i + 1) as nat, |i: int| "?"@));
        }
        i = i + 1;
    }
    assert(views(columns@).take(i as int) =~= views(columns@));
    let mut sql: String = "INSERT INTO \"".to_owned();
    sql.append(table);
    sql.append("\" (");
    sql.append(joined(quoted.as_slice(), ",").as_str());
    sql.append(") VALUES (");
    sql.append(joined(marks.as_slice(), ",").as_str());
    sql.append(")");
    Ok(sql)
}

/// The statement that adds a column.
pub fn add_column_sql(table: &str, column: &str, data_type: &str) -> (r: Result<String, String>)
    ensures
        if is_type_text(table@) && is_type_text(column@) && is_type_text(data_type@) {
            r is Ok && r->Ok_0@ == "ALTER TABLE \""@ + table@ + "\" ADD COLUMN \""@ + column@
                + "\" "@ + data_type@
        } else {
            r is Err && r->Err_0@ == "非法结构名称或类型"@
        },
{
    if !type_text(table) || !type_text(column) || !type_text(data_type) {
        return Err("非法结构名称或类型".to_owned());
    }
    let mut sql: String = "ALTER TABLE \"".to_owned();
    sql.append(table);
    sql.append("\" ADD COLUMN \"");
    sql.append(column);
    sql.append("\" ");
    sql.append(data_type);
    Ok(sql)
}

/// The statement that drops a column.
pub fn drop_column_sql(table: &str, column: &str) -> (r: Result<String, String>)
    ensures
        if is_name(table@) && is_name(column@) {
            r is Ok && r->Ok_0@ == "ALTER TABLE \""@ + table@ + "\" DROP COLUMN \""@ + column@
                + "\""@
        } else {
            r is Err && r->Err_0@ == "非法表名或字段名"@
        },
{
    if !name(table) || !name(column) {
        return Err("非法表名或字段名".to_owned());
    }
    let mut sql: String = "ALTER TABLE \"".to_owned();
    sql.append(table);
    sql.append("\" DROP COLUMN \"");
    sql.append(column);
    sql.append("\"");
    Ok(sql)
}

/// The word before `INDEX`.
pub open spec fn unique_word(unique: bool) -> Seq<char> {
    if unique {
        "UNIQUE"@
    } else {
        ""@
    }
}

/// The statement that makes an index.
pub fn create_index_sql(table: &str, index: &str, column: &str, unique: bool) -> (r: Result<
    String,
    String,
>)
    ensures
        if is_name(table@) && is_name(index@) && is_name(column@) {
            r is Ok && r->Ok_0@ == "CREATE "@ + unique_word(unique) + " INDEX \""@ + index@
                + "\" ON \""@ + table@ + "\" (\""@ + column@ + "\")"@
        } else {
            r is Err && r->Err_0@ == "非法索引名称"@
        },
{
    if !name(table) || !name(index) || !name(column) {
        return Err("非法索引名称".to_owned());
    }
    let mut sql: String = "CREATE ".to_owned();
    if unique {
        sql.append("UNIQUE");
    } else {
        sql.append("");
    }
    sql.append(" INDEX \"");
    sql.append(index);
    sql.append("\" ON \"");
    sql.append(table);
    sql.append("\" (\"");
    sql.append(column);
    sql.append("\")");
    Ok(sql)
}

/// The statement that drops an index.
pub fn drop_index_sql(index: &str) -> (r: Result<String, String>)
    ensures
        if is_name(index@) {
            r is Ok && r->Ok_0@ == "DROP INDEX \""@ + index@ + "\""@
        } else {
            r is Err && r->Err_0@ == "非法索引名称"@
        },
{
    if !name(index) {
        return Err("非法索引名称".to_owned());
    }
    let mut sql: String = "DROP INDEX \"".to_owned();
    sql.append(index);
    sql.append("\"");
    Ok(sql)
}

/// The statement that lists the tables.
pub open spec fn tables_statement(driver: DatabaseDriver) -> Seq<char> {
    match driver {
        DatabaseDriver::Sqlite => "SELECT name FROM sqlite_master WHERE type IN ('table','view') ORDER BY name"@,
        DatabaseDriver::Postgres => "SELECT table_name FROM information_schema.tables WHERE table_schema = 'public' ORDER BY table_name"@,
        DatabaseDriver::Mysql | DatabaseDriver::Mariadb => "SELECT table_name FROM information_schema.tables WHERE table_schema = DATABASE() ORDER BY table_name"@,
    }
}

/// The statement that lists the tables.
pub fn list_tables_sql(driver: DatabaseDriver) -> (r: String)
    ensures
        r@ == tables_statement(driver),
{
    match driver {
        DatabaseDriver::Sqlite => "SELECT name FROM sqlite_master WHERE type IN ('table','view') ORDER BY name".to_owned(),
        DatabaseDriver::Postgres => "SELECT table_name FROM information_schema.tables WHERE table_schema = 'public' ORDER BY table_name".to_owned(),
        DatabaseDriver::Mysql | DatabaseDriver::Mariadb => "SELECT table_name FROM information_schema.tables WHERE table_schema = DATABASE() ORDER BY table_name".to_owned(),
    }
}

/// The statement that lists the foreign keys of a SQLite table.
pub fn list_foreign_keys_sql(table: &str) -> (r: Result<String, String>)
    ensures
        if is_name_text(table@) {
            r is Ok && r->Ok_0@ == "PRAGMA foreign_key_list(\""@ + table@ + "\")"@
        } else {
            r is Err && r->Err_0@ == "非法表名"@
        },
{
    if !name_text(table) {
        return Err("非法表名".to_owned());
    }
    let mut sql: String = "PRAGMA foreign_key_list(\"".to_owned();
    sql.append(table);
    sql.append("\")");
    Ok(sql)
}

/// The statement that lists the indexes of a table.
pub open spec fn indexes_statement(driver: DatabaseDriver, table: Seq<char>) -> Seq<char> {
    if driver == DatabaseDriver::Sqlite {
        "PRAGMA index_list(\""@ + table + "\")"@
    } else {
        "SELECT index_name, CASE WHEN non_unique=0 THEN 1 ELSE 0 END FROM information_schema.statistics WHERE table_schema=DATABASE() AND table_name='"@
            + table + "' GROUP BY index_name,non_unique ORDER BY index_name"@
    }
}

/// The statement that lists the indexes of a table.
pub fn list_indexes_sql(driver: DatabaseDriver, table: &str) -> (r: Result<String, String>)
    ensures
        if is_name_text(table@) {
            r is Ok && r->Ok_0@ == indexes_statement(driver, table@)
        } else {
            r is Err && r->Err_0@ == "非法表名"@
        },
{
    if !name_text(table) {
        return Err("非法表名".to_owned());
    }
    if driver == DatabaseDriver::Sqlite {
        let mut sql: String = "PRAGMA index_list(\"".to_owned();
        sql.append(table);
        sql.append("\")");
        Ok(sql)
    } else {
        let mut sql: String = "SELECT index_name, CASE WHEN non_unique=0 THEN 1 ELSE 0 END FROM information_schema.statistics WHERE table_schema=DATABASE() AND table_name='".to_owned();
        sql.append(table);
        sql.append("' GROUP BY index_name,non_unique ORDER BY index_name");
        Ok(sql)
    }
}

/// The statement that describes the columns of a table.
pub open spec fn describe_statement(driver: DatabaseDriver, table: Seq<char>) -> Seq<char> {
    match driver {
        DatabaseDriver::Sqlite => "PRAGMA table_info(\""@ + table + "\")"@,
        DatabaseDriver::Postgres => "SELECT c.column_name,c.data_type,c.is_nullable,c.column_default,pg_catalog.col_description(cl.oid,attr.attnum) FROM information_schema.columns c JOIN pg_catalog.pg_namespace ns ON ns.nspname=c.table_schema JOIN pg_catalog.pg_class cl ON cl.relnamespace=ns.oid AND cl.relname=c.table_name JOIN pg_catalog.pg_attribute attr ON attr.attrelid=cl.oid AND attr.attname=c.column_name WHERE c.table_schema='public' AND c.table_name='"@
            + table + "' ORDER BY c.ordinal_position"@,
        DatabaseDriver::Mysql | DatabaseDriver::Mariadb => "SELECT column_name,data_type,is_nullable,column_default,column_comment FROM information_schema.columns WHERE table_schema=DATABASE() AND table_name='"@
            + table + "' ORDER BY ordinal_position"@,
    }
}

/// The statement that describes the columns of a table.
pub fn describe_table_sql(driver: DatabaseDriver, table: &str) -> (r: Result<String, String>)
    ensures
        if is_name_text(table@) {
            r is Ok && r->Ok_0@ == describe_statement(driver, table@)
        } else {
            r is Err && r->Err_0@ == "非法表名"@
        },
{
    if !name_text(table) {
        return Err("非法表名".to_owned());
    }
    match driver {
        DatabaseDriver::Sqlite => {
            let mut sql: String = "PRAGMA table_info(\"".to_owned();
            sql.append(table);
            sql.append("\")");
            Ok(sql)
        },
        DatabaseDriver::Postgres => {
            let mut sql: String = "SELECT c.column_name,c.data_type,c.is_nullable,c.column_default,pg_catalog.col_description(cl.oid,attr.attnum) FROM information_schema.columns c JOIN pg_catalog.pg_namespace ns ON ns.nspname=c.table_schema JOIN pg_catalog.pg_class cl ON cl.relnamespace=ns.oid AND cl.relname=c.table_name JOIN pg_catalog.pg_attribute attr ON attr.attrelid=cl.oid AND attr.attname=c.column_name WHERE c.table_schema='public' AND c.table_name='".to_owned();
            sql.append(table);
            sql.append("' ORDER BY c.ordinal_position");
            Ok(sql)
        },
        DatabaseDriver::Mysql | DatabaseDriver::Mariadb => {
            let mut sql: String = "SELECT column_name,data_type,is_nullable,column_default,column_comment FROM information_schema.columns WHERE table_schema=DATABASE() AND table_name='".to_owned();
            sql.append(table);
            sql.append("' ORDER BY ordinal_position");
            Ok(sql)
        },
    }
}

/// A name that may stand in a statement between quotes holds no quote of any kind, nor anything else
/// that could end it.
pub proof fn law_names_cannot_leave_their_quotes(s: Seq<char>, i: int)
    requires
        is_name_text(s) || is_type_text(s),
        0 <= i < s.len(),
    ensures
        s[i] != '"' && s[i] != '\'' && s[i] != '`' && s[i] != ';' && s[i] != '\\' && s[i] != '-',
        is_name_text(s) ==> s[i] != ' ' && s[i] != '(' && s[i] != ')',
{
}

/// A name is one exactly where it is not empty and each of its characters is a letter or a digit of
/// ASCII or an underscore.
pub proof fn law_names_are_made_of_name_characters(s: Seq<char>)
    ensures
        is_name(s) <==> s.len() > 0 && forall|i: int|
            0 <= i < s.len() ==> ('0' <= #[trigger] s[i] <= '9') || ('A' <= s[i] <= 'Z') || ('a'
                <= s[i] <= 'z') || s[i] == '_',
{
}

/// A statement is made only of names that may stand in one; for names that may, it is always made.
pub proof fn law_statements_are_made_of_names(
    table: &str,
    column: &str,
    index: &str,
    data_type: &str,
    columns: &[String],
    unique: bool,
    added: Result<String, String>,
    dropped: Result<String, String>,
    made: Result<String, String>,
    removed: Result<String, String>,
    filled: Result<String, String>,
)
    requires
        add_column_sql.ensures((table, column, data_type), added),
        drop_column_sql.ensures((table, column), dropped),
        create_index_sql.ensures((table, index, column, unique), made),
        drop_index_sql.ensures((index,), removed),
        import_rows_sql.ensures((table, columns), filled),
    ensures
        added is Ok <==> is_type_text(table@) && is_type_text(column@) && is_type_text(data_type@),
        dropped is Ok <==> is_name(table@) && is_name(column@),
        made is Ok <==> is_name(table@) && is_name(index@) && is_name(column@),
        removed is Ok <==> is_name(index@),
        filled is Ok <==> is_name(table@) && columns@.len() > 0 && all_names(views(columns@)),
        made is Ok && unique ==> made->Ok_0@ == "CREATE UNIQUE INDEX \""@ + index@ + "\" ON \""@
            + table@ + "\" (\""@ + column@ + "\")"@,
        dropped is Ok ==> dropped->Ok_0@ == "ALTER TABLE \""@ + table@ + "\" DROP COLUMN \""@
            + column@ + "\""@,
{
    reveal_strlit("CREATE ");
    reveal_strlit("UNIQUE");
    reveal_strlit(" INDEX \"");
    reveal_strlit("CREATE UNIQUE INDEX \"");
    assert("CREATE "@ + "UNIQUE"@ + " INDEX \""@ =~= "CREATE UNIQUE INDEX \""@);
}

/// The tables of a database are listed by name, those of the schema or the database that is in use; a
/// table is described and its indexes are listed by its own name.
pub proof fn law_tables_are_asked_for_by_name(table: Seq<char>)
    ensures
        tables_statement(DatabaseDriver::Sqlite)
            == "SELECT name FROM sqlite_master WHERE type IN ('table','view') ORDER BY name"@,
        tables_statement(DatabaseDriver::Postgres)
            == "SELECT table_name FROM information_schema.tables WHERE table_schema = 'public' ORDER BY table_name"@,
        tables_statement(DatabaseDriver::Mysql)
            == "SELECT table_name FROM information_schema.tables WHERE table_schema = DATABASE() ORDER BY table_name"@,
        tables_statement(DatabaseDriver::Mariadb) == tables_statement(DatabaseDriver::Mysql),
        describe_statement(DatabaseDriver::Sqlite, table) == "PRAGMA table_info(\""@ + table
            + "\")"@,
        describe_statement(DatabaseDriver::Mariadb, table) == describe_statement(
            DatabaseDriver::Mysql,
            table,
        ),
        indexes_statement(DatabaseDriver::Sqlite, table) == "PRAGMA index_list(\""@ + table
            + "\")"@,
        indexes_statement(DatabaseDriver::Mariadb, table) == indexes_statement(
            DatabaseDriver::Mysql,
            table,
        ),
        unique_word(true) == "UNIQUE"@,
        unique_word(false).len() == 0,
{
    reveal_strlit("");
}

} // verus!
