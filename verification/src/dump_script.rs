//! What the statements of a whole dump are read back as.
use vstd::prelude::*;
use vstd::string::*;

use crate::dump_plan::{
    data_steps, first_report, gap, law_sqlite_dump_order, no_data, object_lines, object_names,
    of_kind, sqlite_head, sqlite_header, sqlite_rows, sqlite_steps, sqlite_tail, statement_line,
    step_views, table_lines, SqliteObject, SqliteObjectView, StepView,
};
use crate::dump_reading::{
    all_read_as, is_readable, lemma_front, lemma_join_front, lemma_other_front, lemma_read_quoted,
    lemma_read_row, literals_of, read_quoted, read_row, row_texts, rows_read_as, ReadValue,
};
use crate::dump_run::{counts_rows, export_of, lemma_rows_of_both, steps_rows, DumpRun};
use crate::sql_dump::{
    insert_head, insert_statement, insert_statements, last_batch,
    law_rows_stand_in_bounded_statements, row_text, table_data, trim_end_mark, SqlValueView,
};
use crate::sql_text::identifier;
use crate::text::{join, replace_char, starts_with, to_lower, trim};

verus! {

/// Where a place in a script stands: in a statement, behind the mark that opened a quoted part, in
/// a comment up to the end of the line, or in a comment between marks. A comment between marks was
/// just opened or just closed where its mark cannot be used again.
pub ghost enum Place {
    Code,
    Closed,
    Quoted(char),
    Line,
    Opened,
    Comment,
}

/// The mark that closes what `c` opens.
pub open spec fn closing_mark(c: char) -> Option<char> {
    if c == '\'' || c == '"' || c == '`' {
        Some(c)
    } else if c == '[' {
        Some(']')
    } else {
        None
    }
}

/// The place behind a text.
pub open spec fn place_behind(s: Seq<char>) -> Place
    decreases s.len(),
{
    if s.len() == 0 {
        Place::Code
    } else {
        let c = s.last();
        let front = s.drop_last();
        match place_behind(front) {
            Place::Code => match closing_mark(c) {
                Some(mark) => Place::Quoted(mark),
                None => if c == '-' && front.len() > 0 && front.last() == '-' {
                    Place::Line
                } else if c == '*' && front.len() > 0 && front.last() == '/' {
                    Place::Opened
                } else {
                    Place::Code
                },
            },
            Place::Closed => match closing_mark(c) {
                Some(mark) => Place::Quoted(mark),
                None => Place::Code,
            },
            Place::Quoted(mark) => if c == mark {
                Place::Code
            } else {
                Place::Quoted(mark)
            },
            Place::Line => if c == '\n' {
                Place::Code
            } else {
                Place::Line
            },
            Place::Opened => Place::Comment,
            Place::Comment => if c == '/' && front.last() == '*' {
                Place::Closed
            } else {
                Place::Comment
            },
        }
    }
}

/// A statement goes on at this place.
pub open spec fn in_code(s: Seq<char>) -> bool {
    place_behind(s) is Code || place_behind(s) is Closed
}

/// The text with a space in place of what is quoted or a comment.
pub open spec fn bare(s: Seq<char>) -> Seq<char>
    decreases s.len(),
{
    if s.len() == 0 {
        s
    } else {
        bare(s.drop_last()).push(
            if in_code(s.drop_last()) && in_code(s) {
                s.last()
            } else {
                ' '
            },
        )
    }
}

/// The body of a trigger is closed: the word `END` stands behind the last of its statements.
pub open spec fn body_is_closed(s: Seq<char>) -> bool {
    let code = trim(bare(s));
    let before = trim(code.take(code.len() - 3));
    &&& code.len() >= 3
    &&& to_lower(code.skip(code.len() - 3)) == "end"@
    &&& before.len() > 0
    &&& before.last() == ';'
}

/// A statement ends with this text: a semicolon stands behind it, not in a quoted part or a
/// comment, and not inside of the body of a trigger.
pub open spec fn is_complete(s: Seq<char>) -> bool {
    &&& s.len() > 0
    &&& s.last() == ';'
    &&& in_code(s.drop_last())
    &&& starts_with(s, "CREATE TRIGGER "@) ==> body_is_closed(s.drop_last())
}

/// The first end of a statement at `n` or behind it.
pub open spec fn end_from(s: Seq<char>, n: int) -> Option<int>
    decreases s.len() + 1 - n,
{
    if n > s.len() {
        None
    } else if is_complete(s.take(n)) {
        Some(n)
    } else {
        end_from(s, n + 1)
    }
}

/// A statement as it is read from a script.
#[verifier::ext_equal]
pub ghost enum ReadStatement {
    /// Any statement but an `INSERT`.
    Other(Seq<char>),
    Insert { table: Seq<char>, columns: Seq<Seq<char>>, rows: Seq<Seq<ReadValue>> },
}

/// The name between double quotes at the front, and what stands behind it.
pub open spec fn read_name(s: Seq<char>) -> Option<(Seq<char>, Seq<char>)> {
    if starts_with(s, "\""@) {
        read_quoted(s.skip(1), '"')
    } else {
        None
    }
}

/// The names up to the bracket that closes them, and what stands behind it.
pub open spec fn read_names(s: Seq<char>) -> Option<(Seq<Seq<char>>, Seq<char>)>
    decreases s.len(),
{
    match read_name(s) {
        Some((name, rest)) => if starts_with(rest, ", "@) && rest.skip(2).len() < s.len() {
            match read_names(rest.skip(2)) {
                Some((names, behind)) => Some((seq![name] + names, behind)),
                None => None,
            }
        } else if starts_with(rest, ")"@) {
            Some((seq![name], rest.skip(1)))
        } else {
            None
        },
        None => None,
    }
}

/// The rows up to the semicolon that ends their statement, and what stands behind it.
#[verifier::opaque]
pub open spec fn read_tuples(s: Seq<char>) -> Option<(Seq<Seq<ReadValue>>, Seq<char>)>
    decreases s.len(),
{
    match read_row(s) {
        Some((row, rest)) => if starts_with(rest, ",\n  "@) && rest.skip(4).len() < s.len() {
            match read_tuples(rest.skip(4)) {
                Some((rows, behind)) => Some((seq![row] + rows, behind)),
                None => None,
            }
        } else if starts_with(rest, ";"@) {
            Some((seq![row], rest.skip(1)))
        } else {
            None
        },
        None => None,
    }
}

/// The `INSERT` at the front, behind its first words, and what stands behind it.
pub open spec fn read_insert(s: Seq<char>) -> Option<(ReadStatement, Seq<char>)> {
    match read_name(s) {
        Some((table, rest)) => if starts_with(rest, " ("@) {
            match read_names(rest.skip(2)) {
                Some((columns, behind)) => if starts_with(behind, " VALUES\n  "@) {
                    match read_tuples(behind.skip(10)) {
                        Some((rows, last)) => Some(
                            (ReadStatement::Insert { table, columns, rows }, last),
                        ),
                        None => None,
                    }
                } else {
                    None
                },
                None => None,
            }
        } else {
            None
        },
        None => None,
    }
}

/// The statement at the front, and what stands behind the semicolon that ends it.
pub open spec fn read_statement(s: Seq<char>) -> Option<(ReadStatement, Seq<char>)> {
    if starts_with(s, "INSERT INTO "@) {
        read_insert(s.skip(12))
    } else {
        match end_from(s, 1) {
            Some(n) => Some((ReadStatement::Other(s.take(n - 1)), s.skip(n))),
            None => None,
        }
    }
}

/// What stands behind the first line.
pub open spec fn behind_line(s: Seq<char>) -> Seq<char>
    decreases s.len(),
{
    if s.len() == 0 {
        s
    } else if s[0] == '\n' {
        s.skip(1)
    } else {
        behind_line(s.skip(1))
    }
}

/// The statements of a script, in their order. Empty lines and lines that are a comment stand
/// between them.
pub open spec fn read_script(s: Seq<char>) -> Option<Seq<ReadStatement>>
    decreases s.len(),
{
    if s.len() == 0 {
        Some(Seq::empty())
    } else if s[0] == '\n' {
        read_script(s.skip(1))
    } else if starts_with(s, "--"@) {
        if behind_line(s).len() < s.len() {
            read_script(behind_line(s))
        } else {
            None
        }
    } else {
        match read_statement(s) {
            Some((statement, rest)) => if rest.len() < s.len() {
                preceded(seq![statement], read_script(rest))
            } else {
                None
            },
            None => None,
        }
    }
}

/// The statements before those that were read.
pub open spec fn preceded(
    first: Seq<ReadStatement>,
    read: Option<Seq<ReadStatement>>,
) -> Option<Seq<ReadStatement>> {
    match read {
        Some(statements) => Some(first + statements),
        None => None,
    }
}

/// A part of a script holds these statements, whatever stands behind it.
pub open spec fn holds(part: Seq<char>, statements: Seq<ReadStatement>) -> bool {
    forall|rest: Seq<char>| #[trigger]
        read_script(part + rest) == preceded(statements, read_script(rest))
}

proof fn lemma_holds_both(
    a: Seq<char>,
    first: Seq<ReadStatement>,
    b: Seq<char>,
    second: Seq<ReadStatement>,
)
    requires
        holds(a, first),
        holds(b, second),
    ensures
        holds(a + b, first + second),
{
    assert forall|rest: Seq<char>| #[trigger] read_script((a + b) + rest) == preceded(
        first + second,
        read_script(rest),
    ) by {
        assert((a + b) + rest =~= a + (b + rest));
        assert(read_script(a + (b + rest)) == preceded(first, read_script(b + rest)));
        assert(read_script(b + rest) == preceded(second, read_script(rest)));
        if read_script(rest) is Some {
            let read = read_script(rest)->0;
            assert(first + (second + read) =~= (first + second) + read);
        }
    }
}

proof fn lemma_holds_nothing()
    ensures
        holds(Seq::empty(), Seq::empty()),
{
    assert forall|rest: Seq<char>| #[trigger]
        read_script(Seq::<char>::empty() + rest) == preceded(Seq::empty(), read_script(rest)) by {
        assert(Seq::<char>::empty() + rest =~= rest);
        if read_script(rest) is Some {
            assert(Seq::<ReadStatement>::empty() + read_script(rest)->0 =~= read_script(rest)->0);
        }
    }
}

proof fn lemma_holds_blank()
    ensures
        holds("\n"@, Seq::empty()),
{
    reveal_strlit("\n");
    assert forall|rest: Seq<char>| #[trigger]
        read_script("\n"@ + rest) == preceded(Seq::empty(), read_script(rest)) by {
        let s = "\n"@ + rest;
        assert(s[0] == '\n');
        assert(s.skip(1) =~= rest);
        if read_script(rest) is Some {
            assert(Seq::<ReadStatement>::empty() + read_script(rest)->0 =~= read_script(rest)->0);
        }
    }
}

proof fn lemma_behind_line(line: Seq<char>, rest: Seq<char>)
    requires
        forall|i: int| 0 <= i < line.len() ==> (#[trigger] line[i]) != '\n',
    ensures
        behind_line(line + "\n"@ + rest) == rest,
    decreases line.len(),
{
    reveal_strlit("\n");
    let s = line + "\n"@ + rest;
    if line.len() == 0 {
        assert(s[0] == '\n');
        assert(s.skip(1) =~= rest);
    } else {
        let tail = line.skip(1);
        assert forall|i: int| 0 <= i < tail.len() implies (#[trigger] tail[i]) != '\n' by {
            assert(tail[i] == line[i + 1]);
        }
        lemma_behind_line(tail, rest);
        assert(s[0] == line[0]);
        assert(s.skip(1) =~= tail + "\n"@ + rest);
    }
}

proof fn lemma_holds_comment(line: Seq<char>)
    requires
        starts_with(line, "--"@),
        forall|i: int| 0 <= i < line.len() ==> (#[trigger] line[i]) != '\n',
    ensures
        holds(line + "\n"@, Seq::empty()),
{
    reveal_strlit("\n");
    reveal_strlit("--");
    assert forall|rest: Seq<char>| #[trigger]
        read_script((line + "\n"@) + rest) == preceded(Seq::empty(), read_script(rest)) by {
        let s = (line + "\n"@) + rest;
        lemma_behind_line(line, rest);
        assert(line.subrange(0, 2) =~= "--"@);
        assert(s.subrange(0, 2) =~= line.subrange(0, 2));
        assert(line.subrange(0, 2)[0] == '-');
        assert(s[0] == '-');
        if read_script(rest) is Some {
            assert(Seq::<ReadStatement>::empty() + read_script(rest)->0 =~= read_script(rest)->0);
        }
    }
}

/// A statement that makes an object and ends where its text does.
pub open spec fn is_whole(sql: Seq<char>) -> bool {
    &&& starts_with(sql, "CREATE "@)
    &&& is_complete(sql.push(';'))
    &&& forall|n: int| 1 <= n <= sql.len() ==> !is_complete(#[trigger] sql.take(n))
}

/// A statement without a semicolon is whole where its last quoted part and its last comment are
/// closed; one that makes a trigger has semicolons in its body.
pub proof fn law_closed_statements_are_whole(sql: Seq<char>)
    requires
        starts_with(sql, "CREATE "@),
        !starts_with(sql, "CREATE TRIGGER "@),
        !sql.contains(';'),
        in_code(sql),
    ensures
        is_whole(sql),
{
    reveal_strlit("CREATE TRIGGER ");
    let whole = sql.push(';');
    let trigger = "CREATE TRIGGER "@;
    assert(whole.drop_last() =~= sql);
    if starts_with(whole, trigger) {
        assert(whole.subrange(0, 15) == trigger);
        assert(whole.subrange(0, 15)[14] == whole[14]);
        assert(whole[14] == ' ');
        assert(sql.subrange(0, 15) =~= trigger);
    }
    assert forall|n: int| 1 <= n <= sql.len() implies !is_complete(#[trigger] sql.take(n)) by {
        assert(sql.take(n).last() == sql[n - 1]);
        assert(sql.contains(sql[n - 1]));
    }
}

proof fn lemma_end_from(sql: Seq<char>, rest: Seq<char>, n: int)
    requires
        is_whole(sql),
        1 <= n <= sql.len() + 1,
    ensures
        end_from(sql.push(';') + rest, n) == Some(sql.len() as int + 1),
    decreases sql.len() + 1 - n,
{
    let s = sql.push(';') + rest;
    if n <= sql.len() {
        assert(s.take(n) =~= sql.take(n));
        lemma_end_from(sql, rest, n + 1);
    } else {
        assert(s.take(n) =~= sql.push(';'));
    }
}

proof fn lemma_holds_line(sql: Seq<char>)
    requires
        is_whole(sql),
    ensures
        holds(sql + ";\n"@, seq![ReadStatement::Other(sql)]),
{
    reveal_strlit("CREATE ");
    reveal_strlit("INSERT INTO ");
    reveal_strlit("--");
    reveal_strlit(";\n");
    reveal_strlit("\n");
    let read = seq![ReadStatement::Other(sql)];
    assert forall|rest: Seq<char>| #[trigger] read_script((sql + ";\n"@) + rest) == preceded(
        read,
        read_script(rest),
    ) by {
        let s = (sql + ";\n"@) + rest;
        let behind = "\n"@ + rest;
        assert(s =~= sql.push(';') + behind);
        lemma_end_from(sql, behind, 1);
        assert(sql.subrange(0, 7)[0] == 'C');
        assert(s[0] == 'C');
        lemma_other_front(s, "INSERT INTO "@);
        lemma_other_front(s, "--"@);
        assert(s.take(sql.len() as int) =~= sql);
        assert(s.skip(sql.len() as int + 1) =~= behind);
        lemma_holds_blank();
        assert(read_script(behind) == preceded(Seq::empty(), read_script(rest)));
        if read_script(rest) is Some {
            assert(Seq::<ReadStatement>::empty() + read_script(rest)->0 =~= read_script(rest)->0);
        }
    }
}

/// The names between double quotes.
pub open spec fn identifiers(names: Seq<Seq<char>>) -> Seq<Seq<char>> {
    names.map_values(|name: Seq<char>| identifier('"', name))
}

proof fn lemma_read_name(name: Seq<char>, rest: Seq<char>)
    requires
        rest.len() > 0,
        rest[0] != '"',
    ensures
        read_name(identifier('"', name) + rest) == Some((name, rest)),
{
    reveal_strlit("\"");
    let inner = replace_char(name, '"', seq!['"', '"']) + seq!['"'] + rest;
    assert("\""@ =~= seq!['"']);
    assert(identifier('"', name) + rest =~= "\""@ + inner);
    lemma_front("\""@, inner);
    lemma_read_quoted(name, '"', rest);
}

proof fn lemma_read_names(names: Seq<Seq<char>>, tail: Seq<char>)
    requires
        names.len() > 0,
    ensures
        read_names(join(identifiers(names), ", "@) + ")"@ + tail) == Some((names, tail)),
    decreases names.len(),
{
    reveal_strlit(", ");
    reveal_strlit(")");
    let texts = identifiers(names);
    let s = join(texts, ", "@) + ")"@ + tail;
    let first = names[0];
    if names.len() == 1 {
        let rest = ")"@ + tail;
        assert(s =~= identifier('"', first) + rest);
        lemma_read_name(first, rest);
        lemma_front(")"@, tail);
        lemma_other_front(rest, ", "@);
        assert(names =~= seq![first]);
    } else {
        let others = names.skip(1);
        lemma_read_names(others, tail);
        lemma_join_front(texts, ", "@);
        assert(texts.skip(1) =~= identifiers(others));
        let behind = join(identifiers(others), ", "@) + ")"@ + tail;
        let rest = ", "@ + behind;
        assert(s =~= identifier('"', first) + rest);
        lemma_read_name(first, rest);
        lemma_front(", "@, behind);
        assert(seq![first] + others =~= names);
    }
}

/// The rows can be read back.
pub open spec fn all_readable(rows: Seq<Seq<SqlValueView>>) -> bool {
    forall|i: int| 0 <= i < rows.len() ==> is_readable(#[trigger] rows[i])
}

proof fn lemma_last_tuple(s: Seq<char>, row: Seq<ReadValue>, tail: Seq<char>)
    requires
        read_row(s) == Some((row, ";"@ + tail)),
    ensures
        read_tuples(s) == Some((seq![row], tail)),
{
    reveal(read_tuples);
    reveal_strlit(",\n  ");
    reveal_strlit(";");
    let rest = ";"@ + tail;
    lemma_front(";"@, tail);
    assert(rest[0] == ';');
    lemma_other_front(rest, ",\n  "@);
}

proof fn lemma_more_tuples(
    s: Seq<char>,
    row: Seq<ReadValue>,
    behind: Seq<char>,
    rows: Seq<Seq<ReadValue>>,
    tail: Seq<char>,
)
    requires
        read_row(s) == Some((row, ",\n  "@ + behind)),
        behind.len() < s.len(),
        read_tuples(behind) == Some((rows, tail)),
    ensures
        read_tuples(s) == Some((seq![row] + rows, tail)),
{
    reveal(read_tuples);
    reveal_strlit(",\n  ");
    lemma_front(",\n  "@, behind);
}

proof fn lemma_read_tuples(rows: Seq<Seq<SqlValueView>>, tail: Seq<char>)
    requires
        rows.len() > 0,
        all_readable(rows),
    ensures
        read_tuples(join(row_texts(rows), ",\n  "@) + ";"@ + tail) == Some(
            (rows_read_as(rows), tail),
        ),
    decreases rows.len(),
{
    let texts = row_texts(rows);
    let s = join(texts, ",\n  "@) + ";"@ + tail;
    let first = rows[0];
    let read = all_read_as(first);
    assert(is_readable(rows[0]));
    assert(texts[0] == row_text(literals_of(first)));
    if rows.len() == 1 {
        let rest = ";"@ + tail;
        assert(s =~= texts[0] + rest);
        lemma_read_row(first, rest);
        lemma_last_tuple(s, read, tail);
        assert(rows_read_as(rows) =~= seq![read]);
    } else {
        let others = rows.skip(1);
        assert forall|i: int| 0 <= i < others.len() implies is_readable(#[trigger] others[i]) by {
            assert(others[i] == rows[i + 1]);
        }
        lemma_read_tuples(others, tail);
        lemma_join_front(texts, ",\n  "@);
        assert(texts.skip(1) =~= row_texts(others));
        let behind = join(row_texts(others), ",\n  "@) + ";"@ + tail;
        let rest = ",\n  "@ + behind;
        assert(s =~= texts[0] + rest);
        lemma_read_row(first, rest);
        assert(behind.len() < s.len()) by {
            reveal_strlit(",\n  ");
        }
        lemma_more_tuples(s, read, behind, rows_read_as(others), tail);
        assert(seq![read] + rows_read_as(others) =~= rows_read_as(rows));
    }
}

proof fn lemma_read_insert(
    table: Seq<char>,
    columns: Seq<Seq<char>>,
    rows: Seq<Seq<SqlValueView>>,
    tail: Seq<char>,
)
    requires
        columns.len() > 0,
        rows.len() > 0,
        all_readable(rows),
    ensures
        read_insert(
            identifier('"', table) + (" ("@ + (join(identifiers(columns), ", "@) + ")"@ + (
            " VALUES\n  "@ + (join(row_texts(rows), ",\n  "@) + ";"@ + tail)))),
        ) == Some(
            (ReadStatement::Insert { table, columns, rows: rows_read_as(rows) }, tail),
        ),
{
    reveal_strlit(" (");
    reveal_strlit(" VALUES\n  ");
    let tuples = join(row_texts(rows), ",\n  "@) + ";"@ + tail;
    let values = " VALUES\n  "@ + tuples;
    let names = join(identifiers(columns), ", "@) + ")"@ + values;
    let behind = " ("@ + names;
    assert(behind[0] == ' ');
    lemma_read_name(table, behind);
    lemma_front(" ("@, names);
    lemma_read_names(columns, values);
    lemma_front(" VALUES\n  "@, tuples);
    lemma_read_tuples(rows, tail);
}

/// What opens the statements with the rows of a table.
pub open spec fn head_of(table: Seq<char>, columns: Seq<Seq<char>>) -> Seq<char> {
    insert_head(identifier('"', table), identifiers(columns))
}

#[verifier::rlimit(40)]
proof fn lemma_holds_insert(
    table: Seq<char>,
    columns: Seq<Seq<char>>,
    rows: Seq<Seq<SqlValueView>>,
)
    requires
        columns.len() > 0,
        rows.len() > 0,
        all_readable(rows),
    ensures
        holds(
            insert_statement(head_of(table, columns), row_texts(rows)),
            seq![ReadStatement::Insert { table, columns, rows: rows_read_as(rows) }],
        ),
{
    reveal_strlit("INSERT INTO ");
    reveal_strlit(") VALUES\n  ");
    reveal_strlit(")");
    reveal_strlit(" VALUES\n  ");
    reveal_strlit("--");
    reveal_strlit(";\n");
    reveal_strlit(";");
    reveal_strlit("\n");
    let part = insert_statement(head_of(table, columns), row_texts(rows));
    let read = seq![ReadStatement::Insert { table, columns, rows: rows_read_as(rows) }];
    assert forall|rest: Seq<char>| #[trigger] read_script(part + rest) == preceded(
        read,
        read_script(rest),
    ) by {
        let s = part + rest;
        let behind = "\n"@ + rest;
        let inner = identifier('"', table) + (" ("@ + (join(identifiers(columns), ", "@) + ")"@ + (
        " VALUES\n  "@ + (join(row_texts(rows), ",\n  "@) + ";"@ + behind))));
        assert(") VALUES\n  "@ =~= ")"@ + " VALUES\n  "@);
        assert(";\n"@ =~= ";"@ + "\n"@);
        assert(s =~= "INSERT INTO "@ + inner);
        lemma_front("INSERT INTO "@, inner);
        lemma_read_insert(table, columns, rows, behind);
        assert(s[0] == 'I');
        lemma_other_front(s, "--"@);
        lemma_holds_blank();
        assert(read_script(behind) == preceded(Seq::empty(), read_script(rest)));
        if read_script(rest) is Some {
            assert(Seq::<ReadStatement>::empty() + read_script(rest)->0 =~= read_script(rest)->0);
        }
    }
}

/// The statements with the rows of a table: one for each 200 rows, and one for those that are left.
pub open spec fn batches(
    table: Seq<char>,
    columns: Seq<Seq<char>>,
    rows: Seq<Seq<SqlValueView>>,
) -> Seq<ReadStatement>
    decreases rows.len(),
{
    if rows.len() == 0 {
        Seq::empty()
    } else {
        let full = rows.len() - last_batch(rows.len());
        batches(table, columns, rows.take(full)).push(
            ReadStatement::Insert { table, columns, rows: rows_read_as(rows.skip(full)) },
        )
    }
}

proof fn lemma_holds_batches(
    table: Seq<char>,
    columns: Seq<Seq<char>>,
    rows: Seq<Seq<SqlValueView>>,
)
    requires
        columns.len() > 0,
        all_readable(rows),
    ensures
        holds(
            insert_statements(head_of(table, columns), row_texts(rows)),
            batches(table, columns, rows),
        ),
    decreases rows.len(),
{
    let head = head_of(table, columns);
    let texts = row_texts(rows);
    if rows.len() == 0 {
        lemma_holds_nothing();
    } else {
        let full = rows.len() - last_batch(rows.len());
        let front = rows.take(full);
        let last = rows.skip(full);
        assert(all_readable(front)) by {
            assert forall|i: int| 0 <= i < front.len() implies is_readable(#[trigger] front[i]) by {
                assert(front[i] == rows[i]);
            }
        }
        assert(all_readable(last)) by {
            assert forall|i: int| 0 <= i < last.len() implies is_readable(#[trigger] last[i]) by {
                assert(last[i] == rows[i + full]);
            }
        }
        lemma_holds_batches(table, columns, front);
        lemma_holds_insert(table, columns, last);
        assert(texts.take(full) =~= row_texts(front));
        assert(texts.skip(full) =~= row_texts(last));
        let statement = ReadStatement::Insert { table, columns, rows: rows_read_as(last) };
        lemma_holds_both(
            insert_statements(head, row_texts(front)),
            batches(table, columns, front),
            insert_statement(head, row_texts(last)),
            seq![statement],
        );
        assert(batches(table, columns, front) + seq![statement] =~= batches(table, columns, rows));
    }
}

/// The columns and the rows of a table.
pub ghost struct TableRows {
    pub columns: Seq<Seq<char>>,
    pub rows: Seq<Seq<SqlValueView>>,
}

/// The rows of the tables are such as a database has: each table has columns, and the values of
/// the rows carry their texts.
pub open spec fn is_stored(
    names: Seq<Seq<char>>,
    data: spec_fn(Seq<char>) -> TableRows,
) -> bool {
    forall|i: int|
        0 <= i < names.len() ==> data(#[trigger] names[i]).columns.len() > 0 && all_readable(
            data(names[i]).rows,
        )
}

/// What a step of a SQLite dump writes.
pub open spec fn step_text(
    step: StepView,
    data: spec_fn(Seq<char>) -> TableRows,
) -> Seq<char> {
    match step {
        StepView::Write(text) => text,
        StepView::Data(table) => table_data(
            head_of(table, data(table).columns),
            row_texts(data(table).rows),
        ),
        _ => Seq::empty(),
    }
}

/// What the steps of a SQLite dump write.
pub open spec fn dump_text(
    steps: Seq<StepView>,
    data: spec_fn(Seq<char>) -> TableRows,
) -> Seq<char>
    decreases steps.len(),
{
    if steps.len() == 0 {
        Seq::empty()
    } else {
        dump_text(steps.drop_last(), data) + step_text(steps.last(), data)
    }
}

proof fn lemma_text_of_both(
    a: Seq<StepView>,
    b: Seq<StepView>,
    data: spec_fn(Seq<char>) -> TableRows,
)
    ensures
        dump_text(a + b, data) == dump_text(a, data) + dump_text(b, data),
    decreases b.len(),
{
    if b.len() == 0 {
        assert(a + b =~= a);
        assert(dump_text(a, data) + dump_text(b, data) =~= dump_text(a, data));
    } else {
        lemma_text_of_both(a, b.drop_last(), data);
        assert((a + b).drop_last() =~= a + b.drop_last());
        assert(dump_text(a + b, data) =~= dump_text(a, data) + dump_text(b, data));
    }
}

spec fn steps_hold(
    steps: Seq<StepView>,
    data: spec_fn(Seq<char>) -> TableRows,
    statements: Seq<ReadStatement>,
) -> bool {
    holds(dump_text(steps, data), statements)
}

proof fn lemma_steps_hold_both(
    a: Seq<StepView>,
    first: Seq<ReadStatement>,
    b: Seq<StepView>,
    second: Seq<ReadStatement>,
    data: spec_fn(Seq<char>) -> TableRows,
)
    requires
        steps_hold(a, data, first),
        steps_hold(b, data, second),
    ensures
        steps_hold(a + b, data, first + second),
{
    lemma_text_of_both(a, b, data);
    lemma_holds_both(dump_text(a, data), first, dump_text(b, data), second);
}

proof fn lemma_step_holds(
    step: StepView,
    data: spec_fn(Seq<char>) -> TableRows,
    statements: Seq<ReadStatement>,
)
    requires
        holds(step_text(step, data), statements),
    ensures
        steps_hold(seq![step], data, statements),
{
    let steps = seq![step];
    assert(steps.drop_last() =~= Seq::empty());
    assert(dump_text(steps.drop_last(), data) =~= Seq::empty());
    assert(dump_text(steps, data) =~= step_text(step, data));
}

proof fn lemma_no_steps_hold(data: spec_fn(Seq<char>) -> TableRows)
    ensures
        steps_hold(Seq::empty(), data, Seq::empty()),
{
    lemma_holds_nothing();
}

/// Each object is made by one statement.
pub open spec fn all_whole(objects: Seq<SqliteObjectView>) -> bool {
    forall|i: int|
        0 <= i < objects.len() ==> is_whole(trim_end_mark((#[trigger] objects[i]).sql, ';'))
}

/// The statements that make the objects.
pub open spec fn made(objects: Seq<SqliteObjectView>) -> Seq<ReadStatement> {
    objects.map_values(|o: SqliteObjectView| ReadStatement::Other(trim_end_mark(o.sql, ';')))
}

/// The statements with the rows of the tables.
pub open spec fn table_inserts(
    names: Seq<Seq<char>>,
    data: spec_fn(Seq<char>) -> TableRows,
) -> Seq<ReadStatement>
    decreases names.len(),
{
    if names.len() == 0 {
        Seq::empty()
    } else {
        table_inserts(names.drop_last(), data) + batches(
            names.last(),
            data(names.last()).columns,
            data(names.last()).rows,
        )
    }
}

proof fn lemma_made(objects: Seq<SqliteObjectView>)
    requires
        objects.len() > 0,
    ensures
        made(objects) == made(objects.drop_last()) + seq![
            ReadStatement::Other(trim_end_mark(objects.last().sql, ';')),
        ],
{
    assert(made(objects) =~= made(objects.drop_last()) + seq![
        ReadStatement::Other(trim_end_mark(objects.last().sql, ';')),
    ]);
}

proof fn lemma_line_step(object: SqliteObjectView, data: spec_fn(Seq<char>) -> TableRows)
    requires
        is_whole(trim_end_mark(object.sql, ';')),
    ensures
        steps_hold(
            seq![StepView::Write(statement_line(object.sql))],
            data,
            seq![ReadStatement::Other(trim_end_mark(object.sql, ';'))],
        ),
{
    let sql = trim_end_mark(object.sql, ';');
    lemma_holds_line(sql);
    lemma_step_holds(
        StepView::Write(statement_line(object.sql)),
        data,
        seq![ReadStatement::Other(sql)],
    );
}

proof fn lemma_report_step(step: StepView, data: spec_fn(Seq<char>) -> TableRows)
    requires
        step is Report,
    ensures
        steps_hold(seq![step], data, Seq::empty()),
{
    lemma_holds_nothing();
    lemma_step_holds(step, data, Seq::empty());
}

proof fn lemma_table_lines_hold(
    tables: Seq<SqliteObjectView>,
    total: nat,
    schema_only: bool,
    data: spec_fn(Seq<char>) -> TableRows,
)
    requires
        all_whole(tables),
    ensures
        steps_hold(table_lines(tables, total, schema_only), data, made(tables)),
    decreases tables.len(),
{
    if tables.len() == 0 {
        lemma_no_steps_hold(data);
        assert(made(tables) =~= Seq::empty());
    } else {
        let rest = tables.drop_last();
        let last = tables.last();
        assert(all_whole(rest)) by {
            assert forall|i: int| 0 <= i < rest.len() implies is_whole(
                trim_end_mark((#[trigger] rest[i]).sql, ';'),
            ) by {
                assert(rest[i] == tables[i]);
            }
        }
        assert(is_whole(trim_end_mark(tables[tables.len() - 1].sql, ';')));
        lemma_table_lines_hold(rest, total, schema_only, data);
        lemma_line_step(last, data);
        lemma_made(tables);
        let before = table_lines(rest, total, schema_only);
        let line = seq![StepView::Write(statement_line(last.sql))];
        lemma_steps_hold_both(
            before,
            made(rest),
            line,
            seq![ReadStatement::Other(trim_end_mark(last.sql, ';'))],
            data,
        );
        assert(before + line =~= before.push(line[0]));
        if schema_only {
            let steps = table_lines(tables, total, schema_only);
            let report = seq![steps.last()];
            lemma_report_step(steps.last(), data);
            lemma_steps_hold_both(before + line, made(tables), report, Seq::empty(), data);
            assert((before + line) + report =~= steps);
            assert(made(tables) + Seq::<ReadStatement>::empty() =~= made(tables));
        }
    }
}

proof fn lemma_object_lines_hold(
    objects: Seq<SqliteObjectView>,
    data: spec_fn(Seq<char>) -> TableRows,
)
    requires
        all_whole(objects),
    ensures
        steps_hold(object_lines(objects), data, made(objects)),
    decreases objects.len(),
{
    if objects.len() == 0 {
        lemma_no_steps_hold(data);
        assert(made(objects) =~= Seq::empty());
    } else {
        let rest = objects.drop_last();
        let last = objects.last();
        assert(all_whole(rest)) by {
            assert forall|i: int| 0 <= i < rest.len() implies is_whole(
                trim_end_mark((#[trigger] rest[i]).sql, ';'),
            ) by {
                assert(rest[i] == objects[i]);
            }
        }
        assert(is_whole(trim_end_mark(objects[objects.len() - 1].sql, ';')));
        lemma_object_lines_hold(rest, data);
        lemma_line_step(last, data);
        lemma_made(objects);
        let line = seq![StepView::Write(statement_line(last.sql))];
        lemma_steps_hold_both(
            object_lines(rest),
            made(rest),
            line,
            seq![ReadStatement::Other(trim_end_mark(last.sql, ';'))],
            data,
        );
        assert(object_lines(rest) + line =~= object_lines(objects));
    }
}

proof fn lemma_data_steps_hold(
    names: Seq<Seq<char>>,
    total: nat,
    data: spec_fn(Seq<char>) -> TableRows,
)
    requires
        is_stored(names, data),
    ensures
        steps_hold(data_steps(names, total), data, table_inserts(names, data)),
    decreases names.len(),
{
    if names.len() == 0 {
        lemma_no_steps_hold(data);
    } else {
        let rest = names.drop_last();
        let last = names.last();
        let own = data(last);
        assert(is_stored(rest, data)) by {
            assert forall|i: int| 0 <= i < rest.len() implies data(
                #[trigger] rest[i],
            ).columns.len() > 0 && all_readable(data(rest[i]).rows) by {
                assert(rest[i] == names[i]);
            }
        }
        assert(own == data(names[names.len() - 1]));
        lemma_data_steps_hold(rest, total, data);
        lemma_holds_batches(last, own.columns, own.rows);
        law_rows_stand_in_bounded_statements(head_of(last, own.columns), row_texts(own.rows));
        let written = batches(last, own.columns, own.rows);
        let before = data_steps(rest, total);
        let step = seq![StepView::Data(last)];
        lemma_step_holds(StepView::Data(last), data, written);
        lemma_steps_hold_both(before, table_inserts(rest, data), step, written, data);
        let steps = data_steps(names, total);
        let report = seq![steps.last()];
        lemma_report_step(steps.last(), data);
        lemma_steps_hold_both(
            before + step,
            table_inserts(names, data),
            report,
            Seq::empty(),
            data,
        );
        assert((before + step) + report =~= steps);
        assert(table_inserts(names, data) + Seq::<ReadStatement>::empty() =~= table_inserts(
            names,
            data,
        ));
    }
}

proof fn lemma_header_holds(data: spec_fn(Seq<char>) -> TableRows)
    ensures
        steps_hold(seq![StepView::Write(sqlite_header(None))], data, Seq::empty()),
{
    reveal_strlit(
        "-- Luna Mux database dump\n-- Schema first, then data, then indexes/triggers/views.\n\n",
    );
    reveal_strlit("-- Luna Mux database dump");
    reveal_strlit("-- Schema first, then data, then indexes/triggers/views.");
    reveal_strlit("--");
    reveal_strlit("\n");
    let first = "-- Luna Mux database dump"@;
    let second = "-- Schema first, then data, then indexes/triggers/views."@;
    let nothing = Seq::<ReadStatement>::empty();
    assert(first.subrange(0, 2) =~= "--"@);
    assert(second.subrange(0, 2) =~= "--"@);
    lemma_holds_comment(first);
    lemma_holds_comment(second);
    lemma_holds_blank();
    lemma_holds_both(first + "\n"@, nothing, second + "\n"@, nothing);
    assert(nothing + nothing =~= nothing);
    lemma_holds_both((first + "\n"@) + (second + "\n"@), nothing, "\n"@, nothing);
    assert(sqlite_header(None) =~= (first + "\n"@) + (second + "\n"@) + "\n"@);
    lemma_step_holds(StepView::Write(sqlite_header(None)), data, nothing);
}

proof fn lemma_gap_holds(listed: nat, data: spec_fn(Seq<char>) -> TableRows)
    ensures
        steps_hold(gap(listed), data, Seq::empty()),
{
    if listed > 0 {
        lemma_holds_blank();
        lemma_step_holds(StepView::Write("\n"@), data, Seq::empty());
    } else {
        lemma_no_steps_hold(data);
    }
}

proof fn lemma_first_report_holds(total: nat, data: spec_fn(Seq<char>) -> TableRows)
    ensures
        steps_hold(first_report(total), data, Seq::empty()),
{
    if total > 0 {
        lemma_report_step(StepView::Report { current: 0, total, done: None }, data);
    } else {
        lemma_no_steps_hold(data);
    }
}

/// The statements of a SQLite dump: those that make the tables, those with their rows, and those
/// that make the indexes, triggers and views.
pub open spec fn dump_statements(
    objects: Seq<SqliteObject>,
    schema_only: bool,
    data: spec_fn(Seq<char>) -> TableRows,
) -> Seq<ReadStatement> {
    made(of_kind(objects, true)) + (if schema_only {
        Seq::empty()
    } else {
        table_inserts(object_names(of_kind(objects, true)), data)
    }) + made(of_kind(objects, false))
}

proof fn lemma_dump_holds(
    objects: Seq<SqliteObject>,
    schema_only: bool,
    data: spec_fn(Seq<char>) -> TableRows,
)
    requires
        all_whole(of_kind(objects, true)),
        all_whole(of_kind(objects, false)),
        is_stored(object_names(of_kind(objects, true)), data),
    ensures
        steps_hold(
            sqlite_steps(objects, None, schema_only),
            data,
            dump_statements(objects, schema_only, data),
        ),
{
    let tables = of_kind(objects, true);
    let others = of_kind(objects, false);
    let total = tables.len();
    let nothing = Seq::<ReadStatement>::empty();
    let header = seq![StepView::Write(sqlite_header(None))];
    let lines = table_lines(tables, total, schema_only);
    lemma_header_holds(data);
    lemma_first_report_holds(total, data);
    lemma_table_lines_hold(tables, total, schema_only, data);
    lemma_gap_holds(total, data);
    lemma_gap_holds(others.len(), data);
    lemma_object_lines_hold(others, data);
    assert(nothing + nothing =~= nothing);
    assert(nothing + made(tables) =~= made(tables));
    assert(made(tables) + nothing =~= made(tables));
    assert(nothing + made(others) =~= made(others));
    lemma_steps_hold_both(header, nothing, first_report(total), nothing, data);
    lemma_steps_hold_both(header + first_report(total), nothing, lines, made(tables), data);
    lemma_steps_hold_both(
        header + first_report(total) + lines,
        made(tables),
        gap(total),
        nothing,
        data,
    );
    let head = sqlite_head(objects, None, schema_only);
    let rows = sqlite_rows(objects, schema_only);
    let inserts = if schema_only {
        nothing
    } else {
        table_inserts(object_names(tables), data)
    };
    if schema_only {
        lemma_no_steps_hold(data);
    } else {
        lemma_data_steps_hold(object_names(tables), total, data);
    }
    lemma_steps_hold_both(head, made(tables), rows, inserts, data);
    lemma_steps_hold_both(gap(others.len()), nothing, object_lines(others), made(others), data);
    lemma_steps_hold_both(
        head + rows,
        made(tables) + inserts,
        sqlite_tail(objects),
        made(others),
        data,
    );
}

/// The rows that the statements put into a table, in their order.
pub open spec fn rows_put(statements: Seq<ReadStatement>, name: Seq<char>) -> Seq<Seq<ReadValue>>
    decreases statements.len(),
{
    if statements.len() == 0 {
        Seq::empty()
    } else {
        rows_put(statements.drop_last(), name) + match statements.last() {
            ReadStatement::Insert { table, rows, .. } if table == name => rows,
            _ => Seq::empty(),
        }
    }
}

proof fn lemma_rows_put_by_both(a: Seq<ReadStatement>, b: Seq<ReadStatement>, name: Seq<char>)
    ensures
        rows_put(a + b, name) == rows_put(a, name) + rows_put(b, name),
    decreases b.len(),
{
    if b.len() == 0 {
        assert(a + b =~= a);
        assert(rows_put(a, name) + rows_put(b, name) =~= rows_put(a, name));
    } else {
        lemma_rows_put_by_both(a, b.drop_last(), name);
        assert((a + b).drop_last() =~= a + b.drop_last());
        assert(rows_put(a + b, name) =~= rows_put(a, name) + rows_put(b, name));
    }
}

proof fn lemma_made_puts_nothing(objects: Seq<SqliteObjectView>, name: Seq<char>)
    ensures
        rows_put(made(objects), name) == Seq::<Seq<ReadValue>>::empty(),
    decreases objects.len(),
{
    if objects.len() > 0 {
        lemma_made_puts_nothing(objects.drop_last(), name);
        assert(made(objects).drop_last() =~= made(objects.drop_last()));
    } else {
        assert(made(objects) =~= Seq::empty());
    }
}

/// The statement, where it holds rows, holds those of a stored table: under its columns, at least
/// one and at most 200.
pub open spec fn is_bounded(
    statement: ReadStatement,
    names: Seq<Seq<char>>,
    data: spec_fn(Seq<char>) -> TableRows,
) -> bool {
    match statement {
        ReadStatement::Insert { table, columns, rows } => names.contains(table) && columns == data(
            table,
        ).columns && 0 < rows.len() <= 200,
        ReadStatement::Other(_) => true,
    }
}

proof fn lemma_batches(
    table: Seq<char>,
    columns: Seq<Seq<char>>,
    rows: Seq<Seq<SqlValueView>>,
    name: Seq<char>,
)
    ensures
        rows_put(batches(table, columns, rows), name) == (if name == table {
            rows_read_as(rows)
        } else {
            Seq::empty()
        }),
        forall|k: int|
            0 <= k < batches(table, columns, rows).len() ==> match #[trigger] batches(
                table,
                columns,
                rows,
            )[k] {
                ReadStatement::Insert { table: t, columns: c, rows: r } => t == table && c
                    == columns && 0 < r.len() <= 200,
                ReadStatement::Other(_) => false,
            },
    decreases rows.len(),
{
    let all = batches(table, columns, rows);
    if rows.len() == 0 {
        assert(rows_read_as(rows) =~= Seq::empty());
    } else {
        let full = rows.len() - last_batch(rows.len());
        let front = batches(table, columns, rows.take(full));
        lemma_batches(table, columns, rows.take(full), name);
        assert(all.drop_last() =~= front);
        assert(rows_read_as(rows) =~= rows_read_as(rows.take(full)) + rows_read_as(
            rows.skip(full),
        ));
        assert forall|k: int| 0 <= k < all.len() implies match #[trigger] all[k] {
            ReadStatement::Insert { table: t, columns: c, rows: r } => t == table && c == columns
                && 0 < r.len() <= 200,
            ReadStatement::Other(_) => false,
        } by {
            if k < front.len() {
                assert(all[k] == front[k]);
            }
        }
    }
}

proof fn lemma_table_inserts(
    names: Seq<Seq<char>>,
    data: spec_fn(Seq<char>) -> TableRows,
    name: Seq<char>,
)
    requires
        names.no_duplicates(),
    ensures
        rows_put(table_inserts(names, data), name) == (if names.contains(name) {
            rows_read_as(data(name).rows)
        } else {
            Seq::empty()
        }),
        forall|k: int|
            0 <= k < table_inserts(names, data).len() ==> is_bounded(
                #[trigger] table_inserts(names, data)[k],
                names,
                data,
            ),
    decreases names.len(),
{
    let all = table_inserts(names, data);
    if names.len() > 0 {
        let rest = names.drop_last();
        let last = names.last();
        let front = table_inserts(rest, data);
        let own = batches(last, data(last).columns, data(last).rows);
        lemma_table_inserts(rest, data, name);
        lemma_batches(last, data(last).columns, data(last).rows, name);
        lemma_rows_put_by_both(front, own, name);
        assert(names[names.len() - 1] == last);
        assert forall|n: Seq<char>| rest.contains(n) implies #[trigger] names.contains(n) by {
            let i = choose|i: int| 0 <= i < rest.len() && rest[i] == n;
            assert(names[i] == n);
        }
        if rest.contains(name) {
            let i = choose|i: int| 0 <= i < rest.len() && rest[i] == name;
            assert(names[i] == name && i != names.len() - 1);
            assert(name != last);
            assert(rows_put(all, name) =~= rows_read_as(data(name).rows));
        } else if name == last {
            assert(rows_put(all, name) =~= rows_read_as(data(name).rows));
        } else {
            if names.contains(name) {
                let i = choose|i: int| 0 <= i < names.len() && names[i] == name;
                assert(rest[i] == name);
            }
            assert(rows_put(all, name) =~= Seq::empty());
        }
        assert forall|k: int| 0 <= k < all.len() implies is_bounded(
            #[trigger] all[k],
            names,
            data,
        ) by {
            if k < front.len() {
                assert(all[k] == front[k]);
                assert(is_bounded(front[k], rest, data));
            } else {
                assert(all[k] == own[k - front.len()]);
            }
        }
    }
}

proof fn lemma_inserts_only(names: Seq<Seq<char>>, data: spec_fn(Seq<char>) -> TableRows)
    ensures
        forall|k: int|
            0 <= k < table_inserts(names, data).len() ==> (#[trigger] table_inserts(
                names,
                data,
            )[k]) is Insert,
    decreases names.len(),
{
    if names.len() > 0 {
        let last = names.last();
        let front = table_inserts(names.drop_last(), data);
        let own = batches(last, data(last).columns, data(last).rows);
        let all = table_inserts(names, data);
        lemma_inserts_only(names.drop_last(), data);
        lemma_batches(last, data(last).columns, data(last).rows, last);
        assert forall|k: int| 0 <= k < all.len() implies (#[trigger] all[k]) is Insert by {
            if k < front.len() {
                assert(all[k] == front[k]);
            } else {
                assert(all[k] == own[k - front.len()]);
            }
        }
    }
}

/// How many rows the statements hold.
pub open spec fn row_total(statements: Seq<ReadStatement>) -> nat
    decreases statements.len(),
{
    if statements.len() == 0 {
        0
    } else {
        row_total(statements.drop_last()) + match statements.last() {
            ReadStatement::Insert { rows, .. } => rows.len(),
            ReadStatement::Other(_) => 0,
        }
    }
}

proof fn lemma_total_of_both(a: Seq<ReadStatement>, b: Seq<ReadStatement>)
    ensures
        row_total(a + b) == row_total(a) + row_total(b),
    decreases b.len(),
{
    if b.len() == 0 {
        assert(a + b =~= a);
    } else {
        lemma_total_of_both(a, b.drop_last());
        assert((a + b).drop_last() =~= a + b.drop_last());
    }
}

proof fn lemma_total_made(objects: Seq<SqliteObjectView>)
    ensures
        row_total(made(objects)) == 0,
    decreases objects.len(),
{
    if objects.len() > 0 {
        lemma_total_made(objects.drop_last());
        assert(made(objects).drop_last() =~= made(objects.drop_last()));
    }
}

proof fn lemma_total_batches(
    table: Seq<char>,
    columns: Seq<Seq<char>>,
    rows: Seq<Seq<SqlValueView>>,
)
    ensures
        row_total(batches(table, columns, rows)) == rows.len(),
    decreases rows.len(),
{
    if rows.len() > 0 {
        let full = rows.len() - last_batch(rows.len());
        lemma_total_batches(table, columns, rows.take(full));
        assert(batches(table, columns, rows).drop_last() =~= batches(
            table,
            columns,
            rows.take(full),
        ));
    }
}

/// How many rows each table has.
pub open spec fn row_counts(data: spec_fn(Seq<char>) -> TableRows) -> spec_fn(Seq<char>) -> nat {
    |table: Seq<char>| data(table).rows.len()
}

proof fn lemma_total_inserts(
    names: Seq<Seq<char>>,
    total: nat,
    data: spec_fn(Seq<char>) -> TableRows,
)
    ensures
        row_total(table_inserts(names, data)) == steps_rows(
            data_steps(names, total),
            row_counts(data),
        ),
    decreases names.len(),
{
    if names.len() > 0 {
        let last = names.last();
        let rest = names.drop_last();
        let before = data_steps(rest, total);
        let steps = data_steps(names, total);
        lemma_total_inserts(rest, total, data);
        lemma_total_batches(last, data(last).columns, data(last).rows);
        lemma_total_of_both(
            table_inserts(rest, data),
            batches(last, data(last).columns, data(last).rows),
        );
        assert(steps.drop_last() =~= before.push(StepView::Data(last)));
        assert(before.push(StepView::Data(last)).drop_last() =~= before);
        reveal_with_fuel(steps_rows, 3);
    }
}

proof fn lemma_no_rows(steps: Seq<StepView>, counts: spec_fn(Seq<char>) -> nat)
    requires
        no_data(steps),
    ensures
        steps_rows(steps, counts) == 0,
    decreases steps.len(),
{
    if steps.len() > 0 {
        let rest = steps.drop_last();
        assert(!(steps[steps.len() - 1] is Data));
        assert forall|i: int| 0 <= i < rest.len() implies !((#[trigger] rest[i]) is Data) by {
            assert(rest[i] == steps[i]);
        }
        lemma_no_rows(rest, counts);
    }
}

proof fn lemma_dump_rows(
    objects: Seq<SqliteObject>,
    schema_only: bool,
    data: spec_fn(Seq<char>) -> TableRows,
)
    ensures
        steps_rows(sqlite_steps(objects, None, schema_only), row_counts(data)) == row_total(
            dump_statements(objects, schema_only, data),
        ),
{
    let tables = of_kind(objects, true);
    let others = of_kind(objects, false);
    let counts = row_counts(data);
    let head = sqlite_head(objects, None, schema_only);
    let rows = sqlite_rows(objects, schema_only);
    let tail = sqlite_tail(objects);
    let inserts = if schema_only {
        Seq::empty()
    } else {
        table_inserts(object_names(tables), data)
    };
    law_sqlite_dump_order(objects, None, schema_only);
    lemma_no_rows(head, counts);
    lemma_no_rows(tail, counts);
    lemma_rows_of_both(head, rows, counts);
    lemma_rows_of_both(head + rows, tail, counts);
    lemma_total_made(tables);
    lemma_total_made(others);
    lemma_total_of_both(made(tables), inserts);
    lemma_total_of_both(made(tables) + inserts, made(others));
    lemma_total_inserts(object_names(tables), tables.len(), data);
}

/// The dump of a whole SQLite database is read back as what was dumped. Its statements are first
/// those that made the tables, then those with rows, then those that made the indexes, triggers and
/// views. Each statement with rows names its table and its columns and holds at most 200 rows, and
/// together they put into each table the rows that it had, in their order. A dump of the schema
/// alone puts no rows. The tables and rows that are told of the dump are those that its statements
/// make and hold.
pub proof fn law_sqlite_dumps_read_back(
    objects: Seq<SqliteObject>,
    schema_only: bool,
    data: spec_fn(Seq<char>) -> TableRows,
    run: DumpRun,
    bytes: u64,
)
    requires
        all_whole(of_kind(objects, true)),
        all_whole(of_kind(objects, false)),
        is_stored(object_names(of_kind(objects, true)), data),
        object_names(of_kind(objects, true)).no_duplicates(),
        step_views(run.steps@) == sqlite_steps(objects, None, schema_only),
        run.tables == of_kind(objects, true).len(),
        run.is_done(),
        counts_rows(run, row_counts(data)),
    ensures
        ({
            let names = object_names(of_kind(objects, true));
            let first = made(of_kind(objects, true));
            let last = made(of_kind(objects, false));
            let read = dump_statements(objects, schema_only, data);
            let export = export_of(run, bytes);
            &&& read_script(dump_text(step_views(run.steps@), data)) == Some(read)
            &&& read.take(first.len() as int) == first
            &&& read.skip(read.len() - last.len()) == last
            &&& forall|k: int|
                0 <= k < read.len() ==> ((#[trigger] read[k]) is Insert <==> first.len() <= k
                    < read.len() - last.len())
            &&& forall|k: int| 0 <= k < read.len() ==> is_bounded(#[trigger] read[k], names, data)
            &&& forall|name: Seq<char>| #[trigger]
                rows_put(read, name) == (if !schema_only && names.contains(name) {
                    rows_read_as(data(name).rows)
                } else {
                    Seq::empty()
                })
            &&& export.tables == first.len()
            &&& export.rows == row_total(read)
        }),
{
    let tables = of_kind(objects, true);
    let others = of_kind(objects, false);
    let names = object_names(tables);
    let read = dump_statements(objects, schema_only, data);
    let inserts = if schema_only {
        Seq::empty()
    } else {
        table_inserts(names, data)
    };
    let text = dump_text(sqlite_steps(objects, None, schema_only), data);
    lemma_dump_holds(objects, schema_only, data);
    lemma_dump_rows(objects, schema_only, data);
    assert(step_views(run.steps@).take(run.at as int) =~= step_views(run.steps@));
    assert(read.take(made(tables).len() as int) =~= made(tables));
    assert(read.skip(read.len() - made(others).len()) =~= made(others));
    assert forall|k: int| 0 <= k < read.len() implies ((#[trigger] read[k]) is Insert
        <==> made(tables).len() <= k < read.len() - made(others).len()) by {
        lemma_inserts_only(names, data);
        if k < made(tables).len() {
            assert(read[k] == made(tables)[k]);
        } else if k < made(tables).len() + inserts.len() {
            assert(read[k] == inserts[k - made(tables).len()]);
        } else {
            assert(read[k] == made(others)[k - made(tables).len() - inserts.len()]);
        }
    }
    let nothing = Seq::<char>::empty();
    assert(read_script(text + nothing) == preceded(read, read_script(nothing)));
    assert(text + nothing =~= text);
    assert(read + Seq::<ReadStatement>::empty() =~= read);
    assert forall|k: int| 0 <= k < read.len() implies is_bounded(
        #[trigger] read[k],
        names,
        data,
    ) by {
        lemma_table_inserts(names, data, Seq::empty());
        if made(tables).len() <= k < made(tables).len() + inserts.len() {
            assert(read[k] == inserts[k - made(tables).len()]);
        } else if k < made(tables).len() {
            assert(read[k] == made(tables)[k]);
        } else {
            assert(read[k] == made(others)[k - made(tables).len() - inserts.len()]);
        }
    }
    assert forall|name: Seq<char>| #[trigger]
        rows_put(read, name) == (if !schema_only && names.contains(name) {
            rows_read_as(data(name).rows)
        } else {
            Seq::empty()
        }) by {
        lemma_table_inserts(names, data, name);
        lemma_made_puts_nothing(tables, name);
        lemma_made_puts_nothing(others, name);
        lemma_rows_put_by_both(made(tables), inserts, name);
        lemma_rows_put_by_both(made(tables) + inserts, made(others), name);
        assert(rows_put(read, name) =~= rows_put(inserts, name));
    }
}

} // verus!
