//! Database dumps: how values and rows are written, and in which order the parts follow.
use vstd::prelude::*;
use vstd::string::*;
use vstd::utf8::*;

use crate::number_text::{hex, hex_text, signed_decimal, signed_decimal_text};
use crate::sql_text::{law_quoted_names_read_back, sql_string_literal, string_literal, unquoted};
use crate::text::{from_range, join, joined, push_text, same, to_chars, utf8_text, views};

verus! {

/// How many rows one `INSERT` holds.
pub const SQL_DUMP_ROWS_PER_STATEMENT: u64 = 200;

/// A real number: the bits of its double, and the shortest text that reads back as the same
/// number.
#[derive(Debug)]
pub struct SqlReal {
    pub bits: u64,
    pub text: String,
}

/// A value of a SQLite row.
#[derive(Debug)]
pub enum SqlValue {
    Null,
    Integer(i64),
    Real(SqlReal),
    Text(Vec<u8>),
    Blob(Vec<u8>),
}

/// What a value of a SQLite row holds.
pub ghost enum SqlValueView {
    Null,
    Integer(int),
    Real { bits: u64, text: Seq<char> },
    Text(Seq<u8>),
    Blob(Seq<u8>),
}

impl SqlValue {
    pub open spec fn view(&self) -> SqlValueView {
        match self {
            SqlValue::Null => SqlValueView::Null,
            SqlValue::Integer(n) => SqlValueView::Integer(*n as int),
            SqlValue::Real(number) => SqlValueView::Real { bits: number.bits, text: number.text@ },
            SqlValue::Text(bytes) => SqlValueView::Text(bytes@),
            SqlValue::Blob(bytes) => SqlValueView::Blob(bytes@),
        }
    }
}

/// The bits of a double that is neither infinite nor no number: not all bits of its exponent are
/// set.
pub open spec fn is_finite(bits: u64) -> bool {
    (bits / 0x10_0000_0000_0000) % 2048 != 2047
}

/// Whether the bits are those of a finite double.
pub fn finite(bits: u64) -> (r: bool)
    ensures
        r == is_finite(bits),
{
    (bits / 0x10_0000_0000_0000) % 2048 != 2047
}

/// The hexadecimal literal of bytes.
pub open spec fn hex_literal(bytes: Seq<u8>) -> Seq<char> {
    "X'"@ + hex(bytes) + "'"@
}

/// The hexadecimal literal of bytes.
pub fn write_sql_hex(bytes: &[u8]) -> (r: String)
    ensures
        r@ == hex_literal(bytes@),
{
    let mut r: String = "X'".to_owned();
    r.append(hex_text(bytes).as_str());
    r.append("'");
    r
}

/// The literal of a SQLite value. Numbers without a literal become `NULL`, and texts that are not
/// UTF-8 become a cast of their bytes.
pub open spec fn sql_literal(value: SqlValueView) -> Seq<char> {
    match value {
        SqlValueView::Null => "NULL"@,
        SqlValueView::Integer(n) => signed_decimal(n),
        SqlValueView::Real { bits, text } => if is_finite(bits) {
            text
        } else {
            "NULL"@
        },
        SqlValueView::Text(bytes) => if valid_utf8(bytes) {
            string_literal(decode_utf8(bytes))
        } else {
            "CAST("@ + hex_literal(bytes) + " AS TEXT)"@
        },
        SqlValueView::Blob(bytes) => hex_literal(bytes),
    }
}

/// The literal of a SQLite value.
pub fn write_sql_value(value: &SqlValue) -> (r: String)
    ensures
        r@ == sql_literal(value.view()),
{
    match value {
        SqlValue::Null => "NULL".to_owned(),
        SqlValue::Integer(n) => signed_decimal_text(*n),
        SqlValue::Real(number) => if finite(number.bits) {
            number.text.clone()
        } else {
            "NULL".to_owned()
        },
        SqlValue::Text(bytes) => match utf8_text(bytes.as_slice()) {
            Some(text) => sql_string_literal(text.as_str()),
            None => {
                let mut r: String = "CAST(".to_owned();
                r.append(write_sql_hex(bytes.as_slice()).as_str());
                r.append(" AS TEXT)");
                r
            },
        },
        SqlValue::Blob(bytes) => write_sql_hex(bytes.as_slice()),
    }
}

/// A text value is written so that reading its literal gives its bytes again.
pub proof fn law_text_literals_keep_their_bytes(bytes: Seq<u8>)
    requires
        valid_utf8(bytes),
    ensures
        ({
            let literal = sql_literal(SqlValueView::Text(bytes));
            let inner = literal.subrange(1, literal.len() - 1);
            &&& literal.len() >= 2
            &&& literal[0] == '\''
            &&& literal.last() == '\''
            &&& unquoted(inner, '\'') is Some
            &&& encode_utf8(unquoted(inner, '\'')->0) == bytes
        }),
{
    law_quoted_names_read_back(decode_utf8(bytes), '\'');
    decode_utf8_encode_utf8(bytes);
}

/// A row: its values between round brackets.
pub open spec fn row_text(values: Seq<Seq<char>>) -> Seq<char> {
    "("@ + join(values, ", "@) + ")"@
}

/// A row of the given literals.
pub fn row_of(values: &[String]) -> (r: String)
    ensures
        r@ == row_text(views(values@)),
{
    let mut r: String = "(".to_owned();
    r.append(joined(values, ", ").as_str());
    r.append(")");
    r
}

/// The literals of the values of a row.
pub open spec fn sql_literals(values: Seq<SqlValue>) -> Seq<Seq<char>> {
    values.map_values(|v: SqlValue| sql_literal(v.view()))
}

/// A row of SQLite values.
pub fn sqlite_row(values: &[SqlValue]) -> (r: String)
    ensures
        r@ == row_text(sql_literals(values@)),
{
    let mut literals: Vec<String> = Vec::new();
    let mut i: usize = 0;
    while i < values.len()
        invariant
            i <= values@.len(),
            views(literals@) == sql_literals(values@.take(i as int)),
        decreases values@.len() - i,
    {
        push_text(&mut literals, write_sql_value(&values[i]));
        assert(views(literals@) =~= sql_literals(values@.take(i + 1)));
        i = i + 1;
    }
    assert(values@.take(i as int) =~= values@);
    row_of(literals.as_slice())
}

/// What opens an `INSERT`.
pub open spec fn insert_head(table: Seq<char>, columns: Seq<Seq<char>>) -> Seq<char> {
    "INSERT INTO "@ + table + " ("@ + join(columns, ", "@) + ") VALUES\n  "@
}

/// The row with this place among the rows of a table, with what separates it from the one before
/// and closes a full statement.
pub open spec fn row_piece(head: Seq<char>, place: nat, row: Seq<char>) -> Seq<char> {
    (if place % 200 == 0 {
        head
    } else {
        ",\n  "@
    }) + row + (if place % 200 == 199 {
        ";\n"@
    } else {
        Seq::empty()
    })
}

/// The rows of a table as far as they were written.
pub open spec fn rows_written(head: Seq<char>, rows: Seq<Seq<char>>) -> Seq<char>
    decreases rows.len(),
{
    if rows.len() == 0 {
        Seq::empty()
    } else {
        rows_written(head, rows.drop_last()) + row_piece(
            head,
            (rows.len() - 1) as nat,
            rows.last(),
        )
    }
}

/// What closes the rows of a table.
pub open spec fn rows_end(count: nat) -> Seq<char> {
    if count % 200 > 0 {
        ";\n"@
    } else {
        Seq::empty()
    }
}

/// All rows of a table, in statements of at most 200 rows.
pub open spec fn table_data(head: Seq<char>, rows: Seq<Seq<char>>) -> Seq<char> {
    rows_written(head, rows) + rows_end(rows.len())
}

/// One `INSERT` with its rows.
pub open spec fn insert_statement(head: Seq<char>, rows: Seq<Seq<char>>) -> Seq<char> {
    head + join(rows, ",\n  "@) + ";\n"@
}

/// How many rows stand in the last of the statements for so many rows.
pub open spec fn last_batch(count: nat) -> nat {
    if count == 0 {
        0
    } else {
        ((count - 1) % 200 + 1) as nat
    }
}

/// An `INSERT` for each 200 rows, and one for those that are left.
pub open spec fn insert_statements(head: Seq<char>, rows: Seq<Seq<char>>) -> Seq<char>
    decreases rows.len(),
{
    if rows.len() == 0 {
        Seq::empty()
    } else {
        let full = rows.len() - last_batch(rows.len());
        insert_statements(head, rows.take(full)) + insert_statement(head, rows.skip(full))
    }
}

proof fn lemma_joined_more(head: Seq<char>, batch: Seq<Seq<char>>)
    requires
        batch.len() > 0,
    ensures
        (if batch.len() == 1 {
            head
        } else {
            head + join(batch.drop_last(), ",\n  "@) + ",\n  "@
        }) + batch.last() == head + join(batch, ",\n  "@),
{
    if batch.len() == 1 {
        assert(batch.last() == batch[0]);
    } else {
        assert(head + join(batch.drop_last(), ",\n  "@) + ",\n  "@ + batch.last() =~= head + (join(
            batch.drop_last(),
            ",\n  "@,
        ) + ",\n  "@ + batch.last()));
    }
}

/// The statement that is being written, as far as its rows go.
spec fn open_statement(head: Seq<char>, batch: Seq<Seq<char>>) -> Seq<char> {
    if batch.len() == 0 {
        Seq::empty()
    } else {
        head + join(batch, ",\n  "@)
    }
}

proof fn lemma_open_batch(head: Seq<char>, rows: Seq<Seq<char>>)
    ensures
        rows_written(head, rows) == insert_statements(
            head,
            rows.take(rows.len() - rows.len() % 200),
        ) + open_statement(head, rows.skip(rows.len() - rows.len() % 200)),
    decreases rows.len(),
{
    let n = rows.len() as int;
    if n == 0 {
        assert(rows.take(0) =~= rows);
        assert(rows.skip(0) =~= rows);
        assert(insert_statements(head, rows) + open_statement(head, rows) =~= Seq::empty());
    } else {
        let rest = rows.drop_last();
        let m = (n - 1) % 200;
        let full = n - 1 - m;
        let batch = rows.skip(full);
        lemma_open_batch(head, rest);
        assert(rest.take(full) =~= rows.take(full));
        assert(batch.drop_last() =~= rest.skip(full));
        assert(batch.last() == rows.last());
        lemma_joined_more(head, batch);
        lemma_batch_grows(head, rows, full);
    }
}

proof fn lemma_batch_grows(head: Seq<char>, rows: Seq<Seq<char>>, full: int)
    requires
        rows.len() > 0,
        full == rows.len() - 1 - (rows.len() - 1) % 200,
        rows_written(head, rows.drop_last()) == insert_statements(head, rows.take(full))
            + open_statement(head, rows.skip(full).drop_last()),
        (if rows.skip(full).len() == 1 {
            head
        } else {
            head + join(rows.skip(full).drop_last(), ",\n  "@) + ",\n  "@
        }) + rows.last() == head + join(rows.skip(full), ",\n  "@),
    ensures
        rows_written(head, rows) == insert_statements(
            head,
            rows.take(rows.len() - rows.len() % 200),
        ) + open_statement(head, rows.skip(rows.len() - rows.len() % 200)),
{
    let n = rows.len() as int;
    let m = (n - 1) % 200;
    let done = insert_statements(head, rows.take(full));
    let batch = rows.skip(full);
    let written = head + join(batch, ",\n  "@);
    let piece = row_piece(head, (n - 1) as nat, rows.last());
    assert(batch.len() == m + 1);
    assert(open_statement(head, batch.drop_last()) + piece =~= written + (if m == 199 {
        ";\n"@
    } else {
        Seq::empty()
    })) by {
        if m == 0 {
            assert(piece =~= head + rows.last());
        } else {
            let before = head + join(batch.drop_last(), ",\n  "@);
            assert(before + (",\n  "@ + rows.last()) =~= before + ",\n  "@ + rows.last());
        }
    }
    if m == 199 {
        assert(n % 200 == 0);
        assert(rows.take(n) =~= rows);
        assert(rows.skip(n) =~= Seq::empty());
        assert(last_batch(rows.len()) == 200);
        assert(full == n - 200);
        assert(insert_statements(head, rows) == done + insert_statement(head, batch));
        assert(rows_written(head, rows) =~= done + insert_statement(head, batch));
    } else {
        assert(n % 200 == m + 1);
        assert(rows_written(head, rows) =~= done + written);
    }
}

/// The rows of a table stand in statements that each name the table and its columns, hold at most
/// 200 rows and end; every row stands in one of them, in its order.
pub proof fn law_rows_stand_in_bounded_statements(head: Seq<char>, rows: Seq<Seq<char>>)
    ensures
        table_data(head, rows) == insert_statements(head, rows),
        last_batch(rows.len()) <= 200,
{
    lemma_open_batch(head, rows);
    let n = rows.len() as int;
    let full = n - n % 200;
    assert(rows.skip(full).len() == n % 200);
    if n % 200 == 0 {
        assert(rows.take(full) =~= rows);
        assert(table_data(head, rows) =~= insert_statements(head, rows));
    } else {
        assert(last_batch(rows.len()) == n % 200);
        assert(table_data(head, rows) =~= insert_statements(head, rows.take(full))
            + insert_statement(head, rows.skip(full)));
    }
}

/// Writes the rows of one table, one after the other.
#[derive(Debug)]
pub struct InsertWriter {
    pub head: String,
    pub written: u64,
}

impl InsertWriter {
    /// A writer for a table; the names are already quoted.
    pub fn new(table: &str, columns: &[String]) -> (r: Self)
        ensures
            r.head@ == insert_head(table@, views(columns@)),
            r.written == 0,
    {
        let mut head: String = "INSERT INTO ".to_owned();
        head.append(table);
        head.append(" (");
        head.append(joined(columns, ", ").as_str());
        head.append(") VALUES\n  ");
        InsertWriter { head, written: 0 }
    }

    /// Adds one row.
    pub fn push_row(&mut self, out: &mut String, row: &str)
        requires
            old(self).written < u64::MAX,
        ensures
            final(self).head@ == old(self).head@,
            final(self).written == old(self).written + 1,
            final(out)@ == old(out)@ + row_piece(old(self).head@, old(self).written as nat, row@),
    {
        let place: u64 = self.written % SQL_DUMP_ROWS_PER_STATEMENT;
        if place == 0 {
            out.append(self.head.as_str());
        } else {
            out.append(",\n  ");
        }
        out.append(row);
        if place == SQL_DUMP_ROWS_PER_STATEMENT - 1 {
            out.append(";\n");
        }
        self.written = self.written + 1;
        assert(out@ =~= old(out)@ + row_piece(old(self).head@, old(self).written as nat, row@));
    }

    /// Closes the last statement.
    pub fn finish(&self, out: &mut String)
        ensures
            final(out)@ == old(out)@ + rows_end(self.written as nat),
    {
        if self.written % SQL_DUMP_ROWS_PER_STATEMENT > 0 {
            out.append(";\n");
        } else {
            assert(out@ =~= old(out)@ + rows_end(self.written as nat));
        }
    }
}

/// Writes all rows of a table.
pub fn write_table_rows(out: &mut String, table: &str, columns: &[String], rows: &[String]) -> (r:
    u64)
    ensures
        r == rows@.len(),
        final(out)@ == old(out)@ + table_data(
            insert_head(table@, views(columns@)),
            views(rows@),
        ),
{
    let mut writer: InsertWriter = InsertWriter::new(table, columns);
    let ghost head = writer.head@;
    let mut i: usize = 0;
    assert(out@ =~= old(out)@ + rows_written(head, views(rows@).take(0)));
    while i < rows.len()
        invariant
            i <= rows@.len(),
            writer.written == i,
            writer.head@ == head,
            out@ == old(out)@ + rows_written(head, views(rows@).take(i as int)),
        decreases rows@.len() - i,
    {
        writer.push_row(out, rows[i].as_str());
        proof {
            let now = views(rows@).take(i + 1);
            assert(now.drop_last() =~= views(rows@).take(i as int));
            assert(out@ =~= old(out)@ + rows_written(head, now));
        }
        i = i + 1;
    }
    assert(views(rows@).take(i as int) =~= views(rows@));
    writer.finish(out);
    assert(out@ =~= old(out)@ + table_data(head, views(rows@)));
    writer.written
}

/// A text without the marks at its end.
pub open spec fn trim_end_mark(s: Seq<char>, mark: char) -> Seq<char>
    decreases s.len(),
{
    if s.len() > 0 && s.last() == mark {
        trim_end_mark(s.drop_last(), mark)
    } else {
        s
    }
}

/// A text without the marks at its end.
pub fn without_end_mark(s: &str, mark: char) -> (r: String)
    ensures
        r@ == trim_end_mark(s@, mark),
{
    let chars = to_chars(s);
    let mut end: usize = chars.len();
    assert(s@.take(end as int) =~= s@);
    while end > 0 && chars[end - 1] == mark
        invariant
            chars@ == s@,
            end <= chars@.len(),
            trim_end_mark(s@, mark) == trim_end_mark(s@.take(end as int), mark),
        decreases end,
    {
        assert(s@.take(end as int).drop_last() =~= s@.take(end - 1));
        end = end - 1;
    }
    let r = from_range(chars.as_slice(), 0, end);
    assert(r@ =~= s@.take(end as int));
    r
}

/// A double is finite unless all bits of its exponent are set.
pub proof fn law_only_full_exponents_are_not_finite(sign: u64, exponent: u64, fraction: u64)
    requires
        sign < 2,
        exponent < 2048,
        fraction < 0x10_0000_0000_0000,
    ensures
        is_finite(
            (sign * 0x8000_0000_0000_0000 + exponent * 0x10_0000_0000_0000 + fraction) as u64,
        ) <==> exponent != 2047,
{
    let bits = (sign * 0x8000_0000_0000_0000 + exponent * 0x10_0000_0000_0000 + fraction) as u64;
    assert(bits / 0x10_0000_0000_0000 == sign * 2048 + exponent) by (nonlinear_arith)
        requires
            bits == sign * 0x8000_0000_0000_0000 + exponent * 0x10_0000_0000_0000 + fraction,
            fraction < 0x10_0000_0000_0000,
            0 <= fraction,
    ;
    assert((sign * 2048 + exponent) % 2048 == exponent) by (nonlinear_arith)
        requires
            0 <= exponent < 2048,
            0 <= sign < 2,
    ;
}

/// What is left of a statement does not end in the mark, and what was taken from it is made of the
/// mark alone.
pub proof fn law_end_marks_are_taken_off(s: Seq<char>, mark: char)
    ensures
        ({
            let rest = trim_end_mark(s, mark);
            &&& rest.len() <= s.len()
            &&& s.take(rest.len() as int) == rest
            &&& rest.len() > 0 ==> rest.last() != mark
            &&& forall|i: int| rest.len() <= i < s.len() ==> #[trigger] s[i] == mark
        }),
    decreases s.len(),
{
    if s.len() > 0 && s.last() == mark {
        let front = s.drop_last();
        law_end_marks_are_taken_off(front, mark);
        let rest = trim_end_mark(s, mark);
        assert(s.take(rest.len() as int) =~= front.take(rest.len() as int));
        assert forall|i: int| rest.len() <= i < s.len() implies #[trigger] s[i] == mark by {
            if i < front.len() {
                assert(front[i] == s[i]);
            }
        }
    } else {
        assert(s.take(s.len() as int) =~= s);
    }
}

} // verus!
