//! What the MySQL driver sends and receives: statements, and values in results and dumps.
use vstd::prelude::*;
use vstd::string::*;
use vstd::utf8::*;

use crate::dump_plan::opt_str;
use crate::json::{Json, JsonNumber, JsonView};
use crate::number_text::{
    decimal, decimal_text, hex, padded, padded_text, signed_decimal, signed_decimal_text,
};
use crate::sql_dump::{
    finite, hex_literal, is_finite, row_of, row_text, trim_end_mark, without_end_mark,
    write_sql_hex, SqlReal,
};
use crate::sql_text::{
    identifier, law_quoted_names_read_back, sql_identifier, sql_string_literal, string_literal,
    unquoted,
};
use crate::text::{lossy_text, lossy_utf8, push_text, utf8_text, views};

verus! {

/// The character set of values that have no text form.
pub const MYSQL_BINARY_CHARSET: u16 = 63;

/// How a value is written in a dump: numbers as they are, values without a text form in
/// hexadecimal, and the rest between quotes.
#[derive(Clone, Copy, Debug, PartialEq, Eq, Structural)]
pub enum MysqlValueKind {
    Number,
    Binary,
    Text,
}

/// The codes of the column types that hold a moment or a span of time.
pub open spec fn is_temporal(code: u8) -> bool {
    code == 7 || code == 10 || code == 11 || code == 12 || code == 14 || code == 17 || code == 18
        || code == 19
}

/// The codes of the column types that hold a number: decimal, tiny, short, long, float, double,
/// long long, medium, year, and the newer decimal.
pub open spec fn is_numeric(code: u8) -> bool {
    code <= 5 || code == 8 || code == 9 || code == 13 || code == 246
}

/// Reads the code of a column type and calls `mysql_async::consts::ColumnType::is_numeric_type`;
/// a code that is none of the known types is not numeric.
#[verifier::external_body]
fn is_numeric_type(code: u8) -> (r: bool)
    ensures
        r == is_numeric(code),
{
    mysql_async::consts::ColumnType::try_from(code).map(|kind| kind.is_numeric_type()).unwrap_or(false)
}

/// The way a column is written, by the code of its type and its character set.
pub open spec fn value_kind(code: u8, character_set: u16) -> MysqlValueKind {
    if is_temporal(code) {
        MysqlValueKind::Text
    } else if is_numeric(code) {
        MysqlValueKind::Number
    } else if character_set == MYSQL_BINARY_CHARSET {
        MysqlValueKind::Binary
    } else {
        MysqlValueKind::Text
    }
}

/// The way a column is written. Columns of time report the binary character set too, and do have a
/// text form.
pub fn mysql_value_kind(code: u8, character_set: u16) -> (r: MysqlValueKind)
    ensures
        r == value_kind(code, character_set),
{
    if code == 7 || code == 10 || code == 11 || code == 12 || code == 14 || code == 17 || code == 18
        || code == 19 {
        MysqlValueKind::Text
    } else if is_numeric_type(code) {
        MysqlValueKind::Number
    } else if character_set == MYSQL_BINARY_CHARSET {
        MysqlValueKind::Binary
    } else {
        MysqlValueKind::Text
    }
}

/// A moment, as the driver gives it.
#[derive(Clone, Copy, Debug, PartialEq, Eq, Structural)]
pub struct MysqlDate {
    pub year: u16,
    pub month: u8,
    pub day: u8,
    pub hour: u8,
    pub minute: u8,
    pub second: u8,
    pub micros: u32,
}

/// A span of time, as the driver gives it.
#[derive(Clone, Copy, Debug, PartialEq, Eq, Structural)]
pub struct MysqlTime {
    pub negative: bool,
    pub days: u32,
    pub hours: u8,
    pub minutes: u8,
    pub seconds: u8,
    pub micros: u32,
}

impl MysqlTime {
    /// The hours of the days and the hours beside them can be counted.
    pub open spec fn countable(self) -> bool {
        self.days * 24 + self.hours <= u32::MAX
    }

    /// The hours of the days and the hours beside them.
    pub open spec fn total_hours(self) -> nat {
        (self.days * 24 + self.hours) as nat
    }
}

/// A value of a MySQL row.
#[derive(Debug)]
pub enum MysqlValue {
    Null,
    Bytes(Vec<u8>),
    Int(i64),
    UInt(u64),
    Float(SqlReal),
    Double(SqlReal),
    Date(MysqlDate),
    Time(MysqlTime),
}

/// The text of a moment; the fraction is left out where it is zero.
pub open spec fn datetime_text(date: MysqlDate) -> Seq<char> {
    let base = padded(date.year as nat, 4) + "-"@ + padded(date.month as nat, 2) + "-"@ + padded(
        date.day as nat,
        2,
    ) + " "@ + padded(date.hour as nat, 2) + ":"@ + padded(date.minute as nat, 2) + ":"@ + padded(
        date.second as nat,
        2,
    );
    if date.micros == 0 {
        base
    } else {
        base + "."@ + padded(date.micros as nat, 6)
    }
}

fn push_date(out: &mut String, date: MysqlDate)
    ensures
        final(out)@ == old(out)@ + (padded(date.year as nat, 4) + "-"@ + padded(date.month as nat, 2)
            + "-"@ + padded(date.day as nat, 2) + " "@ + padded(date.hour as nat, 2) + ":"@
            + padded(date.minute as nat, 2) + ":"@ + padded(date.second as nat, 2)),
{
    out.append(padded_text(date.year as u64, 4).as_str());
    out.append("-");
    out.append(padded_text(date.month as u64, 2).as_str());
    out.append("-");
    out.append(padded_text(date.day as u64, 2).as_str());
    out.append(" ");
    out.append(padded_text(date.hour as u64, 2).as_str());
    out.append(":");
    out.append(padded_text(date.minute as u64, 2).as_str());
    out.append(":");
    out.append(padded_text(date.second as u64, 2).as_str());
    assert(out@ =~= old(out)@ + (padded(date.year as nat, 4) + "-"@ + padded(date.month as nat, 2)
        + "-"@ + padded(date.day as nat, 2) + " "@ + padded(date.hour as nat, 2) + ":"@ + padded(
        date.minute as nat,
        2,
    ) + ":"@ + padded(date.second as nat, 2)));
}

/// The text of a moment.
pub fn mysql_datetime_text(date: MysqlDate) -> (r: String)
    ensures
        r@ == datetime_text(date),
{
    let mut r: String = String::new();
    push_date(&mut r, date);
    if date.micros != 0 {
        r.append(".");
        r.append(padded_text(date.micros as u64, 6).as_str());
    }
    assert(r@ =~= datetime_text(date));
    r
}

/// The sign of a span of time.
pub open spec fn sign_text(negative: bool) -> Seq<char> {
    if negative {
        "-"@
    } else {
        ""@
    }
}

/// The text of a span of time; the fraction is left out where it is zero.
pub open spec fn time_text(time: MysqlTime) -> Seq<char> {
    let base = sign_text(time.negative) + padded(time.total_hours(), 2) + ":"@ + padded(
        time.minutes as nat,
        2,
    ) + ":"@ + padded(time.seconds as nat, 2);
    if time.micros == 0 {
        base
    } else {
        base + "."@ + padded(time.micros as nat, 6)
    }
}

/// The text of a span of time.
pub fn mysql_time_text(time: MysqlTime) -> (r: String)
    requires
        time.countable(),
    ensures
        r@ == time_text(time),
{
    let hours: u32 = time.days * 24 + time.hours as u32;
    let mut r: String = if time.negative {
        "-".to_owned()
    } else {
        "".to_owned()
    };
    r.append(padded_text(hours as u64, 2).as_str());
    r.append(":");
    r.append(padded_text(time.minutes as u64, 2).as_str());
    r.append(":");
    r.append(padded_text(time.seconds as u64, 2).as_str());
    if time.micros != 0 {
        r.append(".");
        r.append(padded_text(time.micros as u64, 6).as_str());
    }
    r
}

/// What can stand between quotes as it is: UTF-8 without control characters and backslashes.
pub open spec fn is_plain(bytes: Seq<u8>) -> bool {
    valid_utf8(bytes) && forall|i: int|
        0 <= i < bytes.len() ==> #[trigger] bytes[i] >= 0x20 && bytes[i] != 0x7f && bytes[i] != 92
}

/// A string in a dump; what has no printable form stands in hexadecimal.
pub open spec fn dump_string(bytes: Seq<u8>) -> Seq<char> {
    if is_plain(bytes) {
        string_literal(decode_utf8(bytes))
    } else {
        hex_literal(bytes)
    }
}

fn all_printable(bytes: &[u8]) -> (r: bool)
    ensures
        r == (forall|i: int|
            0 <= i < bytes@.len() ==> #[trigger] bytes@[i] >= 0x20 && bytes@[i] != 0x7f && bytes@[i]
                != 92),
{
    let mut i: usize = 0;
    while i < bytes.len()
        invariant
            i <= bytes@.len(),
            forall|j: int|
                0 <= j < i ==> #[trigger] bytes@[j] >= 0x20 && bytes@[j] != 0x7f && bytes@[j] != 92,
        decreases bytes@.len() - i,
    {
        let b: u8 = bytes[i];
        if b < 0x20 || b == 0x7f || b == 92 {
            assert(!(bytes@[i as int] >= 0x20 && bytes@[i as int] != 0x7f && bytes@[i as int]
                != 92));
            return false;
        }
        i = i + 1;
    }
    true
}

/// A string in a dump.
pub fn mysql_dump_string(bytes: &[u8]) -> (r: String)
    ensures
        r@ == dump_string(bytes@),
{
    if all_printable(bytes) {
        match utf8_text(bytes) {
            Some(text) => {
                return sql_string_literal(text.as_str());
            },
            None => {},
        }
    }
    write_sql_hex(bytes)
}

/// A byte of a number: a digit, a sign, a point or an exponent.
pub open spec fn is_number_byte(b: u8) -> bool {
    (48 <= b && b <= 57) || b == 43 || b == 45 || b == 46 || b == 101 || b == 69
}

/// The bytes of a number as the server writes it.
pub open spec fn is_number_text(bytes: Seq<u8>) -> bool {
    bytes.len() > 0 && forall|i: int| 0 <= i < bytes.len() ==> is_number_byte(#[trigger] bytes[i])
}

/// The characters of bytes of ASCII.
pub open spec fn ascii_text(bytes: Seq<u8>) -> Seq<char> {
    bytes.map_values(|b: u8| b as char)
}

fn number_text(bytes: &[u8]) -> (r: Option<String>)
    ensures
        r is Some == is_number_text(bytes@),
        r is Some ==> r->0@ == ascii_text(bytes@),
{
    let mut text: String = String::new();
    let mut i: usize = 0;
    while i < bytes.len()
        invariant
            i <= bytes@.len(),
            forall|j: int| 0 <= j < i ==> is_number_byte(#[trigger] bytes@[j]),
            text@ == ascii_text(bytes@.take(i as int)),
        decreases bytes@.len() - i,
    {
        let b: u8 = bytes[i];
        if !((48 <= b && b <= 57) || b == 43 || b == 45 || b == 46 || b == 101 || b == 69) {
            assert(!is_number_byte(bytes@[i as int]));
            return None;
        }
        text.push(b as char);
        assert(text@ =~= ascii_text(bytes@.take(i + 1)));
        i = i + 1;
    }
    assert(bytes@.take(i as int) =~= bytes@);
    if bytes.len() == 0 {
        None
    } else {
        Some(text)
    }
}

/// The literal of a MySQL value in a column of the given kind.
pub open spec fn dump_value(value: MysqlValue, kind: MysqlValueKind) -> Seq<char> {
    match value {
        MysqlValue::Null => "NULL"@,
        MysqlValue::Bytes(bytes) => match kind {
            MysqlValueKind::Number => if is_number_text(bytes@) {
                ascii_text(bytes@)
            } else {
                dump_string(bytes@)
            },
            MysqlValueKind::Text => dump_string(bytes@),
            MysqlValueKind::Binary => hex_literal(bytes@),
        },
        MysqlValue::Int(n) => signed_decimal(n as int),
        MysqlValue::UInt(n) => decimal(n as nat),
        MysqlValue::Float(number) => number.text@,
        MysqlValue::Double(number) => number.text@,
        MysqlValue::Date(date) => dump_string(encode_utf8(datetime_text(date))),
        MysqlValue::Time(time) => dump_string(encode_utf8(time_text(time))),
    }
}

/// The spans of time among the values can be written.
pub open spec fn writable(value: MysqlValue) -> bool {
    match value {
        MysqlValue::Time(time) => time.countable(),
        _ => true,
    }
}

/// The literal of a MySQL value in a column of the given kind.
pub fn mysql_dump_value(value: &MysqlValue, kind: MysqlValueKind) -> (r: String)
    requires
        writable(*value),
    ensures
        r@ == dump_value(*value, kind),
{
    match value {
        MysqlValue::Null => "NULL".to_owned(),
        MysqlValue::Bytes(bytes) => match kind {
            MysqlValueKind::Number => match number_text(bytes.as_slice()) {
                Some(text) => text,
                None => mysql_dump_string(bytes.as_slice()),
            },
            MysqlValueKind::Text => mysql_dump_string(bytes.as_slice()),
            MysqlValueKind::Binary => write_sql_hex(bytes.as_slice()),
        },
        MysqlValue::Int(n) => signed_decimal_text(*n),
        MysqlValue::UInt(n) => decimal_text(*n),
        MysqlValue::Float(number) => number.text.clone(),
        MysqlValue::Double(number) => number.text.clone(),
        MysqlValue::Date(date) => {
            let text = mysql_datetime_text(*date);
            mysql_dump_string(text.as_str().as_bytes())
        },
        MysqlValue::Time(time) => {
            let text = mysql_time_text(*time);
            mysql_dump_string(text.as_str().as_bytes())
        },
    }
}

/// The kind of the column with this place; text where the columns are fewer.
pub open spec fn kind_at(kinds: Seq<MysqlValueKind>, place: int) -> MysqlValueKind {
    if place < kinds.len() {
        kinds[place]
    } else {
        MysqlValueKind::Text
    }
}

/// The literals of the values of a row.
pub open spec fn dump_values(values: Seq<MysqlValue>, kinds: Seq<MysqlValueKind>) -> Seq<Seq<char>> {
    Seq::new(values.len(), |i: int| dump_value(values[i], kind_at(kinds, i)))
}

/// A row of MySQL values.
pub fn mysql_row(values: &[MysqlValue], kinds: &[MysqlValueKind]) -> (r: String)
    requires
        forall|i: int| 0 <= i < values@.len() ==> writable(#[trigger] values@[i]),
    ensures
        r@ == row_text(dump_values(values@, kinds@)),
{
    let mut literals: Vec<String> = Vec::new();
    let mut i: usize = 0;
    assert(views(literals@) =~= dump_values(values@, kinds@).take(0));
    while i < values.len()
        invariant
            i <= values@.len(),
            forall|i: int| 0 <= i < values@.len() ==> writable(#[trigger] values@[i]),
            views(literals@) == dump_values(values@, kinds@).take(i as int),
        decreases values@.len() - i,
    {
        let kind = if i < kinds.len() {
            kinds[i]
        } else {
            MysqlValueKind::Text
        };
        push_text(&mut literals, mysql_dump_value(&values[i], kind));
        assert(views(literals@) =~= dump_values(values@, kinds@).take(i + 1));
        i = i + 1;
    }
    assert(dump_values(values@, kinds@).take(i as int) =~= dump_values(values@, kinds@));
    row_of(literals.as_slice())
}

/// The statement that lists the tables and views, or looks up one of them.
pub open spec fn objects_statement(table: Option<Seq<char>>) -> Seq<char> {
    let base = "SELECT table_name, table_type FROM information_schema.tables WHERE table_schema = DATABASE()"@;
    match table {
        Some(name) => base + " AND table_name = "@ + string_literal(name)
            + " ORDER BY table_type, table_name"@,
        None => base + " ORDER BY table_type, table_name"@,
    }
}

/// The statement that lists the tables and views, or looks up one of them.
pub fn mysql_dump_objects_sql(table: Option<&str>) -> (r: String)
    ensures
        r@ == objects_statement(opt_str(table)),
{
    let mut sql: String = "SELECT table_name, table_type FROM information_schema.tables WHERE table_schema = DATABASE()".to_owned();
    match table {
        Some(name) => {
            sql.append(" AND table_name = ");
            sql.append(sql_string_literal(name).as_str());
        },
        None => {},
    }
    sql.append(" ORDER BY table_type, table_name");
    sql
}

/// The statement that shows the definition of a table or a view.
pub fn mysql_object_ddl_sql(name: &str, is_view: bool) -> (r: String)
    ensures
        r@ == (if is_view {
            "SHOW CREATE VIEW"@
        } else {
            "SHOW CREATE TABLE"@
        }) + " "@ + identifier('`', name@),
{
    let mut sql: String = if is_view {
        "SHOW CREATE VIEW".to_owned()
    } else {
        "SHOW CREATE TABLE".to_owned()
    };
    sql.append(" ");
    sql.append(sql_identifier('`', name).as_str());
    sql
}

/// The definition of a table or a view in a dump, given what the server showed.
pub fn mysql_object_text(name: &str, is_view: bool, ddl: Option<&str>) -> (r: Result<
    String,
    String,
>)
    ensures
        match ddl {
            None => r is Err && r->Err_0@ == "无法读取 "@ + name@ + " 的建表语句"@,
            Some(text) => r is Ok && r->Ok_0@ == (if is_view {
                "DROP VIEW IF EXISTS "@
            } else {
                "DROP TABLE IF EXISTS "@
            }) + identifier('`', name@) + ";\n"@ + trim_end_mark(text@, ';') + ";\n"@,
        },
{
    match ddl {
        None => {
            let mut message: String = "无法读取 ".to_owned();
            message.append(name);
            message.append(" 的建表语句");
            Err(message)
        },
        Some(text) => {
            let mut out: String = if is_view {
                "DROP VIEW IF EXISTS ".to_owned()
            } else {
                "DROP TABLE IF EXISTS ".to_owned()
            };
            out.append(sql_identifier('`', name).as_str());
            out.append(";\n");
            out.append(without_end_mark(text, ';').as_str());
            out.append(";\n");
            Ok(out)
        },
    }
}

/// A number as JSON; nothing where it is not finite.
pub open spec fn real_json(bits: u64) -> JsonView {
    if is_finite(bits) {
        JsonView::Number(JsonNumber::Real(bits))
    } else {
        JsonView::Null
    }
}

/// A number as JSON; nothing where it is not finite.
pub fn real_value(bits: u64) -> (r: Json)
    ensures
        r.view() == real_json(bits),
{
    if finite(bits) {
        Json::Number(JsonNumber::Real(bits))
    } else {
        Json::Null
    }
}

/// The text that the driver shows for a span of time.
pub open spec fn shown_time(time: MysqlTime) -> Seq<char> {
    let base = "Time(\"'"@ + sign_text(time.negative) + padded(time.total_hours(), 3) + ":"@
        + padded(time.minutes as nat, 2) + ":"@ + padded(time.seconds as nat, 2);
    if time.micros == 0 {
        base + "'\")"@
    } else {
        base + "."@ + padded(time.micros as nat, 6) + "'\")"@
    }
}

/// Writes a span of time with the `Debug` of `mysql_async::Value`: three digits for the hours, and
/// a fraction where it is not zero.
#[verifier::external_body]
fn show_time(time: MysqlTime) -> (r: String)
    requires
        time.countable(),
    ensures
        r@ == shown_time(time),
{
    format!("{:?}", mysql_async::Value::Time(time.negative, time.days, time.hours, time.minutes, time.seconds, time.micros))
}

/// A MySQL value as JSON.
pub open spec fn result_json(value: MysqlValue) -> JsonView {
    match value {
        MysqlValue::Null => JsonView::Null,
        MysqlValue::Bytes(bytes) => JsonView::Text(lossy_utf8(bytes@)),
        MysqlValue::Int(n) => JsonView::Number(
            if n < 0 {
                JsonNumber::Negative(n)
            } else {
                JsonNumber::Whole(n as u64)
            },
        ),
        MysqlValue::UInt(n) => JsonView::Number(JsonNumber::Whole(n)),
        MysqlValue::Float(number) => real_json(number.bits),
        MysqlValue::Double(number) => real_json(number.bits),
        MysqlValue::Date(date) => JsonView::Text(
            padded(date.year as nat, 4) + "-"@ + padded(date.month as nat, 2) + "-"@ + padded(
                date.day as nat,
                2,
            ) + " "@ + padded(date.hour as nat, 2) + ":"@ + padded(date.minute as nat, 2) + ":"@
                + padded(date.second as nat, 2) + "."@ + padded(date.micros as nat, 3),
        ),
        MysqlValue::Time(time) => JsonView::Text(shown_time(time)),
    }
}

/// A MySQL value in the result of a query.
pub fn mysql_value(value: &MysqlValue) -> (r: Json)
    requires
        writable(*value),
    ensures
        r.view() == result_json(*value),
{
    match value {
        MysqlValue::Null => Json::Null,
        MysqlValue::Bytes(bytes) => Json::Text(lossy_text(bytes.as_slice())),
        MysqlValue::Int(n) => if *n < 0 {
            Json::Number(JsonNumber::Negative(*n))
        } else {
            Json::Number(JsonNumber::Whole(*n as u64))
        },
        MysqlValue::UInt(n) => Json::Number(JsonNumber::Whole(*n)),
        MysqlValue::Float(number) => real_value(number.bits),
        MysqlValue::Double(number) => real_value(number.bits),
        MysqlValue::Date(date) => {
            let mut text: String = String::new();
            push_date(&mut text, *date);
            text.append(".");
            text.append(padded_text(date.micros as u64, 3).as_str());
            assert(JsonView::Text(text@) == result_json(*value)) by {
                assert(text@ =~= padded(date.year as nat, 4) + "-"@ + padded(date.month as nat, 2)
                    + "-"@ + padded(date.day as nat, 2) + " "@ + padded(date.hour as nat, 2) + ":"@
                    + padded(date.minute as nat, 2) + ":"@ + padded(date.second as nat, 2) + "."@
                    + padded(date.micros as nat, 3));
            }
            Json::Text(text)
        },
        MysqlValue::Time(time) => Json::Text(show_time(*time)),
    }
}

/// A string in a dump reads the same whether or not the server takes a backslash for an escape: it
/// either stands in hexadecimal or holds no backslash.
pub proof fn law_dumped_strings_hold_no_backslash(bytes: Seq<u8>)
    ensures
        is_plain(bytes) ==> !bytes.contains(92),
        !is_plain(bytes) ==> dump_string(bytes) == hex_literal(bytes),
{
}

/// Dates and times are written as texts and numbers as numbers, whatever their character set; of the
/// rest, what is in the binary character set is written as bytes.
pub proof fn law_columns_are_written_by_their_type(code: u8, character_set: u16)
    ensures
        ({
            let kind = value_kind(code, character_set);
            let temporal = code == 7 || code == 10 || code == 11 || code == 12 || code == 14 || code
                == 17 || code == 18 || code == 19;
            let number = code == 0 || code == 1 || code == 2 || code == 3 || code == 4 || code == 5
                || code == 8 || code == 9 || code == 13 || code == 246;
            &&& kind == MysqlValueKind::Number <==> number
            &&& kind == MysqlValueKind::Binary <==> !temporal && !number && character_set == 63
            &&& temporal ==> kind == MysqlValueKind::Text
        }),
{
}

/// The fraction of a second is written where there is one, in six digits; all else stays.
pub proof fn law_fractions_are_written_where_there_are_any(date: MysqlDate, time: MysqlTime)
    ensures
        ({
            let whole = MysqlDate { micros: 0, ..date };
            date.micros != 0 ==> datetime_text(date) == datetime_text(whole) + "."@ + padded(
                date.micros as nat,
                6,
            )
        }),
        ({
            let whole = MysqlTime { micros: 0, ..time };
            time.micros != 0 ==> time_text(time) == time_text(whole) + "."@ + padded(
                time.micros as nat,
                6,
            )
        }),
        datetime_text(MysqlDate { micros: 0, ..date }) == padded(date.year as nat, 4) + "-"@
            + padded(date.month as nat, 2) + "-"@ + padded(date.day as nat, 2) + " "@ + padded(
            date.hour as nat,
            2,
        ) + ":"@ + padded(date.minute as nat, 2) + ":"@ + padded(date.second as nat, 2),
{
}

/// A span of time is written in hours, the days among them, and a negative one with its sign.
pub proof fn law_days_are_written_as_hours(time: MysqlTime, other: MysqlTime)
    ensures
        time.total_hours() == 24 * time.days + time.hours,
        24 * time.days + time.hours == 24 * other.days + other.hours && time.minutes
            == other.minutes && time.seconds == other.seconds && time.micros == other.micros
            && time.negative == other.negative ==> time_text(time) == time_text(other),
        time_text(MysqlTime { negative: true, ..time }) == "-"@ + time_text(
            MysqlTime { negative: false, ..time },
        ),
{
    let below = MysqlTime { negative: true, ..time };
    let above = MysqlTime { negative: false, ..time };
    reveal_strlit("");
    assert(sign_text(false) =~= Seq::<char>::empty());
    assert(time_text(below) =~= "-"@ + time_text(above));
}

/// A string of a dump reads back: a text between quotes as the text itself, and everything that is
/// not plain text as its bytes, two digits for each.
pub proof fn law_dumped_strings_read_back(bytes: Seq<u8>)
    ensures
        ({
            let written = dump_string(bytes);
            let plain = valid_utf8(bytes) && forall|i: int|
                0 <= i < bytes.len() ==> #[trigger] bytes[i] >= 0x20 && bytes[i] != 0x7f && bytes[i]
                    != 92;
            &&& plain ==> written.len() >= 2 && written[0] == '\'' && written.last() == '\''
                && unquoted(written.subrange(1, written.len() - 1), '\'') == Some(
                decode_utf8(bytes),
            )
            &&& !plain ==> written == "X'"@ + hex(bytes) + "'"@
        }),
{
    law_quoted_names_read_back(decode_utf8(bytes), '\'');
}

/// Bytes are always written as bytes, texts as strings, and numbers as they came where they hold
/// nothing but what a number holds.
pub proof fn law_values_are_written_by_their_kind(bytes: Vec<u8>, n: i64, m: u64)
    ensures
        dump_value(MysqlValue::Bytes(bytes), MysqlValueKind::Binary) == hex_literal(bytes@),
        dump_value(MysqlValue::Bytes(bytes), MysqlValueKind::Text) == dump_string(bytes@),
        bytes@.len() > 0 && (forall|i: int|
            0 <= i < bytes@.len() ==> 48 <= #[trigger] bytes@[i] <= 57 || bytes@[i] == 43
                || bytes@[i] == 45 || bytes@[i] == 46 || bytes@[i] == 101 || bytes@[i] == 69)
            ==> dump_value(MysqlValue::Bytes(bytes), MysqlValueKind::Number) == bytes@.map_values(
            |b: u8| b as char,
        ),
        (bytes@.len() == 0 || exists|i: int|
            0 <= i < bytes@.len() && !is_number_byte(#[trigger] bytes@[i])) ==> dump_value(
            MysqlValue::Bytes(bytes),
            MysqlValueKind::Number,
        ) == dump_string(bytes@),
        dump_value(MysqlValue::Int(n), MysqlValueKind::Number) == signed_decimal(n as int),
        dump_value(MysqlValue::UInt(m), MysqlValueKind::Number) == decimal(m as nat),
        forall|kind: MysqlValueKind| #[trigger] dump_value(MysqlValue::Null, kind) == "NULL"@,
{
}

/// A value of a result is shown as it is: numbers as numbers, with their sign, texts as texts, and
/// nothing as nothing; what is no finite number is shown as nothing.
pub proof fn law_results_show_their_values(n: i64, m: u64, bits: u64)
    ensures
        result_json(MysqlValue::Null) == JsonView::Null,
        n < 0 ==> result_json(MysqlValue::Int(n)) == JsonView::Number(JsonNumber::Negative(n)),
        n >= 0 ==> result_json(MysqlValue::Int(n)) == JsonView::Number(JsonNumber::Whole(n as u64)),
        result_json(MysqlValue::UInt(m)) == JsonView::Number(JsonNumber::Whole(m)),
        is_finite(bits) ==> real_json(bits) == JsonView::Number(JsonNumber::Real(bits)),
        !is_finite(bits) ==> real_json(bits) == JsonView::Null,
{
}

/// The statement that looks up one object is the one that lists them all, with its name as the one
/// condition more.
pub proof fn law_one_object_is_looked_up_by_name(name: Seq<char>)
    ensures
        ({
            let front = "SELECT table_name, table_type FROM information_schema.tables WHERE table_schema = DATABASE()"@;
            let order = " ORDER BY table_type, table_name"@;
            &&& objects_statement(None) == front + order
            &&& objects_statement(Some(name)) == front + " AND table_name = "@ + string_literal(name)
                + order
        }),
{
}

/// A table or a view is written as the server shows it, behind a statement that drops the one that is
/// there; one that the server does not show cannot be dumped.
pub proof fn law_objects_are_written_as_shown(
    name: &str,
    is_view: bool,
    ddl: Option<&str>,
    r: Result<String, String>,
)
    requires
        mysql_object_text.ensures((name, is_view, ddl), r),
    ensures
        r is Ok <==> ddl is Some,
        r matches Ok(text) ==> {
            let drop = if is_view {
                "DROP VIEW IF EXISTS "@
            } else {
                "DROP TABLE IF EXISTS "@
            };
            text@ == drop + identifier('`', name@) + ";\n"@ + trim_end_mark(ddl->0@, ';') + ";\n"@
        },
{
}

/// Each value of a row is written by the kind of its column; one without a kind is written as text.
pub proof fn law_each_value_is_written_by_its_column(
    values: Seq<MysqlValue>,
    kinds: Seq<MysqlValueKind>,
    i: int,
)
    requires
        0 <= i < values.len(),
    ensures
        dump_values(values, kinds).len() == values.len(),
        i < kinds.len() ==> dump_values(values, kinds)[i] == dump_value(values[i], kinds[i]),
        i >= kinds.len() ==> dump_values(values, kinds)[i] == dump_value(
            values[i],
            MysqlValueKind::Text,
        ),
{
}

} // verus!
