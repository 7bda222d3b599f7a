//! What the rows of a dump are read back as.
use vstd::prelude::*;
use vstd::string::*;
use vstd::utf8::*;

use crate::number_text::{
    decimal, digits_value, hex, hex_digit, is_digit, law_hex_reads_back, lemma_decimal,
    signed_decimal, unhex,
};
use crate::sql_dump::{
    hex_literal, is_finite, row_piece, row_text, rows_end, rows_written, sql_literal, table_data,
    SqlValueView,
};
use crate::sql_text::string_literal;
use crate::text::{join, replace_char, starts_with};

verus! {

/// A value as it is read from a literal. A real number is carried by its text.
pub ghost enum ReadValue {
    Null,
    Integer(int),
    Real(Seq<char>),
    Text(Seq<u8>),
    Blob(Seq<u8>),
}

/// The text up to the mark that ends it, with one of each two marks, and what stands behind; none
/// where no mark ends it.
pub open spec fn read_quoted(s: Seq<char>, mark: char) -> Option<(Seq<char>, Seq<char>)>
    decreases s.len(),
{
    if s.len() == 0 {
        None
    } else if s[0] != mark {
        match read_quoted(s.skip(1), mark) {
            Some((text, rest)) => Some((seq![s[0]] + text, rest)),
            None => None,
        }
    } else if s.len() >= 2 && s[1] == mark {
        match read_quoted(s.skip(2), mark) {
            Some((text, rest)) => Some((seq![mark] + text, rest)),
            None => None,
        }
    } else {
        Some((Seq::empty(), s.skip(1)))
    }
}

/// What ends a number or the digits of bytes.
pub open spec fn ends_span(c: char) -> bool {
    c == ',' || c == ')' || c == '\''
}

/// How many characters stand before the first that ends them.
pub open spec fn span(s: Seq<char>) -> int
    decreases s.len(),
{
    if s.len() == 0 || ends_span(s[0]) {
        0
    } else {
        1 + span(s.skip(1))
    }
}

/// The bytes whose digits stand before a mark, and what stands behind it.
pub open spec fn read_hex(s: Seq<char>) -> Option<(Seq<u8>, Seq<char>)> {
    let n = span(s);
    if 0 <= n < s.len() && s[n] == '\'' {
        match unhex(s.take(n)) {
            Some(bytes) => Some((bytes, s.skip(n + 1))),
            None => None,
        }
    } else {
        None
    }
}

/// The whole number that a text stands for.
pub open spec fn integer_value(s: Seq<char>) -> Option<int> {
    if s.len() == 0 || s == seq!['-'] {
        None
    } else if s[0] == '-' {
        match digits_value(s.skip(1)) {
            Some(n) => Some(-(n as int)),
            None => None,
        }
    } else {
        match digits_value(s) {
            Some(n) => Some(n as int),
            None => None,
        }
    }
}

/// The number at the front, and what stands behind it.
pub open spec fn read_number(s: Seq<char>) -> Option<(ReadValue, Seq<char>)> {
    let n = span(s);
    if 0 < n <= s.len() {
        match integer_value(s.take(n)) {
            Some(value) => Some((ReadValue::Integer(value), s.skip(n))),
            None => Some((ReadValue::Real(s.take(n)), s.skip(n))),
        }
    } else {
        None
    }
}

/// The literal at the front, and what stands behind it.
pub open spec fn read_value(s: Seq<char>) -> Option<(ReadValue, Seq<char>)> {
    if starts_with(s, "NULL"@) {
        Some((ReadValue::Null, s.skip(4)))
    } else if starts_with(s, "X'"@) {
        match read_hex(s.skip(2)) {
            Some((bytes, rest)) => Some((ReadValue::Blob(bytes), rest)),
            None => None,
        }
    } else if starts_with(s, "CAST(X'"@) {
        match read_hex(s.skip(7)) {
            Some((bytes, rest)) => if starts_with(rest, " AS TEXT)"@) {
                Some((ReadValue::Text(bytes), rest.skip(9)))
            } else {
                None
            },
            None => None,
        }
    } else if starts_with(s, "'"@) {
        match read_quoted(s.skip(1), '\'') {
            Some((text, rest)) => Some((ReadValue::Text(encode_utf8(text)), rest)),
            None => None,
        }
    } else {
        read_number(s)
    }
}

/// The values up to the bracket that closes a row, and what stands behind it.
#[verifier::opaque]
pub open spec fn read_values(s: Seq<char>) -> Option<(Seq<ReadValue>, Seq<char>)>
    decreases s.len(),
{
    match read_value(s) {
        Some((value, rest)) => if starts_with(rest, ", "@) && rest.skip(2).len() < s.len() {
            match read_values(rest.skip(2)) {
                Some((values, behind)) => Some((seq![value] + values, behind)),
                None => None,
            }
        } else if starts_with(rest, ")"@) {
            Some((seq![value], rest.skip(1)))
        } else {
            None
        },
        None => None,
    }
}

/// The row at the front, and what stands behind it.
pub open spec fn read_row(s: Seq<char>) -> Option<(Seq<ReadValue>, Seq<char>)> {
    if starts_with(s, "("@) {
        read_values(s.skip(1))
    } else {
        None
    }
}

/// The row at the front and the rows behind it, where the text is part of a longer one.
pub open spec fn read_rows_at(
    head: Seq<char>,
    s: Seq<char>,
    at: int,
) -> Option<Seq<Seq<ReadValue>>>
    decreases s.len(), 0int,
{
    match read_row(s.skip(at)) {
        Some((row, rest)) => if rest.len() < s.len() {
            match read_rows(head, rest, true) {
                Some(rows) => Some(seq![row] + rows),
                None => None,
            }
        } else {
            None
        },
        None => None,
    }
}

/// The rows of statements that all begin with `head`. Inside of a statement the next row stands
/// behind a comma, and a semicolon ends it.
pub open spec fn read_rows(
    head: Seq<char>,
    s: Seq<char>,
    inside: bool,
) -> Option<Seq<Seq<ReadValue>>>
    decreases s.len(), 1int,
{
    if !inside && s.len() == 0 {
        Some(Seq::empty())
    } else if !inside && starts_with(s, head) {
        read_rows_at(head, s, head.len() as int)
    } else if inside && starts_with(s, ",\n  "@) {
        read_rows_at(head, s, 4)
    } else if inside && s.len() >= 2 && starts_with(s, ";\n"@) {
        read_rows(head, s.skip(2), false)
    } else {
        None
    }
}

/// What is read where a value was written. A number that is not finite has no literal.
pub open spec fn read_as(value: SqlValueView) -> ReadValue {
    match value {
        SqlValueView::Null => ReadValue::Null,
        SqlValueView::Integer(n) => ReadValue::Integer(n),
        SqlValueView::Real { bits, text } => if is_finite(bits) {
            ReadValue::Real(text)
        } else {
            ReadValue::Null
        },
        SqlValueView::Text(bytes) => ReadValue::Text(bytes),
        SqlValueView::Blob(bytes) => ReadValue::Blob(bytes),
    }
}

/// The text of a real number: it begins with a digit or a sign, holds nothing that ends a number,
/// and is not that of a whole number.
pub open spec fn is_real_text(text: Seq<char>) -> bool {
    &&& text.len() > 0
    &&& is_digit(text[0]) || text[0] == '-'
    &&& forall|i: int| 0 <= i < text.len() ==> !ends_span(#[trigger] text[i])
    &&& integer_value(text) is None
}

/// The value carries the text of its number, where it is a real one.
pub open spec fn has_text(value: SqlValueView) -> bool {
    match value {
        SqlValueView::Real { bits, text } => is_finite(bits) ==> is_real_text(text),
        _ => true,
    }
}

pub proof fn lemma_first(s: Seq<char>, part: Seq<char>)
    requires
        part.len() > 0,
        starts_with(s, part),
    ensures
        s.len() >= part.len(),
        s[0] == part[0],
{
    assert(s.subrange(0, part.len() as int)[0] == s[0]);
}

pub proof fn lemma_front(part: Seq<char>, rest: Seq<char>)
    ensures
        starts_with(part + rest, part),
        (part + rest).skip(part.len() as int) == rest,
{
    assert((part + rest).subrange(0, part.len() as int) =~= part);
    assert((part + rest).skip(part.len() as int) =~= rest);
}

proof fn lemma_span(text: Seq<char>, rest: Seq<char>)
    requires
        forall|i: int| 0 <= i < text.len() ==> !ends_span(#[trigger] text[i]),
        rest.len() > 0,
        ends_span(rest[0]),
    ensures
        span(text + rest) == text.len(),
        (text + rest).take(text.len() as int) == text,
        (text + rest).skip(text.len() as int) == rest,
    decreases text.len(),
{
    let whole = text + rest;
    if text.len() == 0 {
        assert(whole =~= rest);
    } else {
        let tail = text.skip(1);
        assert forall|i: int| 0 <= i < tail.len() implies !ends_span(#[trigger] tail[i]) by {
            assert(tail[i] == text[i + 1]);
        }
        lemma_span(tail, rest);
        assert(whole[0] == text[0]);
        assert(whole.skip(1) =~= tail + rest);
    }
    assert(whole.take(text.len() as int) =~= text);
    assert(whole.skip(text.len() as int) =~= rest);
}

proof fn lemma_signed(n: int)
    ensures
        signed_decimal(n).len() > 0,
        is_digit(signed_decimal(n)[0]) || signed_decimal(n)[0] == '-',
        integer_value(signed_decimal(n)) == Some(n),
        forall|i: int|
            0 <= i < signed_decimal(n).len() ==> !ends_span(#[trigger] signed_decimal(n)[i]),
{
    let text = signed_decimal(n);
    let size = if n < 0 {
        (-n) as nat
    } else {
        n as nat
    };
    lemma_decimal(size);
    if n < 0 {
        assert(text[0] == '-');
        assert(text.skip(1) =~= decimal(size));
        assert forall|i: int| 0 <= i < text.len() implies !ends_span(#[trigger] text[i]) by {
            if i > 0 {
                assert(text[i] == decimal(size)[i - 1]);
            }
        }
    } else {
        assert(is_digit(decimal(size)[0]));
    }
}

proof fn lemma_hex_span(bytes: Seq<u8>)
    ensures
        forall|i: int| 0 <= i < hex(bytes).len() ==> !ends_span(#[trigger] hex(bytes)[i]),
    decreases bytes.len(),
{
    if bytes.len() > 0 {
        let front = bytes.drop_last();
        lemma_hex_span(front);
        law_hex_reads_back(front);
        law_hex_reads_back(bytes);
        assert forall|i: int| 0 <= i < hex(bytes).len() implies !ends_span(
            #[trigger] hex(bytes)[i],
        ) by {
            if i < hex(front).len() {
                assert(hex(bytes)[i] == hex(front)[i]);
            } else {
                let high = (bytes.last() / 16) as nat;
                let low = (bytes.last() % 16) as nat;
                assert(hex(bytes)[i] == hex_digit(high) || hex(bytes)[i] == hex_digit(low));
            }
        }
    }
}

proof fn lemma_read_hex(bytes: Seq<u8>, rest: Seq<char>)
    ensures
        read_hex(hex(bytes) + "'"@ + rest) == Some((bytes, rest)),
{
    reveal_strlit("'");
    let digits = hex(bytes);
    let behind = "'"@ + rest;
    lemma_hex_span(bytes);
    law_hex_reads_back(bytes);
    assert(digits + "'"@ + rest =~= digits + behind);
    assert(behind[0] == '\'');
    lemma_span(digits, behind);
    let s = digits + behind;
    assert(s[digits.len() as int] == '\'');
    assert(s.skip((digits.len() + 1) as int) =~= rest);
}

proof fn lemma_replaced_front(s: Seq<char>, from: char, with: Seq<char>)
    requires
        s.len() > 0,
    ensures
        replace_char(s, from, with) == (if s[0] == from {
            with
        } else {
            seq![s[0]]
        }) + replace_char(s.skip(1), from, with),
    decreases s.len(),
{
    let first = if s[0] == from {
        with
    } else {
        seq![s[0]]
    };
    if s.len() == 1 {
        assert(s.drop_last() =~= Seq::empty());
        assert(s.skip(1) =~= Seq::empty());
        assert(replace_char(s, from, with) =~= first + replace_char(s.skip(1), from, with));
    } else {
        let head = s.drop_last();
        lemma_replaced_front(head, from, with);
        assert(head.skip(1) =~= s.skip(1).drop_last());
        assert(head[0] == s[0]);
        assert(s.skip(1).last() == s.last());
        assert(replace_char(s, from, with) =~= first + replace_char(s.skip(1), from, with));
    }
}

pub proof fn lemma_read_quoted(text: Seq<char>, mark: char, rest: Seq<char>)
    requires
        rest.len() > 0,
        rest[0] != mark,
    ensures
        read_quoted(replace_char(text, mark, seq![mark, mark]) + seq![mark] + rest, mark) == Some(
            (text, rest),
        ),
    decreases text.len(),
{
    let two = seq![mark, mark];
    let s = replace_char(text, mark, two) + seq![mark] + rest;
    if text.len() == 0 {
        assert(replace_char(text, mark, two).len() == 0);
        assert(s[0] == mark && s[1] == rest[0]);
        assert(s.skip(1) =~= rest);
        assert(text =~= Seq::empty());
    } else {
        let tail = text.skip(1);
        lemma_replaced_front(text, mark, two);
        lemma_read_quoted(tail, mark, rest);
        let behind = replace_char(tail, mark, two) + seq![mark] + rest;
        if text[0] == mark {
            assert(s =~= two + behind);
            assert(s[0] == mark && s[1] == mark);
            assert(s.skip(2) =~= behind);
            assert(seq![mark] + tail =~= text);
        } else {
            assert(s =~= seq![text[0]] + behind);
            assert(s[0] == text[0]);
            assert(s.skip(1) =~= behind);
            assert(seq![text[0]] + tail =~= text);
        }
    }
}

proof fn lemma_read_number(text: Seq<char>, rest: Seq<char>)
    requires
        text.len() > 0,
        is_digit(text[0]) || text[0] == '-',
        forall|i: int| 0 <= i < text.len() ==> !ends_span(#[trigger] text[i]),
        rest.len() > 0,
        ends_span(rest[0]),
    ensures
        read_value(text + rest) == Some(
            (
                match integer_value(text) {
                    Some(n) => ReadValue::Integer(n),
                    None => ReadValue::Real(text),
                },
                rest,
            ),
        ),
{
    reveal_strlit("NULL");
    reveal_strlit("X'");
    reveal_strlit("CAST(X'");
    reveal_strlit("'");
    let s = text + rest;
    assert(s[0] == text[0]);
    lemma_span(text, rest);
    assert(!starts_with(s, "NULL"@)) by {
        if starts_with(s, "NULL"@) {
            lemma_first(s, "NULL"@);
        }
    }
    assert(!starts_with(s, "X'"@)) by {
        if starts_with(s, "X'"@) {
            lemma_first(s, "X'"@);
        }
    }
    assert(!starts_with(s, "CAST(X'"@)) by {
        if starts_with(s, "CAST(X'"@) {
            lemma_first(s, "CAST(X'"@);
        }
    }
    assert(!starts_with(s, "'"@)) by {
        if starts_with(s, "'"@) {
            lemma_first(s, "'"@);
        }
    }
}

pub proof fn lemma_other_front(s: Seq<char>, part: Seq<char>)
    requires
        part.len() > 0,
        s.len() > 0,
        s[0] != part[0],
    ensures
        !starts_with(s, part),
{
    if starts_with(s, part) {
        lemma_first(s, part);
    }
}

proof fn lemma_read_text(text: Seq<char>, rest: Seq<char>)
    requires
        rest.len() > 0,
        rest[0] != '\'',
    ensures
        read_value(string_literal(text) + rest) == Some((ReadValue::Text(encode_utf8(text)), rest)),
{
    reveal_strlit("NULL");
    reveal_strlit("X'");
    reveal_strlit("CAST(X'");
    reveal_strlit("'");
    let s = string_literal(text) + rest;
    let behind = replace_char(text, '\'', seq!['\'', '\'']) + seq!['\''] + rest;
    lemma_read_quoted(text, '\'', rest);
    assert("'"@ =~= seq!['\'']);
    assert(s =~= "'"@ + behind);
    assert(s[0] == '\'');
    lemma_front("'"@, behind);
    lemma_other_front(s, "NULL"@);
    lemma_other_front(s, "X'"@);
    lemma_other_front(s, "CAST(X'"@);
}

proof fn lemma_read_cast(bytes: Seq<u8>, rest: Seq<char>)
    ensures
        read_value("CAST("@ + hex_literal(bytes) + " AS TEXT)"@ + rest) == Some(
            (ReadValue::Text(bytes), rest),
        ),
{
    reveal_strlit("NULL");
    reveal_strlit("X'");
    reveal_strlit("CAST(");
    reveal_strlit("CAST(X'");
    reveal_strlit(" AS TEXT)");
    let s = "CAST("@ + hex_literal(bytes) + " AS TEXT)"@ + rest;
    let behind = " AS TEXT)"@ + rest;
    let digits = hex(bytes) + "'"@ + behind;
    lemma_read_hex(bytes, behind);
    lemma_front(" AS TEXT)"@, rest);
    assert("CAST(X'"@ =~= "CAST("@ + "X'"@);
    assert(s =~= "CAST(X'"@ + digits);
    assert(s[0] == 'C');
    lemma_front("CAST(X'"@, digits);
    lemma_other_front(s, "NULL"@);
    lemma_other_front(s, "X'"@);
}

proof fn lemma_read_blob(bytes: Seq<u8>, rest: Seq<char>)
    ensures
        read_value(hex_literal(bytes) + rest) == Some((ReadValue::Blob(bytes), rest)),
{
    reveal_strlit("NULL");
    reveal_strlit("X'");
    let s = hex_literal(bytes) + rest;
    let digits = hex(bytes) + "'"@ + rest;
    lemma_read_hex(bytes, rest);
    assert(s =~= "X'"@ + digits);
    assert(s[0] == 'X');
    lemma_front("X'"@, digits);
    lemma_other_front(s, "NULL"@);
}

proof fn lemma_read_null(rest: Seq<char>)
    ensures
        read_value("NULL"@ + rest) == Some((ReadValue::Null, rest)),
{
    reveal_strlit("NULL");
    lemma_front("NULL"@, rest);
}

/// A literal is read back as the value that it was written for, and reading stops behind it.
pub proof fn law_literals_read_back(value: SqlValueView, rest: Seq<char>)
    requires
        has_text(value),
        rest.len() > 0,
        rest[0] == ',' || rest[0] == ')',
    ensures
        read_value(sql_literal(value) + rest) == Some((read_as(value), rest)),
{
    match value {
        SqlValueView::Null => {
            lemma_read_null(rest);
        },
        SqlValueView::Integer(n) => {
            lemma_signed(n);
            lemma_read_number(signed_decimal(n), rest);
        },
        SqlValueView::Real { bits, text } => {
            if is_finite(bits) {
                lemma_read_number(text, rest);
            } else {
                lemma_read_null(rest);
            }
        },
        SqlValueView::Text(bytes) => {
            if valid_utf8(bytes) {
                decode_utf8_encode_utf8(bytes);
                lemma_read_text(decode_utf8(bytes), rest);
            } else {
                lemma_read_cast(bytes, rest);
            }
        },
        SqlValueView::Blob(bytes) => {
            lemma_read_blob(bytes, rest);
        },
    }
}

/// The literals of values.
pub open spec fn literals_of(values: Seq<SqlValueView>) -> Seq<Seq<char>> {
    values.map_values(|value: SqlValueView| sql_literal(value))
}

/// What is read where values were written.
pub open spec fn all_read_as(values: Seq<SqlValueView>) -> Seq<ReadValue> {
    values.map_values(|value: SqlValueView| read_as(value))
}

pub proof fn lemma_join_front(parts: Seq<Seq<char>>, sep: Seq<char>)
    requires
        parts.len() >= 2,
    ensures
        join(parts, sep) == parts[0] + sep + join(parts.skip(1), sep),
    decreases parts.len(),
{
    let front = parts.drop_last();
    let rest = parts.skip(1);
    assert(rest.last() == parts.last());
    if parts.len() == 2 {
        assert(join(front, sep) == front[0]);
        assert(join(rest, sep) == rest[0]);
        assert(join(parts, sep) =~= parts[0] + sep + join(rest, sep));
    } else {
        lemma_join_front(front, sep);
        assert(front.skip(1) =~= rest.drop_last());
        assert(join(parts, sep) =~= parts[0] + sep + join(rest, sep));
    }
}

/// A row can be read back: it has values, and each carries its text.
pub open spec fn is_readable(values: Seq<SqlValueView>) -> bool {
    values.len() > 0 && forall|i: int| 0 <= i < values.len() ==> has_text(#[trigger] values[i])
}

proof fn lemma_last_value(s: Seq<char>, value: ReadValue, tail: Seq<char>)
    requires
        read_value(s) == Some((value, ")"@ + tail)),
    ensures
        read_values(s) == Some((seq![value], tail)),
{
    reveal(read_values);
    reveal_strlit(", ");
    reveal_strlit(")");
    let rest = ")"@ + tail;
    lemma_front(")"@, tail);
    assert(rest[0] == ')');
    lemma_other_front(rest, ", "@);
}

proof fn lemma_more_values(
    s: Seq<char>,
    value: ReadValue,
    behind: Seq<char>,
    values: Seq<ReadValue>,
    tail: Seq<char>,
)
    requires
        read_value(s) == Some((value, ", "@ + behind)),
        behind.len() < s.len(),
        read_values(behind) == Some((values, tail)),
    ensures
        read_values(s) == Some((seq![value] + values, tail)),
{
    reveal(read_values);
    reveal_strlit(", ");
    lemma_front(", "@, behind);
}

proof fn lemma_read_values(values: Seq<SqlValueView>, tail: Seq<char>)
    requires
        is_readable(values),
    ensures
        read_values(join(literals_of(values), ", "@) + ")"@ + tail) == Some(
            (all_read_as(values), tail),
        ),
    decreases values.len(),
{
    let literals = literals_of(values);
    let s = join(literals, ", "@) + ")"@ + tail;
    let first = values[0];
    assert(has_text(values[0]));
    assert(literals[0] == sql_literal(first));
    if values.len() == 1 {
        let rest = ")"@ + tail;
        assert(s =~= literals[0] + rest);
        assert(rest.len() > 0 && rest[0] == ')') by {
            reveal_strlit(")");
        }
        law_literals_read_back(first, rest);
        lemma_last_value(s, read_as(first), tail);
        assert(all_read_as(values) =~= seq![read_as(first)]);
    } else {
        let others = values.skip(1);
        assert forall|i: int| 0 <= i < others.len() implies has_text(#[trigger] others[i]) by {
            assert(others[i] == values[i + 1]);
        }
        lemma_read_values(others, tail);
        lemma_join_front(literals, ", "@);
        assert(literals.skip(1) =~= literals_of(others));
        let behind = join(literals_of(others), ", "@) + ")"@ + tail;
        let rest = ", "@ + behind;
        assert(s =~= literals[0] + rest);
        assert(rest[0] == ',' && rest.len() == behind.len() + 2) by {
            reveal_strlit(", ");
        }
        law_literals_read_back(first, rest);
        lemma_more_values(s, read_as(first), behind, all_read_as(others), tail);
        assert(seq![read_as(first)] + all_read_as(others) =~= all_read_as(values));
    }
}

pub proof fn lemma_read_row(values: Seq<SqlValueView>, tail: Seq<char>)
    requires
        is_readable(values),
    ensures
        read_row(row_text(literals_of(values)) + tail) == Some((all_read_as(values), tail)),
{
    reveal_strlit("(");
    let inner = join(literals_of(values), ", "@) + ")"@ + tail;
    lemma_read_values(values, tail);
    assert(row_text(literals_of(values)) + tail =~= "("@ + inner);
    lemma_front("("@, inner);
}

/// The texts of rows.
pub open spec fn row_texts(rows: Seq<Seq<SqlValueView>>) -> Seq<Seq<char>> {
    rows.map_values(|row: Seq<SqlValueView>| row_text(literals_of(row)))
}

/// What is read where rows were written.
pub open spec fn rows_read_as(rows: Seq<Seq<SqlValueView>>) -> Seq<Seq<ReadValue>> {
    rows.map_values(|row: Seq<SqlValueView>| all_read_as(row))
}

spec fn rows_from(head: Seq<char>, texts: Seq<Seq<char>>, place: int) -> Seq<char>
    decreases texts.len() - place,
{
    if place < 0 || place >= texts.len() {
        rows_end(texts.len())
    } else {
        row_piece(head, place as nat, texts[place]) + rows_from(head, texts, place + 1)
    }
}

proof fn lemma_rows_from(head: Seq<char>, texts: Seq<Seq<char>>, place: int)
    requires
        0 <= place <= texts.len(),
    ensures
        table_data(head, texts) == rows_written(head, texts.take(place)) + rows_from(
            head,
            texts,
            place,
        ),
    decreases texts.len() - place,
{
    if place == texts.len() {
        assert(texts.take(place) =~= texts);
    } else {
        lemma_rows_from(head, texts, place + 1);
        let more = texts.take(place + 1);
        assert(more.drop_last() =~= texts.take(place));
        assert(more.last() == texts[place]);
        assert(table_data(head, texts) =~= rows_written(head, texts.take(place)) + rows_from(
            head,
            texts,
            place,
        ));
    }
}

proof fn lemma_read_end(head: Seq<char>, count: nat)
    ensures
        read_rows(head, rows_end(count), count % 200 != 0) == Some(
            Seq::<Seq<ReadValue>>::empty(),
        ),
{
    reveal_strlit(";\n");
    reveal_strlit(",\n  ");
    let s = rows_end(count);
    let nothing = Seq::<char>::empty();
    assert(read_rows(head, nothing, false) == Some(Seq::<Seq<ReadValue>>::empty()));
    if count % 200 != 0 {
        assert(s =~= ";\n"@ + nothing);
        lemma_front(";\n"@, nothing);
        lemma_other_front(s, ",\n  "@);
    } else {
        assert(s =~= nothing);
    }
}

/// The end of a statement, where a row fills it, is read over.
proof fn lemma_read_closed(head: Seq<char>, tail: Seq<char>, place: int)
    requires
        0 <= place,
    ensures
        read_rows(
            head,
            (if place % 200 == 199 {
                ";\n"@
            } else {
                Seq::<char>::empty()
            }) + tail,
            true,
        ) == read_rows(head, tail, (place + 1) % 200 != 0),
{
    reveal_strlit(";\n");
    reveal_strlit(",\n  ");
    if place % 200 == 199 {
        let s = ";\n"@ + tail;
        lemma_front(";\n"@, tail);
        assert(s[0] == ';');
        lemma_other_front(s, ",\n  "@);
        assert((place + 1) % 200 == 0);
    } else {
        assert(Seq::<char>::empty() + tail =~= tail);
        assert((place + 1) % 200 != 0);
    }
}

proof fn lemma_read_step(
    head: Seq<char>,
    row: Seq<SqlValueView>,
    rest: Seq<char>,
    later: Seq<Seq<ReadValue>>,
    inside: bool,
)
    requires
        is_readable(row),
        read_rows(head, rest, true) == Some(later),
    ensures
        read_rows(
            head,
            (if inside {
                ",\n  "@
            } else {
                head
            }) + (row_text(literals_of(row)) + rest),
            inside,
        ) == Some(seq![all_read_as(row)] + later),
{
    reveal_strlit(",\n  ");
    reveal_strlit("(");
    let opener = if inside {
        ",\n  "@
    } else {
        head
    };
    let behind = row_text(literals_of(row)) + rest;
    let s = opener + behind;
    lemma_front(opener, behind);
    lemma_read_row(row, rest);
    assert(row_text(literals_of(row)).len() > 0);
    assert(rest.len() < s.len());
    assert(read_rows_at(head, s, opener.len() as int) == Some(seq![all_read_as(row)] + later));
}

proof fn lemma_read_from(head: Seq<char>, rows: Seq<Seq<SqlValueView>>, place: int)
    requires
        0 <= place <= rows.len(),
        forall|i: int| 0 <= i < rows.len() ==> is_readable(#[trigger] rows[i]),
    ensures
        read_rows(head, rows_from(head, row_texts(rows), place), place % 200 != 0) == Some(
            rows_read_as(rows.skip(place)),
        ),
    decreases rows.len() - place,
{
    let texts = row_texts(rows);
    if place == rows.len() {
        lemma_read_end(head, rows.len());
        assert(rows_read_as(rows.skip(place)) =~= Seq::empty());
    } else {
        let row = rows[place];
        let tail = rows_from(head, texts, place + 1);
        let inside = place % 200 != 0;
        let opener = if inside {
            ",\n  "@
        } else {
            head
        };
        let closer = if place % 200 == 199 {
            ";\n"@
        } else {
            Seq::<char>::empty()
        };
        let later = rows_read_as(rows.skip(place + 1));
        lemma_read_from(head, rows, place + 1);
        lemma_read_closed(head, tail, place);
        lemma_read_step(head, row, closer + tail, later, inside);
        assert(texts[place] == row_text(literals_of(row)));
        assert(rows_from(head, texts, place) =~= opener + (row_text(literals_of(row)) + (closer
            + tail)));
        assert(seq![all_read_as(row)] + later =~= rows_read_as(rows.skip(place)));
    }
}

/// The rows of a table are read back from its dump as they were written, each value in its place,
/// whatever the texts hold.
pub proof fn law_dumped_rows_read_back(head: Seq<char>, rows: Seq<Seq<SqlValueView>>)
    requires
        forall|i: int| 0 <= i < rows.len() ==> is_readable(#[trigger] rows[i]),
    ensures
        read_rows(head, table_data(head, row_texts(rows)), false) == Some(rows_read_as(rows)),
{
    let texts = row_texts(rows);
    lemma_rows_from(head, texts, 0);
    lemma_read_from(head, rows, 0);
    assert(texts.take(0) =~= Seq::empty());
    assert(rows_written(head, texts.take(0)) + rows_from(head, texts, 0) =~= rows_from(
        head,
        texts,
        0,
    ));
    assert(rows.skip(0) =~= rows);
}

} // verus!
