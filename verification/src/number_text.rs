//! Numbers written as text and read from it.
use vstd::prelude::*;
use vstd::string::*;

use crate::text::to_chars;

verus! {

/// The decimal digit of a value below ten.
pub open spec fn digit(d: nat) -> char {
    (48 + d) as char
}

/// The decimal digits of a number, without leading zeros.
pub open spec fn decimal(n: nat) -> Seq<char>
    decreases n,
{
    if n < 10 {
        seq![digit(n)]
    } else {
        decimal(n / 10).push(digit(n % 10))
    }
}

/// As many zeros.
pub open spec fn zeros(n: nat) -> Seq<char> {
    Seq::new(n, |i: int| '0')
}

/// The decimal digits, filled with zeros in front up to the width.
pub open spec fn padded(n: nat, width: nat) -> Seq<char> {
    let d = decimal(n);
    if d.len() >= width {
        d
    } else {
        zeros((width - d.len()) as nat) + d
    }
}

/// The decimal text of a signed number.
pub open spec fn signed_decimal(n: int) -> Seq<char> {
    if n < 0 {
        seq!['-'] + decimal((-n) as nat)
    } else {
        decimal(n as nat)
    }
}

/// A decimal digit.
pub open spec fn is_digit(c: char) -> bool {
    '0' <= c && c <= '9'
}

/// The number that the digits write, where all characters are digits.
pub open spec fn digits_value(s: Seq<char>) -> Option<nat>
    decreases s.len(),
{
    if s.len() == 0 {
        Some(0)
    } else {
        match digits_value(s.drop_last()) {
            Some(v) if is_digit(s.last()) => Some((v * 10 + (s.last() as nat - 48)) as nat),
            _ => None,
        }
    }
}

/// The number that a text writes, with an optional plus sign, where it is at most `max`.
pub open spec fn parse_unsigned(s: Seq<char>, max: nat) -> Option<nat> {
    let digits = if s.len() > 0 && s[0] == '+' {
        s.skip(1)
    } else {
        s
    };
    if digits.len() == 0 {
        None
    } else {
        match digits_value(digits) {
            Some(v) if v <= max => Some(v),
            _ => None,
        }
    }
}

fn digit_char(d: u64) -> (c: char)
    requires
        d < 10,
    ensures
        c == digit(d as nat),
{
    let b: u8 = 48 + d as u8;
    b as char
}

fn push_decimal(out: &mut String, n: u64)
    ensures
        final(out)@ == old(out)@ + decimal(n as nat),
    decreases n,
{
    if n >= 10 {
        push_decimal(out, n / 10);
    }
    let ghost mid = out@;
    out.push(digit_char(n % 10));
    proof {
        if n >= 10 {
            assert(mid == old(out)@ + decimal((n / 10) as nat));
            assert(out@ =~= old(out)@ + decimal(n as nat));
        } else {
            assert(out@ =~= old(out)@ + decimal(n as nat));
        }
    }
}

/// The decimal text of a number.
pub fn decimal_text(n: u64) -> (r: String)
    ensures
        r@ == decimal(n as nat),
{
    let mut r: String = String::new();
    push_decimal(&mut r, n);
    assert(r@ =~= decimal(n as nat));
    r
}

/// The decimal text of a signed number.
pub fn signed_decimal_text(n: i64) -> (r: String)
    ensures
        r@ == signed_decimal(n as int),
{
    let mut r: String = String::new();
    if n < 0 {
        r.push('-');
        let magnitude: u64 = (-(n + 1)) as u64 + 1;
        push_decimal(&mut r, magnitude);
        assert(r@ =~= seq!['-'] + decimal((-n) as nat));
    } else {
        push_decimal(&mut r, n as u64);
        assert(r@ =~= decimal(n as nat));
    }
    r
}

/// The decimal text of a number, filled with zeros in front up to the width.
pub fn padded_text(n: u64, width: usize) -> (r: String)
    ensures
        r@ == padded(n as nat, width as nat),
{
    let digits = decimal_text(n);
    let count: usize = digits.as_str().unicode_len();
    if count >= width {
        return digits;
    }
    let mut r: String = String::new();
    let mut i: usize = 0;
    while i < width - count
        invariant
            count < width,
            i <= width - count,
            r@ == zeros(i as nat),
        decreases width - i,
    {
        r.push('0');
        i = i + 1;
        assert(r@ =~= zeros(i as nat));
    }
    r.append(digits.as_str());
    r
}

proof fn lemma_digits_value_prefix(s: Seq<char>, k: int)
    requires
        0 <= k <= s.len(),
    ensures
        digits_value(s.take(k)) is None ==> digits_value(s) is None,
        digits_value(s.take(k)) is Some && digits_value(s) is Some ==> digits_value(
            s.take(k),
        )->0 <= digits_value(s)->0,
    decreases s.len() - k,
{
    if k < s.len() {
        lemma_digits_value_prefix(s, k + 1);
        assert(s.take(k + 1).drop_last() =~= s.take(k));
    } else {
        assert(s.take(k) =~= s);
    }
}

/// Reads an unsigned number, with an optional plus sign; `None` where the text holds anything
/// else, nothing, or a number above the largest of 64 bits.
pub fn parse_u64(s: &str) -> (r: Option<u64>)
    ensures
        r is Some == parse_unsigned(s@, u64::MAX as nat) is Some,
        r is Some ==> r->0 == parse_unsigned(s@, u64::MAX as nat)->0,
{
    let chars = to_chars(s);
    let start: usize = if chars.len() > 0 && chars[0] == '+' {
        1
    } else {
        0
    };
    let ghost digits = s@.skip(start as int);
    proof {
        if start == 0 {
            assert(digits =~= s@);
        }
    }
    if start == chars.len() {
        return None;
    }
    let mut v: u64 = 0;
    let mut i: usize = start;
    while i < chars.len()
        invariant
            start <= i <= chars@.len(),
            chars@ == s@,
            digits == s@.skip(start as int),
            digits == (if s@.len() > 0 && s@[0] == '+' {
                s@.skip(1)
            } else {
                s@
            }),
            digits.len() > 0,
            digits_value(digits.take(i - start)) == Some(v as nat),
        decreases chars@.len() - i,
    {
        let c: char = chars[i];
        proof {
            assert(digits.take(i - start + 1).drop_last() =~= digits.take(i - start));
            assert(digits.take(i - start + 1).last() == c);
            lemma_digits_value_prefix(digits, i - start + 1);
        }
        if !('0' <= c && c <= '9') {
            return None;
        }
        let d: u64 = (c as u32 - 48) as u64;
        if v > u64::MAX / 10 || v * 10 > u64::MAX - d {
            return None;
        }
        v = v * 10 + d;
        i = i + 1;
    }
    assert(digits.take(i - start) =~= digits);
    Some(v)
}

pub proof fn lemma_decimal(n: nat)
    ensures
        decimal(n).len() > 0,
        digits_value(decimal(n)) == Some(n),
        forall|i: int| 0 <= i < decimal(n).len() ==> is_digit(#[trigger] decimal(n)[i]),
    decreases n,
{
    let text = decimal(n);
    let low = n % 10;
    assert(is_digit(digit(low)) && digit(low) as nat - 48 == low);
    if n >= 10 {
        lemma_decimal(n / 10);
        assert(text.drop_last() =~= decimal(n / 10));
        assert(text.last() == digit(low));
        assert forall|i: int| 0 <= i < text.len() implies is_digit(#[trigger] text[i]) by {
            if i < text.len() - 1 {
                assert(text[i] == decimal(n / 10)[i]);
            }
        }
        assert(n == (n / 10) * 10 + low);
    } else {
        assert(low == n);
        assert(text.drop_last() =~= Seq::empty());
        assert(digits_value(Seq::<char>::empty()) == Some(0nat));
        assert(text.last() == digit(n));
    }
}

pub proof fn lemma_decimal_reads_back(n: nat, max: nat)
    requires
        n <= max,
    ensures
        parse_unsigned(decimal(n), max) == Some(n),
{
    lemma_decimal(n);
    assert(is_digit(decimal(n)[0]));
}

/// An upper case hexadecimal digit.
pub open spec fn hex_digit(d: nat) -> char {
    if d < 10 {
        digit(d)
    } else {
        (55 + d) as char
    }
}

/// Two hexadecimal digits for each byte.
pub open spec fn hex(bytes: Seq<u8>) -> Seq<char>
    decreases bytes.len(),
{
    if bytes.len() == 0 {
        Seq::empty()
    } else {
        hex(bytes.drop_last()) + seq![
            hex_digit((bytes.last() / 16) as nat),
            hex_digit((bytes.last() % 16) as nat),
        ]
    }
}

fn hex_char(d: u8) -> (c: char)
    requires
        d < 16,
    ensures
        c == hex_digit(d as nat),
{
    if d < 10 {
        digit_char(d as u64)
    } else {
        let b: u8 = 55 + d;
        b as char
    }
}

/// Two hexadecimal digits for each byte.
pub fn hex_text(bytes: &[u8]) -> (r: String)
    ensures
        r@ == hex(bytes@),
{
    let mut r: String = String::new();
    let mut i: usize = 0;
    assert(r@ =~= hex(bytes@.take(0)));
    while i < bytes.len()
        invariant
            i <= bytes@.len(),
            r@ == hex(bytes@.take(i as int)),
        decreases bytes@.len() - i,
    {
        let b: u8 = bytes[i];
        r.push(hex_char(b / 16));
        r.push(hex_char(b % 16));
        proof {
            assert(bytes@.take(i + 1).drop_last() =~= bytes@.take(i as int));
            assert(r@ =~= hex(bytes@.take(i + 1)));
        }
        i = i + 1;
    }
    assert(bytes@.take(i as int) =~= bytes@);
    r
}

/// The number that an upper case hexadecimal digit stands for.
pub open spec fn hex_digit_value(c: char) -> Option<nat> {
    if '0' <= c && c <= '9' {
        Some((c as nat - 48) as nat)
    } else if 'A' <= c && c <= 'F' {
        Some((c as nat - 55) as nat)
    } else {
        None
    }
}

/// The bytes that hexadecimal digits stand for, two digits each.
pub open spec fn unhex(s: Seq<char>) -> Option<Seq<u8>>
    decreases s.len(),
{
    if s.len() == 0 {
        Some(Seq::empty())
    } else if s.len() == 1 {
        None
    } else {
        let rest = unhex(s.take(s.len() - 2));
        let high = hex_digit_value(s[s.len() - 2]);
        let low = hex_digit_value(s[s.len() - 1]);
        if rest is Some && high is Some && low is Some {
            Some(rest->0.push((high->0 * 16 + low->0) as u8))
        } else {
            None
        }
    }
}

/// The digits of bytes stand for exactly those bytes.
pub proof fn law_hex_reads_back(bytes: Seq<u8>)
    ensures
        unhex(hex(bytes)) == Some(bytes),
        hex(bytes).len() == 2 * bytes.len(),
    decreases bytes.len(),
{
    if bytes.len() > 0 {
        let front = bytes.drop_last();
        let last = bytes.last();
        law_hex_reads_back(front);
        let text = hex(bytes);
        assert(text.take(text.len() - 2) =~= hex(front));
        let high = (last / 16) as nat;
        let low = (last % 16) as nat;
        assert(hex_digit_value(hex_digit(high)) == Some(high));
        assert(hex_digit_value(hex_digit(low)) == Some(low));
        assert(high * 16 + low == last);
        assert(front.push(last) =~= bytes);
    }
}

/// A number that is padded with zeros has the width that was asked for, or more where it needs more,
/// and is still the same number.
pub proof fn law_padding_keeps_the_number(n: nat, width: nat)
    ensures
        padded(n, width).len() >= width,
        padded(n, width).len() == width || padded(n, width) == decimal(n),
        digits_value(padded(n, width)) == Some(n),
{
    let d = decimal(n);
    lemma_decimal_value(n);
    if d.len() < width {
        lemma_zeros_in_front((width - d.len()) as nat, d, n);
    }
}

proof fn lemma_decimal_value(n: nat)
    ensures
        digits_value(decimal(n)) == Some(n),
    decreases n,
{
    if n < 10 {
        let s = seq![digit(n)];
        assert(s.drop_last() =~= Seq::<char>::empty());
        assert(digits_value(s.drop_last()) == Some(0nat));
        assert(s.last() == digit(n));
        lemma_digit(n);
    } else {
        lemma_decimal_value(n / 10);
        let s = decimal(n);
        assert(s.drop_last() =~= decimal(n / 10));
        lemma_digit(n % 10);
        assert(n == (n / 10) * 10 + n % 10);
    }
}

proof fn lemma_digit(d: nat)
    requires
        d < 10,
    ensures
        is_digit(digit(d)),
        digit(d) as nat == 48 + d,
{
    assert((48 + d) as u32 == 48 + d);
}

proof fn lemma_zeros_in_front(k: nat, d: Seq<char>, n: nat)
    requires
        digits_value(d) == Some(n),
    ensures
        digits_value(zeros(k) + d) == Some(n),
    decreases d.len(),
{
    let whole = zeros(k) + d;
    if d.len() == 0 {
        assert(whole =~= zeros(k));
        lemma_zeros_value(k);
    } else {
        lemma_zeros_in_front(k, d.drop_last(), digits_value(d.drop_last())->0);
        assert(whole.drop_last() =~= zeros(k) + d.drop_last());
        assert(whole.last() == d.last());
    }
}

proof fn lemma_zeros_value(k: nat)
    ensures
        digits_value(zeros(k)) == Some(0nat),
    decreases k,
{
    if k > 0 {
        lemma_zeros_value((k - 1) as nat);
        assert(zeros(k).drop_last() =~= zeros((k - 1) as nat));
        assert(zeros(k).last() == '0');
    }
}

/// A number below zero is written with its sign in front of the number without it.
pub proof fn law_signs_stand_in_front(n: int)
    ensures
        n >= 0 ==> signed_decimal(n) == decimal(n as nat),
        n < 0 ==> signed_decimal(n) == seq!['-'] + signed_decimal(-n),
        n >= 0 ==> digits_value(signed_decimal(n)) == Some(n as nat),
{
    if n >= 0 {
        lemma_decimal_value(n as nat);
    }
}

} // verus!
