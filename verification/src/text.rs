//! Text primitives. A string is modelled as the sequence of its characters.
use vstd::prelude::*;
use vstd::string::*;
use vstd::utf8::*;

verus! {

/// Specifies `String::push`: the character is added behind the others.
pub assume_specification[ String::push ](s: &mut String, c: char)
    ensures
        final(s)@ == old(s)@.push(c),
;

/// The characters that Unicode gives the property `White_Space`.
pub open spec fn is_space(c: char) -> bool {
    let n = c as u32;
    ||| 9 <= n <= 13
    ||| n == 32
    ||| n == 0x85
    ||| n == 0xA0
    ||| n == 0x1680
    ||| 0x2000 <= n <= 0x200A
    ||| n == 0x2028
    ||| n == 0x2029
    ||| n == 0x202F
    ||| n == 0x205F
    ||| n == 0x3000
}

/// Drops the white space in front.
pub open spec fn trim_start(s: Seq<char>) -> Seq<char>
    decreases s.len(),
{
    if s.len() > 0 && is_space(s[0]) {
        trim_start(s.skip(1))
    } else {
        s
    }
}

/// Drops the white space behind.
pub open spec fn trim_end(s: Seq<char>) -> Seq<char>
    decreases s.len(),
{
    if s.len() > 0 && is_space(s.last()) {
        trim_end(s.drop_last())
    } else {
        s
    }
}

/// Drops the white space on both sides.
pub open spec fn trim(s: Seq<char>) -> Seq<char> {
    trim_end(trim_start(s))
}

/// `part` stands in `s` at position `at`.
pub open spec fn occurs_at(s: Seq<char>, part: Seq<char>, at: int) -> bool {
    0 <= at && at + part.len() <= s.len() && s.subrange(at, at + part.len()) == part
}

/// `part` stands somewhere in `s`.
pub open spec fn contains(s: Seq<char>, part: Seq<char>) -> bool {
    exists|at: int| occurs_at(s, part, at)
}

/// `part` stands at the front of `s`.
pub open spec fn starts_with(s: Seq<char>, part: Seq<char>) -> bool {
    occurs_at(s, part, 0)
}

/// The first position at or behind `from` where `part` stands in `s`.
pub open spec fn is_first_at(s: Seq<char>, part: Seq<char>, from: int, at: int) -> bool {
    &&& from <= at
    &&& occurs_at(s, part, at)
    &&& forall|j: int| from <= j < at ==> !#[trigger] occurs_at(s, part, j)
}

/// The lower case of an ASCII letter; any other character is its own.
pub open spec fn ascii_lower(c: char) -> char {
    if 'A' <= c && c <= 'Z' {
        (c as u32 + 32) as char
    } else {
        c
    }
}

/// Every ASCII letter in lower case.
pub open spec fn to_lower(s: Seq<char>) -> Seq<char> {
    s.map_values(|c: char| ascii_lower(c))
}

/// Each `from` becomes `with`; the other characters stay.
pub open spec fn replace_char(s: Seq<char>, from: char, with: Seq<char>) -> Seq<char>
    decreases s.len(),
{
    if s.len() == 0 {
        s
    } else {
        replace_char(s.drop_last(), from, with) + (if s.last() == from {
            with
        } else {
            seq![s.last()]
        })
    }
}

/// The characters of a string.
pub fn to_chars(s: &str) -> (r: Vec<char>)
    ensures
        r@ == s@,
{
    let mut r: Vec<char> = Vec::new();
    for c in it: s.chars()
        invariant
            it.seq() == s@,
            r@ == it.seq().take(it.index()),
    {
        r.push(c);
    }
    r
}

/// The string of the characters from `from` up to `to`.
pub fn from_range(chars: &[char], from: usize, to: usize) -> (r: String)
    requires
        from <= to <= chars@.len(),
    ensures
        r@ == chars@.subrange(from as int, to as int),
{
    let mut r: String = String::new();
    let mut i: usize = from;
    while i < to
        invariant
            from <= i <= to <= chars@.len(),
            r@ == chars@.subrange(from as int, i as int),
        decreases to - i,
    {
        r.push(chars[i]);
        i = i + 1;
    }
    r
}

/// The two strings hold the same characters.
pub fn same(a: &str, b: &str) -> (r: bool)
    ensures
        r == (a@ == b@),
{
    let x = a.as_bytes();
    let y = b.as_bytes();
    if x.len() != y.len() {
        return false;
    }
    let mut i: usize = 0;
    while i < x.len()
        invariant
            i <= x@.len(),
            x@.len() == y@.len(),
            x@ == a.spec_bytes(),
            y@ == b.spec_bytes(),
            forall|k: int| 0 <= k < i ==> x@[k] == y@[k],
        decreases x@.len() - i,
    {
        if x[i] != y[i] {
            return false;
        }
        i = i + 1;
    }
    proof {
        assert(x@ =~= y@);
        encode_utf8_decode_utf8(a@);
        encode_utf8_decode_utf8(b@);
    }
    true
}

/// Decides `is_space`.
pub fn is_space_char(c: char) -> (r: bool)
    ensures
        r == is_space(c),
{
    let n: u32 = c as u32;
    (9 <= n && n <= 13) || n == 32 || n == 0x85 || n == 0xA0 || n == 0x1680 || (0x2000 <= n && n
        <= 0x200A) || n == 0x2028 || n == 0x2029 || n == 0x202F || n == 0x205F || n == 0x3000
}

/// The part of `s` that is left when the white space on both sides is dropped, as a range.
pub fn trim_range(s: &[char]) -> (r: (usize, usize))
    ensures
        r.0 <= r.1 <= s@.len(),
        s@.subrange(r.0 as int, r.1 as int) == trim(s@),
{
    let mut i: usize = 0;
    assert(s@.skip(0) =~= s@);
    while i < s.len() && is_space_char(s[i])
        invariant
            i <= s@.len(),
            trim_start(s@) == trim_start(s@.skip(i as int)),
        decreases s@.len() - i,
    {
        proof {
            assert(s@.skip(i as int).skip(1) =~= s@.skip(i + 1));
        }
        i = i + 1;
    }
    let ghost t = s@.skip(i as int);
    assert(trim_start(s@) == t);
    let mut j: usize = s.len();
    assert(t =~= s@.subrange(i as int, j as int));
    while i < j && is_space_char(s[j - 1])
        invariant
            i <= j <= s@.len(),
            trim_end(t) == trim_end(s@.subrange(i as int, j as int)),
        decreases j,
    {
        proof {
            assert(s@.subrange(i as int, j as int).drop_last() =~= s@.subrange(
                i as int,
                j - 1,
            ));
        }
        j = j - 1;
    }
    (i, j)
}

/// The text without the white space on both sides.
pub fn trimmed(s: &str) -> (r: String)
    ensures
        r@ == trim(s@),
{
    let chars = to_chars(s);
    let (i, j) = trim_range(&chars);
    from_range(&chars, i, j)
}

/// Nothing but white space.
pub fn is_blank(s: &str) -> (r: bool)
    ensures
        r == (trim(s@).len() == 0),
{
    let chars = to_chars(s);
    let (i, j) = trim_range(&chars);
    i == j
}

/// Decides `occurs_at`.
pub fn matches_at(s: &[char], part: &[char], at: usize) -> (r: bool)
    ensures
        r == occurs_at(s@, part@, at as int),
{
    if at > s.len() || part.len() > s.len() - at {
        return false;
    }
    let n: usize = s.len();
    assert(n == s@.len());
    let mut k: usize = 0;
    while k < part.len()
        invariant
            k <= part@.len(),
            at + part@.len() <= s@.len() <= usize::MAX,
            forall|j: int| 0 <= j < k ==> s@[at + j] == part@[j],
        decreases part@.len() - k,
    {
        if s[at + k] != part[k] {
            proof {
                assert(s@.subrange(at as int, at + part@.len())[k as int] != part@[k as int]);
            }
            return false;
        }
        k = k + 1;
    }
    assert(s@.subrange(at as int, at + part@.len()) =~= part@);
    true
}

/// The first position at or behind `from` where `part` stands.
pub fn find_from(s: &[char], part: &[char], from: usize) -> (r: Option<usize>)
    ensures
        match r {
            Some(at) => is_first_at(s@, part@, from as int, at as int),
            None => forall|j: int| from <= j ==> !#[trigger] occurs_at(s@, part@, j),
        },
{
    let mut i: usize = from;
    while i <= s.len()
        invariant
            forall|j: int| from <= j < i ==> !#[trigger] occurs_at(s@, part@, j),
            from <= i,
        decreases s@.len() + 1 - i,
    {
        if matches_at(s, part, i) {
            return Some(i);
        }
        if i == s.len() {
            return None;
        }
        i = i + 1;
    }
    None
}

/// `part` stands somewhere in `s`.
pub fn has_part(s: &str, part: &str) -> (r: bool)
    ensures
        r == contains(s@, part@),
{
    let chars = to_chars(s);
    let needle = to_chars(part);
    let found = find_from(&chars, &needle, 0);
    match found {
        Some(at) => {
            assert(occurs_at(s@, part@, at as int));
            true
        },
        None => false,
    }
}

/// `part` stands at the front of `s`.
pub fn has_prefix(s: &str, part: &str) -> (r: bool)
    ensures
        r == starts_with(s@, part@),
{
    let chars = to_chars(s);
    let needle = to_chars(part);
    matches_at(&chars, &needle, 0)
}

/// What stands behind `part` where `s` starts with it.
pub fn strip_prefix(s: &str, part: &str) -> (r: Option<String>)
    ensures
        r is Some == starts_with(s@, part@),
        r is Some ==> r->0@ == s@.skip(part@.len() as int),
{
    let chars = to_chars(s);
    let needle = to_chars(part);
    if matches_at(&chars, &needle, 0) {
        let rest = from_range(&chars, needle.len(), chars.len());
        assert(rest@ =~= s@.skip(part@.len() as int));
        Some(rest)
    } else {
        None
    }
}

/// The ASCII letters in lower case.
pub fn lowered(s: &str) -> (r: String)
    ensures
        r@ == to_lower(s@),
{
    let chars = to_chars(s);
    let mut r: String = String::new();
    let mut i: usize = 0;
    while i < chars.len()
        invariant
            i <= chars@.len(),
            chars@ == s@,
            r@ == to_lower(s@.take(i as int)),
        decreases chars@.len() - i,
    {
        let c: char = chars[i];
        let d: char = if 'A' <= c && c <= 'Z' {
            ((c as u8) + 32) as char
        } else {
            c
        };
        r.push(d);
        proof {
            assert(s@.take(i + 1) =~= s@.take(i as int).push(c));
            assert(r@ =~= to_lower(s@.take(i + 1)));
        }
        i = i + 1;
    }
    assert(s@.take(i as int) =~= s@);
    r
}

/// Each `from` replaced by `with`.
pub fn replaced(s: &str, from: char, with: &str) -> (r: String)
    ensures
        r@ == replace_char(s@, from, with@),
{
    let chars = to_chars(s);
    let mut r: String = String::new();
    let mut i: usize = 0;
    while i < chars.len()
        invariant
            i <= chars@.len(),
            chars@ == s@,
            r@ == replace_char(s@.take(i as int), from, with@),
        decreases chars@.len() - i,
    {
        let c: char = chars[i];
        proof {
            assert(s@.take(i + 1).drop_last() =~= s@.take(i as int));
        }
        if c == from {
            r.append(with);
        } else {
            r.push(c);
        }
        i = i + 1;
    }
    assert(s@.take(i as int) =~= s@);
    r
}

/// The parts of `s` between the separators.
pub open spec fn split_at(s: Seq<char>, sep: char) -> Seq<Seq<char>>
    decreases s.len(),
{
    if s.len() == 0 {
        seq![Seq::empty()]
    } else {
        let parts = split_at(s.drop_last(), sep);
        if s.last() == sep {
            parts.push(Seq::empty())
        } else {
            parts.drop_last().push(parts.last().push(s.last()))
        }
    }
}

/// Without the carriage return at the end.
pub open spec fn strip_cr(s: Seq<char>) -> Seq<char> {
    if s.len() > 0 && s.last() == '\r' {
        s.drop_last()
    } else {
        s
    }
}

/// The lines of `s`: each ends at a line feed, which a carriage return may precede; what
/// follows the last line feed is a line where it is not empty.
pub open spec fn lines(s: Seq<char>) -> Seq<Seq<char>> {
    let parts = split_at(s, '\n');
    let ended = parts.drop_last().map_values(|p: Seq<char>| strip_cr(p));
    if parts.last().len() == 0 {
        ended
    } else {
        ended.push(parts.last())
    }
}

/// The runs of characters that are not white space.
pub open spec fn words(s: Seq<char>) -> Seq<Seq<char>>
    decreases s.len(),
{
    if s.len() == 0 {
        Seq::empty()
    } else {
        let before = words(s.drop_last());
        if is_space(s.last()) {
            before
        } else if s.len() >= 2 && !is_space(s[s.len() - 2]) {
            before.drop_last().push(before.last().push(s.last()))
        } else {
            before.push(seq![s.last()])
        }
    }
}

/// The parts with the separator between each two.
pub open spec fn join(parts: Seq<Seq<char>>, sep: Seq<char>) -> Seq<char>
    decreases parts.len(),
{
    if parts.len() == 0 {
        Seq::empty()
    } else if parts.len() == 1 {
        parts[0]
    } else {
        join(parts.drop_last(), sep) + sep + parts.last()
    }
}

/// The views of a list of strings.
pub open spec fn views(v: Seq<String>) -> Seq<Seq<char>> {
    v.map_values(|s: String| s@)
}

/// The view of a string that may be missing.
pub open spec fn opt_view(o: Option<String>) -> Option<Seq<char>> {
    match o {
        Some(s) => Some(s@),
        None => None,
    }
}

/// The parts between the separators.
pub fn split(s: &str, sep: char) -> (r: Vec<String>)
    ensures
        views(r@) == split_at(s@, sep),
        r@.len() > 0,
{
    let chars = to_chars(s);
    let mut r: Vec<String> = Vec::new();
    let mut current: String = String::new();
    let mut i: usize = 0;
    while i < chars.len()
        invariant
            i <= chars@.len(),
            chars@ == s@,
            views(r@).push(current@) == split_at(s@.take(i as int), sep),
        decreases chars@.len() - i,
    {
        let c: char = chars[i];
        proof {
            assert(s@.take(i + 1).drop_last() =~= s@.take(i as int));
            assert(views(r@).push(current@).drop_last() =~= views(r@));
        }
        if c == sep {
            let ghost before = r@;
            let done = current;
            current = String::new();
            r.push(done);
            assert(views(r@) =~= views(before).push(done@));
        } else {
            current.push(c);
        }
        i = i + 1;
    }
    assert(s@.take(i as int) =~= s@);
    let ghost before = r@;
    let ghost tail = current@;
    r.push(current);
    assert(views(r@) =~= views(before).push(tail));
    r
}

/// The lines of a text.
pub fn split_lines(s: &str) -> (r: Vec<String>)
    ensures
        views(r@) == lines(s@),
{
    let parts = split(s, '\n');
    let mut r: Vec<String> = Vec::new();
    let mut i: usize = 0;
    let ghost all = split_at(s@, '\n');
    while i < parts.len() - 1
        invariant
            parts@.len() > 0,
            i <= parts@.len() - 1,
            all == views(parts@),
            views(r@) == all.take(i as int).map_values(|p: Seq<char>| strip_cr(p)),
        decreases parts@.len() - i,
    {
        let part = to_chars(parts[i].as_str());
        let n: usize = part.len();
        let line: String = if n > 0 && part[n - 1] == '\r' {
            let cut = from_range(&part, 0, n - 1);
            assert(cut@ =~= part@.drop_last());
            cut
        } else {
            parts[i].clone()
        };
        assert(all[i as int] == parts@[i as int]@);
        assert(line@ == strip_cr(all[i as int]));
        let ghost before = r@;
        r.push(line);
        proof {
            assert(views(r@) =~= views(before).push(line@));
            assert(all.take(i + 1) =~= all.take(i as int).push(all[i as int]));
            assert(views(r@) =~= all.take(i + 1).map_values(|p: Seq<char>| strip_cr(p)));
        }
        i = i + 1;
    }
    let last = parts[i].clone();
    assert(all.take(i as int) =~= all.drop_last());
    assert(all.last() == last@);
    if !last.as_str().is_empty() {
        let ghost before = r@;
        r.push(last);
        assert(views(r@) =~= views(before).push(last@));
    }
    r
}

/// The words of a text.
pub fn split_words(s: &str) -> (r: Vec<String>)
    ensures
        views(r@) == words(s@),
{
    let chars = to_chars(s);
    let mut r: Vec<String> = Vec::new();
    let mut current: String = String::new();
    let mut i: usize = 0;
    while i < chars.len()
        invariant
            i <= chars@.len(),
            chars@ == s@,
            current@.len() == 0 <==> (i == 0 || is_space(s@[i - 1])),
            words(s@.take(i as int)) == (if current@.len() == 0 {
                views(r@)
            } else {
                views(r@).push(current@)
            }),
        decreases chars@.len() - i,
    {
        let c: char = chars[i];
        proof {
            assert(s@.take(i + 1).drop_last() =~= s@.take(i as int));
            assert(views(r@).push(current@).drop_last() =~= views(r@));
        }
        if is_space_char(c) {
            if !current.as_str().is_empty() {
                let ghost before = r@;
                let done = current;
                current = String::new();
                r.push(done);
                assert(views(r@) =~= views(before).push(done@));
            }
        } else {
            let ghost held = current@;
            current.push(c);
            proof {
                if held.len() == 0 {
                    assert(current@ =~= seq![c]);
                }
            }
        }
        i = i + 1;
    }
    assert(s@.take(i as int) =~= s@);
    if !current.as_str().is_empty() {
        let ghost before = r@;
        let ghost tail = current@;
        r.push(current);
        assert(views(r@) =~= views(before).push(tail));
    }
    r
}

/// The parts with the separator between each two.
pub fn joined(parts: &[String], sep: &str) -> (r: String)
    ensures
        r@ == join(views(parts@), sep@),
{
    let mut r: String = String::new();
    let mut i: usize = 0;
    let ghost all = views(parts@);
    while i < parts.len()
        invariant
            i <= parts@.len(),
            all == views(parts@),
            r@ == join(all.take(i as int), sep@),
        decreases parts@.len() - i,
    {
        proof {
            assert(all.take(i + 1).drop_last() =~= all.take(i as int));
            assert(all.take(i + 1).last() == parts@[i as int]@);
        }
        if i > 0 {
            r.append(sep);
        }
        r.append(parts[i].as_str());
        i = i + 1;
    }
    assert(all.take(i as int) =~= all);
    r
}

/// The list holds the text.
pub fn list_has(list: &[String], s: &str) -> (r: bool)
    ensures
        r == views(list@).contains(s@),
{
    let mut i: usize = 0;
    while i < list.len()
        invariant
            i <= list@.len(),
            forall|k: int| 0 <= k < i ==> (#[trigger] list@[k])@ != s@,
        decreases list@.len() - i,
    {
        if same(list[i].as_str(), s) {
            assert(views(list@)[i as int] == s@);
            return true;
        }
        i = i + 1;
    }
    proof {
        if views(list@).contains(s@) {
            let k = choose|k: int| 0 <= k < views(list@).len() && views(list@)[k] == s@;
            assert(list@[k]@ == s@);
        }
    }
    false
}

/// A copy of a text that may be missing.
pub fn copy_opt(o: &Option<String>) -> (r: Option<String>)
    ensures
        opt_view(r) == opt_view(*o),
{
    match o {
        Some(s) => Some(s.clone()),
        None => None,
    }
}

/// Adds a text behind the others.
pub fn push_text(list: &mut Vec<String>, s: String)
    ensures
        views(final(list)@) == views(old(list)@).push(s@),
{
    let ghost before = list@;
    list.push(s);
    assert(views(list@) =~= views(before).push(s@));
}

/// A copy of a list of texts.
pub fn copy_list(list: &[String]) -> (r: Vec<String>)
    ensures
        views(r@) == views(list@),
{
    let mut r: Vec<String> = Vec::new();
    let ghost all = views(list@);
    assert(views(r@) =~= all.take(0));
    let mut i: usize = 0;
    while i < list.len()
        invariant
            i <= list@.len(),
            all == views(list@),
            views(r@) == all.take(i as int),
        decreases list@.len() - i,
    {
        push_text(&mut r, list[i].clone());
        assert(all.take(i + 1) =~= all.take(i as int).push(all[i as int]));
        i = i + 1;
    }
    assert(all.take(i as int) =~= all);
    r
}

/// Calls `std::str::from_utf8`: bytes are a text exactly where they are valid UTF-8, and the text is
/// then the one that they encode.
#[verifier::external_body]
pub(crate) fn utf8_text(bytes: &[u8]) -> (r: Option<String>)
    ensures
        r is Some == valid_utf8(bytes@),
        r is Some ==> r->0@ == decode_utf8(bytes@),
{
    std::str::from_utf8(bytes).ok().map(|s| s.to_owned())
}

/// The text that `String::from_utf8_lossy` makes of bytes.
pub uninterp spec fn lossy_utf8(bytes: Seq<u8>) -> Seq<char>;

/// Calls `String::from_utf8_lossy`: valid UTF-8 is decoded as it is, and what is not valid is
/// replaced. Which text comes out in that case has a name, `lossy_utf8`.
#[verifier::external_body]
pub(crate) fn lossy_text(bytes: &[u8]) -> (r: String)
    ensures
        r@ == lossy_utf8(bytes@),
        valid_utf8(bytes@) ==> r@ == decode_utf8(bytes@),
{
    String::from_utf8_lossy(bytes).into_owned()
}

/// Trimming drops white space on both sides and nothing else: what is left stands in the text as it
/// was, has no white space at its ends, and is trimmed already.
pub proof fn law_trimming_drops_outer_white_space(s: Seq<char>)
    ensures
        exists|i: int, j: int|
            #![trigger s.subrange(i, j)]
            0 <= i <= j <= s.len() && trim(s) == s.subrange(i, j) && (forall|k: int|
                0 <= k < i || j <= k < s.len() ==> is_space(#[trigger] s[k])),
        trim(s).len() > 0 ==> !is_space(trim(s)[0]) && !is_space(trim(s).last()),
        trim(trim(s)) == trim(s),
{
    let i = lemma_trim_start(s);
    let t = s.skip(i);
    let n = lemma_trim_end(t);
    let j = i + n;
    assert(s.subrange(i, j) =~= t.take(n));
    assert forall|k: int| 0 <= k < i || j <= k < s.len() implies is_space(#[trigger] s[k]) by {
        if k >= j {
            assert(t[k - i] == s[k]);
        }
    }
    if trim(s).len() > 0 {
        assert(trim(s)[0] == t[0]);
        assert(trim_start(trim(s)) == trim(s));
        assert(trim_end(trim(s)) == trim(s));
    }
}

proof fn lemma_trim_start(s: Seq<char>) -> (i: int)
    ensures
        0 <= i <= s.len(),
        trim_start(s) == s.skip(i),
        i < s.len() ==> !is_space(s[i]),
        forall|k: int| 0 <= k < i ==> is_space(#[trigger] s[k]),
    decreases s.len(),
{
    if s.len() > 0 && is_space(s[0]) {
        let i = lemma_trim_start(s.skip(1));
        assert(s.skip(1).skip(i) =~= s.skip(i + 1));
        if i < s.skip(1).len() {
            assert(s.skip(1)[i] == s[i + 1]);
        }
        assert forall|k: int| 0 <= k < i + 1 implies is_space(#[trigger] s[k]) by {
            if k > 0 {
                assert(s.skip(1)[k - 1] == s[k]);
            }
        }
        i + 1
    } else {
        assert(s.skip(0) =~= s);
        0
    }
}

proof fn lemma_trim_end(s: Seq<char>) -> (n: int)
    ensures
        0 <= n <= s.len(),
        trim_end(s) == s.take(n),
        n > 0 ==> !is_space(s[n - 1]),
        forall|k: int| n <= k < s.len() ==> is_space(#[trigger] s[k]),
    decreases s.len(),
{
    if s.len() > 0 && is_space(s.last()) {
        let n = lemma_trim_end(s.drop_last());
        assert(s.drop_last().take(n) =~= s.take(n));
        assert forall|k: int| n <= k < s.len() implies is_space(#[trigger] s[k]) by {
            if k < s.len() - 1 {
                assert(s.drop_last()[k] == s[k]);
            }
        }
        n
    } else {
        assert(s.take(s.len() as int) =~= s);
        s.len() as int
    }
}

/// Splitting loses nothing but the separators: the parts hold none, and with one between each two
/// they are the text again.
pub proof fn law_splitting_is_undone_by_joining(s: Seq<char>, sep: char)
    ensures
        split_at(s, sep).len() > 0,
        join(split_at(s, sep), seq![sep]) == s,
        forall|i: int|
            0 <= i < split_at(s, sep).len() ==> !(#[trigger] split_at(s, sep)[i]).contains(sep),
    decreases s.len(),
{
    let parts = split_at(s, sep);
    let mark = seq![sep];
    if s.len() == 0 {
        assert(parts[0] =~= s);
    } else {
        let front = s.drop_last();
        let before = split_at(front, sep);
        law_splitting_is_undone_by_joining(front, sep);
        assert(s =~= front.push(s.last()));
        if s.last() == sep {
            assert(parts.drop_last() =~= before);
            assert(join(parts, mark) =~= s);
            assert forall|i: int| 0 <= i < parts.len() implies !(#[trigger] parts[i]).contains(
                sep,
            ) by {
                if i < before.len() {
                    assert(parts[i] == before[i]);
                }
            }
        } else {
            let head = before.drop_last();
            let tail = before.last();
            let longer = tail.push(s.last());
            assert(parts.drop_last() =~= head);
            assert(parts.last() == longer);
            if before.len() == 1 {
                assert(join(parts, mark) =~= s);
            } else {
                assert(join(parts, mark) =~= join(head, mark) + mark + longer);
                assert(join(before, mark) =~= join(head, mark) + mark + tail);
                assert(join(parts, mark) =~= s);
            }
            assert forall|i: int| 0 <= i < parts.len() implies !(#[trigger] parts[i]).contains(
                sep,
            ) by {
                if i < head.len() {
                    assert(parts[i] == before[i]);
                } else {
                    assert(before[before.len() - 1] == tail);
                    assert forall|k: int| 0 <= k < longer.len() implies longer[k] != sep by {
                        if k < tail.len() {
                            assert(tail.contains(tail[k]));
                        }
                    }
                }
            }
        }
    }
}

/// A word is made of characters that are no white space, and there is no empty word.
pub proof fn law_words_hold_no_white_space(s: Seq<char>)
    ensures
        forall|i: int|
            #![trigger words(s)[i]]
            0 <= i < words(s).len() ==> words(s)[i].len() > 0 && forall|k: int|
                0 <= k < words(s)[i].len() ==> !is_space(#[trigger] words(s)[i][k]),
        s.len() > 0 && !is_space(s.last()) ==> words(s).len() > 0 && words(s).last().last()
            == s.last(),
    decreases s.len(),
{
    if s.len() > 0 {
        let before = words(s.drop_last());
        law_words_hold_no_white_space(s.drop_last());
        let all = words(s);
        assert forall|i: int|
            #![trigger all[i]]
            0 <= i < all.len() implies all[i].len() > 0 && forall|k: int|
            0 <= k < all[i].len() ==> !is_space(#[trigger] all[i][k]) by {
            if is_space(s.last()) {
                assert(all[i] == before[i]);
            } else if s.len() >= 2 && !is_space(s[s.len() - 2]) {
                assert(s.drop_last().last() == s[s.len() - 2]);
                if i < before.len() - 1 {
                    assert(all[i] == before[i]);
                } else {
                    let tail = before.last();
                    assert(before[before.len() - 1] == tail);
                    assert(all[i] == tail.push(s.last()));
                    assert forall|k: int| 0 <= k < all[i].len() implies !is_space(
                        #[trigger] all[i][k],
                    ) by {
                        if k < tail.len() {
                            assert(before[before.len() - 1][k] == tail[k]);
                        }
                    }
                }
            } else if i < before.len() {
                assert(all[i] == before[i]);
            }
        }
        if !is_space(s.last()) && s.len() >= 2 && !is_space(s[s.len() - 2]) {
            assert(s.drop_last().last() == s[s.len() - 2]);
        }
    }
}

/// Putting letters in small changes the capital letters of ASCII and nothing else, and doing it again
/// changes nothing.
pub proof fn law_capitals_become_small(s: Seq<char>)
    ensures
        to_lower(s).len() == s.len(),
        forall|i: int|
            0 <= i < s.len() ==> (#[trigger] to_lower(s)[i]) == (if 'A' <= s[i] <= 'Z' {
                (s[i] as u32 + 32) as char
            } else {
                s[i]
            }),
        to_lower(to_lower(s)) == to_lower(s),
{
    assert forall|i: int| 0 <= i < s.len() implies ascii_lower(ascii_lower(#[trigger] s[i]))
        == ascii_lower(s[i]) by {
        lemma_small_stays(s[i]);
    }
    assert(to_lower(to_lower(s)) =~= to_lower(s));
}

proof fn lemma_small_stays(c: char)
    ensures
        ascii_lower(ascii_lower(c)) == ascii_lower(c),
{
    if 'A' <= c && c <= 'Z' {
        let n = (c as u32 + 32) as u32;
        assert(97 <= n <= 122);
        assert((n as char) as u32 == n);
    }
}

/// Replacing a character keeps all others: what stood in front of the last character is replaced by
/// itself.
pub proof fn law_replacing_goes_character_by_character(
    a: Seq<char>,
    b: Seq<char>,
    from: char,
    with: Seq<char>,
)
    ensures
        replace_char(a + b, from, with) == replace_char(a, from, with) + replace_char(b, from, with),
        !a.contains(from) ==> replace_char(a, from, with) == a,
    decreases b.len() + a.len(),
{
    if b.len() == 0 {
        assert(a + b =~= a);
        assert(replace_char(a, from, with) + replace_char(b, from, with) =~= replace_char(
            a,
            from,
            with,
        ));
        if a.len() > 0 && !a.contains(from) {
            let front = a.drop_last();
            assert forall|i: int| 0 <= i < front.len() implies front[i] != from by {
                assert(a[i] == front[i]);
                assert(a.contains(a[i]));
            }
            law_replacing_goes_character_by_character(front, b, from, with);
            assert(a[a.len() - 1] == a.last());
            assert(front + seq![a.last()] =~= a);
        }
    } else {
        law_replacing_goes_character_by_character(a, b.drop_last(), from, with);
        assert((a + b).drop_last() =~= a + b.drop_last());
        assert(replace_char(a + b, from, with) =~= replace_char(a, from, with) + replace_char(
            b,
            from,
            with,
        ));
    }
}

} // verus!
