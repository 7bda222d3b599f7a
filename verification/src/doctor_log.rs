//! What the logs of the remote helpers tell, and how their lines are shown.
use vstd::prelude::*;
use vstd::string::*;

use crate::doctor_checks::{CheckView, DoctorEvidence, DoctorRuntimeCheck, EvidenceView};
use crate::dump_plan::opt_str;
use crate::text::{
    contains, has_part, is_space, is_space_char, join, joined, lines, lowered, matches_at,
    occurs_at, push_text, same, split_lines, to_chars, to_lower, views,
};

verus! {

/// What ends a word of a log line.
pub open spec fn ends_word(c: char) -> bool {
    is_space(c) || c == '"' || c == '\'' || c == ',' || c == ';'
}

/// Where the word ends that goes on at `from`.
pub open spec fn word_end(s: Seq<char>, from: int) -> int
    decreases s.len() - from,
{
    if from >= s.len() {
        s.len() as int
    } else if ends_word(s[from]) {
        from
    } else {
        word_end(s, from + 1)
    }
}

/// Where the next word starts, at `from` or behind what stands between words.
pub open spec fn next_word(s: Seq<char>, from: int) -> int
    decreases s.len() - from,
{
    if from >= s.len() {
        s.len() as int
    } else if ends_word(s[from]) {
        next_word(s, from + 1)
    } else {
        from
    }
}

/// What the tokens of the helpers and bridges begin with, and what stands before a token in a
/// header.
pub open spec fn markers() -> Seq<Seq<char>> {
    seq!["lmxh_"@, "lmxb_"@, "lmxbm_"@, "Bearer "@]
}

/// The character at `p` is hidden by a marker at `at`: it stands in the word of the marker, from
/// the marker on, or in the word behind a marker that ends its word.
pub open spec fn hides(s: Seq<char>, marker: Seq<char>, at: int, p: int) -> bool {
    let behind = next_word(s, at + marker.len());
    occurs_at(s, marker, at) && (at <= p < word_end(s, at) || (ends_word(marker.last()) && behind
        <= p < word_end(s, behind)))
}

/// The character at this place belongs to a marker or to the secret that it announces.
pub open spec fn is_hidden(s: Seq<char>, p: int) -> bool {
    exists|k: int, q: int| 0 <= k < 4 && #[trigger] hides(s, markers()[k], q, p)
}

/// What is shown of a line from a place on: what is not hidden, and one sign for each run of what
/// is. What stands between words is always shown.
pub open spec fn shown_from(s: Seq<char>, from: int) -> Seq<char>
    decreases s.len() - from,
{
    if from < 0 || from >= s.len() {
        Seq::empty()
    } else if !is_hidden(s, from) {
        seq![s[from]] + shown_from(s, from + 1)
    } else if from > 0 && is_hidden(s, from - 1) {
        shown_from(s, from + 1)
    } else {
        "<redacted>"@ + shown_from(s, from + 1)
    }
}

/// A log line without its secrets.
pub open spec fn redacted_line(line: Seq<char>) -> Seq<char> {
    shown_from(line, 0)
}

fn word_end_at(chars: &[char], from: usize) -> (r: usize)
    requires
        from <= chars@.len(),
    ensures
        r == word_end(chars@, from as int),
        from <= r <= chars@.len(),
{
    let mut i: usize = from;
    while i < chars.len()
        invariant
            from <= i <= chars@.len(),
            word_end(chars@, from as int) == word_end(chars@, i as int),
        decreases chars@.len() - i,
    {
        if is_word_end(chars[i]) {
            return i;
        }
        i = i + 1;
    }
    i
}

fn next_word_at(chars: &[char], from: usize) -> (r: usize)
    requires
        from <= chars@.len(),
    ensures
        r == next_word(chars@, from as int),
        from <= r <= chars@.len(),
{
    let mut i: usize = from;
    while i < chars.len()
        invariant
            from <= i <= chars@.len(),
            next_word(chars@, from as int) == next_word(chars@, i as int),
        decreases chars@.len() - i,
    {
        if !is_word_end(chars[i]) {
            return i;
        }
        i = i + 1;
    }
    i
}

fn is_word_end(c: char) -> (r: bool)
    ensures
        r == ends_word(c),
{
    is_space_char(c) || c == '"' || c == '\'' || c == ',' || c == ';'
}

fn mark(hidden: &mut Vec<bool>, from: usize, to: usize)
    requires
        from <= to <= old(hidden)@.len(),
    ensures
        final(hidden)@.len() == old(hidden)@.len(),
        forall|p: int|
            0 <= p < old(hidden)@.len() ==> #[trigger] final(hidden)@[p] == (old(hidden)@[p] || from
                <= p < to),
{
    let mut i: usize = from;
    while i < to
        invariant
            from <= i <= to <= hidden@.len(),
            hidden@.len() == old(hidden)@.len(),
            forall|p: int|
                0 <= p < hidden@.len() ==> #[trigger] hidden@[p] == (old(hidden)@[p] || from <= p
                    < i),
        decreases to - i,
    {
        hidden.set(i, true);
        i = i + 1;
    }
}

/// Marks what a marker at this place hides.
fn mark_behind(chars: &[char], marker: &str, at: usize, hidden: &mut Vec<bool>)
    requires
        marker@.len() > 0,
        at < chars@.len(),
        old(hidden)@.len() == chars@.len(),
    ensures
        final(hidden)@.len() == chars@.len(),
        forall|p: int|
            0 <= p < chars@.len() ==> #[trigger] final(hidden)@[p] == (old(hidden)@[p] || hides(
                chars@,
                marker@,
                at as int,
                p,
            )),
{
    let part = to_chars(marker);
    if !matches_at(chars, part.as_slice(), at) {
        return;
    }
    assert(at + part@.len() <= chars.len());
    let behind: usize = next_word_at(chars, at + part.len());
    let own_end: usize = word_end_at(chars, at);
    mark(hidden, at, own_end);
    if is_word_end(part[part.len() - 1]) {
        let end: usize = word_end_at(chars, behind);
        mark(hidden, behind, end);
    }
}

/// What the markers before a place hide.
spec fn hidden_before(s: Seq<char>, before: int, p: int) -> bool {
    exists|k: int, q: int| 0 <= k < 4 && q < before && #[trigger] hides(s, markers()[k], q, p)
}

fn mark_all(chars: &[char]) -> (r: Vec<bool>)
    ensures
        r@.len() == chars@.len(),
        forall|p: int| 0 <= p < chars@.len() ==> #[trigger] r@[p] == is_hidden(chars@, p),
{
    proof {
        reveal_strlit("lmxh_");
        reveal_strlit("lmxb_");
        reveal_strlit("lmxbm_");
        reveal_strlit("Bearer ");
    }
    let ghost s = chars@;
    let mut hidden: Vec<bool> = Vec::new();
    while hidden.len() < chars.len()
        invariant
            hidden@.len() <= chars@.len(),
            forall|p: int| 0 <= p < hidden@.len() ==> !#[trigger] hidden@[p],
        decreases chars@.len() - hidden@.len(),
    {
        hidden.push(false);
    }
    let mut i: usize = 0;
    assert forall|p: int| !#[trigger] hidden_before(s, 0, p) by {}
    while i < chars.len()
        invariant
            s == chars@,
            "lmxh_"@.len() > 0,
            "lmxb_"@.len() > 0,
            "lmxbm_"@.len() > 0,
            "Bearer "@.len() > 0,
            i <= chars@.len(),
            hidden@.len() == chars@.len(),
            forall|p: int|
                0 <= p < chars@.len() ==> #[trigger] hidden@[p] == hidden_before(s, i as int, p),
        decreases chars@.len() - i,
    {
        let ghost old_marks = hidden@;
        mark_behind(chars, "lmxh_", i, &mut hidden);
        mark_behind(chars, "lmxb_", i, &mut hidden);
        mark_behind(chars, "lmxbm_", i, &mut hidden);
        mark_behind(chars, "Bearer ", i, &mut hidden);
        proof {
            assert(markers()[0] == "lmxh_"@ && markers()[1] == "lmxb_"@ && markers()[2]
                == "lmxbm_"@ && markers()[3] == "Bearer "@);
            assert forall|p: int| 0 <= p < s.len() implies #[trigger] hidden@[p] == hidden_before(
                s,
                i + 1,
                p,
            ) by {
                assert(old_marks[p] == hidden_before(s, i as int, p));
                if hidden@[p] {
                    if old_marks[p] {
                        let (k, q) = choose|k: int, q: int|
                            0 <= k < 4 && q < i && #[trigger] hides(s, markers()[k], q, p);
                        assert(hides(s, markers()[k], q, p) && q < i + 1);
                    } else {
                        assert(hides(s, markers()[0], i as int, p) || hides(
                            s,
                            markers()[1],
                            i as int,
                            p,
                        ) || hides(s, markers()[2], i as int, p) || hides(
                            s,
                            markers()[3],
                            i as int,
                            p,
                        ));
                    }
                }
                if hidden_before(s, i + 1, p) {
                    let (k, q) = choose|k: int, q: int|
                        0 <= k < 4 && q < i + 1 && #[trigger] hides(s, markers()[k], q, p);
                    if q < i {
                        assert(hidden_before(s, i as int, p));
                    } else {
                        assert(k == 0 || k == 1 || k == 2 || k == 3);
                    }
                }
            }
        }
        i = i + 1;
    }
    assert forall|p: int| 0 <= p < s.len() implies #[trigger] hidden@[p] == is_hidden(s, p) by {
        assert(hidden@[p] == hidden_before(s, i as int, p));
        if is_hidden(s, p) {
            let (k, q) = choose|k: int, q: int|
                0 <= k < 4 && #[trigger] hides(s, markers()[k], q, p);
            assert(occurs_at(s, markers()[k], q));
            assert(k == 0 || k == 1 || k == 2 || k == 3);
            assert(q < i);
        }
    }
    hidden
}

/// A log line without its secrets: the tokens of the helpers and bridges, and what stands behind
/// the word `Bearer`.
pub fn redact_log_line(line: &str) -> (r: String)
    ensures
        r@ == redacted_line(line@),
{
    let chars = to_chars(line);
    let hidden = mark_all(chars.as_slice());
    let mut out: String = String::new();
    let mut i: usize = 0;
    assert(out@ + shown_from(line@, 0) =~= shown_from(line@, 0));
    while i < chars.len()
        invariant
            chars@ == line@,
            hidden@.len() == chars@.len(),
            forall|p: int| 0 <= p < chars@.len() ==> #[trigger] hidden@[p] == is_hidden(line@, p),
            i <= chars@.len(),
            redacted_line(line@) == out@ + shown_from(line@, i as int),
        decreases chars@.len() - i,
    {
        let ghost before = out@;
        let ghost rest = shown_from(line@, i + 1);
        assert(hidden@[i as int] == is_hidden(line@, i as int));
        if !hidden[i] {
            out.push(chars[i]);
            assert(out@ + rest =~= before + (seq![line@[i as int]] + rest));
        } else if i == 0 || !hidden[i - 1] {
            assert(i > 0 ==> hidden@[i - 1] == is_hidden(line@, i - 1));
            out.append("<redacted>");
            assert(out@ + rest =~= before + ("<redacted>"@ + rest));
        } else {
            assert(hidden@[i - 1] == is_hidden(line@, i - 1));
        }
        i = i + 1;
    }
    assert(out@ + shown_from(line@, i as int) =~= out@);
    out
}

/// What is shown from a place that is not hidden begins with the line itself.
proof fn lemma_shown_prefix(s: Seq<char>, from: int, t: Seq<char>)
    requires
        0 <= from < s.len(),
        !is_hidden(s, from),
        t.len() > 0,
        !t.contains('<'),
        occurs_at(shown_from(s, from), t, 0),
    ensures
        occurs_at(s, t, from),
    decreases t.len(),
{
    reveal_strlit("<redacted>");
    let out = shown_from(s, from);
    assert(out.subrange(0, t.len() as int) =~= t);
    assert(t[0] == out[0]);
    if t.len() == 1 {
        assert(s.subrange(from, from + 1) =~= t);
    } else {
        let rest = shown_from(s, from + 1);
        let tail = t.skip(1);
        assert(rest.subrange(0, tail.len() as int) =~= tail) by {
            assert forall|k: int| 0 <= k < tail.len() implies rest[k] == tail[k] by {
                assert(out[k + 1] == t[k + 1]);
            }
        }
        assert(tail[0] == rest[0]);
        assert(t.contains(t[1]));
        assert(from + 1 < s.len());
        assert(!is_hidden(s, from + 1));
        assert(!tail.contains('<')) by {
            if tail.contains('<') {
                let k = choose|k: int| 0 <= k < tail.len() && tail[k] == '<';
                assert(t[k + 1] == '<');
            }
        }
        lemma_shown_prefix(s, from + 1, tail);
        assert(s.subrange(from, from + t.len()) =~= t) by {
            assert forall|k: int| 0 <= k < t.len() implies s[from + k] == t[k] by {
                if k > 0 {
                    assert(s.subrange(from + 1, from + 1 + tail.len())[k - 1] == tail[k - 1]);
                }
            }
        }
    }
}

proof fn lemma_not_shown_from(s: Seq<char>, from: int, t: Seq<char>)
    requires
        0 <= from <= s.len(),
        t.len() > 0,
        !t.contains('<'),
        !t.contains('>'),
        !contains("<redacted>"@, t),
        forall|p: int| #[trigger] occurs_at(s, t, p) ==> is_hidden(s, p),
    ensures
        !contains(shown_from(s, from), t),
    decreases s.len() - from,
{
    reveal_strlit("<redacted>");
    let mid = "<redacted>"@;
    let out = shown_from(s, from);
    let n = t.len() as int;
    if from < s.len() {
        let rest = shown_from(s, from + 1);
        lemma_not_shown_from(s, from + 1, t);
        assert forall|p: int| !#[trigger] occurs_at(out, t, p) by {
            if occurs_at(out, t, p) {
                assert forall|k: int| 0 <= k < n implies t[k] == #[trigger] out[p + k] by {
                    assert(out.subrange(p, p + n)[k] == out[p + k]);
                }
                if !is_hidden(s, from) {
                    if p == 0 {
                        lemma_shown_prefix(s, from, t);
                    } else {
                        assert(rest.subrange(p - 1, p - 1 + n) =~= t);
                        assert(occurs_at(rest, t, p - 1));
                    }
                } else if !(from > 0 && is_hidden(s, from - 1)) {
                    assert(mid.len() == 10);
                    if p >= 10 {
                        assert(rest.subrange(p - 10, p - 10 + n) =~= t);
                        assert(occurs_at(rest, t, p - 10));
                    } else if p + n <= 10 {
                        assert(mid.subrange(p, p + n) =~= t);
                        assert(occurs_at(mid, t, p));
                    } else {
                        assert(out[p + (9 - p)] == mid[9]);
                        assert(t[9 - p] == '>');
                    }
                }
            }
        }
    } else {
        assert forall|p: int| !#[trigger] occurs_at(out, t, p) by {}
    }
}

/// Nothing of a line is shown that stands in it only where a marker hides it.
pub proof fn law_hidden_text_is_not_shown(line: Seq<char>, secret: Seq<char>)
    requires
        secret.len() > 0,
        !secret.contains('<'),
        !secret.contains('>'),
        !contains("<redacted>"@, secret),
        forall|p: int| #[trigger] occurs_at(line, secret, p) ==> is_hidden(line, p),
    ensures
        !contains(redacted_line(line), secret),
{
    lemma_not_shown_from(line, 0, secret);
}

/// No line that is shown holds what the tokens of the helpers and bridges begin with, or what
/// stands before a token in a header.
pub proof fn law_shown_lines_hold_no_marker(line: Seq<char>)
    ensures
        forall|k: int| 0 <= k < 4 ==> !contains(redacted_line(line), #[trigger] markers()[k]),
{
    reveal_strlit("<redacted>");
    reveal_strlit("lmxh_");
    reveal_strlit("lmxb_");
    reveal_strlit("lmxbm_");
    reveal_strlit("Bearer ");
    assert forall|k: int| 0 <= k < 4 implies !contains(
        redacted_line(line),
        #[trigger] markers()[k],
    ) by {
        let marker = markers()[k];
        assert(k == 0 || k == 1 || k == 2 || k == 3);
        assert(marker[0] == 'l' || marker[0] == 'B');
        assert(!contains("<redacted>"@, marker)) by {
            assert forall|p: int| !#[trigger] occurs_at("<redacted>"@, marker, p) by {
                if occurs_at("<redacted>"@, marker, p) {
                    assert("<redacted>"@.subrange(p, p + marker.len())[0] == "<redacted>"@[p]);
                }
            }
        }
        assert forall|p: int| #[trigger] occurs_at(line, marker, p) implies is_hidden(line, p) by {
            assert(line.subrange(p, p + marker.len())[0] == line[p]);
            assert(!ends_word(line[p]));
            lemma_word_reaches(line, p, p + 1);
            assert(hides(line, markers()[k], p, p));
        }
        law_hidden_text_is_not_shown(line, marker);
    }
}

proof fn lemma_next_word_is(s: Seq<char>, from: int, start: int)
    requires
        0 <= from <= start < s.len(),
        forall|j: int| from <= j < start ==> ends_word(#[trigger] s[j]),
        !ends_word(s[start]),
    ensures
        next_word(s, from) == start,
    decreases start - from,
{
    if from < start {
        assert(ends_word(s[from]));
        lemma_next_word_is(s, from + 1, start);
    }
}

proof fn lemma_word_end(s: Seq<char>, from: int)
    requires
        0 <= from <= s.len(),
    ensures
        from <= word_end(s, from) <= s.len(),
    decreases s.len() - from,
{
    if from < s.len() && !ends_word(s[from]) {
        lemma_word_end(s, from + 1);
    }
}

proof fn lemma_word_reaches(s: Seq<char>, from: int, to: int)
    requires
        0 <= from <= to <= s.len(),
        forall|j: int| from <= j < to ==> !ends_word(#[trigger] s[j]),
    ensures
        to <= word_end(s, from),
    decreases to - from,
{
    if from < to {
        assert(!ends_word(s[from]));
        lemma_word_reaches(s, from + 1, to);
    } else {
        lemma_word_end(s, from);
    }
}

/// Every word behind a marker is hidden: the rest of the word that a token begins, and the first
/// word behind `Bearer`, whatever stands between the two.
pub proof fn law_words_behind_markers_are_hidden(
    head: Seq<char>,
    k: int,
    gap: Seq<char>,
    word: Seq<char>,
    tail: Seq<char>,
    p: int,
)
    requires
        0 <= k < 4,
        forall|i: int| 0 <= i < gap.len() ==> ends_word(#[trigger] gap[i]),
        forall|i: int| 0 <= i < word.len() ==> !ends_word(#[trigger] word[i]),
        gap.len() > 0 ==> k == 3,
        head.len() + markers()[k].len() + gap.len() <= p < head.len() + markers()[k].len()
            + gap.len() + word.len(),
    ensures
        is_hidden(head + markers()[k] + gap + word + tail, p),
{
    reveal_strlit("lmxh_");
    reveal_strlit("lmxb_");
    reveal_strlit("lmxbm_");
    reveal_strlit("Bearer ");
    assert(k == 0 || k == 1 || k == 2 || k == 3);
    let marker = markers()[k];
    let s = head + marker + gap + word + tail;
    let at = head.len() as int;
    let behind = at + marker.len();
    let start = behind + gap.len();
    let end = start + word.len();
    assert(s.subrange(at, behind) =~= marker);
    assert(occurs_at(s, marker, at));
    assert forall|j: int| behind <= j < start implies ends_word(#[trigger] s[j]) by {
        assert(s[j] == gap[j - behind]);
    }
    assert forall|j: int| start <= j < end implies !ends_word(#[trigger] s[j]) by {
        assert(s[j] == word[j - start]);
    }
    assert(!ends_word(s[start]));
    if k == 3 {
        assert(ends_word(marker.last()));
        lemma_next_word_is(s, behind, start);
        lemma_word_reaches(s, start, end);
    } else {
        assert forall|j: int| at <= j < end implies !ends_word(#[trigger] s[j]) by {
            if j < behind {
                assert(s[j] == marker[j - at]);
            }
        }
        lemma_word_reaches(s, at, end);
    }
    assert(hides(s, markers()[k], at, p));
}

/// What stands between the words of a line is shown as it is.
pub proof fn law_gaps_are_shown(line: Seq<char>, p: int)
    requires
        0 <= p < line.len(),
        ends_word(line[p]),
    ensures
        !is_hidden(line, p),
{
    if is_hidden(line, p) {
        let (k, q) = choose|k: int, q: int|
            0 <= k < 4 && #[trigger] hides(line, markers()[k], q, p);
        let behind = next_word(line, q + markers()[k].len());
        if q <= p < word_end(line, q) {
            lemma_inside_word(line, q, p);
        } else {
            lemma_inside_word(line, behind, p);
        }
    }
}

proof fn lemma_inside_word(s: Seq<char>, from: int, p: int)
    requires
        from <= p < word_end(s, from),
        p < s.len(),
    ensures
        !ends_word(s[p]),
    decreases s.len() - from,
{
    if from < p {
        lemma_inside_word(s, from + 1, p);
    }
}

/// What a log tells.
#[derive(Clone, Copy, Debug, PartialEq, Eq, Structural)]
pub enum LogVerdict {
    NotConnected,
    SidecarFailed,
    TransportFailed,
    AuthenticationFailed,
    Established,
    NoSuccess,
}

/// What a log tells, by the first thing that is found in it.
pub open spec fn log_verdict(name: Seq<char>, log: Seq<char>) -> LogVerdict {
    let lower = to_lower(log);
    let bridge = name == "browser_bridge"@;
    if bridge && contains(lower, "browser reverse forward registered"@) && !contains(
        lower,
        "connection received"@,
    ) {
        LogVerdict::NotConnected
    } else if bridge && (contains(lower, "stdout closed"@) || contains(lower, "spawn failed"@)
        || contains(lower, "agent-browser exited"@)) {
        LogVerdict::SidecarFailed
    } else if contains(lower, "no_transport_succeeded"@) || contains(lower, "missing_credentials"@)
        || contains(lower, "no_tcp_transport"@) {
        LogVerdict::TransportFailed
    } else if contains(lower, "authentication failed"@) || contains(lower, "auth_failed"@)
        || contains(lower, "认证失败"@) {
        LogVerdict::AuthenticationFailed
    } else if contains(lower, "connection received"@) || contains(lower, "transport=curl success"@)
        || contains(lower, "transport=wget success"@) || contains(lower, "transport=socat"@)
        || contains(lower, "transport=nc"@) || contains(lower, "transport=ncat"@) || contains(
        lower,
        "transport=bash-dev-tcp"@,
    ) {
        LogVerdict::Established
    } else {
        LogVerdict::NoSuccess
    }
}

fn judge_log(name: &str, log: &str) -> (r: LogVerdict)
    ensures
        r == log_verdict(name@, log@),
{
    let text = lowered(log);
    let lower = text.as_str();
    let bridge = same(name, "browser_bridge");
    if bridge && has_part(lower, "browser reverse forward registered") && !has_part(
        lower,
        "connection received",
    ) {
        LogVerdict::NotConnected
    } else if bridge && (has_part(lower, "stdout closed") || has_part(lower, "spawn failed")
        || has_part(lower, "agent-browser exited")) {
        LogVerdict::SidecarFailed
    } else if has_part(lower, "no_transport_succeeded") || has_part(lower, "missing_credentials")
        || has_part(lower, "no_tcp_transport") {
        LogVerdict::TransportFailed
    } else if has_part(lower, "authentication failed") || has_part(lower, "auth_failed")
        || has_part(lower, "认证失败") {
        LogVerdict::AuthenticationFailed
    } else if has_part(lower, "connection received") || has_part(lower, "transport=curl success")
        || has_part(lower, "transport=wget success") || has_part(lower, "transport=socat")
        || has_part(lower, "transport=nc") || has_part(lower, "transport=ncat") || has_part(
        lower,
        "transport=bash-dev-tcp",
    ) {
        LogVerdict::Established
    } else {
        LogVerdict::NoSuccess
    }
}

impl LogVerdict {
    /// The status, the code and the words for a verdict.
    pub open spec fn words(self) -> (Seq<char>, Option<Seq<char>>, Seq<char>) {
        match self {
            LogVerdict::NotConnected => (
                "warn"@,
                Some("browser_reverse_forward_not_connected"@),
                "Browser reverse forward is registered but the remote helper has not connected"@,
            ),
            LogVerdict::SidecarFailed => (
                "error"@,
                Some("browser_sidecar_start_failed"@),
                "agent-browser sidecar closed or failed during MCP startup"@,
            ),
            LogVerdict::TransportFailed => (
                "error"@,
                Some("remote_helper_transport_failed"@),
                "remote helper could not send its request"@,
            ),
            LogVerdict::AuthenticationFailed => (
                "error"@,
                Some("browser_authentication_failed"@),
                "remote Browser bridge authentication failed"@,
            ),
            LogVerdict::Established => (
                "ok"@,
                None,
                "remote helper/bridge has established a transport"@,
            ),
            LogVerdict::NoSuccess => (
                "warn"@,
                Some("remote_helper_no_recent_success"@),
                "no recent successful helper transport was recorded"@,
            ),
        }
    }

    fn texts(self) -> (r: (&'static str, Option<&'static str>, &'static str))
        ensures
            (r.0@, opt_str(r.1), r.2@) == self.words(),
    {
        match self {
            LogVerdict::NotConnected => (
                "warn",
                Some("browser_reverse_forward_not_connected"),
                "Browser reverse forward is registered but the remote helper has not connected",
            ),
            LogVerdict::SidecarFailed => (
                "error",
                Some("browser_sidecar_start_failed"),
                "agent-browser sidecar closed or failed during MCP startup",
            ),
            LogVerdict::TransportFailed => (
                "error",
                Some("remote_helper_transport_failed"),
                "remote helper could not send its request",
            ),
            LogVerdict::AuthenticationFailed => (
                "error",
                Some("browser_authentication_failed"),
                "remote Browser bridge authentication failed",
            ),
            LogVerdict::Established => (
                "ok",
                None,
                "remote helper/bridge has established a transport",
            ),
            LogVerdict::NoSuccess => (
                "warn",
                Some("remote_helper_no_recent_success"),
                "no recent successful helper transport was recorded",
            ),
        }
    }
}

/// The last eight lines of a log.
pub open spec fn log_tail(log: Seq<char>) -> Seq<Seq<char>> {
    let all = lines(log);
    if all.len() > 8 {
        all.skip(all.len() - 8)
    } else {
        all
    }
}

/// What is shown of a log: its last lines without secrets.
pub open spec fn log_evidence(log: Seq<char>) -> Seq<char> {
    join(log_tail(log).map_values(|line: Seq<char>| redacted_line(line)), "\n"@)
}

fn log_lines(log: &str) -> (r: String)
    ensures
        r@ == log_evidence(log@),
{
    let all = split_lines(log);
    let start: usize = if all.len() > 8 {
        all.len() - 8
    } else {
        0
    };
    let ghost tail = log_tail(log@);
    let ghost shown = tail.map_values(|line: Seq<char>| redacted_line(line));
    proof {
        assert(views(all@).len() == all@.len());
        assert(views(all@).skip(start as int) =~= tail);
    }
    let mut list: Vec<String> = Vec::new();
    let mut i: usize = start;
    assert(views(list@) =~= shown.take(0));
    while i < all.len()
        invariant
            start <= i <= all@.len(),
            views(all@).skip(start as int) == tail,
            views(all@).len() == all@.len(),
            shown == tail.map_values(|line: Seq<char>| redacted_line(line)),
            views(list@) == shown.take(i - start),
        decreases all@.len() - i,
    {
        assert(tail[i - start] == all@[i as int]@);
        push_text(&mut list, redact_log_line(all[i].as_str()));
        assert(views(list@) =~= shown.take(i - start + 1));
        i = i + 1;
    }
    assert(shown.take(i - start) =~= shown);
    joined(list.as_slice(), "\n")
}

proof fn lemma_not_joined(parts: Seq<Seq<char>>, t: Seq<char>)
    requires
        t.len() > 0,
        !t.contains('\n'),
        forall|i: int| 0 <= i < parts.len() ==> !contains(#[trigger] parts[i], t),
    ensures
        !contains(join(parts, "\n"@), t),
    decreases parts.len(),
{
    reveal_strlit("\n");
    let whole = join(parts, "\n"@);
    let n = t.len() as int;
    if parts.len() == 0 {
        assert forall|p: int| !#[trigger] occurs_at(whole, t, p) by {}
    } else if parts.len() > 1 {
        let front = join(parts.drop_last(), "\n"@);
        let last = parts.last();
        assert forall|i: int| 0 <= i < parts.drop_last().len() implies !contains(
            #[trigger] parts.drop_last()[i],
            t,
        ) by {
            assert(parts.drop_last()[i] == parts[i]);
        }
        lemma_not_joined(parts.drop_last(), t);
        assert(!contains(parts[parts.len() - 1], t));
        let m = front.len() as int;
        assert forall|p: int| !#[trigger] occurs_at(whole, t, p) by {
            if occurs_at(whole, t, p) {
                assert forall|k: int| 0 <= k < n implies t[k] == #[trigger] whole[p + k] by {
                    assert(whole.subrange(p, p + n)[k] == whole[p + k]);
                }
                if p + n <= m {
                    assert(front.subrange(p, p + n) =~= t);
                    assert(occurs_at(front, t, p));
                } else if p <= m {
                    assert(whole[p + (m - p)] == '\n');
                    assert(t[m - p] == '\n');
                } else {
                    assert(last.subrange(p - m - 1, p - m - 1 + n) =~= t);
                    assert(occurs_at(last, t, p - m - 1));
                }
            }
        }
    } else {
        assert(!contains(parts[0], t));
    }
}

/// The text is no part of the sign for what is hidden, and does not reach into it or over the end
/// of a line.
pub open spec fn is_plain(secret: Seq<char>) -> bool {
    &&& secret.len() > 0
    &&& !secret.contains('<')
    &&& !secret.contains('>')
    &&& !secret.contains('\n')
    &&& !contains("<redacted>"@, secret)
}

/// The text stands in the lines of a log only where a marker hides it.
pub open spec fn is_kept_hidden(log: Seq<char>, secret: Seq<char>) -> bool {
    forall|i: int, p: int|
        0 <= i < lines(log).len() && #[trigger] occurs_at(lines(log)[i], secret, p) ==> is_hidden(
            lines(log)[i],
            p,
        )
}

/// A secret that stands in a log only where a marker hides it is not part of what is shown of the
/// log.
pub proof fn law_log_evidence_holds_no_secret(log: Seq<char>, secret: Seq<char>)
    requires
        is_plain(secret),
        is_kept_hidden(log, secret),
    ensures
        !contains(log_evidence(log), secret),
{
    let tail = log_tail(log);
    let shown = tail.map_values(|line: Seq<char>| redacted_line(line));
    let skipped = lines(log).len() - tail.len();
    assert forall|i: int| 0 <= i < shown.len() implies !contains(#[trigger] shown[i], secret) by {
        assert(tail[i] == lines(log)[skipped + i]);
        assert(shown[i] == redacted_line(tail[i]));
        law_hidden_text_is_not_shown(tail[i], secret);
    }
    lemma_not_joined(shown, secret);
}

/// The part of the way that a log belongs to.
pub open spec fn log_phase(name: Seq<char>) -> Seq<char> {
    if name == "browser_bridge"@ {
        "browser_bridge"@
    } else {
        "remote_helper"@
    }
}

/// The check of a log.
pub open spec fn log_check(name: Seq<char>, log: Seq<char>) -> CheckView {
    let verdict = log_verdict(name, log);
    CheckView {
        name,
        status: verdict.words().0,
        detail: verdict.words().2,
        code: verdict.words().1,
        phase: Some(log_phase(name)),
        evidence: seq![EvidenceView { kind: "logTail"@, detail: log_evidence(log) }],
        repairable: !(verdict is Established),
    }
}

/// The check of a log.
pub fn remote_log_check(name: &str, log: &str) -> (r: DoctorRuntimeCheck)
    ensures
        r@ == log_check(name@, log@),
{
    let verdict = judge_log(name, log);
    let (status, code, detail) = verdict.texts();
    let phase = if same(name, "browser_bridge") {
        "browser_bridge"
    } else {
        "remote_helper"
    };
    let mut evidence: Vec<DoctorEvidence> = Vec::new();
    evidence.push(DoctorEvidence { kind: "logTail".to_owned(), detail: log_lines(log) });
    let code = match code {
        Some(text) => Some(text.to_owned()),
        None => None,
    };
    let r = DoctorRuntimeCheck {
        name: name.to_owned(),
        status: status.to_owned(),
        detail: detail.to_owned(),
        code,
        phase: Some(phase.to_owned()),
        evidence,
        repairable: verdict != LogVerdict::Established,
    };
    assert(r@.evidence =~= log_check(name@, log@).evidence);
    r
}

/// A log is in order exactly where a transport was established and nothing failed; only then is
/// there nothing to repair. A failure is an error, and the lack of a success a warning.
pub proof fn law_logs_are_well_with_a_transport(name: Seq<char>, log: Seq<char>)
    ensures
        ({
            let lower = to_lower(log);
            let bridge = name == "browser_bridge"@;
            let waiting = bridge && contains(lower, "browser reverse forward registered"@)
                && !contains(lower, "connection received"@);
            let sidecar = bridge && (contains(lower, "stdout closed"@) || contains(
                lower,
                "spawn failed"@,
            ) || contains(lower, "agent-browser exited"@));
            let transport = contains(lower, "no_transport_succeeded"@) || contains(
                lower,
                "missing_credentials"@,
            ) || contains(lower, "no_tcp_transport"@);
            let sign_in = contains(lower, "authentication failed"@) || contains(
                lower,
                "auth_failed"@,
            ) || contains(lower, "认证失败"@);
            let success = contains(lower, "connection received"@) || contains(
                lower,
                "transport=curl success"@,
            ) || contains(lower, "transport=wget success"@) || contains(lower, "transport=socat"@)
                || contains(lower, "transport=nc"@) || contains(lower, "transport=ncat"@)
                || contains(lower, "transport=bash-dev-tcp"@);
            let check = log_check(name, log);
            let well = success && !waiting && !sidecar && !transport && !sign_in;
            &&& check.name == name
            &&& well ==> check.status == "ok"@ && check.code is None && !check.repairable
            &&& !well ==> check.status != "ok"@ && check.code is Some && check.repairable
            &&& waiting ==> check.status == "warn"@ && check.code == Some(
                "browser_reverse_forward_not_connected"@,
            )
            &&& !waiting && sidecar ==> check.status == "error"@ && check.code == Some(
                "browser_sidecar_start_failed"@,
            )
            &&& !waiting && !sidecar && transport ==> check.status == "error"@ && check.code
                == Some("remote_helper_transport_failed"@)
            &&& !waiting && !sidecar && !transport && sign_in ==> check.status == "error"@
                && check.code == Some("browser_authentication_failed"@)
            &&& !waiting && !sidecar && !transport && !sign_in && !success ==> check.status
                == "warn"@ && check.code == Some("remote_helper_no_recent_success"@)
        }),
{
    reveal_strlit("ok");
    reveal_strlit("warn");
    reveal_strlit("error");
    assert("ok"@.len() == 2 && "warn"@.len() == 4 && "error"@.len() == 5);
}

/// Of a log the last eight lines are shown, or all where there are no more.
pub proof fn law_the_last_lines_are_shown(log: Seq<char>)
    ensures
        ({
            let all = lines(log);
            let shown = log_tail(log);
            &&& all.len() <= 8 ==> shown == all
            &&& all.len() > 8 ==> shown.len() == 8 && forall|i: int|
                0 <= i < 8 ==> #[trigger] shown[i] == all[all.len() - 8 + i]
            &&& log_check("browser_bridge"@, log).phase == Some("browser_bridge"@)
        }),
{
}

} // verus!
