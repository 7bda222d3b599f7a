//! Local terminals: which there are, how each is started, and how its end is told.
use vstd::prelude::*;
use vstd::string::*;
use vstd::utf8::*;

use crate::dump_plan::opt_str;
use crate::ids::{is_uuid_text, new_id};
use crate::ordered_text::{insert_sorted, lemma_sorted_unique, strictly_sorted};
use crate::sql_text::string_literal;
use crate::text::{
    find_from, from_range, has_prefix, is_blank, is_first_at, join, joined, lines, lossy_text,
    lossy_utf8, occurs_at, opt_view, push_text, replace_char, replaced, same, split, split_at,
    split_lines, starts_with, strip_prefix, to_chars, trim, trimmed, views,
};
use crate::text_map::TextMap;

verus! {

/// The text that `String::from_utf16_lossy` makes of code units.
pub uninterp spec fn lossy_utf16(units: Seq<u16>) -> Seq<char>;

/// Code units that stand for themselves: none is half of a pair.
pub open spec fn no_surrogates(units: Seq<u16>) -> bool {
    forall|i: int|
        0 <= i < units.len() ==> #[trigger] units[i] < 0xd800 || units[i] > 0xdfff
}

/// The code units of a character: one, or the two halves of a pair.
pub open spec fn units_of(c: char) -> Seq<u16> {
    let n = c as u32;
    if n < 0x10000 {
        seq![n as u16]
    } else {
        seq![
            (0xd800 + (n - 0x10000) / 0x400) as u16,
            (0xdc00 + (n - 0x10000) % 0x400) as u16,
        ]
    }
}

/// The code units of a text in UTF-16.
pub open spec fn encode_utf16(s: Seq<char>) -> Seq<u16>
    decreases s.len(),
{
    if s.len() == 0 {
        Seq::empty()
    } else {
        encode_utf16(s.drop_last()) + units_of(s.last())
    }
}

/// Calls `String::from_utf16_lossy`: the code units of a text become that text. What comes out of
/// units that are those of no text has a name, `lossy_utf16`.
#[verifier::external_body]
fn utf16_text(units: &[u16]) -> (r: String)
    ensures
        r@ == lossy_utf16(units@),
        forall|s: Seq<char>| units@ == #[trigger] encode_utf16(s) ==> r@ == s,
{
    String::from_utf16_lossy(units)
}

proof fn lemma_plain_units(units: Seq<u16>)
    requires
        no_surrogates(units),
    ensures
        encode_utf16(units.map_values(|u: u16| u as char)) == units,
    decreases units.len(),
{
    let s = units.map_values(|u: u16| u as char);
    if units.len() > 0 {
        let head = units.drop_last();
        assert forall|i: int| 0 <= i < head.len() implies #[trigger] head[i] < 0xd800 || head[i]
            > 0xdfff by {
            assert(head[i] == units[i]);
        }
        lemma_plain_units(head);
        assert(s.drop_last() =~= head.map_values(|u: u16| u as char));
        let u = units[units.len() - 1];
        assert(s.last() == u as char);
        assert((u as char) as u32 == u);
        assert(units_of(s.last()) =~= seq![u]);
        assert(units =~= head + seq![u]);
    } else {
        assert(units =~= Seq::empty());
    }
}

/// The bytes of code units, the low byte of each first.
pub open spec fn low_byte_first(units: Seq<u16>) -> Seq<u8> {
    Seq::new(
        2 * units.len(),
        |i: int|
            if i % 2 == 0 {
                (units[i / 2] % 256) as u8
            } else {
                (units[i / 2] / 256) as u8
            },
    )
}

proof fn lemma_units_read_back(units: Seq<u16>)
    ensures
        utf16_units(low_byte_first(units)) == units,
{
    let bytes = low_byte_first(units);
    assert(bytes.len() / 2 == units.len());
    assert forall|i: int| 0 <= i < units.len() implies utf16_units(bytes)[i] == units[i] by {
        assert((2 * i) % 2 == 0 && (2 * i) / 2 == i);
        assert((2 * i + 1) % 2 == 1 && (2 * i + 1) / 2 == i);
        assert(bytes[2 * i] == (units[i] % 256) as u8);
        assert(bytes[2 * i + 1] == (units[i] / 256) as u8);
    }
    assert(utf16_units(bytes) =~= units);
}

proof fn lemma_width_1(n: u32)
    by (bit_vector)
    requires
        0 < n <= 0x7f,
    ensures
        leading_byte_width_1(n) != 0,
{
}

proof fn lemma_width_2(n: u32)
    by (bit_vector)
    ensures
        leading_byte_width_2(n) != 0,
        leading_byte_width_3(n) != 0,
        leading_byte_width_4(n) != 0,
        last_continuation_byte(n) != 0,
        second_last_continuation_byte(n) != 0,
        third_last_continuation_byte(n) != 0,
{
}

proof fn lemma_no_zero_byte(s: Seq<char>)
    requires
        !s.contains('\0'),
    ensures
        forall|i: int| 0 <= i < encode_utf8(s).len() ==> #[trigger] encode_utf8(s)[i] != 0,
    decreases s.len(),
{
    if s.len() > 0 {
        let rest = s.drop_first();
        assert(!rest.contains('\0')) by {
            if rest.contains('\0') {
                let k = choose|k: int| 0 <= k < rest.len() && rest[k] == '\0';
                assert(s[k + 1] == '\0');
            }
        }
        lemma_no_zero_byte(rest);
        let n = s[0] as u32;
        assert(s.contains(s[0]));
        char_is_scalar(s[0]);
        char_u32_cast(s[0], n);
        assert(n != 0);
        if has_width_1_encoding(n) {
            lemma_width_1(n);
        }
        lemma_width_2(n);
        let first = encode_scalar(n);
        assert forall|i: int| 0 <= i < encode_utf8(s).len() implies #[trigger] encode_utf8(s)[i]
            != 0 by {
            if i >= first.len() {
                assert(encode_utf8(s)[i] == encode_utf8(rest)[i - first.len()]);
            } else {
                assert(encode_utf8(s)[i] == first[i]);
            }
        }
    }
}

proof fn lemma_no_zero_high_bytes(bytes: Seq<u8>)
    requires
        forall|i: int| 0 <= i < bytes.len() ==> #[trigger] bytes[i] != 0,
    ensures
        zero_high_bytes(bytes) == 0,
    decreases bytes.len(),
{
    if bytes.len() >= 2 {
        let head = bytes.take(bytes.len() - 2);
        assert forall|i: int| 0 <= i < head.len() implies #[trigger] head[i] != 0 by {
            assert(head[i] == bytes[i]);
        }
        lemma_no_zero_high_bytes(head);
        assert(bytes[bytes.len() - 1] != 0);
    }
}

/// How many code units have a high byte of zero, where the bytes are read in pairs.
pub open spec fn zero_high_bytes(bytes: Seq<u8>) -> nat
    decreases bytes.len(),
{
    if bytes.len() < 2 {
        0
    } else {
        zero_high_bytes(bytes.take(bytes.len() - 2)) + (if bytes.last() == 0 {
            1nat
        } else {
            0nat
        })
    }
}

/// The output of a command looks like UTF-16: it is made of pairs, and in at least half of them
/// the high byte is zero.
pub open spec fn looks_utf16(bytes: Seq<u8>) -> bool {
    bytes.len() >= 2 && bytes.len() % 2 == 0 && zero_high_bytes(bytes) * 2 >= bytes.len() / 2
}

/// The code units of pairs of bytes, the low byte first.
pub open spec fn utf16_units(bytes: Seq<u8>) -> Seq<u16> {
    Seq::new(bytes.len() / 2, |i: int| (bytes[2 * i] + 256 * bytes[2 * i + 1]) as u16)
}

/// The text of the output of a Windows command.
pub open spec fn decoded_output(bytes: Seq<u8>) -> Seq<char> {
    if looks_utf16(bytes) {
        lossy_utf16(utf16_units(bytes))
    } else {
        lossy_utf8(bytes)
    }
}

fn utf16_output(bytes: &[u8]) -> (r: Option<Vec<u16>>)
    ensures
        r is Some == looks_utf16(bytes@),
        r is Some ==> r->0@ == utf16_units(bytes@),
{
    let n: usize = bytes.len();
    if n < 2 || n % 2 != 0 {
        return None;
    }
    let mut units: Vec<u16> = Vec::new();
    let mut zeros: usize = 0;
    let mut i: usize = 0;
    while i < n / 2
        invariant
            n == bytes@.len(),
            n % 2 == 0,
            i <= n / 2,
            zeros <= i,
            zeros == zero_high_bytes(bytes@.take(2 * i)),
            units@ == utf16_units(bytes@).take(i as int),
        decreases n / 2 - i,
    {
        let low: u8 = bytes[2 * i];
        let high: u8 = bytes[2 * i + 1];
        proof {
            let now = bytes@.take(2 * (i + 1));
            assert(now.take(now.len() - 2) =~= bytes@.take(2 * i));
            assert(now.last() == high);
        }
        if high == 0 {
            zeros = zeros + 1;
        }
        units.push(low as u16 + 256 * (high as u16));
        assert(units@ =~= utf16_units(bytes@).take(i + 1));
        i = i + 1;
    }
    assert(bytes@.take(2 * i) =~= bytes@);
    assert(utf16_units(bytes@).take(i as int) =~= utf16_units(bytes@));
    if zeros * 2 >= n / 2 {
        Some(units)
    } else {
        None
    }
}

/// The text of the output of a Windows command: a text in UTF-16 where at least half of its code
/// units have a high byte of zero, and any text without the character zero in UTF-8, is read back.
pub fn decode_windows_command_output(bytes: &[u8]) -> (r: String)
    ensures
        r@ == decoded_output(bytes@),
        looks_utf16(bytes@) && no_surrogates(utf16_units(bytes@)) ==> r@ == utf16_units(
            bytes@,
        ).map_values(|u: u16| u as char),
        !looks_utf16(bytes@) && valid_utf8(bytes@) ==> r@ == decode_utf8(bytes@),
        forall|s: Seq<char>|
            looks_utf16(bytes@) && bytes@ == low_byte_first(#[trigger] encode_utf16(s)) ==> r@ == s,
        forall|s: Seq<char>|
            bytes@ == #[trigger] encode_utf8(s) && !s.contains('\0') ==> r@ == s,
{
    proof {
        if no_surrogates(utf16_units(bytes@)) {
            lemma_plain_units(utf16_units(bytes@));
        }
        assert forall|s: Seq<char>|
            bytes@ == low_byte_first(#[trigger] encode_utf16(s)) implies utf16_units(bytes@)
            == encode_utf16(s) by {
            lemma_units_read_back(encode_utf16(s));
        }
        assert forall|s: Seq<char>|
            bytes@ == #[trigger] encode_utf8(s) && !s.contains('\0') implies !looks_utf16(bytes@)
            && valid_utf8(bytes@) && decode_utf8(bytes@) == s by {
            lemma_no_zero_byte(s);
            lemma_no_zero_high_bytes(bytes@);
            encode_utf8_valid_utf8(s);
            encode_utf8_decode_utf8(s);
        }
    }
    match utf16_output(bytes) {
        Some(units) => utf16_text(units.as_slice()),
        None => lossy_text(bytes),
    }
}

/// The name of a distribution in a line of the registry: what follows `REG_SZ`.
pub open spec fn registered(line: Seq<char>, name: Seq<char>) -> bool {
    exists|at: int| #[trigger]
        is_first_at(line, "REG_SZ"@, 0, at) && name == trim(line.skip(at + "REG_SZ"@.len()))
            && name.len() > 0
}

fn registered_name(line: &str) -> (r: Option<String>)
    ensures
        match r {
            Some(name) => registered(line@, name@),
            None => forall|name: Seq<char>| !registered(line@, name),
        },
        r is Some ==> forall|name: Seq<char>| registered(line@, name) ==> name == r->0@,
{
    let chars = to_chars(line);
    let mark = to_chars("REG_SZ");
    match find_from(chars.as_slice(), mark.as_slice(), 0) {
        None => None,
        Some(at) => {
            let end: usize = chars.len();
            assert(occurs_at(line@, "REG_SZ"@, at as int));
            let rest = from_range(chars.as_slice(), at + mark.len(), end);
            assert(rest@ =~= line@.skip(at + "REG_SZ"@.len()));
            let name = trimmed(rest.as_str());
            proof {
                assert forall|other: int| #[trigger] is_first_at(line@, "REG_SZ"@, 0, other) implies other
                    == at by {
                    assert(occurs_at(line@, "REG_SZ"@, other));
                }
            }
            if to_chars(name.as_str()).len() == 0 {
                None
            } else {
                assert(is_first_at(line@, "REG_SZ"@, 0, at as int));
                Some(name)
            }
        },
    }
}

/// The list holds exactly the distributions that the lines name, sorted and each once.
pub open spec fn lists_registered(list: Seq<Seq<char>>, lines: Seq<Seq<char>>) -> bool {
    &&& strictly_sorted(list)
    &&& forall|name: Seq<char>| #[trigger]
        list.contains(name) <==> exists|i: int|
            0 <= i < lines.len() && registered(#[trigger] lines[i], name)
}

/// The distributions that the registry names.
pub fn parse_wsl_registry_output(output: &str) -> (r: Vec<String>)
    ensures
        lists_registered(views(r@), lines(output@)),
{
    let all = split_lines(output);
    let ghost texts = lines(output@);
    let mut list: Vec<String> = Vec::new();
    let mut i: usize = 0;
    assert(views(list@) =~= Seq::<Seq<char>>::empty());
    while i < all.len()
        invariant
            views(all@) == texts,
            i <= all@.len(),
            strictly_sorted(views(list@)),
            forall|name: Seq<char>| #[trigger]
                views(list@).contains(name) <==> exists|k: int|
                    0 <= k < i && registered(#[trigger] texts[k], name),
        decreases all@.len() - i,
    {
        let ghost before = views(list@);
        assert(texts[i as int] == all@[i as int]@);
        match registered_name(all[i].as_str()) {
            Some(name) => {
                let ghost added = name@;
                insert_sorted(&mut list, name);
                proof {
                    assert forall|name: Seq<char>| #[trigger]
                        views(list@).contains(name) <==> exists|k: int|
                        0 <= k < i + 1 && registered(#[trigger] texts[k], name) by {
                        if views(list@).contains(name) {
                            if before.contains(name) {
                                let k = choose|k: int|
                                    0 <= k < i && registered(#[trigger] texts[k], name);
                                assert(registered(texts[k], name));
                            } else {
                                assert(registered(texts[i as int], name));
                            }
                        }
                        if exists|k: int| 0 <= k < i + 1 && registered(#[trigger] texts[k], name) {
                            let k = choose|k: int|
                                0 <= k < i + 1 && registered(#[trigger] texts[k], name);
                            if k < i {
                                assert(before.contains(name));
                            }
                        }
                    }
                }
            },
            None => {
                proof {
                    assert forall|name: Seq<char>| #[trigger]
                        views(list@).contains(name) <==> exists|k: int|
                        0 <= k < i + 1 && registered(#[trigger] texts[k], name) by {
                        if exists|k: int| 0 <= k < i + 1 && registered(#[trigger] texts[k], name) {
                            let k = choose|k: int|
                                0 <= k < i + 1 && registered(#[trigger] texts[k], name);
                            assert(k < i);
                        }
                        if before.contains(name) {
                            let k = choose|k: int|
                                0 <= k < i && registered(#[trigger] texts[k], name);
                            assert(registered(texts[k], name));
                        }
                    }
                }
            },
        }
        i = i + 1;
    }
    list
}

/// The names that a managed agent needs inside a distribution.
pub open spec fn agent_names() -> Seq<Seq<char>> {
    seq![
        "LUNA_MUX_SESSION_ID"@,
        "LUNA_MUX_PANE_ID"@,
        "LUNA_MUX_RUNTIME_ID"@,
        "LUNA_MUX_AGENT_ID"@,
        "LUNA_MUX_LAUNCH_PROFILE_ID"@,
    ]
}

/// A name is handed on into a distribution: it already was, or it belongs to the launch, or to the
/// managed agent.
pub open spec fn is_bridged(
    existing: Seq<char>,
    launch: Seq<Seq<char>>,
    managed: bool,
    name: Seq<char>,
) -> bool {
    ||| name.len() > 0 && split_at(existing, ':').contains(name)
    ||| launch.contains(name)
    ||| managed && agent_names().contains(name)
}

/// The names that are handed on, sorted and each once, with colons between them.
pub open spec fn is_bridge(
    text: Seq<char>,
    existing: Seq<char>,
    launch: Seq<Seq<char>>,
    managed: bool,
) -> bool {
    exists|names: Seq<Seq<char>>|
        strictly_sorted(names) && (forall|name: Seq<char>| #[trigger]
            names.contains(name) <==> is_bridged(existing, launch, managed, name)) && text
            == #[trigger] join(names, ":"@)
}

fn insert_all(list: &mut Vec<String>, items: &[String], skip_empty: bool)
    requires
        strictly_sorted(views(old(list)@)),
    ensures
        strictly_sorted(views(final(list)@)),
        forall|name: Seq<char>| #[trigger]
            views(final(list)@).contains(name) <==> views(old(list)@).contains(name) || (views(
                items@,
            ).contains(name) && (skip_empty ==> name.len() > 0)),
{
    let ghost before = views(list@);
    let ghost all = views(items@);
    let mut i: usize = 0;
    while i < items.len()
        invariant
            i <= items@.len(),
            all == views(items@),
            strictly_sorted(views(list@)),
            forall|name: Seq<char>| #[trigger]
                views(list@).contains(name) <==> before.contains(name) || (all.take(
                    i as int,
                ).contains(name) && (skip_empty ==> name.len() > 0)),
        decreases items@.len() - i,
    {
        let ghost now = views(list@);
        let ghost item = items@[i as int]@;
        let empty = to_chars(items[i].as_str()).len() == 0;
        if !(skip_empty && empty) {
            insert_sorted(list, items[i].clone());
        }
        proof {
            assert(all.take(i + 1) =~= all.take(i as int).push(item));
            assert forall|name: Seq<char>| all.take(i + 1).contains(name) <==> all.take(
                i as int,
            ).contains(name) || name == item by {
                let shorter = all.take(i as int);
                let longer = all.take(i + 1);
                if shorter.contains(name) {
                    let k = choose|k: int| 0 <= k < shorter.len() && shorter[k] == name;
                    assert(longer[k] == name);
                }
                if longer.contains(name) && name != item {
                    let k = choose|k: int| 0 <= k < longer.len() && longer[k] == name;
                    assert(shorter[k] == name);
                }
                assert(longer[i as int] == item);
            }
            assert forall|name: Seq<char>| #[trigger]
                views(list@).contains(name) <==> before.contains(name) || (all.take(i + 1).contains(
                    name,
                ) && (skip_empty ==> name.len() > 0)) by {
                assert(now.contains(name) <==> before.contains(name) || (all.take(i as int).contains(
                    name,
                ) && (skip_empty ==> name.len() > 0)));
            }
        }
        i = i + 1;
    }
    assert(all.take(i as int) =~= all);
}

fn agent_name_list() -> (r: Vec<String>)
    ensures
        views(r@) == agent_names(),
{
    let mut r: Vec<String> = Vec::new();
    push_text(&mut r, "LUNA_MUX_SESSION_ID".to_owned());
    push_text(&mut r, "LUNA_MUX_PANE_ID".to_owned());
    push_text(&mut r, "LUNA_MUX_RUNTIME_ID".to_owned());
    push_text(&mut r, "LUNA_MUX_AGENT_ID".to_owned());
    push_text(&mut r, "LUNA_MUX_LAUNCH_PROFILE_ID".to_owned());
    assert(views(r@) =~= agent_names());
    r
}

/// The value of `WSLENV`, given the one before and the names of the launch environment.
pub fn wsl_environment_bridge(existing: &str, launch: &[String], managed: bool) -> (r: String)
    ensures
        is_bridge(r@, existing@, views(launch@), managed),
{
    let mut names: Vec<String> = Vec::new();
    assert(views(names@) =~= Seq::<Seq<char>>::empty());
    let parts = split(existing, ':');
    insert_all(&mut names, parts.as_slice(), true);
    insert_all(&mut names, launch, false);
    if managed {
        let agent = agent_name_list();
        insert_all(&mut names, agent.as_slice(), false);
    }
    let r = joined(names.as_slice(), ":");
    assert(strictly_sorted(views(names@)));
    assert forall|name: Seq<char>| #[trigger]
        views(names@).contains(name) <==> is_bridged(existing@, views(launch@), managed, name) by {}
    r
}

/// What the program runs on.
#[derive(Clone, Copy, Debug, PartialEq, Eq, Structural)]
pub enum Platform {
    Windows,
    Macos,
    Other,
}

/// Which local terminal a target names.
pub ghost enum TargetView {
    Powershell7,
    Powershell5,
    Wsl(Seq<char>),
    MacosShell,
    Unknown,
}

/// The target with this id.
pub open spec fn target_of(id: Seq<char>) -> TargetView {
    if id == "local:powershell"@ {
        TargetView::Powershell7
    } else if id == "local:powershell5"@ {
        TargetView::Powershell5
    } else if starts_with(id, "local:wsl:"@) {
        TargetView::Wsl(id.skip("local:wsl:"@.len() as int))
    } else if id == "local:macos-shell"@ {
        TargetView::MacosShell
    } else {
        TargetView::Unknown
    }
}

/// The target is a PowerShell.
pub open spec fn is_powershell(target_id: Seq<char>) -> bool {
    target_id == "local:powershell"@ || target_id == "local:powershell5"@
}

/// Whether a target is a PowerShell.
pub fn is_powershell_target(target_id: &str) -> (r: bool)
    ensures
        r == is_powershell(target_id@),
{
    same(target_id, "local:powershell") || same(target_id, "local:powershell5")
}

/// A program and its arguments.
#[derive(Debug)]
pub struct ShellCommand {
    pub program: String,
    pub args: Vec<String>,
}

/// What is asked for when a terminal is started.
#[derive(Debug)]
pub struct LocalLaunch {
    pub target_id: String,
    pub cwd: Option<String>,
    pub command: Option<String>,
    pub environment: TextMap<String>,
}

/// What was found on the machine.
#[derive(Debug)]
pub struct FoundShells {
    pub powershell7: Option<String>,
    pub powershell5: Option<String>,
    pub macos_shell: Option<String>,
    /// The script that loads the profiles of the PowerShell that is started.
    pub profile_script: String,
}

/// The script that is run before a PowerShell is handed over: the first name that is set counts,
/// and a blank value is none.
pub open spec fn bootstrap_of(environment: Map<Seq<char>, String>) -> Option<Seq<char>> {
    let value = if environment.dom().contains("LUNA_MUX_AGENT_BOOTSTRAP"@) {
        Some(environment["LUNA_MUX_AGENT_BOOTSTRAP"@]@)
    } else if environment.dom().contains("LUNA_MUX_CODEX_BOOTSTRAP"@) {
        Some(environment["LUNA_MUX_CODEX_BOOTSTRAP"@]@)
    } else {
        None
    };
    match value {
        Some(text) => if trim(text).len() > 0 {
            Some(text)
        } else {
            None
        },
        None => None,
    }
}

fn find_bootstrap(environment: &TextMap<String>) -> (r: Option<String>)
    requires
        environment.wf(),
    ensures
        opt_view(r) == bootstrap_of(environment@),
{
    let value = match environment.get("LUNA_MUX_AGENT_BOOTSTRAP") {
        Some(text) => text,
        None => match environment.get("LUNA_MUX_CODEX_BOOTSTRAP") {
            Some(text) => text,
            None => {
                return None;
            },
        },
    };
    if is_blank(value.as_str()) {
        None
    } else {
        Some(value.clone())
    }
}

/// The profiles are loaded first, and the bootstrap after them.
pub open spec fn bootstrap_script(profiles: Seq<char>, bootstrap: Seq<char>) -> Seq<char> {
    profiles + "; . '"@ + replace_char(bootstrap, '\'', "''"@) + "'"@
}

/// The arguments of a PowerShell.
pub open spec fn powershell_args(profiles: Seq<char>, bootstrap: Option<Seq<char>>) -> Seq<Seq<char>> {
    match bootstrap {
        Some(text) => seq![
            "-NoLogo"@,
            "-NoExit"@,
            "-NoProfile"@,
            "-Command"@,
            bootstrap_script(profiles, text),
        ],
        None => seq!["-NoLogo"@, "-NoExit"@],
    }
}

/// The directory that a distribution is entered in.
pub open spec fn wsl_directory(cwd: Option<Seq<char>>) -> Option<Seq<char>> {
    match cwd {
        Some(text) => if trim(text).len() > 0 {
            Some(trim(text))
        } else {
            None
        },
        None => None,
    }
}

/// The arguments of `wsl.exe`.
pub open spec fn wsl_args(distribution: Seq<char>, cwd: Option<Seq<char>>) -> Seq<Seq<char>> {
    match wsl_directory(cwd) {
        Some(directory) => seq!["--distribution"@, distribution, "--cd"@, directory],
        None => seq!["--distribution"@, distribution],
    }
}

/// How a terminal is started, or why it cannot be.
pub open spec fn command_of(
    platform: Platform,
    launch: LocalLaunch,
    shells: FoundShells,
) -> Result<(Seq<char>, Seq<Seq<char>>), Seq<char>> {
    match target_of(launch.target_id@) {
        TargetView::Powershell7 => if platform != Platform::Windows {
            Err("PowerShell 目标仅在 Windows 上可用"@)
        } else {
            match shells.powershell7 {
                Some(program) => Ok(
                    (
                        program@,
                        powershell_args(
                            shells.profile_script@,
                            bootstrap_of(launch.environment@),
                        ),
                    ),
                ),
                None => Err("未找到 PowerShell 7（pwsh.exe）"@),
            }
        },
        TargetView::Powershell5 => if platform != Platform::Windows {
            Err("PowerShell 目标仅在 Windows 上可用"@)
        } else {
            match shells.powershell5 {
                Some(program) => Ok(
                    (
                        program@,
                        powershell_args(
                            shells.profile_script@,
                            bootstrap_of(launch.environment@),
                        ),
                    ),
                ),
                None => Err("未找到 Windows PowerShell 5.1（powershell.exe）"@),
            }
        },
        TargetView::Wsl(distribution) => if platform != Platform::Windows {
            Err("WSL 目标仅在 Windows 上可用"@)
        } else if trim(distribution).len() == 0 {
            Err("WSL 目标缺少发行版名称"@)
        } else {
            Ok(("wsl.exe"@, wsl_args(distribution, opt_view(launch.cwd))))
        },
        TargetView::MacosShell => if platform != Platform::Macos {
            Err("macOS Shell 目标仅在 macOS 上可用"@)
        } else {
            match shells.macos_shell {
                Some(program) => Ok((program@, seq!["-l"@])),
                None => Err("未找到受支持的 macOS Shell（zsh 或 bash）"@),
            }
        },
        TargetView::Unknown => Err("本地终端目标不存在"@),
    }
}

/// The command is the one that was decided on.
pub open spec fn runs(
    command: Result<ShellCommand, String>,
    decided: Result<(Seq<char>, Seq<Seq<char>>), Seq<char>>,
) -> bool {
    match decided {
        Ok((program, args)) => command is Ok && command->Ok_0.program@ == program && views(
            command->Ok_0.args@,
        ) == args,
        Err(message) => command is Err && command->Err_0@ == message,
    }
}

fn powershell_command(program: String, launch: &LocalLaunch, profiles: &str) -> (r: ShellCommand)
    requires
        launch.environment.wf(),
    ensures
        r.program@ == program@,
        views(r.args@) == powershell_args(profiles@, bootstrap_of(launch.environment@)),
{
    let mut args: Vec<String> = Vec::new();
    push_text(&mut args, "-NoLogo".to_owned());
    push_text(&mut args, "-NoExit".to_owned());
    match find_bootstrap(&launch.environment) {
        Some(bootstrap) => {
            let mut script: String = profiles.to_owned();
            script.append("; . '");
            script.append(replaced(bootstrap.as_str(), '\'', "''").as_str());
            script.append("'");
            push_text(&mut args, "-NoProfile".to_owned());
            push_text(&mut args, "-Command".to_owned());
            push_text(&mut args, script);
        },
        None => {},
    }
    assert(views(args@) =~= powershell_args(profiles@, bootstrap_of(launch.environment@)));
    ShellCommand { program, args }
}

fn wsl_command(distribution: String, cwd: &Option<String>) -> (r: ShellCommand)
    ensures
        r.program@ == "wsl.exe"@,
        views(r.args@) == wsl_args(distribution@, opt_view(*cwd)),
{
    let ghost name = distribution@;
    let mut args: Vec<String> = Vec::new();
    push_text(&mut args, "--distribution".to_owned());
    push_text(&mut args, distribution);
    match cwd {
        Some(text) => {
            let directory = trimmed(text.as_str());
            if to_chars(directory.as_str()).len() > 0 {
                push_text(&mut args, "--cd".to_owned());
                push_text(&mut args, directory);
            }
        },
        None => {},
    }
    assert(views(args@) =~= wsl_args(name, opt_view(*cwd)));
    ShellCommand { program: "wsl.exe".to_owned(), args }
}

/// How a terminal is started.
pub fn command_for_request(platform: Platform, launch: &LocalLaunch, shells: &FoundShells) -> (r:
    Result<ShellCommand, String>)
    requires
        launch.environment.wf(),
    ensures
        runs(r, command_of(platform, *launch, *shells)),
{
    let id = launch.target_id.as_str();
    let five = same(id, "local:powershell5");
    if same(id, "local:powershell") || five {
        if platform != Platform::Windows {
            return Err("PowerShell 目标仅在 Windows 上可用".to_owned());
        }
        let seven = same(id, "local:powershell");
        if seven {
            return match &shells.powershell7 {
                Some(program) => Ok(
                    powershell_command(program.clone(), launch, shells.profile_script.as_str()),
                ),
                None => Err("未找到 PowerShell 7（pwsh.exe）".to_owned()),
            };
        }
        return match &shells.powershell5 {
            Some(program) => Ok(
                powershell_command(program.clone(), launch, shells.profile_script.as_str()),
            ),
            None => Err("未找到 Windows PowerShell 5.1（powershell.exe）".to_owned()),
        };
    }
    match strip_prefix(id, "local:wsl:") {
        Some(distribution) => {
            if platform != Platform::Windows {
                return Err("WSL 目标仅在 Windows 上可用".to_owned());
            }
            if is_blank(distribution.as_str()) {
                return Err("WSL 目标缺少发行版名称".to_owned());
            }
            return Ok(wsl_command(distribution, &launch.cwd));
        },
        None => {},
    }
    if same(id, "local:macos-shell") {
        if platform != Platform::Macos {
            return Err("macOS Shell 目标仅在 macOS 上可用".to_owned());
        }
        return match &shells.macos_shell {
            Some(program) => {
                let mut args: Vec<String> = Vec::new();
                push_text(&mut args, "-l".to_owned());
                assert(views(args@) =~= seq!["-l"@]);
                Ok(ShellCommand { program: program.clone(), args })
            },
            None => Err("未找到受支持的 macOS Shell（zsh 或 bash）".to_owned()),
        };
    }
    Err("本地终端目标不存在".to_owned())
}

/// What is typed into a terminal once it runs.
pub open spec fn first_input(command: Option<Seq<char>>) -> Option<Seq<char>> {
    match command {
        Some(text) => if trim(text).len() > 0 {
            Some(trim(text) + "\r"@)
        } else {
            None
        },
        None => None,
    }
}

/// What is typed into a terminal once it runs: its command and a carriage return.
pub fn initial_input(launch: &LocalLaunch) -> (r: Option<String>)
    ensures
        opt_view(r) == first_input(opt_view(launch.command)),
{
    match &launch.command {
        Some(text) => {
            let mut command = trimmed(text.as_str());
            if to_chars(command.as_str()).len() == 0 {
                None
            } else {
                command.append("\r");
                Some(command)
            }
        },
        None => None,
    }
}

/// The environment with what a macOS shell has to know of its terminal; other targets keep what
/// their platform gives.
pub open spec fn terminal_environment(
    environment: Map<Seq<char>, Seq<char>>,
    target_id: Seq<char>,
) -> Map<Seq<char>, Seq<char>> {
    if target_id == "local:macos-shell"@ {
        environment.insert("TERM"@, "xterm-256color"@).insert("COLORTERM"@, "truecolor"@)
    } else {
        environment
    }
}

/// The values as views.
pub open spec fn texts(environment: Map<Seq<char>, String>) -> Map<Seq<char>, Seq<char>> {
    environment.map_values(|s: String| s@)
}

/// Sets what a macOS shell has to know of its terminal.
pub fn configure_terminal_environment(environment: &mut TextMap<String>, target_id: &str)
    requires
        old(environment).wf(),
    ensures
        final(environment).wf(),
        texts(final(environment)@) == terminal_environment(texts(old(environment)@), target_id@),
{
    if same(target_id, "local:macos-shell") {
        environment.insert("TERM".to_owned(), "xterm-256color".to_owned());
        environment.insert("COLORTERM".to_owned(), "truecolor".to_owned());
        assert(texts(environment@) =~= terminal_environment(texts(old(environment)@), target_id@));
    }
}

/// The managed agent that a terminal is started for.
#[derive(Debug)]
pub struct ManagedAgent {
    pub mux_session_id: String,
    pub pane_id: String,
    pub runtime_id: String,
    pub agent_id: String,
    pub launch_profile_id: String,
}

/// The environment with the names of a managed agent.
pub open spec fn agent_environment(
    environment: Map<Seq<char>, Seq<char>>,
    agent: Option<ManagedAgent>,
) -> Map<Seq<char>, Seq<char>> {
    match agent {
        Some(agent) => environment.insert("LUNA_MUX_SESSION_ID"@, agent.mux_session_id@).insert(
            "LUNA_MUX_PANE_ID"@,
            agent.pane_id@,
        ).insert("LUNA_MUX_RUNTIME_ID"@, agent.runtime_id@).insert(
            "LUNA_MUX_AGENT_ID"@,
            agent.agent_id@,
        ).insert("LUNA_MUX_LAUNCH_PROFILE_ID"@, agent.launch_profile_id@),
        None => environment,
    }
}

/// The names of an environment, in some order.
pub open spec fn entry_names(entries: Seq<(String, String)>) -> Seq<Seq<char>> {
    entries.map_values(|e: (String, String)| e.0@)
}

fn names_of(environment: &TextMap<String>) -> (r: Vec<String>)
    ensures
        views(r@) == entry_names(environment.entries@),
{
    let mut r: Vec<String> = Vec::new();
    let mut i: usize = 0;
    assert(views(r@) =~= entry_names(environment.entries@.take(0)));
    while i < environment.entries.len()
        invariant
            i <= environment.entries@.len(),
            views(r@) == entry_names(environment.entries@.take(i as int)),
        decreases environment.entries@.len() - i,
    {
        push_text(&mut r, environment.entries[i].0.clone());
        assert(views(r@) =~= entry_names(environment.entries@.take(i + 1)));
        i = i + 1;
    }
    assert(environment.entries@.take(i as int) =~= environment.entries@);
    r
}

/// Sets what every local terminal needs in its environment: what a macOS shell has to know, the
/// names of a managed agent, and what is handed on into a distribution.
pub fn launch_environment(
    environment: &mut TextMap<String>,
    target_id: &str,
    agent: &Option<ManagedAgent>,
    wslenv: &str,
)
    requires
        old(environment).wf(),
    ensures
        final(environment).wf(),
        ({
            let base = agent_environment(
                terminal_environment(texts(old(environment)@), target_id@),
                *agent,
            );
            if starts_with(target_id@, "local:wsl:"@) {
                exists|bridge: Seq<char>|
                    is_bridge(
                        bridge,
                        wslenv@,
                        entry_names(old(environment).entries@),
                        agent is Some,
                    ) && texts(final(environment)@) == #[trigger] base.insert("WSLENV"@, bridge)
            } else {
                texts(final(environment)@) == base
            }
        }),
{
    let launch = names_of(environment);
    configure_terminal_environment(environment, target_id);
    let ghost shown = texts(environment@);
    match agent {
        Some(agent) => {
            environment.insert("LUNA_MUX_SESSION_ID".to_owned(), agent.mux_session_id.clone());
            environment.insert("LUNA_MUX_PANE_ID".to_owned(), agent.pane_id.clone());
            environment.insert("LUNA_MUX_RUNTIME_ID".to_owned(), agent.runtime_id.clone());
            environment.insert("LUNA_MUX_AGENT_ID".to_owned(), agent.agent_id.clone());
            environment.insert(
                "LUNA_MUX_LAUNCH_PROFILE_ID".to_owned(),
                agent.launch_profile_id.clone(),
            );
        },
        None => {},
    }
    assert(texts(environment@) =~= agent_environment(shown, *agent));
    let ghost base = texts(environment@);
    if has_prefix(target_id, "local:wsl:") {
        let bridge = wsl_environment_bridge(wslenv, launch.as_slice(), agent.is_some());
        let ghost text = bridge@;
        environment.insert("WSLENV".to_owned(), bridge);
        assert(texts(environment@) =~= base.insert("WSLENV"@, text));
    }
}

/// The directory that a terminal is started in; a distribution is told by an argument instead.
pub fn start_directory(launch: &LocalLaunch) -> (r: Option<String>)
    ensures
        opt_view(r) == (match opt_view(launch.cwd) {
            Some(text) => if !starts_with(launch.target_id@, "local:wsl:"@) && trim(text).len() > 0 {
                Some(text)
            } else {
                None
            },
            None => None,
        }),
{
    match &launch.cwd {
        Some(text) => if has_prefix(launch.target_id.as_str(), "local:wsl:") || is_blank(
            text.as_str(),
        ) {
            None
        } else {
            Some(text.clone())
        },
        None => None,
    }
}

/// The command of a bash terminal once the bootstrap is put before it.
pub fn bootstrapped_command(bootstrap: &str, command: Option<&str>) -> (r: String)
    ensures
        r@ == with_shell_bootstrap(bootstrap@, opt_str(command)),
{
    let mut r: String = bootstrap.to_owned();
    match command {
        Some(text) => {
            if !is_blank(text) {
                r.append("; ");
                r.append(text);
            }
        },
        None => {},
    }
    r
}

/// The command of a bash terminal once the bootstrap is put before it.
pub open spec fn with_shell_bootstrap(bootstrap: Seq<char>, command: Option<Seq<char>>) -> Seq<char> {
    match command {
        Some(text) => if trim(text).len() > 0 {
            bootstrap + "; "@ + text
        } else {
            bootstrap
        },
        None => bootstrap,
    }
}

/// The agent wrappers that were installed for a terminal: their directory, the search path that
/// begins with it, the script for PowerShell, the command that loads them in bash, and where the
/// user's own zsh files lie.
#[derive(Debug)]
pub struct AgentWrappers {
    pub directory: String,
    pub search_path: String,
    pub powershell_script: String,
    pub shell_bootstrap: String,
    pub user_zdotdir: Option<String>,
}

/// Whether agent wrappers are put into a terminal; a distribution has its own.
pub fn takes_wrappers(target_id: &str) -> (r: bool)
    ensures
        r == !starts_with(target_id@, "local:wsl:"@),
{
    !has_prefix(target_id, "local:wsl:")
}

/// The environment of a terminal with agent wrappers: they are found first, and PowerShell and zsh
/// are told where they lie.
pub open spec fn wrapped_environment(
    environment: Map<Seq<char>, Seq<char>>,
    target_id: Seq<char>,
    wrappers: AgentWrappers,
    shell_name: Option<Seq<char>>,
) -> Map<Seq<char>, Seq<char>> {
    let found = environment.insert("PATH"@, wrappers.search_path@);
    if starts_with(target_id, "local:wsl:"@) {
        environment
    } else if is_powershell(target_id) {
        found.insert("LUNA_MUX_AGENT_BOOTSTRAP"@, wrappers.powershell_script@)
    } else if target_id == "local:macos-shell"@ && shell_name == Some("zsh"@) {
        let told = found.insert("ZDOTDIR"@, wrappers.directory@);
        match wrappers.user_zdotdir {
            Some(own) => told.insert("LUNA_MUX_USER_ZDOTDIR"@, own@),
            None => told,
        }
    } else {
        found
    }
}

/// Puts agent wrappers into a terminal that is to be started. A bash on macOS gets a command that
/// loads them before its own.
pub fn put_wrappers_first(
    launch: &mut LocalLaunch,
    wrappers: &AgentWrappers,
    shell_name: Option<&str>,
)
    requires
        old(launch).environment.wf(),
    ensures
        final(launch).environment.wf(),
        final(launch).target_id == old(launch).target_id,
        final(launch).cwd == old(launch).cwd,
        texts(final(launch).environment@) == wrapped_environment(
            texts(old(launch).environment@),
            old(launch).target_id@,
            *wrappers,
            opt_str(shell_name),
        ),
        opt_view(final(launch).command) == (if old(launch).target_id@ == "local:macos-shell"@
            && opt_str(shell_name) == Some("bash"@) {
            Some(with_shell_bootstrap(wrappers.shell_bootstrap@, opt_view(old(launch).command)))
        } else {
            opt_view(old(launch).command)
        }),
{
    proof {
        reveal_strlit("local:wsl:");
        reveal_strlit("local:macos-shell");
        reveal_strlit("local:powershell");
        reveal_strlit("local:powershell5");
        reveal_strlit("zsh");
        reveal_strlit("bash");
    }
    let ghost before = texts(launch.environment@);
    if !takes_wrappers(launch.target_id.as_str()) {
        assert(launch.target_id@ != "local:macos-shell"@) by {
            if launch.target_id@ == "local:macos-shell"@ {
                assert("local:macos-shell"@.subrange(0, 10)[6] == 'm');
                assert("local:wsl:"@[6] == 'w');
            }
        }
        return;
    }
    launch.environment.insert("PATH".to_owned(), wrappers.search_path.clone());
    assert(texts(launch.environment@) =~= before.insert("PATH"@, wrappers.search_path@));
    let ghost found = texts(launch.environment@);
    if is_powershell_target(launch.target_id.as_str()) {
        launch.environment.insert(
            "LUNA_MUX_AGENT_BOOTSTRAP".to_owned(),
            wrappers.powershell_script.clone(),
        );
        assert(texts(launch.environment@) =~= found.insert(
            "LUNA_MUX_AGENT_BOOTSTRAP"@,
            wrappers.powershell_script@,
        ));
        assert(launch.target_id@ != "local:macos-shell"@) by {
            assert("local:macos-shell"@[6] == 'm');
        }
        return;
    }
    if !same(launch.target_id.as_str(), "local:macos-shell") {
        return;
    }
    match shell_name {
        Some(name) => {
            if same(name, "zsh") {
                launch.environment.insert("ZDOTDIR".to_owned(), wrappers.directory.clone());
                assert(texts(launch.environment@) =~= found.insert(
                    "ZDOTDIR"@,
                    wrappers.directory@,
                ));
                let ghost told = texts(launch.environment@);
                match &wrappers.user_zdotdir {
                    Some(own) => {
                        launch.environment.insert("LUNA_MUX_USER_ZDOTDIR".to_owned(), own.clone());
                        assert(texts(launch.environment@) =~= told.insert(
                            "LUNA_MUX_USER_ZDOTDIR"@,
                            own@,
                        ));
                    },
                    None => {},
                }
                assert("zsh"@.len() != "bash"@.len());
            } else if same(name, "bash") {
                let command = match &launch.command {
                    Some(text) => bootstrapped_command(
                        wrappers.shell_bootstrap.as_str(),
                        Some(text.as_str()),
                    ),
                    None => bootstrapped_command(wrappers.shell_bootstrap.as_str(), None),
                };
                launch.command = Some(command);
            }
        },
        None => {},
    }
}

/// A size of a terminal within 1 and 65535.
pub fn pty_size(cells: u32) -> (r: u16)
    ensures
        r == (if cells < 1 {
            1
        } else if cells > 65535 {
            65535
        } else {
            cells as int
        }),
{
    if cells < 1 {
        1
    } else if cells > 65535 {
        65535
    } else {
        cells as u16
    }
}

/// Whether the last part of the path of a shell is one that is supported.
pub fn supported_macos_shell(file_name: Option<&str>) -> (r: bool)
    ensures
        r == (match file_name {
            Some(name) => name@ == "zsh"@ || name@ == "bash"@,
            None => false,
        }),
{
    match file_name {
        Some(name) => same(name, "zsh") || same(name, "bash"),
        None => false,
    }
}

/// A shell by its path, with the last part of the path.
#[derive(Debug)]
pub struct ShellPath {
    pub path: String,
    pub file_name: Option<String>,
}

/// The shell is one that is supported.
pub open spec fn is_macos_shell(shell: ShellPath) -> bool {
    opt_view(shell.file_name) == Some("zsh"@) || opt_view(shell.file_name) == Some("bash"@)
}

/// The shell that is started on macOS: the first of the wished ones that is supported, else the
/// first that was found.
pub open spec fn macos_shell(wished: Seq<ShellPath>, found: Seq<Seq<char>>) -> Option<Seq<char>>
    decreases wished.len(),
{
    if wished.len() == 0 {
        if found.len() > 0 {
            Some(found[0])
        } else {
            None
        }
    } else if is_macos_shell(wished[0]) {
        Some(wished[0].path@)
    } else {
        macos_shell(wished.skip(1), found)
    }
}

/// The shell that is started on macOS, of the wished ones, the most wished first, and those that
/// were found.
pub fn macos_supported_shell(wished: &[ShellPath], found: &[String]) -> (r: Option<String>)
    ensures
        opt_view(r) == macos_shell(wished@, views(found@)),
{
    let mut i: usize = 0;
    assert(wished@.skip(0) =~= wished@);
    while i < wished.len()
        invariant
            i <= wished@.len(),
            macos_shell(wished@, views(found@)) == macos_shell(
                wished@.skip(i as int),
                views(found@),
            ),
        decreases wished@.len() - i,
    {
        let name = match &wished[i].file_name {
            Some(name) => Some(name.as_str()),
            None => None,
        };
        assert(wished@.skip(i as int)[0] == wished@[i as int]);
        if supported_macos_shell(name) {
            return Some(wished[i].path.clone());
        }
        assert(wished@.skip(i as int).skip(1) =~= wished@.skip(i + 1));
        i = i + 1;
    }
    if found.len() > 0 {
        assert(views(found@)[0] == found@[0]@);
        Some(found[0].clone())
    } else {
        None
    }
}

/// What a target starts.
#[derive(Clone, Copy, Debug, PartialEq, Eq, Structural)]
pub enum TerminalTargetKind {
    Powershell,
    Wsl,
    MacosShell,
}

/// How the application reaches a terminal.
#[derive(Clone, Copy, Debug, PartialEq, Eq, Structural)]
pub enum TerminalTransport {
    /// A pseudo terminal of this machine.
    LocalPty,
}

/// A local terminal that can be started.
#[derive(Debug)]
pub struct TerminalTarget {
    pub id: String,
    pub label: String,
    pub transport: TerminalTransport,
    pub kind: TerminalTargetKind,
}

/// What is told of a local terminal.
pub ghost struct TerminalTargetView {
    pub id: Seq<char>,
    pub label: Seq<char>,
    pub transport: TerminalTransport,
    pub kind: TerminalTargetKind,
}

impl View for TerminalTarget {
    type V = TerminalTargetView;

    open spec fn view(&self) -> TerminalTargetView {
        TerminalTargetView {
            id: self.id@,
            label: self.label@,
            transport: self.transport,
            kind: self.kind,
        }
    }
}

/// The views of the targets.
pub open spec fn target_views(targets: Seq<TerminalTarget>) -> Seq<TerminalTargetView> {
    targets.map_values(|t: TerminalTarget| t@)
}

fn push_target(targets: &mut Vec<TerminalTarget>, id: String, label: String, kind: TerminalTargetKind)
    ensures
        target_views(final(targets)@) == target_views(old(targets)@).push(
            TerminalTargetView {
                id: id@,
                label: label@,
                transport: TerminalTransport::LocalPty,
                kind,
            },
        ),
{
    let transport = TerminalTransport::LocalPty;
    let ghost added = TerminalTargetView { id: id@, label: label@, transport, kind };
    targets.push(TerminalTarget { id, label, transport, kind });
    assert(target_views(targets@) =~= target_views(old(targets)@).push(added));
}

/// The PowerShells that were found.
pub open spec fn powershell_targets(seven: bool, five: bool) -> Seq<TerminalTargetView> {
    let first = if seven {
        seq![
            TerminalTargetView {
                id: "local:powershell"@,
                label: "PowerShell 7"@,
                transport: TerminalTransport::LocalPty,
                kind: TerminalTargetKind::Powershell,
            },
        ]
    } else {
        Seq::empty()
    };
    if five {
        first.push(
            TerminalTargetView {
                id: "local:powershell5"@,
                label: "PowerShell 5.1"@,
                transport: TerminalTransport::LocalPty,
                kind: TerminalTargetKind::Powershell,
            },
        )
    } else {
        first
    }
}

/// The terminal of a distribution.
pub open spec fn wsl_target(distribution: Seq<char>) -> TerminalTargetView {
    TerminalTargetView {
        id: "local:wsl:"@ + distribution,
        label: "WSL · "@ + distribution,
        transport: TerminalTransport::LocalPty,
        kind: TerminalTargetKind::Wsl,
    }
}

/// The terminals of the distributions.
pub open spec fn wsl_targets(distributions: Seq<Seq<char>>) -> Seq<TerminalTargetView> {
    distributions.map_values(|d: Seq<char>| wsl_target(d))
}

/// The terminals of a Windows machine.
pub fn windows_targets(seven: bool, five: bool, distributions: &[String]) -> (r: Vec<TerminalTarget>)
    ensures
        target_views(r@) == powershell_targets(seven, five) + wsl_targets(views(distributions@)),
{
    let mut targets: Vec<TerminalTarget> = Vec::new();
    if seven {
        push_target(
            &mut targets,
            "local:powershell".to_owned(),
            "PowerShell 7".to_owned(),
            TerminalTargetKind::Powershell,
        );
    }
    if five {
        push_target(
            &mut targets,
            "local:powershell5".to_owned(),
            "PowerShell 5.1".to_owned(),
            TerminalTargetKind::Powershell,
        );
    }
    assert(target_views(targets@) =~= powershell_targets(seven, five));
    let ghost all = views(distributions@);
    let ghost head = powershell_targets(seven, five);
    assert(target_views(targets@) =~= head + wsl_targets(all.take(0)));
    let mut i: usize = 0;
    while i < distributions.len()
        invariant
            i <= distributions@.len(),
            all == views(distributions@),
            target_views(targets@) == head + wsl_targets(all.take(i as int)),
        decreases distributions@.len() - i,
    {
        let mut id: String = "local:wsl:".to_owned();
        id.append(distributions[i].as_str());
        let mut label: String = "WSL · ".to_owned();
        label.append(distributions[i].as_str());
        push_target(&mut targets, id, label, TerminalTargetKind::Wsl);
        assert(target_views(targets@) =~= head + wsl_targets(all.take(i + 1)));
        i = i + 1;
    }
    assert(all.take(i as int) =~= all);
    targets
}

/// The terminal of a macOS machine with a supported shell, by the last part of its path.
pub fn macos_target(file_name: Option<&str>) -> (r: TerminalTarget)
    ensures
        r@ == (TerminalTargetView {
            id: "local:macos-shell"@,
            label: match file_name {
                Some(name) => "macOS "@ + name@,
                None => "macOS Shell"@,
            },
            transport: TerminalTransport::LocalPty,
            kind: TerminalTargetKind::MacosShell,
        }),
{
    let label: String = match file_name {
        Some(name) => {
            let mut label: String = "macOS ".to_owned();
            label.append(name);
            label
        },
        None => "macOS Shell".to_owned(),
    };
    TerminalTarget {
        id: "local:macos-shell".to_owned(),
        label,
        transport: TerminalTransport::LocalPty,
        kind: TerminalTargetKind::MacosShell,
    }
}

/// How a terminal is doing.
#[derive(Clone, Copy, Debug, PartialEq, Eq, Structural)]
pub enum TerminalRuntimeStatus {
    Starting,
    Connecting,
    Running,
    Exited,
    Error,
}

/// Why a terminal ended.
#[derive(Clone, Copy, Debug, PartialEq, Eq, Structural)]
pub enum TerminalRuntimeExitReason {
    Closed,
    Signaled,
    Exited,
}

/// The pane that a terminal belongs to.
#[derive(Debug)]
pub struct TerminalRuntimeContext {
    pub mux_session_id: String,
    pub pane_id: String,
    pub runtime_id: String,
}

/// What is known of the pane of a terminal.
pub ghost struct ContextView {
    pub mux_session_id: Seq<char>,
    pub pane_id: Seq<char>,
    pub runtime_id: Seq<char>,
}

/// The pane of a terminal that has one.
pub open spec fn context_view(context: Option<TerminalRuntimeContext>) -> Option<ContextView> {
    match context {
        Some(c) => Some(
            ContextView {
                mux_session_id: c.mux_session_id@,
                pane_id: c.pane_id@,
                runtime_id: c.runtime_id@,
            },
        ),
        None => None,
    }
}

/// What is known of a managed agent.
pub ghost struct AgentView {
    pub mux_session_id: Seq<char>,
    pub pane_id: Seq<char>,
    pub runtime_id: Seq<char>,
    pub agent_id: Seq<char>,
    pub launch_profile_id: Seq<char>,
}

/// The managed agent of a terminal that has one.
pub open spec fn agent_view(agent: Option<ManagedAgent>) -> Option<AgentView> {
    match agent {
        Some(a) => Some(
            AgentView {
                mux_session_id: a.mux_session_id@,
                pane_id: a.pane_id@,
                runtime_id: a.runtime_id@,
                agent_id: a.agent_id@,
                launch_profile_id: a.launch_profile_id@,
            },
        ),
        None => None,
    }
}

fn copy_context(context: &Option<TerminalRuntimeContext>) -> (r: Option<TerminalRuntimeContext>)
    ensures
        context_view(r) == context_view(*context),
{
    match context {
        Some(c) => Some(
            TerminalRuntimeContext {
                mux_session_id: c.mux_session_id.clone(),
                pane_id: c.pane_id.clone(),
                runtime_id: c.runtime_id.clone(),
            },
        ),
        None => None,
    }
}

fn copy_agent(agent: &Option<ManagedAgent>) -> (r: Option<ManagedAgent>)
    ensures
        agent_view(r) == agent_view(*agent),
{
    match agent {
        Some(a) => Some(
            ManagedAgent {
                mux_session_id: a.mux_session_id.clone(),
                pane_id: a.pane_id.clone(),
                runtime_id: a.runtime_id.clone(),
                agent_id: a.agent_id.clone(),
                launch_profile_id: a.launch_profile_id.clone(),
            },
        ),
        None => None,
    }
}

/// What a terminal is started with.
#[derive(Debug)]
pub struct RuntimeRequest {
    pub runtime_id: Option<String>,
    pub target_id: String,
    pub title: Option<String>,
    pub context: Option<TerminalRuntimeContext>,
    pub managed_agent: Option<ManagedAgent>,
}

/// A terminal as it is listed. A local terminal is never listed with an error.
#[derive(Debug)]
pub struct TerminalRuntime {
    pub runtime_id: String,
    pub target_id: String,
    pub title: String,
    pub status: TerminalRuntimeStatus,
    pub context: Option<TerminalRuntimeContext>,
    pub managed_agent: Option<ManagedAgent>,
    pub error: Option<String>,
}

/// What is listed of a terminal.
pub ghost struct RuntimeView {
    pub runtime_id: Seq<char>,
    pub target_id: Seq<char>,
    pub title: Seq<char>,
    pub status: TerminalRuntimeStatus,
    pub context: Option<ContextView>,
    pub managed_agent: Option<AgentView>,
    pub error: Option<Seq<char>>,
}

impl View for TerminalRuntime {
    type V = RuntimeView;

    open spec fn view(&self) -> RuntimeView {
        RuntimeView {
            runtime_id: self.runtime_id@,
            target_id: self.target_id@,
            title: self.title@,
            status: self.status,
            context: context_view(self.context),
            managed_agent: agent_view(self.managed_agent),
            error: opt_view(self.error),
        }
    }
}

/// A terminal that was started.
#[derive(Debug)]
pub struct LocalRuntime {
    pub target_id: String,
    pub title: String,
    pub status: TerminalRuntimeStatus,
    pub context: Option<TerminalRuntimeContext>,
    pub managed_agent: Option<ManagedAgent>,
    /// Input still reaches the terminal.
    pub open: bool,
    pub paused: bool,
    pub close_requested: bool,
}

/// What is known of a terminal.
pub ghost struct LocalRuntimeView {
    pub target_id: Seq<char>,
    pub title: Seq<char>,
    pub status: TerminalRuntimeStatus,
    pub context: Option<ContextView>,
    pub managed_agent: Option<AgentView>,
    pub open: bool,
    pub paused: bool,
    pub close_requested: bool,
}

impl View for LocalRuntime {
    type V = LocalRuntimeView;

    open spec fn view(&self) -> LocalRuntimeView {
        LocalRuntimeView {
            target_id: self.target_id@,
            title: self.title@,
            status: self.status,
            context: context_view(self.context),
            managed_agent: agent_view(self.managed_agent),
            open: self.open,
            paused: self.paused,
            close_requested: self.close_requested,
        }
    }
}

/// What is listed of a terminal under its id.
pub open spec fn listed_as(runtime_id: Seq<char>, runtime: LocalRuntimeView) -> RuntimeView {
    RuntimeView {
        runtime_id,
        target_id: runtime.target_id,
        title: runtime.title,
        status: runtime.status,
        context: runtime.context,
        managed_agent: runtime.managed_agent,
        error: None,
    }
}

fn listed(runtime_id: &str, runtime: &LocalRuntime) -> (r: TerminalRuntime)
    ensures
        r@ == listed_as(runtime_id@, runtime@),
{
    TerminalRuntime {
        runtime_id: runtime_id.to_owned(),
        target_id: runtime.target_id.clone(),
        title: runtime.title.clone(),
        status: runtime.status,
        context: copy_context(&runtime.context),
        managed_agent: copy_agent(&runtime.managed_agent),
        error: None,
    }
}

/// The local terminals that were started, by their ids.
#[derive(Debug)]
pub struct InProcessLocalPtyTerminalBackend {
    pub runtimes: TextMap<LocalRuntime>,
}

/// What has to be done to close a terminal.
#[derive(Clone, Copy, Debug, PartialEq, Eq, Structural)]
pub enum CloseStep {
    /// It has already ended.
    Nothing,
    /// Its processes have to be killed.
    Kill,
}

/// A terminal that was just started.
pub open spec fn started(request: RuntimeRequest) -> LocalRuntimeView {
    LocalRuntimeView {
        target_id: request.target_id@,
        title: match request.title {
            Some(text) => text@,
            None => "本地终端"@,
        },
        status: TerminalRuntimeStatus::Running,
        context: context_view(request.context),
        managed_agent: agent_view(request.managed_agent),
        open: true,
        paused: false,
        close_requested: false,
    }
}

/// A terminal has ended.
pub open spec fn has_ended(runtime: LocalRuntimeView) -> bool {
    runtime.status == TerminalRuntimeStatus::Exited || runtime.status
        == TerminalRuntimeStatus::Error
}

/// A terminal that was asked to end; one that has ended stays as it is.
pub open spec fn asked_to_end(runtime: LocalRuntimeView) -> LocalRuntimeView {
    if has_ended(runtime) {
        runtime
    } else {
        LocalRuntimeView { close_requested: true, paused: false, ..runtime }
    }
}

/// Why a terminal ended: it was asked to, a signal ended it, or it ended by itself.
pub open spec fn exit_reason(
    runtime: LocalRuntimeView,
    signaled: bool,
) -> TerminalRuntimeExitReason {
    if runtime.close_requested {
        TerminalRuntimeExitReason::Closed
    } else if signaled {
        TerminalRuntimeExitReason::Signaled
    } else {
        TerminalRuntimeExitReason::Exited
    }
}

/// The ids of listed terminals.
pub open spec fn listed_ids(list: Seq<TerminalRuntime>) -> Seq<Seq<char>> {
    list.map_values(|r: TerminalRuntime| r.runtime_id@)
}

impl InProcessLocalPtyTerminalBackend {
    /// The terminals by their ids.
    pub open spec fn view(&self) -> Map<Seq<char>, LocalRuntimeView> {
        self.runtimes@.map_values(|r: LocalRuntime| r@)
    }

    pub open spec fn wf(&self) -> bool {
        self.runtimes.wf()
    }

    /// No terminal.
    pub fn new() -> (r: Self)
        ensures
            r.wf(),
            r.view() == Map::<Seq<char>, LocalRuntimeView>::empty(),
    {
        let r = InProcessLocalPtyTerminalBackend { runtimes: TextMap::new() };
        assert(r.view() =~= Map::<Seq<char>, LocalRuntimeView>::empty());
        r
    }

    /// Whether a target is a local terminal.
    pub fn is_local_target(target_id: &str) -> (r: bool)
        ensures
            r == starts_with(target_id@, "local:"@),
    {
        has_prefix(target_id, "local:")
    }

    /// Refuses what a local terminal cannot do.
    pub fn check_create(authentication: bool) -> (r: Result<(), String>)
        ensures
            if authentication {
                r is Err && r->Err_0@ == "本地终端不支持该认证方式"@
            } else {
                r is Ok
            },
    {
        if authentication {
            Err("本地终端不支持该认证方式".to_owned())
        } else {
            Ok(())
        }
    }

    fn put(&mut self, id: String, runtime: LocalRuntime)
        requires
            old(self).wf(),
        ensures
            final(self).wf(),
            final(self).view() == old(self).view().insert(id@, runtime@),
    {
        let ghost k = id@;
        let ghost v = runtime@;
        self.runtimes.insert(id, runtime);
        assert(self.view() =~= old(self).view().insert(k, v));
    }

    fn set(
        &mut self,
        id: &str,
        status: TerminalRuntimeStatus,
        open: bool,
        paused: bool,
        close_requested: bool,
    )
        requires
            old(self).wf(),
            old(self).view().dom().contains(id@),
        ensures
            final(self).wf(),
            final(self).view() == old(self).view().insert(
                id@,
                (LocalRuntimeView { status, open, paused, close_requested, ..old(self).view()[id@] }),
            ),
    {
        match self.runtimes.get(id) {
            Some(runtime) => {
                let target_id = runtime.target_id.clone();
                let title = runtime.title.clone();
                let context = copy_context(&runtime.context);
                let managed_agent = copy_agent(&runtime.managed_agent);
                let changed = LocalRuntime {
                    target_id,
                    title,
                    status,
                    context,
                    managed_agent,
                    open,
                    paused,
                    close_requested,
                };
                self.put(id.to_owned(), changed);
            },
            None => {},
        }
    }

    /// Notes a terminal that was just started, under the id that was asked for or a fresh one, and
    /// gives it as it is listed.
    pub fn create(&mut self, request: RuntimeRequest) -> (r: TerminalRuntime)
        requires
            old(self).wf(),
        ensures
            final(self).wf(),
            match request.runtime_id {
                Some(id) => r.runtime_id@ == id@,
                None => is_uuid_text(r.runtime_id@),
            },
            r@ == listed_as(r.runtime_id@, started(request)),
            final(self).view() == old(self).view().insert(r.runtime_id@, started(request)),
            final(self).view() == after_start(old(self).view(), r.runtime_id@, request),
    {
        let id: String = match request.runtime_id {
            Some(id) => id,
            None => new_id(),
        };
        let title: String = match request.title {
            Some(text) => text,
            None => "本地终端".to_owned(),
        };
        let runtime = LocalRuntime {
            target_id: request.target_id,
            title,
            status: TerminalRuntimeStatus::Running,
            context: request.context,
            managed_agent: request.managed_agent,
            open: true,
            paused: false,
            close_requested: false,
        };
        let r = listed(id.as_str(), &runtime);
        self.put(id, runtime);
        r
    }

    /// Passes where input still reaches the terminal.
    pub fn check_open(&self, runtime_id: &str) -> (r: Result<(), String>)
        requires
            self.wf(),
        ensures
            if !self.view().dom().contains(runtime_id@) {
                r is Err && r->Err_0@ == "终端 Runtime 不存在"@
            } else if !self.view()[runtime_id@].open {
                r is Err && r->Err_0@ == "本地 PTY 已退出"@
            } else {
                r is Ok
            },
    {
        match self.runtimes.get(runtime_id) {
            None => Err("终端 Runtime 不存在".to_owned()),
            Some(runtime) => if runtime.open {
                Ok(())
            } else {
                Err("本地 PTY 已退出".to_owned())
            },
        }
    }

    /// Holds the output of a terminal back, or lets it go on.
    pub fn set_output_paused(&mut self, runtime_id: &str, paused: bool) -> (r: Result<(), String>)
        requires
            old(self).wf(),
        ensures
            final(self).wf(),
            if old(self).view().dom().contains(runtime_id@) {
                r is Ok && final(self).view() == old(self).view().insert(
                    runtime_id@,
                    (LocalRuntimeView { paused, ..old(self).view()[runtime_id@] }),
                )
            } else {
                &&& r is Err
                &&& r->Err_0@ == "终端 Runtime 不存在"@
                &&& final(self).view() == old(self).view()
            },
            final(self).view() == after_pause(old(self).view(), runtime_id@, paused),
    {
        match self.runtimes.get(runtime_id) {
            None => Err("终端 Runtime 不存在".to_owned()),
            Some(runtime) => {
                let status = runtime.status;
                let open = runtime.open;
                let close_requested = runtime.close_requested;
                self.set(runtime_id, status, open, paused, close_requested);
                Ok(())
            },
        }
    }

    /// Asks a terminal to end: one that has not ended yet is marked, its output goes on, and its
    /// processes are to be killed.
    pub fn close(&mut self, runtime_id: &str) -> (r: Result<CloseStep, String>)
        requires
            old(self).wf(),
        ensures
            final(self).wf(),
            if !old(self).view().dom().contains(runtime_id@) {
                &&& r is Err
                &&& r->Err_0@ == "终端 Runtime 不存在"@
                &&& final(self).view() == old(self).view()
            } else if has_ended(old(self).view()[runtime_id@]) {
                &&& r is Ok
                &&& r->Ok_0 == CloseStep::Nothing
                &&& final(self).view() == old(self).view()
            } else {
                &&& r is Ok
                &&& r->Ok_0 == CloseStep::Kill
                &&& final(self).view() == old(self).view().insert(
                    runtime_id@,
                    (LocalRuntimeView {
                        close_requested: true,
                        paused: false,
                        ..old(self).view()[runtime_id@]
                    }),
                )
            },
            final(self).view() == after_close(old(self).view(), runtime_id@),
            kills(old(self).view(), runtime_id@) == (r matches Ok(step) && step == CloseStep::Kill),
    {
        match self.runtimes.get(runtime_id) {
            None => Err("终端 Runtime 不存在".to_owned()),
            Some(runtime) => {
                let status = runtime.status;
                let open = runtime.open;
                if status == TerminalRuntimeStatus::Exited || status
                    == TerminalRuntimeStatus::Error {
                    return Ok(CloseStep::Nothing);
                }
                self.set(runtime_id, status, open, false, true);
                Ok(CloseStep::Kill)
            },
        }
    }

    /// The terminals, each once, with what is listed of them.
    pub fn list(&self) -> (r: Vec<TerminalRuntime>)
        requires
            self.wf(),
        ensures
            listed_ids(r@).no_duplicates(),
            forall|id: Seq<char>| #[trigger]
                listed_ids(r@).contains(id) <==> self.view().dom().contains(id),
            forall|k: int|
                0 <= k < r@.len() ==> (#[trigger] r@[k])@ == listed_as(
                    r@[k].runtime_id@,
                    self.view()[r@[k].runtime_id@],
                ),
    {
        let ids = self.ids();
        let mut r: Vec<TerminalRuntime> = Vec::new();
        let mut i: usize = 0;
        while i < ids.len()
            invariant
                self.wf(),
                i <= ids@.len(),
                r@.len() == i,
                forall|id: Seq<char>| #[trigger]
                    views(ids@).contains(id) <==> self.view().dom().contains(id),
                forall|k: int|
                    0 <= k < i ==> (#[trigger] r@[k])@ == listed_as(
                        ids@[k]@,
                        self.view()[ids@[k]@],
                    ) && r@[k].runtime_id@ == ids@[k]@,
            decreases ids@.len() - i,
        {
            assert(views(ids@)[i as int] == ids@[i as int]@);
            assert(views(ids@).contains(ids@[i as int]@));
            assert(self.view().dom().contains(ids@[i as int]@));
            match self.runtimes.get(ids[i].as_str()) {
                Some(runtime) => {
                    let row = listed(ids[i].as_str(), runtime);
                    assert(row@.runtime_id == row.runtime_id@);
                    r.push(row);
                },
                None => {
                    assert(false);
                },
            }
            i = i + 1;
        }
        assert(listed_ids(r@) =~= views(ids@));
        r
    }

    /// The ids of the terminals, each once.
    pub fn ids(&self) -> (r: Vec<String>)
        requires
            self.wf(),
        ensures
            views(r@).no_duplicates(),
            forall|id: Seq<char>| #[trigger]
                views(r@).contains(id) <==> self.view().dom().contains(id),
    {
        let mut r: Vec<String> = Vec::new();
        let mut i: usize = 0;
        while i < self.runtimes.entries.len()
            invariant
                i <= self.runtimes.entries@.len(),
                r@.len() == i,
                forall|k: int| 0 <= k < i ==> (#[trigger] r@[k])@ == self.runtimes.entries@[k].0@,
            decreases self.runtimes.entries@.len() - i,
        {
            r.push(self.runtimes.entries[i].0.clone());
            i = i + 1;
        }
        proof {
            let ids = views(r@);
            assert forall|a: int, b: int|
                0 <= a < ids.len() && 0 <= b < ids.len() && a != b implies ids[a] != ids[b] by {
                assert(ids[a] == r@[a]@ && ids[b] == r@[b]@);
                if a < b {
                    assert(self.runtimes.entries@[a].0@ != self.runtimes.entries@[b].0@);
                } else {
                    assert(self.runtimes.entries@[b].0@ != self.runtimes.entries@[a].0@);
                }
            }
            assert forall|id: Seq<char>| #[trigger]
                ids.contains(id) <==> self.view().dom().contains(id) by {
                if ids.contains(id) {
                    let k = choose|k: int| 0 <= k < ids.len() && ids[k] == id;
                    assert(ids[k] == r@[k]@);
                    self.runtimes.lemma_entry(k);
                }
                if self.view().dom().contains(id) {
                    let k = self.runtimes.lemma_value(id);
                    assert(ids[k] == r@[k]@);
                }
            }
        }
        r
    }

    /// Asks every terminal to end; gives the ids of those whose processes are to be killed.
    pub fn close_all(&mut self) -> (r: Vec<String>)
        requires
            old(self).wf(),
        ensures
            final(self).wf(),
            final(self).view() == old(self).view().map_values(|runtime| asked_to_end(runtime)),
            views(r@).no_duplicates(),
            forall|id: Seq<char>| #[trigger]
                views(r@).contains(id) <==> old(self).view().dom().contains(id) && !has_ended(
                    old(self).view()[id],
                ),
    {
        let ids = self.ids();
        let ghost all = views(ids@);
        let ghost start = self.view();
        let mut r: Vec<String> = Vec::new();
        let mut i: usize = 0;
        assert(all.take(0) =~= Seq::empty());
        assert(views(r@) =~= Seq::empty());
        while i < ids.len()
            invariant
                self.wf(),
                start == old(self).view(),
                all == views(ids@),
                all.no_duplicates(),
                forall|id: Seq<char>| #[trigger] all.contains(id) <==> start.dom().contains(id),
                i <= ids@.len(),
                self.view().dom() == start.dom(),
                forall|id: Seq<char>| #[trigger]
                    start.dom().contains(id) ==> self.view()[id] == (if all.take(i as int).contains(
                        id,
                    ) {
                        asked_to_end(start[id])
                    } else {
                        start[id]
                    }),
                views(r@).no_duplicates(),
                forall|id: Seq<char>| #[trigger]
                    views(r@).contains(id) <==> all.take(i as int).contains(id) && !has_ended(
                        start[id],
                    ),
            decreases ids@.len() - i,
        {
            let ghost id = ids@[i as int]@;
            let ghost before = self.view();
            let ghost done = all.take(i as int);
            let ghost listed = views(r@);
            proof {
                assert(all[i as int] == id);
                assert(all.contains(id));
                assert(!done.contains(id)) by {
                    if done.contains(id) {
                        let k = choose|k: int| 0 <= k < done.len() && done[k] == id;
                        assert(all[k] == all[i as int]);
                    }
                }
                let grown = all.take(i + 1);
                assert(grown =~= done.push(id));
                assert forall|s: Seq<char>| #[trigger] grown.contains(s) <==> done.contains(s) || s
                    == id by {
                    if done.contains(s) {
                        let k = choose|k: int| 0 <= k < done.len() && done[k] == s;
                        assert(grown[k] == s);
                    }
                    if s == id {
                        assert(grown[i as int] == s);
                    }
                    if grown.contains(s) && s != id {
                        let k = choose|k: int| 0 <= k < grown.len() && grown[k] == s;
                        assert(done[k] == s);
                    }
                }
            }
            let step = self.close(ids[i].as_str());
            match step {
                Ok(CloseStep::Kill) => {
                    push_text(&mut r, ids[i].clone());
                    let ghost longer = views(r@);
                    assert forall|s: Seq<char>| #[trigger] longer.contains(s) <==> listed.contains(s)
                        || s == id by {
                        if listed.contains(s) {
                            let k = choose|k: int| 0 <= k < listed.len() && listed[k] == s;
                            assert(longer[k] == s);
                        }
                        if s == id {
                            assert(longer[listed.len() as int] == s);
                        }
                        if longer.contains(s) && s != id {
                            let k = choose|k: int| 0 <= k < longer.len() && longer[k] == s;
                            assert(listed[k] == s);
                        }
                    }
                    assert(!listed.contains(id));
                    assert forall|a: int, b: int|
                        0 <= a < longer.len() && 0 <= b < longer.len() && a != b implies longer[a]
                        != longer[b] by {
                        if a < listed.len() {
                            assert(longer[a] == listed[a]);
                            assert(listed.contains(listed[a]));
                        }
                        if b < listed.len() {
                            assert(longer[b] == listed[b]);
                            assert(listed.contains(listed[b]));
                        }
                    }
                    assert(self.view().dom() =~= start.dom());
                },
                _ => {},
            }
            i = i + 1;
        }
        proof {
            assert(all.take(i as int) =~= all);
            assert(self.view() =~= start.map_values(|runtime| asked_to_end(runtime)));
        }
        r
    }

    /// Notes that the process of a terminal is gone: no input reaches it any more, and the output
    /// that is left is read to its end.
    pub fn let_go(&mut self, runtime_id: &str)
        requires
            old(self).wf(),
        ensures
            final(self).wf(),
            final(self).view() == (if old(self).view().dom().contains(runtime_id@) {
                old(self).view().insert(
                    runtime_id@,
                    (LocalRuntimeView { open: false, paused: false, ..old(self).view()[runtime_id@] }),
                )
            } else {
                old(self).view()
            }),
    {
        match self.runtimes.get(runtime_id) {
            None => {},
            Some(runtime) => {
                let status = runtime.status;
                let close_requested = runtime.close_requested;
                self.set(runtime_id, status, false, false, close_requested);
            },
        }
    }

    /// Notes that a terminal has ended and why; nothing where that was noted before.
    pub fn finish_record(&mut self, runtime_id: &str, signaled: bool) -> (r: Option<
        TerminalRuntimeExitReason,
    >)
        requires
            old(self).wf(),
        ensures
            final(self).wf(),
            if old(self).view().dom().contains(runtime_id@) && !has_ended(
                old(self).view()[runtime_id@],
            ) {
                &&& r == Some(exit_reason(old(self).view()[runtime_id@], signaled))
                &&& final(self).view() == old(self).view().insert(
                    runtime_id@,
                    (LocalRuntimeView {
                        status: TerminalRuntimeStatus::Exited,
                        ..old(self).view()[runtime_id@]
                    }),
                )
            } else {
                r is None && final(self).view() == old(self).view()
            },
            final(self).view() == after_end(old(self).view(), runtime_id@),
            r == end_told(old(self).view(), runtime_id@, signaled),
    {
        match self.runtimes.get(runtime_id) {
            None => None,
            Some(runtime) => {
                let status = runtime.status;
                let open = runtime.open;
                let paused = runtime.paused;
                let close_requested = runtime.close_requested;
                if status == TerminalRuntimeStatus::Exited || status
                    == TerminalRuntimeStatus::Error {
                    return None;
                }
                self.set(
                    runtime_id,
                    TerminalRuntimeStatus::Exited,
                    open,
                    paused,
                    close_requested,
                );
                Some(
                    if close_requested {
                        TerminalRuntimeExitReason::Closed
                    } else if signaled {
                        TerminalRuntimeExitReason::Signaled
                    } else {
                        TerminalRuntimeExitReason::Exited
                    },
                )
            },
        }
    }
}

/// Every terminal that a Windows machine lists can be started there: a distribution with a name
/// always, and a PowerShell where it was found.
pub proof fn law_listed_terminals_can_be_started(launch: LocalLaunch, shells: FoundShells)
    ensures
        launch.target_id@ == "local:powershell"@ && shells.powershell7 is Some ==> command_of(
            Platform::Windows,
            launch,
            shells,
        ) is Ok,
        launch.target_id@ == "local:powershell5"@ && shells.powershell5 is Some ==> command_of(
            Platform::Windows,
            launch,
            shells,
        ) is Ok,
        forall|distribution: Seq<char>|
            launch.target_id@ == (#[trigger] wsl_target(distribution)).id && trim(
                distribution,
            ).len() > 0 ==> command_of(Platform::Windows, launch, shells) == Ok::<
                (Seq<char>, Seq<Seq<char>>),
                Seq<char>,
            >(("wsl.exe"@, wsl_args(distribution, opt_view(launch.cwd)))),
{
    reveal_strlit("local:powershell");
    reveal_strlit("local:powershell5");
    reveal_strlit("local:wsl:");
    assert("local:powershell"@.len() == 16);
    assert("local:powershell5"@.len() == 17);
    assert forall|distribution: Seq<char>|
        launch.target_id@ == (#[trigger] wsl_target(distribution)).id && trim(distribution).len()
            > 0 implies command_of(Platform::Windows, launch, shells) == Ok::<
        (Seq<char>, Seq<Seq<char>>),
        Seq<char>,
    >(("wsl.exe"@, wsl_args(distribution, opt_view(launch.cwd)))) by {
        let id = launch.target_id@;
        assert(id[6] == 'w');
        assert("local:powershell"@[6] == 'p');
        assert("local:powershell5"@[6] == 'p');
        assert(occurs_at(id, "local:wsl:"@, 0)) by {
            assert(id.subrange(0, "local:wsl:"@.len() as int) =~= "local:wsl:"@);
        }
        assert(id.skip("local:wsl:"@.len() as int) =~= distribution);
    }
}

/// Only the platform that a local terminal belongs to starts it.
pub proof fn law_terminals_belong_to_their_platform(launch: LocalLaunch, shells: FoundShells)
    ensures
        command_of(Platform::Other, launch, shells) is Err,
        target_of(launch.target_id@) is MacosShell || command_of(
            Platform::Macos,
            launch,
            shells,
        ) is Err,
        !(target_of(launch.target_id@) is MacosShell) || command_of(
            Platform::Windows,
            launch,
            shells,
        ) is Err,
{
}

/// The end of a terminal is told once: after it was told, nothing more is.
pub proof fn law_ends_are_told_once(runtime: LocalRuntimeView, signaled: bool)
    ensures
        has_ended(LocalRuntimeView { status: TerminalRuntimeStatus::Exited, ..runtime }),
        runtime.close_requested ==> exit_reason(runtime, signaled)
            == TerminalRuntimeExitReason::Closed,
{
}

/// The value of `WSLENV` is fixed by the names that are handed on.
pub proof fn law_bridge_is_fixed_by_its_names(
    a: Seq<char>,
    b: Seq<char>,
    existing: Seq<char>,
    launch: Seq<Seq<char>>,
    managed: bool,
)
    requires
        is_bridge(a, existing, launch, managed),
        is_bridge(b, existing, launch, managed),
    ensures
        a == b,
{
    let x = choose|names: Seq<Seq<char>>|
        strictly_sorted(names) && (forall|name: Seq<char>| #[trigger]
            names.contains(name) <==> is_bridged(existing, launch, managed, name)) && a
            == #[trigger] join(names, ":"@);
    let y = choose|names: Seq<Seq<char>>|
        strictly_sorted(names) && (forall|name: Seq<char>| #[trigger]
            names.contains(name) <==> is_bridged(existing, launch, managed, name)) && b
            == #[trigger] join(names, ":"@);
    assert forall|s: Seq<char>| x.contains(s) <==> y.contains(s) by {
        assert(x.contains(s) <==> is_bridged(existing, launch, managed, s));
        assert(y.contains(s) <==> is_bridged(existing, launch, managed, s));
    }
    lemma_sorted_unique(x, y);
}

/// The result of starting a terminal, as the shell that its target names decides it: where the
/// shell was found the terminal runs that shell, and where it was not found nothing is started.
pub open spec fn runs_its_shell(
    decided: Result<(Seq<char>, Seq<Seq<char>>), Seq<char>>,
    shell: Option<String>,
    missing: Seq<char>,
) -> bool {
    match shell {
        Some(program) => decided is Ok && decided->Ok_0.0 == program@,
        None => decided == Err::<(Seq<char>, Seq<Seq<char>>), Seq<char>>(missing),
    }
}

/// Each target starts its own program, whatever else was found on the machine.
pub proof fn law_targets_start_their_own_program(launch: LocalLaunch, shells: FoundShells)
    ensures
        launch.target_id@ == "local:powershell"@ ==> runs_its_shell(
            command_of(Platform::Windows, launch, shells),
            shells.powershell7,
            "未找到 PowerShell 7（pwsh.exe）"@,
        ),
        launch.target_id@ == "local:powershell5"@ ==> runs_its_shell(
            command_of(Platform::Windows, launch, shells),
            shells.powershell5,
            "未找到 Windows PowerShell 5.1（powershell.exe）"@,
        ),
        launch.target_id@ == "local:macos-shell"@ ==> runs_its_shell(
            command_of(Platform::Macos, launch, shells),
            shells.macos_shell,
            "未找到受支持的 macOS Shell（zsh 或 bash）"@,
        ),
        launch.target_id@ == "local:macos-shell"@ && shells.macos_shell is Some ==> command_of(
            Platform::Macos,
            launch,
            shells,
        )->Ok_0.1 == seq!["-l"@],
{
    lemma_targets_are_apart();
}

proof fn lemma_targets_are_apart()
    ensures
        target_of("local:powershell"@) == TargetView::Powershell7,
        target_of("local:powershell5"@) == TargetView::Powershell5,
        target_of("local:macos-shell"@) == TargetView::MacosShell,
{
    reveal_strlit("local:powershell");
    reveal_strlit("local:powershell5");
    reveal_strlit("local:wsl:");
    reveal_strlit("local:macos-shell");
    assert("local:powershell"@.len() == 16);
    assert("local:powershell5"@.len() == 17);
    assert("local:macos-shell"@.len() == 17);
    assert("local:macos-shell"@[6] == 'm');
    assert("local:powershell5"@[6] == 'p');
    assert("local:wsl:"@[6] == 'w');
    let id = "local:macos-shell"@;
    assert(id.subrange(0, 10)[6] == 'm');
}

/// What is started for a target depends on the shell that the target names and on nothing else that
/// was found; the profiles are read by a PowerShell alone.
pub proof fn law_other_shells_do_not_matter(
    platform: Platform,
    launch: LocalLaunch,
    one: FoundShells,
    other: FoundShells,
)
    requires
        launch.target_id@ == "local:powershell"@ ==> opt_view(one.powershell7) == opt_view(
            other.powershell7,
        ),
        launch.target_id@ == "local:powershell5"@ ==> opt_view(one.powershell5) == opt_view(
            other.powershell5,
        ),
        launch.target_id@ == "local:macos-shell"@ ==> opt_view(one.macos_shell) == opt_view(
            other.macos_shell,
        ),
        is_powershell(launch.target_id@) ==> one.profile_script@ == other.profile_script@,
    ensures
        command_of(platform, launch, one) == command_of(platform, launch, other),
{
}

/// A PowerShell starts without its banner and stays open. A bootstrap script runs behind the
/// profiles, which are then loaded by the command and not by the shell itself.
pub proof fn law_powershells_run_their_bootstrap(launch: LocalLaunch, shells: FoundShells)
    requires
        is_powershell(launch.target_id@),
        command_of(Platform::Windows, launch, shells) is Ok,
    ensures
        ({
            let args = command_of(Platform::Windows, launch, shells)->Ok_0.1;
            let bootstrap = bootstrap_of(launch.environment@);
            &&& args.len() == (if bootstrap is Some {
                5int
            } else {
                2int
            })
            &&& args[0] == "-NoLogo"@ && args[1] == "-NoExit"@
            &&& bootstrap is Some ==> args[2] == "-NoProfile"@ && args[3] == "-Command"@ && args[4]
                == shells.profile_script@ + "; . "@ + string_literal(bootstrap->0)
        }),
{
    reveal_strlit("; . '");
    reveal_strlit("; . ");
    reveal_strlit("''");
    reveal_strlit("'");
    assert("''"@ =~= seq!['\'', '\'']);
    assert("'"@ =~= seq!['\'']);
    assert("; . '"@ =~= "; . "@ + seq!['\'']);
    let bootstrap = bootstrap_of(launch.environment@);
    if bootstrap is Some {
        assert(bootstrap_script(shells.profile_script@, bootstrap->0) =~= shells.profile_script@
            + "; . "@ + string_literal(bootstrap->0));
    }
}

/// The bootstrap of an agent goes before that of Codex, and one that is blank hides the other.
pub proof fn law_the_agent_bootstrap_goes_first(environment: Map<Seq<char>, String>)
    ensures
        ({
            let agent = "LUNA_MUX_AGENT_BOOTSTRAP"@;
            let codex = "LUNA_MUX_CODEX_BOOTSTRAP"@;
            let found = bootstrap_of(environment);
            &&& environment.dom().contains(agent) && trim(environment[agent]@).len() > 0 ==> found
                == Some(environment[agent]@)
            &&& environment.dom().contains(agent) && trim(environment[agent]@).len() == 0 ==> found
                is None
            &&& !environment.dom().contains(agent) && environment.dom().contains(codex) && trim(
                environment[codex]@,
            ).len() > 0 ==> found == Some(environment[codex]@)
            &&& !environment.dom().contains(agent) && !environment.dom().contains(codex) ==> found
                is None
        }),
{
}

/// A distribution is entered by its name, in the directory that was asked for where one was.
pub proof fn law_distributions_are_entered_in_the_directory(
    launch: LocalLaunch,
    shells: FoundShells,
    distribution: Seq<char>,
)
    requires
        launch.target_id@ == "local:wsl:"@ + distribution,
    ensures
        ({
            let decided = command_of(Platform::Windows, launch, shells);
            &&& decided is Ok <==> trim(distribution).len() > 0
            &&& decided is Ok ==> {
                let args = decided->Ok_0.1;
                &&& decided->Ok_0.0 == "wsl.exe"@
                &&& args.len() >= 2 && args[0] == "--distribution"@ && args[1] == distribution
                &&& launch.cwd is None || trim(launch.cwd->0@).len() == 0 ==> args.len() == 2
                &&& launch.cwd is Some && trim(launch.cwd->0@).len() > 0 ==> args.len() == 4
                    && args[2] == "--cd"@ && args[3] == trim(launch.cwd->0@)
            }
        }),
{
    reveal_strlit("local:powershell");
    reveal_strlit("local:powershell5");
    reveal_strlit("local:wsl:");
    let id = launch.target_id@;
    assert(id[6] == 'w');
    assert("local:powershell"@[6] == 'p');
    assert("local:powershell5"@[6] == 'p');
    assert(occurs_at(id, "local:wsl:"@, 0)) by {
        assert(id.subrange(0, "local:wsl:"@.len() as int) =~= "local:wsl:"@);
    }
    assert(id.skip("local:wsl:"@.len() as int) =~= distribution);
}

/// A terminal is refused on a platform that its target does not belong to, and a target that is
/// none of the known ones is refused everywhere.
pub proof fn law_unknown_targets_are_refused(
    platform: Platform,
    launch: LocalLaunch,
    shells: FoundShells,
)
    ensures
        launch.target_id@ != "local:powershell"@ && launch.target_id@ != "local:powershell5"@
            && launch.target_id@ != "local:macos-shell"@ && !starts_with(
            launch.target_id@,
            "local:wsl:"@,
        ) ==> command_of(platform, launch, shells) == Err::<
            (Seq<char>, Seq<Seq<char>>),
            Seq<char>,
        >("本地终端目标不存在"@),
        platform != Platform::Windows && is_powershell(launch.target_id@) ==> command_of(
            platform,
            launch,
            shells,
        ) == Err::<(Seq<char>, Seq<Seq<char>>), Seq<char>>("PowerShell 目标仅在 Windows 上可用"@),
        platform != Platform::Windows && starts_with(launch.target_id@, "local:wsl:"@)
            ==> command_of(platform, launch, shells) is Err,
        platform != Platform::Macos && launch.target_id@ == "local:macos-shell"@ ==> command_of(
            platform,
            launch,
            shells,
        ) == Err::<(Seq<char>, Seq<Seq<char>>), Seq<char>>("macOS Shell 目标仅在 macOS 上可用"@),
{
    lemma_targets_are_apart();
    reveal_strlit("local:powershell");
    reveal_strlit("local:powershell5");
    reveal_strlit("local:wsl:");
    let id = launch.target_id@;
    if starts_with(id, "local:wsl:"@) {
        assert(id.subrange(0, 10)[6] == 'w');
        assert("local:powershell"@[6] == 'p');
        assert("local:powershell5"@[6] == 'p');
    }
}

/// A command is typed without its outer white space and entered with a carriage return; a blank one
/// is not typed at all.
pub proof fn law_commands_are_typed_and_entered(command: Option<Seq<char>>)
    ensures
        match first_input(command) {
            Some(typed) => command is Some && trim(command->0).len() > 0 && typed.len() > 0
                && typed.last() == '\r' && typed.drop_last() == trim(command->0),
            None => command is None || trim(command->0).len() == 0,
        },
{
    reveal_strlit("\r");
    match first_input(command) {
        Some(typed) => {
            assert(typed.drop_last() =~= trim(command->0));
        },
        None => {},
    }
}

/// A macOS shell is told what terminal it runs in; nothing else of any environment changes.
pub proof fn law_only_macos_shells_are_told_of_the_terminal(
    environment: Map<Seq<char>, Seq<char>>,
    target_id: Seq<char>,
    name: Seq<char>,
)
    ensures
        ({
            let after = terminal_environment(environment, target_id);
            let macos = target_id == "local:macos-shell"@;
            &&& macos ==> after.dom().contains("TERM"@) && after["TERM"@] == "xterm-256color"@
            &&& macos ==> after.dom().contains("COLORTERM"@) && after["COLORTERM"@] == "truecolor"@
            &&& !macos || (name != "TERM"@ && name != "COLORTERM"@) ==> (after.dom().contains(name)
                <==> environment.dom().contains(name)) && (after.dom().contains(name)
                ==> after[name] == environment[name])
        }),
{
    reveal_strlit("TERM");
    reveal_strlit("COLORTERM");
    assert("TERM"@.len() == 4);
    assert("COLORTERM"@.len() == 9);
}

/// An agent finds its session, its pane, its terminal, itself and its launch profile in its
/// environment, each under its own name; nothing else changes, and without an agent nothing at all.
pub proof fn law_agents_find_their_names(
    environment: Map<Seq<char>, Seq<char>>,
    agent: Option<ManagedAgent>,
    name: Seq<char>,
)
    ensures
        ({
            let after = agent_environment(environment, agent);
            &&& agent matches Some(a) ==> {
                &&& after["LUNA_MUX_SESSION_ID"@] == a.mux_session_id@
                &&& after["LUNA_MUX_PANE_ID"@] == a.pane_id@
                &&& after["LUNA_MUX_RUNTIME_ID"@] == a.runtime_id@
                &&& after["LUNA_MUX_AGENT_ID"@] == a.agent_id@
                &&& after["LUNA_MUX_LAUNCH_PROFILE_ID"@] == a.launch_profile_id@
                &&& agent_names().contains(name) ==> after.dom().contains(name)
            }
            &&& agent is None || !agent_names().contains(name) ==> (after.dom().contains(name)
                <==> environment.dom().contains(name)) && (after.dom().contains(name)
                ==> after[name] == environment[name])
        }),
{
    reveal_strlit("LUNA_MUX_SESSION_ID");
    reveal_strlit("LUNA_MUX_PANE_ID");
    reveal_strlit("LUNA_MUX_RUNTIME_ID");
    reveal_strlit("LUNA_MUX_AGENT_ID");
    reveal_strlit("LUNA_MUX_LAUNCH_PROFILE_ID");
    assert("LUNA_MUX_SESSION_ID"@.len() == 19 && "LUNA_MUX_SESSION_ID"@[9] == 'S');
    assert("LUNA_MUX_RUNTIME_ID"@.len() == 19 && "LUNA_MUX_RUNTIME_ID"@[9] == 'R');
    assert("LUNA_MUX_PANE_ID"@.len() == 16);
    assert("LUNA_MUX_AGENT_ID"@.len() == 17);
    assert("LUNA_MUX_LAUNCH_PROFILE_ID"@.len() == 26);
    let names = agent_names();
    assert(names[0] == "LUNA_MUX_SESSION_ID"@);
    assert(names[1] == "LUNA_MUX_PANE_ID"@);
    assert(names[2] == "LUNA_MUX_RUNTIME_ID"@);
    assert(names[3] == "LUNA_MUX_AGENT_ID"@);
    assert(names[4] == "LUNA_MUX_LAUNCH_PROFILE_ID"@);
    assert(names.contains("LUNA_MUX_SESSION_ID"@));
    assert(names.contains("LUNA_MUX_PANE_ID"@));
    assert(names.contains("LUNA_MUX_RUNTIME_ID"@));
    assert(names.contains("LUNA_MUX_AGENT_ID"@));
    assert(names.contains("LUNA_MUX_LAUNCH_PROFILE_ID"@));
    if names.contains(name) {
        let k = choose|k: int| 0 <= k < names.len() && names[k] == name;
        assert(k == 0 || k == 1 || k == 2 || k == 3 || k == 4);
    }
}

/// A distribution is handed every name that was handed to it before, every name of the launch, and
/// the names of the agent where there is one; and no other name.
pub proof fn law_distributions_are_handed_these_names(
    existing: Seq<char>,
    launch: Seq<Seq<char>>,
    name: Seq<char>,
)
    ensures
        is_bridged(existing, launch, false, name) <==> launch.contains(name) || (name.len() > 0
            && split_at(existing, ':').contains(name)),
        is_bridged(existing, launch, true, name) <==> is_bridged(existing, launch, false, name)
            || name == "LUNA_MUX_SESSION_ID"@ || name == "LUNA_MUX_PANE_ID"@ || name
            == "LUNA_MUX_RUNTIME_ID"@ || name == "LUNA_MUX_AGENT_ID"@ || name
            == "LUNA_MUX_LAUNCH_PROFILE_ID"@,
{
    let names = agent_names();
    assert(names[0] == "LUNA_MUX_SESSION_ID"@);
    assert(names[1] == "LUNA_MUX_PANE_ID"@);
    assert(names[2] == "LUNA_MUX_RUNTIME_ID"@);
    assert(names[3] == "LUNA_MUX_AGENT_ID"@);
    assert(names[4] == "LUNA_MUX_LAUNCH_PROFILE_ID"@);
    if names.contains(name) {
        let k = choose|k: int| 0 <= k < names.len() && names[k] == name;
        assert(k == 0 || k == 1 || k == 2 || k == 3 || k == 4);
    }
}

/// The wrappers of the agents come first on the search path of every local shell but those of a
/// distribution, whose environment stays. A PowerShell is also told of its script and a zsh of its
/// directory; nothing else changes.
pub proof fn law_wrappers_come_first(
    environment: Map<Seq<char>, Seq<char>>,
    target_id: Seq<char>,
    wrappers: AgentWrappers,
    shell_name: Option<Seq<char>>,
    name: Seq<char>,
)
    ensures
        ({
            let after = wrapped_environment(environment, target_id, wrappers, shell_name);
            let wsl = starts_with(target_id, "local:wsl:"@);
            let zsh = target_id == "local:macos-shell"@ && shell_name == Some("zsh"@);
            let powershell = target_id == "local:powershell"@ || target_id
                == "local:powershell5"@;
            &&& wsl ==> after == environment
            &&& !wsl ==> after["PATH"@] == wrappers.search_path@
            &&& !wsl && powershell ==> after["LUNA_MUX_AGENT_BOOTSTRAP"@]
                == wrappers.powershell_script@
            &&& !wsl && zsh ==> after["ZDOTDIR"@] == wrappers.directory@
            &&& !wsl && zsh && wrappers.user_zdotdir is Some ==> after["LUNA_MUX_USER_ZDOTDIR"@]
                == wrappers.user_zdotdir->0@
            &&& name != "PATH"@ && !(powershell && name == "LUNA_MUX_AGENT_BOOTSTRAP"@) && !(zsh && (
            name == "ZDOTDIR"@ || (wrappers.user_zdotdir is Some && name
                == "LUNA_MUX_USER_ZDOTDIR"@))) ==> (after.dom().contains(name)
                <==> environment.dom().contains(name)) && (after.dom().contains(name)
                ==> after[name] == environment[name])
        }),
{
    reveal_strlit("PATH");
    reveal_strlit("LUNA_MUX_AGENT_BOOTSTRAP");
    reveal_strlit("ZDOTDIR");
    reveal_strlit("LUNA_MUX_USER_ZDOTDIR");
    reveal_strlit("local:macos-shell");
    reveal_strlit("local:powershell");
    reveal_strlit("local:powershell5");
    assert("PATH"@.len() == 4);
    assert("LUNA_MUX_AGENT_BOOTSTRAP"@.len() == 24);
    assert("ZDOTDIR"@.len() == 7);
    assert("LUNA_MUX_USER_ZDOTDIR"@.len() == 21);
    assert("local:macos-shell"@[6] == 'm');
    assert("local:powershell"@[6] == 'p');
    assert("local:powershell5"@[6] == 'p');
}

/// The shell on macOS is the first wished one that is a zsh or a bash; where no wish is one, it is
/// the first that was found.
pub proof fn law_the_first_fitting_shell_is_taken(
    wished: Seq<ShellPath>,
    found: Seq<Seq<char>>,
    i: int,
)
    requires
        0 <= i < wished.len(),
    ensures
        (opt_view(wished[i].file_name) == Some("zsh"@) || opt_view(wished[i].file_name) == Some(
            "bash"@,
        )) && (forall|k: int|
            0 <= k < i ==> opt_view((#[trigger] wished[k]).file_name) != Some("zsh"@) && opt_view(
                wished[k].file_name,
            ) != Some("bash"@)) ==> macos_shell(wished, found) == Some(wished[i].path@),
        (forall|k: int|
            0 <= k < wished.len() ==> opt_view((#[trigger] wished[k]).file_name) != Some("zsh"@)
                && opt_view(wished[k].file_name) != Some("bash"@)) ==> macos_shell(wished, found)
            == (if found.len() > 0 {
            Some(found[0])
        } else {
            None
        }),
    decreases wished.len(),
{
    let rest = wished.skip(1);
    assert forall|k: int| 0 <= k < rest.len() implies #[trigger] rest[k] == wished[k + 1] by {}
    if i > 0 {
        law_the_first_fitting_shell_is_taken(rest, found, i - 1);
        assert forall|k: int| 0 <= k < rest.len() implies #[trigger] rest[k] == wished[k + 1] by {}
    } else if rest.len() > 0 {
        law_the_first_fitting_shell_is_taken(rest, found, 0);
    }
    if !is_macos_shell(wished[0]) {
        if forall|k: int|
            0 <= k < wished.len() ==> opt_view((#[trigger] wished[k]).file_name) != Some("zsh"@)
                && opt_view(wished[k].file_name) != Some("bash"@) {
            assert forall|k: int| 0 <= k < rest.len() implies opt_view(
                (#[trigger] rest[k]).file_name,
            ) != Some("zsh"@) && opt_view(rest[k].file_name) != Some("bash"@) by {
                assert(rest[k] == wished[k + 1]);
            }
        }
        if forall|k: int|
            0 <= k < i ==> opt_view((#[trigger] wished[k]).file_name) != Some("zsh"@) && opt_view(
                wished[k].file_name,
            ) != Some("bash"@) {
            assert forall|k: int| 0 <= k < i - 1 implies opt_view((#[trigger] rest[k]).file_name)
                != Some("zsh"@) && opt_view(rest[k].file_name) != Some("bash"@) by {
                assert(rest[k] == wished[k + 1]);
            }
        }
        if i > 0 {
            assert(rest[i - 1] == wished[i]);
        }
    }
}

/// Each PowerShell is listed exactly where it was found, the newer one first, and each under the id
/// by which it is started.
pub proof fn law_found_powershells_are_listed(seven: bool, five: bool)
    ensures
        ({
            let list = powershell_targets(seven, five);
            &&& list.len() == (if seven {
                1int
            } else {
                0int
            }) + (if five {
                1int
            } else {
                0int
            })
            &&& seven ==> list[0].id == "local:powershell"@ && list[0].label == "PowerShell 7"@
            &&& five ==> list.last().id == "local:powershell5"@ && list.last().label
                == "PowerShell 5.1"@
            &&& forall|i: int|
                0 <= i < list.len() ==> (#[trigger] list[i]).kind == TerminalTargetKind::Powershell
                    && list[i].transport == TerminalTransport::LocalPty
        }),
{
}

/// Each distribution is listed once, at its place, under the id by which it is started.
pub proof fn law_distributions_are_listed(distributions: Seq<Seq<char>>, i: int)
    requires
        0 <= i < distributions.len(),
    ensures
        wsl_targets(distributions).len() == distributions.len(),
        wsl_targets(distributions)[i].id == "local:wsl:"@ + distributions[i],
        wsl_targets(distributions)[i].label == "WSL · "@ + distributions[i],
        wsl_targets(distributions)[i].kind == TerminalTargetKind::Wsl,
        target_of(wsl_targets(distributions)[i].id) == TargetView::Wsl(distributions[i]),
{
    reveal_strlit("local:powershell");
    reveal_strlit("local:powershell5");
    reveal_strlit("local:wsl:");
    let id = "local:wsl:"@ + distributions[i];
    assert(id[6] == 'w');
    assert("local:powershell"@[6] == 'p');
    assert("local:powershell5"@[6] == 'p');
    assert(occurs_at(id, "local:wsl:"@, 0)) by {
        assert(id.subrange(0, "local:wsl:"@.len() as int) =~= "local:wsl:"@);
    }
    assert(id.skip("local:wsl:"@.len() as int) =~= distributions[i]);
}

/// A terminal that was started runs, takes input and shows its output, for the target and the pane
/// that it was asked for. Asking it to end stops no input and shows what is left of its output; one
/// that has ended stays as it is.
pub proof fn law_terminals_run_until_they_end(request: RuntimeRequest, runtime: LocalRuntimeView)
    ensures
        ({
            let begun = started(request);
            &&& begun.status == TerminalRuntimeStatus::Running
            &&& begun.open && !begun.paused && !begun.close_requested
            &&& begun.target_id == request.target_id@
            &&& begun.context == context_view(request.context)
            &&& begun.managed_agent == agent_view(request.managed_agent)
            &&& request.title matches Some(title) ==> begun.title == title@
            &&& request.title is None ==> begun.title == "本地终端"@
            &&& !has_ended(begun)
        }),
        ({
            let asked = asked_to_end(runtime);
            &&& runtime.status == TerminalRuntimeStatus::Exited || runtime.status
                == TerminalRuntimeStatus::Error ==> asked == runtime
            &&& runtime.status != TerminalRuntimeStatus::Exited && runtime.status
                != TerminalRuntimeStatus::Error ==> asked.close_requested && !asked.paused
            &&& asked.status == runtime.status && asked.open == runtime.open
            &&& asked_to_end(asked) == asked
        }),
{
}

/// Why a terminal ended: because it was asked to, else because of a signal, else by itself.
pub proof fn law_ends_have_their_reason(runtime: LocalRuntimeView, signaled: bool)
    ensures
        exit_reason(asked_to_end(runtime), signaled) == TerminalRuntimeExitReason::Closed
            || has_ended(runtime),
        !runtime.close_requested ==> exit_reason(runtime, true)
            == TerminalRuntimeExitReason::Signaled,
        !runtime.close_requested ==> exit_reason(runtime, false)
            == TerminalRuntimeExitReason::Exited,
{
}

/// A running terminal is listed with what is known of it, without an error.
pub proof fn law_terminals_are_listed_as_they_are(runtime_id: Seq<char>, runtime: LocalRuntimeView)
    ensures
        ({
            let shown = listed_as(runtime_id, runtime);
            &&& shown.runtime_id == runtime_id
            &&& shown.target_id == runtime.target_id
            &&& shown.title == runtime.title
            &&& shown.status == runtime.status
            &&& shown.context == runtime.context
            &&& shown.managed_agent == runtime.managed_agent
            &&& shown.error is None
        }),
{
}

/// A shell is set up before the command that was asked for; where none was, it is only set up.
pub proof fn law_shells_are_set_up_first(bootstrap: Seq<char>, command: Seq<char>)
    ensures
        with_shell_bootstrap(bootstrap, None) == bootstrap,
        trim(command).len() == 0 ==> with_shell_bootstrap(bootstrap, Some(command)) == bootstrap,
        trim(command).len() > 0 ==> with_shell_bootstrap(bootstrap, Some(command)) == bootstrap
            + "; "@ + command,
{
}

/// A terminal starts in the directory that was asked for; a blank one is none, and a distribution is
/// told of its directory by other means.
pub proof fn law_terminals_start_in_their_directory(launch: &LocalLaunch, r: Option<String>)
    requires
        start_directory.ensures((launch,), r),
    ensures
        launch.cwd is None ==> r is None,
        launch.cwd matches Some(cwd) ==> (trim(cwd@).len() == 0 ==> r is None) && (starts_with(
            launch.target_id@,
            "local:wsl:"@,
        ) ==> r is None) && (trim(cwd@).len() > 0 && !starts_with(launch.target_id@, "local:wsl:"@)
            ==> opt_view(r) == Some(cwd@)),
{
}

/// A terminal has a row and a column at least, and no more than can be counted.
pub proof fn law_terminals_have_a_size(cells: u32, r: u16)
    requires
        pty_size.ensures((cells,), r),
    ensures
        r >= 1,
        1 <= cells <= 65535 ==> r == cells,
        cells > 65535 ==> r == 65535,
{
}

/// Only a zsh or a bash is run as a shell of macOS.
pub proof fn law_macos_runs_zsh_and_bash(name: &str, r: bool, none: bool)
    requires
        supported_macos_shell.ensures((Some(name),), r),
        supported_macos_shell.ensures((None,), none),
    ensures
        r <==> name@ == "zsh"@ || name@ == "bash"@,
        !none,
{
}

/// The shell of macOS is listed under the name of its program, where that is known.
pub proof fn law_the_macos_shell_is_listed_by_name(
    name: &str,
    named: TerminalTarget,
    unnamed: TerminalTarget,
)
    requires
        macos_target.ensures((Some(name),), named),
        macos_target.ensures((None,), unnamed),
    ensures
        named.id@ == "local:macos-shell"@ && unnamed.id@ == "local:macos-shell"@,
        named.label@ == "macOS "@ + name@ && unnamed.label@ == "macOS Shell"@,
        named.kind == TerminalTargetKind::MacosShell && unnamed.kind
            == TerminalTargetKind::MacosShell,
        named.transport == TerminalTransport::LocalPty,
{
    assert(named@.id == named.id@ && unnamed@.id == unnamed.id@);
    assert(named@.label == named.label@ && unnamed@.label == unnamed.label@);
}

/// A machine with Windows lists its PowerShells first, and behind them every distribution, in its
/// order.
pub proof fn law_windows_lists_all_its_shells(
    seven: bool,
    five: bool,
    distributions: &[String],
    r: Vec<TerminalTarget>,
    i: int,
)
    requires
        windows_targets.ensures((seven, five, distributions), r),
        0 <= i < distributions@.len(),
    ensures
        ({
            let shells = (if seven {
                1int
            } else {
                0int
            }) + (if five {
                1int
            } else {
                0int
            });
            &&& r@.len() == shells + distributions@.len()
            &&& r@[shells + i].id@ == "local:wsl:"@ + distributions@[i]@
            &&& seven ==> r@[0].id@ == "local:powershell"@
            &&& five ==> r@[shells - 1].id@ == "local:powershell5"@
        }),
{
    law_found_powershells_are_listed(seven, five);
    law_distributions_are_listed(views(distributions@), i);
    let shown = target_views(r@);
    let front = powershell_targets(seven, five);
    let back = wsl_targets(views(distributions@));
    assert(shown.len() == r@.len());
    assert(shown == front + back);
    let shells = front.len() as int;
    assert(shown[shells + i] == back[i]);
    assert(shown[shells + i] == r@[shells + i]@);
    assert(views(distributions@)[i] == distributions@[i]@);
    if seven {
        assert(shown[0] == front[0]);
        assert(shown[0] == r@[0]@);
    }
    if five {
        assert(shown[shells - 1] == front[shells - 1]);
        assert(shown[shells - 1] == r@[shells - 1]@);
    }
}

/// A local target is told by the front of its id, and a local terminal takes no way to sign in.
pub proof fn law_local_terminals_take_no_sign_in(target_id: &str, local: bool, r: Result<(), String>)
    requires
        InProcessLocalPtyTerminalBackend::is_local_target.ensures((target_id,), local),
        InProcessLocalPtyTerminalBackend::check_create.ensures((true,), r),
    ensures
        local <==> starts_with(target_id@, "local:"@),
        r is Err,
{
}

/// The wrappers of the agents are put into every shell but that of a distribution.
pub proof fn law_distributions_take_no_wrappers(target_id: &str, r: bool)
    requires
        takes_wrappers.ensures((target_id,), r),
    ensures
        r <==> !starts_with(target_id@, "local:wsl:"@),
{
}

/// The terminals once one more was started.
pub open spec fn after_start(
    runtimes: Map<Seq<char>, LocalRuntimeView>,
    id: Seq<char>,
    request: RuntimeRequest,
) -> Map<Seq<char>, LocalRuntimeView> {
    runtimes.insert(id, started(request))
}

/// The terminal is there and has not ended.
pub open spec fn kills(runtimes: Map<Seq<char>, LocalRuntimeView>, id: Seq<char>) -> bool {
    runtimes.dom().contains(id) && !has_ended(runtimes[id])
}

/// The terminals once one of them was asked to end.
pub open spec fn after_close(
    runtimes: Map<Seq<char>, LocalRuntimeView>,
    id: Seq<char>,
) -> Map<Seq<char>, LocalRuntimeView> {
    if kills(runtimes, id) {
        runtimes.insert(id, asked_to_end(runtimes[id]))
    } else {
        runtimes
    }
}

/// The terminals once it was noted that one of them has ended.
pub open spec fn after_end(
    runtimes: Map<Seq<char>, LocalRuntimeView>,
    id: Seq<char>,
) -> Map<Seq<char>, LocalRuntimeView> {
    if kills(runtimes, id) {
        runtimes.insert(
            id,
            LocalRuntimeView { status: TerminalRuntimeStatus::Exited, ..runtimes[id] },
        )
    } else {
        runtimes
    }
}

/// What is told when it is noted that a terminal has ended.
pub open spec fn end_told(
    runtimes: Map<Seq<char>, LocalRuntimeView>,
    id: Seq<char>,
    signaled: bool,
) -> Option<TerminalRuntimeExitReason> {
    if kills(runtimes, id) {
        Some(exit_reason(runtimes[id], signaled))
    } else {
        None
    }
}

/// The terminals once the output of one of them was held or let go on.
pub open spec fn after_pause(
    runtimes: Map<Seq<char>, LocalRuntimeView>,
    id: Seq<char>,
    paused: bool,
) -> Map<Seq<char>, LocalRuntimeView> {
    if runtimes.dom().contains(id) {
        runtimes.insert(id, LocalRuntimeView { paused, ..runtimes[id] })
    } else {
        runtimes
    }
}

/// A terminal that was started and asked to end is told to have been closed, once: after that nothing
/// more is told of it, and asking again kills nothing. Its output is not held back in the meantime.
pub proof fn law_closed_terminals_end_once(
    runtimes: Map<Seq<char>, LocalRuntimeView>,
    id: Seq<char>,
    request: RuntimeRequest,
    signaled: bool,
)
    ensures
        ({
            let begun = after_start(runtimes, id, request);
            let held = after_pause(begun, id, true);
            let asked = after_close(held, id);
            let over = after_end(asked, id);
            &&& kills(begun, id) && kills(held, id) && held[id].paused
            &&& asked[id].close_requested && !asked[id].paused && asked[id].open
            &&& end_told(asked, id, signaled) == Some(TerminalRuntimeExitReason::Closed)
            &&& over[id].status == TerminalRuntimeStatus::Exited
            &&& !kills(over, id) && end_told(over, id, signaled) is None
            &&& after_end(over, id) == over && after_close(over, id) == over
        }),
{
}

/// A terminal that ends by itself is told so, or with its signal.
pub proof fn law_terminals_end_by_themselves(
    runtimes: Map<Seq<char>, LocalRuntimeView>,
    id: Seq<char>,
    request: RuntimeRequest,
)
    ensures
        ({
            let begun = after_start(runtimes, id, request);
            &&& end_told(begun, id, false) == Some(TerminalRuntimeExitReason::Exited)
            &&& end_told(begun, id, true) == Some(TerminalRuntimeExitReason::Signaled)
            &&& has_ended(after_end(begun, id)[id])
        }),
{
}

/// What happens to one terminal leaves all others as they are, and makes none and loses none.
pub proof fn law_other_terminals_are_left_alone(
    runtimes: Map<Seq<char>, LocalRuntimeView>,
    id: Seq<char>,
    other: Seq<char>,
    paused: bool,
    request: RuntimeRequest,
)
    requires
        other != id,
    ensures
        ({
            let begun = after_start(runtimes, id, request);
            let asked = after_close(runtimes, id);
            let over = after_end(runtimes, id);
            let held = after_pause(runtimes, id, paused);
            &&& begun.dom() == runtimes.dom().insert(id)
            &&& asked.dom() =~= runtimes.dom() && over.dom() =~= runtimes.dom() && held.dom()
                =~= runtimes.dom()
            &&& runtimes.dom().contains(other) ==> begun[other] == runtimes[other] && asked[other]
                == runtimes[other] && over[other] == runtimes[other] && held[other]
                == runtimes[other]
        }),
{
}

} // verus!
