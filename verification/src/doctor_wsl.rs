//! What the diagnostics learn of the WSL distributions.
use vstd::prelude::*;
use vstd::string::*;

use crate::doctor_checks::{agent_check, AgentCheck, AgentCheckView};
use crate::doctor_environment::{passes, passes_filter};
use crate::dump_plan::opt_str;
use crate::local_pty::{decode_windows_command_output, decoded_output};
use crate::number_text::{signed_decimal, signed_decimal_text};
use crate::text::{
    ascii_lower, contains, from_range, is_space_char, join, joined, lines, lowered, push_text,
    replace_char, replaced, split_lines, to_chars, to_lower, trim, trim_end, trimmed, views,
};

verus! {

/// Each line without the white space at its end.
pub open spec fn normalized_detail(detail: Seq<char>) -> Seq<char> {
    join(lines(detail).map_values(|line: Seq<char>| trim_end(line)), "\n"@)
}

fn without_end_space(s: &str) -> (r: String)
    ensures
        r@ == trim_end(s@),
{
    let chars = to_chars(s);
    let mut end: usize = chars.len();
    assert(s@.take(end as int) =~= s@);
    while end > 0 && is_space_char(chars[end - 1])
        invariant
            chars@ == s@,
            end <= chars@.len(),
            trim_end(s@) == trim_end(s@.take(end as int)),
        decreases end,
    {
        assert(s@.take(end as int).drop_last() =~= s@.take(end - 1));
        end = end - 1;
    }
    let r = from_range(chars.as_slice(), 0, end);
    assert(r@ =~= s@.take(end as int));
    r
}

/// Each line without the white space at its end.
pub fn normalize_wsl_detail(detail: &str) -> (r: String)
    ensures
        r@ == normalized_detail(detail@),
{
    let all = split_lines(detail);
    let ghost shown = lines(detail@).map_values(|line: Seq<char>| trim_end(line));
    let mut list: Vec<String> = Vec::new();
    let mut i: usize = 0;
    assert(views(all@).len() == all@.len());
    assert(views(list@) =~= shown.take(0));
    while i < all.len()
        invariant
            i <= all@.len(),
            views(all@) == lines(detail@),
            views(all@).len() == all@.len(),
            shown == lines(detail@).map_values(|line: Seq<char>| trim_end(line)),
            views(list@) == shown.take(i as int),
        decreases all@.len() - i,
    {
        assert(lines(detail@)[i as int] == all@[i as int]@);
        push_text(&mut list, without_end_space(all[i].as_str()));
        assert(views(list@) =~= shown.take(i + 1));
        i = i + 1;
    }
    assert(shown.take(i as int) =~= shown);
    joined(list.as_slice(), "\n")
}

/// What a failed `wsl.exe` said, on its error output first.
pub open spec fn failure_detail(stderr: Seq<u8>, stdout: Seq<u8>) -> Seq<char> {
    let said = trim(decoded_output(stderr));
    if said.len() > 0 {
        normalized_detail(said)
    } else {
        normalized_detail(trim(decoded_output(stdout)))
    }
}

/// What a failed `wsl.exe` said.
pub fn wsl_failure_detail(stderr: &[u8], stdout: &[u8]) -> (r: String)
    ensures
        r@ == failure_detail(stderr@, stdout@),
{
    let text = decode_windows_command_output(stderr);
    let said = trimmed(text.as_str());
    if to_chars(said.as_str()).len() > 0 {
        return normalize_wsl_detail(said.as_str());
    }
    let text = decode_windows_command_output(stdout);
    let said = trimmed(text.as_str());
    normalize_wsl_detail(said.as_str())
}

/// What ends a name in the list of distributions.
pub open spec fn ends_name(c: char) -> bool {
    c == '\r' || c == '\n' || c == '\0'
}

/// The names between the ends.
pub open spec fn name_parts(s: Seq<char>) -> Seq<Seq<char>>
    decreases s.len(),
{
    if s.len() == 0 {
        seq![Seq::empty()]
    } else {
        let parts = name_parts(s.drop_last());
        if ends_name(s.last()) {
            parts.push(Seq::empty())
        } else {
            parts.drop_last().push(parts.last().push(s.last()))
        }
    }
}

/// The trimmed parts that are not empty and pass the filter.
pub open spec fn kept_names(parts: Seq<Seq<char>>, filter: Option<Seq<char>>) -> Seq<Seq<char>>
    decreases parts.len(),
{
    if parts.len() == 0 {
        Seq::empty()
    } else {
        let rest = kept_names(parts.drop_last(), filter);
        let name = trim(parts.last());
        if name.len() > 0 && passes(name, filter) {
            rest.push(name)
        } else {
            rest
        }
    }
}

fn split_names(text: &str) -> (r: Vec<String>)
    ensures
        views(r@) == name_parts(text@),
{
    let chars = to_chars(text);
    let mut r: Vec<String> = Vec::new();
    let mut current: String = String::new();
    let mut i: usize = 0;
    proof {
        assert(views(r@).push(current@) =~= name_parts(text@.take(0)));
    }
    while i < chars.len()
        invariant
            chars@ == text@,
            i <= chars@.len(),
            views(r@).push(current@) == name_parts(text@.take(i as int)),
        decreases chars@.len() - i,
    {
        let c: char = chars[i];
        let ghost before = views(r@);
        let ghost word = current@;
        proof {
            assert(text@.take(i + 1).drop_last() =~= text@.take(i as int));
            assert(before.push(word).drop_last() =~= before);
            assert(before.push(word).last() == word);
        }
        if c == '\r' || c == '\n' || c == '\0' {
            push_text(&mut r, current);
            current = String::new();
            assert(views(r@).push(current@) =~= name_parts(text@.take(i + 1)));
        } else {
            current.push(c);
            assert(views(r@).push(current@) =~= name_parts(text@.take(i + 1)));
        }
        i = i + 1;
    }
    assert(text@.take(i as int) =~= text@);
    push_text(&mut r, current);
    r
}

/// The distributions that the output of `wsl.exe` lists.
pub fn parse_wsl_distributions(bytes: &[u8], filter: Option<&str>) -> (r: Vec<String>)
    ensures
        views(r@) == kept_names(name_parts(decoded_output(bytes@)), opt_str(filter)),
{
    let text = decode_windows_command_output(bytes);
    let parts = split_names(text.as_str());
    let ghost all = name_parts(decoded_output(bytes@));
    let ghost wanted = opt_str(filter);
    let mut r: Vec<String> = Vec::new();
    let mut i: usize = 0;
    assert(views(parts@).len() == parts@.len());
    assert(views(r@) =~= kept_names(all.take(0), wanted));
    while i < parts.len()
        invariant
            i <= parts@.len(),
            views(parts@) == all,
            views(parts@).len() == parts@.len(),
            wanted == opt_str(filter),
            views(r@) == kept_names(all.take(i as int), wanted),
        decreases parts@.len() - i,
    {
        proof {
            assert(all.take(i + 1).drop_last() =~= all.take(i as int));
            assert(all.take(i + 1).last() == parts@[i as int]@);
        }
        let name = trimmed(parts[i].as_str());
        if to_chars(name.as_str()).len() > 0 && passes_filter(name.as_str(), filter) {
            push_text(&mut r, name);
        }
        i = i + 1;
    }
    assert(all.take(i as int) =~= all);
    r
}

/// What came of `wsl.exe --list --quiet`.
#[derive(Debug)]
pub enum WslList {
    Unavailable(String),
    Failed { stderr: Vec<u8>, stdout: Vec<u8> },
    Listed(Vec<u8>),
}

/// The distributions that were listed, or why there are none.
pub open spec fn listed(list: WslList, filter: Option<Seq<char>>) -> Result<Seq<Seq<char>>, Seq<char>> {
    match list {
        WslList::Unavailable(error) => Err("wsl.exe unavailable: "@ + error@),
        WslList::Failed { stderr, stdout } => Err(failure_detail(stderr@, stdout@)),
        WslList::Listed(bytes) => {
            let names = kept_names(name_parts(decoded_output(bytes@)), filter);
            if names.len() == 0 {
                Err("no WSL distributions found"@)
            } else {
                Ok(names)
            }
        },
    }
}

/// The distributions that were listed, or why there are none.
pub fn wsl_distributions(list: &WslList, filter: Option<&str>) -> (r: Result<Vec<String>, String>)
    ensures
        match listed(*list, opt_str(filter)) {
            Ok(names) => r is Ok && views(r->Ok_0@) == names,
            Err(message) => r is Err && r->Err_0@ == message,
        },
{
    match list {
        WslList::Unavailable(error) => {
            let mut message: String = "wsl.exe unavailable: ".to_owned();
            message.append(error.as_str());
            Err(message)
        },
        WslList::Failed { stderr, stdout } => Err(
            wsl_failure_detail(stderr.as_slice(), stdout.as_slice()),
        ),
        WslList::Listed(bytes) => {
            let names = parse_wsl_distributions(bytes.as_slice(), filter);
            assert(views(names@).len() == names@.len());
            if names.len() == 0 {
                Err("no WSL distributions found".to_owned())
            } else {
                Ok(names)
            }
        },
    }
}

/// The check of the distributions.
pub fn check_wsl_distributions(list: &WslList, filter: Option<&str>) -> (r: AgentCheck)
    ensures
        r@ == (match listed(*list, opt_str(filter)) {
            Ok(names) => AgentCheckView {
                name: "wsl_distributions"@,
                status: "ok"@,
                detail: join(names, ", "@),
            },
            Err(message) => AgentCheckView {
                name: "wsl_distributions"@,
                status: "warn"@,
                detail: message,
            },
        }),
{
    match wsl_distributions(list, filter) {
        Ok(names) => agent_check("wsl_distributions", "ok", joined(names.as_slice(), ", ")),
        Err(message) => agent_check("wsl_distributions", "warn", message),
    }
}

/// The path of a Windows program inside a distribution; nothing where it is on no local drive.
pub open spec fn wsl_path(executable: Seq<char>) -> Option<Seq<char>> {
    if executable.len() >= 3 && executable[1] == ':' && (executable[2] == '\\' || executable[2]
        == '/') && executable[0] <= '\x7f' {
        Some(
            "/mnt/"@ + to_lower(executable.take(1)) + "/"@ + replace_char(
                executable.skip(3),
                '\\',
                "/"@,
            ),
        )
    } else {
        None
    }
}

/// The path of a Windows program inside a distribution.
pub fn windows_executable_wsl_path(executable: &str) -> (r: Result<String, String>)
    ensures
        match wsl_path(executable@) {
            Some(path) => r is Ok && r->Ok_0@ == path,
            None => r is Err && r->Err_0@ == "current executable is not on a Windows local drive"@,
        },
{
    let chars = to_chars(executable);
    let n: usize = chars.len();
    if n < 3 || chars[1] != ':' || !(chars[2] == '\\' || chars[2] == '/') || chars[0] > '\x7f' {
        return Err("current executable is not on a Windows local drive".to_owned());
    }
    let drive = from_range(chars.as_slice(), 0, 1);
    let rest = from_range(chars.as_slice(), 3, n);
    assert(drive@ =~= executable@.take(1));
    assert(rest@ =~= executable@.skip(3));
    let mut path: String = "/mnt/".to_owned();
    path.append(lowered(drive.as_str()).as_str());
    path.append("/");
    path.append(replaced(rest.as_str(), '\\', "/").as_str());
    Ok(path)
}

/// What a program that was run inside a distribution said, with its exit status.
pub open spec fn probe_detail(stdout: Seq<char>, stderr: Seq<char>, code: Option<i32>) -> Seq<char> {
    let status = match code {
        Some(n) => signed_decimal(n as int),
        None => "unknown"@,
    };
    let first = trim(stdout);
    let second = trim(stderr);
    let said = if first.len() > 0 && second.len() > 0 {
        first + " "@ + second
    } else {
        first + second
    };
    normalized_detail(
        if said.len() == 0 {
            "WSL interop probe exited with status "@ + status
        } else {
            said + " (status "@ + status + ")"@
        },
    )
}

/// What a program that failed inside a distribution said.
pub fn wsl_probe_error(stdout: &[u8], stderr: &[u8], code: Option<i32>) -> (r: String)
    ensures
        r@ == probe_detail(decoded_output(stdout@), decoded_output(stderr@), code),
{
    let out = decode_windows_command_output(stdout);
    let err = decode_windows_command_output(stderr);
    let first = trimmed(out.as_str());
    let second = trimmed(err.as_str());
    let status: String = match code {
        Some(n) => signed_decimal_text(n as i64),
        None => "unknown".to_owned(),
    };
    let has_first = to_chars(first.as_str()).len() > 0;
    let has_second = to_chars(second.as_str()).len() > 0;
    let mut said: String = first.clone();
    if has_first && has_second {
        said.append(" ");
    }
    said.append(second.as_str());
    if !has_first && !has_second {
        assert(said@.len() == 0);
        let mut text: String = "WSL interop probe exited with status ".to_owned();
        text.append(status.as_str());
        normalize_wsl_detail(text.as_str())
    } else {
        said.append(" (status ");
        said.append(status.as_str());
        said.append(")");
        normalize_wsl_detail(said.as_str())
    }
}

/// What came of trying the program inside one distribution.
#[derive(Debug)]
pub enum InteropProbe {
    /// The path could not be looked up.
    NotTried(String),
    /// The program is not there.
    NotVisible,
    /// It is there and did not run.
    NotRun(String),
    /// It is there and ran.
    Ran,
}

/// What is told of the program inside a distribution.
pub open spec fn interop_text(distribution: Seq<char>, path: Seq<char>, probe: InteropProbe) -> Seq<
    char,
> {
    match probe {
        InteropProbe::NotTried(error) => distribution + ": "@ + error@,
        InteropProbe::NotVisible => distribution + ": Windows executable not visible in WSL: "@
            + path,
        InteropProbe::NotRun(error) => distribution
            + ": exists but could not be executed from WSL ("@ + path + "): "@ + error@,
        InteropProbe::Ran => distribution + ": exists and runs from WSL ("@ + path + ")"@,
    }
}

fn tell_interop(distribution: &str, path: &str, probe: &InteropProbe) -> (r: String)
    ensures
        r@ == interop_text(distribution@, path@, *probe),
{
    let mut text: String = distribution.to_owned();
    match probe {
        InteropProbe::NotTried(error) => {
            text.append(": ");
            text.append(error.as_str());
        },
        InteropProbe::NotVisible => {
            text.append(": Windows executable not visible in WSL: ");
            text.append(path);
        },
        InteropProbe::NotRun(error) => {
            text.append(": exists but could not be executed from WSL (");
            text.append(path);
            text.append("): ");
            text.append(error.as_str());
        },
        InteropProbe::Ran => {
            text.append(": exists and runs from WSL (");
            text.append(path);
            text.append(")");
        },
    }
    text
}

/// What is told of the distributions where the program ran, or of the others.
pub open spec fn interop_texts(
    names: Seq<Seq<char>>,
    path: Seq<char>,
    probes: Seq<InteropProbe>,
    ran: bool,
) -> Seq<Seq<char>>
    decreases names.len(),
{
    if names.len() == 0 {
        Seq::empty()
    } else {
        let rest = interop_texts(names.drop_last(), path, probes, ran);
        let probe = probes[names.len() - 1];
        if (probe is Ran) == ran {
            rest.push(interop_text(names.last(), path, probe))
        } else {
            rest
        }
    }
}

/// The check of the program inside the distributions.
pub open spec fn interop_check(
    executable: Result<Seq<char>, Seq<char>>,
    names: Result<Seq<Seq<char>>, Seq<char>>,
    probes: Seq<InteropProbe>,
) -> AgentCheckView {
    match executable {
        Err(error) => AgentCheckView {
            name: "wsl_interop_exe"@,
            status: "error"@,
            detail: "current executable unavailable: "@ + error,
        },
        Ok(program) => match wsl_path(program) {
            None => AgentCheckView {
                name: "wsl_interop_exe"@,
                status: "error"@,
                detail: "current executable is not on a Windows local drive"@,
            },
            Some(path) => match names {
                Err(message) => AgentCheckView {
                    name: "wsl_interop_exe"@,
                    status: "warn"@,
                    detail: message,
                },
                Ok(list) => {
                    let errors = interop_texts(list, path, probes, false);
                    if errors.len() == 0 {
                        AgentCheckView {
                            name: "wsl_interop_exe"@,
                            status: "ok"@,
                            detail: join(interop_texts(list, path, probes, true), "; "@),
                        }
                    } else {
                        AgentCheckView {
                            name: "wsl_interop_exe"@,
                            status: "error"@,
                            detail: join(errors, "\n"@),
                        }
                    }
                },
            },
        },
    }
}

/// The path of the program as a view.
pub open spec fn executable_view(executable: Result<String, String>) -> Result<Seq<char>, Seq<char>> {
    match executable {
        Ok(path) => Ok(path@),
        Err(error) => Err(error@),
    }
}

/// The distributions as views.
pub open spec fn names_view(names: Result<Vec<String>, String>) -> Result<Seq<Seq<char>>, Seq<char>> {
    match names {
        Ok(list) => Ok(views(list@)),
        Err(message) => Err(message@),
    }
}

/// The check of the program inside the distributions, given what came of trying it in each.
pub fn check_wsl_interop_executable(
    executable: &Result<String, String>,
    distributions: &Result<Vec<String>, String>,
    probes: &[InteropProbe],
) -> (r: AgentCheck)
    requires
        distributions matches Ok(names) ==> names@.len() == probes@.len(),
    ensures
        r@ == interop_check(executable_view(*executable), names_view(*distributions), probes@),
{
    let program = match executable {
        Ok(path) => path,
        Err(error) => {
            let mut detail: String = "current executable unavailable: ".to_owned();
            detail.append(error.as_str());
            return agent_check("wsl_interop_exe", "error", detail);
        },
    };
    let path = match windows_executable_wsl_path(program.as_str()) {
        Ok(path) => path,
        Err(message) => {
            return agent_check("wsl_interop_exe", "error", message);
        },
    };
    let names = match distributions {
        Ok(names) => names,
        Err(message) => {
            return agent_check("wsl_interop_exe", "warn", message.clone());
        },
    };
    let ghost all = views(names@);
    let mut details: Vec<String> = Vec::new();
    let mut errors: Vec<String> = Vec::new();
    let mut i: usize = 0;
    proof {
        assert(views(details@) =~= interop_texts(all.take(0), path@, probes@, true));
        assert(views(errors@) =~= interop_texts(all.take(0), path@, probes@, false));
    }
    while i < names.len()
        invariant
            i <= names@.len(),
            all == views(names@),
            names@.len() == probes@.len(),
            views(details@) == interop_texts(all.take(i as int), path@, probes@, true),
            views(errors@) == interop_texts(all.take(i as int), path@, probes@, false),
        decreases names@.len() - i,
    {
        proof {
            assert(all.take(i + 1).drop_last() =~= all.take(i as int));
            assert(all.take(i + 1).last() == names@[i as int]@);
        }
        let text = tell_interop(names[i].as_str(), path.as_str(), &probes[i]);
        match &probes[i] {
            InteropProbe::Ran => push_text(&mut details, text),
            _ => push_text(&mut errors, text),
        }
        i = i + 1;
    }
    assert(all.take(i as int) =~= all);
    assert(views(errors@).len() == errors@.len());
    if errors.len() == 0 {
        agent_check("wsl_interop_exe", "ok", joined(details.as_slice(), "; "))
    } else {
        agent_check("wsl_interop_exe", "error", joined(errors.as_slice(), "\n"))
    }
}

/// A distribution is listed under its name without outer white space, where it has one and the
/// filter names it.
pub proof fn law_distributions_are_kept_by_name(
    parts: Seq<Seq<char>>,
    part: Seq<char>,
    filter: Option<Seq<char>>,
)
    ensures
        trim(part).len() > 0 && (filter is None || contains(trim(part), filter->0)) ==> kept_names(
            parts.push(part),
            filter,
        ) == kept_names(parts, filter).push(trim(part)),
        trim(part).len() == 0 || (filter is Some && !contains(trim(part), filter->0))
            ==> kept_names(parts.push(part), filter) == kept_names(parts, filter),
{
    assert(parts.push(part).drop_last() =~= parts);
}

/// A program on a drive of Windows is found under its letter in small, with its separators turned;
/// what is on no drive is not found.
pub proof fn law_drives_are_mounted_by_letter(letter: char, separator: char, rest: Seq<char>)
    requires
        letter <= '\x7f',
    ensures
        separator == '\\' || separator == '/' ==> wsl_path(seq![letter, ':', separator] + rest)
            == Some("/mnt/"@ + seq![ascii_lower(letter)] + "/"@ + replace_char(rest, '\\', "/"@)),
        separator != '\\' && separator != '/' ==> wsl_path(seq![letter, ':', separator] + rest)
            is None,
{
    let path = seq![letter, ':', separator] + rest;
    assert(path.skip(3) =~= rest);
    assert(path[0] == letter && path[1] == ':' && path[2] == separator);
    assert(to_lower(path.take(1)) =~= seq![ascii_lower(letter)]);
}

/// The program is well in WSL exactly where it ran in every distribution; each distribution in which
/// it did not run is told. No distribution at all is a warning.
pub proof fn law_the_program_has_to_run_everywhere(
    program: Seq<char>,
    names: Seq<Seq<char>>,
    probes: Seq<InteropProbe>,
)
    requires
        wsl_path(program) is Some,
        names.len() == probes.len(),
    ensures
        ({
            let check = interop_check(Ok(program), Ok(names), probes);
            let all = forall|i: int| 0 <= i < probes.len() ==> (#[trigger] probes[i]) is Ran;
            &&& check.name == "wsl_interop_exe"@
            &&& all ==> check.status == "ok"@
            &&& !all ==> check.status == "error"@
        }),
        forall|message: Seq<char>|
            (#[trigger] interop_check(Ok(program), Err(message), probes)).status == "warn"@,
        forall|message: Seq<char>|
            (#[trigger] interop_check(Err(message), Ok(names), probes)).status == "error"@,
{
    lemma_interop(names, wsl_path(program)->0, probes);
}

proof fn lemma_interop(names: Seq<Seq<char>>, path: Seq<char>, probes: Seq<InteropProbe>)
    requires
        names.len() <= probes.len(),
    ensures
        interop_texts(names, path, probes, false).len() == 0 <==> forall|i: int|
            0 <= i < names.len() ==> (#[trigger] probes[i]) is Ran,
    decreases names.len(),
{
    if names.len() > 0 {
        lemma_interop(names.drop_last(), path, probes);
    }
}

/// A failure is told by what was said of it; what was shown stands in where nothing was said.
pub proof fn law_failures_are_told_by_what_was_said(stderr: Seq<u8>, stdout: Seq<u8>)
    ensures
        trim(decoded_output(stderr)).len() > 0 ==> failure_detail(stderr, stdout)
            == normalized_detail(trim(decoded_output(stderr))),
        trim(decoded_output(stderr)).len() == 0 ==> failure_detail(stderr, stdout)
            == normalized_detail(trim(decoded_output(stdout))),
{
}

/// A probe that failed is told by all that it said and by its status; without a status that is told as
/// unknown.
pub proof fn law_failed_probes_tell_their_status(stdout: Seq<char>, stderr: Seq<char>, code: i32)
    ensures
        trim(stdout).len() == 0 && trim(stderr).len() == 0 ==> probe_detail(
            stdout,
            stderr,
            Some(code),
        ) == normalized_detail(
            "WSL interop probe exited with status "@ + signed_decimal(code as int),
        ),
        trim(stdout).len() == 0 && trim(stderr).len() == 0 ==> probe_detail(stdout, stderr, None)
            == normalized_detail("WSL interop probe exited with status "@ + "unknown"@),
        trim(stdout).len() > 0 && trim(stderr).len() > 0 ==> probe_detail(stdout, stderr, Some(code))
            == normalized_detail(
            trim(stdout) + " "@ + trim(stderr) + " (status "@ + signed_decimal(code as int) + ")"@,
        ),
        trim(stdout).len() > 0 && trim(stderr).len() == 0 ==> probe_detail(
            stdout,
            stderr,
            Some(code),
        ) == normalized_detail(trim(stdout) + " (status "@ + signed_decimal(code as int) + ")"@),
        trim(stdout).len() == 0 && trim(stderr).len() > 0 ==> probe_detail(
            stdout,
            stderr,
            Some(code),
        ) == normalized_detail(trim(stderr) + " (status "@ + signed_decimal(code as int) + ")"@),
{
    assert(trim(stdout).len() == 0 ==> trim(stdout) + trim(stderr) =~= trim(stderr));
    assert(trim(stderr).len() == 0 ==> trim(stdout) + trim(stderr) =~= trim(stdout));
}

/// What was tried of a distribution is told under its name, with the path of the program.
pub proof fn law_probes_are_told_by_distribution(
    distribution: Seq<char>,
    path: Seq<char>,
    error: String,
)
    ensures
        interop_text(distribution, path, InteropProbe::Ran) == distribution
            + ": exists and runs from WSL ("@ + path + ")"@,
        interop_text(distribution, path, InteropProbe::NotVisible) == distribution
            + ": Windows executable not visible in WSL: "@ + path,
        interop_text(distribution, path, InteropProbe::NotTried(error)) == distribution + ": "@
            + error@,
        interop_text(distribution, path, InteropProbe::NotRun(error)) == distribution
            + ": exists but could not be executed from WSL ("@ + path + "): "@ + error@,
{
}

} // verus!
