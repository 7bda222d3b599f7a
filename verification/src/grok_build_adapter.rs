//! How Grok Build is started so that the application hears of its start and its end.
use vstd::prelude::*;
use vstd::string::*;

use crate::text::{
    ascii_lower, contains, from_range, has_part, has_prefix, occurs_at, replace_char, replaced,
    starts_with, to_chars, trim, trimmed,
};

verus! {

/// The id of the adapter for Grok Build.
pub const GROK_BUILD_ADAPTER_ID: &'static str = "grok-build";

/// What `grok.cmd` holds: it hands over to the PowerShell script beside it.
pub const GROK_CMD: &'static str =
    "@echo off\r\npowershell.exe -NoLogo -NoProfile -ExecutionPolicy Bypass -File \"%~dp0grok.ps1\" %*\r\n";

/// The target is a Linux distribution under Windows.
pub open spec fn is_wsl(target_id: Seq<char>) -> bool {
    starts_with(target_id, "local:wsl:"@)
}

/// The quoted JSON text that tells of an event.
pub open spec fn event_text(name: Seq<char>) -> Seq<char> {
    "'{\"hook_event_name\":\""@ + name + "\",\"agent_adapter\":\""@ + GROK_BUILD_ADAPTER_ID@
        + "\"}'"@
}

fn event(name: &str) -> (r: String)
    ensures
        r@ == event_text(name@),
{
    let mut text: String = "'{\"hook_event_name\":\"".to_owned();
    text.append(name);
    text.append("\",\"agent_adapter\":\"");
    text.append(GROK_BUILD_ADAPTER_ID);
    text.append("\"}'");
    text
}

/// A shell command that tells of the start, runs a command, tells of its end and ends as it did.
pub open spec fn tracked_command(command: Seq<char>, hook: Seq<char>) -> Seq<char> {
    "(printf '%s' "@ + event_text("AgentProcessStart"@) + " | "@ + hook
        + " >/dev/null 2>&1 || true; "@ + command
        + "; luna_mux_agent_exit_code=$?; printf '%s' "@ + event_text("AgentProcessExit"@) + " | "@
        + hook + " >/dev/null 2>&1 || true; exit \"$luna_mux_agent_exit_code\")"@
}

/// How Grok Build is started in a terminal.
#[derive(Debug)]
pub struct ManagedAgentLaunch {
    pub command: String,
    pub target_id: String,
    pub hook_command: Option<String>,
}

/// The command line that starts Grok Build. Without a command that takes the news, a Linux
/// distribution under Windows uses the application itself: `forwarder` is its path there, quoted
/// for the shell, or the reason why it has none. Elsewhere the command runs as it is.
pub fn managed_command(launch: &ManagedAgentLaunch, forwarder: Result<String, String>) -> (r: Result<
    String,
    String,
>)
    ensures
        match launch.hook_command {
            Some(hook) => r is Ok && r->Ok_0@ == tracked_command(trim(launch.command@), hook@),
            None => if is_wsl(launch.target_id@) {
                match forwarder {
                    Ok(path) => r is Ok && r->Ok_0@ == tracked_command(
                        trim(launch.command@),
                        path@ + " hook"@,
                    ),
                    Err(reason) => r is Err && r->Err_0@ == reason@,
                }
            } else {
                r is Ok && r->Ok_0@ == trim(launch.command@)
            },
        },
{
    let command = trimmed(launch.command.as_str());
    let hook: String = match &launch.hook_command {
        Some(hook) => hook.clone(),
        None => {
            if !has_prefix(launch.target_id.as_str(), "local:wsl:") {
                return Ok(command);
            }
            match forwarder {
                Ok(path) => {
                    let mut hook: String = path;
                    hook.append(" hook");
                    hook
                },
                Err(reason) => {
                    return Err(reason);
                },
            }
        },
    };
    let mut text: String = "(printf '%s' ".to_owned();
    text.append(event("AgentProcessStart").as_str());
    text.append(" | ");
    text.append(hook.as_str());
    text.append(" >/dev/null 2>&1 || true; ");
    text.append(command.as_str());
    text.append("; luna_mux_agent_exit_code=$?; printf '%s' ");
    text.append(event("AgentProcessExit").as_str());
    text.append(" | ");
    text.append(hook.as_str());
    text.append(" >/dev/null 2>&1 || true; exit \"$luna_mux_agent_exit_code\")");
    Ok(text)
}

/// The command stands between the news of its start and the news of its end, and both go through
/// the same hook.
pub proof fn law_tracked_commands_hold_the_command(command: Seq<char>, hook: Seq<char>)
    ensures
        contains(
            tracked_command(command, hook),
            " | "@ + hook + " >/dev/null 2>&1 || true; "@ + command + "; "@,
        ),
        contains(tracked_command(command, hook), event_text("AgentProcessStart"@) + " | "@ + hook),
        contains(tracked_command(command, hook), event_text("AgentProcessExit"@) + " | "@ + hook),
{
    reveal_strlit("; ");
    reveal_strlit("; luna_mux_agent_exit_code=$?; printf '%s' ");
    let whole = tracked_command(command, hook);
    let open = "(printf '%s' "@;
    let start = event_text("AgentProcessStart"@);
    let end = event_text("AgentProcessExit"@);
    let quiet = " >/dev/null 2>&1 || true; "@;
    let code = "; luna_mux_agent_exit_code=$?; printf '%s' "@;
    let first = start + " | "@ + hook;
    assert(whole.subrange(open.len() as int, (open.len() + first.len()) as int) =~= first);
    assert(occurs_at(whole, first, open.len() as int));
    let at = open.len() + start.len();
    let middle = " | "@ + hook + quiet + command + "; "@;
    assert(code.subrange(0, 2) =~= "; "@);
    assert(whole.subrange(at as int, (at + middle.len()) as int) =~= middle);
    assert(occurs_at(whole, middle, at as int));
    let from = open.len() + first.len() + quiet.len() + command.len() + code.len();
    let last = end + " | "@ + hook;
    assert(whole.subrange(from as int, (from + last.len()) as int) =~= last);
    assert(occurs_at(whole, last, from as int));
}

/// Grok Build needs the helper on the remote side: it has no way of its own to send news.
pub fn requires_remote_hook_helper() -> (r: bool)
    ensures
        r,
{
    true
}

/// The script for POSIX shells. The paths and the adapter are quoted for the shell.
pub open spec fn posix_text(adapter: Seq<char>, executable: Seq<char>, command: Seq<char>) -> Seq<
    char,
> {
    "#!/bin/sh\nexport LUNA_MUX_AGENT_ADAPTER="@ + adapter
        + "\nexport LUNA_MUX_AGENT_PROCESS_ID=\"$$-$(date +%s)\"\nprintf '%s' "@ + event_text(
        "AgentProcessStart"@,
    ) + " | "@ + executable + " hook >/dev/null 2>&1 || true\n"@ + command
        + " \"$@\"\ncode=$?\nprintf '%s' "@ + event_text("AgentProcessExit"@) + " | "@ + executable
        + " hook >/dev/null 2>&1 || true\nexit $code\n"@
}

/// The script for POSIX shells that runs a command in place of `grok`.
pub fn posix_script(adapter: &str, executable: &str, command: &str) -> (r: String)
    ensures
        r@ == posix_text(adapter@, executable@, command@),
{
    let mut text: String = "#!/bin/sh\nexport LUNA_MUX_AGENT_ADAPTER=".to_owned();
    text.append(adapter);
    text.append("\nexport LUNA_MUX_AGENT_PROCESS_ID=\"$$-$(date +%s)\"\nprintf '%s' ");
    text.append(event("AgentProcessStart").as_str());
    text.append(" | ");
    text.append(executable);
    text.append(" hook >/dev/null 2>&1 || true\n");
    text.append(command);
    text.append(" \"$@\"\ncode=$?\nprintf '%s' ");
    text.append(event("AgentProcessExit").as_str());
    text.append(" | ");
    text.append(executable);
    text.append(" hook >/dev/null 2>&1 || true\nexit $code\n");
    text
}

/// A text between single quotes of PowerShell.
pub fn powershell_literal(value: &str) -> (r: String)
    ensures
        r@ == replace_char(value@, '\'', "''"@),
{
    replaced(value, '\'', "''")
}

/// The script for PowerShell.
pub open spec fn powershell_text(executable: Seq<char>, command: Seq<char>) -> Seq<char> {
    "$env:LUNA_MUX_AGENT_ADAPTER='"@ + GROK_BUILD_ADAPTER_ID@
        + "'\r\n$env:LUNA_MUX_AGENT_PROCESS_ID=[guid]::NewGuid().ToString('N')\r\n$forwarder='"@
        + replace_char(executable, '\'', "''"@) + "'\r\ntry { "@ + event_text("AgentProcessStart"@)
        + " | & $forwarder hook | Out-Null; & '"@ + replace_char(command, '\'', "''"@)
        + "' @args; $code=$LASTEXITCODE } finally { "@ + event_text("AgentProcessExit"@)
        + " | & $forwarder hook | Out-Null }\r\nexit $code\r\n"@
}

/// The script for PowerShell that runs a command in place of `grok`.
pub fn powershell_script(executable: &str, command: &str) -> (r: String)
    ensures
        r@ == powershell_text(executable@, command@),
{
    let mut text: String = "$env:LUNA_MUX_AGENT_ADAPTER='".to_owned();
    text.append(GROK_BUILD_ADAPTER_ID);
    text.append("'\r\n$env:LUNA_MUX_AGENT_PROCESS_ID=[guid]::NewGuid().ToString('N')\r\n$forwarder='");
    text.append(powershell_literal(executable).as_str());
    text.append("'\r\ntry { ");
    text.append(event("AgentProcessStart").as_str());
    text.append(" | & $forwarder hook | Out-Null; & '");
    text.append(powershell_literal(command).as_str());
    text.append("' @args; $code=$LASTEXITCODE } finally { ");
    text.append(event("AgentProcessExit").as_str());
    text.append(" | & $forwarder hook | Out-Null }\r\nexit $code\r\n");
    text
}

/// What the profile of PowerShell holds after the script was installed.
pub open spec fn bootstrap_with(bootstrap: Seq<char>, script: Seq<char>) -> Seq<char> {
    if contains(bootstrap, "function global:grok"@) {
        bootstrap
    } else {
        bootstrap + "function global:grok { & '"@ + replace_char(script, '\'', "''"@)
            + "' @args }\r\n"@
    }
}

/// Adds the function `grok` to the profile of PowerShell; nothing where it is there already.
pub fn with_bootstrap(bootstrap: String, script: &str) -> (r: Option<String>)
    ensures
        match r {
            Some(text) => text@ == bootstrap_with(bootstrap@, script@) && !contains(
                bootstrap@,
                "function global:grok"@,
            ),
            None => contains(bootstrap@, "function global:grok"@),
        },
{
    if has_part(bootstrap.as_str(), "function global:grok") {
        return None;
    }
    let mut text: String = bootstrap;
    text.append("function global:grok { & '");
    text.append(powershell_literal(script).as_str());
    text.append("' @args }\r\n");
    Some(text)
}

/// The function is added to the profile once.
pub proof fn law_bootstrap_is_added_once(
    bootstrap: Seq<char>,
    script: Seq<char>,
    other: Seq<char>,
)
    ensures
        bootstrap_with(bootstrap_with(bootstrap, script), other) == bootstrap_with(
            bootstrap,
            script,
        ),
{
    reveal_strlit("function global:grok");
    reveal_strlit("function global:grok { & '");
    let name = "function global:grok"@;
    let whole = bootstrap_with(bootstrap, script);
    if !contains(bootstrap, name) {
        assert("function global:grok { & '"@.subrange(0, name.len() as int) =~= name);
        let at = bootstrap.len() as int;
        assert(whole.subrange(at, at + name.len()) =~= name) by {
            assert forall|i: int| 0 <= i < name.len() implies whole[at + i] == name[i] by {
                assert(whole[at + i] == "function global:grok { & '"@[i]);
            }
        }
        assert(occurs_at(whole, name, at));
    }
}

/// The path of a file as a target sees it: a drive of Windows is mounted under `/mnt`.
pub open spec fn path_for_target(
    path: Seq<char>,
    target_id: Seq<char>,
    windows: bool,
) -> Option<Seq<char>> {
    if windows && is_wsl(target_id) {
        if has_drive(path) {
            Some(
                "/mnt/"@.push(ascii_lower(path[0])) + "/"@ + replace_char(path.skip(3), '\\', "/"@),
            )
        } else {
            None
        }
    } else {
        Some(path)
    }
}

/// The path starts with the letter of a drive.
pub open spec fn has_drive(path: Seq<char>) -> bool {
    path.len() >= 3 && (path[0] as u32) < 128 && path[1] == ':'
}

/// The path of a file as a target sees it. What follows the drive has to start with an ASCII
/// character, as the separator does.
pub fn executable_for_target(executable: &str, target_id: &str, windows: bool) -> (r: Result<
    String,
    String,
>)
    requires
        windows && is_wsl(target_id@) && has_drive(executable@) ==> (executable@[2] as u32) < 128,
    ensures
        match path_for_target(executable@, target_id@, windows) {
            Some(path) => r is Ok && r->Ok_0@ == path,
            None => r is Err && r->Err_0@ == "无法将 Windows 路径转换为 WSL 路径"@,
        },
{
    if !windows || !has_prefix(target_id, "local:wsl:") {
        return Ok(executable.to_owned());
    }
    let chars = to_chars(executable);
    let end: usize = chars.len();
    if end < 3 || (chars[0] as u32) >= 128 || chars[1] != ':' {
        return Err("无法将 Windows 路径转换为 WSL 路径".to_owned());
    }
    let mut path: String = "/mnt/".to_owned();
    let letter: char = if 'A' <= chars[0] && chars[0] <= 'Z' {
        ((chars[0] as u8) + 32) as char
    } else {
        chars[0]
    };
    path.push(letter);
    path.append("/");
    let rest = from_range(&chars, 3, end);
    assert(rest@ =~= executable@.skip(3));
    path.append(replaced(rest.as_str(), '\\', "/").as_str());
    Ok(path)
}

/// The lines that read the environment file of a terminal where there is one.
pub open spec fn environment_lines(file: Option<Seq<char>>) -> Seq<char> {
    match file {
        Some(path) => "if [ -r "@ + path + " ]; then . "@ + path + "; fi\n"@,
        None => Seq::empty(),
    }
}

/// The script for a Linux distribution under Windows. The paths and the adapter are quoted for the
/// shell.
pub open spec fn wsl_text(
    environment: Option<Seq<char>>,
    adapter: Seq<char>,
    executable: Seq<char>,
) -> Seq<char> {
    "grok() (\n"@ + environment_lines(environment) + "export LUNA_MUX_AGENT_ADAPTER="@ + adapter
        + "\nexport LUNA_MUX_AGENT_PROCESS_ID=\"$$-$(date +%s)\"\nprintf '%s' "@ + event_text(
        "AgentProcessStart"@,
    ) + " | "@ + executable
        + " hook >/dev/null 2>&1 || true\ncommand grok \"$@\"\ncode=$?\nprintf '%s' "@ + event_text(
        "AgentProcessExit"@,
    ) + " | "@ + executable + " hook >/dev/null 2>&1 || true\nexit $code\n)\n"@
}

/// The script that defines `grok` in a Linux distribution under Windows.
pub fn wsl_script(environment: Option<&str>, adapter: &str, executable: &str) -> (r: String)
    ensures
        r@ == wsl_text(
            match environment {
                Some(path) => Some(path@),
                None => None,
            },
            adapter@,
            executable@,
        ),
{
    let lines: String = match environment {
        Some(path) => {
            let mut lines: String = "if [ -r ".to_owned();
            lines.append(path);
            lines.append(" ]; then . ");
            lines.append(path);
            lines.append("; fi\n");
            lines
        },
        None => String::new(),
    };
    let mut text: String = "grok() (\n".to_owned();
    text.append(lines.as_str());
    text.append("export LUNA_MUX_AGENT_ADAPTER=");
    text.append(adapter);
    text.append("\nexport LUNA_MUX_AGENT_PROCESS_ID=\"$$-$(date +%s)\"\nprintf '%s' ");
    text.append(event("AgentProcessStart").as_str());
    text.append(" | ");
    text.append(executable);
    text.append(" hook >/dev/null 2>&1 || true\ncommand grok \"$@\"\ncode=$?\nprintf '%s' ");
    text.append(event("AgentProcessExit").as_str());
    text.append(" | ");
    text.append(executable);
    text.append(" hook >/dev/null 2>&1 || true\nexit $code\n)\n");
    text
}

/// The command that reads the script, whose path is quoted for the shell; only a Linux
/// distribution under Windows takes it.
pub fn install_wsl_manual_bootstrap(target_id: &str, script: &str) -> (r: Result<String, String>)
    ensures
        if is_wsl(target_id@) {
            r is Ok && r->Ok_0@ == ". "@ + script@
        } else {
            r is Err && r->Err_0@ == "WSL Grok Build 启动脚本只能安装到 WSL 终端"@
        },
{
    if !has_prefix(target_id, "local:wsl:") {
        return Err("WSL Grok Build 启动脚本只能安装到 WSL 终端".to_owned());
    }
    let mut text: String = ". ".to_owned();
    text.append(script);
    Ok(text)
}

/// A path is handed on as it is, but to a distribution on Windows: there a path on a drive is found
/// under the letter of the drive, and one on no drive is not found.
pub proof fn law_paths_are_turned_for_distributions(
    path: Seq<char>,
    target_id: Seq<char>,
    letter: char,
    separator: char,
    rest: Seq<char>,
)
    ensures
        path_for_target(path, target_id, false) == Some(path),
        !starts_with(target_id, "local:wsl:"@) ==> path_for_target(path, target_id, true) == Some(
            path,
        ),
        starts_with(target_id, "local:wsl:"@) && path.len() < 3 ==> path_for_target(
            path,
            target_id,
            true,
        ) is None,
        starts_with(target_id, "local:wsl:"@) && (letter as u32) < 128 ==> path_for_target(
            seq![letter, ':', separator] + rest,
            target_id,
            true,
        ) == Some("/mnt/"@.push(ascii_lower(letter)) + "/"@ + replace_char(rest, '\\', "/"@)),
{
    let whole = seq![letter, ':', separator] + rest;
    assert(whole[0] == letter && whole[1] == ':');
    assert(whole.skip(3) =~= rest);
}

/// A wrapper tells the start of the agent, runs the command with all of its arguments, tells its end,
/// and ends as the command did.
pub proof fn law_wrappers_tell_start_and_end(
    adapter: Seq<char>,
    executable: Seq<char>,
    command: Seq<char>,
)
    ensures
        ({
            let told = event_text("AgentProcessStart"@) + " | "@ + executable + " hook"@;
            let ended = event_text("AgentProcessExit"@) + " | "@ + executable + " hook"@;
            let text = posix_text(adapter, executable, command);
            let front = "#!/bin/sh\nexport LUNA_MUX_AGENT_ADAPTER="@ + adapter
                + "\nexport LUNA_MUX_AGENT_PROCESS_ID=\"$$-$(date +%s)\"\nprintf '%s' "@ + told
                + " >/dev/null 2>&1 || true\n"@;
            let back = " \"$@\"\ncode=$?\nprintf '%s' "@ + ended
                + " >/dev/null 2>&1 || true\nexit $code\n"@;
            text == front + command + back
        }),
{
    let text = posix_text(adapter, executable, command);
    reveal_strlit(" hook >/dev/null 2>&1 || true\n");
    reveal_strlit(" hook");
    reveal_strlit(" >/dev/null 2>&1 || true\n");
    reveal_strlit(" hook >/dev/null 2>&1 || true\nexit $code\n");
    reveal_strlit(" >/dev/null 2>&1 || true\nexit $code\n");
    assert(" hook >/dev/null 2>&1 || true\n"@ =~= " hook"@ + " >/dev/null 2>&1 || true\n"@);
    assert(" hook >/dev/null 2>&1 || true\nexit $code\n"@ =~= " hook"@
        + " >/dev/null 2>&1 || true\nexit $code\n"@);
    let told = event_text("AgentProcessStart"@) + " | "@ + executable + " hook"@;
    let ended = event_text("AgentProcessExit"@) + " | "@ + executable + " hook"@;
    let front = "#!/bin/sh\nexport LUNA_MUX_AGENT_ADAPTER="@ + adapter
        + "\nexport LUNA_MUX_AGENT_PROCESS_ID=\"$$-$(date +%s)\"\nprintf '%s' "@ + told
        + " >/dev/null 2>&1 || true\n"@;
    let back = " \"$@\"\ncode=$?\nprintf '%s' "@ + ended
        + " >/dev/null 2>&1 || true\nexit $code\n"@;
    assert(text =~= front + command + back);
}

/// An event names what happened and the adapter that tells it.
pub proof fn law_events_name_their_adapter(name: Seq<char>)
    ensures
        event_text(name) == "'{\"hook_event_name\":\""@ + name + "\",\"agent_adapter\":\""@
            + "grok-build"@ + "\"}'"@,
{
}

/// A command is tracked where there is a hook to tell, and in a distribution through the forwarder;
/// elsewhere it runs as it is, without outer white space.
pub proof fn law_commands_are_tracked_where_they_can_be(
    launch: &ManagedAgentLaunch,
    forwarder: Result<String, String>,
    r: Result<String, String>,
)
    requires
        managed_command.ensures((launch, forwarder), r),
    ensures
        ({
            let own = trim(launch.command@);
            let wsl = starts_with(launch.target_id@, "local:wsl:"@);
            &&& launch.hook_command matches Some(hook) ==> r is Ok && r->Ok_0@ == tracked_command(
                own,
                hook@,
            )
            &&& launch.hook_command is None && !wsl ==> r is Ok && r->Ok_0@ == own
            &&& launch.hook_command is None && wsl ==> (r is Ok <==> forwarder is Ok)
            &&& launch.hook_command is None && wsl && forwarder is Ok ==> r->Ok_0@
                == tracked_command(own, forwarder->Ok_0@ + " hook"@)
        }),
{
}

/// In a distribution the wrapper reads the environment of its terminal first, where there is one, tells
/// the start, runs the command with all of its arguments, tells the end, and ends as the command did.
pub proof fn law_distribution_wrappers_tell_start_and_end(
    path: Seq<char>,
    adapter: Seq<char>,
    executable: Seq<char>,
)
    ensures
        ({
            let start = event_text("AgentProcessStart"@) + " | "@ + executable;
            let end = event_text("AgentProcessExit"@) + " | "@ + executable;
            let inner = "export LUNA_MUX_AGENT_ADAPTER="@ + adapter
                + "\nexport LUNA_MUX_AGENT_PROCESS_ID=\"$$-$(date +%s)\"\nprintf '%s' "@ + start
                + " hook >/dev/null 2>&1 || true\ncommand grok \"$@\"\ncode=$?\nprintf '%s' "@
                + end + " hook >/dev/null 2>&1 || true\nexit $code\n)\n"@;
            &&& wsl_text(None, adapter, executable) == "grok() (\n"@ + inner
            &&& wsl_text(Some(path), adapter, executable) == "grok() (\n"@ + ("if [ -r "@ + path
                + " ]; then . "@ + path + "; fi\n"@) + inner
        }),
{
    let start = event_text("AgentProcessStart"@) + " | "@ + executable;
    let end = event_text("AgentProcessExit"@) + " | "@ + executable;
    let inner = "export LUNA_MUX_AGENT_ADAPTER="@ + adapter
        + "\nexport LUNA_MUX_AGENT_PROCESS_ID=\"$$-$(date +%s)\"\nprintf '%s' "@ + start
        + " hook >/dev/null 2>&1 || true\ncommand grok \"$@\"\ncode=$?\nprintf '%s' "@ + end
        + " hook >/dev/null 2>&1 || true\nexit $code\n)\n"@;
    assert(wsl_text(None, adapter, executable) =~= "grok() (\n"@ + inner);
    assert(wsl_text(Some(path), adapter, executable) =~= "grok() (\n"@ + ("if [ -r "@ + path
        + " ]; then . "@ + path + "; fi\n"@) + inner);
}

/// In a PowerShell the wrapper tells the start, runs the command with all of its arguments, and tells
/// the end whatever happens; both names stand between quotes that they cannot leave.
pub proof fn law_powershell_wrappers_tell_start_and_end(executable: Seq<char>, command: Seq<char>)
    ensures
        ({
            let quoted = seq!['\''] + replace_char(command, '\'', "''"@) + seq!['\''];
            let forwarder = seq!['\''] + replace_char(executable, '\'', "''"@) + seq!['\''];
            powershell_text(executable, command) == "$env:LUNA_MUX_AGENT_ADAPTER='grok-build'\r\n$env:LUNA_MUX_AGENT_PROCESS_ID=[guid]::NewGuid().ToString('N')\r\n$forwarder="@
                + forwarder + "\r\ntry { "@ + event_text("AgentProcessStart"@)
                + " | & $forwarder hook | Out-Null; & "@ + quoted
                + " @args; $code=$LASTEXITCODE } finally { "@ + event_text("AgentProcessExit"@)
                + " | & $forwarder hook | Out-Null }\r\nexit $code\r\n"@
        }),
{
    reveal_strlit("$env:LUNA_MUX_AGENT_ADAPTER='");
    reveal_strlit("grok-build");
    reveal_strlit(
        "'\r\n$env:LUNA_MUX_AGENT_PROCESS_ID=[guid]::NewGuid().ToString('N')\r\n$forwarder='",
    );
    reveal_strlit(
        "$env:LUNA_MUX_AGENT_ADAPTER='grok-build'\r\n$env:LUNA_MUX_AGENT_PROCESS_ID=[guid]::NewGuid().ToString('N')\r\n$forwarder=",
    );
    assert("$env:LUNA_MUX_AGENT_ADAPTER='"@ + "grok-build"@
        + "'\r\n$env:LUNA_MUX_AGENT_PROCESS_ID=[guid]::NewGuid().ToString('N')\r\n$forwarder='"@
        =~= "$env:LUNA_MUX_AGENT_ADAPTER='grok-build'\r\n$env:LUNA_MUX_AGENT_PROCESS_ID=[guid]::NewGuid().ToString('N')\r\n$forwarder="@
        + seq!['\'']);
    reveal_strlit("'\r\ntry { ");
    reveal_strlit("\r\ntry { ");
    assert("'\r\ntry { "@ =~= seq!['\''] + "\r\ntry { "@);
    reveal_strlit(" | & $forwarder hook | Out-Null; & '");
    reveal_strlit(" | & $forwarder hook | Out-Null; & ");
    assert(" | & $forwarder hook | Out-Null; & '"@ =~= " | & $forwarder hook | Out-Null; & "@
        + seq!['\'']);
    reveal_strlit("' @args; $code=$LASTEXITCODE } finally { ");
    reveal_strlit(" @args; $code=$LASTEXITCODE } finally { ");
    assert("' @args; $code=$LASTEXITCODE } finally { "@ =~= seq!['\'']
        + " @args; $code=$LASTEXITCODE } finally { "@);
    let quoted = seq!['\''] + replace_char(command, '\'', "''"@) + seq!['\''];
    let forwarder = seq!['\''] + replace_char(executable, '\'', "''"@) + seq!['\''];
    assert(powershell_text(executable, command) =~= "$env:LUNA_MUX_AGENT_ADAPTER='grok-build'\r\n$env:LUNA_MUX_AGENT_PROCESS_ID=[guid]::NewGuid().ToString('N')\r\n$forwarder="@
        + forwarder + "\r\ntry { "@ + event_text("AgentProcessStart"@)
        + " | & $forwarder hook | Out-Null; & "@ + quoted
        + " @args; $code=$LASTEXITCODE } finally { "@ + event_text("AgentProcessExit"@)
        + " | & $forwarder hook | Out-Null }\r\nexit $code\r\n"@);
}

} // verus!
