//! What each operation does, told by its name: which requests it takes, and what it brings about.
use vstd::prelude::*;
use vstd::string::*;
use vstd::utf8::encode_utf8;

use crate::control_catalog::Operation;
use crate::control_contract::{ControlErrorCode, ControlRequest};
use crate::control_effects::{
    fits, fulfils, refusal, ControlEffect, OperationArguments, ParsedArguments,
};
use crate::control_permissions::lemma_names;
use crate::control_replies::{is_internal, reply_of, EffectOutcome};
use crate::control_requests::{runtime_with, RuntimeCapabilities};
use crate::json::{JsonNumber, JsonView};
use crate::text::trim;

verus! {

/// A request for the operation with this name has to name the resource that it is about.
pub open spec fn names_a_resource(name: Seq<char>) -> bool {
    ||| name == "agents.get_status"@
    ||| name == "agents.send_task"@
    ||| name == "agents.interrupt"@
    ||| name == "mux.session.update"@
    ||| name == "mux.layout.set"@
    ||| name == "mux.pane.create"@
    ||| name == "mux.pane.update"@
    ||| name == "terminal.runtime.output.read"@
    ||| name == "terminal.runtime.write"@
    ||| name == "terminal.runtime.resize"@
    ||| name == "terminal.runtime.flow.set"@
    ||| name == "terminal.runtime.interrupt"@
    ||| name == "terminal.runtime.close"@
    ||| name == "transfer.enqueue"@
    ||| name == "transfers.list"@
    ||| name == "transfer.cancel"@
    ||| name == "tunnel.start"@
    ||| name == "tunnels.list"@
    ||| name == "tunnel.profiles.list"@
    ||| name == "tunnel.stop"@
    ||| name == "browser.navigate"@
    ||| name == "browser.snapshot"@
    ||| name == "browser.screenshot"@
    ||| name == "browser.click"@
    ||| name == "browser.type"@
    ||| name == "browser.press"@
    ||| name == "browser.scroll"@
    ||| name == "browser.evaluate"@
    ||| name == "browser.wait"@
    ||| name == "browser.resize"@
    ||| name == "browser.close"@
}

/// The operation with this name takes no arguments.
pub open spec fn takes_nothing(name: Seq<char>) -> bool {
    ||| name == "settings.appearance.get"@
    ||| name == "connections.list"@
    ||| name == "agents.list"@
    ||| name == "agents.get_status"@
    ||| name == "agents.interrupt"@
    ||| name == "transfers.list"@
    ||| name == "transfer.cancel"@
    ||| name == "tunnels.list"@
    ||| name == "tunnel.stop"@
    ||| name == "browser.runtimes.list"@
    ||| name == "browser.snapshot"@
    ||| name == "browser.screenshot"@
    ||| name == "browser.close"@
}

/// The arguments of the operation with this name are read as a whole.
pub open spec fn takes_typed_arguments(name: Seq<char>) -> bool {
    ||| name == "settings.theme.set"@
    ||| name == "settings.terminal.set"@
    ||| name == "diagnostics.run"@
    ||| name == "diagnostics.repair"@
    ||| name == "agents.send_task"@
    ||| name == "mux.session.update"@
    ||| name == "mux.layout.set"@
    ||| name == "mux.pane.create"@
    ||| name == "mux.pane.update"@
    ||| name == "transfer.enqueue"@
    ||| name == "tunnel.start"@
    ||| name == "tunnel.profiles.list"@
    ||| name == "browser.click"@
    ||| name == "browser.type"@
    ||| name == "browser.press"@
    ||| name == "browser.scroll"@
    ||| name == "browser.evaluate"@
    ||| name == "browser.wait"@
}

/// The name of the operation that an effect belongs to.
pub open spec fn effect_name(effect: ControlEffect) -> Seq<char> {
    match effect {
        ControlEffect::ReadAppearance => "settings.appearance.get"@,
        ControlEffect::SetTheme { .. } => "settings.theme.set"@,
        ControlEffect::SetTerminal { .. } => "settings.terminal.set"@,
        ControlEffect::RunDiagnostics { .. } => "diagnostics.run"@,
        ControlEffect::Repair { .. } => "diagnostics.repair"@,
        ControlEffect::ListConnections => "connections.list"@,
        ControlEffect::ListAgents => "agents.list"@,
        ControlEffect::AgentStatus { .. } => "agents.get_status"@,
        ControlEffect::SendTask { .. } => "agents.send_task"@,
        ControlEffect::InterruptAgent { .. } => "agents.interrupt"@,
        ControlEffect::ListSessions => "mux.sessions.list"@,
        ControlEffect::UpdateSession { .. } => "mux.session.update"@,
        ControlEffect::SetLayout { .. } => "mux.layout.set"@,
        ControlEffect::ListPanes { .. } => "mux.panes.list"@,
        ControlEffect::CreatePane { .. } => "mux.pane.create"@,
        ControlEffect::UpdatePane { .. } => "mux.pane.update"@,
        ControlEffect::ListTargets => "terminal.targets.list"@,
        ControlEffect::ListRuntimes => "terminal.runtimes.list"@,
        ControlEffect::ReadOutput { .. } => "terminal.runtime.output.read"@,
        ControlEffect::WriteRuntime { .. } => "terminal.runtime.write"@,
        ControlEffect::ResizeRuntime { .. } => "terminal.runtime.resize"@,
        ControlEffect::SetPaused { .. } => "terminal.runtime.flow.set"@,
        ControlEffect::InterruptRuntime { .. } => "terminal.runtime.interrupt"@,
        ControlEffect::CloseRuntime { .. } => "terminal.runtime.close"@,
        ControlEffect::EnqueueTransfer { .. } => "transfer.enqueue"@,
        ControlEffect::ListTransfers { .. } => "transfers.list"@,
        ControlEffect::CancelTransfer { .. } => "transfer.cancel"@,
        ControlEffect::StartTunnel { .. } => "tunnel.start"@,
        ControlEffect::ListTunnels { .. } => "tunnels.list"@,
        ControlEffect::ListProfiles { .. } => "tunnel.profiles.list"@,
        ControlEffect::StopTunnel { .. } => "tunnel.stop"@,
        ControlEffect::ListBrowsers => "browser.runtimes.list"@,
        ControlEffect::Navigate { .. } => "browser.navigate"@,
        ControlEffect::Snapshot { .. } => "browser.snapshot"@,
        ControlEffect::Screenshot { .. } => "browser.screenshot"@,
        ControlEffect::Click { .. } => "browser.click"@,
        ControlEffect::TypeText { .. } => "browser.type"@,
        ControlEffect::Press { .. } => "browser.press"@,
        ControlEffect::Scroll { .. } => "browser.scroll"@,
        ControlEffect::Evaluate { .. } => "browser.evaluate"@,
        ControlEffect::Wait { .. } => "browser.wait"@,
        ControlEffect::ResizeBrowser { .. } => "browser.resize"@,
        ControlEffect::CloseBrowser { .. } => "browser.close"@,
    }
}

/// The id of the resource that an effect is brought about on, where it is about one.
pub open spec fn effect_id(effect: ControlEffect) -> Option<Seq<char>> {
    match effect {
        ControlEffect::Repair { runtime_id, .. } => Some(runtime_id@),
        ControlEffect::AgentStatus { agent_id, .. } => Some(agent_id@),
        ControlEffect::SendTask { agent_id, .. } => Some(agent_id@),
        ControlEffect::InterruptAgent { agent_id, .. } => Some(agent_id@),
        ControlEffect::UpdateSession { session_id, .. } => Some(session_id@),
        ControlEffect::SetLayout { session_id, .. } => Some(session_id@),
        ControlEffect::CreatePane { session_id, .. } => Some(session_id@),
        ControlEffect::UpdatePane { pane_id, .. } => Some(pane_id@),
        ControlEffect::ReadOutput { runtime_id, .. } => Some(runtime_id@),
        ControlEffect::WriteRuntime { runtime_id, .. } => Some(runtime_id@),
        ControlEffect::ResizeRuntime { runtime_id, .. } => Some(runtime_id@),
        ControlEffect::SetPaused { runtime_id, .. } => Some(runtime_id@),
        ControlEffect::InterruptRuntime { runtime_id, .. } => Some(runtime_id@),
        ControlEffect::CloseRuntime { runtime_id, .. } => Some(runtime_id@),
        ControlEffect::EnqueueTransfer { runtime_id, .. } => Some(runtime_id@),
        ControlEffect::ListTransfers { runtime_id, .. } => Some(runtime_id@),
        ControlEffect::CancelTransfer { transfer_id, .. } => Some(transfer_id@),
        ControlEffect::StartTunnel { runtime_id, .. } => Some(runtime_id@),
        ControlEffect::ListTunnels { runtime_id, .. } => Some(runtime_id@),
        ControlEffect::StopTunnel { tunnel_id, .. } => Some(tunnel_id@),
        ControlEffect::Navigate { runtime_id, .. } => Some(runtime_id@),
        ControlEffect::Snapshot { runtime_id, .. } => Some(runtime_id@),
        ControlEffect::Screenshot { runtime_id, .. } => Some(runtime_id@),
        ControlEffect::Click { runtime_id, .. } => Some(runtime_id@),
        ControlEffect::TypeText { runtime_id, .. } => Some(runtime_id@),
        ControlEffect::Press { runtime_id, .. } => Some(runtime_id@),
        ControlEffect::Scroll { runtime_id, .. } => Some(runtime_id@),
        ControlEffect::Evaluate { runtime_id, .. } => Some(runtime_id@),
        ControlEffect::Wait { runtime_id, .. } => Some(runtime_id@),
        ControlEffect::ResizeBrowser { runtime_id, .. } => Some(runtime_id@),
        ControlEffect::CloseBrowser { runtime_id, .. } => Some(runtime_id@),
        _ => None,
    }
}

/// An operation brings about its own effect and no other.
pub proof fn law_operations_have_their_own_effect(
    effect: ControlEffect,
    operation: Operation,
    request: ControlRequest,
    given: OperationArguments,
)
    requires
        fulfils(effect, operation, request, given),
    ensures
        effect_name(effect) == operation.text(),
{
}

/// What an operation does, it does to the resource that the request names, without outer white
/// space in its id; only a repair takes the id as it stands.
pub proof fn law_effects_reach_the_named_resource(
    effect: ControlEffect,
    operation: Operation,
    request: ControlRequest,
    given: OperationArguments,
    parsed: ParsedArguments,
    runtimes: Result<Vec<RuntimeCapabilities>, String>,
)
    requires
        refusal(operation, request, parsed, runtimes) is None,
        fulfils(effect, operation, request, given),
    ensures
        names_a_resource(operation.text()) && operation.text() != "tunnel.profiles.list"@
            ==> effect_id(effect) == Some(trim(request.resource->0.id@)),
        operation.text() == "diagnostics.repair"@ ==> effect_id(effect) == Some(
            request.resource->0.id@,
        ),
        !names_a_resource(operation.text()) && operation.text() != "diagnostics.repair"@
            ==> effect_id(effect) is None,
{
    lemma_names(operation);
}

/// The argument is a text.
pub open spec fn has_text(arguments: JsonView, name: Seq<char>) -> bool {
    arguments.get(name) matches Some(JsonView::Text(_))
}

/// The argument is a whole number from 1 to 10000.
pub open spec fn has_size(arguments: JsonView, name: Seq<char>) -> bool {
    arguments.get(name) matches Some(JsonView::Number(JsonNumber::Whole(n))) && 1 <= n <= 10000
}

/// The argument is left out or is a whole number.
pub open spec fn may_have_number(arguments: JsonView, name: Seq<char>) -> bool {
    match arguments.get(name) {
        None => true,
        Some(value) => value matches JsonView::Number(JsonNumber::Whole(_)),
    }
}

/// The argument is true or false.
pub open spec fn has_flag(arguments: JsonView, name: Seq<char>) -> bool {
    arguments.get(name) matches Some(JsonView::Bool(_))
}

/// The arguments that the operation with this name reads one by one are there and of their kind.
pub open spec fn has_its_fields(name: Seq<char>, arguments: JsonView) -> bool {
    &&& name == "terminal.runtime.write"@ ==> has_text(arguments, "data"@)
    &&& name == "browser.navigate"@ ==> has_text(arguments, "url"@) && arguments.get_text(
        "url"@,
    )->0.len() > 0
    &&& name == "terminal.runtime.resize"@ ==> has_size(arguments, "cols"@) && has_size(
        arguments,
        "rows"@,
    )
    &&& name == "browser.resize"@ ==> has_size(arguments, "width"@) && has_size(
        arguments,
        "height"@,
    )
    &&& name == "terminal.runtime.flow.set"@ ==> has_flag(arguments, "paused"@)
    &&& name == "terminal.runtime.output.read"@ ==> may_have_number(arguments, "fromCursor"@)
        && may_have_number(arguments, "maxBytes"@)
}

/// The runtime that a request names can do what the operation with this name asks of it.
pub open spec fn has_able_runtime(
    name: Seq<char>,
    id: Seq<char>,
    runtimes: Result<Vec<RuntimeCapabilities>, String>,
) -> bool {
    &&& name == "transfer.enqueue"@ ==> (runtimes matches Ok(list) && runtime_with(
        list@,
        id,
    ) matches Some(runtime) && runtime.remote_files)
    &&& name == "tunnel.start"@ || name == "tunnel.profiles.list"@ ==> (runtimes matches Ok(list)
        && runtime_with(list@, id) matches Some(runtime) && runtime.port_forwarding)
}

/// A request past the door is taken exactly where it names the resource that it has to name, brings
/// the arguments that its operation asks for and no others where it asks for none, and where the
/// runtime can do what is asked of it. What is wrong with its own words is told as such.
pub proof fn law_complete_requests_are_taken(
    operation: Operation,
    request: ControlRequest,
    parsed: ParsedArguments,
    runtimes: Result<Vec<RuntimeCapabilities>, String>,
)
    requires
        parsed is Ok ==> fits(operation, parsed->Ok_0),
    ensures
        ({
            let name = operation.text();
            let arguments = request.arguments.view();
            let refused = refusal(operation, request, parsed, runtimes);
            let named = names_a_resource(name) ==> (request.resource matches Some(resource) && trim(
                resource.id@,
            ).len() > 0);
            let bare = takes_nothing(name) ==> (arguments matches JsonView::Object(fields)
                && fields.len() == 0);
            let readable = takes_typed_arguments(name) ==> parsed is Ok;
            let repairs = name == "diagnostics.repair"@ ==> request.resource is Some;
            let task = name == "agents.send_task"@ ==> (parsed matches Ok(OperationArguments::Task {
                task,
            }) ==> trim(task@).len() > 0);
            let fields = has_its_fields(name, arguments);
            let able = named ==> has_able_runtime(name, trim(request.resource->0.id@), runtimes);
            &&& refused is None <==> named && bare && readable && repairs && task && fields && able
            &&& !named || !bare || ((!readable || !repairs || !task || !fields) && able)
                ==> refused->0.code == ControlErrorCode::InvalidArguments
        }),
{
    lemma_names(operation);
    let name = operation.text();
    let arguments = request.arguments.view();
    match operation {
        Operation::SettingsAppearanceGet => {},
        Operation::SettingsThemeSet => {},
        Operation::SettingsTerminalSet => {},
        Operation::DiagnosticsRun => {},
        Operation::DiagnosticsRepair => {},
        Operation::ConnectionsList => {},
        Operation::AgentsList => {},
        Operation::AgentsGetStatus => {},
        Operation::AgentsSendTask => {},
        Operation::AgentsInterrupt => {},
        Operation::MuxSessionsList => {},
        Operation::MuxSessionUpdate => {},
        Operation::MuxLayoutSet => {},
        Operation::MuxPanesList => {},
        Operation::MuxPaneCreate => {},
        Operation::MuxPaneUpdate => {},
        Operation::TerminalTargetsList => {},
        Operation::TerminalRuntimesList => {},
        Operation::TerminalRuntimeOutputRead => {},
        Operation::TerminalRuntimeWrite => {},
        Operation::TerminalRuntimeResize => {},
        Operation::TerminalRuntimeFlowSet => {},
        Operation::TerminalRuntimeInterrupt => {},
        Operation::TerminalRuntimeClose => {},
        Operation::TransferEnqueue => {},
        Operation::TransfersList => {},
        Operation::TransferCancel => {},
        Operation::TunnelStart => {},
        Operation::TunnelsList => {},
        Operation::TunnelProfilesList => {},
        Operation::TunnelStop => {},
        Operation::BrowserRuntimesList => {},
        Operation::BrowserNavigate => {},
        Operation::BrowserSnapshot => {},
        Operation::BrowserScreenshot => {},
        Operation::BrowserClick => {},
        Operation::BrowserType => {},
        Operation::BrowserPress => {},
        Operation::BrowserScroll => {},
        Operation::BrowserEvaluate => {},
        Operation::BrowserWait => {},
        Operation::BrowserResize => {},
        Operation::BrowserClose => {},
    }
}

/// What an operation reads of its arguments goes into its effect as it is: the text that is
/// written, the address, the sizes, the pause, and where reading starts. Reading starts at the
/// beginning and takes 65536 bytes where nothing else is asked for.
pub proof fn law_arguments_reach_the_effect(
    effect: ControlEffect,
    operation: Operation,
    request: ControlRequest,
    given: OperationArguments,
    parsed: ParsedArguments,
    runtimes: Result<Vec<RuntimeCapabilities>, String>,
)
    requires
        refusal(operation, request, parsed, runtimes) is None,
        fulfils(effect, operation, request, given),
    ensures
        ({
            let arguments = request.arguments.view();
            match effect {
                ControlEffect::WriteRuntime { data, .. } => arguments.get("data"@) == Some(
                    JsonView::Text(data@),
                ),
                ControlEffect::Navigate { url, .. } => arguments.get("url"@) == Some(
                    JsonView::Text(url@),
                ),
                ControlEffect::ResizeRuntime { cols, rows, .. } => arguments.get("cols"@) == Some(
                    JsonView::Number(JsonNumber::Whole(cols as u64)),
                ) && arguments.get("rows"@) == Some(
                    JsonView::Number(JsonNumber::Whole(rows as u64)),
                ),
                ControlEffect::ResizeBrowser { width, height, .. } => arguments.get("width"@)
                    == Some(JsonView::Number(JsonNumber::Whole(width as u64))) && arguments.get(
                    "height"@,
                ) == Some(JsonView::Number(JsonNumber::Whole(height as u64))),
                ControlEffect::SetPaused { paused, .. } => arguments.get("paused"@) == Some(
                    JsonView::Bool(paused),
                ),
                ControlEffect::ListPanes { mux_session_id } => match arguments.get(
                    "muxSessionId"@,
                ) {
                    Some(JsonView::Text(id)) => mux_session_id is Some && mux_session_id->0@ == id,
                    _ => mux_session_id is None,
                },
                ControlEffect::ReadOutput { from_cursor, max_bytes, .. } => {
                    let start = match arguments.get("fromCursor"@) {
                        Some(value) => value == JsonView::Number(JsonNumber::Whole(from_cursor)),
                        None => from_cursor == 0,
                    };
                    let size = match arguments.get("maxBytes"@) {
                        Some(JsonView::Number(JsonNumber::Whole(n))) => (4 <= n <= 1048576
                            ==> max_bytes == n) && (n < 4 ==> max_bytes == 4) && (n > 1048576
                            ==> max_bytes == 1048576),
                        Some(_) => false,
                        None => max_bytes == 65536,
                    };
                    start && size
                },
                _ => true,
            }
        }),
{
}

/// Arguments that were read as a whole reach the effect unchanged.
pub proof fn law_typed_arguments_reach_the_effect(
    effect: ControlEffect,
    operation: Operation,
    request: ControlRequest,
    given: OperationArguments,
)
    requires
        fits(operation, given),
        fulfils(effect, operation, request, given),
    ensures
        match given {
            OperationArguments::Untyped => true,
            OperationArguments::Theme { theme } => effect == (ControlEffect::SetTheme { theme }),
            OperationArguments::Terminal { settings } => effect == (ControlEffect::SetTerminal {
                settings,
            }),
            OperationArguments::Diagnostics { filter } => effect matches
                ControlEffect::RunDiagnostics { filter: asked } && (filter is None
                || trim(filter->0@).len() == 0 ==> asked is None) && (filter is Some && trim(
                filter->0@,
            ).len() > 0 ==> asked is Some && asked->0@ == filter->0@),
            OperationArguments::Repair { action } => effect matches ControlEffect::Repair {
                action: asked,
                ..
            } && asked == action,
            OperationArguments::Task { task } => effect matches ControlEffect::SendTask {
                task: asked,
                ..
            } && asked == task,
            OperationArguments::Session { name, root_path } => effect matches
                ControlEffect::UpdateSession { name: n, root_path: p, .. } && n == name && p
                == root_path,
            OperationArguments::Layout { layout } => effect matches ControlEffect::SetLayout {
                layout: asked,
                ..
            } && asked == layout,
            OperationArguments::PaneCreate { create } => effect matches ControlEffect::CreatePane {
                create: asked,
                ..
            } && asked == create,
            OperationArguments::PaneUpdate { update } => effect matches ControlEffect::UpdatePane {
                update: asked,
                ..
            } && asked == update,
            OperationArguments::Transfer { transfer } => effect matches
                ControlEffect::EnqueueTransfer { transfer: asked, .. } && asked == transfer,
            OperationArguments::TunnelStart { profile_id } => effect matches
                ControlEffect::StartTunnel { profile_id: asked, .. } && asked == profile_id,
            OperationArguments::Profiles { bookmark_id } => effect == (
            ControlEffect::ListProfiles { bookmark_id }),
            OperationArguments::Selector { selector } => effect matches ControlEffect::Click {
                selector: asked,
                ..
            } && asked == selector,
            OperationArguments::TypeText { selector, text, clear } => effect matches
                ControlEffect::TypeText { selector: s, text: t, clear: c, .. } && s == selector && t
                == text && c == clear,
            OperationArguments::Press { key } => effect matches ControlEffect::Press {
                key: asked,
                ..
            } && asked == key,
            OperationArguments::Scroll { scroll } => effect matches ControlEffect::Scroll {
                scroll: asked,
                ..
            } && asked == scroll,
            OperationArguments::Evaluate { expression } => effect matches ControlEffect::Evaluate {
                expression: asked,
                ..
            } && asked == expression,
            OperationArguments::Wait { selector, timeout_ms } => effect matches
                ControlEffect::Wait { selector: s, timeout_ms: t, .. } && s == selector && t
                == timeout_ms,
        },
{
}

/// A reply that is one field.
pub open spec fn says(reply: JsonView, name: Seq<char>, value: JsonView) -> bool {
    reply == JsonView::Object(seq![(name, value)])
}

/// What was done is told: how many bytes went through, what was resized to what, and the flag, the
/// text or the value that came of it.
pub proof fn law_replies_tell_what_was_done(effect: ControlEffect, outcome: EffectOutcome)
    requires
        !(outcome is Failed),
    ensures
        ({
            let reply = reply_of(effect, outcome);
            let flag = match outcome {
                EffectOutcome::Flag(b) => JsonView::Bool(b),
                _ => JsonView::Null,
            };
            let text = match outcome {
                EffectOutcome::Text(s) => JsonView::Text(s@),
                _ => JsonView::Null,
            };
            let value = match outcome {
                EffectOutcome::Value(v) => v.view(),
                _ => JsonView::Null,
            };
            let done = JsonView::Bool(true);
            match effect {
                ControlEffect::SetTheme { .. } => says(reply, "theme"@, value),
                ControlEffect::SendTask { task, .. } => reply == JsonView::Object(
                    seq![
                        (
                            "acceptedBytes"@,
                            JsonView::Number(
                                JsonNumber::Whole(encode_utf8(task@).len() as usize as u64),
                            ),
                        ),
                        ("runtimeId"@, text),
                    ],
                ),
                ControlEffect::InterruptAgent { .. } => reply == JsonView::Object(
                    seq![("interrupted"@, done), ("runtimeId"@, text)],
                ),
                ControlEffect::WriteRuntime { data, .. } => says(
                    reply,
                    "acceptedBytes"@,
                    JsonView::Number(JsonNumber::Whole(encode_utf8(data@).len() as usize as u64)),
                ),
                ControlEffect::ResizeRuntime { cols, rows, .. } => reply == JsonView::Object(
                    seq![
                        ("cols"@, JsonView::Number(JsonNumber::Whole(cols as u64))),
                        ("rows"@, JsonView::Number(JsonNumber::Whole(rows as u64))),
                    ],
                ),
                ControlEffect::SetPaused { paused, .. } => says(
                    reply,
                    "paused"@,
                    JsonView::Bool(paused),
                ),
                ControlEffect::InterruptRuntime { .. } => says(reply, "interrupted"@, done),
                ControlEffect::CloseRuntime { .. } => says(reply, "closed"@, done),
                ControlEffect::CancelTransfer { .. } => says(reply, "cancelled"@, flag),
                ControlEffect::StopTunnel { .. } => says(reply, "stopped"@, flag),
                ControlEffect::Navigate { url, .. } => reply == JsonView::Object(
                    seq![("navigated"@, done), ("url"@, JsonView::Text(url@))],
                ),
                ControlEffect::Screenshot { .. } => says(reply, "dataUrl"@, text),
                ControlEffect::Click { .. } => says(reply, "clicked"@, flag),
                ControlEffect::TypeText { text: typed, .. } => reply == JsonView::Object(
                    seq![
                        (
                            "acceptedBytes"@,
                            JsonView::Number(
                                JsonNumber::Whole(encode_utf8(typed@).len() as usize as u64),
                            ),
                        ),
                        ("typed"@, flag),
                    ],
                ),
                ControlEffect::Press { .. } => says(reply, "pressed"@, done),
                ControlEffect::Scroll { .. } => says(reply, "scrolled"@, done),
                ControlEffect::Wait { .. } => says(reply, "found"@, flag),
                ControlEffect::ResizeBrowser { width, height, .. } => reply == JsonView::Object(
                    seq![
                        ("height"@, JsonView::Number(JsonNumber::Whole(height as u64))),
                        ("width"@, JsonView::Number(JsonNumber::Whole(width as u64))),
                    ],
                ),
                ControlEffect::CloseBrowser { .. } => says(reply, "closed"@, done),
                _ => reply == value,
            }
        }),
{
}

/// The failure of what the application does by itself is its own; the failure of what a terminal, a
/// transfer, a tunnel or a browser should have done is that of the other side.
pub proof fn law_failures_are_told_by_their_side(effect: ControlEffect)
    ensures
        ({
            let name = effect_name(effect);
            let outside = name == "agents.send_task"@ || name == "agents.interrupt"@ || name
                == "terminal.runtime.output.read"@ || name == "terminal.runtime.write"@ || name
                == "terminal.runtime.resize"@ || name == "terminal.runtime.flow.set"@ || name
                == "terminal.runtime.interrupt"@ || name == "terminal.runtime.close"@ || name
                == "transfer.enqueue"@ || name == "transfers.list"@ || name == "transfer.cancel"@
                || name == "tunnel.start"@ || name == "tunnels.list"@ || name == "tunnel.stop"@
                || name == "browser.runtimes.list"@ || name == "browser.navigate"@ || name
                == "browser.snapshot"@ || name == "browser.screenshot"@ || name == "browser.click"@
                || name == "browser.type"@ || name == "browser.press"@ || name == "browser.scroll"@
                || name == "browser.evaluate"@ || name == "browser.wait"@ || name
                == "browser.resize"@ || name == "browser.close"@;
            is_internal(effect) <==> !outside
        }),
{
    lemma_names(Operation::SettingsAppearanceGet);
    lemma_names(Operation::SettingsThemeSet);
    lemma_names(Operation::SettingsTerminalSet);
    lemma_names(Operation::DiagnosticsRun);
    lemma_names(Operation::DiagnosticsRepair);
    lemma_names(Operation::ConnectionsList);
    lemma_names(Operation::AgentsList);
    lemma_names(Operation::AgentsGetStatus);
    lemma_names(Operation::AgentsSendTask);
    lemma_names(Operation::AgentsInterrupt);
    lemma_names(Operation::MuxSessionsList);
    lemma_names(Operation::MuxSessionUpdate);
    lemma_names(Operation::MuxLayoutSet);
    lemma_names(Operation::MuxPanesList);
    lemma_names(Operation::MuxPaneCreate);
    lemma_names(Operation::MuxPaneUpdate);
    lemma_names(Operation::TerminalTargetsList);
    lemma_names(Operation::TerminalRuntimesList);
    lemma_names(Operation::TerminalRuntimeOutputRead);
    lemma_names(Operation::TerminalRuntimeWrite);
    lemma_names(Operation::TerminalRuntimeResize);
    lemma_names(Operation::TerminalRuntimeFlowSet);
    lemma_names(Operation::TerminalRuntimeInterrupt);
    lemma_names(Operation::TerminalRuntimeClose);
    lemma_names(Operation::TransferEnqueue);
    lemma_names(Operation::TransfersList);
    lemma_names(Operation::TransferCancel);
    lemma_names(Operation::TunnelStart);
    lemma_names(Operation::TunnelsList);
    lemma_names(Operation::TunnelProfilesList);
    lemma_names(Operation::TunnelStop);
    lemma_names(Operation::BrowserRuntimesList);
    lemma_names(Operation::BrowserNavigate);
    lemma_names(Operation::BrowserSnapshot);
    lemma_names(Operation::BrowserScreenshot);
    lemma_names(Operation::BrowserClick);
    lemma_names(Operation::BrowserType);
    lemma_names(Operation::BrowserPress);
    lemma_names(Operation::BrowserScroll);
    lemma_names(Operation::BrowserEvaluate);
    lemma_names(Operation::BrowserWait);
    lemma_names(Operation::BrowserResize);
    lemma_names(Operation::BrowserClose);
}

/// The runtime that is found has the id that was asked for, and it is found where there is one.
pub proof fn law_runtimes_are_found_by_their_id(list: Seq<RuntimeCapabilities>, id: Seq<char>)
    ensures
        match runtime_with(list, id) {
            Some(runtime) => list.contains(runtime) && runtime.runtime_id@ == id,
            None => forall|i: int| 0 <= i < list.len() ==> (#[trigger] list[i]).runtime_id@ != id,
        },
    decreases list.len(),
{
    if list.len() > 0 {
        let rest = list.skip(1);
        law_runtimes_are_found_by_their_id(rest, id);
        assert(list.contains(list[0]));
        match runtime_with(rest, id) {
            Some(runtime) => {
                let k = choose|k: int| 0 <= k < rest.len() && rest[k] == runtime;
                assert(list[k + 1] == runtime);
            },
            None => {
                assert forall|i: int| 1 <= i < list.len() implies (#[trigger] list[i]).runtime_id@
                    != id by {
                    assert(rest[i - 1] == list[i]);
                }
            },
        }
    }
}

} // verus!
