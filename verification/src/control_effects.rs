//! From a control request to the effect that the application has to bring about.
use vstd::prelude::*;
use vstd::string::*;

use crate::control_catalog::Operation;
use crate::control_contract::{
    plain_error, ControlErrorCode, ControlRequest, ControlResult,
};
use crate::control_requests::{
    capability_refusal, internal_error, invalid_arguments, optional_u64, read_dimension, read_flag, read_number,
    read_text, require_empty_arguments, require_runtime_capability, required_dimension,
    required_flag, required_resource_id, required_string, resource_id_of, Capability, Reading,
    Refusal, RuntimeCapabilities,
};
use crate::json::{get_text, Json};
use crate::mux_layout::{MuxSplitDirection, MuxSplitNode, SplitRatio};
use crate::text::{is_blank, opt_view, trim};

verus! {

/// Which way files go.
#[derive(Clone, Copy, Debug, PartialEq, Eq, Structural)]
pub enum TransferDirection {
    Upload,
    Download,
}

/// The arguments for a new pane.
#[derive(Debug)]
pub struct PaneCreateArguments {
    pub target_id: String,
    pub title: Option<String>,
    pub cwd: Option<String>,
    pub command: String,
    pub launch_profile_id: String,
    pub anchor_pane_id: Option<String>,
    pub split_direction: Option<MuxSplitDirection>,
    pub split_ratio: Option<SplitRatio>,
    pub start: bool,
}

/// The arguments for a change of a pane.
#[derive(Debug)]
pub struct PaneUpdateArguments {
    pub title: Option<String>,
    pub cwd: Option<String>,
    pub command: Option<String>,
    pub launch_profile_id: Option<String>,
}

/// The arguments for a transfer.
#[derive(Debug)]
pub struct TransferArguments {
    pub direction: TransferDirection,
    pub source_paths: Vec<String>,
    pub destination_directory: String,
}

/// The arguments for scrolling, each number by the bits of its double.
#[derive(Clone, Copy, Debug, PartialEq, Eq, Structural)]
pub struct ScrollArguments {
    pub delta_x: u64,
    pub delta_y: u64,
    pub x: u64,
    pub y: u64,
}

/// The arguments of a request in the form that its operation takes. Operations that read single
/// fields, or take none, have `Untyped`.
#[derive(Debug)]
pub enum OperationArguments {
    Untyped,
    Theme { theme: Json },
    Terminal { settings: Json },
    Diagnostics { filter: Option<String> },
    Repair { action: String },
    Task { task: String },
    Session { name: Option<String>, root_path: Option<String> },
    Layout { layout: Option<MuxSplitNode> },
    PaneCreate { create: PaneCreateArguments },
    PaneUpdate { update: PaneUpdateArguments },
    Transfer { transfer: TransferArguments },
    TunnelStart { profile_id: String },
    Profiles { bookmark_id: Option<String> },
    Selector { selector: String },
    TypeText { selector: String, text: String, clear: bool },
    Press { key: String },
    Scroll { scroll: ScrollArguments },
    Evaluate { expression: String },
    Wait { selector: String, timeout_ms: u64 },
}

/// The typed arguments, or the reason why the arguments could not be read as such.
pub type ParsedArguments = Result<OperationArguments, String>;

/// What the application has to do for a request.
#[derive(Debug)]
pub enum ControlEffect {
    ReadAppearance,
    SetTheme { theme: Json },
    SetTerminal { settings: Json },
    RunDiagnostics { filter: Option<String> },
    Repair { runtime_id: String, action: String },
    ListConnections,
    ListAgents,
    AgentStatus { agent_id: String },
    SendTask { agent_id: String, task: String },
    InterruptAgent { agent_id: String },
    ListSessions,
    UpdateSession { session_id: String, name: Option<String>, root_path: Option<String> },
    SetLayout { session_id: String, layout: Option<MuxSplitNode> },
    ListPanes { mux_session_id: Option<String> },
    CreatePane { session_id: String, create: PaneCreateArguments },
    UpdatePane { pane_id: String, update: PaneUpdateArguments },
    ListTargets,
    ListRuntimes,
    ReadOutput { runtime_id: String, from_cursor: u64, max_bytes: usize },
    WriteRuntime { runtime_id: String, data: String },
    ResizeRuntime { runtime_id: String, cols: u32, rows: u32 },
    SetPaused { runtime_id: String, paused: bool },
    InterruptRuntime { runtime_id: String },
    CloseRuntime { runtime_id: String },
    EnqueueTransfer { runtime_id: String, transfer: TransferArguments },
    ListTransfers { runtime_id: String },
    CancelTransfer { transfer_id: String },
    StartTunnel { runtime_id: String, profile_id: String },
    ListTunnels { runtime_id: String },
    ListProfiles { bookmark_id: Option<String> },
    StopTunnel { tunnel_id: String },
    ListBrowsers,
    Navigate { runtime_id: String, url: String },
    Snapshot { runtime_id: String },
    Screenshot { runtime_id: String },
    Click { runtime_id: String, selector: String },
    TypeText { runtime_id: String, selector: String, text: String, clear: bool },
    Press { runtime_id: String, key: String },
    Scroll { runtime_id: String, scroll: ScrollArguments },
    Evaluate { runtime_id: String, expression: String },
    Wait { runtime_id: String, selector: String, timeout_ms: u64 },
    ResizeBrowser { runtime_id: String, width: u32, height: u32 },
    CloseBrowser { runtime_id: String },
}

/// The arguments have the form that the operation takes.
pub open spec fn fits(operation: Operation, arguments: OperationArguments) -> bool {
    match operation {
        Operation::SettingsThemeSet => arguments is Theme,
        Operation::SettingsTerminalSet => arguments is Terminal,
        Operation::DiagnosticsRun => arguments is Diagnostics,
        Operation::DiagnosticsRepair => arguments is Repair,
        Operation::AgentsSendTask => arguments is Task,
        Operation::MuxSessionUpdate => arguments is Session,
        Operation::MuxLayoutSet => arguments is Layout,
        Operation::MuxPaneCreate => arguments is PaneCreate,
        Operation::MuxPaneUpdate => arguments is PaneUpdate,
        Operation::TransferEnqueue => arguments is Transfer,
        Operation::TunnelStart => arguments is TunnelStart,
        Operation::TunnelProfilesList => arguments is Profiles,
        Operation::BrowserClick => arguments is Selector,
        Operation::BrowserType => arguments is TypeText,
        Operation::BrowserPress => arguments is Press,
        Operation::BrowserScroll => arguments is Scroll,
        Operation::BrowserEvaluate => arguments is Evaluate,
        Operation::BrowserWait => arguments is Wait,
        _ => arguments is Untyped,
    }
}

/// The first of two.
pub open spec fn first_some(a: Option<Refusal>, b: Option<Refusal>) -> Option<Refusal> {
    if a is Some {
        a
    } else {
        b
    }
}

pub open spec fn fault(message: Seq<char>) -> Option<Refusal> {
    Some(Refusal { code: ControlErrorCode::InvalidArguments, message })
}

pub open spec fn id_refusal(request: ControlRequest) -> Option<Refusal> {
    if resource_id_of(request) is None {
        fault("该操作必须指定非空资源 ID"@)
    } else {
        None
    }
}

pub open spec fn empty_refusal(request: ControlRequest) -> Option<Refusal> {
    if request.arguments.view().is_empty_object() {
        None
    } else {
        fault("该操作不接受 arguments"@)
    }
}

pub open spec fn parse_refusal(parsed: ParsedArguments) -> Option<Refusal> {
    match parsed {
        Ok(_) => None,
        Err(reason) => fault("arguments 无效："@ + reason@),
    }
}

pub open spec fn reading_refusal<T>(reading: Reading<T>) -> Option<Refusal> {
    match reading {
        Reading::Value(_) => None,
        Reading::Fault(message) => fault(message),
    }
}

pub open spec fn task_refusal(parsed: ParsedArguments) -> Option<Refusal> {
    match parsed {
        Ok(OperationArguments::Task { task }) if trim(task@).len() == 0 => fault("task 不能为空"@),
        _ => None,
    }
}

/// Why the request is refused before anything is done, by the first check that fails.
pub open spec fn refusal(
    operation: Operation,
    request: ControlRequest,
    parsed: ParsedArguments,
    runtimes: Result<Vec<RuntimeCapabilities>, String>,
) -> Option<Refusal> {
    let arguments = request.arguments.view();
    let id = id_refusal(request);
    let empty = empty_refusal(request);
    let parse = parse_refusal(parsed);
    match operation {
        Operation::SettingsAppearanceGet => empty,
        Operation::SettingsThemeSet => parse,
        Operation::SettingsTerminalSet => parse,
        Operation::DiagnosticsRun => parse,
        Operation::DiagnosticsRepair => first_some(parse, (if request.resource is None { fault("diagnostics.repair requires a terminal runtime resource"@) } else { None })),
        Operation::ConnectionsList => empty,
        Operation::AgentsList => empty,
        Operation::AgentsGetStatus => first_some(empty, id),
        Operation::AgentsSendTask => first_some(id, first_some(parse, task_refusal(parsed))),
        Operation::AgentsInterrupt => first_some(empty, id),
        Operation::MuxSessionsList => None,
        Operation::MuxSessionUpdate => first_some(id, parse),
        Operation::MuxLayoutSet => first_some(id, parse),
        Operation::MuxPanesList => None,
        Operation::MuxPaneCreate => first_some(id, parse),
        Operation::MuxPaneUpdate => first_some(id, parse),
        Operation::TerminalTargetsList => None,
        Operation::TerminalRuntimesList => None,
        Operation::TerminalRuntimeOutputRead => first_some(id, first_some(reading_refusal(read_number(arguments, "fromCursor"@, 0)), reading_refusal(read_number(arguments, "maxBytes"@, 65536)))),
        Operation::TerminalRuntimeWrite => first_some(id, reading_refusal(read_text(arguments, "data"@, true))),
        Operation::TerminalRuntimeResize => first_some(id, first_some(reading_refusal(read_dimension(arguments, "cols"@)), reading_refusal(read_dimension(arguments, "rows"@)))),
        Operation::TerminalRuntimeFlowSet => first_some(id, reading_refusal(read_flag(arguments, "paused"@))),
        Operation::TerminalRuntimeInterrupt => id,
        Operation::TerminalRuntimeClose => id,
        Operation::TransferEnqueue => first_some(id, first_some(capability_refusal(runtimes, resource_id_of(request)->0, Capability::RemoteFiles), parse)),
        Operation::TransfersList => first_some(id, empty),
        Operation::TransferCancel => first_some(id, empty),
        Operation::TunnelStart => first_some(id, first_some(capability_refusal(runtimes, resource_id_of(request)->0, Capability::PortForwarding), parse)),
        Operation::TunnelsList => first_some(id, empty),
        Operation::TunnelProfilesList => first_some(id, first_some(capability_refusal(runtimes, resource_id_of(request)->0, Capability::PortForwarding), parse)),
        Operation::TunnelStop => first_some(id, empty),
        Operation::BrowserRuntimesList => empty,
        Operation::BrowserNavigate => first_some(id, reading_refusal(read_text(arguments, "url"@, false))),
        Operation::BrowserSnapshot => first_some(empty, id),
        Operation::BrowserScreenshot => first_some(empty, id),
        Operation::BrowserClick => first_some(id, parse),
        Operation::BrowserType => first_some(id, parse),
        Operation::BrowserPress => first_some(id, parse),
        Operation::BrowserScroll => first_some(id, parse),
        Operation::BrowserEvaluate => first_some(id, parse),
        Operation::BrowserWait => first_some(id, parse),
        Operation::BrowserResize => first_some(id, first_some(reading_refusal(read_dimension(arguments, "width"@)), reading_refusal(read_dimension(arguments, "height"@)))),
        Operation::BrowserClose => first_some(empty, id),
    }
}

/// The effect is what the request asks for.
pub open spec fn fulfils(
    effect: ControlEffect,
    operation: Operation,
    request: ControlRequest,
    given: OperationArguments,
) -> bool {
    let arguments = request.arguments.view();
    let id = resource_id_of(request)->0;
    match operation {
        Operation::SettingsAppearanceGet => effect is ReadAppearance,
        Operation::SettingsThemeSet => {
            &&& effect matches ControlEffect::SetTheme { theme }
            &&& given matches OperationArguments::Theme { theme: given_theme }
            &&& theme == given_theme
        },
        Operation::SettingsTerminalSet => {
            &&& effect matches ControlEffect::SetTerminal { settings }
            &&& given matches OperationArguments::Terminal { settings: given_settings }
            &&& settings == given_settings
        },
        Operation::DiagnosticsRun => {
            &&& effect matches ControlEffect::RunDiagnostics { filter }
            &&& given matches OperationArguments::Diagnostics { filter: given_filter }
            &&& opt_view(filter) == (match given_filter { Some(s) if trim(s@).len() > 0 => Some(s@), _ => None })
        },
        Operation::DiagnosticsRepair => {
            &&& effect matches ControlEffect::Repair { runtime_id, action }
            &&& given matches OperationArguments::Repair { action: given_action }
            &&& runtime_id@ == request.resource->0.id@
            &&& action == given_action
        },
        Operation::ConnectionsList => effect is ListConnections,
        Operation::AgentsList => effect is ListAgents,
        Operation::AgentsGetStatus => {
            &&& effect matches ControlEffect::AgentStatus { agent_id }
            &&& agent_id@ == id
        },
        Operation::AgentsSendTask => {
            &&& effect matches ControlEffect::SendTask { agent_id, task }
            &&& given matches OperationArguments::Task { task: given_task }
            &&& agent_id@ == id
            &&& task == given_task
        },
        Operation::AgentsInterrupt => {
            &&& effect matches ControlEffect::InterruptAgent { agent_id }
            &&& agent_id@ == id
        },
        Operation::MuxSessionsList => effect is ListSessions,
        Operation::MuxSessionUpdate => {
            &&& effect matches ControlEffect::UpdateSession { session_id, name, root_path }
            &&& given matches OperationArguments::Session { name: given_name, root_path: given_root_path }
            &&& session_id@ == id
            &&& name == given_name
            &&& root_path == given_root_path
        },
        Operation::MuxLayoutSet => {
            &&& effect matches ControlEffect::SetLayout { session_id, layout }
            &&& given matches OperationArguments::Layout { layout: given_layout }
            &&& session_id@ == id
            &&& layout == given_layout
        },
        Operation::MuxPanesList => {
            &&& effect matches ControlEffect::ListPanes { mux_session_id }
            &&& opt_view(mux_session_id) == arguments.get_text("muxSessionId"@)
        },
        Operation::MuxPaneCreate => {
            &&& effect matches ControlEffect::CreatePane { session_id, create }
            &&& given matches OperationArguments::PaneCreate { create: given_create }
            &&& session_id@ == id
            &&& create == given_create
        },
        Operation::MuxPaneUpdate => {
            &&& effect matches ControlEffect::UpdatePane { pane_id, update }
            &&& given matches OperationArguments::PaneUpdate { update: given_update }
            &&& pane_id@ == id
            &&& update == given_update
        },
        Operation::TerminalTargetsList => effect is ListTargets,
        Operation::TerminalRuntimesList => effect is ListRuntimes,
        Operation::TerminalRuntimeOutputRead => {
            &&& effect matches ControlEffect::ReadOutput { runtime_id, from_cursor, max_bytes }
            &&& runtime_id@ == id
            &&& from_cursor == read_number(arguments, "fromCursor"@, 0)->Value_0
            &&& max_bytes == clamped_size(read_number(arguments, "maxBytes"@, 65536)->Value_0)
        },
        Operation::TerminalRuntimeWrite => {
            &&& effect matches ControlEffect::WriteRuntime { runtime_id, data }
            &&& runtime_id@ == id
            &&& data@ == read_text(arguments, "data"@, true)->Value_0
        },
        Operation::TerminalRuntimeResize => {
            &&& effect matches ControlEffect::ResizeRuntime { runtime_id, cols, rows }
            &&& runtime_id@ == id
            &&& cols == read_dimension(arguments, "cols"@)->Value_0
            &&& rows == read_dimension(arguments, "rows"@)->Value_0
        },
        Operation::TerminalRuntimeFlowSet => {
            &&& effect matches ControlEffect::SetPaused { runtime_id, paused }
            &&& runtime_id@ == id
            &&& paused == read_flag(arguments, "paused"@)->Value_0
        },
        Operation::TerminalRuntimeInterrupt => {
            &&& effect matches ControlEffect::InterruptRuntime { runtime_id }
            &&& runtime_id@ == id
        },
        Operation::TerminalRuntimeClose => {
            &&& effect matches ControlEffect::CloseRuntime { runtime_id }
            &&& runtime_id@ == id
        },
        Operation::TransferEnqueue => {
            &&& effect matches ControlEffect::EnqueueTransfer { runtime_id, transfer }
            &&& given matches OperationArguments::Transfer { transfer: given_transfer }
            &&& runtime_id@ == id
            &&& transfer == given_transfer
        },
        Operation::TransfersList => {
            &&& effect matches ControlEffect::ListTransfers { runtime_id }
            &&& runtime_id@ == id
        },
        Operation::TransferCancel => {
            &&& effect matches ControlEffect::CancelTransfer { transfer_id }
            &&& transfer_id@ == id
        },
        Operation::TunnelStart => {
            &&& effect matches ControlEffect::StartTunnel { runtime_id, profile_id }
            &&& given matches OperationArguments::TunnelStart { profile_id: given_profile_id }
            &&& runtime_id@ == id
            &&& profile_id == given_profile_id
        },
        Operation::TunnelsList => {
            &&& effect matches ControlEffect::ListTunnels { runtime_id }
            &&& runtime_id@ == id
        },
        Operation::TunnelProfilesList => {
            &&& effect matches ControlEffect::ListProfiles { bookmark_id }
            &&& given matches OperationArguments::Profiles { bookmark_id: given_bookmark_id }
            &&& bookmark_id == given_bookmark_id
        },
        Operation::TunnelStop => {
            &&& effect matches ControlEffect::StopTunnel { tunnel_id }
            &&& tunnel_id@ == id
        },
        Operation::BrowserRuntimesList => effect is ListBrowsers,
        Operation::BrowserNavigate => {
            &&& effect matches ControlEffect::Navigate { runtime_id, url }
            &&& runtime_id@ == id
            &&& url@ == read_text(arguments, "url"@, false)->Value_0
        },
        Operation::BrowserSnapshot => {
            &&& effect matches ControlEffect::Snapshot { runtime_id }
            &&& runtime_id@ == id
        },
        Operation::BrowserScreenshot => {
            &&& effect matches ControlEffect::Screenshot { runtime_id }
            &&& runtime_id@ == id
        },
        Operation::BrowserClick => {
            &&& effect matches ControlEffect::Click { runtime_id, selector }
            &&& given matches OperationArguments::Selector { selector: given_selector }
            &&& runtime_id@ == id
            &&& selector == given_selector
        },
        Operation::BrowserType => {
            &&& effect matches ControlEffect::TypeText { runtime_id, selector, text, clear }
            &&& given matches OperationArguments::TypeText { selector: given_selector, text: given_text, clear: given_clear }
            &&& runtime_id@ == id
            &&& selector == given_selector
            &&& text == given_text
            &&& clear == given_clear
        },
        Operation::BrowserPress => {
            &&& effect matches ControlEffect::Press { runtime_id, key }
            &&& given matches OperationArguments::Press { key: given_key }
            &&& runtime_id@ == id
            &&& key == given_key
        },
        Operation::BrowserScroll => {
            &&& effect matches ControlEffect::Scroll { runtime_id, scroll }
            &&& given matches OperationArguments::Scroll { scroll: given_scroll }
            &&& runtime_id@ == id
            &&& scroll == given_scroll
        },
        Operation::BrowserEvaluate => {
            &&& effect matches ControlEffect::Evaluate { runtime_id, expression }
            &&& given matches OperationArguments::Evaluate { expression: given_expression }
            &&& runtime_id@ == id
            &&& expression == given_expression
        },
        Operation::BrowserWait => {
            &&& effect matches ControlEffect::Wait { runtime_id, selector, timeout_ms }
            &&& given matches OperationArguments::Wait { selector: given_selector, timeout_ms: given_timeout_ms }
            &&& runtime_id@ == id
            &&& selector == given_selector
            &&& timeout_ms == given_timeout_ms
        },
        Operation::BrowserResize => {
            &&& effect matches ControlEffect::ResizeBrowser { runtime_id, width, height }
            &&& runtime_id@ == id
            &&& width == read_dimension(arguments, "width"@)->Value_0
            &&& height == read_dimension(arguments, "height"@)->Value_0
        },
        Operation::BrowserClose => {
            &&& effect matches ControlEffect::CloseBrowser { runtime_id }
            &&& runtime_id@ == id
        },
    }
}

/// The size of a read of output: at least 4 bytes, at most a mebibyte.
pub open spec fn clamped_size(n: u64) -> int {
    if n < 4 {
        4
    } else if n > 1_048_576 {
        1_048_576
    } else {
        n as int
    }
}

fn typed(parsed: ParsedArguments) -> (r: ControlResult<OperationArguments>)
    ensures
        match parse_refusal(parsed) {
            None => r is Ok && r->Ok_0 == parsed->Ok_0,
            Some(refusal) => r is Err && plain_error(r->Err_0, refusal.code, refusal.message),
        },
{
    match parsed {
        Ok(arguments) => Ok(arguments),
        Err(reason) => {
            let mut message = "arguments 无效：".to_owned();
            message.append(reason.as_str());
            Err(invalid_arguments(message.as_str()))
        },
    }
}

fn not_blank(filter: Option<String>) -> (r: Option<String>)
    ensures
        opt_view(r) == (match filter {
            Some(s) if trim(s@).len() > 0 => Some(s@),
            _ => None,
        }),
{
    match filter {
        Some(s) => if is_blank(s.as_str()) {
            None
        } else {
            Some(s)
        },
        None => None,
    }
}

fn session_argument(arguments: &Json) -> (r: Option<String>)
    ensures
        opt_view(r) == arguments.view().get_text("muxSessionId"@),
{
    match get_text(arguments, "muxSessionId") {
        Some(s) => Some(s.clone()),
        None => None,
    }
}

/// The effect that a request asks for, or the refusal of the first check that fails. `parsed` are
/// the typed arguments of an operation that takes such, `runtimes` the list of the backend, which
/// only operations that need a capability look at.
pub fn plan_effect(
    operation: Operation,
    request: &ControlRequest,
    parsed: ParsedArguments,
    runtimes: &Result<Vec<RuntimeCapabilities>, String>,
) -> (r: ControlResult<ControlEffect>)
    requires
        parsed is Ok ==> fits(operation, parsed->Ok_0),
    ensures
        match refusal(operation, *request, parsed, *runtimes) {
            Some(refusal) => r is Err && plain_error(r->Err_0, refusal.code, refusal.message),
            None => r is Ok && fulfils(r->Ok_0, operation, *request, match parsed {
                Ok(given) => given,
                Err(_) => OperationArguments::Untyped,
            }),
        },
{
    match operation {
        Operation::SettingsAppearanceGet => {
            require_empty_arguments(request)?;
            Ok(ControlEffect::ReadAppearance)
        },
        Operation::SettingsThemeSet => {
            let given = typed(parsed)?;
            match given {
                OperationArguments::Theme { theme } => Ok(ControlEffect::SetTheme { theme }),
                _ => Err(internal_error("arguments do not fit the operation")),
            }
        },
        Operation::SettingsTerminalSet => {
            let given = typed(parsed)?;
            match given {
                OperationArguments::Terminal { settings } => Ok(ControlEffect::SetTerminal { settings }),
                _ => Err(internal_error("arguments do not fit the operation")),
            }
        },
        Operation::DiagnosticsRun => {
            let given = typed(parsed)?;
            match given {
                OperationArguments::Diagnostics { filter } => Ok(ControlEffect::RunDiagnostics { filter: not_blank(filter) }),
                _ => Err(internal_error("arguments do not fit the operation")),
            }
        },
        Operation::DiagnosticsRepair => {
            let given = typed(parsed)?;
            let runtime_id = match &request.resource {
                Some(resource) => resource.id.clone(),
                None => {
                    return Err(
                        invalid_arguments(
                            "diagnostics.repair requires a terminal runtime resource",
                        ),
                    );
                },
            };
            match given {
                OperationArguments::Repair { action } => Ok(ControlEffect::Repair { runtime_id, action }),
                _ => Err(internal_error("arguments do not fit the operation")),
            }
        },
        Operation::ConnectionsList => {
            require_empty_arguments(request)?;
            Ok(ControlEffect::ListConnections)
        },
        Operation::AgentsList => {
            require_empty_arguments(request)?;
            Ok(ControlEffect::ListAgents)
        },
        Operation::AgentsGetStatus => {
            require_empty_arguments(request)?;
            let id = required_resource_id(request)?;
            Ok(ControlEffect::AgentStatus { agent_id: id })
        },
        Operation::AgentsSendTask => {
            let id = required_resource_id(request)?;
            let given = typed(parsed)?;
            match given {
                OperationArguments::Task { task } => {
                    if is_blank(task.as_str()) {
                        return Err(invalid_arguments("task 不能为空"));
                    }
                    Ok(ControlEffect::SendTask { agent_id: id, task })
                },
                _ => Err(internal_error("arguments do not fit the operation")),
            }
        },
        Operation::AgentsInterrupt => {
            require_empty_arguments(request)?;
            let id = required_resource_id(request)?;
            Ok(ControlEffect::InterruptAgent { agent_id: id })
        },
        Operation::MuxSessionsList => {
            Ok(ControlEffect::ListSessions)
        },
        Operation::MuxSessionUpdate => {
            let id = required_resource_id(request)?;
            let given = typed(parsed)?;
            match given {
                OperationArguments::Session { name, root_path } => Ok(ControlEffect::UpdateSession { session_id: id, name, root_path }),
                _ => Err(internal_error("arguments do not fit the operation")),
            }
        },
        Operation::MuxLayoutSet => {
            let id = required_resource_id(request)?;
            let given = typed(parsed)?;
            match given {
                OperationArguments::Layout { layout } => Ok(ControlEffect::SetLayout { session_id: id, layout }),
                _ => Err(internal_error("arguments do not fit the operation")),
            }
        },
        Operation::MuxPanesList => {
            Ok(ControlEffect::ListPanes { mux_session_id: session_argument(&request.arguments) })
        },
        Operation::MuxPaneCreate => {
            let id = required_resource_id(request)?;
            let given = typed(parsed)?;
            match given {
                OperationArguments::PaneCreate { create } => Ok(ControlEffect::CreatePane { session_id: id, create }),
                _ => Err(internal_error("arguments do not fit the operation")),
            }
        },
        Operation::MuxPaneUpdate => {
            let id = required_resource_id(request)?;
            let given = typed(parsed)?;
            match given {
                OperationArguments::PaneUpdate { update } => Ok(ControlEffect::UpdatePane { pane_id: id, update }),
                _ => Err(internal_error("arguments do not fit the operation")),
            }
        },
        Operation::TerminalTargetsList => {
            Ok(ControlEffect::ListTargets)
        },
        Operation::TerminalRuntimesList => {
            Ok(ControlEffect::ListRuntimes)
        },
        Operation::TerminalRuntimeOutputRead => {
            let id = required_resource_id(request)?;
            let from_cursor: u64 = optional_u64(request, "fromCursor", 0)?;
            let wanted: u64 = optional_u64(request, "maxBytes", 65536)?;
            let max_bytes: usize = if wanted < 4 {
                4
            } else if wanted > 1_048_576 {
                1_048_576
            } else {
                wanted as usize
            };
            Ok(ControlEffect::ReadOutput { runtime_id: id, from_cursor, max_bytes })
        },
        Operation::TerminalRuntimeWrite => {
            let id = required_resource_id(request)?;
            let data = required_string(request, "data", true)?;
            Ok(ControlEffect::WriteRuntime { runtime_id: id, data })
        },
        Operation::TerminalRuntimeResize => {
            let id = required_resource_id(request)?;
            let cols: u32 = required_dimension(request, "cols")?;
            let rows: u32 = required_dimension(request, "rows")?;
            Ok(ControlEffect::ResizeRuntime { runtime_id: id, cols, rows })
        },
        Operation::TerminalRuntimeFlowSet => {
            let id = required_resource_id(request)?;
            let paused: bool = required_flag(request, "paused")?;
            Ok(ControlEffect::SetPaused { runtime_id: id, paused })
        },
        Operation::TerminalRuntimeInterrupt => {
            let id = required_resource_id(request)?;
            Ok(ControlEffect::InterruptRuntime { runtime_id: id })
        },
        Operation::TerminalRuntimeClose => {
            let id = required_resource_id(request)?;
            Ok(ControlEffect::CloseRuntime { runtime_id: id })
        },
        Operation::TransferEnqueue => {
            let id = required_resource_id(request)?;
            require_runtime_capability(runtimes, id.as_str(), Capability::RemoteFiles)?;
            let given = typed(parsed)?;
            match given {
                OperationArguments::Transfer { transfer } => Ok(ControlEffect::EnqueueTransfer { runtime_id: id, transfer }),
                _ => Err(internal_error("arguments do not fit the operation")),
            }
        },
        Operation::TransfersList => {
            let id = required_resource_id(request)?;
            require_empty_arguments(request)?;
            Ok(ControlEffect::ListTransfers { runtime_id: id })
        },
        Operation::TransferCancel => {
            let id = required_resource_id(request)?;
            require_empty_arguments(request)?;
            Ok(ControlEffect::CancelTransfer { transfer_id: id })
        },
        Operation::TunnelStart => {
            let id = required_resource_id(request)?;
            require_runtime_capability(runtimes, id.as_str(), Capability::PortForwarding)?;
            let given = typed(parsed)?;
            match given {
                OperationArguments::TunnelStart { profile_id } => Ok(ControlEffect::StartTunnel { runtime_id: id, profile_id }),
                _ => Err(internal_error("arguments do not fit the operation")),
            }
        },
        Operation::TunnelsList => {
            let id = required_resource_id(request)?;
            require_empty_arguments(request)?;
            Ok(ControlEffect::ListTunnels { runtime_id: id })
        },
        Operation::TunnelProfilesList => {
            let id = required_resource_id(request)?;
            require_runtime_capability(runtimes, id.as_str(), Capability::PortForwarding)?;
            let given = typed(parsed)?;
            match given {
                OperationArguments::Profiles { bookmark_id } => Ok(ControlEffect::ListProfiles { bookmark_id }),
                _ => Err(internal_error("arguments do not fit the operation")),
            }
        },
        Operation::TunnelStop => {
            let id = required_resource_id(request)?;
            require_empty_arguments(request)?;
            Ok(ControlEffect::StopTunnel { tunnel_id: id })
        },
        Operation::BrowserRuntimesList => {
            require_empty_arguments(request)?;
            Ok(ControlEffect::ListBrowsers)
        },
        Operation::BrowserNavigate => {
            let id = required_resource_id(request)?;
            let url = required_string(request, "url", false)?;
            Ok(ControlEffect::Navigate { runtime_id: id, url })
        },
        Operation::BrowserSnapshot => {
            require_empty_arguments(request)?;
            let id = required_resource_id(request)?;
            Ok(ControlEffect::Snapshot { runtime_id: id })
        },
        Operation::BrowserScreenshot => {
            require_empty_arguments(request)?;
            let id = required_resource_id(request)?;
            Ok(ControlEffect::Screenshot { runtime_id: id })
        },
        Operation::BrowserClick => {
            let id = required_resource_id(request)?;
            let given = typed(parsed)?;
            match given {
                OperationArguments::Selector { selector } => Ok(ControlEffect::Click { runtime_id: id, selector }),
                _ => Err(internal_error("arguments do not fit the operation")),
            }
        },
        Operation::BrowserType => {
            let id = required_resource_id(request)?;
            let given = typed(parsed)?;
            match given {
                OperationArguments::TypeText { selector, text, clear } => Ok(ControlEffect::TypeText { runtime_id: id, selector, text, clear }),
                _ => Err(internal_error("arguments do not fit the operation")),
            }
        },
        Operation::BrowserPress => {
            let id = required_resource_id(request)?;
            let given = typed(parsed)?;
            match given {
                OperationArguments::Press { key } => Ok(ControlEffect::Press { runtime_id: id, key }),
                _ => Err(internal_error("arguments do not fit the operation")),
            }
        },
        Operation::BrowserScroll => {
            let id = required_resource_id(request)?;
            let given = typed(parsed)?;
            match given {
                OperationArguments::Scroll { scroll } => Ok(ControlEffect::Scroll { runtime_id: id, scroll }),
                _ => Err(internal_error("arguments do not fit the operation")),
            }
        },
        Operation::BrowserEvaluate => {
            let id = required_resource_id(request)?;
            let given = typed(parsed)?;
            match given {
                OperationArguments::Evaluate { expression } => Ok(ControlEffect::Evaluate { runtime_id: id, expression }),
                _ => Err(internal_error("arguments do not fit the operation")),
            }
        },
        Operation::BrowserWait => {
            let id = required_resource_id(request)?;
            let given = typed(parsed)?;
            match given {
                OperationArguments::Wait { selector, timeout_ms } => Ok(ControlEffect::Wait { runtime_id: id, selector, timeout_ms }),
                _ => Err(internal_error("arguments do not fit the operation")),
            }
        },
        Operation::BrowserResize => {
            let id = required_resource_id(request)?;
            let width: u32 = required_dimension(request, "width")?;
            let height: u32 = required_dimension(request, "height")?;
            Ok(ControlEffect::ResizeBrowser { runtime_id: id, width, height })
        },
        Operation::BrowserClose => {
            require_empty_arguments(request)?;
            let id = required_resource_id(request)?;
            Ok(ControlEffect::CloseBrowser { runtime_id: id })
        },
    }
}

/// However much output a request asks for, one read of it is bounded.
pub proof fn law_output_reads_are_bounded(
    effect: ControlEffect,
    operation: Operation,
    request: ControlRequest,
    given: OperationArguments,
)
    requires
        fulfils(effect, operation, request, given),
    ensures
        effect matches ControlEffect::ReadOutput { max_bytes, .. } ==> 4 <= max_bytes <= 1048576,
{
}

} // verus!
