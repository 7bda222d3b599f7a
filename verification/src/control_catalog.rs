//! The operations that the control boundary offers.
use vstd::prelude::*;
use vstd::string::*;

use crate::control_contract::{
    control_error, plain_error, ControlAccess, ControlApprovalRequirement, ControlCaller,
    ControlCallerKind, ControlErrorCode, ControlRequest, ControlResourceKind, ControlResult,
    CONTROL_CONTRACT_VERSION,
};
use crate::number_text::{decimal, decimal_text};
use crate::text::same;

verus! {

/// An operation of the control boundary.
#[derive(Clone, Copy, Debug, PartialEq, Eq, Structural)]
pub enum Operation {
    SettingsAppearanceGet,
    SettingsThemeSet,
    SettingsTerminalSet,
    DiagnosticsRun,
    DiagnosticsRepair,
    ConnectionsList,
    AgentsList,
    AgentsGetStatus,
    AgentsSendTask,
    AgentsInterrupt,
    MuxSessionsList,
    MuxSessionUpdate,
    MuxLayoutSet,
    MuxPanesList,
    MuxPaneCreate,
    MuxPaneUpdate,
    TerminalTargetsList,
    TerminalRuntimesList,
    TerminalRuntimeOutputRead,
    TerminalRuntimeWrite,
    TerminalRuntimeResize,
    TerminalRuntimeFlowSet,
    TerminalRuntimeInterrupt,
    TerminalRuntimeClose,
    TransferEnqueue,
    TransfersList,
    TransferCancel,
    TunnelStart,
    TunnelsList,
    TunnelProfilesList,
    TunnelStop,
    BrowserRuntimesList,
    BrowserNavigate,
    BrowserSnapshot,
    BrowserScreenshot,
    BrowserClick,
    BrowserType,
    BrowserPress,
    BrowserScroll,
    BrowserEvaluate,
    BrowserWait,
    BrowserResize,
    BrowserClose,
}

/// All operations, in the order of the catalog.
pub open spec fn operations() -> Seq<Operation> {
    seq![
        Operation::SettingsAppearanceGet,
        Operation::SettingsThemeSet,
        Operation::SettingsTerminalSet,
        Operation::DiagnosticsRun,
        Operation::DiagnosticsRepair,
        Operation::ConnectionsList,
        Operation::AgentsList,
        Operation::AgentsGetStatus,
        Operation::AgentsSendTask,
        Operation::AgentsInterrupt,
        Operation::MuxSessionsList,
        Operation::MuxSessionUpdate,
        Operation::MuxLayoutSet,
        Operation::MuxPanesList,
        Operation::MuxPaneCreate,
        Operation::MuxPaneUpdate,
        Operation::TerminalTargetsList,
        Operation::TerminalRuntimesList,
        Operation::TerminalRuntimeOutputRead,
        Operation::TerminalRuntimeWrite,
        Operation::TerminalRuntimeResize,
        Operation::TerminalRuntimeFlowSet,
        Operation::TerminalRuntimeInterrupt,
        Operation::TerminalRuntimeClose,
        Operation::TransferEnqueue,
        Operation::TransfersList,
        Operation::TransferCancel,
        Operation::TunnelStart,
        Operation::TunnelsList,
        Operation::TunnelProfilesList,
        Operation::TunnelStop,
        Operation::BrowserRuntimesList,
        Operation::BrowserNavigate,
        Operation::BrowserSnapshot,
        Operation::BrowserScreenshot,
        Operation::BrowserClick,
        Operation::BrowserType,
        Operation::BrowserPress,
        Operation::BrowserScroll,
        Operation::BrowserEvaluate,
        Operation::BrowserWait,
        Operation::BrowserResize,
        Operation::BrowserClose,
    ]
}

impl Operation {
    /// The name of the operation.
    pub open spec fn text(self) -> Seq<char> {
        match self {
            Operation::SettingsAppearanceGet => "settings.appearance.get"@,
            Operation::SettingsThemeSet => "settings.theme.set"@,
            Operation::SettingsTerminalSet => "settings.terminal.set"@,
            Operation::DiagnosticsRun => "diagnostics.run"@,
            Operation::DiagnosticsRepair => "diagnostics.repair"@,
            Operation::ConnectionsList => "connections.list"@,
            Operation::AgentsList => "agents.list"@,
            Operation::AgentsGetStatus => "agents.get_status"@,
            Operation::AgentsSendTask => "agents.send_task"@,
            Operation::AgentsInterrupt => "agents.interrupt"@,
            Operation::MuxSessionsList => "mux.sessions.list"@,
            Operation::MuxSessionUpdate => "mux.session.update"@,
            Operation::MuxLayoutSet => "mux.layout.set"@,
            Operation::MuxPanesList => "mux.panes.list"@,
            Operation::MuxPaneCreate => "mux.pane.create"@,
            Operation::MuxPaneUpdate => "mux.pane.update"@,
            Operation::TerminalTargetsList => "terminal.targets.list"@,
            Operation::TerminalRuntimesList => "terminal.runtimes.list"@,
            Operation::TerminalRuntimeOutputRead => "terminal.runtime.output.read"@,
            Operation::TerminalRuntimeWrite => "terminal.runtime.write"@,
            Operation::TerminalRuntimeResize => "terminal.runtime.resize"@,
            Operation::TerminalRuntimeFlowSet => "terminal.runtime.flow.set"@,
            Operation::TerminalRuntimeInterrupt => "terminal.runtime.interrupt"@,
            Operation::TerminalRuntimeClose => "terminal.runtime.close"@,
            Operation::TransferEnqueue => "transfer.enqueue"@,
            Operation::TransfersList => "transfers.list"@,
            Operation::TransferCancel => "transfer.cancel"@,
            Operation::TunnelStart => "tunnel.start"@,
            Operation::TunnelsList => "tunnels.list"@,
            Operation::TunnelProfilesList => "tunnel.profiles.list"@,
            Operation::TunnelStop => "tunnel.stop"@,
            Operation::BrowserRuntimesList => "browser.runtimes.list"@,
            Operation::BrowserNavigate => "browser.navigate"@,
            Operation::BrowserSnapshot => "browser.snapshot"@,
            Operation::BrowserScreenshot => "browser.screenshot"@,
            Operation::BrowserClick => "browser.click"@,
            Operation::BrowserType => "browser.type"@,
            Operation::BrowserPress => "browser.press"@,
            Operation::BrowserScroll => "browser.scroll"@,
            Operation::BrowserEvaluate => "browser.evaluate"@,
            Operation::BrowserWait => "browser.wait"@,
            Operation::BrowserResize => "browser.resize"@,
            Operation::BrowserClose => "browser.close"@,
        }
    }

    /// The access that the operation needs.
    pub open spec fn needs(self) -> ControlAccess {
        match self {
            Operation::AgentsInterrupt
            | Operation::TerminalRuntimeInterrupt
            | Operation::TerminalRuntimeClose
            | Operation::TransferEnqueue
            | Operation::TransferCancel
            | Operation::TunnelStart
            | Operation::TunnelStop
            | Operation::BrowserClose => ControlAccess::Control,
            Operation::SettingsThemeSet
            | Operation::SettingsTerminalSet
            | Operation::DiagnosticsRepair
            | Operation::AgentsSendTask
            | Operation::MuxSessionUpdate
            | Operation::MuxLayoutSet
            | Operation::MuxPaneCreate
            | Operation::MuxPaneUpdate
            | Operation::TerminalRuntimeWrite
            | Operation::TerminalRuntimeResize
            | Operation::TerminalRuntimeFlowSet
            | Operation::BrowserNavigate
            | Operation::BrowserClick
            | Operation::BrowserType
            | Operation::BrowserPress
            | Operation::BrowserScroll
            | Operation::BrowserEvaluate
            | Operation::BrowserResize => ControlAccess::Write,
            _ => ControlAccess::Read,
        }
    }

    /// The kind of resource that the operation is about.
    pub open spec fn about(self) -> ControlResourceKind {
        match self {
            Operation::SettingsAppearanceGet
            | Operation::SettingsThemeSet
            | Operation::SettingsTerminalSet
            | Operation::DiagnosticsRun => ControlResourceKind::Settings,
            Operation::DiagnosticsRepair
            | Operation::TerminalRuntimesList
            | Operation::TerminalRuntimeOutputRead
            | Operation::TerminalRuntimeWrite
            | Operation::TerminalRuntimeResize
            | Operation::TerminalRuntimeFlowSet
            | Operation::TerminalRuntimeInterrupt
            | Operation::TerminalRuntimeClose
            | Operation::TransferEnqueue
            | Operation::TransfersList
            | Operation::TunnelStart
            | Operation::TunnelsList
            | Operation::TunnelProfilesList => ControlResourceKind::TerminalRuntime,
            Operation::ConnectionsList => ControlResourceKind::ConnectionProfile,
            Operation::AgentsList
            | Operation::AgentsGetStatus
            | Operation::AgentsSendTask
            | Operation::AgentsInterrupt => ControlResourceKind::Agent,
            Operation::MuxSessionsList
            | Operation::MuxSessionUpdate
            | Operation::MuxLayoutSet
            | Operation::MuxPaneCreate => ControlResourceKind::MuxSession,
            Operation::MuxPanesList
            | Operation::MuxPaneUpdate => ControlResourceKind::Pane,
            Operation::TerminalTargetsList => ControlResourceKind::TerminalTarget,
            Operation::TransferCancel => ControlResourceKind::Transfer,
            Operation::TunnelStop => ControlResourceKind::Tunnel,
            Operation::BrowserRuntimesList
            | Operation::BrowserNavigate
            | Operation::BrowserSnapshot
            | Operation::BrowserScreenshot
            | Operation::BrowserClick
            | Operation::BrowserType
            | Operation::BrowserPress
            | Operation::BrowserScroll
            | Operation::BrowserEvaluate
            | Operation::BrowserWait
            | Operation::BrowserResize
            | Operation::BrowserClose => ControlResourceKind::BrowserRuntime,
        }
    }

    /// A user has to approve the operation, unless the call comes from the user interface or
    /// from inside.
    pub open spec fn needs_user(self) -> bool {
        match self {
            Operation::TerminalRuntimeClose
            | Operation::TransferEnqueue
            | Operation::TransferCancel
            | Operation::TunnelStart
            | Operation::TunnelStop
            | Operation::BrowserNavigate
            | Operation::BrowserClick
            | Operation::BrowserType
            | Operation::BrowserPress
            | Operation::BrowserScroll
            | Operation::BrowserEvaluate
            | Operation::BrowserClose => true,
            _ => false,
        }
    }

    /// The name of the operation.
    pub fn name(self) -> (r: &'static str)
        ensures
            r@ == self.text(),
    {
        match self {
            Operation::SettingsAppearanceGet => "settings.appearance.get",
            Operation::SettingsThemeSet => "settings.theme.set",
            Operation::SettingsTerminalSet => "settings.terminal.set",
            Operation::DiagnosticsRun => "diagnostics.run",
            Operation::DiagnosticsRepair => "diagnostics.repair",
            Operation::ConnectionsList => "connections.list",
            Operation::AgentsList => "agents.list",
            Operation::AgentsGetStatus => "agents.get_status",
            Operation::AgentsSendTask => "agents.send_task",
            Operation::AgentsInterrupt => "agents.interrupt",
            Operation::MuxSessionsList => "mux.sessions.list",
            Operation::MuxSessionUpdate => "mux.session.update",
            Operation::MuxLayoutSet => "mux.layout.set",
            Operation::MuxPanesList => "mux.panes.list",
            Operation::MuxPaneCreate => "mux.pane.create",
            Operation::MuxPaneUpdate => "mux.pane.update",
            Operation::TerminalTargetsList => "terminal.targets.list",
            Operation::TerminalRuntimesList => "terminal.runtimes.list",
            Operation::TerminalRuntimeOutputRead => "terminal.runtime.output.read",
            Operation::TerminalRuntimeWrite => "terminal.runtime.write",
            Operation::TerminalRuntimeResize => "terminal.runtime.resize",
            Operation::TerminalRuntimeFlowSet => "terminal.runtime.flow.set",
            Operation::TerminalRuntimeInterrupt => "terminal.runtime.interrupt",
            Operation::TerminalRuntimeClose => "terminal.runtime.close",
            Operation::TransferEnqueue => "transfer.enqueue",
            Operation::TransfersList => "transfers.list",
            Operation::TransferCancel => "transfer.cancel",
            Operation::TunnelStart => "tunnel.start",
            Operation::TunnelsList => "tunnels.list",
            Operation::TunnelProfilesList => "tunnel.profiles.list",
            Operation::TunnelStop => "tunnel.stop",
            Operation::BrowserRuntimesList => "browser.runtimes.list",
            Operation::BrowserNavigate => "browser.navigate",
            Operation::BrowserSnapshot => "browser.snapshot",
            Operation::BrowserScreenshot => "browser.screenshot",
            Operation::BrowserClick => "browser.click",
            Operation::BrowserType => "browser.type",
            Operation::BrowserPress => "browser.press",
            Operation::BrowserScroll => "browser.scroll",
            Operation::BrowserEvaluate => "browser.evaluate",
            Operation::BrowserWait => "browser.wait",
            Operation::BrowserResize => "browser.resize",
            Operation::BrowserClose => "browser.close",
        }
    }

    /// The access that the operation needs.
    pub fn access(self) -> (r: ControlAccess)
        ensures
            r == self.needs(),
    {
        match self {
            Operation::AgentsInterrupt
            | Operation::TerminalRuntimeInterrupt
            | Operation::TerminalRuntimeClose
            | Operation::TransferEnqueue
            | Operation::TransferCancel
            | Operation::TunnelStart
            | Operation::TunnelStop
            | Operation::BrowserClose => ControlAccess::Control,
            Operation::SettingsThemeSet
            | Operation::SettingsTerminalSet
            | Operation::DiagnosticsRepair
            | Operation::AgentsSendTask
            | Operation::MuxSessionUpdate
            | Operation::MuxLayoutSet
            | Operation::MuxPaneCreate
            | Operation::MuxPaneUpdate
            | Operation::TerminalRuntimeWrite
            | Operation::TerminalRuntimeResize
            | Operation::TerminalRuntimeFlowSet
            | Operation::BrowserNavigate
            | Operation::BrowserClick
            | Operation::BrowserType
            | Operation::BrowserPress
            | Operation::BrowserScroll
            | Operation::BrowserEvaluate
            | Operation::BrowserResize => ControlAccess::Write,
            _ => ControlAccess::Read,
        }
    }

    /// The kind of resource that the operation is about.
    pub fn resource_kind(self) -> (r: ControlResourceKind)
        ensures
            r == self.about(),
    {
        match self {
            Operation::SettingsAppearanceGet
            | Operation::SettingsThemeSet
            | Operation::SettingsTerminalSet
            | Operation::DiagnosticsRun => ControlResourceKind::Settings,
            Operation::DiagnosticsRepair
            | Operation::TerminalRuntimesList
            | Operation::TerminalRuntimeOutputRead
            | Operation::TerminalRuntimeWrite
            | Operation::TerminalRuntimeResize
            | Operation::TerminalRuntimeFlowSet
            | Operation::TerminalRuntimeInterrupt
            | Operation::TerminalRuntimeClose
            | Operation::TransferEnqueue
            | Operation::TransfersList
            | Operation::TunnelStart
            | Operation::TunnelsList
            | Operation::TunnelProfilesList => ControlResourceKind::TerminalRuntime,
            Operation::ConnectionsList => ControlResourceKind::ConnectionProfile,
            Operation::AgentsList
            | Operation::AgentsGetStatus
            | Operation::AgentsSendTask
            | Operation::AgentsInterrupt => ControlResourceKind::Agent,
            Operation::MuxSessionsList
            | Operation::MuxSessionUpdate
            | Operation::MuxLayoutSet
            | Operation::MuxPaneCreate => ControlResourceKind::MuxSession,
            Operation::MuxPanesList
            | Operation::MuxPaneUpdate => ControlResourceKind::Pane,
            Operation::TerminalTargetsList => ControlResourceKind::TerminalTarget,
            Operation::TransferCancel => ControlResourceKind::Transfer,
            Operation::TunnelStop => ControlResourceKind::Tunnel,
            Operation::BrowserRuntimesList
            | Operation::BrowserNavigate
            | Operation::BrowserSnapshot
            | Operation::BrowserScreenshot
            | Operation::BrowserClick
            | Operation::BrowserType
            | Operation::BrowserPress
            | Operation::BrowserScroll
            | Operation::BrowserEvaluate
            | Operation::BrowserWait
            | Operation::BrowserResize
            | Operation::BrowserClose => ControlResourceKind::BrowserRuntime,
        }
    }

    /// Whether a user has to approve the operation.
    pub fn approval(self) -> (r: ControlApprovalRequirement)
        ensures
            r == (if self.needs_user() {
                ControlApprovalRequirement::User
            } else {
                ControlApprovalRequirement::NotRequired
            }),
    {
        match self {
            Operation::TerminalRuntimeClose
            | Operation::TransferEnqueue
            | Operation::TransferCancel
            | Operation::TunnelStart
            | Operation::TunnelStop
            | Operation::BrowserNavigate
            | Operation::BrowserClick
            | Operation::BrowserType
            | Operation::BrowserPress
            | Operation::BrowserScroll
            | Operation::BrowserEvaluate
            | Operation::BrowserClose => ControlApprovalRequirement::User,
            _ => ControlApprovalRequirement::NotRequired,
        }
    }
}

/// The operation with this name.
pub fn operation_named(name: &str) -> (r: Option<Operation>)
    ensures
        match r {
            Some(operation) => operation.text() == name@,
            None => forall|operation: Operation| #[trigger] operation.text() != name@,
        },
{
    if same(name, "settings.appearance.get") {
        return Some(Operation::SettingsAppearanceGet);
    }
    if same(name, "settings.theme.set") {
        return Some(Operation::SettingsThemeSet);
    }
    if same(name, "settings.terminal.set") {
        return Some(Operation::SettingsTerminalSet);
    }
    if same(name, "diagnostics.run") {
        return Some(Operation::DiagnosticsRun);
    }
    if same(name, "diagnostics.repair") {
        return Some(Operation::DiagnosticsRepair);
    }
    if same(name, "connections.list") {
        return Some(Operation::ConnectionsList);
    }
    if same(name, "agents.list") {
        return Some(Operation::AgentsList);
    }
    if same(name, "agents.get_status") {
        return Some(Operation::AgentsGetStatus);
    }
    if same(name, "agents.send_task") {
        return Some(Operation::AgentsSendTask);
    }
    if same(name, "agents.interrupt") {
        return Some(Operation::AgentsInterrupt);
    }
    if same(name, "mux.sessions.list") {
        return Some(Operation::MuxSessionsList);
    }
    if same(name, "mux.session.update") {
        return Some(Operation::MuxSessionUpdate);
    }
    if same(name, "mux.layout.set") {
        return Some(Operation::MuxLayoutSet);
    }
    if same(name, "mux.panes.list") {
        return Some(Operation::MuxPanesList);
    }
    if same(name, "mux.pane.create") {
        return Some(Operation::MuxPaneCreate);
    }
    if same(name, "mux.pane.update") {
        return Some(Operation::MuxPaneUpdate);
    }
    if same(name, "terminal.targets.list") {
        return Some(Operation::TerminalTargetsList);
    }
    if same(name, "terminal.runtimes.list") {
        return Some(Operation::TerminalRuntimesList);
    }
    if same(name, "terminal.runtime.output.read") {
        return Some(Operation::TerminalRuntimeOutputRead);
    }
    if same(name, "terminal.runtime.write") {
        return Some(Operation::TerminalRuntimeWrite);
    }
    if same(name, "terminal.runtime.resize") {
        return Some(Operation::TerminalRuntimeResize);
    }
    if same(name, "terminal.runtime.flow.set") {
        return Some(Operation::TerminalRuntimeFlowSet);
    }
    if same(name, "terminal.runtime.interrupt") {
        return Some(Operation::TerminalRuntimeInterrupt);
    }
    if same(name, "terminal.runtime.close") {
        return Some(Operation::TerminalRuntimeClose);
    }
    if same(name, "transfer.enqueue") {
        return Some(Operation::TransferEnqueue);
    }
    if same(name, "transfers.list") {
        return Some(Operation::TransfersList);
    }
    if same(name, "transfer.cancel") {
        return Some(Operation::TransferCancel);
    }
    if same(name, "tunnel.start") {
        return Some(Operation::TunnelStart);
    }
    if same(name, "tunnels.list") {
        return Some(Operation::TunnelsList);
    }
    if same(name, "tunnel.profiles.list") {
        return Some(Operation::TunnelProfilesList);
    }
    if same(name, "tunnel.stop") {
        return Some(Operation::TunnelStop);
    }
    if same(name, "browser.runtimes.list") {
        return Some(Operation::BrowserRuntimesList);
    }
    if same(name, "browser.navigate") {
        return Some(Operation::BrowserNavigate);
    }
    if same(name, "browser.snapshot") {
        return Some(Operation::BrowserSnapshot);
    }
    if same(name, "browser.screenshot") {
        return Some(Operation::BrowserScreenshot);
    }
    if same(name, "browser.click") {
        return Some(Operation::BrowserClick);
    }
    if same(name, "browser.type") {
        return Some(Operation::BrowserType);
    }
    if same(name, "browser.press") {
        return Some(Operation::BrowserPress);
    }
    if same(name, "browser.scroll") {
        return Some(Operation::BrowserScroll);
    }
    if same(name, "browser.evaluate") {
        return Some(Operation::BrowserEvaluate);
    }
    if same(name, "browser.wait") {
        return Some(Operation::BrowserWait);
    }
    if same(name, "browser.resize") {
        return Some(Operation::BrowserResize);
    }
    if same(name, "browser.close") {
        return Some(Operation::BrowserClose);
    }
    assert forall|operation: Operation| #[trigger] operation.text() != name@ by {
        match operation {
            Operation::SettingsAppearanceGet => {},
            Operation::SettingsThemeSet => {},
            Operation::SettingsTerminalSet => {},
            Operation::DiagnosticsRun => {},
            Operation::DiagnosticsRepair => {},
            Operation::ConnectionsList => {},
            Operation::AgentsList => {},
            Operation::AgentsGetStatus => {},
            Operation::AgentsSendTask => {},
            Operation::AgentsInterrupt => {},
            Operation::MuxSessionsList => {},
            Operation::MuxSessionUpdate => {},
            Operation::MuxLayoutSet => {},
            Operation::MuxPanesList => {},
            Operation::MuxPaneCreate => {},
            Operation::MuxPaneUpdate => {},
            Operation::TerminalTargetsList => {},
            Operation::TerminalRuntimesList => {},
            Operation::TerminalRuntimeOutputRead => {},
            Operation::TerminalRuntimeWrite => {},
            Operation::TerminalRuntimeResize => {},
            Operation::TerminalRuntimeFlowSet => {},
            Operation::TerminalRuntimeInterrupt => {},
            Operation::TerminalRuntimeClose => {},
            Operation::TransferEnqueue => {},
            Operation::TransfersList => {},
            Operation::TransferCancel => {},
            Operation::TunnelStart => {},
            Operation::TunnelsList => {},
            Operation::TunnelProfilesList => {},
            Operation::TunnelStop => {},
            Operation::BrowserRuntimesList => {},
            Operation::BrowserNavigate => {},
            Operation::BrowserSnapshot => {},
            Operation::BrowserScreenshot => {},
            Operation::BrowserClick => {},
            Operation::BrowserType => {},
            Operation::BrowserPress => {},
            Operation::BrowserScroll => {},
            Operation::BrowserEvaluate => {},
            Operation::BrowserWait => {},
            Operation::BrowserResize => {},
            Operation::BrowserClose => {},
        }
    }
    None
}

/// The place of an operation in the catalog.
pub open spec fn place(operation: Operation) -> int {
    match operation {
        Operation::SettingsAppearanceGet => 0,
        Operation::SettingsThemeSet => 1,
        Operation::SettingsTerminalSet => 2,
        Operation::DiagnosticsRun => 3,
        Operation::DiagnosticsRepair => 4,
        Operation::ConnectionsList => 5,
        Operation::AgentsList => 6,
        Operation::AgentsGetStatus => 7,
        Operation::AgentsSendTask => 8,
        Operation::AgentsInterrupt => 9,
        Operation::MuxSessionsList => 10,
        Operation::MuxSessionUpdate => 11,
        Operation::MuxLayoutSet => 12,
        Operation::MuxPanesList => 13,
        Operation::MuxPaneCreate => 14,
        Operation::MuxPaneUpdate => 15,
        Operation::TerminalTargetsList => 16,
        Operation::TerminalRuntimesList => 17,
        Operation::TerminalRuntimeOutputRead => 18,
        Operation::TerminalRuntimeWrite => 19,
        Operation::TerminalRuntimeResize => 20,
        Operation::TerminalRuntimeFlowSet => 21,
        Operation::TerminalRuntimeInterrupt => 22,
        Operation::TerminalRuntimeClose => 23,
        Operation::TransferEnqueue => 24,
        Operation::TransfersList => 25,
        Operation::TransferCancel => 26,
        Operation::TunnelStart => 27,
        Operation::TunnelsList => 28,
        Operation::TunnelProfilesList => 29,
        Operation::TunnelStop => 30,
        Operation::BrowserRuntimesList => 31,
        Operation::BrowserNavigate => 32,
        Operation::BrowserSnapshot => 33,
        Operation::BrowserScreenshot => 34,
        Operation::BrowserClick => 35,
        Operation::BrowserType => 36,
        Operation::BrowserPress => 37,
        Operation::BrowserScroll => 38,
        Operation::BrowserEvaluate => 39,
        Operation::BrowserWait => 40,
        Operation::BrowserResize => 41,
        Operation::BrowserClose => 42,
    }
}

/// The place that a name leads to, by its length and two of its characters.
spec fn place_of_name(s: Seq<char>) -> int {
    let n = s.len();
    let c = s[0];
    if n == 11 {
        if c == 'a' { 6 } else if c == 't' { 30 } else { -1 }
    }
    else if n == 12 {
        if c == 't' && s[8] == 't' { 27 } else if c == 't' && s[8] == 'l' { 28 } else if c == 'b' && s[8] == 't' { 36 } else if c == 'b' && s[8] == 'w' { 40 } else { -1 }
    }
    else if n == 13 {
        if c == 'b' && s[10] == 'i' { 35 } else if c == 'b' && s[10] == 'e' { 37 } else if c == 'b' && s[10] == 'o' { 42 } else { -1 }
    }
    else if n == 14 {
        if c == 'm' && s[8] == 'u' { 12 } else if c == 'm' && s[8] == 's' { 13 } else if c == 't' && s[8] == 's' { 25 } else if c == 'b' && s[8] == 's' { 38 } else if c == 'b' && s[8] == 'r' { 41 } else { -1 }
    }
    else if n == 15 {
        if c == 'd' && s[9] == 'c' { 3 } else if c == 'm' && s[9] == 'c' { 14 } else if c == 'm' && s[9] == 'u' { 15 } else if c == 't' && s[9] == 'c' { 26 } else { -1 }
    }
    else if n == 16 {
        if c == 'c' && s[8] == 'o' { 5 } else if c == 'a' && s[8] == 'e' { 8 } else if c == 'a' && s[8] == 'n' { 9 } else if c == 't' && s[8] == '.' { 24 } else if c == 'b' && s[8] == 'n' { 32 } else if c == 'b' && s[8] == 's' { 33 } else if c == 'b' && s[8] == 'e' { 39 } else { -1 }
    }
    else if n == 17 {
        if c == 'a' { 7 } else if c == 'm' { 10 } else { -1 }
    }
    else if n == 18 {
        if c == 's' { 1 } else if c == 'd' { 4 } else if c == 'm' { 11 } else if c == 'b' { 34 } else { -1 }
    }
    else if n == 20 {
        if c == 't' { 29 } else { -1 }
    }
    else if n == 21 {
        if c == 's' { 2 } else if c == 't' { 16 } else if c == 'b' { 31 } else { -1 }
    }
    else if n == 22 {
        if c == 't' && s[17] == '.' { 17 } else if c == 't' && s[17] == 'w' { 19 } else if c == 't' && s[17] == 'c' { 23 } else { -1 }
    }
    else if n == 23 {
        if c == 's' { 0 } else if c == 't' { 20 } else { -1 }
    }
    else if n == 25 {
        if c == 't' { 21 } else { -1 }
    }
    else if n == 26 {
        if c == 't' { 22 } else { -1 }
    }
    else if n == 28 {
        if c == 't' { 18 } else { -1 }
    }
    else {
        -1
    }
}

/// No two operations have the same name, so a name leads to one descriptor.
pub proof fn law_operation_names_are_distinct(a: Operation, b: Operation)
    requires
        a.text() == b.text(),
    ensures
        a == b,
{
    lemma_place_of_name(a);
    lemma_place_of_name(b);
}

proof fn lemma_place_of_name(operation: Operation)
    ensures
        place_of_name(operation.text()) == place(operation),
{
    match operation {
        Operation::SettingsAppearanceGet => {
            reveal_strlit("settings.appearance.get");
        },
        Operation::SettingsThemeSet => {
            reveal_strlit("settings.theme.set");
        },
        Operation::SettingsTerminalSet => {
            reveal_strlit("settings.terminal.set");
        },
        Operation::DiagnosticsRun => {
            reveal_strlit("diagnostics.run");
        },
        Operation::DiagnosticsRepair => {
            reveal_strlit("diagnostics.repair");
        },
        Operation::ConnectionsList => {
            reveal_strlit("connections.list");
        },
        Operation::AgentsList => {
            reveal_strlit("agents.list");
        },
        Operation::AgentsGetStatus => {
            reveal_strlit("agents.get_status");
        },
        Operation::AgentsSendTask => {
            reveal_strlit("agents.send_task");
        },
        Operation::AgentsInterrupt => {
            reveal_strlit("agents.interrupt");
        },
        Operation::MuxSessionsList => {
            reveal_strlit("mux.sessions.list");
        },
        Operation::MuxSessionUpdate => {
            reveal_strlit("mux.session.update");
        },
        Operation::MuxLayoutSet => {
            reveal_strlit("mux.layout.set");
        },
        Operation::MuxPanesList => {
            reveal_strlit("mux.panes.list");
        },
        Operation::MuxPaneCreate => {
            reveal_strlit("mux.pane.create");
        },
        Operation::MuxPaneUpdate => {
            reveal_strlit("mux.pane.update");
        },
        Operation::TerminalTargetsList => {
            reveal_strlit("terminal.targets.list");
        },
        Operation::TerminalRuntimesList => {
            reveal_strlit("terminal.runtimes.list");
        },
        Operation::TerminalRuntimeOutputRead => {
            reveal_strlit("terminal.runtime.output.read");
        },
        Operation::TerminalRuntimeWrite => {
            reveal_strlit("terminal.runtime.write");
        },
        Operation::TerminalRuntimeResize => {
            reveal_strlit("terminal.runtime.resize");
        },
        Operation::TerminalRuntimeFlowSet => {
            reveal_strlit("terminal.runtime.flow.set");
        },
        Operation::TerminalRuntimeInterrupt => {
            reveal_strlit("terminal.runtime.interrupt");
        },
        Operation::TerminalRuntimeClose => {
            reveal_strlit("terminal.runtime.close");
        },
        Operation::TransferEnqueue => {
            reveal_strlit("transfer.enqueue");
        },
        Operation::TransfersList => {
            reveal_strlit("transfers.list");
        },
        Operation::TransferCancel => {
            reveal_strlit("transfer.cancel");
        },
        Operation::TunnelStart => {
            reveal_strlit("tunnel.start");
        },
        Operation::TunnelsList => {
            reveal_strlit("tunnels.list");
        },
        Operation::TunnelProfilesList => {
            reveal_strlit("tunnel.profiles.list");
        },
        Operation::TunnelStop => {
            reveal_strlit("tunnel.stop");
        },
        Operation::BrowserRuntimesList => {
            reveal_strlit("browser.runtimes.list");
        },
        Operation::BrowserNavigate => {
            reveal_strlit("browser.navigate");
        },
        Operation::BrowserSnapshot => {
            reveal_strlit("browser.snapshot");
        },
        Operation::BrowserScreenshot => {
            reveal_strlit("browser.screenshot");
        },
        Operation::BrowserClick => {
            reveal_strlit("browser.click");
        },
        Operation::BrowserType => {
            reveal_strlit("browser.type");
        },
        Operation::BrowserPress => {
            reveal_strlit("browser.press");
        },
        Operation::BrowserScroll => {
            reveal_strlit("browser.scroll");
        },
        Operation::BrowserEvaluate => {
            reveal_strlit("browser.evaluate");
        },
        Operation::BrowserWait => {
            reveal_strlit("browser.wait");
        },
        Operation::BrowserResize => {
            reveal_strlit("browser.resize");
        },
        Operation::BrowserClose => {
            reveal_strlit("browser.close");
        },
    }
}

/// An operation as the catalog shows it.
#[derive(Debug)]
pub struct ControlOperationDescriptor {
    pub name: String,
    pub version: u32,
    pub access: ControlAccess,
    pub resource_kind: ControlResourceKind,
    pub mutating: bool,
    pub supports_idempotency: bool,
    pub approval: ControlApprovalRequirement,
}

/// The operations that a caller may use, with the version of the contract.
#[derive(Debug)]
pub struct ControlCatalog {
    pub contract_version: u32,
    pub operations: Vec<ControlOperationDescriptor>,
}

/// The descriptor of an operation: each has version 1 and takes an idempotency key, and those that
/// need more than read access change something.
pub open spec fn describes(d: ControlOperationDescriptor, operation: Operation) -> bool {
    &&& d.name@ == operation.text()
    &&& d.version == 1
    &&& d.access == operation.needs()
    &&& d.resource_kind == operation.about()
    &&& d.mutating == (operation.needs() != ControlAccess::Read)
    &&& d.supports_idempotency
    &&& d.approval == (if operation.needs_user() {
        ControlApprovalRequirement::User
    } else {
        ControlApprovalRequirement::NotRequired
    })
}

/// Each descriptor describes the operation at its place.
pub open spec fn all_describe(
    descriptors: Seq<ControlOperationDescriptor>,
    operations: Seq<Operation>,
) -> bool {
    &&& descriptors.len() == operations.len()
    &&& forall|i: int|
        0 <= i < operations.len() ==> describes(#[trigger] descriptors[i], operations[i])
}

/// The descriptor of an operation.
pub fn describe(operation: Operation) -> (r: ControlOperationDescriptor)
    ensures
        describes(r, operation),
{
    ControlOperationDescriptor {
        name: operation.name().to_owned(),
        version: 1,
        access: operation.access(),
        resource_kind: operation.resource_kind(),
        mutating: operation.access() != ControlAccess::Read,
        supports_idempotency: true,
        approval: operation.approval(),
    }
}

/// All operations, in the order of the catalog.
pub fn operation_list() -> (r: Vec<Operation>)
    ensures
        r@ == operations(),
{
    vec![
        Operation::SettingsAppearanceGet,
        Operation::SettingsThemeSet,
        Operation::SettingsTerminalSet,
        Operation::DiagnosticsRun,
        Operation::DiagnosticsRepair,
        Operation::ConnectionsList,
        Operation::AgentsList,
        Operation::AgentsGetStatus,
        Operation::AgentsSendTask,
        Operation::AgentsInterrupt,
        Operation::MuxSessionsList,
        Operation::MuxSessionUpdate,
        Operation::MuxLayoutSet,
        Operation::MuxPanesList,
        Operation::MuxPaneCreate,
        Operation::MuxPaneUpdate,
        Operation::TerminalTargetsList,
        Operation::TerminalRuntimesList,
        Operation::TerminalRuntimeOutputRead,
        Operation::TerminalRuntimeWrite,
        Operation::TerminalRuntimeResize,
        Operation::TerminalRuntimeFlowSet,
        Operation::TerminalRuntimeInterrupt,
        Operation::TerminalRuntimeClose,
        Operation::TransferEnqueue,
        Operation::TransfersList,
        Operation::TransferCancel,
        Operation::TunnelStart,
        Operation::TunnelsList,
        Operation::TunnelProfilesList,
        Operation::TunnelStop,
        Operation::BrowserRuntimesList,
        Operation::BrowserNavigate,
        Operation::BrowserSnapshot,
        Operation::BrowserScreenshot,
        Operation::BrowserClick,
        Operation::BrowserType,
        Operation::BrowserPress,
        Operation::BrowserScroll,
        Operation::BrowserEvaluate,
        Operation::BrowserWait,
        Operation::BrowserResize,
        Operation::BrowserClose,
    ]
}

/// The descriptors of all operations, in the order of the catalog.
pub fn descriptors() -> (r: Vec<ControlOperationDescriptor>)
    ensures
        all_describe(r@, operations()),
{
    let list = operation_list();
    let mut r: Vec<ControlOperationDescriptor> = Vec::new();
    let mut i: usize = 0;
    while i < list.len()
        invariant
            i <= list@.len(),
            list@ == operations(),
            all_describe(r@, operations().take(i as int)),
        decreases list@.len() - i,
    {
        let ghost before = r@;
        r.push(describe(list[i]));
        proof {
            let done = operations().take(i + 1);
            assert forall|k: int| 0 <= k < done.len() implies describes(
                #[trigger] r@[k],
                done[k],
            ) by {
                if k < i {
                    assert(r@[k] == before[k]);
                    assert(describes(before[k], operations().take(i as int)[k]));
                }
            }
        }
        i = i + 1;
    }
    assert(operations().take(i as int) =~= operations());
    r
}

/// The descriptor of the operation with this name.
pub fn descriptor(operation: &str) -> (r: Option<ControlOperationDescriptor>)
    ensures
        match r {
            Some(d) => exists|o: Operation| #[trigger] o.text() == operation@ && describes(d, o),
            None => forall|o: Operation| #[trigger] o.text() != operation@,
        },
{
    match operation_named(operation) {
        Some(o) => Some(describe(o)),
        None => None,
    }
}

/// The caller sees the operation in its catalog: it may use it on some resource, or it is an
/// agent and the operation is about a browser.
pub open spec fn offered(caller: ControlCaller, operation: Operation) -> bool {
    caller.may_access_any(operation.about(), operation.needs()) || (caller.kind
        == ControlCallerKind::Agent && operation.about() == ControlResourceKind::BrowserRuntime)
}

/// The operations that a caller sees, in the order of the catalog.
pub open spec fn offered_of(caller: ControlCaller, list: Seq<Operation>) -> Seq<Operation>
    decreases list.len(),
{
    if list.len() == 0 {
        list
    } else {
        let rest = offered_of(caller, list.drop_last());
        if offered(caller, list.last()) {
            rest.push(list.last())
        } else {
            rest
        }
    }
}

/// The catalog of a caller.
pub fn catalog(caller: &ControlCaller) -> (r: ControlCatalog)
    ensures
        r.contract_version == CONTROL_CONTRACT_VERSION,
        all_describe(r.operations@, offered_of(*caller, operations())),
{
    let list = operation_list();
    let mut found: Vec<ControlOperationDescriptor> = Vec::new();
    let mut i: usize = 0;
    while i < list.len()
        invariant
            i <= list@.len(),
            list@ == operations(),
            all_describe(found@, offered_of(*caller, operations().take(i as int))),
        decreases list@.len() - i,
    {
        let operation: Operation = list[i];
        proof {
            assert(operations().take(i + 1).drop_last() =~= operations().take(i as int));
        }
        if caller.can_access_any(&operation.resource_kind(), &operation.access()) || (caller.kind
            == ControlCallerKind::Agent && operation.resource_kind()
            == ControlResourceKind::BrowserRuntime) {
            let ghost before = found@;
            let ghost done = offered_of(*caller, operations().take(i as int));
            found.push(describe(operation));
            proof {
                assert forall|k: int| 0 <= k < done.len() + 1 implies describes(
                    #[trigger] found@[k],
                    done.push(operation)[k],
                ) by {
                    if k < done.len() {
                        assert(found@[k] == before[k]);
                        assert(describes(before[k], done[k]));
                    }
                }
            }
        }
        i = i + 1;
    }
    assert(operations().take(i as int) =~= operations());
    ControlCatalog { contract_version: CONTROL_CONTRACT_VERSION, operations: found }
}

/// The caller may run the operation on the resource, or on some resource where it names none.
pub open spec fn authorized(
    caller: ControlCaller,
    operation: Operation,
    id: Option<Seq<char>>,
) -> bool {
    caller.may_access(operation.about(), id, operation.needs()) || (id is None
        && caller.may_access_any(operation.about(), operation.needs()))
}

/// Refuses a caller that is not authorized.
pub fn authorize(
    caller: &ControlCaller,
    operation: Operation,
    resource_id: Option<&str>,
) -> (r: ControlResult<()>)
    ensures
        r is Ok == authorized(
            *caller,
            operation,
            match resource_id {
                Some(s) => Some(s@),
                None => None,
            },
        ),
        r is Err ==> plain_error(
            r->Err_0,
            ControlErrorCode::Unauthorized,
            "调用者没有该资源的访问权限"@,
        ),
{
    let kind = operation.resource_kind();
    let access = operation.access();
    if caller.has_access(&kind, resource_id, &access) || (resource_id.is_none()
        && caller.can_access_any(&kind, &access)) {
        Ok(())
    } else {
        Err(control_error(ControlErrorCode::Unauthorized, "调用者没有该资源的访问权限"))
    }
}

/// Refuses a request for another version of the contract.
pub fn validate_request(request: &ControlRequest) -> (r: ControlResult<()>)
    ensures
        r is Ok == (request.contract_version == CONTROL_CONTRACT_VERSION),
        r is Err ==> plain_error(
            r->Err_0,
            ControlErrorCode::UnsupportedVersion,
            "不支持控制契约版本 "@ + decimal(request.contract_version as nat),
        ),
{
    if request.contract_version != CONTROL_CONTRACT_VERSION {
        let mut message = "不支持控制契约版本 ".to_owned();
        message.append(decimal_text(request.contract_version as u64).as_str());
        return Err(control_error(ControlErrorCode::UnsupportedVersion, message.as_str()));
    }
    Ok(())
}

} // verus!
