//! What each operation takes, by the name under which it is asked for, and what that means at the
//! door: which grants let a caller in, and when a user is asked.
use vstd::prelude::*;
use vstd::string::*;

use crate::control_catalog::{
    authorized, describes, law_operation_names_are_distinct, offered, offered_of,
    operations, place, ControlOperationDescriptor, Operation,
};
use crate::control_contract::{
    resource_view, ControlAccess, ControlApprovalRequirement, ControlCaller, ControlCallerKind,
    ControlErrorCode, ControlGrant, ControlRequest, ControlResourceKind,
};
use crate::control_idempotency::{EntryView, KeyView, Standing};
use crate::control_service::{
    door_refusal, operation_of, requested_id, verdict, with_reservation,
    Verdict,
};
use crate::json::alike;

verus! {

/// The operation with this name tells how things are and changes nothing.
pub open spec fn only_reports(name: Seq<char>) -> bool {
    ||| name == "settings.appearance.get"@
    ||| name == "diagnostics.run"@
    ||| name == "connections.list"@
    ||| name == "agents.list"@
    ||| name == "agents.get_status"@
    ||| name == "mux.sessions.list"@
    ||| name == "mux.panes.list"@
    ||| name == "terminal.targets.list"@
    ||| name == "terminal.runtimes.list"@
    ||| name == "terminal.runtime.output.read"@
    ||| name == "transfers.list"@
    ||| name == "tunnels.list"@
    ||| name == "tunnel.profiles.list"@
    ||| name == "browser.runtimes.list"@
    ||| name == "browser.snapshot"@
    ||| name == "browser.screenshot"@
    ||| name == "browser.wait"@
}

/// The operation with this name starts or ends something.
pub open spec fn takes_control(name: Seq<char>) -> bool {
    ||| name == "agents.interrupt"@
    ||| name == "terminal.runtime.interrupt"@
    ||| name == "terminal.runtime.close"@
    ||| name == "transfer.enqueue"@
    ||| name == "transfer.cancel"@
    ||| name == "tunnel.start"@
    ||| name == "tunnel.stop"@
    ||| name == "browser.close"@
}

/// An agent may use the operation with this name only with the approval of a user.
pub open spec fn asks_the_user(name: Seq<char>) -> bool {
    ||| name == "terminal.runtime.close"@
    ||| name == "transfer.enqueue"@
    ||| name == "transfer.cancel"@
    ||| name == "tunnel.start"@
    ||| name == "tunnel.stop"@
    ||| name == "browser.navigate"@
    ||| name == "browser.click"@
    ||| name == "browser.type"@
    ||| name == "browser.press"@
    ||| name == "browser.scroll"@
    ||| name == "browser.evaluate"@
    ||| name == "browser.close"@
}

/// The operation with this name is about resources of this kind.
pub open spec fn is_about(name: Seq<char>, kind: ControlResourceKind) -> bool {
    match kind {
        ControlResourceKind::Application => false,
        ControlResourceKind::Settings => {
            ||| name == "settings.appearance.get"@
            ||| name == "settings.theme.set"@
            ||| name == "settings.terminal.set"@
            ||| name == "diagnostics.run"@
        },
        ControlResourceKind::TerminalRuntime => {
            ||| name == "diagnostics.repair"@
            ||| name == "transfer.enqueue"@
            ||| name == "transfers.list"@
            ||| name == "tunnel.start"@
            ||| name == "tunnels.list"@
            ||| name == "tunnel.profiles.list"@
            ||| name == "terminal.runtimes.list"@
            ||| name == "terminal.runtime.output.read"@
            ||| name == "terminal.runtime.write"@
            ||| name == "terminal.runtime.resize"@
            ||| name == "terminal.runtime.flow.set"@
            ||| name == "terminal.runtime.interrupt"@
            ||| name == "terminal.runtime.close"@
        },
        ControlResourceKind::ConnectionProfile => {
            ||| name == "connections.list"@
        },
        ControlResourceKind::Agent => {
            ||| name == "agents.list"@
            ||| name == "agents.get_status"@
            ||| name == "agents.send_task"@
            ||| name == "agents.interrupt"@
        },
        ControlResourceKind::MuxSession => {
            ||| name == "mux.sessions.list"@
            ||| name == "mux.session.update"@
            ||| name == "mux.layout.set"@
            ||| name == "mux.pane.create"@
        },
        ControlResourceKind::Pane => {
            ||| name == "mux.panes.list"@
            ||| name == "mux.pane.update"@
        },
        ControlResourceKind::TerminalTarget => {
            ||| name == "terminal.targets.list"@
        },
        ControlResourceKind::Transfer => {
            ||| name == "transfer.cancel"@
        },
        ControlResourceKind::Tunnel => {
            ||| name == "tunnel.stop"@
        },
        ControlResourceKind::BrowserRuntime => {
            ||| name == "browser.runtimes.list"@
            ||| name == "browser.navigate"@
            ||| name == "browser.snapshot"@
            ||| name == "browser.screenshot"@
            ||| name == "browser.click"@
            ||| name == "browser.type"@
            ||| name == "browser.press"@
            ||| name == "browser.scroll"@
            ||| name == "browser.evaluate"@
            ||| name == "browser.wait"@
            ||| name == "browser.resize"@
            ||| name == "browser.close"@
        },
    }
}

/// The operation that a name belongs to, name by name.
pub proof fn lemma_names(operation: Operation)
    ensures
        operation.text() == "settings.appearance.get"@ <==> operation == Operation::SettingsAppearanceGet,
        operation.text() == "settings.theme.set"@ <==> operation == Operation::SettingsThemeSet,
        operation.text() == "settings.terminal.set"@ <==> operation == Operation::SettingsTerminalSet,
        operation.text() == "diagnostics.run"@ <==> operation == Operation::DiagnosticsRun,
        operation.text() == "diagnostics.repair"@ <==> operation == Operation::DiagnosticsRepair,
        operation.text() == "connections.list"@ <==> operation == Operation::ConnectionsList,
        operation.text() == "agents.list"@ <==> operation == Operation::AgentsList,
        operation.text() == "agents.get_status"@ <==> operation == Operation::AgentsGetStatus,
        operation.text() == "agents.send_task"@ <==> operation == Operation::AgentsSendTask,
        operation.text() == "agents.interrupt"@ <==> operation == Operation::AgentsInterrupt,
        operation.text() == "mux.sessions.list"@ <==> operation == Operation::MuxSessionsList,
        operation.text() == "mux.session.update"@ <==> operation == Operation::MuxSessionUpdate,
        operation.text() == "mux.layout.set"@ <==> operation == Operation::MuxLayoutSet,
        operation.text() == "mux.panes.list"@ <==> operation == Operation::MuxPanesList,
        operation.text() == "mux.pane.create"@ <==> operation == Operation::MuxPaneCreate,
        operation.text() == "mux.pane.update"@ <==> operation == Operation::MuxPaneUpdate,
        operation.text() == "terminal.targets.list"@ <==> operation == Operation::TerminalTargetsList,
        operation.text() == "terminal.runtimes.list"@ <==> operation == Operation::TerminalRuntimesList,
        operation.text() == "terminal.runtime.output.read"@ <==> operation == Operation::TerminalRuntimeOutputRead,
        operation.text() == "terminal.runtime.write"@ <==> operation == Operation::TerminalRuntimeWrite,
        operation.text() == "terminal.runtime.resize"@ <==> operation == Operation::TerminalRuntimeResize,
        operation.text() == "terminal.runtime.flow.set"@ <==> operation == Operation::TerminalRuntimeFlowSet,
        operation.text() == "terminal.runtime.interrupt"@ <==> operation == Operation::TerminalRuntimeInterrupt,
        operation.text() == "terminal.runtime.close"@ <==> operation == Operation::TerminalRuntimeClose,
        operation.text() == "transfer.enqueue"@ <==> operation == Operation::TransferEnqueue,
        operation.text() == "transfers.list"@ <==> operation == Operation::TransfersList,
        operation.text() == "transfer.cancel"@ <==> operation == Operation::TransferCancel,
        operation.text() == "tunnel.start"@ <==> operation == Operation::TunnelStart,
        operation.text() == "tunnels.list"@ <==> operation == Operation::TunnelsList,
        operation.text() == "tunnel.profiles.list"@ <==> operation == Operation::TunnelProfilesList,
        operation.text() == "tunnel.stop"@ <==> operation == Operation::TunnelStop,
        operation.text() == "browser.runtimes.list"@ <==> operation == Operation::BrowserRuntimesList,
        operation.text() == "browser.navigate"@ <==> operation == Operation::BrowserNavigate,
        operation.text() == "browser.snapshot"@ <==> operation == Operation::BrowserSnapshot,
        operation.text() == "browser.screenshot"@ <==> operation == Operation::BrowserScreenshot,
        operation.text() == "browser.click"@ <==> operation == Operation::BrowserClick,
        operation.text() == "browser.type"@ <==> operation == Operation::BrowserType,
        operation.text() == "browser.press"@ <==> operation == Operation::BrowserPress,
        operation.text() == "browser.scroll"@ <==> operation == Operation::BrowserScroll,
        operation.text() == "browser.evaluate"@ <==> operation == Operation::BrowserEvaluate,
        operation.text() == "browser.wait"@ <==> operation == Operation::BrowserWait,
        operation.text() == "browser.resize"@ <==> operation == Operation::BrowserResize,
        operation.text() == "browser.close"@ <==> operation == Operation::BrowserClose,
{
    if operation.text() == Operation::SettingsAppearanceGet.text() {
        law_operation_names_are_distinct(operation, Operation::SettingsAppearanceGet);
    }
    if operation.text() == Operation::SettingsThemeSet.text() {
        law_operation_names_are_distinct(operation, Operation::SettingsThemeSet);
    }
    if operation.text() == Operation::SettingsTerminalSet.text() {
        law_operation_names_are_distinct(operation, Operation::SettingsTerminalSet);
    }
    if operation.text() == Operation::DiagnosticsRun.text() {
        law_operation_names_are_distinct(operation, Operation::DiagnosticsRun);
    }
    if operation.text() == Operation::DiagnosticsRepair.text() {
        law_operation_names_are_distinct(operation, Operation::DiagnosticsRepair);
    }
    if operation.text() == Operation::ConnectionsList.text() {
        law_operation_names_are_distinct(operation, Operation::ConnectionsList);
    }
    if operation.text() == Operation::AgentsList.text() {
        law_operation_names_are_distinct(operation, Operation::AgentsList);
    }
    if operation.text() == Operation::AgentsGetStatus.text() {
        law_operation_names_are_distinct(operation, Operation::AgentsGetStatus);
    }
    if operation.text() == Operation::AgentsSendTask.text() {
        law_operation_names_are_distinct(operation, Operation::AgentsSendTask);
    }
    if operation.text() == Operation::AgentsInterrupt.text() {
        law_operation_names_are_distinct(operation, Operation::AgentsInterrupt);
    }
    if operation.text() == Operation::MuxSessionsList.text() {
        law_operation_names_are_distinct(operation, Operation::MuxSessionsList);
    }
    if operation.text() == Operation::MuxSessionUpdate.text() {
        law_operation_names_are_distinct(operation, Operation::MuxSessionUpdate);
    }
    if operation.text() == Operation::MuxLayoutSet.text() {
        law_operation_names_are_distinct(operation, Operation::MuxLayoutSet);
    }
    if operation.text() == Operation::MuxPanesList.text() {
        law_operation_names_are_distinct(operation, Operation::MuxPanesList);
    }
    if operation.text() == Operation::MuxPaneCreate.text() {
        law_operation_names_are_distinct(operation, Operation::MuxPaneCreate);
    }
    if operation.text() == Operation::MuxPaneUpdate.text() {
        law_operation_names_are_distinct(operation, Operation::MuxPaneUpdate);
    }
    if operation.text() == Operation::TerminalTargetsList.text() {
        law_operation_names_are_distinct(operation, Operation::TerminalTargetsList);
    }
    if operation.text() == Operation::TerminalRuntimesList.text() {
        law_operation_names_are_distinct(operation, Operation::TerminalRuntimesList);
    }
    if operation.text() == Operation::TerminalRuntimeOutputRead.text() {
        law_operation_names_are_distinct(operation, Operation::TerminalRuntimeOutputRead);
    }
    if operation.text() == Operation::TerminalRuntimeWrite.text() {
        law_operation_names_are_distinct(operation, Operation::TerminalRuntimeWrite);
    }
    if operation.text() == Operation::TerminalRuntimeResize.text() {
        law_operation_names_are_distinct(operation, Operation::TerminalRuntimeResize);
    }
    if operation.text() == Operation::TerminalRuntimeFlowSet.text() {
        law_operation_names_are_distinct(operation, Operation::TerminalRuntimeFlowSet);
    }
    if operation.text() == Operation::TerminalRuntimeInterrupt.text() {
        law_operation_names_are_distinct(operation, Operation::TerminalRuntimeInterrupt);
    }
    if operation.text() == Operation::TerminalRuntimeClose.text() {
        law_operation_names_are_distinct(operation, Operation::TerminalRuntimeClose);
    }
    if operation.text() == Operation::TransferEnqueue.text() {
        law_operation_names_are_distinct(operation, Operation::TransferEnqueue);
    }
    if operation.text() == Operation::TransfersList.text() {
        law_operation_names_are_distinct(operation, Operation::TransfersList);
    }
    if operation.text() == Operation::TransferCancel.text() {
        law_operation_names_are_distinct(operation, Operation::TransferCancel);
    }
    if operation.text() == Operation::TunnelStart.text() {
        law_operation_names_are_distinct(operation, Operation::TunnelStart);
    }
    if operation.text() == Operation::TunnelsList.text() {
        law_operation_names_are_distinct(operation, Operation::TunnelsList);
    }
    if operation.text() == Operation::TunnelProfilesList.text() {
        law_operation_names_are_distinct(operation, Operation::TunnelProfilesList);
    }
    if operation.text() == Operation::TunnelStop.text() {
        law_operation_names_are_distinct(operation, Operation::TunnelStop);
    }
    if operation.text() == Operation::BrowserRuntimesList.text() {
        law_operation_names_are_distinct(operation, Operation::BrowserRuntimesList);
    }
    if operation.text() == Operation::BrowserNavigate.text() {
        law_operation_names_are_distinct(operation, Operation::BrowserNavigate);
    }
    if operation.text() == Operation::BrowserSnapshot.text() {
        law_operation_names_are_distinct(operation, Operation::BrowserSnapshot);
    }
    if operation.text() == Operation::BrowserScreenshot.text() {
        law_operation_names_are_distinct(operation, Operation::BrowserScreenshot);
    }
    if operation.text() == Operation::BrowserClick.text() {
        law_operation_names_are_distinct(operation, Operation::BrowserClick);
    }
    if operation.text() == Operation::BrowserType.text() {
        law_operation_names_are_distinct(operation, Operation::BrowserType);
    }
    if operation.text() == Operation::BrowserPress.text() {
        law_operation_names_are_distinct(operation, Operation::BrowserPress);
    }
    if operation.text() == Operation::BrowserScroll.text() {
        law_operation_names_are_distinct(operation, Operation::BrowserScroll);
    }
    if operation.text() == Operation::BrowserEvaluate.text() {
        law_operation_names_are_distinct(operation, Operation::BrowserEvaluate);
    }
    if operation.text() == Operation::BrowserWait.text() {
        law_operation_names_are_distinct(operation, Operation::BrowserWait);
    }
    if operation.text() == Operation::BrowserResize.text() {
        law_operation_names_are_distinct(operation, Operation::BrowserResize);
    }
    if operation.text() == Operation::BrowserClose.text() {
        law_operation_names_are_distinct(operation, Operation::BrowserClose);
    }
}

/// The operations that only report state take read access and are shown as changing nothing; every
/// other operation takes more and is shown as changing something.
pub proof fn law_reporting_operations_only_read(operation: Operation, d: ControlOperationDescriptor)
    requires
        describes(d, operation),
    ensures
        only_reports(operation.text()) <==> operation.needs() == ControlAccess::Read,
        only_reports(d.name@) <==> d.access == ControlAccess::Read,
        only_reports(d.name@) <==> !d.mutating,
{
    lemma_names(operation);
}

/// What starts or ends something takes control; what changes something otherwise takes write
/// access, and no more.
pub proof fn law_starting_and_ending_takes_control(
    operation: Operation,
    d: ControlOperationDescriptor,
)
    requires
        describes(d, operation),
    ensures
        takes_control(d.name@) <==> d.access == ControlAccess::Control,
        !takes_control(d.name@) && !only_reports(d.name@) <==> d.access == ControlAccess::Write,
        d.supports_idempotency,
{
    lemma_names(operation);
}

/// The catalog says which operations wait for a user.
pub proof fn law_operations_that_wait_for_a_user(
    operation: Operation,
    d: ControlOperationDescriptor,
)
    requires
        describes(d, operation),
    ensures
        asks_the_user(d.name@) <==> d.approval == ControlApprovalRequirement::User,
        asks_the_user(d.name@) ==> d.mutating,
{
    lemma_names(operation);
}

/// Each operation is about resources of one kind.
pub proof fn law_operations_are_about_one_kind(
    operation: Operation,
    d: ControlOperationDescriptor,
    kind: ControlResourceKind,
)
    requires
        describes(d, operation),
    ensures
        is_about(d.name@, kind) <==> d.resource_kind == kind,
        is_about(operation.text(), kind) <==> operation.about() == kind,
{
    lemma_names(operation);
}

/// A name leads to the operation that has it, and every name of a kind is the name of an operation.
pub proof fn law_names_lead_to_their_operation(
    operation: Operation,
    name: Seq<char>,
    kind: ControlResourceKind,
)
    ensures
        operation_of(operation.text()) == Some(operation),
        is_about(name, kind) ==> operation_of(name) is Some && operation_of(name)->0.text() == name
            && operation_of(name)->0.about() == kind,
        (forall|k: ControlResourceKind| !is_about(name, k)) ==> operation_of(name) is None,
{
    let found = choose|o: Operation| #[trigger] o.text() == operation.text();
    law_operation_names_are_distinct(found, operation);
    if is_about(name, kind) {
        assert(name == "settings.appearance.get"@ ==> name == Operation::SettingsAppearanceGet.text());
        assert(name == "settings.theme.set"@ ==> name == Operation::SettingsThemeSet.text());
        assert(name == "settings.terminal.set"@ ==> name == Operation::SettingsTerminalSet.text());
        assert(name == "diagnostics.run"@ ==> name == Operation::DiagnosticsRun.text());
        assert(name == "diagnostics.repair"@ ==> name == Operation::DiagnosticsRepair.text());
        assert(name == "connections.list"@ ==> name == Operation::ConnectionsList.text());
        assert(name == "agents.list"@ ==> name == Operation::AgentsList.text());
        assert(name == "agents.get_status"@ ==> name == Operation::AgentsGetStatus.text());
        assert(name == "agents.send_task"@ ==> name == Operation::AgentsSendTask.text());
        assert(name == "agents.interrupt"@ ==> name == Operation::AgentsInterrupt.text());
        assert(name == "mux.sessions.list"@ ==> name == Operation::MuxSessionsList.text());
        assert(name == "mux.session.update"@ ==> name == Operation::MuxSessionUpdate.text());
        assert(name == "mux.layout.set"@ ==> name == Operation::MuxLayoutSet.text());
        assert(name == "mux.panes.list"@ ==> name == Operation::MuxPanesList.text());
        assert(name == "mux.pane.create"@ ==> name == Operation::MuxPaneCreate.text());
        assert(name == "mux.pane.update"@ ==> name == Operation::MuxPaneUpdate.text());
        assert(name == "terminal.targets.list"@ ==> name == Operation::TerminalTargetsList.text());
        assert(name == "terminal.runtimes.list"@ ==> name == Operation::TerminalRuntimesList.text());
        assert(name == "terminal.runtime.output.read"@ ==> name == Operation::TerminalRuntimeOutputRead.text());
        assert(name == "terminal.runtime.write"@ ==> name == Operation::TerminalRuntimeWrite.text());
        assert(name == "terminal.runtime.resize"@ ==> name == Operation::TerminalRuntimeResize.text());
        assert(name == "terminal.runtime.flow.set"@ ==> name == Operation::TerminalRuntimeFlowSet.text());
        assert(name == "terminal.runtime.interrupt"@ ==> name == Operation::TerminalRuntimeInterrupt.text());
        assert(name == "terminal.runtime.close"@ ==> name == Operation::TerminalRuntimeClose.text());
        assert(name == "transfer.enqueue"@ ==> name == Operation::TransferEnqueue.text());
        assert(name == "transfers.list"@ ==> name == Operation::TransfersList.text());
        assert(name == "transfer.cancel"@ ==> name == Operation::TransferCancel.text());
        assert(name == "tunnel.start"@ ==> name == Operation::TunnelStart.text());
        assert(name == "tunnels.list"@ ==> name == Operation::TunnelsList.text());
        assert(name == "tunnel.profiles.list"@ ==> name == Operation::TunnelProfilesList.text());
        assert(name == "tunnel.stop"@ ==> name == Operation::TunnelStop.text());
        assert(name == "browser.runtimes.list"@ ==> name == Operation::BrowserRuntimesList.text());
        assert(name == "browser.navigate"@ ==> name == Operation::BrowserNavigate.text());
        assert(name == "browser.snapshot"@ ==> name == Operation::BrowserSnapshot.text());
        assert(name == "browser.screenshot"@ ==> name == Operation::BrowserScreenshot.text());
        assert(name == "browser.click"@ ==> name == Operation::BrowserClick.text());
        assert(name == "browser.type"@ ==> name == Operation::BrowserType.text());
        assert(name == "browser.press"@ ==> name == Operation::BrowserPress.text());
        assert(name == "browser.scroll"@ ==> name == Operation::BrowserScroll.text());
        assert(name == "browser.evaluate"@ ==> name == Operation::BrowserEvaluate.text());
        assert(name == "browser.wait"@ ==> name == Operation::BrowserWait.text());
        assert(name == "browser.resize"@ ==> name == Operation::BrowserResize.text());
        assert(name == "browser.close"@ ==> name == Operation::BrowserClose.text());
        let o = choose|o: Operation| #[trigger] o.text() == name;
        lemma_names(o);
    }
    if operation_of(name) is Some {
        let o = choose|o: Operation| #[trigger] o.text() == name;
        lemma_names(o);
        assert(is_about(name, o.about()));
    }
}

/// The catalog lists every operation, and each once.
pub proof fn law_the_catalog_lists_every_operation_once(operation: Operation, i: int, j: int)
    ensures
        operations().contains(operation),
        0 <= i < operations().len() && 0 <= j < operations().len() && operations()[i]
            == operations()[j] ==> i == j,
{
    let list = operations();
    assert(list[0] == Operation::SettingsAppearanceGet);
    assert(list[1] == Operation::SettingsThemeSet);
    assert(list[2] == Operation::SettingsTerminalSet);
    assert(list[3] == Operation::DiagnosticsRun);
    assert(list[4] == Operation::DiagnosticsRepair);
    assert(list[5] == Operation::ConnectionsList);
    assert(list[6] == Operation::AgentsList);
    assert(list[7] == Operation::AgentsGetStatus);
    assert(list[8] == Operation::AgentsSendTask);
    assert(list[9] == Operation::AgentsInterrupt);
    assert(list[10] == Operation::MuxSessionsList);
    assert(list[11] == Operation::MuxSessionUpdate);
    assert(list[12] == Operation::MuxLayoutSet);
    assert(list[13] == Operation::MuxPanesList);
    assert(list[14] == Operation::MuxPaneCreate);
    assert(list[15] == Operation::MuxPaneUpdate);
    assert(list[16] == Operation::TerminalTargetsList);
    assert(list[17] == Operation::TerminalRuntimesList);
    assert(list[18] == Operation::TerminalRuntimeOutputRead);
    assert(list[19] == Operation::TerminalRuntimeWrite);
    assert(list[20] == Operation::TerminalRuntimeResize);
    assert(list[21] == Operation::TerminalRuntimeFlowSet);
    assert(list[22] == Operation::TerminalRuntimeInterrupt);
    assert(list[23] == Operation::TerminalRuntimeClose);
    assert(list[24] == Operation::TransferEnqueue);
    assert(list[25] == Operation::TransfersList);
    assert(list[26] == Operation::TransferCancel);
    assert(list[27] == Operation::TunnelStart);
    assert(list[28] == Operation::TunnelsList);
    assert(list[29] == Operation::TunnelProfilesList);
    assert(list[30] == Operation::TunnelStop);
    assert(list[31] == Operation::BrowserRuntimesList);
    assert(list[32] == Operation::BrowserNavigate);
    assert(list[33] == Operation::BrowserSnapshot);
    assert(list[34] == Operation::BrowserScreenshot);
    assert(list[35] == Operation::BrowserClick);
    assert(list[36] == Operation::BrowserType);
    assert(list[37] == Operation::BrowserPress);
    assert(list[38] == Operation::BrowserScroll);
    assert(list[39] == Operation::BrowserEvaluate);
    assert(list[40] == Operation::BrowserWait);
    assert(list[41] == Operation::BrowserResize);
    assert(list[42] == Operation::BrowserClose);
    assert(list[place(operation)] == operation);
    assert(list.len() == 43);
    assert forall|k: int| 0 <= k < list.len() implies place(#[trigger] list[k]) == k by {}
}

/// The grant lets its holder use the operation with this name on the resource with this id, or on
/// some resource where no id is given.
pub open spec fn opens(grant: ControlGrant, name: Seq<char>, id: Option<Seq<char>>) -> bool {
    &&& is_about(name, grant.resource_kind)
    &&& match grant.access {
        ControlAccess::Read => only_reports(name),
        ControlAccess::Write => !takes_control(name),
        ControlAccess::Control => true,
    }
    &&& match (grant.resource_id, id) {
        (Some(own), Some(asked)) => own@ == asked,
        _ => true,
    }
}

/// A caller is authorized by a grant that opens the operation, and by nothing else.
pub proof fn law_grants_authorize(
    caller: ControlCaller,
    operation: Operation,
    id: Option<Seq<char>>,
)
    ensures
        authorized(caller, operation, id) <==> exists|i: int|
            0 <= i < caller.grants@.len() && opens(
                #[trigger] caller.grants@[i],
                operation.text(),
                id,
            ),
{
    lemma_names(operation);
    assert forall|i: int| 0 <= i < caller.grants@.len() implies (opens(
        #[trigger] caller.grants@[i],
        operation.text(),
        id,
    ) <==> (caller.grants@[i].reaches(operation.about(), id, operation.needs()) || (id is None
        && caller.grants@[i].reaches_any(operation.about(), operation.needs())))) by {
        lemma_opens(caller.grants@[i], operation, id);
    }
    if authorized(caller, operation, id) {
        if caller.may_access(operation.about(), id, operation.needs()) {
            let i = choose|i: int|
                0 <= i < caller.grants@.len() && #[trigger] caller.grants@[i].reaches(
                    operation.about(),
                    id,
                    operation.needs(),
                );
            assert(opens(caller.grants@[i], operation.text(), id));
        } else {
            let i = choose|i: int|
                0 <= i < caller.grants@.len() && #[trigger] caller.grants@[i].reaches_any(
                    operation.about(),
                    operation.needs(),
                );
            assert(opens(caller.grants@[i], operation.text(), id));
        }
    }
}

proof fn lemma_opens(grant: ControlGrant, operation: Operation, id: Option<Seq<char>>)
    ensures
        opens(grant, operation.text(), id) <==> (grant.reaches(
            operation.about(),
            id,
            operation.needs(),
        ) || (id is None && grant.reaches_any(operation.about(), operation.needs()))),
{
    lemma_names(operation);
    assert(is_about(operation.text(), grant.resource_kind) <==> operation.about()
        == grant.resource_kind);
    assert(only_reports(operation.text()) <==> operation.needs() == ControlAccess::Read);
    assert(takes_control(operation.text()) <==> operation.needs() == ControlAccess::Control);
}

/// A request is refused as unauthorized exactly when no grant of its caller opens the operation
/// that it names; an agent's question for the browsers there are needs no grant.
pub proof fn law_only_grants_open_the_door(
    caller: ControlCaller,
    request: ControlRequest,
    kind: ControlResourceKind,
)
    requires
        request.contract_version == 1,
        is_about(request.operation@, kind),
        request.resource is Some ==> request.resource->0.kind == kind,
    ensures
        ({
            let id = match resource_view(request.resource) {
                Some((_, id)) => Some(id),
                None => None,
            };
            let unauthorized = door_refusal(caller, request) matches Some(refusal) && refusal.code
                == ControlErrorCode::Unauthorized;
            let open = exists|i: int|
                0 <= i < caller.grants@.len() && opens(
                    #[trigger] caller.grants@[i],
                    request.operation@,
                    id,
                );
            let list = caller.kind == ControlCallerKind::Agent && request.resource is None
                && request.operation@ == "browser.runtimes.list"@;
            &&& unauthorized <==> !open && !list
            &&& !unauthorized ==> (door_refusal(caller, request) is None
                <==> request.arguments.view() is Object)
        }),
{
    law_names_lead_to_their_operation(Operation::AgentsList, request.operation@, kind);
    let operation = operation_of(request.operation@)->0;
    law_grants_authorize(caller, operation, requested_id(request));
    lemma_names(operation);
}

/// A caller with any grant on resources of a kind gets past the door with every request that only
/// asks how those resources are.
pub proof fn law_readers_may_look(
    caller: ControlCaller,
    request: ControlRequest,
    kind: ControlResourceKind,
    i: int,
)
    requires
        only_reports(request.operation@),
        is_about(request.operation@, kind),
        0 <= i < caller.grants@.len(),
        caller.grants@[i].resource_kind == kind,
        caller.grants@[i].resource_id is None || request.resource is None || (request.resource
            matches Some(resource) && resource.id@ == caller.grants@[i].resource_id->0@),
    ensures
        door_refusal(caller, request) matches Some(refusal) ==> refusal.code
            != ControlErrorCode::Unauthorized,
{
    if request.contract_version == 1 && (request.resource is Some ==> request.resource->0.kind
        == kind) {
        law_only_grants_open_the_door(caller, request, kind);
        law_names_lead_to_their_operation(Operation::AgentsList, request.operation@, kind);
        lemma_names(operation_of(request.operation@)->0);
        let id = match resource_view(request.resource) {
            Some((_, id)) => Some(id),
            None => None,
        };
        assert(opens(caller.grants@[i], request.operation@, id));
    } else {
        law_names_lead_to_their_operation(Operation::AgentsList, request.operation@, kind);
    }
}

/// What is wrong with a request is told in this order: its version, its operation, the kind of its
/// resource, the caller's access, its arguments.
pub proof fn law_refusals_come_in_order(caller: ControlCaller, request: ControlRequest)
    ensures
        ({
            let known = exists|k: ControlResourceKind| is_about(request.operation@, k);
            let fits = request.resource matches Some(resource) ==> is_about(
                request.operation@,
                resource.kind,
            );
            match door_refusal(caller, request) {
                None => request.contract_version == 1 && known && fits && request.arguments.view()
                    is Object,
                Some(refusal) => {
                    &&& refusal.code == ControlErrorCode::UnsupportedVersion
                        <==> request.contract_version != 1
                    &&& refusal.code == ControlErrorCode::UnknownOperation
                        <==> request.contract_version == 1 && !known
                    &&& refusal.code == ControlErrorCode::InvalidArguments ==> !fits || !(
                    request.arguments.view() is Object)
                    &&& request.contract_version == 1 && known && !fits ==> refusal.code
                        == ControlErrorCode::InvalidArguments
                    &&& refusal.code == ControlErrorCode::UnsupportedVersion || refusal.code
                        == ControlErrorCode::UnknownOperation || refusal.code
                        == ControlErrorCode::InvalidArguments || refusal.code
                        == ControlErrorCode::Unauthorized
                },
            }
        }),
{
    let name = request.operation@;
    if operation_of(name) is Some {
        let operation = operation_of(name)->0;
        lemma_names(operation);
        assert(is_about(name, operation.about()));
        if request.resource is Some {
            lemma_one_kind(operation, request.resource->0.kind);
        }
    } else {
        assert forall|k: ControlResourceKind| !is_about(name, k) by {
            law_names_lead_to_their_operation(Operation::AgentsList, name, k);
        }
    }
}

proof fn lemma_one_kind(operation: Operation, kind: ControlResourceKind)
    ensures
        is_about(operation.text(), kind) <==> operation.about() == kind,
{
    lemma_names(operation);
}

/// A caller's catalog shows an operation exactly when some grant opens it on some resource; agents
/// see all that can be done with browsers.
pub proof fn law_catalogs_show_what_grants_open(caller: ControlCaller, operation: Operation)
    ensures
        offered_of(caller, operations()).contains(operation) <==> (exists|i: int|
            0 <= i < caller.grants@.len() && opens(
                #[trigger] caller.grants@[i],
                operation.text(),
                None,
            )) || (caller.kind == ControlCallerKind::Agent && is_about(
            operation.text(),
            ControlResourceKind::BrowserRuntime,
        )),
{
    law_grants_authorize(caller, operation, None);
    law_the_catalog_lists_every_operation_once(operation, 0, 0);
    lemma_offered(caller, operations(), operation);
    lemma_one_kind(operation, ControlResourceKind::BrowserRuntime);
    if caller.may_access(operation.about(), None, operation.needs()) {
        let i = choose|i: int|
            0 <= i < caller.grants@.len() && #[trigger] caller.grants@[i].reaches(
                operation.about(),
                None,
                operation.needs(),
            );
        assert(caller.grants@[i].reaches_any(operation.about(), operation.needs()));
    }
}

proof fn lemma_offered(caller: ControlCaller, list: Seq<Operation>, operation: Operation)
    ensures
        offered_of(caller, list).contains(operation) <==> list.contains(operation) && offered(
            caller,
            operation,
        ),
    decreases list.len(),
{
    if list.len() > 0 {
        let front = list.drop_last();
        let last = list.last();
        lemma_offered(caller, front, operation);
        assert(list =~= front.push(last));
        assert(list.contains(operation) <==> front.contains(operation) || operation == last) by {
            if front.contains(operation) {
                let k = choose|k: int| 0 <= k < front.len() && front[k] == operation;
                assert(list[k] == operation);
            }
            if operation == last {
                assert(list[list.len() - 1] == operation);
            }
            if list.contains(operation) && operation != last {
                let k = choose|k: int| 0 <= k < list.len() && list[k] == operation;
                assert(front[k] == operation);
            }
        }
        let rest = offered_of(caller, front);
        let all = offered_of(caller, list);
        if offered(caller, last) {
            assert(all =~= rest.push(last));
            assert(all[all.len() - 1] == last);
            if rest.contains(operation) {
                let k = choose|k: int| 0 <= k < rest.len() && rest[k] == operation;
                assert(all[k] == operation);
            }
            if all.contains(operation) && operation != last {
                let k = choose|k: int| 0 <= k < all.len() && all[k] == operation;
                assert(rest[k] == operation);
            }
        }
    }
}

/// Past the door, a new request runs at once unless an agent asks for what needs the approval of a
/// user: then the approval that it names is used, and where it names none the user is asked.
pub proof fn law_only_agents_wait_for_approval(
    table: Map<KeyView, EntryView>,
    caller: ControlCaller,
    request: ControlRequest,
)
    requires
        door_refusal(caller, request) is None,
        request.idempotency_key is None,
    ensures
        ({
            let waits = caller.kind == ControlCallerKind::Agent && asks_the_user(
                request.operation@,
            );
            let decided = verdict(table, caller, request);
            &&& waits && request.approval_id is None ==> decided == Verdict::AskUser
            &&& waits && request.approval_id is Some ==> decided == Verdict::UseApproval(
                request.approval_id->0@,
            )
            &&& !waits ==> (decided matches Verdict::Run(operation) && operation.text()
                == request.operation@)
        }),
{
    let operation = operation_of(request.operation@)->0;
    lemma_names(operation);
}

/// A request that is being carried out concerns only requests of the same caller, for the same
/// operation, under the same key: every other request is decided as before.
pub proof fn law_keys_belong_to_caller_and_operation(
    table: Map<KeyView, EntryView>,
    caller: ControlCaller,
    request: ControlRequest,
    other_caller: ControlCaller,
    other: ControlRequest,
)
    requires
        request.idempotency_key is Some,
        other_caller.caller_id@ != caller.caller_id@ || other.operation@ != request.operation@
            || other.idempotency_key is None || other.idempotency_key->0@
            != request.idempotency_key->0@,
    ensures
        verdict(with_reservation(table, caller, request), other_caller, other) == verdict(
            table,
            other_caller,
            other,
        ),
{
}

/// A key that is taken by a request is refused for another resource, and for other arguments; only
/// the same request again is told that it is still in flight.
pub proof fn law_a_taken_key_stands_for_one_request(
    table: Map<KeyView, EntryView>,
    caller: ControlCaller,
    request: ControlRequest,
    other: ControlRequest,
)
    requires
        door_refusal(caller, other) is None,
        other.operation@ == request.operation@,
        request.idempotency_key is Some,
        other.idempotency_key is Some,
        other.idempotency_key->0@ == request.idempotency_key->0@,
        request.idempotency_key->0@.len() > 0,
    ensures
        ({
            let decided = verdict(with_reservation(table, caller, request), caller, other);
            let same = resource_view(request.resource) == resource_view(other.resource)
                && alike(request.arguments.view(), other.arguments.view());
            &&& same ==> decided == Verdict::Known(Standing::InFlight)
            &&& !same ==> decided == Verdict::Known(Standing::Bound)
        }),
{
}

/// An empty key is none: the request is never told that it is known, and nothing is remembered of it.
pub proof fn law_empty_keys_are_no_keys(
    table: Map<KeyView, EntryView>,
    caller: ControlCaller,
    request: ControlRequest,
)
    requires
        request.idempotency_key is None || request.idempotency_key->0@.len() == 0,
    ensures
        !(verdict(table, caller, request) is Known),
        with_reservation(table, caller, request) == table,
{
}

/// A request with a key is remembered under its caller, its operation and the key, with its resource
/// and its arguments, and without an answer until there is one.
pub proof fn law_running_requests_are_remembered(
    table: Map<KeyView, EntryView>,
    caller: ControlCaller,
    request: ControlRequest,
)
    requires
        request.idempotency_key is Some,
        request.idempotency_key->0@.len() > 0,
    ensures
        ({
            let key = KeyView {
                caller_id: caller.caller_id@,
                operation: request.operation@,
                key: request.idempotency_key->0@,
            };
            let after = with_reservation(table, caller, request);
            &&& after.dom().contains(key)
            &&& after[key].response is None
            &&& after[key].signature.resource == resource_view(request.resource)
            &&& after[key].signature.arguments == request.arguments.view()
        }),
{
}

} // verus!
