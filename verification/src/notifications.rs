//! When the user is told of an agent, and what is said.
use vstd::prelude::*;
use vstd::string::*;

use crate::mux_store::MuxPane;
use crate::number_text::{decimal, decimal_text};
use crate::text::{has_prefix, opt_view, same, starts_with};

verus! {

/// The name of the application.
pub const DISPLAY_NAME: &'static str = "Luna Mux";

/// How a managed agent is doing.
#[derive(Clone, Copy, Debug, PartialEq, Eq, Structural)]
pub enum ManagedAgentStatus {
    Working,
    Waiting,
    Completed,
    Error,
}

/// What a managed agent is waiting for.
#[derive(Clone, Copy, Debug, PartialEq, Eq, Structural)]
pub enum ManagedAgentWaitingReason {
    Permission,
    Input,
}

/// Where the news of a managed agent comes from.
#[derive(Clone, Copy, Debug, PartialEq, Eq, Structural)]
pub enum ManagedAgentEvidence {
    StructuredHook,
    TerminalHeuristic,
}

/// The place of a managed agent.
#[derive(Debug)]
pub struct TerminalManagedAgentContext {
    pub mux_session_id: String,
    pub pane_id: String,
    pub runtime_id: String,
    pub agent_id: String,
    pub launch_profile_id: String,
}

/// News of a managed agent.
#[derive(Debug)]
pub struct ManagedAgentEvent {
    pub sequence: u64,
    pub timestamp: String,
    pub context: TerminalManagedAgentContext,
    pub adapter_id: String,
    pub agent_session_id: Option<String>,
    pub agent_turn_id: Option<String>,
    pub hook_event_name: String,
    pub status: ManagedAgentStatus,
    pub waiting_reason: Option<ManagedAgentWaitingReason>,
    pub evidence: ManagedAgentEvidence,
}

/// The agent asks for the user: it waits, it is done or it failed.
pub open spec fn asks_for_attention(status: ManagedAgentStatus) -> bool {
    status == ManagedAgentStatus::Waiting || status == ManagedAgentStatus::Completed || status
        == ManagedAgentStatus::Error
}

/// The event only tells that a process came to its end.
pub open spec fn is_teardown(name: Seq<char>) -> bool {
    name == "SessionEnd"@ || name == "RuntimeExit"@ || name == "AgentProcessExit"@
}

/// The user is to be told of the event.
pub open spec fn is_notified(event: ManagedAgentEvent) -> bool {
    event.evidence == ManagedAgentEvidence::StructuredHook && asks_for_attention(event.status)
        && !is_teardown(event.hook_event_name@)
}

/// Whether the user is to be told of the event.
pub fn should_send_agent_desktop_notification(event: &ManagedAgentEvent) -> (r: bool)
    ensures
        r == is_notified(*event),
{
    let structured = match event.evidence {
        ManagedAgentEvidence::StructuredHook => true,
        ManagedAgentEvidence::TerminalHeuristic => false,
    };
    let attention = match event.status {
        ManagedAgentStatus::Waiting => true,
        ManagedAgentStatus::Completed => true,
        ManagedAgentStatus::Error => true,
        _ => false,
    };
    let name = event.hook_event_name.as_str();
    structured && attention && !same(name, "SessionEnd") && !same(name, "RuntimeExit") && !same(
        name,
        "AgentProcessExit",
    )
}

/// The language is a form of Chinese.
pub open spec fn is_chinese(language: Seq<char>) -> bool {
    starts_with(language, "zh"@)
}

/// What is said of an agent.
pub open spec fn notification_body(
    status: ManagedAgentStatus,
    waiting_reason: Option<ManagedAgentWaitingReason>,
    chinese: bool,
) -> Seq<char> {
    match status {
        ManagedAgentStatus::Waiting => if waiting_reason == Some(
            ManagedAgentWaitingReason::Permission,
        ) {
            if chinese {
                "Agent 正在等待权限确认"@
            } else {
                "Agent is waiting for permission"@
            }
        } else {
            if chinese {
                "Agent 正在等待输入"@
            } else {
                "Agent is waiting for input"@
            }
        },
        ManagedAgentStatus::Completed => if chinese {
            "Agent 已完成任务"@
        } else {
            "Agent completed its task"@
        },
        ManagedAgentStatus::Error => if chinese {
            "Agent 运行出错"@
        } else {
            "Agent encountered an error"@
        },
        _ => if chinese {
            "Agent 状态已更新"@
        } else {
            "Agent status changed"@
        },
    }
}

/// What is said of the event, in the language of the user.
pub fn agent_desktop_notification_body(event: &ManagedAgentEvent, language: &str) -> (r: &'static str)
    ensures
        r@ == notification_body(event.status, event.waiting_reason, is_chinese(language@)),
{
    let chinese = has_prefix(language, "zh");
    let permission = match event.waiting_reason {
        Some(ManagedAgentWaitingReason::Permission) => true,
        _ => false,
    };
    match event.status {
        ManagedAgentStatus::Waiting => match (permission, chinese) {
            (true, true) => "Agent 正在等待权限确认",
            (true, false) => "Agent is waiting for permission",
            (false, true) => "Agent 正在等待输入",
            (false, false) => "Agent is waiting for input",
        },
        ManagedAgentStatus::Completed => if chinese {
            "Agent 已完成任务"
        } else {
            "Agent completed its task"
        },
        ManagedAgentStatus::Error => if chinese {
            "Agent 运行出错"
        } else {
            "Agent encountered an error"
        },
        _ => if chinese {
            "Agent 状态已更新"
        } else {
            "Agent status changed"
        },
    }
}

/// The pane that the user has in front of them.
#[derive(Debug)]
pub struct AgentNotificationFocus {
    pub mux_session_id: Option<String>,
    pub pane_id: Option<String>,
    pub terminal_visible: bool,
}

impl Default for AgentNotificationFocus {
    fn default() -> (r: Self)
        ensures
            r.mux_session_id is None,
            r.pane_id is None,
            !r.terminal_visible,
    {
        AgentNotificationFocus { mux_session_id: None, pane_id: None, terminal_visible: false }
    }
}

/// The user is looking at the pane of the event.
pub open spec fn is_looked_at(
    event: ManagedAgentEvent,
    window_focused: bool,
    focus: AgentNotificationFocus,
) -> bool {
    window_focused && focus.terminal_visible && opt_view(focus.mux_session_id) == Some(
        event.context.mux_session_id@,
    ) && opt_view(focus.pane_id) == Some(event.context.pane_id@)
}

fn is_text(text: &Option<String>, other: &str) -> (r: bool)
    ensures
        r == (opt_view(*text) == Some(other@)),
{
    match text {
        Some(text) => same(text.as_str(), other),
        None => false,
    }
}

/// The title of a pane, or the name of the application where there is no such pane.
pub open spec fn pane_title(panes: Seq<MuxPane>, pane_id: Seq<char>) -> Seq<char>
    decreases panes.len(),
{
    if panes.len() == 0 {
        DISPLAY_NAME@
    } else if panes[0].id@ == pane_id {
        panes[0].title@
    } else {
        pane_title(panes.skip(1), pane_id)
    }
}

/// The title under which an event is told.
pub fn notification_title(panes: &[MuxPane], pane_id: &str) -> (r: String)
    ensures
        r@ == pane_title(panes@, pane_id@),
{
    let mut i: usize = 0;
    assert(panes@.skip(0) =~= panes@);
    while i < panes.len()
        invariant
            i <= panes@.len(),
            pane_title(panes@, pane_id@) == pane_title(panes@.skip(i as int), pane_id@),
        decreases panes@.len() - i,
    {
        assert(panes@.skip(i as int)[0] == panes@[i as int]);
        if same(panes[i].id.as_str(), pane_id) {
            return panes[i].title.clone();
        }
        assert(panes@.skip(i as int).skip(1) =~= panes@.skip(i + 1));
        i = i + 1;
    }
    DISPLAY_NAME.to_owned()
}

/// What the user is told.
#[derive(Debug)]
pub struct Notification {
    pub title: String,
    pub body: &'static str,
}

/// What the user is told of an event. Nothing is said of what they are looking at.
pub fn notification(
    event: &ManagedAgentEvent,
    window_focused: bool,
    focus: &AgentNotificationFocus,
    language: &str,
    panes: &[MuxPane],
) -> (r: Option<Notification>)
    ensures
        r is Some == (is_notified(*event) && !is_looked_at(*event, window_focused, *focus)),
        r is Some ==> r->0.title@ == pane_title(panes@, event.context.pane_id@),
        r is Some ==> r->0.body@ == notification_body(
            event.status,
            event.waiting_reason,
            is_chinese(language@),
        ),
{
    if !should_send_agent_desktop_notification(event) {
        return None;
    }
    if window_focused && focus.terminal_visible && is_text(
        &focus.mux_session_id,
        event.context.mux_session_id.as_str(),
    ) && is_text(&focus.pane_id, event.context.pane_id.as_str()) {
        return None;
    }
    Some(
        Notification {
            title: notification_title(panes, event.context.pane_id.as_str()),
            body: agent_desktop_notification_body(event, language),
        },
    )
}

/// A notification names what the agent needs: the body that only tells of a change is never shown.
pub proof fn law_notifications_say_what_is_needed(event: ManagedAgentEvent, chinese: bool)
    requires
        is_notified(event),
    ensures
        notification_body(event.status, event.waiting_reason, chinese) != "Agent 状态已更新"@,
        notification_body(event.status, event.waiting_reason, chinese) != "Agent status changed"@,
{
    reveal_strlit("Agent 状态已更新");
    reveal_strlit("Agent status changed");
    reveal_strlit("Agent 正在等待权限确认");
    reveal_strlit("Agent 正在等待输入");
    reveal_strlit("Agent 已完成任务");
    reveal_strlit("Agent 运行出错");
    reveal_strlit("Agent is waiting for permission");
    reveal_strlit("Agent is waiting for input");
    reveal_strlit("Agent completed its task");
    reveal_strlit("Agent encountered an error");
    let body = notification_body(event.status, event.waiting_reason, chinese);
    assert("Agent 状态已更新"@[6] == '状');
    assert("Agent status changed"@[6] == 's');
    assert(body[6] != '状' && body[6] != 's');
}

/// What the user did with a notification of the system.
#[derive(Clone, Copy, Debug, PartialEq, Eq, Structural)]
pub enum NotificationResponse {
    /// It was clicked.
    Default,
    /// One of its buttons was pressed.
    Action,
    /// It was answered.
    Reply,
    /// It was closed, or went away.
    Closed,
}

/// Whether the pane that a notification speaks of is shown: not where it was closed.
pub fn should_activate_windows_agent_notification(response: NotificationResponse) -> (r: bool)
    ensures
        r == (response != NotificationResponse::Closed),
{
    match response {
        NotificationResponse::Default
        | NotificationResponse::Action
        | NotificationResponse::Reply => true,
        NotificationResponse::Closed => false,
    }
}

/// The question before the application ends while terminals are running: title, message and the
/// two buttons.
pub fn exit_confirmation_copy(language: &str, active_runtime_count: usize) -> (r: (
    String,
    String,
    String,
    String,
))
    ensures
        is_chinese(language@) ==> {
            &&& r.0@ == "退出 "@ + DISPLAY_NAME@ + "？"@
            &&& r.1@ == "仍有 "@ + decimal(active_runtime_count as nat)
                + " 个终端进程正在运行。退出会关闭这些进程。"@
            &&& r.2@ == "退出并关闭进程"@
            &&& r.3@ == "取消"@
        },
        !is_chinese(language@) ==> {
            &&& r.0@ == "Quit "@ + DISPLAY_NAME@ + "?"@
            &&& r.1@ == decimal(active_runtime_count as nat)
                + " terminal process(es) are still running. Quitting will close them."@
            &&& r.2@ == "Quit and close processes"@
            &&& r.3@ == "Cancel"@
        },
{
    let count = decimal_text(active_runtime_count as u64);
    if has_prefix(language, "zh") {
        let mut title: String = "退出 ".to_owned();
        title.append(DISPLAY_NAME);
        title.append("？");
        let mut message: String = "仍有 ".to_owned();
        message.append(count.as_str());
        message.append(" 个终端进程正在运行。退出会关闭这些进程。");
        (title, message, "退出并关闭进程".to_owned(), "取消".to_owned())
    } else {
        let mut title: String = "Quit ".to_owned();
        title.append(DISPLAY_NAME);
        title.append("?");
        let mut message: String = count;
        message.append(" terminal process(es) are still running. Quitting will close them.");
        (title, message, "Quit and close processes".to_owned(), "Cancel".to_owned())
    }
}

/// A notification is sent exactly for what an agent itself told, where it waits, is done or failed,
/// and never for the end of a session or of a program.
pub proof fn law_agents_call_for_attention(event: ManagedAgentEvent)
    ensures
        is_notified(event) <==> event.evidence == ManagedAgentEvidence::StructuredHook
            && event.status != ManagedAgentStatus::Working && event.hook_event_name@
            != "SessionEnd"@ && event.hook_event_name@ != "RuntimeExit"@ && event.hook_event_name@
            != "AgentProcessExit"@,
{
}

/// Nothing is sent while the user looks at the pane of the agent; looking at another pane, another
/// session or another window is no reason.
pub proof fn law_only_the_pane_itself_counts_as_looked_at(
    event: ManagedAgentEvent,
    focus: AgentNotificationFocus,
)
    ensures
        !is_looked_at(event, false, focus),
        !focus.terminal_visible ==> !is_looked_at(event, true, focus),
        focus.pane_id is None || focus.pane_id->0@ != event.context.pane_id@ ==> !is_looked_at(
            event,
            true,
            focus,
        ),
        focus.mux_session_id is None || focus.mux_session_id->0@ != event.context.mux_session_id@
            ==> !is_looked_at(event, true, focus),
        focus.terminal_visible && focus.pane_id is Some && focus.pane_id->0@
            == event.context.pane_id@ && focus.mux_session_id is Some && focus.mux_session_id->0@
            == event.context.mux_session_id@ ==> is_looked_at(event, true, focus),
{
}

/// The words of a notification tell what the agent needs, in the language of the user.
pub proof fn law_notifications_speak_the_language(reason: Option<ManagedAgentWaitingReason>)
    ensures
        ({
            let waiting = ManagedAgentStatus::Waiting;
            let permission = Some(ManagedAgentWaitingReason::Permission);
            &&& notification_body(waiting, permission, false) == "Agent is waiting for permission"@
            &&& notification_body(waiting, permission, true) == "Agent 正在等待权限确认"@
            &&& reason != permission ==> notification_body(waiting, reason, false)
                == "Agent is waiting for input"@
            &&& reason != permission ==> notification_body(waiting, reason, true)
                == "Agent 正在等待输入"@
            &&& notification_body(ManagedAgentStatus::Completed, reason, false)
                == "Agent completed its task"@
            &&& notification_body(ManagedAgentStatus::Completed, reason, true)
                == "Agent 已完成任务"@
            &&& notification_body(ManagedAgentStatus::Error, reason, false)
                == "Agent encountered an error"@
            &&& notification_body(ManagedAgentStatus::Error, reason, true) == "Agent 运行出错"@
        }),
{
}

/// A notification is headed by the title of the pane that it is about; the name of the application
/// stands in where the pane is not there.
pub proof fn law_notifications_are_headed_by_their_pane(panes: Seq<MuxPane>, pane_id: Seq<char>)
    ensures
        (exists|i: int|
            0 <= i < panes.len() && (#[trigger] panes[i]).id@ == pane_id && panes[i].title@
                == pane_title(panes, pane_id)) || (pane_title(panes, pane_id) == "Luna Mux"@
            && forall|i: int| 0 <= i < panes.len() ==> (#[trigger] panes[i]).id@ != pane_id),
    decreases panes.len(),
{
    if panes.len() > 0 {
        let rest = panes.skip(1);
        law_notifications_are_headed_by_their_pane(rest, pane_id);
        assert forall|i: int| 0 <= i < rest.len() implies #[trigger] rest[i] == panes[i + 1] by {}
        if panes[0].id@ != pane_id {
            if exists|i: int|
                0 <= i < rest.len() && (#[trigger] rest[i]).id@ == pane_id && rest[i].title@
                    == pane_title(rest, pane_id) {
                let i = choose|i: int|
                    0 <= i < rest.len() && (#[trigger] rest[i]).id@ == pane_id && rest[i].title@
                        == pane_title(rest, pane_id);
                assert(panes[i + 1].id@ == pane_id);
            } else {
                assert forall|i: int| 0 <= i < panes.len() implies (#[trigger] panes[i]).id@
                    != pane_id by {
                    if i > 0 {
                        assert(rest[i - 1] == panes[i]);
                    }
                }
            }
        }
    }
}

/// A notification leads to its pane where the user did anything with it but close it.
pub proof fn law_closing_a_notification_does_nothing(response: NotificationResponse, r: bool)
    requires
        should_activate_windows_agent_notification.ensures((response,), r),
    ensures
        !r <==> response == NotificationResponse::Closed,
{
}

/// The question before the end names the application and how many processes run, in the language of
/// the user.
pub proof fn law_the_question_tells_how_many_run(
    language: &str,
    count: usize,
    r: (String, String, String, String),
)
    requires
        exit_confirmation_copy.ensures((language, count), r),
    ensures
        starts_with(language@, "zh"@) ==> r.0@ == "退出 "@ + "Luna Mux"@ + "？"@ && r.1@ == "仍有 "@
            + decimal(count as nat) + " 个终端进程正在运行。退出会关闭这些进程。"@ && r.3@
            == "取消"@,
        !starts_with(language@, "zh"@) ==> r.0@ == "Quit "@ + "Luna Mux"@ + "?"@ && r.1@ == decimal(
            count as nat,
        ) + " terminal process(es) are still running. Quitting will close them."@ && r.3@
            == "Cancel"@,
{
}

} // verus!
