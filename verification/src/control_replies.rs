//! The answers of control operations.
use vstd::prelude::*;
use vstd::string::*;

use crate::control_contract::{plain_error, ControlErrorCode, ControlResult};
use crate::control_effects::ControlEffect;
use crate::control_requests::{backend_error, internal_error, says_not_found};
use crate::json::{fields_view, push_field, text_value, whole_value, Json, JsonNumber, JsonView};

verus! {

/// What came of an effect: it was brought about, with a flag, a text or a value where there is
/// one, or it failed.
#[derive(Debug)]
pub enum EffectOutcome {
    Done,
    Flag(bool),
    Text(String),
    Value(Json),
    Failed(String),
}

/// The flag that came of an effect.
pub open spec fn flag_of(outcome: EffectOutcome) -> JsonView {
    match outcome {
        EffectOutcome::Flag(b) => JsonView::Bool(b),
        _ => JsonView::Null,
    }
}

/// The text that came of an effect.
pub open spec fn text_of(outcome: EffectOutcome) -> JsonView {
    match outcome {
        EffectOutcome::Text(s) => JsonView::Text(s@),
        _ => JsonView::Null,
    }
}

/// The value that came of an effect.
pub open spec fn value_of(outcome: EffectOutcome) -> JsonView {
    match outcome {
        EffectOutcome::Value(v) => v.view(),
        _ => JsonView::Null,
    }
}

/// The length of a text in bytes.
pub open spec fn size_of_text(s: Seq<char>) -> JsonView {
    JsonView::Number(JsonNumber::Whole(vstd::utf8::encode_utf8(s).len() as usize as u64))
}

/// An object with one field.
pub open spec fn object_of(name: Seq<char>, value: JsonView) -> JsonView {
    JsonView::Object(seq![(name, value)])
}

/// An object with two fields.
pub open spec fn object_of_two(
    name: Seq<char>,
    value: JsonView,
    second: Seq<char>,
    other: JsonView,
) -> JsonView {
    JsonView::Object(seq![(name, value), (second, other)])
}

fn object(name: &str, value: Json) -> (r: Json)
    ensures
        r.view() == object_of(name@, value.view()),
{
    let mut fields: Vec<(String, Json)> = Vec::new();
    push_field(&mut fields, name, value);
    assert(fields_view(fields@) =~= seq![(name@, value.view())]);
    Json::Object(fields)
}

fn object_two(name: &str, value: Json, second: &str, other: Json) -> (r: Json)
    ensures
        r.view() == object_of_two(name@, value.view(), second@, other.view()),
{
    let mut fields: Vec<(String, Json)> = Vec::new();
    push_field(&mut fields, name, value);
    push_field(&mut fields, second, other);
    assert(fields_view(fields@) =~= seq![(name@, value.view()), (second@, other.view())]);
    Json::Object(fields)
}

fn take_flag(outcome: EffectOutcome) -> (r: Json)
    ensures
        r.view() == flag_of(outcome),
{
    match outcome {
        EffectOutcome::Flag(b) => Json::Bool(b),
        _ => Json::Null,
    }
}

fn take_text(outcome: EffectOutcome) -> (r: Json)
    ensures
        r.view() == text_of(outcome),
{
    match outcome {
        EffectOutcome::Text(s) => Json::Text(s),
        _ => Json::Null,
    }
}

fn take_value(outcome: EffectOutcome) -> (r: Json)
    ensures
        r.view() == value_of(outcome),
{
    match outcome {
        EffectOutcome::Value(v) => v,
        _ => Json::Null,
    }
}

/// The effect works on the application itself, so that its failure is an internal one; the other
/// effects go to a backend.
pub open spec fn is_internal(effect: ControlEffect) -> bool {
    match effect {
        ControlEffect::ReadAppearance
        | ControlEffect::SetTheme { .. }
        | ControlEffect::SetTerminal { .. }
        | ControlEffect::RunDiagnostics { .. }
        | ControlEffect::Repair { .. }
        | ControlEffect::ListConnections
        | ControlEffect::ListAgents
        | ControlEffect::AgentStatus { .. }
        | ControlEffect::ListSessions
        | ControlEffect::UpdateSession { .. }
        | ControlEffect::SetLayout { .. }
        | ControlEffect::ListPanes { .. }
        | ControlEffect::CreatePane { .. }
        | ControlEffect::UpdatePane { .. }
        | ControlEffect::ListTargets
        | ControlEffect::ListRuntimes
        | ControlEffect::ListProfiles { .. } => true,
        _ => false,
    }
}

/// The answer to a request whose effect was brought about.
pub open spec fn reply_of(effect: ControlEffect, outcome: EffectOutcome) -> JsonView {
    match effect {
        ControlEffect::SetTheme { .. } => object_of("theme"@, value_of(outcome)),
        ControlEffect::SendTask { task, .. } => object_of_two("acceptedBytes"@, size_of_text(task@), "runtimeId"@, text_of(outcome)),
        ControlEffect::InterruptAgent { .. } => object_of_two("interrupted"@, JsonView::Bool(true), "runtimeId"@, text_of(outcome)),
        ControlEffect::WriteRuntime { data, .. } => object_of("acceptedBytes"@, size_of_text(data@)),
        ControlEffect::ResizeRuntime { cols, rows, .. } => object_of_two("cols"@, JsonView::Number(JsonNumber::Whole(cols as u64)), "rows"@, JsonView::Number(JsonNumber::Whole(rows as u64))),
        ControlEffect::SetPaused { paused, .. } => object_of("paused"@, JsonView::Bool(paused)),
        ControlEffect::InterruptRuntime { .. } => object_of("interrupted"@, JsonView::Bool(true)),
        ControlEffect::CloseRuntime { .. } => object_of("closed"@, JsonView::Bool(true)),
        ControlEffect::CancelTransfer { .. } => object_of("cancelled"@, flag_of(outcome)),
        ControlEffect::StopTunnel { .. } => object_of("stopped"@, flag_of(outcome)),
        ControlEffect::Navigate { url, .. } => object_of_two("navigated"@, JsonView::Bool(true), "url"@, JsonView::Text(url@)),
        ControlEffect::Screenshot { .. } => object_of("dataUrl"@, text_of(outcome)),
        ControlEffect::Click { .. } => object_of("clicked"@, flag_of(outcome)),
        ControlEffect::TypeText { text, .. } => object_of_two("acceptedBytes"@, size_of_text(text@), "typed"@, flag_of(outcome)),
        ControlEffect::Press { .. } => object_of("pressed"@, JsonView::Bool(true)),
        ControlEffect::Scroll { .. } => object_of("scrolled"@, JsonView::Bool(true)),
        ControlEffect::Wait { .. } => object_of("found"@, flag_of(outcome)),
        ControlEffect::ResizeBrowser { width, height, .. } => object_of_two("height"@, JsonView::Number(JsonNumber::Whole(height as u64)), "width"@, JsonView::Number(JsonNumber::Whole(width as u64))),
        ControlEffect::CloseBrowser { .. } => object_of("closed"@, JsonView::Bool(true)),
        _ => value_of(outcome),
    }
}

/// The answer to a request, or the error where its effect failed.
pub fn effect_result(effect: &ControlEffect, outcome: EffectOutcome) -> (r: ControlResult<Json>)
    ensures
        match outcome {
            EffectOutcome::Failed(message) => r is Err && plain_error(
                r->Err_0,
                if is_internal(*effect) {
                    ControlErrorCode::Internal
                } else if says_not_found(message@) {
                    ControlErrorCode::NotFound
                } else {
                    ControlErrorCode::Unavailable
                },
                message@,
            ),
            _ => r is Ok && r->Ok_0.view() == reply_of(*effect, outcome),
        },
{
    match outcome {
        EffectOutcome::Failed(message) => {
            let internal = match effect {
                ControlEffect::ReadAppearance
                | ControlEffect::SetTheme { .. }
                | ControlEffect::SetTerminal { .. }
                | ControlEffect::RunDiagnostics { .. }
                | ControlEffect::Repair { .. }
                | ControlEffect::ListConnections
                | ControlEffect::ListAgents
                | ControlEffect::AgentStatus { .. }
                | ControlEffect::ListSessions
                | ControlEffect::UpdateSession { .. }
                | ControlEffect::SetLayout { .. }
                | ControlEffect::ListPanes { .. }
                | ControlEffect::CreatePane { .. }
                | ControlEffect::UpdatePane { .. }
                | ControlEffect::ListTargets
                | ControlEffect::ListRuntimes
                | ControlEffect::ListProfiles { .. } => true,
                _ => false,
            };
            if internal {
                Err(internal_error(message.as_str()))
            } else {
                Err(backend_error(message.as_str()))
            }
        },
        outcome => Ok(
            match effect {
                ControlEffect::SetTheme { .. } => object("theme", take_value(outcome)),
                ControlEffect::SendTask { task, .. } => object_two("acceptedBytes", whole_value(task.as_str().len() as u64), "runtimeId", take_text(outcome)),
                ControlEffect::InterruptAgent { .. } => object_two("interrupted", Json::Bool(true), "runtimeId", take_text(outcome)),
                ControlEffect::WriteRuntime { data, .. } => object("acceptedBytes", whole_value(data.as_str().len() as u64)),
                ControlEffect::ResizeRuntime { cols, rows, .. } => object_two("cols", whole_value(*cols as u64), "rows", whole_value(*rows as u64)),
                ControlEffect::SetPaused { paused, .. } => object("paused", Json::Bool(*paused)),
                ControlEffect::InterruptRuntime { .. } => object("interrupted", Json::Bool(true)),
                ControlEffect::CloseRuntime { .. } => object("closed", Json::Bool(true)),
                ControlEffect::CancelTransfer { .. } => object("cancelled", take_flag(outcome)),
                ControlEffect::StopTunnel { .. } => object("stopped", take_flag(outcome)),
                ControlEffect::Navigate { url, .. } => object_two("navigated", Json::Bool(true), "url", text_value(url.as_str())),
                ControlEffect::Screenshot { .. } => object("dataUrl", take_text(outcome)),
                ControlEffect::Click { .. } => object("clicked", take_flag(outcome)),
                ControlEffect::TypeText { text, .. } => object_two("acceptedBytes", whole_value(text.as_str().len() as u64), "typed", take_flag(outcome)),
                ControlEffect::Press { .. } => object("pressed", Json::Bool(true)),
                ControlEffect::Scroll { .. } => object("scrolled", Json::Bool(true)),
                ControlEffect::Wait { .. } => object("found", take_flag(outcome)),
                ControlEffect::ResizeBrowser { width, height, .. } => object_two("height", whole_value(*height as u64), "width", whole_value(*width as u64)),
                ControlEffect::CloseBrowser { .. } => object("closed", Json::Bool(true)),
                _ => take_value(outcome),
            },
        ),
    }
}

/// The text that hands a task to an agent: the task, and the key that ends a line.
pub fn task_input(task: &str) -> (r: String)
    ensures
        r@ == task@ + "\r"@,
{
    let mut r: String = task.to_owned();
    r.append("\r");
    r
}

fn pane_with_session(pane: Json, session: Json, name: &str, start: bool) -> (r: Json)
    ensures
        r.view() == JsonView::Object(
            seq![
                ("pane"@, pane.view()),
                ("session"@, session.view()),
                (name@, JsonView::Bool(start)),
            ],
        ),
{
    let ghost all = seq![
        ("pane"@, pane.view()),
        ("session"@, session.view()),
        (name@, JsonView::Bool(start)),
    ];
    let mut fields: Vec<(String, Json)> = Vec::new();
    push_field(&mut fields, "pane", pane);
    push_field(&mut fields, "session", session);
    push_field(&mut fields, name, Json::Bool(start));
    assert(fields_view(fields@) =~= all);
    Json::Object(fields)
}

/// The news of a pane that was made: the pane, its session, and whether its terminal is to start.
pub fn created_pane_news(pane: Json, session: Json, start: bool) -> (r: Json)
    ensures
        r.view() == JsonView::Object(
            seq![
                ("pane"@, pane.view()),
                ("session"@, session.view()),
                ("start"@, JsonView::Bool(start)),
            ],
        ),
{
    pane_with_session(pane, session, "start", start)
}

/// The reply to a request that made a pane: the pane, its session, and whether its terminal was
/// asked to start.
pub fn created_pane_reply(pane: Json, session: Json, start: bool) -> (r: Json)
    ensures
        r.view() == JsonView::Object(
            seq![
                ("pane"@, pane.view()),
                ("session"@, session.view()),
                ("startRequested"@, JsonView::Bool(start)),
            ],
        ),
{
    pane_with_session(pane, session, "startRequested", start)
}

/// A failure is answered with its own words: as an internal one where the application itself failed,
/// as not found where the words say so, and else as unavailable. Everything else is answered.
pub proof fn law_failures_are_answered_in_their_words(
    effect: &ControlEffect,
    outcome: EffectOutcome,
    r: ControlResult<Json>,
)
    requires
        effect_result.ensures((effect, outcome), r),
    ensures
        r is Err <==> outcome is Failed,
        outcome matches EffectOutcome::Failed(message) ==> {
            let e = r->Err_0;
            &&& e.message@ == message@ && !e.retryable && e.details is None
            &&& is_internal(*effect) ==> e.code == ControlErrorCode::Internal
            &&& !is_internal(*effect) && says_not_found(message@) ==> e.code
                == ControlErrorCode::NotFound
            &&& !is_internal(*effect) && !says_not_found(message@) ==> e.code
                == ControlErrorCode::Unavailable
        },
{
}

/// A task is typed as it is and entered with a carriage return.
pub proof fn law_tasks_are_typed_and_entered(task: &str, r: String)
    requires
        task_input.ensures((task,), r),
    ensures
        r@.len() == task@.len() + 1,
        r@.drop_last() == task@,
        r@.last() == '\r',
{
    reveal_strlit("\r");
    assert(r@.drop_last() =~= task@);
}

} // verus!
