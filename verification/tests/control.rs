use luna_mux::control_catalog::{descriptor, descriptors, validate_request, Operation};
use luna_mux::control_contract::{
    error_code_name, ControlAccess, ControlApprovalRequirement, ControlCaller, ControlCallerKind,
    ControlError, ControlErrorCode, ControlGrant, ControlRequest, ControlResourceKind,
    ControlResourceRef, ControlResponse, CONTROL_CONTRACT_VERSION,
};
use luna_mux::control_effects::{
    plan_effect, ControlEffect, OperationArguments, PaneCreateArguments, ScrollArguments,
    PaneUpdateArguments, TransferArguments, TransferDirection,
};
use luna_mux::control_events::{ControlEventBuffer, TerminalRuntimeEvent, EVENT_CAPACITY};
use luna_mux::control_outcomes::{find_agent, list_visible, AgentRef, ListedItem, TargetRef};
use luna_mux::control_idempotency::{IdempotencyKey, IdempotencySignature, IdempotencyTable};
use luna_mux::control_replies::{
    created_pane_news, created_pane_reply, effect_result, task_input, EffectOutcome,
};
use luna_mux::control_requests::{ui_caller, RuntimeCapabilities};
use luna_mux::control_service::{
    Admission, ControlApproval, ControlAuditRecord, InProcessControlService, LunaControlService,
};
use luna_mux::database::Database;
use luna_mux::json::{copy_json, get, get_text, same_json, text_value, Json, JsonNumber};
use luna_mux::mux_layout::{MuxSplitDirection, MuxSplitNode, SplitRatio};
use luna_mux::mux_store::{MigrationPlan, MuxPaneInput, MuxPaneKind, MuxSessionInput};
use luna_mux::opening::StoredRows;
use luna_mux::text_map::TextMap;

fn value(parsed: &serde_json::Value) -> Json {
    match parsed {
        serde_json::Value::Null => Json::Null,
        serde_json::Value::Bool(b) => Json::Bool(*b),
        serde_json::Value::Number(n) => Json::Number(match (n.as_u64(), n.as_i64()) {
            (Some(whole), _) => JsonNumber::Whole(whole),
            (None, Some(negative)) => JsonNumber::Negative(negative),
            (None, None) => JsonNumber::Real(n.as_f64().unwrap().to_bits()),
        }),
        serde_json::Value::String(s) => Json::Text(s.clone()),
        serde_json::Value::Array(items) => Json::List(items.iter().map(value).collect()),
        serde_json::Value::Object(fields) => Json::Object(
            fields
                .iter()
                .map(|(name, field)| (name.clone(), value(field)))
                .collect(),
        ),
    }
}

fn json(text: &str) -> Json {
    value(&serde_json::from_str(text).unwrap())
}

fn number(value: Option<&Json>) -> f64 {
    match value {
        Some(Json::Number(JsonNumber::Whole(n))) => *n as f64,
        Some(Json::Number(JsonNumber::Negative(n))) => *n as f64,
        Some(Json::Number(JsonNumber::Real(bits))) => f64::from_bits(*bits),
        _ => 0.0,
    }
}

fn flag(value: Option<&Json>, default: bool) -> bool {
    match value {
        Some(Json::Bool(b)) => *b,
        _ => default,
    }
}

fn words(value: Option<&Json>) -> Vec<String> {
    match value {
        Some(Json::List(items)) => items
            .iter()
            .map(|item| match item {
                Json::Text(text) => text.clone(),
                other => panic!("{other:?}"),
            })
            .collect(),
        _ => Vec::new(),
    }
}

fn items(value: &Json) -> &[Json] {
    match value {
        Json::List(items) => items,
        other => panic!("{other:?}"),
    }
}

fn word(value: &Json, name: &str) -> String {
    get_text(value, name).unwrap().clone()
}

fn layout(value: &Json) -> MuxSplitNode {
    if word(value, "type") == "pane" {
        return MuxSplitNode::Pane {
            pane_id: word(value, "paneId"),
        };
    }
    MuxSplitNode::Split {
        direction: MuxSplitDirection::Horizontal,
        ratio: SplitRatio {
            bits: number(get(value, "ratio")).to_bits(),
        },
        first: Box::new(layout(get(value, "first").unwrap())),
        second: Box::new(layout(get(value, "second").unwrap())),
    }
}

fn arguments(operation: Operation, given: &Json) -> OperationArguments {
    match operation {
        Operation::SettingsThemeSet => OperationArguments::Theme {
            theme: copy_json(get(given, "theme").unwrap()),
        },
        Operation::AgentsSendTask => OperationArguments::Task {
            task: word(given, "task"),
        },
        Operation::MuxLayoutSet => OperationArguments::Layout {
            layout: get(given, "layout").map(layout),
        },
        Operation::MuxPaneCreate => OperationArguments::PaneCreate {
            create: PaneCreateArguments {
                target_id: word(given, "targetId"),
                title: get_text(given, "title").cloned(),
                cwd: None,
                command: String::new(),
                launch_profile_id: String::new(),
                anchor_pane_id: get_text(given, "anchorPaneId").cloned(),
                split_direction: Some(MuxSplitDirection::Vertical),
                split_ratio: Some(SplitRatio {
                    bits: number(get(given, "splitRatio")).to_bits(),
                }),
                start: flag(get(given, "start"), true),
            },
        },
        Operation::TransferEnqueue => OperationArguments::Transfer {
            transfer: TransferArguments {
                direction: TransferDirection::Upload,
                source_paths: words(get(given, "sourcePaths")),
                destination_directory: word(given, "destinationDirectory"),
            },
        },
        Operation::TunnelStart => OperationArguments::TunnelStart {
            profile_id: word(given, "profileId"),
        },
        Operation::BrowserClick => OperationArguments::Selector {
            selector: word(given, "selector"),
        },
        Operation::BrowserType => OperationArguments::TypeText {
            selector: word(given, "selector"),
            text: word(given, "text"),
            clear: flag(get(given, "clear"), true),
        },
        Operation::BrowserPress => OperationArguments::Press {
            key: word(given, "key"),
        },
        Operation::BrowserScroll => OperationArguments::Scroll {
            scroll: ScrollArguments {
                delta_x: number(get(given, "deltaX")).to_bits(),
                delta_y: number(get(given, "deltaY")).to_bits(),
                x: number(get(given, "x")).to_bits(),
                y: number(get(given, "y")).to_bits(),
            },
        },
        Operation::BrowserEvaluate => OperationArguments::Evaluate {
            expression: word(given, "expression"),
        },
        Operation::BrowserWait => OperationArguments::Wait {
            selector: word(given, "selector"),
            timeout_ms: number(get(given, "timeoutMs")) as u64,
        },
        _ => OperationArguments::Untyped,
    }
}

/// A control service with the world around it.
struct World {
    service: InProcessControlService,
    database: Database,
    agents: Vec<AgentRef>,
    targets: Vec<TargetRef>,
    approvals: Vec<(ControlApproval, bool)>,
    done: Vec<String>,
    themes: Vec<Json>,
}

impl World {
    fn new() -> Self {
        let stored = StoredRows {
            bookmarks: Vec::new(),
            credential_refs: Vec::new(),
            groups: Vec::new(),
            forwardings: Vec::new(),
            known_hosts: Vec::new(),
            settings: TextMap::new(),
            sessions: Vec::new(),
            panes: Vec::new(),
            browsers: Vec::new(),
            audit: Vec::new(),
            transfers: Vec::new(),
        };
        let plan = MigrationPlan {
            add_session_layout: false,
            add_launch_profile: false,
            move_browser_panes: false,
            add_bookmark_order: false,
        };
        World {
            service: InProcessControlService::new(),
            database: Database::open(stored, &plan),
            agents: Vec::new(),
            targets: Vec::new(),
            approvals: Vec::new(),
            done: Vec::new(),
            themes: Vec::new(),
        }
    }

    fn carry_out(
        &mut self,
        caller: &ControlCaller,
        request: &ControlRequest,
        operation: Operation,
    ) -> Result<Json, ControlError> {
        let runtimes = Ok(vec![RuntimeCapabilities {
            runtime_id: "runtime-1".to_string(),
            remote_files: true,
            port_forwarding: true,
        }]);
        let parsed = Ok(arguments(operation, &request.arguments));
        let effect = plan_effect(operation, request, parsed, &runtimes)?;
        let requested = request
            .resource
            .as_ref()
            .map(|resource| resource.id.as_str());
        let outcome = match &effect {
            ControlEffect::ListAgents => {
                let all: Vec<ListedItem> = self
                    .agents
                    .iter()
                    .map(|agent| ListedItem {
                        id: agent.agent_id.clone(),
                        value: copy_json(&agent.value),
                    })
                    .collect();
                EffectOutcome::Value(list_visible(
                    caller,
                    ControlResourceKind::Agent,
                    requested,
                    &all,
                ))
            }
            ControlEffect::ListSessions => {
                let all: Vec<ListedItem> = self
                    .database
                    .list_mux_sessions()
                    .into_iter()
                    .map(|session| ListedItem {
                        value: Json::Object(vec![("id".to_string(), text_value(&session.id))]),
                        id: session.id,
                    })
                    .collect();
                EffectOutcome::Value(list_visible(
                    caller,
                    ControlResourceKind::MuxSession,
                    requested,
                    &all,
                ))
            }
            ControlEffect::ListPanes { mux_session_id } => {
                let all: Vec<ListedItem> = self
                    .database
                    .list_mux_panes(mux_session_id.as_deref())
                    .into_iter()
                    .map(|pane| ListedItem {
                        value: Json::Object(vec![("id".to_string(), text_value(&pane.id))]),
                        id: pane.id,
                    })
                    .collect();
                EffectOutcome::Value(list_visible(
                    caller,
                    ControlResourceKind::Pane,
                    requested,
                    &all,
                ))
            }
            ControlEffect::ListBrowsers => EffectOutcome::Value(list_visible(
                caller,
                ControlResourceKind::BrowserRuntime,
                requested,
                &[],
            )),
            ControlEffect::ListTargets => EffectOutcome::Value(Json::List(Vec::new())),
            ControlEffect::SendTask { agent_id, task } => {
                let runtime = find_agent(&self.agents, agent_id)?.runtime_id.clone();
                self.done.push(format!("write {runtime} {task}\r"));
                EffectOutcome::Text(runtime)
            }
            ControlEffect::InterruptAgent { agent_id } => {
                let runtime = find_agent(&self.agents, agent_id)?.runtime_id.clone();
                self.done.push(format!("interrupt {runtime}"));
                EffectOutcome::Text(runtime)
            }
            ControlEffect::CreatePane { session_id, create } => {
                let (pane, _) =
                    self.database
                        .create_pane(caller, &self.targets, session_id, create)?;
                let shown = Json::Object(vec![("id".to_string(), text_value(&pane.id))]);
                EffectOutcome::Value(Json::Object(vec![("pane".to_string(), shown)]))
            }
            ControlEffect::SetLayout { session_id, layout } => {
                let wanted = luna_mux::mux_layout::copy_opt_layout(layout);
                self.database.set_layout(session_id, wanted)?;
                EffectOutcome::Done
            }
            ControlEffect::SetTheme { theme } => {
                self.themes.push(copy_json(theme));
                EffectOutcome::Value(copy_json(theme))
            }
            ControlEffect::EnqueueTransfer { .. } => {
                self.done.push("enqueue".to_string());
                EffectOutcome::Value(Json::List(Vec::new()))
            }
            ControlEffect::StartTunnel {
                runtime_id,
                profile_id,
            } => {
                self.done.push(format!("tunnel {runtime_id} {profile_id}"));
                EffectOutcome::Value(json(r#"{"id":"tunnel-created"}"#))
            }
            ControlEffect::CancelTransfer { transfer_id } => {
                self.done.push(format!("cancel {transfer_id}"));
                EffectOutcome::Flag(true)
            }
            ControlEffect::StopTunnel { tunnel_id } => {
                self.done.push(format!("stop {tunnel_id}"));
                EffectOutcome::Flag(true)
            }
            ControlEffect::Snapshot { .. } => {
                EffectOutcome::Value(json(r#"{"nodes":[{"role":{"value":"button"}}]}"#))
            }
            ControlEffect::Screenshot { .. } => {
                EffectOutcome::Text("data:image/png;base64,AA==".to_string())
            }
            ControlEffect::Evaluate { .. } => {
                self.done.push("evaluate".to_string());
                EffectOutcome::Value(json(r#"{"value":42}"#))
            }
            ControlEffect::Wait {
                runtime_id,
                selector,
                timeout_ms,
            } => {
                self.done
                    .push(format!("wait {runtime_id} {selector} {timeout_ms}"));
                EffectOutcome::Flag(true)
            }
            ControlEffect::Click { .. } => {
                self.done.push("click".to_string());
                EffectOutcome::Flag(true)
            }
            ControlEffect::TypeText { .. } => {
                self.done.push("type".to_string());
                EffectOutcome::Flag(true)
            }
            ControlEffect::WriteRuntime { runtime_id, data } => {
                self.done.push(format!("write {runtime_id} {data}"));
                EffectOutcome::Done
            }
            _ => {
                self.done.push(request.operation.clone());
                EffectOutcome::Done
            }
        };
        effect_result(&effect, outcome)
    }

    fn decide(
        &mut self,
        caller: &ControlCaller,
        request: &ControlRequest,
    ) -> Result<ControlResponse, ControlError> {
        let mut admission = self.service.invoke(caller, request);
        if let Admission::UseApproval(id) = &admission {
            let place = self
                .approvals
                .iter()
                .position(|(approval, approved)| &approval.approval_id == id && *approved);
            match place {
                Some(place) => {
                    self.approvals.remove(place);
                    let operation =
                        luna_mux::control_catalog::operation_named(&request.operation).unwrap();
                    admission = self.service.resume_approved(caller, request, operation);
                }
                None => {
                    return Err(luna_mux::control_contract::control_error(
                        ControlErrorCode::ApprovalDenied,
                        "denied",
                    ));
                }
            }
        }
        match admission {
            Admission::Refused(error) => Err(error),
            Admission::Answered(response) => Ok(response),
            Admission::AskUser => {
                let id = format!("approval-{}", self.approvals.len() + self.done.len() + 1);
                let approval = ControlApproval {
                    value: Json::Object(vec![("approvalId".to_string(), text_value(&id))]),
                    approval_id: id,
                    caller_id: caller.caller_id.clone(),
                    caller_kind: caller.kind,
                    operation: request.operation.clone(),
                    resource: luna_mux::control_contract::copy_resource(&request.resource),
                    expires_at: "later".to_string(),
                };
                let error = self.service.approval_requested(request, &approval);
                self.approvals.push((approval, false));
                Err(error)
            }
            Admission::UseApproval(id) => panic!("{id}"),
            Admission::Run(operation) => {
                let execution = self.carry_out(caller, request, operation);
                self.service.finish(caller, request, execution)
            }
        }
    }

    fn invoke(
        &mut self,
        caller: &ControlCaller,
        request: &ControlRequest,
    ) -> Result<ControlResponse, ControlError> {
        let outcome = self.decide(caller, request);
        let record = self.service.note_outcome(caller, request, &outcome);
        self.database.append_control_audit(record).unwrap();
        outcome
    }

    fn approve(&mut self, id: &str) {
        for (approval, approved) in &mut self.approvals {
            if approval.approval_id == id {
                *approved = true;
                self.service.resolve_approval(approval, true);
            }
        }
    }

    fn approve_and_invoke(
        &mut self,
        caller: &ControlCaller,
        mut request: ControlRequest,
    ) -> ControlResponse {
        let required = self.invoke(caller, &request).unwrap_err();
        assert_eq!(required.code, ControlErrorCode::ApprovalRequired);
        let details = required.details.unwrap();
        let id = word(get(&details, "approval").unwrap(), "approvalId");
        self.approve(&id);
        request.approval_id = Some(id);
        self.invoke(caller, &request).unwrap()
    }

    fn audit(&self, operation: &str) -> ControlAuditRecord {
        self.database
            .list_control_audit(100)
            .into_iter()
            .find(|record| record.operation == operation && record.result == "success")
            .unwrap()
    }
}

fn caller(kind: ControlResourceKind, id: Option<&str>, access: ControlAccess) -> ControlCaller {
    ControlCaller {
        caller_id: "test".to_string(),
        kind: ControlCallerKind::Agent,
        grants: vec![grant(kind, id, access)],
    }
}

fn grant(kind: ControlResourceKind, id: Option<&str>, access: ControlAccess) -> ControlGrant {
    ControlGrant {
        resource_kind: kind,
        resource_id: id.map(str::to_string),
        access,
    }
}

fn request(operation: &str, resource: Option<(ControlResourceKind, &str)>, text: &str) -> ControlRequest {
    ControlRequest {
        contract_version: CONTROL_CONTRACT_VERSION,
        request_id: format!("request-{operation}"),
        operation: operation.to_string(),
        resource: resource.map(|(kind, id)| ControlResourceRef {
            kind,
            id: id.to_string(),
        }),
        arguments: json(text),
        idempotency_key: None,
        approval_id: None,
    }
}

fn keyed(
    operation: &str,
    kind: ControlResourceKind,
    id: &str,
    text: &str,
    key: &str,
) -> ControlRequest {
    let mut request = request(operation, Some((kind, id)), text);
    request.idempotency_key = Some(key.to_string());
    request
}

fn again(request: &ControlRequest) -> ControlRequest {
    ControlRequest {
        contract_version: request.contract_version,
        request_id: request.request_id.clone(),
        operation: request.operation.clone(),
        resource: luna_mux::control_contract::copy_resource(&request.resource),
        arguments: copy_json(&request.arguments),
        idempotency_key: request.idempotency_key.clone(),
        approval_id: request.approval_id.clone(),
    }
}

fn same_response(a: &ControlResponse, b: &ControlResponse) -> bool {
    a.request_id == b.request_id && same_json(&a.result, &b.result)
}

#[test]
fn event_buffer_reports_truncation() {
    let mut buffer = ControlEventBuffer::new();
    for _ in 0..EVENT_CAPACITY + 2 {
        buffer.record_runtime_event(TerminalRuntimeEvent::Status {
            runtime_id: "r".to_string(),
            value: json(r#"{"runtimeId":"r","status":"running"}"#),
        });
    }
    assert!(buffer.read(0, 10).truncated);
}

#[test]
fn scoped_grant_does_not_authorize_other_resource() {
    let agent = caller(
        ControlResourceKind::TerminalRuntime,
        Some("r1"),
        ControlAccess::Read,
    );
    assert!(agent.has_access(
        &ControlResourceKind::TerminalRuntime,
        Some("r1"),
        &ControlAccess::Read
    ));
    assert!(!agent.has_access(
        &ControlResourceKind::TerminalRuntime,
        Some("r2"),
        &ControlAccess::Read
    ));
}

#[test]
fn agent_browser_tools_stay_discoverable_while_runtimes_remain_grant_filtered() {
    let mut world = World::new();
    let agent = caller(
        ControlResourceKind::TerminalRuntime,
        Some("runtime-1"),
        ControlAccess::Control,
    );
    let catalog = world.service.catalog(&agent);
    for name in ["browser.runtimes.list", "browser.click"] {
        assert!(catalog
            .operations
            .iter()
            .any(|operation| operation.name == name));
    }
    let response = world
        .invoke(&agent, &request("browser.runtimes.list", None, "{}"))
        .unwrap();
    assert!(items(&response.result).is_empty());
    let unauthorized = world
        .invoke(
            &agent,
            &request(
                "browser.runtimes.list",
                Some((ControlResourceKind::BrowserRuntime, "ungranted-runtime")),
                "{}",
            ),
        )
        .unwrap_err();
    assert_eq!(unauthorized.code, ControlErrorCode::Unauthorized);
}

#[test]
fn version_mismatch_is_structured() {
    let mut wrong = request("terminal.targets.list", None, "{}");
    wrong.contract_version = CONTROL_CONTRACT_VERSION + 1;
    let error = validate_request(&wrong).unwrap_err();
    assert_eq!(error.code, ControlErrorCode::UnsupportedVersion);
    assert!(!error.retryable);
    assert_eq!(error_code_name(error.code), "unsupportedVersion");
}

#[test]
fn duplicate_idempotency_key_is_reserved_for_supported_operations() {
    let descriptor = descriptor("terminal.targets.list").unwrap();
    assert!(descriptor.supports_idempotency);
}

#[test]
fn duplicate_idempotency_key_reuses_first_response() {
    let mut world = World::new();
    let agent = caller(
        ControlResourceKind::TerminalTarget,
        None,
        ControlAccess::Read,
    );
    let numbered = |request_id: &str| {
        let mut numbered = request("terminal.targets.list", None, "{}");
        numbered.request_id = request_id.to_string();
        numbered.idempotency_key = Some("same".to_string());
        numbered
    };
    let first = world.invoke(&agent, &numbered("request-1")).unwrap();
    let second = world.invoke(&agent, &numbered("request-2")).unwrap();
    assert!(same_response(&first, &second));
    assert_eq!(second.request_id, "request-1");
}

#[test]
fn invoke_rejects_unauthorized_and_mismatched_resource() {
    let mut world = World::new();
    let agent = caller(
        ControlResourceKind::TerminalRuntime,
        Some("r1"),
        ControlAccess::Read,
    );
    let unauthorized = world
        .invoke(&agent, &request("terminal.targets.list", None, "{}"))
        .unwrap_err();
    assert_eq!(unauthorized.code, ControlErrorCode::Unauthorized);
    let mismatched = world
        .invoke(
            &agent,
            &request(
                "terminal.targets.list",
                Some((ControlResourceKind::TerminalRuntime, "r1")),
                "{}",
            ),
        )
        .unwrap_err();
    assert_eq!(mismatched.code, ControlErrorCode::InvalidArguments);
    let unknown = world
        .invoke(&agent, &request("terminal.nothing", None, "{}"))
        .unwrap_err();
    assert_eq!(unknown.code, ControlErrorCode::UnknownOperation);
    assert_eq!(unknown.message, "未知控制操作：terminal.nothing");
    let listed = world
        .invoke(&agent, &request("terminal.runtimes.list", Some((ControlResourceKind::TerminalRuntime, "r1")), "[]"))
        .unwrap_err();
    assert_eq!(listed.code, ControlErrorCode::InvalidArguments);
}

fn session_input(id: Option<&str>, name: &str) -> MuxSessionInput {
    MuxSessionInput {
        id: id.map(str::to_string),
        name: name.to_string(),
        root_path: String::new(),
        layout: None,
    }
}

#[test]
fn discovers_only_authorized_mux_sessions_and_panes() {
    let mut world = World::new();
    let first = world
        .database
        .save_mux_session(session_input(None, "First"))
        .unwrap();
    let second = world
        .database
        .save_mux_session(session_input(None, "Second"))
        .unwrap();
    let pane = world
        .database
        .save_mux_pane(MuxPaneInput {
            id: None,
            mux_session_id: first.id.clone(),
            kind: MuxPaneKind::Terminal,
            title: "Shell".to_string(),
            target_id: "local:powershell".to_string(),
            bookmark_id: String::new(),
            cwd: String::new(),
            command: String::new(),
            launch_profile_id: String::new(),
        })
        .unwrap();
    let sessions = world
        .invoke(
            &caller(
                ControlResourceKind::MuxSession,
                Some(&first.id),
                ControlAccess::Read,
            ),
            &request("mux.sessions.list", None, "{}"),
        )
        .unwrap();
    assert_eq!(items(&sessions.result).len(), 1);
    assert_eq!(word(&items(&sessions.result)[0], "id"), first.id);
    let panes = world
        .invoke(
            &caller(
                ControlResourceKind::Pane,
                Some(&pane.id),
                ControlAccess::Read,
            ),
            &request(
                "mux.panes.list",
                None,
                &format!("{{\"muxSessionId\":\"{}\"}}", first.id),
            ),
        )
        .unwrap();
    assert_eq!(items(&panes.result).len(), 1);
    assert_eq!(word(&items(&panes.result)[0], "id"), pane.id);
    assert_ne!(word(&items(&sessions.result)[0], "id"), second.id);
}

#[test]
fn agent_discovery_and_actions_respect_caller_access() {
    let mut world = World::new();
    world.agents.push(AgentRef {
        agent_id: "agent-target".to_string(),
        runtime_id: "runtime-target".to_string(),
        value: json(r#"{"context":{"agentId":"agent-target"}}"#),
    });
    let about = |operation: &str, text: &str| {
        request(
            operation,
            Some((ControlResourceKind::Agent, "agent-target")),
            text,
        )
    };
    let reader = caller(
        ControlResourceKind::Agent,
        Some("agent-target"),
        ControlAccess::Read,
    );
    let listed = world.invoke(&reader, &about("agents.list", "{}")).unwrap();
    assert_eq!(items(&listed.result).len(), 1);
    assert_eq!(
        word(get(&items(&listed.result)[0], "context").unwrap(), "agentId"),
        "agent-target"
    );
    let task = r#"{"task":"Review the change"}"#;
    assert_eq!(
        world
            .invoke(&reader, &about("agents.send_task", task))
            .unwrap_err()
            .code,
        ControlErrorCode::Unauthorized
    );

    let trusted = ControlCaller {
        caller_id: "internal-test".to_string(),
        kind: ControlCallerKind::Internal,
        grants: vec![grant(
            ControlResourceKind::Agent,
            Some("agent-target"),
            ControlAccess::Control,
        )],
    };
    world
        .invoke(&trusted, &about("agents.send_task", task))
        .unwrap();
    world
        .invoke(&trusted, &about("agents.interrupt", "{}"))
        .unwrap();
    assert_eq!(
        world.done,
        [
            "write runtime-target Review the change\r",
            "interrupt runtime-target"
        ]
    );
    let events = world.service.read_events(&trusted, 0, 100).unwrap();
    let noted = events
        .events
        .iter()
        .find(|event| {
            get_text(&event.payload, "operation").map(String::as_str) == Some("agents.send_task")
        })
        .unwrap();
    let shown = get(&noted.payload, "arguments").unwrap();
    assert!(get(shown, "task").is_none());
    assert_eq!(number(get(shown, "dataBytes")), 17.0);
}

#[test]
fn records_timestamped_control_audit_events() {
    let mut world = World::new();
    let agent = caller(ControlResourceKind::MuxSession, None, ControlAccess::Read);
    let mut asked = request("mux.sessions.list", None, "{}");
    asked.request_id = "audit-request".to_string();
    world.invoke(&agent, &asked).unwrap();
    let events = world.service.read_events(&agent, 0, 10).unwrap();
    let audit = events
        .events
        .iter()
        .find(|event| event.event_type == "control.operation.completed")
        .expect("audit event");
    assert!(!audit.timestamp.is_empty());
    assert_eq!(word(&audit.payload, "callerId"), "test");
    assert_eq!(word(&audit.payload, "operation"), "mux.sessions.list");
    assert_eq!(word(&audit.payload, "requestId"), "audit-request");
    let persisted = world.database.list_control_audit(10);
    assert_eq!(persisted.len(), 1);
    assert_eq!(persisted[0].caller_id, "test");
    assert_eq!(persisted[0].caller_kind, "agent");
    assert_eq!(persisted[0].operation, "mux.sessions.list");
    assert_eq!(persisted[0].result, "success");
    assert_eq!(world.database.clear_control_audit(), 1);
    assert!(world.database.list_control_audit(10).is_empty());
}

#[test]
fn transfer_and_tunnel_side_effects_are_scoped_approved_and_idempotent() {
    let mut world = World::new();
    let runtime_agent = caller(
        ControlResourceKind::TerminalRuntime,
        Some("runtime-1"),
        ControlAccess::Control,
    );
    let enqueue = keyed(
        "transfer.enqueue",
        ControlResourceKind::TerminalRuntime,
        "runtime-1",
        r#"{"direction":"upload","sourcePaths":["C:\\work\\main.rs"],"destinationDirectory":"/tmp"}"#,
        "enqueue-1",
    );
    let first = world.approve_and_invoke(&runtime_agent, again(&enqueue));
    assert!(items(&first.result).is_empty());
    let duplicate = world.invoke(&runtime_agent, &enqueue).unwrap();
    assert!(same_response(&duplicate, &first));
    assert_eq!(world.done, ["enqueue"]);

    let tunnel = world.approve_and_invoke(
        &runtime_agent,
        keyed(
            "tunnel.start",
            ControlResourceKind::TerminalRuntime,
            "runtime-1",
            r#"{"profileId":"profile-1"}"#,
            "tunnel-start-1",
        ),
    );
    assert_eq!(word(&tunnel.result, "id"), "tunnel-created");

    let cancelled = world.approve_and_invoke(
        &caller(
            ControlResourceKind::Transfer,
            Some("transfer-1"),
            ControlAccess::Control,
        ),
        keyed(
            "transfer.cancel",
            ControlResourceKind::Transfer,
            "transfer-1",
            "{}",
            "cancel-1",
        ),
    );
    assert!(flag(get(&cancelled.result, "cancelled"), false));

    let stopped = world.approve_and_invoke(
        &caller(
            ControlResourceKind::Tunnel,
            Some("tunnel-created"),
            ControlAccess::Control,
        ),
        keyed(
            "tunnel.stop",
            ControlResourceKind::Tunnel,
            "tunnel-created",
            "{}",
            "stop-1",
        ),
    );
    assert!(flag(get(&stopped.result, "stopped"), false));
    assert_eq!(
        world.done,
        [
            "enqueue",
            "tunnel runtime-1 profile-1",
            "cancel transfer-1",
            "stop tunnel-created"
        ]
    );
}

#[test]
fn idempotency_key_cannot_be_reused_for_different_resource_or_arguments() {
    let mut world = World::new();
    let agent = caller(
        ControlResourceKind::TerminalRuntime,
        None,
        ControlAccess::Control,
    );
    let enqueue = |runtime: &str, path: &str| {
        keyed(
            "transfer.enqueue",
            ControlResourceKind::TerminalRuntime,
            runtime,
            &format!(
                "{{\"direction\":\"upload\",\"sourcePaths\":[\"{path}\"],\"destinationDirectory\":\"/tmp\"}}"
            ),
            "same-key",
        )
    };
    world.approve_and_invoke(&agent, enqueue("runtime-1", "one"));
    assert_eq!(
        world
            .invoke(&agent, &enqueue("runtime-1", "two"))
            .unwrap_err()
            .code,
        ControlErrorCode::Conflict
    );
    assert_eq!(
        world
            .invoke(&agent, &enqueue("runtime-2", "one"))
            .unwrap_err()
            .code,
        ControlErrorCode::Conflict
    );
}

#[test]
fn destructive_runtime_control_requires_one_time_user_approval() {
    let mut world = World::new();
    let agent = caller(
        ControlResourceKind::TerminalRuntime,
        Some("runtime-1"),
        ControlAccess::Control,
    );
    let close = keyed(
        "terminal.runtime.close",
        ControlResourceKind::TerminalRuntime,
        "runtime-1",
        "{}",
        "key-close",
    );
    let error = world.invoke(&agent, &close).unwrap_err();
    assert_eq!(error.code, ControlErrorCode::ApprovalRequired);
    let details = error.details.unwrap();
    let id = word(get(&details, "approval").unwrap(), "approvalId");
    world.approve(&id);
    let mut approved = close;
    approved.approval_id = Some(id);
    let response = world.invoke(&agent, &approved).unwrap();
    assert!(flag(get(&response.result, "closed"), false));
    approved.idempotency_key = None;
    assert_eq!(
        world.invoke(&agent, &approved).unwrap_err().code,
        ControlErrorCode::ApprovalDenied
    );
}

#[test]
fn safe_runtime_controls_execute_with_write_grant_and_audit_failures() {
    let mut world = World::new();
    let agent = caller(
        ControlResourceKind::TerminalRuntime,
        Some("runtime-1"),
        ControlAccess::Write,
    );
    let resize = |text: &str, key: &str| {
        keyed(
            "terminal.runtime.resize",
            ControlResourceKind::TerminalRuntime,
            "runtime-1",
            text,
            key,
        )
    };
    let resized = world
        .invoke(&agent, &resize(r#"{"cols":120,"rows":40}"#, "key-resize"))
        .unwrap();
    assert!(same_json(
        &resized.result,
        &json(r#"{"cols":120,"rows":40}"#)
    ));
    let error = world
        .invoke(
            &agent,
            &resize(r#"{"cols":0,"rows":40}"#, "key-invalid-resize"),
        )
        .unwrap_err();
    assert_eq!(error.code, ControlErrorCode::InvalidArguments);
    let events = world.service.read_events(&agent, 0, 100).unwrap();
    let audit = events
        .events
        .iter()
        .find(|event| {
            event.event_type == "control.operation.failed"
                && word(&event.payload, "operation") == "terminal.runtime.resize"
        })
        .expect("failure audit");
    assert_eq!(word(&audit.payload, "result"), "failure");
    assert_eq!(word(&audit.payload, "errorCode"), "invalidArguments");
}

#[test]
fn raw_terminal_write_is_delivered_exactly_once_for_idempotent_retry() {
    let mut world = World::new();
    let trusted = ControlCaller {
        caller_id: "internal-write-test".to_string(),
        kind: ControlCallerKind::Internal,
        grants: vec![grant(
            ControlResourceKind::TerminalRuntime,
            Some("runtime-1"),
            ControlAccess::Write,
        )],
    };
    let write = keyed(
        "terminal.runtime.write",
        ControlResourceKind::TerminalRuntime,
        "runtime-1",
        r#"{"data":"echo once\r"}"#,
        "key-write",
    );
    let first = world.invoke(&trusted, &write).unwrap();
    let retry = world.invoke(&trusted, &write).unwrap();
    assert!(same_response(&first, &retry));
    assert_eq!(world.done, ["write runtime-1 echo once\r"]);
    let audit = world.service.read_events(&trusted, 0, 100).unwrap();
    assert!(
        audit
            .events
            .iter()
            .filter(|event| word(&event.payload, "operation") == "terminal.runtime.write"
                && word(&event.payload, "result") == "success")
            .count()
            >= 2
    );
    assert!(audit
        .events
        .iter()
        .all(|event| get(get(&event.payload, "arguments").unwrap(), "data").is_none()));
}

#[test]
fn browser_tools_are_scoped_approved_idempotent_and_redacted() {
    let mut world = World::new();
    let agent = caller(
        ControlResourceKind::BrowserRuntime,
        Some("browser-1"),
        ControlAccess::Control,
    );
    let about = |operation: &str, text: &str| {
        keyed(
            operation,
            ControlResourceKind::BrowserRuntime,
            "browser-1",
            text,
            &format!("key-{operation}"),
        )
    };
    let snapshot = world
        .invoke(&agent, &about("browser.snapshot", "{}"))
        .unwrap();
    let node = &items(get(&snapshot.result, "nodes").unwrap())[0];
    assert_eq!(word(get(node, "role").unwrap(), "value"), "button");
    let screenshot = world
        .invoke(&agent, &about("browser.screenshot", "{}"))
        .unwrap();
    assert!(word(&screenshot.result, "dataUrl").starts_with("data:image/png;base64,"));
    let waited = world
        .invoke(
            &agent,
            &about("browser.wait", r##"{"selector":"#ready","timeoutMs":1200}"##),
        )
        .unwrap();
    assert!(flag(get(&waited.result, "found"), false));

    for (operation, text) in [
        ("browser.navigate", r#"{"url":"http://localhost:3000"}"#),
        ("browser.click", r#"{"selector":"button.save"}"#),
        (
            "browser.type",
            r##"{"selector":"#prompt","text":"private prompt","clear":true}"##,
        ),
        ("browser.press", r#"{"key":"Ctrl+Enter"}"#),
        (
            "browser.scroll",
            r#"{"deltaX":0.0,"deltaY":640.0,"x":100.0,"y":200.0}"#,
        ),
        (
            "browser.evaluate",
            r#"{"expression":"document.body.dataset.secret"}"#,
        ),
    ] {
        let pending = about(operation, text);
        let response = world.approve_and_invoke(&agent, again(&pending));
        assert!(!matches!(response.result, Json::Null));
        if operation == "browser.type" {
            let duplicate = world.invoke(&agent, &pending).unwrap();
            assert!(same_response(&duplicate, &response));
        }
    }
    assert_eq!(
        world.done,
        [
            "wait browser-1 #ready 1200",
            "browser.navigate",
            "click",
            "type",
            "browser.press",
            "browser.scroll",
            "evaluate"
        ]
    );
    let typed = world.audit("browser.type").arguments;
    assert_eq!(number(get(&typed, "dataBytes")), 14.0);
    assert_eq!(word(&typed, "selector"), "#prompt");
    assert!(get(&typed, "text").is_none());
    let evaluated = world.audit("browser.evaluate").arguments;
    assert_eq!(number(get(&evaluated, "dataBytes")), 28.0);
    assert!(get(&evaluated, "expression").is_none());
}

#[test]
fn a_refusal_names_the_approval_that_it_asks_for() {
    let mut service = InProcessControlService::new();
    let approval = |value: Json| ControlApproval {
        approval_id: "the-one".to_string(),
        caller_id: "caller".to_string(),
        caller_kind: ControlCallerKind::Agent,
        operation: "terminal.runtime.close".to_string(),
        resource: None,
        expires_at: "later".to_string(),
        value,
    };
    let asked = request("terminal.runtime.close", None, "{}");
    for value in [
        json(r#"{"approvalId":"another","summary":"close it"}"#),
        json(r#"{"summary":"close it"}"#),
    ] {
        let error = service.approval_requested(&asked, &approval(value));
        let details = error.details.unwrap();
        let told = get(&details, "approval").unwrap();
        assert_eq!(word(told, "approvalId"), "the-one");
        assert_eq!(word(told, "summary"), "close it");
    }
}

#[test]
fn operation_catalog_declares_approval_policy() {
    let close = descriptor("terminal.runtime.close").unwrap();
    assert_eq!(close.access, ControlAccess::Control);
    assert_eq!(close.approval, ControlApprovalRequirement::User);
    let resize = descriptor("terminal.runtime.resize").unwrap();
    assert_eq!(resize.access, ControlAccess::Write);
    assert_eq!(resize.approval, ControlApprovalRequirement::NotRequired);
}

#[test]
fn settings_tools_are_authorized_without_application_super_grant() {
    let mut world = World::new();
    let settings = caller(ControlResourceKind::Settings, None, ControlAccess::Write);
    assert!(!settings.can_access_any(&ControlResourceKind::Application, &ControlAccess::Read));
    let catalog = world.service.catalog(&settings);
    for name in [
        "settings.appearance.get",
        "settings.theme.set",
        "settings.terminal.set",
    ] {
        assert!(catalog
            .operations
            .iter()
            .any(|operation| operation.name == name));
    }
    let mut set = request("settings.theme.set", None, r#"{"theme":"light"}"#);
    set.idempotency_key = Some("theme-light".to_string());
    let response = world.invoke(&settings, &set).unwrap();
    assert!(same_json(&response.result, &json(r#"{"theme":"light"}"#)));
    assert_eq!(world.themes.len(), 1);
    assert!(same_json(&world.themes[0], &json(r#""light""#)));
    let again = world.invoke(&settings, &set).unwrap();
    assert!(same_response(&again, &response));
    assert_eq!(world.themes.len(), 1);
}

#[test]
fn creates_idempotent_panes_and_rejects_invalid_layouts() {
    let mut world = World::new();
    world.targets.push(TargetRef {
        id: "local:shell".to_string(),
        label: "Shell".to_string(),
    });
    let session = world
        .database
        .save_mux_session(MuxSessionInput {
            root_path: "/tmp".to_string(),
            ..session_input(Some("session-layout"), "Layout")
        })
        .unwrap();
    let agent = ControlCaller {
        caller_id: "pane-builder".to_string(),
        kind: ControlCallerKind::Agent,
        grants: vec![
            grant(
                ControlResourceKind::MuxSession,
                Some(&session.id),
                ControlAccess::Write,
            ),
            grant(
                ControlResourceKind::TerminalTarget,
                None,
                ControlAccess::Read,
            ),
        ],
    };
    let create = |title: &str, key: &str, anchor: &str| {
        keyed(
            "mux.pane.create",
            ControlResourceKind::MuxSession,
            &session.id,
            &format!("{{\"targetId\":\"local:shell\",\"title\":\"{title}\",\"anchorPaneId\":{anchor},\"splitDirection\":\"vertical\",\"splitRatio\":0.4,\"start\":true}}"),
            key,
        )
    };
    let pane_of = |response: &ControlResponse| word(get(&response.result, "pane").unwrap(), "id");
    let first = world
        .invoke(&agent, &create("First", "create-first", "null"))
        .unwrap();
    let first_id = pane_of(&first);
    let duplicate = world
        .invoke(&agent, &create("First", "create-first", "null"))
        .unwrap();
    assert_eq!(pane_of(&duplicate), first_id);
    let second = world
        .invoke(
            &agent,
            &create("Second", "create-second", &format!("\"{first_id}\"")),
        )
        .unwrap();
    let second_id = pane_of(&second);
    assert_eq!(world.database.list_mux_panes(Some(&session.id)).len(), 2);

    let invalid = world
        .invoke(
            &agent,
            &request(
                "mux.layout.set",
                Some((ControlResourceKind::MuxSession, &session.id)),
                &format!("{{\"layout\":{{\"type\":\"split\",\"direction\":\"horizontal\",\"ratio\":0.5,\"first\":{{\"type\":\"pane\",\"paneId\":\"{first_id}\"}},\"second\":{{\"type\":\"pane\",\"paneId\":\"{first_id}\"}}}}}}"),
            ),
        )
        .unwrap_err();
    assert_eq!(invalid.code, ControlErrorCode::InvalidArguments);

    let sessions = world.database.list_mux_sessions();
    let current = sessions
        .into_iter()
        .find(|item| item.id == session.id)
        .unwrap();
    let leaves = match current.layout.unwrap() {
        MuxSplitNode::Split {
            direction,
            ratio,
            first,
            second,
        } => {
            assert_eq!(direction, MuxSplitDirection::Vertical);
            assert_eq!(f64::from_bits(ratio.bits), 0.4);
            vec![*first, *second]
        }
        _ => panic!("two Panes must produce a split layout"),
    };
    assert!(leaves
        .iter()
        .any(|node| matches!(node, MuxSplitNode::Pane { pane_id } if pane_id == &first_id)));
    assert!(leaves
        .iter()
        .any(|node| matches!(node, MuxSplitNode::Pane { pane_id } if pane_id == &second_id)));
}

#[test]
fn access_levels_are_ordered() {
    assert!(ControlAccess::Control.allows(&ControlAccess::Read));
    assert!(ControlAccess::Control.allows(&ControlAccess::Write));
    assert!(!ControlAccess::Write.allows(&ControlAccess::Control));
    assert!(ControlAccess::Write.allows(&ControlAccess::Read));
    assert!(!ControlAccess::Read.allows(&ControlAccess::Write));
}

#[test]
fn operations_are_listed_once() {
    let all = descriptors();
    assert_eq!(all.len(), 43);
    for operation in &all {
        assert_eq!(
            all.iter().filter(|other| other.name == operation.name).count(),
            1
        );
    }
    assert!(descriptor("mux.nothing").is_none());
    let ui = ui_caller();
    assert_eq!(ui.kind, ControlCallerKind::Ui);
    assert!(ui.has_access(
        &ControlResourceKind::Application,
        None,
        &ControlAccess::Control
    ));
}

#[test]
fn failed_requests_free_their_key() {
    let mut service = InProcessControlService::new();
    let agent = caller(
        ControlResourceKind::TerminalRuntime,
        Some("r"),
        ControlAccess::Write,
    );
    let write = keyed(
        "terminal.runtime.resize",
        ControlResourceKind::TerminalRuntime,
        "r",
        r#"{"cols":1,"rows":1}"#,
        "k",
    );
    assert!(matches!(service.invoke(&agent, &write), Admission::Run(_)));
    match service.invoke(&agent, &write) {
        Admission::Refused(error) => assert_eq!(error.code, ControlErrorCode::Conflict),
        other => panic!("{other:?}"),
    }
    let failed = luna_mux::control_requests::backend_error("gone");
    assert!(service.finish(&agent, &write, Err(failed)).is_err());
    assert!(matches!(service.invoke(&agent, &write), Admission::Run(_)));
}

#[test]
fn events_are_read_in_order() {
    let mut buffer = ControlEventBuffer::new();
    for index in 0..5 {
        buffer.record_at(
            format!("t{index}"),
            "control.test",
            None,
            Json::Number(JsonNumber::Whole(index)),
        );
    }
    let first = buffer.read(0, 2);
    assert_eq!(first.events.len(), 2);
    assert!(!first.truncated);
    let rest = buffer.read(first.next_sequence, 10);
    assert_eq!(rest.events.len(), 3);
    assert_eq!(rest.events[0].timestamp, "t2");
    let none = caller(ControlResourceKind::Settings, None, ControlAccess::Write);
    assert_eq!(
        InProcessControlService::new()
            .read_events(&none, 0, 10)
            .unwrap_err()
            .code,
        ControlErrorCode::Unauthorized
    );
}

fn stored_session(world: &mut World, name: &str) -> String {
    world
        .database
        .save_mux_session(MuxSessionInput {
            id: None,
            name: name.to_string(),
            root_path: "/work".to_string(),
            layout: None,
        })
        .unwrap()
        .id
}

#[test]
fn sessions_keep_what_an_update_does_not_name() {
    let mut world = World::new();
    let id = stored_session(&mut world, "First");
    let renamed = world
        .database
        .update_session(&id, Some("Second".to_string()), None)
        .unwrap();
    assert_eq!(renamed.name, "Second");
    assert_eq!(renamed.root_path, "/work");
    let blank = world
        .database
        .update_session(&id, Some("  ".to_string()), None)
        .unwrap_err();
    assert_eq!(blank.code, ControlErrorCode::Internal);
    assert_eq!(blank.message, "Session 名称不能为空");
    let missing = world.database.update_session("none", None, None).unwrap_err();
    assert_eq!(missing.code, ControlErrorCode::NotFound);
    assert_eq!(world.database.list_mux_sessions()[0].name, "Second");
}

#[test]
fn created_panes_stand_in_the_stored_layout() {
    let mut world = World::new();
    let id = stored_session(&mut world, "First");
    world.targets = vec![TargetRef {
        id: "local:shell".to_string(),
        label: "Shell".to_string(),
    }];
    let create = PaneCreateArguments {
        target_id: "local:shell".to_string(),
        title: None,
        cwd: None,
        command: "ls".to_string(),
        launch_profile_id: String::new(),
        anchor_pane_id: None,
        split_direction: None,
        split_ratio: None,
        start: false,
    };
    let (pane, session) = world
        .database
        .create_pane(&ui_caller(), &world.targets, &id, &create)
        .unwrap();
    assert_eq!(pane.title, "Shell");
    assert_eq!(pane.cwd, "/work");
    match session.layout {
        Some(MuxSplitNode::Pane { pane_id }) => assert_eq!(pane_id, pane.id),
        other => panic!("{other:?}"),
    }
    let nobody = ControlCaller {
        caller_id: "nobody".to_string(),
        kind: ControlCallerKind::Agent,
        grants: Vec::new(),
    };
    let refused = world
        .database
        .create_pane(&nobody, &world.targets, &id, &create)
        .unwrap_err();
    assert_eq!(refused.code, ControlErrorCode::Unauthorized);
    assert_eq!(world.database.list_mux_panes(Some(&id)).len(), 1);
    let changed = world
        .database
        .update_pane(
            &pane.id,
            PaneUpdateArguments {
                title: Some("Renamed".to_string()),
                cwd: None,
                command: None,
                launch_profile_id: None,
            },
        )
        .unwrap();
    assert_eq!(changed.title, "Renamed");
    assert_eq!(changed.command, "ls");
    let outside = world
        .database
        .set_layout(
            &id,
            Some(MuxSplitNode::Pane {
                pane_id: "foreign".to_string(),
            }),
        )
        .unwrap_err();
    assert_eq!(outside.code, ControlErrorCode::InvalidArguments);
}

#[test]
fn reads_of_terminal_output_are_bounded() {
    let read = |text: &str| {
        let request = request(
            "terminal.runtime.output.read",
            Some((ControlResourceKind::TerminalRuntime, "runtime-1")),
            text,
        );
        plan_effect(
            Operation::TerminalRuntimeOutputRead,
            &request,
            Ok(OperationArguments::Untyped),
            &Ok(Vec::new()),
        )
    };
    for (text, from, bytes) in [
        ("{}", 0, 65536),
        (r#"{"fromCursor":7,"maxBytes":0}"#, 7, 4),
        (r#"{"maxBytes":99999999}"#, 0, 1048576),
        (r#"{"maxBytes":500}"#, 0, 500),
    ] {
        match read(text).unwrap() {
            ControlEffect::ReadOutput {
                runtime_id,
                from_cursor,
                max_bytes,
            } => {
                assert_eq!(runtime_id, "runtime-1");
                assert_eq!(from_cursor, from);
                assert_eq!(max_bytes, bytes);
            }
            other => panic!("{other:?}"),
        }
    }
    let refused = read(r#"{"maxBytes":-1}"#).unwrap_err();
    assert_eq!(refused.code, ControlErrorCode::InvalidArguments);
}

#[test]
fn both_zeros_are_the_same_argument() {
    let mut table = IdempotencyTable::new();
    let key = || IdempotencyKey {
        caller_id: "agent".to_string(),
        operation: "browser.scroll".to_string(),
        key: "k".to_string(),
    };
    let signature = |x: f64| IdempotencySignature {
        resource: None,
        arguments: Json::Object(vec![(
            "x".to_string(),
            Json::Number(JsonNumber::Real(x.to_bits())),
        )]),
    };
    assert!(table.reserve(&key(), &signature(0.0)).unwrap().is_none());
    table.complete(
        key(),
        signature(0.0),
        ControlResponse {
            request_id: "first".to_string(),
            result: Json::Null,
        },
    );
    let again = table.lookup(&key(), &signature(-0.0)).unwrap().unwrap();
    assert_eq!(again.request_id, "first");
    assert_eq!(
        table.lookup(&key(), &signature(0.5)).unwrap_err().code,
        ControlErrorCode::Conflict
    );
    let one = Json::Number(JsonNumber::Whole(1));
    assert!(!same_json(&one, &Json::Number(JsonNumber::Real(1.0f64.to_bits()))));
}

#[test]
fn tasks_and_created_panes_are_told_as_they_are() {
    assert_eq!(task_input("build it"), "build it\r");
    let news = created_pane_news(text_value("p"), text_value("s"), true);
    assert_eq!(get_text(&news, "pane").unwrap(), "p");
    assert_eq!(get_text(&news, "session").unwrap(), "s");
    assert!(matches!(get(&news, "start"), Some(Json::Bool(true))));
    let reply = created_pane_reply(text_value("p"), text_value("s"), false);
    assert!(matches!(get(&reply, "startRequested"), Some(Json::Bool(false))));
    assert!(get(&reply, "start").is_none());
}
