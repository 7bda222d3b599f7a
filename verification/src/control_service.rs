//! The control boundary: who may do what, once, with whose approval, and what is noted of it.
use vstd::prelude::*;
use vstd::string::*;

use crate::clock::now_rfc3339;
use crate::control_catalog::{
    all_describe, authorize, authorized, catalog, law_operation_names_are_distinct, offered_of,
    operation_named, operations, validate_request, ControlCatalog, Operation,
};
use crate::control_contract::{
    caller_kind_name, caller_kind_text, control_error, copy_resource, copy_response,
    error_code_name, error_code_text, kind_name, kind_text, law_access_comes_from_a_grant,
    plain_error, resource_view,
    response_view, ControlAccess, ControlApprovalRequirement, ControlCaller, ControlCallerKind,
    ControlError,
    ControlErrorCode, ControlRequest, ControlResourceKind, ControlResourceRef, ControlResponse,
    ControlResult, CONTROL_CONTRACT_VERSION,
};
use crate::control_events::{
    event_view, event_views, read_view, ControlEvent, ControlEventBuffer, ControlEventReadResult,
    EventReadView, EventView,
};
use crate::control_idempotency::{
    is_in_flight_error, key_view, same_request, signature_view, standing, EntryView, IdempotencyKey,
    IdempotencySignature, IdempotencyTable, KeyView, SignatureView, Standing,
};
use crate::control_requests::{audit_arguments, audited_arguments, invalid_arguments, Refusal};
use crate::ids::{is_uuid_text, new_id};
use crate::json::{
    copy_json, fields_view, get_text, is_object, lemma_alike_reflexive, lemma_put_is_found,
    push_field, put, put_field, text_value, Json, JsonView,
};
use crate::number_text::decimal;
use crate::text::{has_prefix, opt_view, same, starts_with};

verus! {

/// The operation with this name.
pub open spec fn operation_of(name: Seq<char>) -> Option<Operation> {
    if exists|o: Operation| #[trigger] o.text() == name {
        Some(choose|o: Operation| #[trigger] o.text() == name)
    } else {
        None
    }
}

/// The id that a request names.
pub open spec fn requested_id(request: ControlRequest) -> Option<Seq<char>> {
    match request.resource {
        Some(resource) => Some(resource.id@),
        None => None,
    }
}

/// An agent may ask which browsers there are without any grant.
pub open spec fn is_open_list(caller: ControlCaller, request: ControlRequest) -> bool {
    caller.kind == ControlCallerKind::Agent && request.operation@ == "browser.runtimes.list"@
        && request.resource is None
}

/// Why a request is turned away at the door, by the first check that fails.
pub open spec fn door_refusal(caller: ControlCaller, request: ControlRequest) -> Option<Refusal> {
    if request.contract_version != CONTROL_CONTRACT_VERSION {
        Some(
            Refusal {
                code: ControlErrorCode::UnsupportedVersion,
                message: "不支持控制契约版本 "@ + decimal(request.contract_version as nat),
            },
        )
    } else {
        match operation_of(request.operation@) {
            None => Some(
                Refusal {
                    code: ControlErrorCode::UnknownOperation,
                    message: "未知控制操作："@ + request.operation@,
                },
            ),
            Some(operation) => if request.resource is Some && request.resource->0.kind
                != operation.about() {
                Some(
                    Refusal {
                        code: ControlErrorCode::InvalidArguments,
                        message: "操作资源类型不匹配"@,
                    },
                )
            } else if !is_open_list(caller, request) && !authorized(
                caller,
                operation,
                requested_id(request),
            ) {
                Some(
                    Refusal {
                        code: ControlErrorCode::Unauthorized,
                        message: "调用者没有该资源的访问权限"@,
                    },
                )
            } else if !(request.arguments.view() is Object) {
                Some(
                    Refusal {
                        code: ControlErrorCode::InvalidArguments,
                        message: "arguments 必须是 JSON 对象"@,
                    },
                )
            } else {
                None
            },
        }
    }
}

/// The request carries an idempotency key.
pub open spec fn has_key(request: ControlRequest) -> bool {
    request.idempotency_key is Some && request.idempotency_key->0@.len() > 0
}

/// The key under which the request is remembered.
pub open spec fn key_of(caller: ControlCaller, request: ControlRequest) -> KeyView {
    KeyView {
        caller_id: caller.caller_id@,
        operation: request.operation@,
        key: request.idempotency_key->0@,
    }
}

/// What the key of a request is bound to.
pub open spec fn signature_of(request: ControlRequest) -> SignatureView {
    SignatureView {
        resource: resource_view(request.resource),
        arguments: request.arguments.view(),
    }
}

/// What the table says of the request; a request without a key is always fresh.
pub open spec fn standing_of(
    table: Map<KeyView, EntryView>,
    caller: ControlCaller,
    request: ControlRequest,
) -> Standing {
    if has_key(request) {
        standing(table, key_of(caller, request), signature_of(request))
    } else {
        Standing::Fresh
    }
}

/// The caller needs the approval of a user for the operation.
pub open spec fn needs_approval(caller: ControlCaller, operation: Operation) -> bool {
    operation.needs_user() && caller.kind == ControlCallerKind::Agent
}

/// The table once the request is being carried out.
pub open spec fn with_reservation(
    table: Map<KeyView, EntryView>,
    caller: ControlCaller,
    request: ControlRequest,
) -> Map<KeyView, EntryView> {
    if has_key(request) {
        table.insert(
            key_of(caller, request),
            EntryView { signature: signature_of(request), response: None },
        )
    } else {
        table
    }
}

/// What is to be done with a request.
#[derive(Debug)]
pub enum Admission {
    /// It is refused.
    Refused(ControlError),
    /// It was carried out before; this was the answer.
    Answered(ControlResponse),
    /// A user has to be asked first.
    AskUser,
    /// The approval with this id has to be used up first.
    UseApproval(String),
    /// It is to be carried out.
    Run(Operation),
}

/// The table's word on a request that is not fresh.
pub open spec fn answers_standing(admission: Admission, standing: Standing) -> bool {
    match standing {
        Standing::Fresh => false,
        Standing::Done(response) => admission matches Admission::Answered(r) && response_view(r)
            == response,
        Standing::InFlight => admission matches Admission::Refused(e) && is_in_flight_error(e),
        Standing::Bound => admission matches Admission::Refused(e) && plain_error(
            e,
            ControlErrorCode::Conflict,
            "幂等键已绑定到不同的资源或参数"@,
        ),
    }
}

/// What the boundary decides on a request, given the requests that it remembers.
pub ghost enum Verdict {
    Refused(Refusal),
    Known(Standing),
    AskUser,
    UseApproval(Seq<char>),
    Run(Operation),
}

/// The decision on a request: the door first, then memory, then the user.
pub open spec fn verdict(
    table: Map<KeyView, EntryView>,
    caller: ControlCaller,
    request: ControlRequest,
) -> Verdict {
    match door_refusal(caller, request) {
        Some(refusal) => Verdict::Refused(refusal),
        None => {
            let operation = operation_of(request.operation@)->0;
            let found = standing_of(table, caller, request);
            if !(found is Fresh) {
                Verdict::Known(found)
            } else if needs_approval(caller, operation) {
                match request.approval_id {
                    Some(id) => Verdict::UseApproval(id@),
                    None => Verdict::AskUser,
                }
            } else {
                Verdict::Run(operation)
            }
        },
    }
}

/// The admission says what was decided.
pub open spec fn says(admission: Admission, verdict: Verdict) -> bool {
    match verdict {
        Verdict::Refused(refusal) => admission matches Admission::Refused(e) && plain_error(
            e,
            refusal.code,
            refusal.message,
        ),
        Verdict::Known(found) => answers_standing(admission, found),
        Verdict::AskUser => admission is AskUser,
        Verdict::UseApproval(id) => admission matches Admission::UseApproval(used) && used@ == id,
        Verdict::Run(operation) => admission matches Admission::Run(o) && o == operation,
    }
}

/// What is noted for good of a request.
#[derive(Debug)]
pub struct ControlAuditRecord {
    pub id: String,
    pub timestamp: String,
    pub caller_id: String,
    pub caller_kind: String,
    pub operation: String,
    pub resource_kind: String,
    pub resource_id: String,
    pub arguments: Json,
    pub result: String,
    pub error_code: String,
}

/// A request for the approval of a user. `value` holds the fields that it has on the wire besides
/// its id.
#[derive(Debug)]
pub struct ControlApproval {
    pub approval_id: String,
    pub caller_id: String,
    pub caller_kind: ControlCallerKind,
    pub operation: String,
    pub resource: Option<ControlResourceRef>,
    pub expires_at: String,
    pub value: Json,
}

/// The state of the control boundary: the latest events and the requests with a key.
pub struct InProcessControlService {
    pub events: ControlEventBuffer,
    pub idempotent_results: IdempotencyTable,
}

/// A request for approval on the wire: its fields, under its own id.
pub open spec fn approval_json(approval: ControlApproval) -> JsonView {
    let others = match approval.value.view() {
        JsonView::Object(fields) => fields,
        _ => Seq::empty(),
    };
    JsonView::Object(put(others, "approvalId"@, JsonView::Text(approval.approval_id@)))
}

fn approval_value(approval: &ControlApproval) -> (r: Json)
    ensures
        r.view() == approval_json(*approval),
{
    let mut fields: Vec<(String, Json)> = match copy_json(&approval.value) {
        Json::Object(fields) => fields,
        _ => Vec::new(),
    };
    put_field(&mut fields, "approvalId", text_value(approval.approval_id.as_str()));
    Json::Object(fields)
}

/// A caller that is told to come back with an approval is told the id of that approval.
pub proof fn law_refusals_name_the_approval(approval: ControlApproval)
    ensures
        approval_json(approval).get_text("approvalId"@) == Some(approval.approval_id@),
{
    let others = match approval.value.view() {
        JsonView::Object(fields) => fields,
        _ => Seq::empty(),
    };
    lemma_put_is_found(others, "approvalId"@, JsonView::Text(approval.approval_id@));
}

/// A resource as JSON.
pub open spec fn resource_json(resource: Option<(ControlResourceKind, Seq<char>)>) -> JsonView {
    match resource {
        None => JsonView::Null,
        Some((kind, id)) => JsonView::Object(
            seq![("id"@, JsonView::Text(id)), ("kind"@, JsonView::Text(kind_text(kind)))],
        ),
    }
}

fn resource_value(resource: &Option<ControlResourceRef>) -> (r: Json)
    ensures
        r.view() == resource_json(resource_view(*resource)),
{
    match resource {
        None => Json::Null,
        Some(value) => {
            let mut fields: Vec<(String, Json)> = Vec::new();
            push_field(&mut fields, "id", text_value(value.id.as_str()));
            push_field(&mut fields, "kind", text_value(kind_name(value.kind)));
            assert(fields_view(fields@) =~= seq![
                ("id"@, JsonView::Text(value.id@)),
                ("kind"@, JsonView::Text(kind_text(value.kind))),
            ]);
            Json::Object(fields)
        },
    }
}

/// The code of a failure.
pub open spec fn failure_of(outcome: ControlResult<ControlResponse>) -> Option<ControlErrorCode> {
    match outcome {
        Ok(_) => None,
        Err(e) => Some(e.code),
    }
}

/// The type of the event for a finished request.
pub open spec fn outcome_type(failure: Option<ControlErrorCode>) -> Seq<char> {
    match failure {
        None => "control.operation.completed"@,
        Some(_) => "control.operation.failed"@,
    }
}

/// The word for how a request ended.
pub open spec fn outcome_word(failure: Option<ControlErrorCode>) -> Seq<char> {
    match failure {
        None => "success"@,
        Some(_) => "failure"@,
    }
}

/// The code of a failure as JSON.
pub open spec fn failure_json(failure: Option<ControlErrorCode>) -> JsonView {
    match failure {
        None => JsonView::Null,
        Some(code) => JsonView::Text(error_code_text(code)),
    }
}

/// The fields of the event for a finished request.
pub open spec fn outcome_fields(
    caller: ControlCaller,
    request: ControlRequest,
    failure: Option<ControlErrorCode>,
) -> Seq<(Seq<char>, JsonView)> {
    seq![
        ("arguments"@, audited_arguments(request.operation@, request.arguments.view())),
        ("callerId"@, JsonView::Text(caller.caller_id@)),
        ("callerKind"@, JsonView::Text(caller_kind_text(caller.kind))),
        ("errorCode"@, failure_json(failure)),
        ("operation"@, JsonView::Text(request.operation@)),
        ("requestId"@, JsonView::Text(request.request_id@)),
        ("resource"@, resource_json(resource_view(request.resource))),
        ("result"@, JsonView::Text(outcome_word(failure))),
    ]
}

/// The lasting note of a finished request.
pub open spec fn is_audit_of(
    record: ControlAuditRecord,
    id: Seq<char>,
    timestamp: Seq<char>,
    caller: ControlCaller,
    request: ControlRequest,
    failure: Option<ControlErrorCode>,
) -> bool {
    &&& record.id@ == id
    &&& record.timestamp@ == timestamp
    &&& record.caller_id@ == caller.caller_id@
    &&& record.caller_kind@ == caller_kind_text(caller.kind)
    &&& record.operation@ == request.operation@
    &&& record.resource_kind@ == (match request.resource {
        Some(resource) => kind_text(resource.kind),
        None => Seq::empty(),
    })
    &&& record.resource_id@ == (match request.resource {
        Some(resource) => resource.id@,
        None => Seq::empty(),
    })
    &&& record.arguments.view() == audited_arguments(request.operation@, request.arguments.view())
    &&& record.result@ == outcome_word(failure)
    &&& record.error_code@ == (match failure {
        Some(code) => error_code_text(code),
        None => Seq::empty(),
    })
}

fn request_key(caller: &ControlCaller, request: &ControlRequest) -> (r: Option<IdempotencyKey>)
    ensures
        r is Some == has_key(*request),
        r is Some ==> key_view(r->0) == key_of(*caller, *request),
{
    match &request.idempotency_key {
        Some(key) => {
            if key.as_str().is_empty() {
                None
            } else {
                Some(
                    IdempotencyKey {
                        caller_id: caller.caller_id.clone(),
                        operation: request.operation.clone(),
                        key: key.clone(),
                    },
                )
            }
        },
        None => None,
    }
}

fn request_signature(request: &ControlRequest) -> (r: IdempotencySignature)
    ensures
        signature_view(r) == signature_of(*request),
{
    IdempotencySignature {
        resource: copy_resource(&request.resource),
        arguments: copy_json(&request.arguments),
    }
}

/// Turns a request away, or names its operation.
pub fn check_request(caller: &ControlCaller, request: &ControlRequest) -> (r: ControlResult<
    Operation,
>)
    ensures
        match door_refusal(*caller, *request) {
            Some(refusal) => r is Err && plain_error(r->Err_0, refusal.code, refusal.message),
            None => r is Ok && operation_of(request.operation@) == Some(r->Ok_0),
        },
{
    match validate_request(request) {
        Err(error) => {
            return Err(error);
        },
        Ok(()) => {},
    }
    let operation = match operation_named(request.operation.as_str()) {
        Some(operation) => operation,
        None => {
            let mut message = "未知控制操作：".to_owned();
            message.append(request.operation.as_str());
            return Err(control_error(ControlErrorCode::UnknownOperation, message.as_str()));
        },
    };
    proof {
        assert(operation.text() == request.operation@);
        law_operation_names_are_distinct(operation, operation_of(request.operation@)->0);
    }
    match &request.resource {
        Some(resource) => {
            if resource.kind != operation.resource_kind() {
                return Err(invalid_arguments("操作资源类型不匹配"));
            }
        },
        None => {},
    }
    let open_list = caller.kind == ControlCallerKind::Agent && same(
        request.operation.as_str(),
        "browser.runtimes.list",
    ) && request.resource.is_none();
    if !open_list {
        let id = match &request.resource {
            Some(resource) => Some(resource.id.as_str()),
            None => None,
        };
        match authorize(caller, operation, id) {
            Err(error) => {
                return Err(error);
            },
            Ok(()) => {},
        }
    }
    if !is_object(&request.arguments) {
        return Err(invalid_arguments("arguments 必须是 JSON 对象"));
    }
    Ok(operation)
}

/// The kinds of resource whose readers may read events.
pub open spec fn may_read_events(caller: ControlCaller) -> bool {
    ||| caller.may_access_any(ControlResourceKind::Application, ControlAccess::Read)
    ||| caller.may_access_any(ControlResourceKind::TerminalRuntime, ControlAccess::Read)
    ||| caller.may_access_any(ControlResourceKind::MuxSession, ControlAccess::Read)
    ||| caller.may_access_any(ControlResourceKind::Pane, ControlAccess::Read)
    ||| caller.may_access_any(ControlResourceKind::Transfer, ControlAccess::Read)
    ||| caller.may_access_any(ControlResourceKind::Tunnel, ControlAccess::Read)
    ||| caller.may_access_any(ControlResourceKind::Agent, ControlAccess::Read)
    ||| caller.may_access_any(ControlResourceKind::BrowserRuntime, ControlAccess::Read)
}

/// The caller may see the event: it reads the application, or the event is about a request of its
/// own, or it may read the resource of the event.
pub open spec fn sees(caller: ControlCaller, event: EventView) -> bool {
    if caller.may_access_any(ControlResourceKind::Application, ControlAccess::Read) {
        true
    } else if starts_with(event.event_type, "control.operation."@) {
        event.payload.get_text("callerId"@) == Some(caller.caller_id@)
    } else {
        match event.resource {
            Some((kind, id)) => caller.may_access(kind, Some(id), ControlAccess::Read),
            None => false,
        }
    }
}

/// The events that the caller may see.
pub open spec fn seen_of(caller: ControlCaller, events: Seq<EventView>) -> Seq<EventView>
    decreases events.len(),
{
    if events.len() == 0 {
        events
    } else {
        let rest = seen_of(caller, events.drop_last());
        if sees(caller, events.last()) {
            rest.push(events.last())
        } else {
            rest
        }
    }
}

fn may_see(caller: &ControlCaller, reads_all: bool, event: &ControlEvent) -> (r: bool)
    requires
        reads_all == caller.may_access_any(ControlResourceKind::Application, ControlAccess::Read),
    ensures
        r == sees(*caller, event_view(*event)),
{
    if reads_all {
        return true;
    }
    if has_prefix(event.event_type.as_str(), "control.operation.") {
        return match get_text(&event.payload, "callerId") {
            Some(id) => same(id.as_str(), caller.caller_id.as_str()),
            None => false,
        };
    }
    match &event.resource {
        Some(resource) => caller.has_access(
            &resource.kind,
            Some(resource.id.as_str()),
            &ControlAccess::Read,
        ),
        None => false,
    }
}

impl InProcessControlService {
    /// A control boundary where nothing has happened yet.
    pub fn new() -> (r: Self)
        ensures
            r.wf(),
            r.events@.next == 0,
            r.events@.events.len() == 0,
            r.idempotent_results@ == Map::<KeyView, EntryView>::empty(),
    {
        InProcessControlService {
            events: ControlEventBuffer::new(),
            idempotent_results: IdempotencyTable::new(),
        }
    }

    fn reserve(
        &mut self,
        caller: &ControlCaller,
        request: &ControlRequest,
        operation: Operation,
    ) -> (r: Admission)
        requires
            old(self).wf(),
        ensures
            final(self).wf(),
            final(self).events@ == old(self).events@,
            ({
                let found = standing_of(old(self).idempotent_results@, *caller, *request);
                if found is Fresh {
                    &&& r matches Admission::Run(o) && o == operation
                    &&& final(self).idempotent_results@ == with_reservation(
                        old(self).idempotent_results@,
                        *caller,
                        *request,
                    )
                } else {
                    answers_standing(r, found) && final(self).idempotent_results@ == old(
                        self,
                    ).idempotent_results@
                }
            }),
    {
        match request_key(caller, request) {
            None => Admission::Run(operation),
            Some(key) => {
                let signature = request_signature(request);
                match self.idempotent_results.reserve(&key, &signature) {
                    Err(error) => Admission::Refused(error),
                    Ok(Some(response)) => Admission::Answered(response),
                    Ok(None) => Admission::Run(operation),
                }
            },
        }
    }

    /// Goes on with a request whose approval was used up.
    pub fn resume_approved(
        &mut self,
        caller: &ControlCaller,
        request: &ControlRequest,
        operation: Operation,
    ) -> (r: Admission)
        requires
            old(self).wf(),
        ensures
            final(self).wf(),
            final(self).events@ == old(self).events@,
            ({
                let found = standing_of(old(self).idempotent_results@, *caller, *request);
                if found is Fresh {
                    &&& r matches Admission::Run(o) && o == operation
                    &&& final(self).idempotent_results@ == with_reservation(
                        old(self).idempotent_results@,
                        *caller,
                        *request,
                    )
                } else {
                    answers_standing(r, found) && final(self).idempotent_results@ == old(
                        self,
                    ).idempotent_results@
                }
            }),
    {
        self.reserve(caller, request, operation)
    }

    /// Ends a request that was carried out: the answer is kept for its key, and the key of one
    /// that failed is freed.
    pub fn finish(
        &mut self,
        caller: &ControlCaller,
        request: &ControlRequest,
        execution: ControlResult<Json>,
    ) -> (r: ControlResult<ControlResponse>)
        requires
            old(self).wf(),
        ensures
            final(self).wf(),
            final(self).events@ == old(self).events@,
            match execution {
                Ok(result) => {
                    &&& r is Ok
                    &&& response_view(r->Ok_0) == (request.request_id@, result.view())
                    &&& final(self).idempotent_results@ == (if has_key(*request) {
                        old(self).idempotent_results@.insert(
                            key_of(*caller, *request),
                            EntryView {
                                signature: signature_of(*request),
                                response: Some((request.request_id@, result.view())),
                            },
                        )
                    } else {
                        old(self).idempotent_results@
                    })
                },
                Err(error) => {
                    &&& r is Err
                    &&& r->Err_0 == error
                    &&& final(self).idempotent_results@ == (if has_key(*request) {
                        old(self).idempotent_results@.remove(key_of(*caller, *request))
                    } else {
                        old(self).idempotent_results@
                    })
                },
            },
            final(self).idempotent_results@ == after_answer(
                old(self).idempotent_results@,
                *caller,
                *request,
                answer_of(*request, execution),
            ),
    {
        match execution {
            Err(error) => {
                match request_key(caller, request) {
                    Some(key) => self.idempotent_results.forget(&key),
                    None => {},
                }
                Err(error)
            },
            Ok(result) => {
                let response = ControlResponse { request_id: request.request_id.clone(), result };
                match request_key(caller, request) {
                    Some(key) => {
                        let signature = request_signature(request);
                        let kept = copy_response(&response);
                        self.idempotent_results.complete(key, signature, kept);
                    },
                    None => {},
                }
                Ok(response)
            },
        }
    }

    /// Notes how a request ended, under the given id and moment, as an event and as a lasting
    /// record.
    pub fn note_outcome_at(
        &mut self,
        caller: &ControlCaller,
        request: &ControlRequest,
        outcome: &ControlResult<ControlResponse>,
        id: String,
        timestamp: String,
    ) -> (r: ControlAuditRecord)
        requires
            old(self).wf(),
        ensures
            final(self).wf(),
            final(self).idempotent_results@ == old(self).idempotent_results@,
            final(self).events@ == old(self).events@.recorded(
                timestamp@,
                outcome_type(failure_of(*outcome)),
                resource_view(request.resource),
                JsonView::Object(outcome_fields(*caller, *request, failure_of(*outcome))),
            ),
            is_audit_of(r, id@, timestamp@, *caller, *request, failure_of(*outcome)),
    {
        let (event_type, result, code) = match outcome {
            Ok(_) => ("control.operation.completed", "success", None),
            Err(error) => ("control.operation.failed", "failure", Some(error.code)),
        };
        let (code_value, error_code) = match code {
            Some(code) => (text_value(error_code_name(code)), error_code_name(code).to_owned()),
            None => (Json::Null, String::new()),
        };
        let arguments = audit_arguments(request);
        let mut fields: Vec<(String, Json)> = Vec::new();
        push_field(&mut fields, "arguments", copy_json(&arguments));
        push_field(&mut fields, "callerId", text_value(caller.caller_id.as_str()));
        push_field(&mut fields, "callerKind", text_value(caller_kind_name(caller.kind)));
        push_field(&mut fields, "errorCode", code_value);
        push_field(&mut fields, "operation", text_value(request.operation.as_str()));
        push_field(&mut fields, "requestId", text_value(request.request_id.as_str()));
        push_field(&mut fields, "resource", resource_value(&request.resource));
        push_field(&mut fields, "result", text_value(result));
        assert(fields_view(fields@) =~= outcome_fields(*caller, *request, failure_of(*outcome)));
        self.events.record_at(
            timestamp.clone(),
            event_type,
            copy_resource(&request.resource),
            Json::Object(fields),
        );
        let (resource_kind, resource_id) = match &request.resource {
            Some(resource) => (kind_name(resource.kind).to_owned(), resource.id.clone()),
            None => (String::new(), String::new()),
        };
        ControlAuditRecord {
            id,
            timestamp,
            caller_id: caller.caller_id.clone(),
            caller_kind: caller_kind_name(caller.kind).to_owned(),
            operation: request.operation.clone(),
            resource_kind,
            resource_id,
            arguments,
            result: result.to_owned(),
            error_code,
        }
    }

    /// Notes how a request ended, now and under a fresh id.
    pub fn note_outcome(
        &mut self,
        caller: &ControlCaller,
        request: &ControlRequest,
        outcome: &ControlResult<ControlResponse>,
    ) -> (r: ControlAuditRecord)
        requires
            old(self).wf(),
        ensures
            final(self).wf(),
            final(self).idempotent_results@ == old(self).idempotent_results@,
            final(self).events@ == old(self).events@.recorded(
                r.timestamp@,
                outcome_type(failure_of(*outcome)),
                resource_view(request.resource),
                JsonView::Object(outcome_fields(*caller, *request, failure_of(*outcome))),
            ),
            is_uuid_text(r.id@),
            is_audit_of(r, r.id@, r.timestamp@, *caller, *request, failure_of(*outcome)),
    {
        let id = new_id();
        let timestamp = now_rfc3339();
        self.note_outcome_at(caller, request, outcome, id, timestamp)
    }

    /// Notes that a user was asked, and tells the caller to come back with the approval.
    pub fn approval_requested(
        &mut self,
        request: &ControlRequest,
        approval: &ControlApproval,
    ) -> (r: ControlError)
        requires
            old(self).wf(),
        ensures
            final(self).wf(),
            final(self).idempotent_results@ == old(self).idempotent_results@,
            exists|timestamp: Seq<char>|
                final(self).events@ == #[trigger] old(self).events@.recorded(
                    timestamp,
                    "control.approval.requested"@,
                    resource_view(request.resource),
                    JsonView::Object(requested_fields(*approval)),
                ),
            r.code == ControlErrorCode::ApprovalRequired,
            r.message@ == "该控制操作需要用户批准"@,
            r.retryable,
            r.details is Some,
            r.details->0.view() == JsonView::Object(seq![("approval"@, approval_json(*approval))]),
    {
        let mut fields: Vec<(String, Json)> = Vec::new();
        push_field(&mut fields, "approvalId", text_value(approval.approval_id.as_str()));
        push_field(&mut fields, "callerId", text_value(approval.caller_id.as_str()));
        push_field(&mut fields, "callerKind", text_value(caller_kind_name(approval.caller_kind)));
        push_field(&mut fields, "expiresAt", text_value(approval.expires_at.as_str()));
        push_field(&mut fields, "operation", text_value(approval.operation.as_str()));
        assert(fields_view(fields@) =~= requested_fields(*approval));
        self.events.record_control_event(
            "control.approval.requested",
            copy_resource(&request.resource),
            Json::Object(fields),
        );
        let mut details: Vec<(String, Json)> = Vec::new();
        push_field(&mut details, "approval", approval_value(approval));
        assert(fields_view(details@) =~= seq![("approval"@, approval_json(*approval))]);
        ControlError {
            code: ControlErrorCode::ApprovalRequired,
            message: "该控制操作需要用户批准".to_owned(),
            retryable: true,
            details: Some(Json::Object(details)),
        }
    }

    /// Notes what the user said.
    pub fn resolve_approval(&mut self, approval: &ControlApproval, approved: bool)
        requires
            old(self).wf(),
        ensures
            final(self).wf(),
            final(self).idempotent_results@ == old(self).idempotent_results@,
            exists|timestamp: Seq<char>|
                final(self).events@ == #[trigger] old(self).events@.recorded(
                    timestamp,
                    resolved_type(approved),
                    resource_view(approval.resource),
                    JsonView::Object(resolved_fields(*approval)),
                ),
    {
        let event_type = if approved {
            "control.approval.approved"
        } else {
            "control.approval.denied"
        };
        let mut fields: Vec<(String, Json)> = Vec::new();
        push_field(&mut fields, "approvalId", text_value(approval.approval_id.as_str()));
        push_field(&mut fields, "callerId", text_value(approval.caller_id.as_str()));
        push_field(&mut fields, "callerKind", text_value(caller_kind_name(approval.caller_kind)));
        push_field(&mut fields, "operation", text_value(approval.operation.as_str()));
        assert(fields_view(fields@) =~= resolved_fields(*approval));
        assert(event_type@ == resolved_type(approved));
        self.events.record_control_event(
            event_type,
            copy_resource(&approval.resource),
            Json::Object(fields),
        );
    }
}

/// The fields of the event for a question to the user.
pub open spec fn requested_fields(approval: ControlApproval) -> Seq<(Seq<char>, JsonView)> {
    seq![
        ("approvalId"@, JsonView::Text(approval.approval_id@)),
        ("callerId"@, JsonView::Text(approval.caller_id@)),
        ("callerKind"@, JsonView::Text(caller_kind_text(approval.caller_kind))),
        ("expiresAt"@, JsonView::Text(approval.expires_at@)),
        ("operation"@, JsonView::Text(approval.operation@)),
    ]
}

/// The type of the event for an answer of the user.
pub open spec fn resolved_type(approved: bool) -> Seq<char> {
    if approved {
        "control.approval.approved"@
    } else {
        "control.approval.denied"@
    }
}

/// The fields of the event for an answer of the user.
pub open spec fn resolved_fields(approval: ControlApproval) -> Seq<(Seq<char>, JsonView)> {
    seq![
        ("approvalId"@, JsonView::Text(approval.approval_id@)),
        ("callerId"@, JsonView::Text(approval.caller_id@)),
        ("callerKind"@, JsonView::Text(caller_kind_text(approval.caller_kind))),
        ("operation"@, JsonView::Text(approval.operation@)),
    ]
}

/// The control boundary as its transports see it. They authenticate their callers first.
pub trait LunaControlService {
    /// What has to hold of the state between calls.
    spec fn wf(&self) -> bool;

    /// The operations that a caller sees.
    fn catalog(&self, caller: &ControlCaller) -> (r: ControlCatalog)
        requires
            self.wf(),
    ;

    /// Takes a request in: refuses it, answers it from memory, or says what comes next.
    fn invoke(&mut self, caller: &ControlCaller, request: &ControlRequest) -> (r: Admission)
        requires
            old(self).wf(),
        ensures
            final(self).wf(),
    ;

    /// The events that a caller may see.
    fn read_events(
        &self,
        caller: &ControlCaller,
        from_sequence: u64,
        limit: usize,
    ) -> (r: ControlResult<ControlEventReadResult>)
        requires
            self.wf(),
    ;
}

impl LunaControlService for InProcessControlService {
    open spec fn wf(&self) -> bool {
        self.events@.wf() && self.idempotent_results.wf()
    }

    fn catalog(&self, caller: &ControlCaller) -> (r: ControlCatalog)
        ensures
            r.contract_version == CONTROL_CONTRACT_VERSION,
            all_describe(r.operations@, offered_of(*caller, operations())),
    {
        catalog(caller)
    }

    fn invoke(&mut self, caller: &ControlCaller, request: &ControlRequest) -> (r: Admission)
        ensures
            final(self).events@ == old(self).events@,
            ({
                let decided = verdict(old(self).idempotent_results@, *caller, *request);
                &&& says(r, decided)
                &&& final(self).idempotent_results@ == (if decided is Run {
                    with_reservation(old(self).idempotent_results@, *caller, *request)
                } else {
                    old(self).idempotent_results@
                })
            }),
    {
        let operation: Operation = match check_request(caller, request) {
            Err(error) => {
                return Admission::Refused(error);
            },
            Ok(operation) => operation,
        };
        match request_key(caller, request) {
            Some(key) => {
                let signature = request_signature(request);
                match self.idempotent_results.lookup(&key, &signature) {
                    Err(error) => {
                        return Admission::Refused(error);
                    },
                    Ok(Some(response)) => {
                        return Admission::Answered(response);
                    },
                    Ok(None) => {},
                }
            },
            None => {},
        }
        if operation.approval() == ControlApprovalRequirement::User
            && caller.kind == ControlCallerKind::Agent {
            return match &request.approval_id {
                Some(id) => Admission::UseApproval(id.clone()),
                None => Admission::AskUser,
            };
        }
        self.reserve(caller, request, operation)
    }

    fn read_events(
        &self,
        caller: &ControlCaller,
        from_sequence: u64,
        limit: usize,
    ) -> (r: ControlResult<ControlEventReadResult>)
        ensures
            if may_read_events(*caller) {
                let whole = self.events@.read(from_sequence, limit as nat);
                &&& r is Ok
                &&& read_view(r->Ok_0) == (EventReadView {
                    events: seen_of(*caller, whole.events),
                    ..whole
                })
            } else {
                r is Err && plain_error(
                    r->Err_0,
                    ControlErrorCode::Unauthorized,
                    "调用者没有事件读取权限"@,
                )
            },
    {
        let read: ControlAccess = ControlAccess::Read;
        let reads_all = caller.can_access_any(&ControlResourceKind::Application, &read);
        if !reads_all && !caller.can_access_any(&ControlResourceKind::TerminalRuntime, &read)
            && !caller.can_access_any(&ControlResourceKind::MuxSession, &read)
            && !caller.can_access_any(&ControlResourceKind::Pane, &read)
            && !caller.can_access_any(&ControlResourceKind::Transfer, &read)
            && !caller.can_access_any(&ControlResourceKind::Tunnel, &read)
            && !caller.can_access_any(&ControlResourceKind::Agent, &read)
            && !caller.can_access_any(&ControlResourceKind::BrowserRuntime, &read) {
            return Err(control_error(ControlErrorCode::Unauthorized, "调用者没有事件读取权限"));
        }
        let result = self.events.read(from_sequence, limit);
        let ghost whole = event_views(result.events@);
        let all = result.events;
        let mut kept: Vec<ControlEvent> = Vec::new();
        assert(event_views(kept@) =~= seen_of(*caller, whole.take(0)));
        for event in it: all
            invariant
                it.seq() == result.events@,
                whole == event_views(result.events@),
                reads_all == caller.may_access_any(
                    ControlResourceKind::Application,
                    ControlAccess::Read,
                ),
                event_views(kept@) == seen_of(*caller, whole.take(it.index())),
        {
            let ghost at = it.index();
            proof {
                assert(whole.take(at + 1).drop_last() =~= whole.take(at));
                assert(whole.take(at + 1).last() == event_view(event));
            }
            if may_see(caller, reads_all, &event) {
                let ghost before = kept@;
                let ghost shown = event_view(event);
                kept.push(event);
                assert(event_views(kept@) =~= event_views(before).push(shown));
            }
        }
        assert(whole.take(whole.len() as int) =~= whole);
        Ok(
            ControlEventReadResult {
                requested_sequence: result.requested_sequence,
                earliest_sequence: result.earliest_sequence,
                next_sequence: result.next_sequence,
                truncated: result.truncated,
                events: kept,
            },
        )
    }
}

/// Nothing is carried out, answered or put to a user unless the request speaks the contract's
/// version, names an operation, and comes from a caller with the access that it needs; only the
/// list of browsers is open to every agent.
pub proof fn law_only_authorized_requests_pass_the_door(
    table: Map<KeyView, EntryView>,
    caller: ControlCaller,
    request: ControlRequest,
)
    requires
        !(verdict(table, caller, request) is Refused),
    ensures
        request.contract_version == CONTROL_CONTRACT_VERSION,
        ({
            let operation = operation_of(request.operation@);
            &&& operation is Some
            &&& operation->0.text() == request.operation@
            &&& is_open_list(caller, request) || authorized(
                caller,
                operation->0,
                requested_id(request),
            )
        }),
{
}

/// What an agent may do only with the approval of a user is never run at its first word.
pub proof fn law_agents_wait_for_the_user(
    table: Map<KeyView, EntryView>,
    caller: ControlCaller,
    request: ControlRequest,
    operation: Operation,
)
    requires
        caller.kind == ControlCallerKind::Agent,
        operation.needs_user(),
    ensures
        verdict(table, caller, request) != Verdict::Run(operation),
{
}

/// A request with a key that was carried out is answered from memory when it comes again; it is
/// not carried out, and no user is asked, a second time.
pub proof fn law_finished_request_is_not_run_again(
    table: Map<KeyView, EntryView>,
    caller: ControlCaller,
    request: ControlRequest,
    again: ControlRequest,
    response: (Seq<char>, JsonView),
)
    requires
        has_key(again),
        key_of(caller, again) == key_of(caller, request),
        same_request(signature_of(request), signature_of(again)),
        door_refusal(caller, again) is None,
    ensures
        verdict(
            table.insert(
                key_of(caller, request),
                EntryView { signature: signature_of(request), response: Some(response) },
            ),
            caller,
            again,
        ) == Verdict::Known(Standing::Done(response)),
{
}

/// A key that is in use turns away every request for another resource or with other arguments:
/// nothing is carried out, and no user is asked.
pub proof fn law_used_key_refuses_other_requests(
    table: Map<KeyView, EntryView>,
    caller: ControlCaller,
    request: ControlRequest,
    other: ControlRequest,
    response: Option<(Seq<char>, JsonView)>,
)
    requires
        has_key(other),
        key_of(caller, other) == key_of(caller, request),
        !same_request(signature_of(request), signature_of(other)),
        door_refusal(caller, other) is None,
    ensures
        verdict(
            table.insert(
                key_of(caller, request),
                EntryView { signature: signature_of(request), response },
            ),
            caller,
            other,
        ) == Verdict::Known(Standing::Bound),
{
}

/// While a request with a key is carried out, the same request is turned away as being in flight.
pub proof fn law_running_request_is_not_run_twice(
    table: Map<KeyView, EntryView>,
    caller: ControlCaller,
    request: ControlRequest,
    again: ControlRequest,
)
    requires
        has_key(request),
        has_key(again),
        key_of(caller, again) == key_of(caller, request),
        same_request(signature_of(request), signature_of(again)),
        door_refusal(caller, again) is None,
    ensures
        verdict(with_reservation(table, caller, request), caller, again) == Verdict::Known(
            Standing::InFlight,
        ),
{
}

/// A request that failed may be tried again: the boundary decides on it as if it had never come.
pub proof fn law_failed_request_may_be_tried_again(
    table: Map<KeyView, EntryView>,
    caller: ControlCaller,
    request: ControlRequest,
)
    requires
        standing_of(table, caller, request) is Fresh,
    ensures
        ({
            let reserved = with_reservation(table, caller, request);
            let freed = if has_key(request) {
                reserved.remove(key_of(caller, request))
            } else {
                reserved
            };
            verdict(freed, caller, request) == verdict(table, caller, request)
        }),
{
}

/// A caller is shown only events that it may see, and all of those.
pub proof fn law_events_are_shown_to_their_readers(
    caller: ControlCaller,
    events: Seq<EventView>,
    event: EventView,
)
    ensures
        seen_of(caller, events).contains(event) <==> events.contains(event) && sees(caller, event),
    decreases events.len(),
{
    if events.len() > 0 {
        let rest = events.drop_last();
        law_events_are_shown_to_their_readers(caller, rest, event);
        assert(events =~= rest.push(events.last()));
        assert(events.contains(event) <==> rest.contains(event) || event == events.last()) by {
            if rest.contains(event) {
                let i = choose|i: int| 0 <= i < rest.len() && rest[i] == event;
                assert(events[i] == event);
            }
            if events.contains(event) && event != events.last() {
                let i = choose|i: int| 0 <= i < events.len() && events[i] == event;
                assert(rest[i] == event);
            }
        }
        let seen = seen_of(caller, rest);
        let all = seen_of(caller, events);
        if sees(caller, events.last()) {
            assert(all =~= seen.push(events.last()));
            if seen.contains(event) {
                let i = choose|i: int| 0 <= i < seen.len() && seen[i] == event;
                assert(all[i] == event);
            }
            if all.contains(event) && event != events.last() {
                let i = choose|i: int| 0 <= i < all.len() && all[i] == event;
                assert(seen[i] == event);
            }
            assert(all[all.len() - 1] == events.last());
        }
    }
}

/// Some grant of the caller is for this kind of resource, and for this resource or for all.
pub open spec fn holds_grant(caller: ControlCaller, kind: ControlResourceKind, id: Seq<char>) -> bool {
    exists|i: int|
        0 <= i < caller.grants@.len() && (#[trigger] caller.grants@[i]).resource_kind == kind && (
        caller.grants@[i].resource_id is None || opt_view(caller.grants@[i].resource_id) == Some(
            id,
        ))
}

/// Who sees an event: a caller with a grant for the application sees all of them. Of the others, the
/// news of a request go to the caller that made it and to nobody else, and all other news to those
/// with a grant for the resource that they are about.
pub proof fn law_events_reach_those_they_concern(caller: ControlCaller, event: EventView)
    ensures
        ({
            let application = exists|i: int|
                0 <= i < caller.grants@.len() && (#[trigger] caller.grants@[i]).resource_kind
                    == ControlResourceKind::Application;
            let about_request = starts_with(event.event_type, "control.operation."@);
            let own = event.payload.get("callerId"@) == Some(JsonView::Text(caller.caller_id@));
            sees(caller, event) <==> application || (about_request && own) || (!about_request
                && event.resource is Some && holds_grant(
                caller,
                (event.resource->0).0,
                (event.resource->0).1,
            ))
        }),
{
    law_access_comes_from_a_grant(caller, ControlResourceKind::Application, None);
    if event.resource is Some {
        let (kind, id) = event.resource->0;
        law_access_comes_from_a_grant(caller, kind, Some(id));
    }
}

/// A caller may ask for events exactly where it has a grant for something that events are about.
pub proof fn law_readers_of_events_have_a_grant(caller: ControlCaller)
    ensures
        may_read_events(caller) <==> exists|i: int|
            0 <= i < caller.grants@.len() && match (#[trigger] caller.grants@[i]).resource_kind {
                ControlResourceKind::Application
                | ControlResourceKind::TerminalRuntime
                | ControlResourceKind::MuxSession
                | ControlResourceKind::Pane
                | ControlResourceKind::Transfer
                | ControlResourceKind::Tunnel
                | ControlResourceKind::Agent
                | ControlResourceKind::BrowserRuntime => true,
                ControlResourceKind::Settings
                | ControlResourceKind::ConnectionProfile
                | ControlResourceKind::TerminalTarget => false,
            },
{
    law_access_comes_from_a_grant(caller, ControlResourceKind::Application, None);
    law_access_comes_from_a_grant(caller, ControlResourceKind::TerminalRuntime, None);
    law_access_comes_from_a_grant(caller, ControlResourceKind::MuxSession, None);
    law_access_comes_from_a_grant(caller, ControlResourceKind::Pane, None);
    law_access_comes_from_a_grant(caller, ControlResourceKind::Transfer, None);
    law_access_comes_from_a_grant(caller, ControlResourceKind::Tunnel, None);
    law_access_comes_from_a_grant(caller, ControlResourceKind::Agent, None);
    law_access_comes_from_a_grant(caller, ControlResourceKind::BrowserRuntime, None);
}

/// The audit notes who asked for what on which resource, and how it ended: with `success` and no
/// code, or with `failure` and the code of the error.
pub proof fn law_audits_say_who_did_what(
    record: ControlAuditRecord,
    id: Seq<char>,
    timestamp: Seq<char>,
    caller: ControlCaller,
    request: ControlRequest,
    outcome: ControlResult<ControlResponse>,
)
    requires
        is_audit_of(record, id, timestamp, caller, request, failure_of(outcome)),
    ensures
        record.id@ == id && record.timestamp@ == timestamp,
        record.caller_id@ == caller.caller_id@,
        record.caller_kind@ == "agent"@ <== caller.kind == ControlCallerKind::Agent,
        record.caller_kind@ == "ui"@ <== caller.kind == ControlCallerKind::Ui,
        record.caller_kind@ == "internal"@ <== caller.kind == ControlCallerKind::Internal,
        record.operation@ == request.operation@,
        request.resource matches Some(resource) ==> record.resource_kind@ == kind_text(
            resource.kind,
        ) && record.resource_id@ == resource.id@,
        request.resource is None ==> record.resource_kind@.len() == 0 && record.resource_id@.len()
            == 0,
        outcome is Ok ==> record.result@ == "success"@ && record.error_code@.len() == 0,
        outcome matches Err(e) ==> record.result@ == "failure"@ && record.error_code@
            == error_code_text(e.code),
{
}

/// The news of a request say the same as its audit, and give its id; they are told under the word
/// for its end.
pub proof fn law_news_say_what_the_audit_says(
    record: ControlAuditRecord,
    id: Seq<char>,
    timestamp: Seq<char>,
    caller: ControlCaller,
    request: ControlRequest,
    outcome: ControlResult<ControlResponse>,
)
    requires
        is_audit_of(record, id, timestamp, caller, request, failure_of(outcome)),
    ensures
        ({
            let fields = outcome_fields(caller, request, failure_of(outcome));
            &&& fields.len() == 8
            &&& fields.contains(("arguments"@, record.arguments.view()))
            &&& fields.contains(("callerId"@, JsonView::Text(record.caller_id@)))
            &&& fields.contains(("callerKind"@, JsonView::Text(record.caller_kind@)))
            &&& fields.contains(("operation"@, JsonView::Text(record.operation@)))
            &&& fields.contains(("requestId"@, JsonView::Text(request.request_id@)))
            &&& fields.contains(("result"@, JsonView::Text(record.result@)))
            &&& fields.contains(
                (
                    "errorCode"@,
                    if outcome is Ok {
                        JsonView::Null
                    } else {
                        JsonView::Text(record.error_code@)
                    },
                ),
            )
            &&& fields.contains(("resource"@, resource_json(resource_view(request.resource))))
        }),
        outcome is Ok ==> outcome_type(failure_of(outcome)) == "control.operation.completed"@,
        outcome is Err ==> outcome_type(failure_of(outcome)) == "control.operation.failed"@,
{
    let fields = outcome_fields(caller, request, failure_of(outcome));
    assert(fields[0] == ("arguments"@, record.arguments.view()));
    assert(fields[1] == ("callerId"@, JsonView::Text(record.caller_id@)));
    assert(fields[2] == ("callerKind"@, JsonView::Text(record.caller_kind@)));
    assert(fields[3].0 == "errorCode"@);
    assert(fields[4] == ("operation"@, JsonView::Text(record.operation@)));
    assert(fields[5] == ("requestId"@, JsonView::Text(request.request_id@)));
    assert(fields[6] == ("resource"@, resource_json(resource_view(request.resource))));
    assert(fields[7] == ("result"@, JsonView::Text(record.result@)));
}

/// What is told of an approval names the approval, the caller that waits for it, and the operation;
/// a request for it also tells when it expires. Granting and denying are told under different words.
pub proof fn law_approvals_are_told_of(approval: ControlApproval)
    ensures
        requested_fields(approval).contains(
            ("approvalId"@, JsonView::Text(approval.approval_id@)),
        ),
        requested_fields(approval).contains(("callerId"@, JsonView::Text(approval.caller_id@))),
        requested_fields(approval).contains(("expiresAt"@, JsonView::Text(approval.expires_at@))),
        requested_fields(approval).contains(("operation"@, JsonView::Text(approval.operation@))),
        resolved_fields(approval).contains(("approvalId"@, JsonView::Text(approval.approval_id@))),
        resolved_fields(approval).contains(("callerId"@, JsonView::Text(approval.caller_id@))),
        resolved_fields(approval).contains(("operation"@, JsonView::Text(approval.operation@))),
        resolved_type(true) == "control.approval.approved"@,
        resolved_type(false) == "control.approval.denied"@,
{
    let asked = requested_fields(approval);
    assert(asked[0] == ("approvalId"@, JsonView::Text(approval.approval_id@)));
    assert(asked[1] == ("callerId"@, JsonView::Text(approval.caller_id@)));
    assert(asked[3] == ("expiresAt"@, JsonView::Text(approval.expires_at@)));
    assert(asked[4] == ("operation"@, JsonView::Text(approval.operation@)));
    let told = resolved_fields(approval);
    assert(told[0] == ("approvalId"@, JsonView::Text(approval.approval_id@)));
    assert(told[1] == ("callerId"@, JsonView::Text(approval.caller_id@)));
    assert(told[3] == ("operation"@, JsonView::Text(approval.operation@)));
}

/// The answer to a request that was carried out: its own id and what came of it; none where it failed.
pub open spec fn answer_of(request: ControlRequest, execution: ControlResult<Json>) -> Option<
    (Seq<char>, JsonView),
> {
    match execution {
        Ok(result) => Some((request.request_id@, result.view())),
        Err(_) => None,
    }
}

/// The table once a request was answered: an answer is remembered under its key, and a failure frees
/// the key.
pub open spec fn after_answer(
    table: Map<KeyView, EntryView>,
    caller: ControlCaller,
    request: ControlRequest,
    answer: Option<(Seq<char>, JsonView)>,
) -> Map<KeyView, EntryView> {
    if !has_key(request) {
        table
    } else {
        match answer {
            Some(response) => table.insert(
                key_of(caller, request),
                EntryView { signature: signature_of(request), response: Some(response) },
            ),
            None => table.remove(key_of(caller, request)),
        }
    }
}

/// A request with a key that was carried out is answered with the same answer when it comes again; one
/// that failed is decided on anew. A request without a key leaves nothing behind.
pub proof fn law_answers_are_remembered_and_failures_are_not(
    table: Map<KeyView, EntryView>,
    caller: ControlCaller,
    request: ControlRequest,
    result: Json,
    error: ControlError,
)
    requires
        door_refusal(caller, request) is None,
    ensures
        ({
            let keyed = request.idempotency_key is Some && request.idempotency_key->0@.len() > 0;
            let running = with_reservation(table, caller, request);
            let done = after_answer(running, caller, request, answer_of(request, Ok(result)));
            let failed = after_answer(running, caller, request, answer_of(request, Err(error)));
            &&& keyed ==> verdict(done, caller, request) == Verdict::Known(
                Standing::Done((request.request_id@, result.view())),
            )
            &&& keyed ==> !(verdict(failed, caller, request) is Known)
            &&& !keyed ==> done == table && failed == table
        }),
{
    lemma_alike_reflexive(request.arguments.view());
}

/// The answer to one request leaves the requests of other callers, for other operations and under other
/// keys as they are.
pub proof fn law_answers_concern_their_key_alone(
    table: Map<KeyView, EntryView>,
    caller: ControlCaller,
    request: ControlRequest,
    answer: Option<(Seq<char>, JsonView)>,
    other_caller: ControlCaller,
    other: ControlRequest,
)
    requires
        request.idempotency_key is Some,
        other_caller.caller_id@ != caller.caller_id@ || other.operation@ != request.operation@
            || other.idempotency_key is None || other.idempotency_key->0@
            != request.idempotency_key->0@,
    ensures
        verdict(after_answer(table, caller, request, answer), other_caller, other) == verdict(
            table,
            other_caller,
            other,
        ),
{
}

} // verus!
