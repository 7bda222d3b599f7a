//! Reading the arguments of control requests.
use vstd::prelude::*;
use vstd::string::*;

use crate::control_contract::{
    control_error, plain_error, ControlAccess, ControlCaller, ControlCallerKind, ControlError,
    ControlErrorCode, ControlGrant, ControlRequest, ControlResourceKind, ControlResult,
};
use crate::json::{
    copy_json, fields_view, get, get_text, is_empty_object, push_field, whole_value, Json,
    JsonNumber, JsonView,
};
use crate::text::{contains, has_part, lowered, same, to_lower, trim, trimmed};

verus! {

/// A failure inside the application.
pub fn internal_error(message: &str) -> (r: ControlError)
    ensures
        plain_error(r, ControlErrorCode::Internal, message@),
{
    control_error(ControlErrorCode::Internal, message)
}

/// A request with arguments that do not fit.
pub fn invalid_arguments(message: &str) -> (r: ControlError)
    ensures
        plain_error(r, ControlErrorCode::InvalidArguments, message@),
{
    control_error(ControlErrorCode::InvalidArguments, message)
}

/// The message of a backend says that something does not exist.
pub open spec fn says_not_found(message: Seq<char>) -> bool {
    contains(to_lower(message), "not found"@) || contains(message, "不存在"@)
}

/// A failure of a backend: something does not exist, or the backend cannot serve.
pub fn backend_error(message: &str) -> (r: ControlError)
    ensures
        plain_error(
            r,
            if says_not_found(message@) {
                ControlErrorCode::NotFound
            } else {
                ControlErrorCode::Unavailable
            },
            message@,
        ),
{
    let code = if has_part(lowered(message).as_str(), "not found") || has_part(message, "不存在") {
        ControlErrorCode::NotFound
    } else {
        ControlErrorCode::Unavailable
    };
    control_error(code, message)
}

/// The id that a request names, without outer white space; nothing where none is left.
pub open spec fn resource_id_of(request: ControlRequest) -> Option<Seq<char>> {
    match request.resource {
        Some(resource) if trim(resource.id@).len() > 0 => Some(trim(resource.id@)),
        _ => None,
    }
}

/// The id of the resource, which the operation needs.
pub fn required_resource_id(request: &ControlRequest) -> (r: ControlResult<String>)
    ensures
        match resource_id_of(*request) {
            Some(id) => r is Ok && r->Ok_0@ == id,
            None => r is Err && plain_error(
                r->Err_0,
                ControlErrorCode::InvalidArguments,
                "该操作必须指定非空资源 ID"@,
            ),
        },
{
    match &request.resource {
        Some(resource) => {
            let id = trimmed(resource.id.as_str());
            if id.as_str().is_empty() {
                Err(invalid_arguments("该操作必须指定非空资源 ID"))
            } else {
                Ok(id)
            }
        },
        None => Err(invalid_arguments("该操作必须指定非空资源 ID")),
    }
}

/// Refuses arguments where the operation takes none.
pub fn require_empty_arguments(request: &ControlRequest) -> (r: ControlResult<()>)
    ensures
        r is Ok == request.arguments.view().is_empty_object(),
        r is Err ==> plain_error(
            r->Err_0,
            ControlErrorCode::InvalidArguments,
            "该操作不接受 arguments"@,
        ),
{
    if is_empty_object(&request.arguments) {
        Ok(())
    } else {
        Err(invalid_arguments("该操作不接受 arguments"))
    }
}

/// What a reading of an argument gives: a value, or a message why there is none.
pub ghost enum Reading<T> {
    Value(T),
    Fault(Seq<char>),
}

/// The text argument with this name.
pub open spec fn read_text(arguments: JsonView, name: Seq<char>, allow_empty: bool) -> Reading<
    Seq<char>,
> {
    match arguments.get_text(name) {
        None => Reading::Fault(name + " 必须是字符串"@),
        Some(s) => if !allow_empty && s.len() == 0 {
            Reading::Fault(name + " 不能为空"@)
        } else {
            Reading::Value(s)
        },
    }
}

/// The number argument with this name, or the default where it is missing.
pub open spec fn read_number(arguments: JsonView, name: Seq<char>, default: u64) -> Reading<u64> {
    match arguments.get(name) {
        None => Reading::Value(default),
        Some(JsonView::Number(JsonNumber::Whole(n))) => Reading::Value(n),
        Some(_) => Reading::Fault(name + " 必须是非负整数"@),
    }
}

/// The size argument with this name, between 1 and 10000.
pub open spec fn read_dimension(arguments: JsonView, name: Seq<char>) -> Reading<u64> {
    match read_number(arguments, name, 0) {
        Reading::Fault(message) => Reading::Fault(message),
        Reading::Value(n) => if 1 <= n <= 10_000 {
            Reading::Value(n)
        } else {
            Reading::Fault(name + " 必须在 1 到 10000 之间"@)
        },
    }
}

/// The flag argument with this name.
pub open spec fn read_flag(arguments: JsonView, name: Seq<char>) -> Reading<bool> {
    match arguments.get(name) {
        Some(JsonView::Bool(b)) => Reading::Value(b),
        _ => Reading::Fault(name + " 必须是布尔值"@),
    }
}

fn named_fault(name: &str, rest: &str) -> (r: ControlError)
    ensures
        plain_error(r, ControlErrorCode::InvalidArguments, name@ + rest@),
{
    let mut message = name.to_owned();
    message.append(rest);
    invalid_arguments(message.as_str())
}

/// The text argument with this name.
pub fn required_string(request: &ControlRequest, name: &str, allow_empty: bool) -> (r:
    ControlResult<String>)
    ensures
        match read_text(request.arguments.view(), name@, allow_empty) {
            Reading::Value(s) => r is Ok && r->Ok_0@ == s,
            Reading::Fault(message) => r is Err && plain_error(
                r->Err_0,
                ControlErrorCode::InvalidArguments,
                message,
            ),
        },
{
    match get_text(&request.arguments, name) {
        None => Err(named_fault(name, " 必须是字符串")),
        Some(s) => {
            if !allow_empty && s.as_str().is_empty() {
                Err(named_fault(name, " 不能为空"))
            } else {
                Ok(s.clone())
            }
        },
    }
}

/// The number argument with this name, or the default where it is missing.
pub fn optional_u64(request: &ControlRequest, name: &str, default: u64) -> (r: ControlResult<u64>)
    ensures
        match read_number(request.arguments.view(), name@, default) {
            Reading::Value(n) => r is Ok && r->Ok_0 == n,
            Reading::Fault(message) => r is Err && plain_error(
                r->Err_0,
                ControlErrorCode::InvalidArguments,
                message,
            ),
        },
{
    match get(&request.arguments, name) {
        None => Ok(default),
        Some(Json::Number(JsonNumber::Whole(n))) => Ok(*n),
        Some(_) => Err(named_fault(name, " 必须是非负整数")),
    }
}

/// The size argument with this name, between 1 and 10000.
pub fn required_dimension(request: &ControlRequest, name: &str) -> (r: ControlResult<u32>)
    ensures
        match read_dimension(request.arguments.view(), name@) {
            Reading::Value(n) => r is Ok && r->Ok_0 == n,
            Reading::Fault(message) => r is Err && plain_error(
                r->Err_0,
                ControlErrorCode::InvalidArguments,
                message,
            ),
        },
{
    match optional_u64(request, name, 0) {
        Err(error) => Err(error),
        Ok(value) => {
            if value < 1 || value > 10_000 {
                Err(named_fault(name, " 必须在 1 到 10000 之间"))
            } else {
                Ok(value as u32)
            }
        },
    }
}

/// The flag argument with this name.
pub fn required_flag(request: &ControlRequest, name: &str) -> (r: ControlResult<bool>)
    ensures
        match read_flag(request.arguments.view(), name@) {
            Reading::Value(b) => r is Ok && r->Ok_0 == b,
            Reading::Fault(message) => r is Err && plain_error(
                r->Err_0,
                ControlErrorCode::InvalidArguments,
                message,
            ),
        },
{
    match get(&request.arguments, name) {
        Some(Json::Bool(b)) => Ok(*b),
        _ => Err(named_fault(name, " 必须是布尔值")),
    }
}

/// A pane that is created is started unless the request says otherwise.
pub fn default_true() -> (r: bool)
    ensures
        r,
{
    true
}

/// How long a wait for a page element lasts where the request does not say.
pub fn default_browser_wait_timeout_ms() -> (r: u64)
    ensures
        r == 5_000,
{
    5_000
}

/// A runtime and what it can do besides the terminal.
#[derive(Debug)]
pub struct RuntimeCapabilities {
    pub runtime_id: String,
    pub remote_files: bool,
    pub port_forwarding: bool,
}

/// The runtime with this id; the first where more than one has it.
pub open spec fn runtime_with(list: Seq<RuntimeCapabilities>, id: Seq<char>) -> Option<
    RuntimeCapabilities,
>
    decreases list.len(),
{
    if list.len() == 0 {
        None
    } else if list[0].runtime_id@ == id {
        Some(list[0])
    } else {
        runtime_with(list.skip(1), id)
    }
}

/// What a runtime needs to be able to do.
#[derive(Clone, Copy, Debug, PartialEq, Eq, Structural)]
pub enum Capability {
    RemoteFiles,
    PortForwarding,
}

/// The name of a capability.
pub open spec fn capability_text(capability: Capability) -> Seq<char> {
    match capability {
        Capability::RemoteFiles => "remoteFiles"@,
        Capability::PortForwarding => "portForwarding"@,
    }
}

/// The runtime can do it.
pub open spec fn provides(runtime: RuntimeCapabilities, capability: Capability) -> bool {
    match capability {
        Capability::RemoteFiles => runtime.remote_files,
        Capability::PortForwarding => runtime.port_forwarding,
    }
}

/// A refusal: its code and message.
pub ghost struct Refusal {
    pub code: ControlErrorCode,
    pub message: Seq<char>,
}

/// Why a runtime cannot be used: the list of runtimes is not there, the runtime is not in it, or
/// it lacks the capability.
pub open spec fn capability_refusal(
    runtimes: Result<Vec<RuntimeCapabilities>, String>,
    id: Seq<char>,
    capability: Capability,
) -> Option<Refusal> {
    match runtimes {
        Err(message) => Some(
            Refusal {
                code: if says_not_found(message@) {
                    ControlErrorCode::NotFound
                } else {
                    ControlErrorCode::Unavailable
                },
                message: message@,
            },
        ),
        Ok(list) => match runtime_with(list@, id) {
            None => Some(
                Refusal { code: ControlErrorCode::NotFound, message: "Terminal Runtime 不存在"@ },
            ),
            Some(runtime) => if provides(runtime, capability) {
                None
            } else {
                Some(
                    Refusal {
                        code: ControlErrorCode::Unavailable,
                        message: "该 Terminal Runtime 不支持 "@ + capability_text(capability),
                    },
                )
            },
        },
    }
}

/// Refuses a runtime that is not there or lacks the capability. `runtimes` is the list of the
/// backend, or its error.
pub fn require_runtime_capability(
    runtimes: &Result<Vec<RuntimeCapabilities>, String>,
    runtime_id: &str,
    capability: Capability,
) -> (r: ControlResult<()>)
    ensures
        match capability_refusal(*runtimes, runtime_id@, capability) {
            None => r is Ok,
            Some(refusal) => r is Err && plain_error(r->Err_0, refusal.code, refusal.message),
        },
{
    match runtimes {
        Err(message) => Err(backend_error(message.as_str())),
        Ok(list) => {
            let mut i: usize = 0;
            assert(list@.skip(0) =~= list@);
            while i < list.len()
                invariant
                    i <= list@.len(),
                    *runtimes == Result::<Vec<RuntimeCapabilities>, String>::Ok(*list),
                    runtime_with(list@, runtime_id@) == runtime_with(
                        list@.skip(i as int),
                        runtime_id@,
                    ),
                decreases list@.len() - i,
            {
                let runtime = &list[i];
                if same(runtime.runtime_id.as_str(), runtime_id) {
                    let (available, name) = match capability {
                        Capability::RemoteFiles => (runtime.remote_files, "remoteFiles"),
                        Capability::PortForwarding => (runtime.port_forwarding, "portForwarding"),
                    };
                    if available {
                        return Ok(());
                    }
                    let mut message = "该 Terminal Runtime 不支持 ".to_owned();
                    message.append(name);
                    return Err(control_error(ControlErrorCode::Unavailable, message.as_str()));
                }
                proof {
                    assert(list@.skip(i as int).skip(1) =~= list@.skip(i + 1));
                }
                i = i + 1;
            }
            Err(control_error(ControlErrorCode::NotFound, "Terminal Runtime 不存在"))
        },
    }
}

/// The field of an operation whose text does not go into the audit.
pub open spec fn secret_field(operation: Seq<char>) -> Option<Seq<char>> {
    if operation == "terminal.runtime.write"@ {
        Some("data"@)
    } else if operation == "agents.send_task"@ {
        Some("task"@)
    } else if operation == "browser.type"@ {
        Some("text"@)
    } else if operation == "browser.evaluate"@ {
        Some("expression"@)
    } else {
        None
    }
}

/// A value that may be missing, as JSON.
pub open spec fn or_null(value: Option<JsonView>) -> JsonView {
    match value {
        Some(v) => v,
        None => JsonView::Null,
    }
}

/// The size of a text field in bytes, as JSON.
pub open spec fn byte_count(arguments: JsonView, field: Seq<char>) -> JsonView {
    match arguments.get_text(field) {
        Some(s) => JsonView::Number(
            JsonNumber::Whole(vstd::utf8::encode_utf8(s).len() as usize as u64),
        ),
        None => JsonView::Null,
    }
}

/// The fields that stand for arguments with a secret.
pub open spec fn audit_fields(clear: JsonView, size: JsonView, selector: JsonView) -> Seq<
    (Seq<char>, JsonView),
> {
    seq![("clear"@, clear), ("dataBytes"@, size), ("selector"@, selector)]
}

/// The arguments as they go into the audit: all of them, or for an operation with a secret field
/// the length of that field in bytes beside the selector and the clear flag.
pub open spec fn audited_arguments(operation: Seq<char>, arguments: JsonView) -> JsonView {
    match secret_field(operation) {
        None => arguments,
        Some(field) => JsonView::Object(
            audit_fields(
                or_null(arguments.get("clear"@)),
                byte_count(arguments, field),
                or_null(arguments.get("selector"@)),
            ),
        ),
    }
}

fn field_or_null(arguments: &Json, name: &str) -> (r: Json)
    ensures
        r.view() == or_null(arguments.view().get(name@)),
{
    match get(arguments, name) {
        Some(value) => copy_json(value),
        None => Json::Null,
    }
}

/// The arguments as they go into the audit.
pub fn audit_arguments(request: &ControlRequest) -> (r: Json)
    ensures
        r.view() == audited_arguments(request.operation@, request.arguments.view()),
{
    let operation = request.operation.as_str();
    let field = if same(operation, "terminal.runtime.write") {
        "data"
    } else if same(operation, "agents.send_task") {
        "task"
    } else if same(operation, "browser.type") {
        "text"
    } else if same(operation, "browser.evaluate") {
        "expression"
    } else {
        return copy_json(&request.arguments);
    };
    let size = match get_text(&request.arguments, field) {
        Some(s) => whole_value(s.as_str().len() as u64),
        None => Json::Null,
    };
    let mut fields: Vec<(String, Json)> = Vec::new();
    push_field(&mut fields, "clear", field_or_null(&request.arguments, "clear"));
    push_field(&mut fields, "dataBytes", size);
    push_field(&mut fields, "selector", field_or_null(&request.arguments, "selector"));
    proof {
        let arguments = request.arguments.view();
        assert(fields_view(fields@) =~= audit_fields(
            or_null(arguments.get("clear"@)),
            byte_count(arguments, field@),
            or_null(arguments.get("selector"@)),
        ));
    }
    Json::Object(fields)
}

/// The audit of an operation with a secret field depends on that field by its length alone.
pub proof fn law_audit_hides_the_secret_text(
    operation: Seq<char>,
    a: JsonView,
    b: JsonView,
    field: Seq<char>,
)
    requires
        secret_field(operation) == Some(field),
        a.get("clear"@) == b.get("clear"@),
        a.get("selector"@) == b.get("selector"@),
        match (a.get_text(field), b.get_text(field)) {
            (Some(s), Some(t)) => vstd::utf8::encode_utf8(s).len() == vstd::utf8::encode_utf8(
                t,
            ).len(),
            (None, None) => true,
            _ => false,
        },
    ensures
        audited_arguments(operation, a) == audited_arguments(operation, b),
{
}

/// The kinds of resource that the user interface controls: all of them.
pub open spec fn all_kinds() -> Seq<ControlResourceKind> {
    seq![
        ControlResourceKind::Application,
        ControlResourceKind::Settings,
        ControlResourceKind::ConnectionProfile,
        ControlResourceKind::MuxSession,
        ControlResourceKind::Pane,
        ControlResourceKind::TerminalTarget,
        ControlResourceKind::TerminalRuntime,
        ControlResourceKind::Agent,
        ControlResourceKind::BrowserRuntime,
        ControlResourceKind::Transfer,
        ControlResourceKind::Tunnel,
    ]
}

/// The user interface as a caller: it controls every resource of every kind.
pub fn ui_caller() -> (r: ControlCaller)
    ensures
        r.caller_id@ == "ui"@,
        r.kind == ControlCallerKind::Ui,
        r.grants@.len() == all_kinds().len(),
        forall|i: int|
            #![trigger r.grants@[i]]
            0 <= i < r.grants@.len() ==> r.grants@[i].resource_kind == all_kinds()[i]
                && r.grants@[i].resource_id is None && r.grants@[i].access
                == ControlAccess::Control,
        forall|kind: ControlResourceKind, id: Option<Seq<char>>, access: ControlAccess|
            #[trigger] r.may_access(kind, id, access),
{
    let kinds = vec![
        ControlResourceKind::Application,
        ControlResourceKind::Settings,
        ControlResourceKind::ConnectionProfile,
        ControlResourceKind::MuxSession,
        ControlResourceKind::Pane,
        ControlResourceKind::TerminalTarget,
        ControlResourceKind::TerminalRuntime,
        ControlResourceKind::Agent,
        ControlResourceKind::BrowserRuntime,
        ControlResourceKind::Transfer,
        ControlResourceKind::Tunnel,
    ];
    let mut grants: Vec<ControlGrant> = Vec::new();
    let mut i: usize = 0;
    while i < kinds.len()
        invariant
            i <= kinds@.len(),
            i == grants@.len(),
            kinds@ == all_kinds(),
            forall|k: int|
                #![trigger grants@[k]]
                0 <= k < i ==> grants@[k].resource_kind == all_kinds()[k]
                    && grants@[k].resource_id is None && grants@[k].access
                    == ControlAccess::Control,
        decreases kinds@.len() - i,
    {
        grants.push(
            ControlGrant {
                resource_kind: kinds[i],
                resource_id: None,
                access: ControlAccess::Control,
            },
        );
        i = i + 1;
    }
    let r = ControlCaller { caller_id: "ui".to_owned(), kind: ControlCallerKind::Ui, grants };
    assert forall|kind: ControlResourceKind, id: Option<Seq<char>>, access: ControlAccess|
        #[trigger] r.may_access(kind, id, access) by {
        let i: int = match kind {
            ControlResourceKind::Application => 0,
            ControlResourceKind::Settings => 1,
            ControlResourceKind::ConnectionProfile => 2,
            ControlResourceKind::MuxSession => 3,
            ControlResourceKind::Pane => 4,
            ControlResourceKind::TerminalTarget => 5,
            ControlResourceKind::TerminalRuntime => 6,
            ControlResourceKind::Agent => 7,
            ControlResourceKind::BrowserRuntime => 8,
            ControlResourceKind::Transfer => 9,
            ControlResourceKind::Tunnel => 10,
        };
        assert(all_kinds()[i] == kind);
        assert(r.grants@[i].reaches(kind, id, access));
    }
    r
}

/// The audit keeps the arguments as they are, but for what is written to a terminal, told to an
/// agent, typed into a page or evaluated in it: of those it keeps how many bytes the text had, where
/// it went, and whether the field was cleared, and nothing else.
pub proof fn law_audits_keep_all_but_secrets(operation: Seq<char>, arguments: JsonView)
    ensures
        ({
            let field = if operation == "terminal.runtime.write"@ {
                Some("data"@)
            } else if operation == "agents.send_task"@ {
                Some("task"@)
            } else if operation == "browser.type"@ {
                Some("text"@)
            } else if operation == "browser.evaluate"@ {
                Some("expression"@)
            } else {
                None
            };
            let kept = audited_arguments(operation, arguments);
            match field {
                None => kept == arguments,
                Some(name) => {
                    let size = match arguments.get(name) {
                        Some(JsonView::Text(s)) => JsonView::Number(
                            JsonNumber::Whole(
                                vstd::utf8::encode_utf8(s).len() as usize as u64,
                            ),
                        ),
                        _ => JsonView::Null,
                    };
                    let clear = match arguments.get("clear"@) {
                        Some(v) => v,
                        None => JsonView::Null,
                    };
                    let selector = match arguments.get("selector"@) {
                        Some(v) => v,
                        None => JsonView::Null,
                    };
                    kept == JsonView::Object(
                        seq![("clear"@, clear), ("dataBytes"@, size), ("selector"@, selector)],
                    )
                },
            }
        }),
{
}

/// A runtime is refused exactly where the list of runtimes cannot be had, where it is not in the
/// list, or where it cannot do what is asked; a missing one is told as not found.
pub proof fn law_runtimes_do_what_they_can(
    runtimes: Result<Vec<RuntimeCapabilities>, String>,
    id: Seq<char>,
)
    ensures
        capability_refusal(runtimes, id, Capability::RemoteFiles) is None <==> (runtimes matches Ok(
            list,
        ) && runtime_with(list@, id) matches Some(runtime) && runtime.remote_files),
        capability_refusal(runtimes, id, Capability::PortForwarding) is None <==> (
        runtimes matches Ok(list) && runtime_with(list@, id) matches Some(runtime)
            && runtime.port_forwarding),
        (runtimes matches Ok(list) && runtime_with(list@, id) is None) ==> capability_refusal(
            runtimes,
            id,
            Capability::RemoteFiles,
        )->0.code == ControlErrorCode::NotFound,
        (runtimes matches Ok(list) && runtime_with(list@, id) is Some) ==> (capability_refusal(
            runtimes,
            id,
            Capability::RemoteFiles,
        ) matches Some(refusal) ==> refusal.code == ControlErrorCode::Unavailable),
{
}

/// The user interface may do everything with everything, in its own name.
pub proof fn law_the_user_interface_may_do_everything(
    r: ControlCaller,
    kind: ControlResourceKind,
    id: Option<Seq<char>>,
)
    requires
        ui_caller.ensures((), r),
    ensures
        r.kind == ControlCallerKind::Ui,
        r.caller_id@ == "ui"@,
        r.may_access(kind, id, ControlAccess::Control),
{
}

/// A failure counts as something that was not found where its words say so, in any case of the
/// letters.
pub proof fn law_words_tell_what_was_not_found(message: Seq<char>)
    ensures
        contains(message, "不存在"@) ==> says_not_found(message),
        contains(to_lower(message), "not found"@) ==> says_not_found(message),
        !contains(message, "不存在"@) && !contains(to_lower(message), "not found"@)
            ==> !says_not_found(message),
{
}

} // verus!
