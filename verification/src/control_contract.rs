//! Callers, grants, requests and errors of the control boundary.
use vstd::prelude::*;
use vstd::string::*;

use crate::json::{copy_json, Json, JsonView};
use crate::text::{opt_view, same};

verus! {

/// The version of the control contract that this library serves.
pub const CONTROL_CONTRACT_VERSION: u32 = 1;

/// What a grant or a request can be about.
#[derive(Clone, Copy, Debug, PartialEq, Eq, Structural)]
pub enum ControlResourceKind {
    Application,
    Settings,
    ConnectionProfile,
    MuxSession,
    Pane,
    TerminalTarget,
    TerminalRuntime,
    Agent,
    BrowserRuntime,
    Transfer,
    Tunnel,
}

/// How far access goes; each level includes the ones before it.
#[derive(Clone, Copy, Debug, PartialEq, Eq, Structural)]
pub enum ControlAccess {
    Read,
    Write,
    Control,
}

/// Who calls.
#[derive(Clone, Copy, Debug, PartialEq, Eq, Structural)]
pub enum ControlCallerKind {
    Ui,
    Agent,
    Internal,
}

/// Whether a user has to approve an operation.
#[derive(Clone, Copy, Debug, PartialEq, Eq, Structural)]
pub enum ControlApprovalRequirement {
    NotRequired,
    User,
}

/// Why a request was refused.
#[derive(Clone, Copy, Debug, PartialEq, Eq, Structural)]
pub enum ControlErrorCode {
    UnsupportedVersion,
    UnknownOperation,
    InvalidArguments,
    Unauthorized,
    ApprovalRequired,
    ApprovalDenied,
    Conflict,
    NotFound,
    Unavailable,
    Internal,
}

/// A resource, by its kind and id.
#[derive(Debug)]
pub struct ControlResourceRef {
    pub kind: ControlResourceKind,
    pub id: String,
}

/// Access to one resource of a kind, or to all of them where no id is given.
#[derive(Debug)]
pub struct ControlGrant {
    pub resource_kind: ControlResourceKind,
    pub resource_id: Option<String>,
    pub access: ControlAccess,
}

/// An authenticated caller with its grants.
#[derive(Debug)]
pub struct ControlCaller {
    pub caller_id: String,
    pub kind: ControlCallerKind,
    pub grants: Vec<ControlGrant>,
}

/// A request to run an operation.
#[derive(Debug)]
pub struct ControlRequest {
    pub contract_version: u32,
    pub request_id: String,
    pub operation: String,
    pub resource: Option<ControlResourceRef>,
    pub arguments: Json,
    pub idempotency_key: Option<String>,
    pub approval_id: Option<String>,
}

/// The answer to a request that was carried out.
#[derive(Debug)]
pub struct ControlResponse {
    pub request_id: String,
    pub result: Json,
}

/// The answer to a request that was refused or failed.
#[derive(Debug)]
pub struct ControlError {
    pub code: ControlErrorCode,
    pub message: String,
    pub retryable: bool,
    pub details: Option<Json>,
}

/// The result of a control call.
pub type ControlResult<T> = Result<T, ControlError>;

/// The kind and id of a resource.
pub open spec fn resource_view(r: Option<ControlResourceRef>) -> Option<
    (ControlResourceKind, Seq<char>),
> {
    match r {
        Some(r) => Some((r.kind, r.id@)),
        None => None,
    }
}

/// What an answer holds.
pub open spec fn response_view(r: ControlResponse) -> (Seq<char>, JsonView) {
    (r.request_id@, r.result.view())
}

/// An error with this code and message that a retry does not mend and that has no details.
pub open spec fn plain_error(e: ControlError, code: ControlErrorCode, message: Seq<char>) -> bool {
    e.code == code && e.message@ == message && !e.retryable && e.details is None
}

impl ControlAccess {
    /// The level as a number.
    pub open spec fn rank(self) -> int {
        match self {
            ControlAccess::Read => 0,
            ControlAccess::Write => 1,
            ControlAccess::Control => 2,
        }
    }

    /// This level includes the requested one.
    pub open spec fn covers(self, requested: ControlAccess) -> bool {
        requested.rank() <= self.rank()
    }

    /// Decides `covers`.
    pub fn allows(&self, requested: &ControlAccess) -> (r: bool)
        ensures
            r == self.covers(*requested),
    {
        match (*self, *requested) {
            (ControlAccess::Control, _) => true,
            (ControlAccess::Write, ControlAccess::Control) => false,
            (ControlAccess::Write, _) => true,
            (ControlAccess::Read, ControlAccess::Read) => true,
            (ControlAccess::Read, _) => false,
        }
    }
}

impl ControlGrant {
    /// The grant reaches the resource at this level. A grant for one id reaches no other id, and
    /// not a request that names none.
    pub open spec fn reaches(
        self,
        kind: ControlResourceKind,
        id: Option<Seq<char>>,
        access: ControlAccess,
    ) -> bool {
        &&& self.resource_kind == kind
        &&& self.access.covers(access)
        &&& (self.resource_id is None || (id is Some && self.resource_id->0@ == id->0))
    }

    /// The grant reaches some resource of the kind at this level.
    pub open spec fn reaches_any(self, kind: ControlResourceKind, access: ControlAccess) -> bool {
        self.resource_kind == kind && self.access.covers(access)
    }
}

impl ControlCaller {
    /// Some grant reaches the resource at this level.
    pub open spec fn may_access(
        self,
        kind: ControlResourceKind,
        id: Option<Seq<char>>,
        access: ControlAccess,
    ) -> bool {
        exists|i: int|
            0 <= i < self.grants@.len() && #[trigger] self.grants@[i].reaches(kind, id, access)
    }

    /// Some grant reaches some resource of the kind at this level.
    pub open spec fn may_access_any(
        self,
        kind: ControlResourceKind,
        access: ControlAccess,
    ) -> bool {
        exists|i: int|
            0 <= i < self.grants@.len() && #[trigger] self.grants@[i].reaches_any(kind, access)
    }

    /// Decides `may_access`.
    pub fn has_access(
        &self,
        kind: &ControlResourceKind,
        id: Option<&str>,
        access: &ControlAccess,
    ) -> (r: bool)
        ensures
            r == self.may_access(
                *kind,
                match id {
                    Some(s) => Some(s@),
                    None => None,
                },
                *access,
            ),
    {
        let ghost wanted: Option<Seq<char>> = match id {
            Some(s) => Some(s@),
            None => None,
        };
        let mut i: usize = 0;
        while i < self.grants.len()
            invariant
                i <= self.grants@.len(),
                wanted == (match id {
                    Some(s) => Some(s@),
                    None => None::<Seq<char>>,
                }),
                forall|k: int|
                    0 <= k < i ==> !#[trigger] self.grants@[k].reaches(*kind, wanted, *access),
            decreases self.grants@.len() - i,
        {
            let grant = &self.grants[i];
            let scoped: bool = match (&grant.resource_id, id) {
                (None, _) => true,
                (Some(own), Some(asked)) => same(own.as_str(), asked),
                (Some(_), None) => false,
            };
            if grant.resource_kind == *kind && grant.access.allows(access) && scoped {
                assert(self.grants@[i as int].reaches(*kind, wanted, *access));
                return true;
            }
            i = i + 1;
        }
        false
    }

    /// Decides `may_access_any`.
    pub fn can_access_any(&self, kind: &ControlResourceKind, access: &ControlAccess) -> (r: bool)
        ensures
            r == self.may_access_any(*kind, *access),
    {
        let mut i: usize = 0;
        while i < self.grants.len()
            invariant
                i <= self.grants@.len(),
                forall|k: int|
                    0 <= k < i ==> !#[trigger] self.grants@[k].reaches_any(*kind, *access),
            decreases self.grants@.len() - i,
        {
            let grant = &self.grants[i];
            if grant.resource_kind == *kind && grant.access.allows(access) {
                assert(self.grants@[i as int].reaches_any(*kind, *access));
                return true;
            }
            i = i + 1;
        }
        false
    }
}

/// A caller whose grants all name one id has no access to any other resource.
pub proof fn law_scoped_grant_reaches_only_its_resource(
    caller: ControlCaller,
    own: Seq<char>,
    other: Seq<char>,
    kind: ControlResourceKind,
    access: ControlAccess,
)
    requires
        forall|i: int|
            #![trigger caller.grants@[i]]
            0 <= i < caller.grants@.len() ==> opt_view(caller.grants@[i].resource_id) == Some(own),
        other != own,
    ensures
        !caller.may_access(kind, Some(other), access),
        !caller.may_access(kind, None, access),
{
    assert forall|i: int| 0 <= i < caller.grants@.len() implies !#[trigger] caller.grants@[i].reaches(
        kind,
        Some(other),
        access,
    ) && !caller.grants@[i].reaches(kind, None, access) by {}
}

/// Access at a level includes access at every lower level.
pub proof fn law_access_is_monotone(
    caller: ControlCaller,
    kind: ControlResourceKind,
    id: Option<Seq<char>>,
    high: ControlAccess,
    low: ControlAccess,
)
    requires
        high.covers(low),
        caller.may_access(kind, id, high),
    ensures
        caller.may_access(kind, id, low),
        caller.may_access_any(kind, low),
{
    let i = choose|i: int|
        0 <= i < caller.grants@.len() && #[trigger] caller.grants@[i].reaches(kind, id, high);
    assert(caller.grants@[i].reaches(kind, id, low));
    assert(caller.grants@[i].reaches_any(kind, low));
}

/// The name of a resource kind on the wire.
pub open spec fn kind_text(kind: ControlResourceKind) -> Seq<char> {
    match kind {
        ControlResourceKind::Application => "application"@,
        ControlResourceKind::Settings => "settings"@,
        ControlResourceKind::ConnectionProfile => "connectionProfile"@,
        ControlResourceKind::MuxSession => "muxSession"@,
        ControlResourceKind::Pane => "pane"@,
        ControlResourceKind::TerminalTarget => "terminalTarget"@,
        ControlResourceKind::TerminalRuntime => "terminalRuntime"@,
        ControlResourceKind::Agent => "agent"@,
        ControlResourceKind::BrowserRuntime => "browserRuntime"@,
        ControlResourceKind::Transfer => "transfer"@,
        ControlResourceKind::Tunnel => "tunnel"@,
    }
}

/// The name of a resource kind on the wire.
pub fn kind_name(kind: ControlResourceKind) -> (r: &'static str)
    ensures
        r@ == kind_text(kind),
{
    match kind {
        ControlResourceKind::Application => "application",
        ControlResourceKind::Settings => "settings",
        ControlResourceKind::ConnectionProfile => "connectionProfile",
        ControlResourceKind::MuxSession => "muxSession",
        ControlResourceKind::Pane => "pane",
        ControlResourceKind::TerminalTarget => "terminalTarget",
        ControlResourceKind::TerminalRuntime => "terminalRuntime",
        ControlResourceKind::Agent => "agent",
        ControlResourceKind::BrowserRuntime => "browserRuntime",
        ControlResourceKind::Transfer => "transfer",
        ControlResourceKind::Tunnel => "tunnel",
    }
}

/// The name of a caller kind on the wire.
pub open spec fn caller_kind_text(kind: ControlCallerKind) -> Seq<char> {
    match kind {
        ControlCallerKind::Ui => "ui"@,
        ControlCallerKind::Agent => "agent"@,
        ControlCallerKind::Internal => "internal"@,
    }
}

/// The name of a caller kind on the wire.
pub fn caller_kind_name(kind: ControlCallerKind) -> (r: &'static str)
    ensures
        r@ == caller_kind_text(kind),
{
    match kind {
        ControlCallerKind::Ui => "ui",
        ControlCallerKind::Agent => "agent",
        ControlCallerKind::Internal => "internal",
    }
}

/// The name of an error code on the wire.
pub open spec fn error_code_text(code: ControlErrorCode) -> Seq<char> {
    match code {
        ControlErrorCode::UnsupportedVersion => "unsupportedVersion"@,
        ControlErrorCode::UnknownOperation => "unknownOperation"@,
        ControlErrorCode::InvalidArguments => "invalidArguments"@,
        ControlErrorCode::Unauthorized => "unauthorized"@,
        ControlErrorCode::ApprovalRequired => "approvalRequired"@,
        ControlErrorCode::ApprovalDenied => "approvalDenied"@,
        ControlErrorCode::Conflict => "conflict"@,
        ControlErrorCode::NotFound => "notFound"@,
        ControlErrorCode::Unavailable => "unavailable"@,
        ControlErrorCode::Internal => "internal"@,
    }
}

/// The name of an error code on the wire.
pub fn error_code_name(code: ControlErrorCode) -> (r: &'static str)
    ensures
        r@ == error_code_text(code),
{
    match code {
        ControlErrorCode::UnsupportedVersion => "unsupportedVersion",
        ControlErrorCode::UnknownOperation => "unknownOperation",
        ControlErrorCode::InvalidArguments => "invalidArguments",
        ControlErrorCode::Unauthorized => "unauthorized",
        ControlErrorCode::ApprovalRequired => "approvalRequired",
        ControlErrorCode::ApprovalDenied => "approvalDenied",
        ControlErrorCode::Conflict => "conflict",
        ControlErrorCode::NotFound => "notFound",
        ControlErrorCode::Unavailable => "unavailable",
        ControlErrorCode::Internal => "internal",
    }
}

impl Clone for ControlResourceRef {
    fn clone(&self) -> (r: Self)
        ensures
            r == *self,
    {
        ControlResourceRef { kind: self.kind, id: self.id.clone() }
    }
}

/// A copy of a resource that may be missing.
pub fn copy_resource(resource: &Option<ControlResourceRef>) -> (r: Option<ControlResourceRef>)
    ensures
        resource_view(r) == resource_view(*resource),
{
    match resource {
        Some(value) => Some(value.clone()),
        None => None,
    }
}

/// A copy of an answer.
pub fn copy_response(response: &ControlResponse) -> (r: ControlResponse)
    ensures
        response_view(r) == response_view(*response),
{
    ControlResponse {
        request_id: response.request_id.clone(),
        result: copy_json(&response.result),
    }
}

/// An error without details that a retry does not mend.
pub fn control_error(code: ControlErrorCode, message: &str) -> (r: ControlError)
    ensures
        plain_error(r, code, message@),
{
    ControlError { code, message: message.to_owned(), retryable: false, details: None }
}

/// A grant at a level opens that level and the ones below it: to control includes to write, and to
/// write includes to read.
pub proof fn law_levels_of_access(asked: ControlAccess)
    ensures
        ControlAccess::Read.covers(asked) <==> asked == ControlAccess::Read,
        ControlAccess::Write.covers(asked) <==> asked != ControlAccess::Control,
        ControlAccess::Control.covers(asked),
{
}

/// A caller has access to a resource exactly through a grant for its kind, at a level that is high
/// enough, and for that resource or for all; some access to a kind needs no more than some grant.
pub proof fn law_access_comes_from_a_grant(
    caller: ControlCaller,
    kind: ControlResourceKind,
    id: Option<Seq<char>>,
)
    ensures
        caller.may_access(kind, id, ControlAccess::Read) <==> exists|i: int|
            0 <= i < caller.grants@.len() && (#[trigger] caller.grants@[i]).resource_kind == kind
                && (caller.grants@[i].resource_id is None || opt_view(caller.grants@[i].resource_id)
                == id),
        caller.may_access(kind, id, ControlAccess::Control) <==> exists|i: int|
            0 <= i < caller.grants@.len() && (#[trigger] caller.grants@[i]).resource_kind == kind
                && caller.grants@[i].access == ControlAccess::Control && (
            caller.grants@[i].resource_id is None || opt_view(caller.grants@[i].resource_id) == id),
        caller.may_access_any(kind, ControlAccess::Read) <==> exists|i: int|
            0 <= i < caller.grants@.len() && (#[trigger] caller.grants@[i]).resource_kind == kind,
{
    if caller.may_access(kind, id, ControlAccess::Read) {
        let i = choose|i: int|
            0 <= i < caller.grants@.len() && #[trigger] caller.grants@[i].reaches(
                kind,
                id,
                ControlAccess::Read,
            );
        assert(caller.grants@[i].resource_kind == kind);
    }
    if exists|i: int|
        0 <= i < caller.grants@.len() && (#[trigger] caller.grants@[i]).resource_kind == kind && (
        caller.grants@[i].resource_id is None || opt_view(caller.grants@[i].resource_id) == id) {
        let i = choose|i: int|
            0 <= i < caller.grants@.len() && (#[trigger] caller.grants@[i]).resource_kind == kind
                && (caller.grants@[i].resource_id is None || opt_view(caller.grants@[i].resource_id)
                == id);
        assert(caller.grants@[i].reaches(kind, id, ControlAccess::Read));
    }
    if caller.may_access(kind, id, ControlAccess::Control) {
        let i = choose|i: int|
            0 <= i < caller.grants@.len() && #[trigger] caller.grants@[i].reaches(
                kind,
                id,
                ControlAccess::Control,
            );
        assert(caller.grants@[i].resource_kind == kind);
    }
    if exists|i: int|
        0 <= i < caller.grants@.len() && (#[trigger] caller.grants@[i]).resource_kind == kind
            && caller.grants@[i].access == ControlAccess::Control && (caller.grants@[i].resource_id
            is None || opt_view(caller.grants@[i].resource_id) == id) {
        let i = choose|i: int|
            0 <= i < caller.grants@.len() && (#[trigger] caller.grants@[i]).resource_kind == kind
                && caller.grants@[i].access == ControlAccess::Control && (
            caller.grants@[i].resource_id is None || opt_view(caller.grants@[i].resource_id) == id);
        assert(caller.grants@[i].reaches(kind, id, ControlAccess::Control));
    }
    if caller.may_access_any(kind, ControlAccess::Read) {
        let i = choose|i: int|
            0 <= i < caller.grants@.len() && #[trigger] caller.grants@[i].reaches_any(
                kind,
                ControlAccess::Read,
            );
        assert(caller.grants@[i].resource_kind == kind);
    }
    if exists|i: int|
        0 <= i < caller.grants@.len() && (#[trigger] caller.grants@[i]).resource_kind == kind {
        let i = choose|i: int|
            0 <= i < caller.grants@.len() && (#[trigger] caller.grants@[i]).resource_kind == kind;
        assert(caller.grants@[i].reaches_any(kind, ControlAccess::Read));
    }
}

} // verus!
