//! The parts of a diagnostic report.
use vstd::prelude::*;
use vstd::string::*;

use crate::text::{copy_opt, opt_view};

verus! {

/// What a check found.
#[derive(Debug)]
pub struct AgentCheck {
    pub name: String,
    pub status: String,
    pub detail: String,
}

/// What a check found, as views.
pub ghost struct AgentCheckView {
    pub name: Seq<char>,
    pub status: Seq<char>,
    pub detail: Seq<char>,
}

impl View for AgentCheck {
    type V = AgentCheckView;

    open spec fn view(&self) -> AgentCheckView {
        AgentCheckView { name: self.name@, status: self.status@, detail: self.detail@ }
    }
}

/// A check with this outcome.
pub fn agent_check(name: &str, status: &str, detail: String) -> (r: AgentCheck)
    ensures
        r@ == (AgentCheckView { name: name@, status: status@, detail: detail@ }),
{
    AgentCheck { name: name.to_owned(), status: status.to_owned(), detail }
}

/// The views of checks.
pub open spec fn agent_check_views(checks: Seq<AgentCheck>) -> Seq<AgentCheckView> {
    checks.map_values(|c: AgentCheck| c@)
}

/// What a check rests on.
#[derive(Debug)]
pub struct DoctorEvidence {
    pub kind: String,
    pub detail: String,
}

/// What a check rests on, as views.
pub ghost struct EvidenceView {
    pub kind: Seq<char>,
    pub detail: Seq<char>,
}

impl View for DoctorEvidence {
    type V = EvidenceView;

    open spec fn view(&self) -> EvidenceView {
        EvidenceView { kind: self.kind@, detail: self.detail@ }
    }
}

/// What a check of a terminal found, and what can be done about it.
#[derive(Debug)]
pub struct DoctorRuntimeCheck {
    pub name: String,
    pub status: String,
    pub detail: String,
    pub code: Option<String>,
    pub phase: Option<String>,
    pub evidence: Vec<DoctorEvidence>,
    pub repairable: bool,
}

/// What a check of a terminal found, as views.
#[verifier::ext_equal]
pub ghost struct CheckView {
    pub name: Seq<char>,
    pub status: Seq<char>,
    pub detail: Seq<char>,
    pub code: Option<Seq<char>>,
    pub phase: Option<Seq<char>>,
    pub evidence: Seq<EvidenceView>,
    pub repairable: bool,
}

impl View for DoctorRuntimeCheck {
    type V = CheckView;

    open spec fn view(&self) -> CheckView {
        CheckView {
            name: self.name@,
            status: self.status@,
            detail: self.detail@,
            code: opt_view(self.code),
            phase: opt_view(self.phase),
            evidence: self.evidence@.map_values(|e: DoctorEvidence| e@),
            repairable: self.repairable,
        }
    }
}

/// The views of checks of a terminal.
pub open spec fn check_views(checks: Seq<DoctorRuntimeCheck>) -> Seq<CheckView> {
    checks.map_values(|c: DoctorRuntimeCheck| c@)
}

/// Adds a check.
pub fn push_check(checks: &mut Vec<DoctorRuntimeCheck>, check: DoctorRuntimeCheck)
    ensures
        check_views(final(checks)@) == check_views(old(checks)@).push(check@),
{
    let ghost added = check@;
    checks.push(check);
    assert(check_views(checks@) =~= check_views(old(checks)@).push(added));
}

/// What was found in a terminal.
#[derive(Debug)]
pub struct DoctorRuntimeReport {
    pub runtime_id: String,
    pub target_id: String,
    pub title: String,
    pub status: String,
    pub pane_id: Option<String>,
    pub pane_title: Option<String>,
    pub checks: Vec<DoctorRuntimeCheck>,
}

/// What was found in a terminal, as views.
#[verifier::ext_equal]
pub ghost struct ReportView {
    pub runtime_id: Seq<char>,
    pub target_id: Seq<char>,
    pub title: Seq<char>,
    pub status: Seq<char>,
    pub pane_id: Option<Seq<char>>,
    pub pane_title: Option<Seq<char>>,
    pub checks: Seq<CheckView>,
}

impl View for DoctorRuntimeReport {
    type V = ReportView;

    open spec fn view(&self) -> ReportView {
        ReportView {
            runtime_id: self.runtime_id@,
            target_id: self.target_id@,
            title: self.title@,
            status: self.status@,
            pane_id: opt_view(self.pane_id),
            pane_title: opt_view(self.pane_title),
            checks: check_views(self.checks@),
        }
    }
}

/// What is known of a terminal that is to be examined. The tokens serve the probes alone: a report
/// does not depend on them, and the logs are shown without the words behind the markers of a token.
#[derive(Debug)]
pub struct DoctorRuntimeInput {
    pub runtime_id: String,
    pub target_id: String,
    pub title: String,
    pub status: String,
    pub pane_id: Option<String>,
    pub pane_title: Option<String>,
    pub mux_session_id: Option<String>,
    pub hook_endpoint: Option<String>,
    pub hook_token: Option<String>,
    pub mcp_endpoint: Option<String>,
    pub mcp_token: Option<String>,
    pub remote_helper_exists: Option<bool>,
    pub remote_helper_log: Option<String>,
    pub remote_bridge_log: Option<String>,
    pub integration_enabled: bool,
    pub browser_runtime: Option<String>,
}

impl Default for DoctorRuntimeInput {
    fn default() -> (r: Self)
        ensures
            r.runtime_id@.len() == 0,
            r.target_id@.len() == 0,
            r.title@.len() == 0,
            r.status@.len() == 0,
            r.pane_id is None,
            r.pane_title is None,
            r.mux_session_id is None,
            r.hook_endpoint is None,
            r.hook_token is None,
            r.mcp_endpoint is None,
            r.mcp_token is None,
            r.remote_helper_exists is None,
            r.remote_helper_log is None,
            r.remote_bridge_log is None,
            !r.integration_enabled,
            r.browser_runtime is None,
    {
        DoctorRuntimeInput {
            runtime_id: String::new(),
            target_id: String::new(),
            title: String::new(),
            status: String::new(),
            pane_id: None,
            pane_title: None,
            mux_session_id: None,
            hook_endpoint: None,
            hook_token: None,
            mcp_endpoint: None,
            mcp_token: None,
            remote_helper_exists: None,
            remote_helper_log: None,
            remote_bridge_log: None,
            integration_enabled: false,
            browser_runtime: None,
        }
    }
}

/// A managed agent as the report lists it.
#[derive(Debug)]
pub struct DoctorManagedAgent {
    pub agent_id: String,
    pub adapter: String,
    pub runtime_id: String,
    pub pane_id: String,
    pub pane_title: String,
    pub mux_session_id: String,
    pub session_name: String,
    pub status: String,
    pub last_activity: Option<String>,
}

/// A managed agent, as views.
pub ghost struct ManagedAgentView {
    pub agent_id: Seq<char>,
    pub adapter: Seq<char>,
    pub runtime_id: Seq<char>,
    pub pane_id: Seq<char>,
    pub pane_title: Seq<char>,
    pub mux_session_id: Seq<char>,
    pub session_name: Seq<char>,
    pub status: Seq<char>,
    pub last_activity: Option<Seq<char>>,
}

impl View for DoctorManagedAgent {
    type V = ManagedAgentView;

    open spec fn view(&self) -> ManagedAgentView {
        ManagedAgentView {
            agent_id: self.agent_id@,
            adapter: self.adapter@,
            runtime_id: self.runtime_id@,
            pane_id: self.pane_id@,
            pane_title: self.pane_title@,
            mux_session_id: self.mux_session_id@,
            session_name: self.session_name@,
            status: self.status@,
            last_activity: opt_view(self.last_activity),
        }
    }
}

/// The views of managed agents.
pub open spec fn managed_views(agents: Seq<DoctorManagedAgent>) -> Seq<ManagedAgentView> {
    agents.map_values(|a: DoctorManagedAgent| a@)
}

/// A copy of a managed agent.
pub fn copy_agent(agent: &DoctorManagedAgent) -> (r: DoctorManagedAgent)
    ensures
        r@ == agent@,
{
    DoctorManagedAgent {
        agent_id: agent.agent_id.clone(),
        adapter: agent.adapter.clone(),
        runtime_id: agent.runtime_id.clone(),
        pane_id: agent.pane_id.clone(),
        pane_title: agent.pane_title.clone(),
        mux_session_id: agent.mux_session_id.clone(),
        session_name: agent.session_name.clone(),
        status: agent.status.clone(),
        last_activity: copy_opt(&agent.last_activity),
    }
}

/// The whole report.
#[derive(Debug)]
pub struct AgentCheckReport {
    pub ok: bool,
    pub checks: Vec<AgentCheck>,
    pub managed_agents: Vec<DoctorManagedAgent>,
    pub runtimes: Vec<DoctorRuntimeReport>,
}

} // verus!
