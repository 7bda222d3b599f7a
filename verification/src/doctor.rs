//! The diagnostic report: what was found on this machine, of its agents, and in its terminals.
use vstd::prelude::*;
use vstd::string::*;

use crate::doctor_checks::{
    agent_check, agent_check_views, check_views, copy_agent, managed_views, push_check, AgentCheck,
    AgentCheckReport, AgentCheckView, CheckView, DoctorEvidence, DoctorManagedAgent,
    DoctorRuntimeCheck, DoctorRuntimeInput, DoctorRuntimeReport, EvidenceView, ManagedAgentView,
    ReportView,
};
use crate::doctor_environment::{
    check_managed_agents, check_runtime_environment_files, files_check, managed_agent_matches_filter,
    managed_check, matching, opt_files, passes, passes_filter, EnvironmentFile,
};
use crate::doctor_log::{
    is_kept_hidden, is_plain, law_log_evidence_holds_no_secret, log_check, remote_log_check,
};
use crate::doctor_probe::{
    endpoint_check, given, law_checks_do_not_show_the_token, probe_runtime_endpoint, HttpAnswer,
};
use crate::doctor_wsl::executable_view;
use crate::dump_plan::opt_str;
use crate::text::{
    contains, copy_opt, has_prefix, join, joined, lowered, opt_view, push_text, same, starts_with,
    to_lower, views,
};

verus! {

/// The agent programs that were found in one local terminal environment.
#[derive(Debug)]
pub struct LocalAgents {
    pub target_id: String,
    pub found: Vec<(String, String)>,
    pub warning: Option<String>,
}

/// What was seen on this machine.
#[derive(Debug)]
pub struct HostObservation {
    pub executable: Result<String, String>,
    pub local_agents: Vec<LocalAgents>,
    pub environment_files: Option<Vec<EnvironmentFile>>,
    /// The checks of a platform that has more of them.
    pub platform_checks: Vec<AgentCheck>,
}

/// The check of the running program.
pub open spec fn executable_check(executable: Result<Seq<char>, Seq<char>>) -> AgentCheckView {
    match executable {
        Ok(path) => AgentCheckView { name: "executable"@, status: "ok"@, detail: path },
        Err(error) => AgentCheckView { name: "executable"@, status: "error"@, detail: error },
    }
}

/// The check of the running program.
pub fn check_executable(executable: &Result<String, String>) -> (r: AgentCheck)
    ensures
        r@ == executable_check(executable_view(*executable)),
{
    match executable {
        Ok(path) => agent_check("executable", "ok", path.clone()),
        Err(error) => agent_check("executable", "error", error.clone()),
    }
}

/// An agent program and where it is.
pub open spec fn found_text(target: Seq<char>, found: (String, String)) -> Seq<char> {
    found.0@ + "["@ + target + "]="@ + found.1@
}

/// The agent programs of one environment.
pub open spec fn found_texts(target: Seq<char>, found: Seq<(String, String)>) -> Seq<Seq<char>> {
    found.map_values(|f: (String, String)| found_text(target, f))
}

/// The agent programs of all environments.
pub open spec fn available_texts(agents: Seq<LocalAgents>) -> Seq<Seq<char>>
    decreases agents.len(),
{
    if agents.len() == 0 {
        Seq::empty()
    } else {
        available_texts(agents.drop_last()) + found_texts(
            agents.last().target_id@,
            agents.last().found@,
        )
    }
}

/// The warnings of all environments.
pub open spec fn warning_texts(agents: Seq<LocalAgents>) -> Seq<Seq<char>>
    decreases agents.len(),
{
    if agents.len() == 0 {
        Seq::empty()
    } else {
        let rest = warning_texts(agents.drop_last());
        match agents.last().warning {
            Some(warning) => rest.push(agents.last().target_id@ + ": "@ + warning@),
            None => rest,
        }
    }
}

/// The check of the agent programs.
pub open spec fn local_check(agents: Seq<LocalAgents>) -> AgentCheckView {
    let available = available_texts(agents);
    let warnings = warning_texts(agents);
    if available.len() > 0 {
        AgentCheckView { name: "local_agents"@, status: "ok"@, detail: join(available, "; "@) }
    } else if warnings.len() == 0 {
        AgentCheckView {
            name: "local_agents"@,
            status: "warn"@,
            detail: "no agent executables found in local terminal environments"@,
        }
    } else {
        AgentCheckView {
            name: "local_agents"@,
            status: "warn"@,
            detail: "no agent executables found; "@ + join(warnings, " | "@),
        }
    }
}

fn push_found(list: &mut Vec<String>, agents: &LocalAgents)
    ensures
        views(final(list)@) == views(old(list)@) + found_texts(
            agents.target_id@,
            agents.found@,
        ),
{
    let ghost all = found_texts(agents.target_id@, agents.found@);
    let mut i: usize = 0;
    assert(views(list@) =~= views(old(list)@) + all.take(0));
    while i < agents.found.len()
        invariant
            i <= agents.found@.len(),
            all == found_texts(agents.target_id@, agents.found@),
            views(list@) == views(old(list)@) + all.take(i as int),
        decreases agents.found@.len() - i,
    {
        let mut text: String = agents.found[i].0.clone();
        text.append("[");
        text.append(agents.target_id.as_str());
        text.append("]=");
        text.append(agents.found[i].1.as_str());
        push_text(list, text);
        assert(views(list@) =~= views(old(list)@) + all.take(i + 1));
        i = i + 1;
    }
    assert(all.take(i as int) =~= all);
}

/// The check of the agent programs.
pub fn check_local_agents(agents: &[LocalAgents]) -> (r: AgentCheck)
    ensures
        r@ == local_check(agents@),
{
    let mut available: Vec<String> = Vec::new();
    let mut warnings: Vec<String> = Vec::new();
    let mut i: usize = 0;
    proof {
        assert(views(available@) =~= available_texts(agents@.take(0)));
        assert(views(warnings@) =~= warning_texts(agents@.take(0)));
    }
    while i < agents.len()
        invariant
            i <= agents@.len(),
            views(available@) == available_texts(agents@.take(i as int)),
            views(warnings@) == warning_texts(agents@.take(i as int)),
        decreases agents@.len() - i,
    {
        proof {
            assert(agents@.take(i + 1).drop_last() =~= agents@.take(i as int));
        }
        push_found(&mut available, &agents[i]);
        match &agents[i].warning {
            Some(warning) => {
                let mut text: String = agents[i].target_id.clone();
                text.append(": ");
                text.append(warning.as_str());
                push_text(&mut warnings, text);
            },
            None => {},
        }
        i = i + 1;
    }
    assert(agents@.take(i as int) =~= agents@);
    assert(views(available@).len() == available@.len());
    assert(views(warnings@).len() == warnings@.len());
    if available.len() > 0 {
        return agent_check("local_agents", "ok", joined(available.as_slice(), "; "));
    }
    if warnings.len() == 0 {
        return agent_check(
            "local_agents",
            "warn",
            "no agent executables found in local terminal environments".to_owned(),
        );
    }
    let mut detail: String = "no agent executables found; ".to_owned();
    detail.append(joined(warnings.as_slice(), " | ").as_str());
    agent_check("local_agents", "warn", detail)
}

/// The checks of this machine.
pub open spec fn machine_checks(
    host: HostObservation,
    agents: Seq<ManagedAgentView>,
    filter: Option<Seq<char>>,
) -> Seq<AgentCheckView> {
    seq![
        executable_check(executable_view(host.executable)),
        local_check(host.local_agents@),
        files_check(opt_files(host.environment_files), agents, filter),
        managed_check(agents, filter),
    ] + agent_check_views(host.platform_checks@)
}

/// The checks of this machine.
pub fn run(filter: Option<&str>, agents: &[DoctorManagedAgent], host: &HostObservation) -> (r: Vec<
    AgentCheck,
>)
    ensures
        agent_check_views(r@) == machine_checks(*host, managed_views(agents@), opt_str(filter)),
{
    let mut checks: Vec<AgentCheck> = Vec::new();
    checks.push(check_executable(&host.executable));
    checks.push(check_local_agents(host.local_agents.as_slice()));
    checks.push(check_runtime_environment_files(filter, agents, &host.environment_files));
    checks.push(check_managed_agents(filter, agents));
    let ghost head = agent_check_views(checks@);
    let ghost more = agent_check_views(host.platform_checks@);
    let mut i: usize = 0;
    assert(agent_check_views(checks@) =~= head + more.take(0));
    while i < host.platform_checks.len()
        invariant
            i <= host.platform_checks@.len(),
            more == agent_check_views(host.platform_checks@),
            agent_check_views(checks@) == head + more.take(i as int),
        decreases host.platform_checks@.len() - i,
    {
        let check = &host.platform_checks[i];
        let ghost before = agent_check_views(checks@);
        let added = AgentCheck {
            name: check.name.clone(),
            status: check.status.clone(),
            detail: check.detail.clone(),
        };
        let ghost seen = added@;
        checks.push(added);
        proof {
            assert(agent_check_views(checks@) =~= before.push(seen));
            assert(seen == more[i as int]);
            assert(agent_check_views(checks@) =~= head + more.take(i + 1));
        }
        i = i + 1;
    }
    assert(more.take(i as int) =~= more);
    checks
}

/// What came back from the endpoints of one terminal.
#[derive(Debug)]
pub struct RuntimeAnswers {
    pub mcp: HttpAnswer,
    pub hook: HttpAnswer,
}

/// The terminal is running.
pub open spec fn is_running(status: Seq<char>) -> bool {
    to_lower(status) == "running"@
}

/// The check of a terminal itself.
pub open spec fn status_check(status: Seq<char>) -> CheckView {
    CheckView {
        name: "runtime"@,
        status: if is_running(status) {
            "ok"@
        } else {
            "error"@
        },
        detail: if is_running(status) {
            "runtime is running"@
        } else {
            "runtime status is "@ + status
        },
        code: if is_running(status) {
            None
        } else {
            Some("runtime_not_running"@)
        },
        phase: Some("runtime"@),
        evidence: seq![EvidenceView { kind: "runtimeStatus"@, detail: status }],
        repairable: false,
    }
}

fn check_status(status: &str) -> (r: DoctorRuntimeCheck)
    ensures
        r@ == status_check(status@),
{
    let lower = lowered(status);
    let running = same(lower.as_str(), "running");
    let mut evidence: Vec<DoctorEvidence> = Vec::new();
    evidence.push(
        DoctorEvidence { kind: "runtimeStatus".to_owned(), detail: status.to_owned() },
    );
    let (word, detail, code): (&str, String, Option<String>) = if running {
        ("ok", "runtime is running".to_owned(), None)
    } else {
        let mut detail: String = "runtime status is ".to_owned();
        detail.append(status);
        ("error", detail, Some("runtime_not_running".to_owned()))
    };
    let r = DoctorRuntimeCheck {
        name: "runtime".to_owned(),
        status: word.to_owned(),
        detail,
        code,
        phase: Some("runtime".to_owned()),
        evidence,
        repairable: false,
    };
    assert(r@.evidence =~= status_check(status@).evidence);
    r
}

/// The check of the browser of a session.
pub open spec fn browser_check(browser: Seq<char>) -> CheckView {
    let lower = to_lower(browser);
    let runs = starts_with(lower, "running"@);
    let failed = starts_with(lower, "error"@);
    CheckView {
        name: "agent_browser"@,
        status: if runs {
            "ok"@
        } else if failed {
            "error"@
        } else {
            "warn"@
        },
        detail: browser,
        code: if runs {
            None
        } else if failed {
            Some("browser_runtime_error"@)
        } else {
            Some("browser_runtime_not_running"@)
        },
        phase: Some("agent_browser"@),
        evidence: Seq::empty(),
        repairable: !runs,
    }
}

fn check_browser(browser: &str) -> (r: DoctorRuntimeCheck)
    ensures
        r@ == browser_check(browser@),
{
    let lower = lowered(browser);
    let (status, code, repairable): (&str, Option<String>, bool) = if has_prefix(
        lower.as_str(),
        "running",
    ) {
        ("ok", None, false)
    } else if has_prefix(lower.as_str(), "error") {
        ("error", Some("browser_runtime_error".to_owned()), true)
    } else {
        ("warn", Some("browser_runtime_not_running".to_owned()), true)
    };
    let r = DoctorRuntimeCheck {
        name: "agent_browser".to_owned(),
        status: status.to_owned(),
        detail: browser.to_owned(),
        code,
        phase: Some("agent_browser".to_owned()),
        evidence: Vec::new(),
        repairable,
    };
    assert(r@.evidence =~= Seq::<EvidenceView>::empty());
    r
}

/// The check of the remote helper.
pub open spec fn helper_check(exists: bool) -> CheckView {
    CheckView {
        name: "remote_helper"@,
        status: if exists {
            "ok"@
        } else {
            "error"@
        },
        detail: if exists {
            "remote helper is present"@
        } else {
            "remote helper is missing"@
        },
        code: if exists {
            None
        } else {
            Some("remote_helper_missing"@)
        },
        phase: Some("remote_helper"@),
        evidence: Seq::empty(),
        repairable: !exists,
    }
}

fn check_helper(exists: bool) -> (r: DoctorRuntimeCheck)
    ensures
        r@ == helper_check(exists),
{
    let (status, detail, code): (&str, &str, Option<String>) = if exists {
        ("ok", "remote helper is present", None)
    } else {
        ("error", "remote helper is missing", Some("remote_helper_missing".to_owned()))
    };
    let r = DoctorRuntimeCheck {
        name: "remote_helper".to_owned(),
        status: status.to_owned(),
        detail: detail.to_owned(),
        code,
        phase: Some("remote_helper".to_owned()),
        evidence: Vec::new(),
        repairable: !exists,
    };
    assert(r@.evidence =~= Seq::<EvidenceView>::empty());
    r
}

/// The checks of the endpoints, where the terminal is integrated.
pub open spec fn endpoint_checks(input: DoctorRuntimeInput, answers: RuntimeAnswers) -> Seq<
    CheckView,
> {
    if input.integration_enabled {
        seq![
            endpoint_check(
                "luna_mcp"@,
                "luna_mcp"@,
                opt_view(input.mcp_endpoint),
                opt_view(input.mcp_token),
                true,
                answers.mcp,
            ),
            endpoint_check(
                "hook"@,
                "hook"@,
                opt_view(input.hook_endpoint),
                opt_view(input.hook_token),
                false,
                answers.hook,
            ),
        ]
    } else {
        Seq::empty()
    }
}

/// The check of the browser, only where the terminal is running.
pub open spec fn browser_checks(input: DoctorRuntimeInput) -> Seq<CheckView> {
    match input.browser_runtime {
        Some(browser) => if is_running(input.status@) {
            seq![browser_check(browser@)]
        } else {
            Seq::empty()
        },
        None => Seq::empty(),
    }
}

/// The checks of the remote side.
pub open spec fn remote_checks(input: DoctorRuntimeInput) -> Seq<CheckView> {
    (match input.remote_helper_exists {
        Some(exists) => seq![helper_check(exists)],
        None => Seq::empty(),
    }) + (match input.remote_helper_log {
        Some(log) => seq![log_check("remote_helper_log"@, log@)],
        None => Seq::empty(),
    }) + (match input.remote_bridge_log {
        Some(log) => seq![log_check("browser_bridge"@, log@)],
        None => Seq::empty(),
    })
}

/// The report of one terminal.
pub open spec fn report_of(input: DoctorRuntimeInput, answers: RuntimeAnswers) -> ReportView {
    ReportView {
        runtime_id: input.runtime_id@,
        target_id: input.target_id@,
        title: input.title@,
        status: input.status@,
        pane_id: opt_view(input.pane_id),
        pane_title: opt_view(input.pane_title),
        checks: seq![status_check(input.status@)] + endpoint_checks(input, answers)
            + browser_checks(input) + remote_checks(input),
    }
}

fn as_text(text: &Option<String>) -> (r: Option<&str>)
    ensures
        opt_str(r) == opt_view(*text),
{
    match text {
        Some(s) => Some(s.as_str()),
        None => None,
    }
}

/// The report of one terminal, given what came back from its endpoints.
pub fn runtime_report(input: &DoctorRuntimeInput, answers: &RuntimeAnswers) -> (r:
    DoctorRuntimeReport)
    ensures
        r@ == report_of(*input, *answers),
{
    let mut checks: Vec<DoctorRuntimeCheck> = Vec::new();
    push_check(&mut checks, check_status(input.status.as_str()));
    assert(check_views(checks@) =~= seq![status_check(input.status@)]);
    if input.integration_enabled {
        push_check(
            &mut checks,
            probe_runtime_endpoint(
                "luna_mcp",
                "luna_mcp",
                as_text(&input.mcp_endpoint),
                as_text(&input.mcp_token),
                true,
                &answers.mcp,
            ),
        );
        push_check(
            &mut checks,
            probe_runtime_endpoint(
                "hook",
                "hook",
                as_text(&input.hook_endpoint),
                as_text(&input.hook_token),
                false,
                &answers.hook,
            ),
        );
    }
    assert(check_views(checks@) =~= seq![status_check(input.status@)] + endpoint_checks(
        *input,
        *answers,
    ));
    let ghost first = check_views(checks@);
    let lower = lowered(input.status.as_str());
    match &input.browser_runtime {
        Some(browser) => {
            if same(lower.as_str(), "running") {
                push_check(&mut checks, check_browser(browser.as_str()));
            }
        },
        None => {},
    }
    assert(check_views(checks@) =~= first + browser_checks(*input));
    let ghost second = check_views(checks@);
    match input.remote_helper_exists {
        Some(exists) => push_check(&mut checks, check_helper(exists)),
        None => {},
    }
    match &input.remote_helper_log {
        Some(log) => push_check(&mut checks, remote_log_check("remote_helper_log", log.as_str())),
        None => {},
    }
    match &input.remote_bridge_log {
        Some(log) => push_check(&mut checks, remote_log_check("browser_bridge", log.as_str())),
        None => {},
    }
    assert(check_views(checks@) =~= second + remote_checks(*input));
    DoctorRuntimeReport {
        runtime_id: input.runtime_id.clone(),
        target_id: input.target_id.clone(),
        title: input.title.clone(),
        status: input.status.clone(),
        pane_id: copy_opt(&input.pane_id),
        pane_title: copy_opt(&input.pane_title),
        checks,
    }
}

/// A terminal is part of the report: it has not exited, and one of its ids passes the filter.
pub open spec fn is_reported(input: DoctorRuntimeInput, filter: Option<Seq<char>>) -> bool {
    &&& to_lower(input.status@) != "exited"@
    &&& passes(input.runtime_id@, filter) || passes(input.target_id@, filter) || (input.pane_id
        is Some && passes(input.pane_id->0@, filter))
}

/// The endpoints of a terminal are asked: it is part of the report, and it is integrated.
pub open spec fn is_asked(input: DoctorRuntimeInput, filter: Option<Seq<char>>) -> bool {
    input.integration_enabled && is_reported(input, filter)
}

/// Whether the endpoints of a terminal are asked.
pub fn asks_endpoints(input: &DoctorRuntimeInput, filter: Option<&str>) -> (r: bool)
    ensures
        r == is_asked(*input, opt_str(filter)),
{
    input.integration_enabled && reports(input, filter)
}

fn reports(input: &DoctorRuntimeInput, filter: Option<&str>) -> (r: bool)
    ensures
        r == is_reported(*input, opt_str(filter)),
{
    let lower = lowered(input.status.as_str());
    if same(lower.as_str(), "exited") {
        return false;
    }
    let by_pane = match &input.pane_id {
        Some(id) => passes_filter(id.as_str(), filter),
        None => false,
    };
    passes_filter(input.runtime_id.as_str(), filter) || passes_filter(
        input.target_id.as_str(),
        filter,
    ) || by_pane
}

/// The reports of the terminals that are part of the report.
pub open spec fn reports_of(
    inputs: Seq<DoctorRuntimeInput>,
    answers: Seq<RuntimeAnswers>,
    filter: Option<Seq<char>>,
) -> Seq<ReportView>
    decreases inputs.len(),
{
    if inputs.len() == 0 {
        Seq::empty()
    } else {
        let rest = reports_of(inputs.drop_last(), answers, filter);
        if is_reported(inputs.last(), filter) {
            rest.push(report_of(inputs.last(), answers[inputs.len() - 1]))
        } else {
            rest
        }
    }
}

/// No check of this machine found an error.
pub open spec fn machine_ok(checks: Seq<AgentCheckView>) -> bool {
    forall|i: int| 0 <= i < checks.len() ==> (#[trigger] checks[i]).status != "error"@
}

/// No check of a terminal found an error.
pub open spec fn checks_ok(checks: Seq<CheckView>) -> bool {
    forall|i: int| 0 <= i < checks.len() ==> (#[trigger] checks[i]).status != "error"@
}

/// No check of any terminal found an error.
pub open spec fn terminals_ok(reports: Seq<ReportView>) -> bool {
    forall|i: int| 0 <= i < reports.len() ==> checks_ok((#[trigger] reports[i]).checks)
}

/// The views of reports.
pub open spec fn report_views(reports: Seq<DoctorRuntimeReport>) -> Seq<ReportView> {
    reports.map_values(|r: DoctorRuntimeReport| r@)
}

fn all_machine_ok(checks: &Vec<AgentCheck>) -> (r: bool)
    ensures
        r == machine_ok(agent_check_views(checks@)),
{
    let ghost all = agent_check_views(checks@);
    let mut i: usize = 0;
    while i < checks.len()
        invariant
            i <= checks@.len(),
            all == agent_check_views(checks@),
            forall|j: int| 0 <= j < i ==> (#[trigger] all[j]).status != "error"@,
        decreases checks@.len() - i,
    {
        if same(checks[i].status.as_str(), "error") {
            assert(all[i as int].status == "error"@);
            return false;
        }
        i = i + 1;
    }
    true
}

fn report_ok(report: &DoctorRuntimeReport) -> (r: bool)
    ensures
        r == checks_ok(report@.checks),
{
    let ghost all = check_views(report.checks@);
    let mut i: usize = 0;
    while i < report.checks.len()
        invariant
            i <= report.checks@.len(),
            all == check_views(report.checks@),
            forall|j: int| 0 <= j < i ==> (#[trigger] all[j]).status != "error"@,
        decreases report.checks@.len() - i,
    {
        if same(report.checks[i].status.as_str(), "error") {
            assert(all[i as int].status == "error"@);
            return false;
        }
        i = i + 1;
    }
    true
}

/// The whole report.
pub open spec fn is_report(
    report: AgentCheckReport,
    filter: Option<Seq<char>>,
    agents: Seq<ManagedAgentView>,
    inputs: Seq<DoctorRuntimeInput>,
    answers: Seq<RuntimeAnswers>,
    host: HostObservation,
) -> bool {
    let checks = machine_checks(host, agents, filter);
    let runtimes = reports_of(inputs, answers, filter);
    &&& agent_check_views(report.checks@) == checks
    &&& managed_views(report.managed_agents@) == matching(agents, filter)
    &&& report_views(report.runtimes@) == runtimes
    &&& report.ok == (machine_ok(checks) && terminals_ok(runtimes))
}

/// The report on this machine, given what was seen on it.
pub fn run_report(filter: Option<&str>, host: &HostObservation) -> (r: AgentCheckReport)
    ensures
        is_report(r, opt_str(filter), Seq::empty(), Seq::empty(), Seq::empty(), *host),
{
    let agents: Vec<DoctorManagedAgent> = Vec::new();
    assert(managed_views(agents@) =~= Seq::<ManagedAgentView>::empty());
    run_report_with_agents(filter, agents.as_slice(), host)
}

/// The report on this machine and its managed agents.
pub fn run_report_with_agents(
    filter: Option<&str>,
    managed_agents: &[DoctorManagedAgent],
    host: &HostObservation,
) -> (r: AgentCheckReport)
    ensures
        is_report(
            r,
            opt_str(filter),
            managed_views(managed_agents@),
            Seq::empty(),
            Seq::empty(),
            *host,
        ),
{
    let inputs: Vec<DoctorRuntimeInput> = Vec::new();
    let answers: Vec<RuntimeAnswers> = Vec::new();
    assert(inputs@ =~= Seq::<DoctorRuntimeInput>::empty());
    assert(answers@ =~= Seq::<RuntimeAnswers>::empty());
    run_report_with_runtime_inputs(
        filter,
        managed_agents,
        inputs.as_slice(),
        answers.as_slice(),
        host,
    )
}

/// The report on this machine, its managed agents and its terminals, given what was seen and what
/// came back from the endpoints of each terminal. Terminals that have exited are history and not
/// part of it.
pub fn run_report_with_runtime_inputs(
    filter: Option<&str>,
    managed_agents: &[DoctorManagedAgent],
    runtime_inputs: &[DoctorRuntimeInput],
    answers: &[RuntimeAnswers],
    host: &HostObservation,
) -> (r: AgentCheckReport)
    requires
        runtime_inputs@.len() == answers@.len(),
    ensures
        is_report(
            r,
            opt_str(filter),
            managed_views(managed_agents@),
            runtime_inputs@,
            answers@,
            *host,
        ),
{
    let ghost wanted = opt_str(filter);
    let checks = run(filter, managed_agents, host);
    let ok = all_machine_ok(&checks);
    let ghost all = managed_views(managed_agents@);
    let mut agents: Vec<DoctorManagedAgent> = Vec::new();
    let mut i: usize = 0;
    assert(managed_views(agents@) =~= matching(all.take(0), wanted));
    while i < managed_agents.len()
        invariant
            i <= managed_agents@.len(),
            all == managed_views(managed_agents@),
            wanted == opt_str(filter),
            managed_views(agents@) == matching(all.take(i as int), wanted),
        decreases managed_agents@.len() - i,
    {
        proof {
            assert(all.take(i + 1).drop_last() =~= all.take(i as int));
            assert(all.take(i + 1).last() == managed_agents@[i as int]@);
        }
        if managed_agent_matches_filter(&managed_agents[i], filter) {
            let agent = copy_agent(&managed_agents[i]);
            let ghost before = managed_views(agents@);
            let ghost added = agent@;
            agents.push(agent);
            assert(managed_views(agents@) =~= before.push(added));
        }
        i = i + 1;
    }
    assert(all.take(i as int) =~= all);
    let mut runtimes: Vec<DoctorRuntimeReport> = Vec::new();
    let mut runtimes_ok: bool = true;
    let mut k: usize = 0;
    assert(report_views(runtimes@) =~= reports_of(runtime_inputs@.take(0), answers@, wanted));
    while k < runtime_inputs.len()
        invariant
            k <= runtime_inputs@.len(),
            runtime_inputs@.len() == answers@.len(),
            wanted == opt_str(filter),
            report_views(runtimes@) == reports_of(runtime_inputs@.take(k as int), answers@, wanted),
            runtimes_ok == terminals_ok(report_views(runtimes@)),
        decreases runtime_inputs@.len() - k,
    {
        proof {
            assert(runtime_inputs@.take(k + 1).drop_last() =~= runtime_inputs@.take(k as int));
        }
        if reports(&runtime_inputs[k], filter) {
            let report = runtime_report(&runtime_inputs[k], &answers[k]);
            let fine = report_ok(&report);
            let ghost before = report_views(runtimes@);
            let ghost added = report@;
            runtimes.push(report);
            proof {
                let now = report_views(runtimes@);
                assert(now =~= before.push(added));
                assert(terminals_ok(now) == (terminals_ok(before) && fine)) by {
                    if terminals_ok(now) {
                        assert forall|i: int| 0 <= i < before.len() implies checks_ok(
                            (#[trigger] before[i]).checks,
                        ) by {
                            assert(now[i] == before[i]);
                        }
                        assert(checks_ok(now[before.len() as int].checks));
                    }
                }
            }
            runtimes_ok = runtimes_ok && fine;
        }
        k = k + 1;
    }
    assert(runtime_inputs@.take(k as int) =~= runtime_inputs@);
    AgentCheckReport { ok: ok && runtimes_ok, checks, managed_agents: agents, runtimes }
}

/// A terminal that has exited is not part of a report and cannot make it fail.
pub proof fn law_exited_terminals_are_not_reported(
    inputs: Seq<DoctorRuntimeInput>,
    answers: Seq<RuntimeAnswers>,
    filter: Option<Seq<char>>,
    exited: DoctorRuntimeInput,
)
    requires
        to_lower(exited.status@) == "exited"@,
    ensures
        reports_of(inputs.push(exited), answers, filter) == reports_of(inputs, answers, filter),
{
    let all = inputs.push(exited);
    assert(all.drop_last() =~= inputs);
    assert(all.last() == exited);
}

/// The endpoints of a terminal that is not asked decide nothing: whatever answers are given for
/// them, the report is the same.
pub proof fn law_other_terminals_need_no_answers(
    input: DoctorRuntimeInput,
    filter: Option<Seq<char>>,
    answers: RuntimeAnswers,
    other: RuntimeAnswers,
)
    requires
        !is_asked(input, filter),
    ensures
        is_reported(input, filter) ==> report_of(input, answers) == report_of(input, other),
{
}

/// The browser of a session is told only of a terminal that is running.
pub proof fn law_browsers_are_told_of_running_terminals(
    input: DoctorRuntimeInput,
)
    requires
        !is_running(input.status@),
    ensures
        browser_checks(input).len() == 0,
{
}

/// The tokens of a terminal decide nothing that its report shows but whether they are there:
/// terminals that differ in tokens alone, each given in both or missing or blank in both, have the
/// same report.
pub proof fn law_tokens_do_not_reach_a_report(
    input: DoctorRuntimeInput,
    other: DoctorRuntimeInput,
    answers: RuntimeAnswers,
)
    requires
        given(opt_view(input.hook_token)) is Some == given(opt_view(other.hook_token)) is Some,
        given(opt_view(input.mcp_token)) is Some == given(opt_view(other.mcp_token)) is Some,
        other == (DoctorRuntimeInput {
            hook_token: other.hook_token,
            mcp_token: other.mcp_token,
            ..input
        }),
    ensures
        report_of(input, answers) == report_of(other, answers),
{
    law_checks_do_not_show_the_token(
        "luna_mcp"@,
        "luna_mcp"@,
        opt_view(input.mcp_endpoint),
        opt_view(input.mcp_token),
        opt_view(other.mcp_token),
        true,
        answers.mcp,
    );
    law_checks_do_not_show_the_token(
        "hook"@,
        "hook"@,
        opt_view(input.hook_endpoint),
        opt_view(input.hook_token),
        opt_view(other.hook_token),
        false,
        answers.hook,
    );
}

/// No evidence of the remote side holds a secret that stands in the logs only behind the markers
/// of a token.
pub proof fn law_evidence_holds_no_secret(input: DoctorRuntimeInput, secret: Seq<char>)
    requires
        is_plain(secret),
        input.remote_helper_log is Some ==> is_kept_hidden(input.remote_helper_log->0@, secret),
        input.remote_bridge_log is Some ==> is_kept_hidden(input.remote_bridge_log->0@, secret),
    ensures
        forall|i: int, j: int|
            0 <= i < remote_checks(input).len() && 0 <= j < remote_checks(input)[i].evidence.len()
                ==> !contains((#[trigger] remote_checks(input)[i].evidence[j]).detail, secret),
{
    if input.remote_helper_log is Some {
        law_log_evidence_holds_no_secret(input.remote_helper_log->0@, secret);
    }
    if input.remote_bridge_log is Some {
        law_log_evidence_holds_no_secret(input.remote_bridge_log->0@, secret);
    }
}

/// The program was started to print the report.
pub open spec fn asks_for_report(args: Seq<Seq<char>>) -> bool {
    args.len() > 1 && (args[1] == "agent-check"@ || args[1] == "doctor"@)
}

/// What the program was started to report: the filter, where one follows.
#[derive(Debug)]
pub struct AgentCheckRequest {
    pub filter: Option<String>,
}

/// The report that the program was started to print; none where it was started for something else.
pub fn agent_check_request(args: &[String]) -> (r: Option<AgentCheckRequest>)
    ensures
        r is Some == asks_for_report(views(args@)),
        r is Some ==> opt_view(r->0.filter) == (if args@.len() > 2 {
            Some(args@[2]@)
        } else {
            None
        }),
{
    if args.len() < 2 {
        return None;
    }
    assert(views(args@)[1] == args@[1]@);
    if !same(args[1].as_str(), "agent-check") && !same(args[1].as_str(), "doctor") {
        return None;
    }
    let filter = if args.len() > 2 {
        Some(args[2].clone())
    } else {
        None
    };
    Some(AgentCheckRequest { filter })
}

/// How the program ends after it has printed the report.
pub fn agent_check_status(report: &AgentCheckReport) -> (r: i32)
    ensures
        r == (if report.ok {
            0i32
        } else {
            1i32
        }),
{
    if report.ok {
        0
    } else {
        1
    }
}

/// What the program prints when it is started to show that it can be started.
pub const INTEROP_ANSWER: &'static str = "luna-mux-wsl-interop-ok";

/// Whether the program was only started to show that it can be started.
pub fn is_wsl_interop_probe(args: &[String]) -> (r: bool)
    ensures
        r == (args@.len() > 1 && args@[1]@ == "wsl-interop-probe"@),
{
    args.len() > 1 && same(args[1].as_str(), "wsl-interop-probe")
}

/// How a terminal is doing is told first: well exactly where its status says, in any case of the
/// letters, that it runs.
pub proof fn law_running_terminals_are_well(status: Seq<char>)
    ensures
        ({
            let check = status_check(status);
            let runs = to_lower(status) == "running"@;
            &&& check.name == "runtime"@
            &&& runs ==> check.status == "ok"@ && check.code is None
            &&& !runs ==> check.status == "error"@ && check.code == Some("runtime_not_running"@)
                && check.detail == "runtime status is "@ + status
            &&& check.evidence == seq![EvidenceView { kind: "runtimeStatus"@, detail: status }]
            &&& !check.repairable
        }),
{
}

/// A browser is well where it runs; where it failed that is an error, and else a warning. What is not
/// well can be repaired.
pub proof fn law_running_browsers_are_well(browser: Seq<char>)
    ensures
        ({
            let check = browser_check(browser);
            let lower = to_lower(browser);
            &&& check.name == "agent_browser"@ && check.detail == browser
            &&& starts_with(lower, "running"@) ==> check.status == "ok"@ && check.code is None
                && !check.repairable
            &&& !starts_with(lower, "running"@) && starts_with(lower, "error"@) ==> check.status
                == "error"@ && check.code == Some("browser_runtime_error"@) && check.repairable
            &&& !starts_with(lower, "running"@) && !starts_with(lower, "error"@) ==> check.status
                == "warn"@ && check.code == Some("browser_runtime_not_running"@) && check.repairable
        }),
{
}

/// A helper that is missing is an error that can be repaired; one that is there is well.
pub proof fn law_missing_helpers_are_errors(exists: bool)
    ensures
        helper_check(exists).name == "remote_helper"@,
        exists ==> helper_check(exists).status == "ok"@ && helper_check(exists).code is None
            && !helper_check(exists).repairable,
        !exists ==> helper_check(exists).status == "error"@ && helper_check(exists).code == Some(
            "remote_helper_missing"@,
        ) && helper_check(exists).repairable,
{
}

/// A terminal is examined for all that is known of it: its status always, both endpoints where it is
/// integrated, its browser where it runs, its helper and each of its logs where they were looked at.
pub proof fn law_terminals_are_examined_in_full(input: DoctorRuntimeInput, answers: RuntimeAnswers)
    ensures
        ({
            let report = report_of(input, answers);
            let checks = report.checks;
            let runs = to_lower(input.status@) == "running"@;
            &&& report.runtime_id == input.runtime_id@ && report.target_id == input.target_id@
            &&& report.title == input.title@ && report.status == input.status@
            &&& report.pane_id == opt_view(input.pane_id)
            &&& checks.contains(status_check(input.status@))
            &&& input.integration_enabled ==> checks.contains(
                endpoint_check(
                    "luna_mcp"@,
                    "luna_mcp"@,
                    opt_view(input.mcp_endpoint),
                    opt_view(input.mcp_token),
                    true,
                    answers.mcp,
                ),
            ) && checks.contains(
                endpoint_check(
                    "hook"@,
                    "hook"@,
                    opt_view(input.hook_endpoint),
                    opt_view(input.hook_token),
                    false,
                    answers.hook,
                ),
            )
            &&& input.browser_runtime is Some && runs ==> checks.contains(
                browser_check(input.browser_runtime->0@),
            )
            &&& input.remote_helper_exists matches Some(exists) ==> checks.contains(
                helper_check(exists),
            )
            &&& input.remote_helper_log matches Some(log) ==> checks.contains(
                log_check("remote_helper_log"@, log@),
            )
            &&& input.remote_bridge_log matches Some(log) ==> checks.contains(
                log_check("browser_bridge"@, log@),
            )
            &&& checks.len() == 1 + (if input.integration_enabled {
                2int
            } else {
                0
            }) + (if input.browser_runtime is Some && runs {
                1int
            } else {
                0
            }) + (if input.remote_helper_exists is Some {
                1int
            } else {
                0
            }) + (if input.remote_helper_log is Some {
                1int
            } else {
                0
            }) + (if input.remote_bridge_log is Some {
                1int
            } else {
                0
            })
        }),
{
    let checks = report_of(input, answers).checks;
    let ends = endpoint_checks(input, answers);
    let shown = browser_checks(input);
    let far = remote_checks(input);
    let a = 1 + ends.len() as int;
    let b = a + shown.len();
    assert(checks[0] == status_check(input.status@));
    if input.integration_enabled {
        assert(checks[1] == ends[0]);
        assert(checks[2] == ends[1]);
    }
    if shown.len() > 0 {
        assert(checks[a] == shown[0]);
    }
    assert forall|k: int| 0 <= k < far.len() implies #[trigger] checks[b + k] == far[k] by {}
    let h: int = if input.remote_helper_exists is Some {
        1
    } else {
        0
    };
    let l: int = if input.remote_helper_log is Some {
        1
    } else {
        0
    };
    if input.remote_helper_exists is Some {
        assert(far[0] == helper_check(input.remote_helper_exists->0));
        assert(checks[b] == far[0]);
    }
    if input.remote_helper_log is Some {
        assert(far[h] == log_check("remote_helper_log"@, input.remote_helper_log->0@));
        assert(checks[b + h] == far[h]);
    }
    if input.remote_bridge_log is Some {
        assert(far[h + l] == log_check("browser_bridge"@, input.remote_bridge_log->0@));
        assert(checks[b + h + l] == far[h + l]);
    }
}

/// A report is good exactly where no check of the machine and of any reported terminal is an error:
/// warnings do not spoil it.
pub proof fn law_only_errors_spoil_a_report(
    report: AgentCheckReport,
    filter: Option<Seq<char>>,
    agents: Seq<ManagedAgentView>,
    inputs: Seq<DoctorRuntimeInput>,
    answers: Seq<RuntimeAnswers>,
    host: HostObservation,
)
    requires
        is_report(report, filter, agents, inputs, answers, host),
    ensures
        report.ok <==> (forall|i: int|
            0 <= i < report.checks@.len() ==> (#[trigger] report.checks@[i]).status@ != "error"@)
            && (forall|i: int, j: int|
            0 <= i < report.runtimes@.len() && 0 <= j < report.runtimes@[i].checks@.len() ==> (
            #[trigger] report.runtimes@[i].checks@[j]).status@ != "error"@),
{
    let checks = agent_check_views(report.checks@);
    let reports = report_views(report.runtimes@);
    assert forall|i: int| 0 <= i < report.checks@.len() implies (
    #[trigger] report.checks@[i]).status@ == checks[i].status by {}
    assert forall|i: int, j: int|
        0 <= i < report.runtimes@.len() && 0 <= j < report.runtimes@[i].checks@.len() implies (
    #[trigger] report.runtimes@[i].checks@[j]).status@ == reports[i].checks[j].status by {
        assert(reports[i].checks[j] == report.runtimes@[i].checks@[j]@);
    }
    if report.ok {
        assert forall|i: int| 0 <= i < report.checks@.len() implies (
        #[trigger] report.checks@[i]).status@ != "error"@ by {
            assert(checks[i].status != "error"@);
        }
        assert forall|i: int, j: int|
            0 <= i < report.runtimes@.len() && 0 <= j < report.runtimes@[i].checks@.len() implies (
        #[trigger] report.runtimes@[i].checks@[j]).status@ != "error"@ by {
            assert(checks_ok(reports[i].checks));
            assert(reports[i].checks[j].status != "error"@);
        }
    }
    if (forall|i: int|
        0 <= i < report.checks@.len() ==> (#[trigger] report.checks@[i]).status@ != "error"@) && (
    forall|i: int, j: int|
        0 <= i < report.runtimes@.len() && 0 <= j < report.runtimes@[i].checks@.len() ==> (
        #[trigger] report.runtimes@[i].checks@[j]).status@ != "error"@) {
        assert forall|i: int| 0 <= i < checks.len() implies (#[trigger] checks[i]).status
            != "error"@ by {
            assert(report.checks@[i].status@ == checks[i].status);
        }
        assert forall|i: int| 0 <= i < reports.len() implies checks_ok(
            (#[trigger] reports[i]).checks,
        ) by {
            assert forall|j: int| 0 <= j < reports[i].checks.len() implies (
            #[trigger] reports[i].checks[j]).status != "error"@ by {
                assert(report.runtimes@[i].checks@[j].status@ == reports[i].checks[j].status);
            }
        }
    }
}

/// Agents on this machine are well where any was found anywhere; else that is a warning, never an
/// error.
pub proof fn law_some_agent_is_enough(agents: Seq<LocalAgents>)
    ensures
        local_check(agents).name == "local_agents"@,
        (exists|i: int| 0 <= i < agents.len() && (#[trigger] agents[i]).found@.len() > 0)
            ==> local_check(agents).status == "ok"@,
        (forall|i: int| 0 <= i < agents.len() ==> (#[trigger] agents[i]).found@.len() == 0)
            ==> local_check(agents).status == "warn"@,
{
    lemma_available(agents);
}

proof fn lemma_available(agents: Seq<LocalAgents>)
    ensures
        available_texts(agents).len() > 0 <==> exists|i: int|
            0 <= i < agents.len() && (#[trigger] agents[i]).found@.len() > 0,
    decreases agents.len(),
{
    if agents.len() > 0 {
        let front = agents.drop_last();
        lemma_available(front);
        assert forall|i: int| 0 <= i < front.len() implies #[trigger] agents[i] == front[i] by {}
        assert(agents[agents.len() - 1] == agents.last());
        if available_texts(front).len() > 0 {
            let i = choose|i: int| 0 <= i < front.len() && (#[trigger] front[i]).found@.len() > 0;
            assert(agents[i].found@.len() > 0);
        }
        if exists|i: int| 0 <= i < agents.len() && (#[trigger] agents[i]).found@.len() > 0 {
            let i = choose|i: int|
                0 <= i < agents.len() && (#[trigger] agents[i]).found@.len() > 0;
            if i < front.len() {
                assert(front[i].found@.len() > 0);
            }
        }
    }
}

/// A terminal is reported unless it has exited or the filter names neither it, nor its target, nor
/// its pane; without a filter all others are.
pub proof fn law_filters_pick_terminals(input: DoctorRuntimeInput, part: Seq<char>)
    ensures
        is_reported(input, None) <==> to_lower(input.status@) != "exited"@,
        is_reported(input, Some(part)) <==> to_lower(input.status@) != "exited"@ && (contains(
            input.runtime_id@,
            part,
        ) || contains(input.target_id@, part) || (input.pane_id is Some && contains(
            input.pane_id->0@,
            part,
        ))),
{
}

/// A report is asked for by its word in the first place of the command line; what follows is the
/// filter.
pub proof fn law_reports_are_asked_for_by_name(args: &[String], r: Option<AgentCheckRequest>)
    requires
        agent_check_request.ensures((args,), r),
    ensures
        r is Some <==> args@.len() > 1 && (args@[1]@ == "agent-check"@ || args@[1]@ == "doctor"@),
        r matches Some(request) ==> (args@.len() == 2 ==> request.filter is None) && (args@.len() > 2
            ==> opt_view(request.filter) == Some(args@[2]@)),
{
}

/// A good report ends with zero, and any other with one.
pub proof fn law_good_reports_end_with_zero(report: &AgentCheckReport, r: i32)
    requires
        agent_check_status.ensures((report,), r),
    ensures
        r == 0 <==> report.ok,
        r == 0 || r == 1,
{
}

/// The endpoints of a terminal are asked exactly where it is integrated and reported.
pub proof fn law_integrated_terminals_are_asked(input: DoctorRuntimeInput, filter: Option<Seq<char>>)
    ensures
        is_asked(input, filter) <==> input.integration_enabled && is_reported(input, filter),
        !input.integration_enabled ==> !is_asked(input, filter),
        to_lower(input.status@) == "exited"@ ==> !is_asked(input, filter),
{
}

/// The program is well where it was found; else what kept it from being found is told.
pub proof fn law_the_program_is_told_by_its_path(path: Seq<char>)
    ensures
        executable_check(Ok(path)).status == "ok"@ && executable_check(Ok(path)).detail == path,
        executable_check(Err(path)).status == "error"@ && executable_check(Err(path)).detail == path,
        executable_check(Ok(path)).name == "executable"@,
{
}

/// Each terminal that is reported gets a report of its own, with the answers that belong to it, in the
/// order of the terminals.
pub proof fn law_each_terminal_gets_its_own_report(
    inputs: Seq<DoctorRuntimeInput>,
    input: DoctorRuntimeInput,
    answers: Seq<RuntimeAnswers>,
    filter: Option<Seq<char>>,
)
    ensures
        is_reported(input, filter) ==> reports_of(inputs.push(input), answers, filter)
            == reports_of(inputs, answers, filter).push(
            report_of(input, answers[inputs.len() as int]),
        ),
        !is_reported(input, filter) ==> reports_of(inputs.push(input), answers, filter)
            == reports_of(inputs, answers, filter),
        reports_of(Seq::empty(), answers, filter).len() == 0,
{
    assert(inputs.push(input).drop_last() =~= inputs);
}

} // verus!
