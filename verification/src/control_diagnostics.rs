//! What a control request hands to the diagnostics.
use vstd::prelude::*;
use vstd::string::*;

use crate::doctor_checks::{DoctorManagedAgent, DoctorRuntimeInput, ManagedAgentView};
use crate::number_text::{decimal, decimal_text};
use crate::text::{copy_opt, has_prefix, is_blank, opt_view, same, starts_with, trim};
use crate::text_map::TextMap;

verus! {

/// The filter of a request; a blank one is none.
pub fn diagnostics_filter(filter: Option<String>) -> (r: Option<String>)
    ensures
        opt_view(r) == (match opt_view(filter) {
            Some(text) => if trim(text).len() > 0 {
                Some(text)
            } else {
                None
            },
            None => None,
        }),
{
    match filter {
        Some(text) => if is_blank(text.as_str()) {
            None
        } else {
            Some(text)
        },
        None => None,
    }
}

/// A managed agent as the hooks know it.
#[derive(Debug)]
pub struct AgentSnapshot {
    pub agent_id: String,
    pub runtime_id: String,
    pub pane_id: String,
    pub mux_session_id: String,
    pub status: String,
    pub last_activity: Option<String>,
}

/// The text under a key, or an empty one.
pub open spec fn named(map: Map<Seq<char>, String>, key: Seq<char>) -> Seq<char> {
    if map.dom().contains(key) {
        map[key]@
    } else {
        Seq::empty()
    }
}

fn name_in(map: &TextMap<String>, key: &str) -> (r: String)
    requires
        map.wf(),
    ensures
        r@ == named(map@, key@),
{
    match map.get(key) {
        Some(text) => text.clone(),
        None => String::new(),
    }
}

/// A managed agent as the diagnostics list it, with the titles of its pane and its session.
pub fn managed_agent(
    snapshot: &AgentSnapshot,
    adapter: Option<&str>,
    pane_titles: &TextMap<String>,
    session_names: &TextMap<String>,
) -> (r: DoctorManagedAgent)
    requires
        pane_titles.wf(),
        session_names.wf(),
    ensures
        r@ == (ManagedAgentView {
            agent_id: snapshot.agent_id@,
            adapter: match adapter {
                Some(id) => id@,
                None => "unknown"@,
            },
            runtime_id: snapshot.runtime_id@,
            pane_id: snapshot.pane_id@,
            pane_title: named(pane_titles@, snapshot.pane_id@),
            mux_session_id: snapshot.mux_session_id@,
            session_name: named(session_names@, snapshot.mux_session_id@),
            status: snapshot.status@,
            last_activity: opt_view(snapshot.last_activity),
        }),
{
    let adapter: String = match adapter {
        Some(id) => id.to_owned(),
        None => "unknown".to_owned(),
    };
    DoctorManagedAgent {
        agent_id: snapshot.agent_id.clone(),
        adapter,
        runtime_id: snapshot.runtime_id.clone(),
        pane_id: snapshot.pane_id.clone(),
        pane_title: name_in(pane_titles, snapshot.pane_id.as_str()),
        mux_session_id: snapshot.mux_session_id.clone(),
        session_name: name_in(session_names, snapshot.mux_session_id.as_str()),
        status: snapshot.status.clone(),
        last_activity: copy_opt(&snapshot.last_activity),
    }
}

/// The pane and the session that a terminal belongs to.
#[derive(Debug)]
pub struct PaneContext {
    pub mux_session_id: String,
    pub pane_id: String,
}

/// A terminal as its backend lists it.
#[derive(Debug)]
pub struct ListedRuntime {
    pub runtime_id: String,
    pub target_id: String,
    pub title: String,
    pub status: String,
    pub context: Option<PaneContext>,
    pub managed_agent: Option<PaneContext>,
}

/// The endpoints of the application and the tokens that it gave one terminal.
#[derive(Debug)]
pub struct RuntimeEndpoints {
    pub hook_endpoint: Option<String>,
    pub hook_token: Option<String>,
    pub mcp_endpoint: Option<String>,
    pub mcp_token: Option<String>,
}

/// The pane of a terminal: its own, or the one of its managed agent.
pub open spec fn pane_of(runtime: ListedRuntime) -> Option<PaneContext> {
    match runtime.context {
        Some(context) => Some(context),
        None => runtime.managed_agent,
    }
}

/// The target is a saved connection.
pub open spec fn is_remote(target_id: Seq<char>) -> bool {
    starts_with(target_id, "ssh-bookmark:"@)
}

/// What the diagnostics are told of a terminal before the remote side was asked.
pub open spec fn is_runtime_input(
    input: DoctorRuntimeInput,
    runtime: ListedRuntime,
    endpoints: RuntimeEndpoints,
    remote_integration: bool,
) -> bool {
    let pane = pane_of(runtime)->0;
    &&& input.runtime_id@ == runtime.runtime_id@
    &&& input.target_id@ == runtime.target_id@
    &&& input.title@ == runtime.title@
    &&& input.status@ == runtime.status@
    &&& opt_view(input.pane_id) == Some(pane.pane_id@)
    &&& input.pane_title is None
    &&& opt_view(input.mux_session_id) == Some(pane.mux_session_id@)
    &&& opt_view(input.hook_endpoint) == opt_view(endpoints.hook_endpoint)
    &&& opt_view(input.hook_token) == opt_view(endpoints.hook_token)
    &&& opt_view(input.mcp_endpoint) == opt_view(endpoints.mcp_endpoint)
    &&& opt_view(input.mcp_token) == opt_view(endpoints.mcp_token)
    &&& input.remote_helper_exists is None
    &&& input.remote_helper_log is None
    &&& input.remote_bridge_log is None
    &&& input.integration_enabled == (!is_remote(runtime.target_id@) || remote_integration)
    &&& input.browser_runtime is None
}

/// What the diagnostics are told of a terminal; nothing of one that belongs to no pane.
pub fn runtime_input(
    runtime: &ListedRuntime,
    endpoints: &RuntimeEndpoints,
    remote_integration: bool,
) -> (r: Option<DoctorRuntimeInput>)
    ensures
        r is Some == pane_of(*runtime) is Some,
        r is Some ==> is_runtime_input(r->0, *runtime, *endpoints, remote_integration),
{
    let pane = match &runtime.context {
        Some(context) => context,
        None => match &runtime.managed_agent {
            Some(context) => context,
            None => {
                return None;
            },
        },
    };
    let remote = has_prefix(runtime.target_id.as_str(), "ssh-bookmark:");
    Some(
        DoctorRuntimeInput {
            runtime_id: runtime.runtime_id.clone(),
            target_id: runtime.target_id.clone(),
            title: runtime.title.clone(),
            status: runtime.status.clone(),
            pane_id: Some(pane.pane_id.clone()),
            pane_title: None,
            mux_session_id: Some(pane.mux_session_id.clone()),
            hook_endpoint: copy_opt(&endpoints.hook_endpoint),
            hook_token: copy_opt(&endpoints.hook_token),
            mcp_endpoint: copy_opt(&endpoints.mcp_endpoint),
            mcp_token: copy_opt(&endpoints.mcp_token),
            remote_helper_exists: None,
            remote_helper_log: None,
            remote_bridge_log: None,
            integration_enabled: !remote || remote_integration,
            browser_runtime: None,
        },
    )
}

/// Adds what the remote side said, for a saved connection, and what the browser of the session is
/// doing. A remote side that could not be asked has no helper.
pub fn with_remote_side(
    input: DoctorRuntimeInput,
    helper: Result<(bool, Option<String>), String>,
    browser: Option<String>,
) -> (r: DoctorRuntimeInput)
    ensures
        r == (DoctorRuntimeInput {
            remote_helper_exists: if is_remote(input.target_id@) {
                Some(
                    match helper {
                        Ok((exists, _)) => exists,
                        Err(_) => false,
                    },
                )
            } else {
                input.remote_helper_exists
            },
            remote_helper_log: if is_remote(input.target_id@) {
                match helper {
                    Ok((_, log)) => log,
                    Err(_) => None,
                }
            } else {
                input.remote_helper_log
            },
            browser_runtime: match browser {
                Some(text) => if input.mux_session_id is Some {
                    Some(text)
                } else {
                    input.browser_runtime
                },
                None => input.browser_runtime,
            },
            ..input
        }),
{
    let mut input = input;
    if has_prefix(input.target_id.as_str(), "ssh-bookmark:") {
        match helper {
            Ok((exists, log)) => {
                input.remote_helper_exists = Some(exists);
                input.remote_helper_log = log;
            },
            Err(_) => {
                input.remote_helper_exists = Some(false);
                input.remote_helper_log = None;
            },
        }
    }
    if input.mux_session_id.is_some() {
        match browser {
            Some(text) => {
                input.browser_runtime = Some(text);
            },
            None => {},
        }
    }
    input
}

/// A browser that was started for a session.
#[derive(Debug)]
pub struct ListedBrowser {
    pub mux_session_id: String,
    pub status: String,
    pub cdp_port: u16,
}

/// What is told of the first browser of a session.
pub open spec fn browser_of(browsers: Seq<ListedBrowser>, session_id: Seq<char>) -> Option<Seq<char>>
    decreases browsers.len(),
{
    if browsers.len() == 0 {
        None
    } else if browsers[0].mux_session_id@ == session_id {
        Some(browsers[0].status@ + " cdp="@ + decimal(browsers[0].cdp_port as nat))
    } else {
        browser_of(browsers.skip(1), session_id)
    }
}

/// What is told of the browser of a session, where it has one.
pub fn diagnostics_browser_runtime(browsers: &[ListedBrowser], session_id: &str) -> (r: Option<
    String,
>)
    ensures
        opt_view(r) == browser_of(browsers@, session_id@),
{
    let mut i: usize = 0;
    assert(browsers@.skip(0) =~= browsers@);
    while i < browsers.len()
        invariant
            i <= browsers@.len(),
            browser_of(browsers@, session_id@) == browser_of(browsers@.skip(i as int), session_id@),
        decreases browsers@.len() - i,
    {
        assert(browsers@.skip(i as int)[0] == browsers@[i as int]);
        if same(browsers[i].mux_session_id.as_str(), session_id) {
            return Some(browser_status(browsers[i].status.as_str(), browsers[i].cdp_port));
        }
        assert(browsers@.skip(i as int).skip(1) =~= browsers@.skip(i + 1));
        i = i + 1;
    }
    None
}

/// What is told of the browser of a session: how it is doing, and its port.
pub fn browser_status(status: &str, cdp_port: u16) -> (r: String)
    ensures
        r@ == status@ + " cdp="@ + decimal(cdp_port as nat),
{
    let mut text: String = status.to_owned();
    text.append(" cdp=");
    text.append(decimal_text(cdp_port as u64).as_str());
    text
}

/// A terminal is examined for the pane that it was opened for; that of its agent stands in where
/// none is known. A terminal on this machine is always integrated, one on another machine where that
/// was asked for.
pub proof fn law_terminals_are_examined_for_their_pane(
    input: DoctorRuntimeInput,
    runtime: ListedRuntime,
    endpoints: RuntimeEndpoints,
    remote_integration: bool,
)
    requires
        runtime.context is Some || runtime.managed_agent is Some,
        is_runtime_input(input, runtime, endpoints, remote_integration),
    ensures
        ({
            let pane = match (runtime.context, runtime.managed_agent) {
                (Some(pane), _) => pane,
                (None, Some(pane)) => pane,
                (None, None) => arbitrary(),
            };
            &&& opt_view(input.pane_id) == Some(pane.pane_id@)
            &&& opt_view(input.mux_session_id) == Some(pane.mux_session_id@)
        }),
        input.runtime_id@ == runtime.runtime_id@ && input.target_id@ == runtime.target_id@,
        input.title@ == runtime.title@ && input.status@ == runtime.status@,
        opt_view(input.hook_endpoint) == opt_view(endpoints.hook_endpoint),
        opt_view(input.hook_token) == opt_view(endpoints.hook_token),
        opt_view(input.mcp_endpoint) == opt_view(endpoints.mcp_endpoint),
        opt_view(input.mcp_token) == opt_view(endpoints.mcp_token),
        !starts_with(runtime.target_id@, "ssh-bookmark:"@) ==> input.integration_enabled,
        starts_with(runtime.target_id@, "ssh-bookmark:"@) ==> input.integration_enabled
            == remote_integration,
{
}

/// A terminal is examined exactly where some pane is known for it.
pub proof fn law_only_terminals_of_panes_are_examined(runtime: ListedRuntime)
    ensures
        pane_of(runtime) is Some <==> runtime.context is Some || runtime.managed_agent is Some,
        runtime.context is Some ==> pane_of(runtime) == runtime.context,
{
}

/// What is told of a browser is told of the first one of the session.
pub proof fn law_browsers_are_told_by_session(browsers: Seq<ListedBrowser>, session_id: Seq<char>)
    ensures
        match browser_of(browsers, session_id) {
            Some(text) => exists|i: int|
                0 <= i < browsers.len() && (#[trigger] browsers[i]).mux_session_id@ == session_id
                    && text == browsers[i].status@ + " cdp="@ + decimal(
                    browsers[i].cdp_port as nat,
                ),
            None => forall|i: int|
                0 <= i < browsers.len() ==> (#[trigger] browsers[i]).mux_session_id@ != session_id,
        },
    decreases browsers.len(),
{
    if browsers.len() > 0 {
        let rest = browsers.skip(1);
        law_browsers_are_told_by_session(rest, session_id);
        assert forall|i: int| 0 <= i < rest.len() implies #[trigger] rest[i] == browsers[i + 1] by {}
        match browser_of(rest, session_id) {
            Some(text) => {
                if browsers[0].mux_session_id@ != session_id {
                    let i = choose|i: int|
                        0 <= i < rest.len() && (#[trigger] rest[i]).mux_session_id@ == session_id
                            && text == rest[i].status@ + " cdp="@ + decimal(
                            rest[i].cdp_port as nat,
                        );
                    assert(browsers[i + 1].mux_session_id@ == session_id);
                }
            },
            None => {
                assert forall|i: int| 1 <= i < browsers.len() implies (
                #[trigger] browsers[i]).mux_session_id@ != session_id by {
                    assert(rest[i - 1] == browsers[i]);
                }
            },
        }
        assert(browsers[0] == browsers.first());
    }
}

/// A blank filter is none, and any other stays as it is.
pub proof fn law_blank_filters_are_none(filter: Option<String>, r: Option<String>)
    requires
        diagnostics_filter.ensures((filter,), r),
    ensures
        filter is None ==> r is None,
        filter matches Some(text) ==> (trim(text@).len() == 0 ==> r is None) && (trim(text@).len()
            > 0 ==> opt_view(r) == Some(text@)),
{
}

/// What another machine said of its helper is taken over for terminals on another machine alone; a
/// machine that could not be asked has no helper. A browser is told of where there is a session.
pub proof fn law_only_remote_terminals_have_a_helper(
    input: DoctorRuntimeInput,
    helper: Result<(bool, Option<String>), String>,
    browser: Option<String>,
    r: DoctorRuntimeInput,
)
    requires
        with_remote_side.ensures((input, helper, browser), r),
    ensures
        !starts_with(input.target_id@, "ssh-bookmark:"@) ==> r.remote_helper_exists
            == input.remote_helper_exists && r.remote_helper_log == input.remote_helper_log,
        starts_with(input.target_id@, "ssh-bookmark:"@) ==> match helper {
            Ok((there, log)) => r.remote_helper_exists == Some(there) && r.remote_helper_log == log,
            Err(_) => r.remote_helper_exists == Some(false) && r.remote_helper_log is None,
        },
        browser is Some && input.mux_session_id is Some ==> r.browser_runtime == browser,
        browser is None || input.mux_session_id is None ==> r.browser_runtime
            == input.browser_runtime,
        r.runtime_id == input.runtime_id && r.status == input.status && r.mcp_token
            == input.mcp_token && r.hook_token == input.hook_token && r.integration_enabled
            == input.integration_enabled,
{
}

/// An agent is told with the titles of its pane and of its session, and as of an unknown kind where
/// no adapter is known.
pub proof fn law_agents_are_told_with_their_titles(
    snapshot: &AgentSnapshot,
    adapter: Option<&str>,
    pane_titles: &TextMap<String>,
    session_names: &TextMap<String>,
    r: DoctorManagedAgent,
)
    requires
        managed_agent.ensures((snapshot, adapter, pane_titles, session_names), r),
    ensures
        r@.agent_id == snapshot.agent_id@ && r@.runtime_id == snapshot.runtime_id@,
        r@.pane_id == snapshot.pane_id@ && r@.mux_session_id == snapshot.mux_session_id@,
        r@.status == snapshot.status@ && r@.last_activity == opt_view(snapshot.last_activity),
        adapter is None ==> r@.adapter == "unknown"@,
        adapter matches Some(id) ==> r@.adapter == id@,
        pane_titles@.dom().contains(snapshot.pane_id@) ==> r@.pane_title
            == pane_titles@[snapshot.pane_id@]@,
        !pane_titles@.dom().contains(snapshot.pane_id@) ==> r@.pane_title.len() == 0,
        session_names@.dom().contains(snapshot.mux_session_id@) ==> r@.session_name
            == session_names@[snapshot.mux_session_id@]@,
{
}

} // verus!
