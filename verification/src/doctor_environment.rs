//! The environment files that the terminals leave behind.
use vstd::prelude::*;
use vstd::string::*;

use crate::doctor_checks::{
    agent_check, managed_views, AgentCheck, AgentCheckView, DoctorManagedAgent, ManagedAgentView,
};
use crate::dump_plan::opt_str;
use crate::number_text::parse_unsigned;
use crate::text::{
    contains, from_range, has_part, join, joined, lines, occurs_at, opt_view, push_text, same,
    split, split_at, split_lines, starts_with, strip_prefix, to_chars, trim, trimmed, views,
};

verus! {

/// A name and its value.
pub type Assignment = (Seq<char>, Seq<char>);

/// Where a character first stands.
pub open spec fn place_of(s: Seq<char>, c: char) -> Option<int>
    decreases s.len(),
{
    if s.len() == 0 {
        None
    } else {
        match place_of(s.drop_last(), c) {
            Some(i) => Some(i),
            None => if s.last() == c {
                Some(s.len() - 1)
            } else {
                None
            },
        }
    }
}

fn find_char(chars: &[char], c: char) -> (r: Option<usize>)
    ensures
        match place_of(chars@, c) {
            Some(i) => r is Some && r->0 == i && 0 <= i < chars@.len(),
            None => r is None,
        },
{
    let mut i: usize = 0;
    while i < chars.len()
        invariant
            i <= chars@.len(),
            place_of(chars@.take(i as int), c) is None,
        decreases chars@.len() - i,
    {
        assert(chars@.take(i + 1).drop_last() =~= chars@.take(i as int));
        if chars[i] == c {
            proof {
                assert(place_of(chars@.take(i + 1), c) == Some(i as int));
                lemma_place_stays(chars@, i + 1, c);
            }
            return Some(i);
        }
        i = i + 1;
    }
    assert(chars@.take(i as int) =~= chars@);
    None
}

proof fn lemma_place_stays(s: Seq<char>, to: int, c: char)
    requires
        0 <= to <= s.len(),
        place_of(s.take(to), c) is Some,
    ensures
        place_of(s, c) == place_of(s.take(to), c),
    decreases s.len() - to,
{
    if to < s.len() {
        assert(s.take(to + 1).drop_last() =~= s.take(to));
        lemma_place_stays(s, to + 1, c);
    } else {
        assert(s.take(to) =~= s);
    }
}

/// A name and a value around the first equals sign.
pub open spec fn assignment(text: Seq<char>) -> Option<Assignment> {
    match place_of(text, '=') {
        Some(at) => Some((trim(text.take(at)), trim(text.skip(at + 1)))),
        None => None,
    }
}

/// A value without the quotes around it.
pub open spec fn unquote(value: Seq<char>) -> Seq<char> {
    let inner = trim(value);
    if inner.len() >= 2 && ((inner[0] == '\'' && inner.last() == '\'') || (inner[0] == '"'
        && inner.last() == '"')) {
        inner.subrange(1, inner.len() - 1)
    } else {
        inner
    }
}

/// A line without what introduces an assignment in a POSIX shell or in PowerShell.
pub open spec fn assignment_text(line: Seq<char>) -> Seq<char> {
    let text = trim(line);
    if starts_with(text, "export "@) {
        text.skip("export "@.len() as int)
    } else if starts_with(text, "$env:"@) {
        text.skip("$env:"@.len() as int)
    } else {
        text
    }
}

/// The name and the value that a line sets.
pub open spec fn line_assignment(line: Seq<char>) -> Option<Assignment> {
    match assignment(assignment_text(line)) {
        Some((name, value)) => Some((name, unquote(value))),
        None => None,
    }
}

/// The names and values that the lines set, in their order.
pub open spec fn assignments(lines: Seq<Seq<char>>) -> Seq<Assignment>
    decreases lines.len(),
{
    if lines.len() == 0 {
        Seq::empty()
    } else {
        let rest = assignments(lines.drop_last());
        match line_assignment(lines.last()) {
            Some(a) => rest.push(a),
            None => rest,
        }
    }
}

/// The value of a name: the last one that was set.
pub open spec fn value_of(all: Seq<Assignment>, name: Seq<char>) -> Option<Seq<char>>
    decreases all.len(),
{
    if all.len() == 0 {
        None
    } else if all.last().0 == name {
        Some(all.last().1)
    } else {
        value_of(all.drop_last(), name)
    }
}

/// What an environment file sets.
#[derive(Debug)]
pub struct EnvironmentValues {
    pub entries: Vec<(String, String)>,
}

impl View for EnvironmentValues {
    type V = Seq<Assignment>;

    open spec fn view(&self) -> Seq<Assignment> {
        self.entries@.map_values(|e: (String, String)| (e.0@, e.1@))
    }
}

impl EnvironmentValues {
    /// The value of a name.
    pub fn get(&self, name: &str) -> (r: Option<&String>)
        ensures
            match r {
                Some(value) => value_of(self@, name@) == Some(value@),
                None => value_of(self@, name@) is None,
            },
    {
        let mut i: usize = self.entries.len();
        assert(self@.take(i as int) =~= self@);
        while i > 0
            invariant
                i <= self.entries@.len(),
                value_of(self@, name@) == value_of(self@.take(i as int), name@),
            decreases i,
        {
            i = i - 1;
            proof {
                assert(self@.take(i + 1).drop_last() =~= self@.take(i as int));
                assert(self@.take(i + 1).last() == (
                    self.entries@[i as int].0@,
                    self.entries@[i as int].1@,
                ));
            }
            if same(self.entries[i].0.as_str(), name) {
                return Some(&self.entries[i].1);
            }
        }
        None
    }
}

fn unquote_value(value: &str) -> (r: String)
    ensures
        r@ == unquote(value@),
{
    let inner = trimmed(value);
    let chars = to_chars(inner.as_str());
    let n: usize = chars.len();
    if n >= 2 && ((chars[0] == '\'' && chars[n - 1] == '\'') || (chars[0] == '"' && chars[n - 1]
        == '"')) {
        from_range(chars.as_slice(), 1, n - 1)
    } else {
        inner
    }
}

fn read_line(line: &str) -> (r: Option<(String, String)>)
    ensures
        match r {
            Some((name, value)) => line_assignment(line@) == Some((name@, value@)),
            None => line_assignment(line@) is None,
        },
{
    let text = trimmed(line);
    let body = match strip_prefix(text.as_str(), "export ") {
        Some(rest) => rest,
        None => match strip_prefix(text.as_str(), "$env:") {
            Some(rest) => rest,
            None => text,
        },
    };
    assert(body@ == assignment_text(line@));
    let chars = to_chars(body.as_str());
    match find_char(chars.as_slice(), '=') {
        Some(at) => {
            let name = from_range(chars.as_slice(), 0, at);
            let value = from_range(chars.as_slice(), at + 1, chars.len());
            assert(name@ =~= body@.take(at as int));
            assert(value@ =~= body@.skip(at + 1));
            let value = trimmed(value.as_str());
            Some((trimmed(name.as_str()), unquote_value(value.as_str())))
        },
        None => None,
    }
}

/// What an environment file sets, in the form of a POSIX shell or of PowerShell.
pub fn parse_environment_file(contents: &str) -> (r: EnvironmentValues)
    ensures
        r@ == assignments(lines(contents@)),
{
    let all = split_lines(contents);
    let ghost texts = lines(contents@);
    let mut values = EnvironmentValues { entries: Vec::new() };
    let mut i: usize = 0;
    assert(values@ =~= assignments(texts.take(0)));
    while i < all.len()
        invariant
            i <= all@.len(),
            views(all@) == texts,
            values@ == assignments(texts.take(i as int)),
        decreases all@.len() - i,
    {
        proof {
            assert(texts.take(i + 1).drop_last() =~= texts.take(i as int));
            assert(texts.take(i + 1).last() == all@[i as int]@);
        }
        match read_line(all[i].as_str()) {
            Some((name, value)) => {
                let ghost before = values@;
                let ghost added = (name@, value@);
                values.entries.push((name, value));
                assert(values@ =~= before.push(added));
            },
            None => {},
        }
        i = i + 1;
    }
    assert(views(all@).len() == all@.len());
    assert(texts.take(i as int) =~= texts);
    values
}

/// A later line counts more than an earlier one.
pub proof fn law_the_last_assignment_counts(before: Seq<Assignment>, name: Seq<char>, value: Seq<char>)
    ensures
        value_of(before.push((name, value)), name) == Some(value),
        forall|other: Seq<char>|
            other != name ==> #[trigger] value_of(before.push((name, value)), other) == value_of(
                before,
                other,
            ),
{
    let all = before.push((name, value));
    assert(all.drop_last() =~= before);
    assert(all.last() == (name, value));
}

/// Where a character last stands.
pub open spec fn last_place_of(s: Seq<char>, c: char) -> Option<int>
    decreases s.len(),
{
    if s.len() == 0 {
        None
    } else if s.last() == c {
        Some(s.len() - 1)
    } else {
        last_place_of(s.drop_last(), c)
    }
}

fn find_last_char(chars: &[char], c: char) -> (r: Option<usize>)
    ensures
        match last_place_of(chars@, c) {
            Some(i) => r is Some && r->0 == i && 0 <= i < chars@.len(),
            None => r is None,
        },
{
    let mut i: usize = chars.len();
    assert(chars@.take(i as int) =~= chars@);
    while i > 0
        invariant
            i <= chars@.len(),
            last_place_of(chars@, c) == last_place_of(chars@.take(i as int), c),
        decreases i,
    {
        assert(chars@.take(i as int).drop_last() =~= chars@.take(i - 1));
        if chars[i - 1] == c {
            return Some(i - 1);
        }
        i = i - 1;
    }
    None
}

/// The text of the error of `str::parse` for a text that is no port.
pub uninterp spec fn port_error(text: Seq<char>) -> Seq<char>;

/// Calls `str::parse::<u16>`: an optional plus sign and digits, up to 65535. The text of the error
/// has a name, `port_error`.
#[verifier::external_body]
fn parse_port(text: &str) -> (r: Result<u16, String>)
    ensures
        match parse_unsigned(text@, 65535) {
            Some(n) => r is Ok && r->Ok_0 == n,
            None => r is Err && r->Err_0@ == port_error(text@),
        },
{
    text.parse::<u16>().map_err(|error| error.to_string())
}

/// The host and the port of an endpoint, without the scheme and the path.
pub open spec fn host_and_port(endpoint: Seq<char>) -> Seq<char> {
    let rest = if starts_with(endpoint, "http://"@) {
        endpoint.skip("http://"@.len() as int)
    } else {
        endpoint
    };
    split_at(rest, '/')[0]
}

/// The port of this machine that an endpoint names, or why it is not tried.
pub open spec fn port_of(endpoint: Seq<char>) -> Result<nat, Seq<char>> {
    let text = host_and_port(endpoint);
    match last_place_of(text, ':') {
        None => Err("invalid endpoint"@),
        Some(at) => {
            let host = text.take(at);
            let port = text.skip(at + 1);
            if host != "127.0.0.1"@ && host != "localhost"@ {
                Err("unexpected host "@ + host)
            } else {
                match parse_unsigned(port, 65535) {
                    Some(n) => Ok(n),
                    None => Err(port_error(port)),
                }
            }
        },
    }
}

/// The port of this machine that an endpoint names.
pub fn endpoint_port(endpoint: &str) -> (r: Result<u16, String>)
    ensures
        match port_of(endpoint@) {
            Ok(n) => r is Ok && r->Ok_0 == n,
            Err(message) => r is Err && r->Err_0@ == message,
        },
{
    let rest = match strip_prefix(endpoint, "http://") {
        Some(rest) => rest,
        None => endpoint.to_owned(),
    };
    let parts = split(rest.as_str(), '/');
    let ghost text = host_and_port(endpoint@);
    assert(views(parts@)[0] == parts@[0]@);
    assert(parts@[0]@ == text);
    let chars = to_chars(parts[0].as_str());
    match find_last_char(chars.as_slice(), ':') {
        None => Err("invalid endpoint".to_owned()),
        Some(at) => {
            let end: usize = chars.len();
            let host = from_range(chars.as_slice(), 0, at);
            let port = from_range(chars.as_slice(), at + 1, end);
            assert(host@ =~= text.take(at as int));
            assert(port@ =~= text.skip(at + 1));
            if !same(host.as_str(), "127.0.0.1") && !same(host.as_str(), "localhost") {
                let mut message: String = "unexpected host ".to_owned();
                message.append(host.as_str());
                return Err(message);
            }
            parse_port(port.as_str())
        },
    }
}

/// What an environment file says of the endpoints.
#[derive(Debug)]
pub struct EnvironmentEndpoints {
    pub hook: Option<String>,
    pub mcp: Option<String>,
    pub tokens_missing: bool,
}

/// A token is missing or empty.
pub open spec fn no_token(token: Option<Seq<char>>) -> bool {
    token is None || token->0.len() == 0
}

/// What the values of an environment file say of the endpoints.
pub fn environment_endpoints(values: &EnvironmentValues) -> (r: EnvironmentEndpoints)
    ensures
        opt_view(r.hook) == value_of(values@, "LUNA_MUX_HOOK_ENDPOINT"@),
        opt_view(r.mcp) == value_of(values@, "LUNA_MUX_MCP_ENDPOINT"@),
        r.tokens_missing == (no_token(value_of(values@, "LUNA_MUX_HOOK_AUTHORIZATION"@))
            || no_token(value_of(values@, "LUNA_MUX_MCP_AUTHORIZATION"@))),
{
    let hook = match values.get("LUNA_MUX_HOOK_ENDPOINT") {
        Some(text) => Some(text.clone()),
        None => None,
    };
    let mcp = match values.get("LUNA_MUX_MCP_ENDPOINT") {
        Some(text) => Some(text.clone()),
        None => None,
    };
    let no_hook = match values.get("LUNA_MUX_HOOK_AUTHORIZATION") {
        Some(text) => to_chars(text.as_str()).len() == 0,
        None => true,
    };
    let no_mcp = match values.get("LUNA_MUX_MCP_AUTHORIZATION") {
        Some(text) => to_chars(text.as_str()).len() == 0,
        None => true,
    };
    EnvironmentEndpoints { hook, mcp, tokens_missing: no_hook || no_mcp }
}

/// What was found at an endpoint: nothing where it is missing, or whether it could be reached.
pub open spec fn reach_text(label: Seq<char>, reach: Option<Result<(), String>>) -> Seq<char> {
    match reach {
        None => label + "_endpoint=missing"@,
        Some(Ok(())) => label + "_endpoint=reachable"@,
        Some(Err(message)) => label + "_endpoint="@ + message@,
    }
}

fn reached(label: &str, reach: &Option<Result<(), String>>) -> (r: String)
    ensures
        r@ == reach_text(label@, *reach),
{
    let mut text: String = label.to_owned();
    match reach {
        None => text.append("_endpoint=missing"),
        Some(Ok(())) => text.append("_endpoint=reachable"),
        Some(Err(message)) => {
            text.append("_endpoint=");
            text.append(message.as_str());
        },
    }
    text
}

/// What is told of an environment file.
pub fn inspect_environment_file(
    endpoints: &EnvironmentEndpoints,
    hook: &Option<Result<(), String>>,
    mcp: &Option<Result<(), String>>,
) -> (r: String)
    ensures
        r@ == join(
            if endpoints.tokens_missing {
                seq![reach_text("hook"@, *hook), reach_text("mcp"@, *mcp), "tokens=missing"@]
            } else {
                seq![reach_text("hook"@, *hook), reach_text("mcp"@, *mcp)]
            },
            ","@,
        ),
{
    let mut checks: Vec<String> = Vec::new();
    push_text(&mut checks, reached("hook", hook));
    push_text(&mut checks, reached("mcp", mcp));
    if endpoints.tokens_missing {
        push_text(&mut checks, "tokens=missing".to_owned());
        assert(views(checks@) =~= seq![
            reach_text("hook"@, *hook),
            reach_text("mcp"@, *mcp),
            "tokens=missing"@,
        ]);
    } else {
        assert(views(checks@) =~= seq![reach_text("hook"@, *hook), reach_text("mcp"@, *mcp)]);
    }
    joined(checks.as_slice(), ",")
}

/// A text passes the filter.
pub open spec fn passes(text: Seq<char>, filter: Option<Seq<char>>) -> bool {
    match filter {
        Some(part) => contains(text, part),
        None => true,
    }
}

/// Whether a text passes the filter.
pub fn passes_filter(text: &str, filter: Option<&str>) -> (r: bool)
    ensures
        r == passes(text@, opt_str(filter)),
{
    match filter {
        Some(part) => has_part(text, part),
        None => true,
    }
}

/// A managed agent passes the filter by one of its ids.
pub open spec fn agent_passes(agent: ManagedAgentView, filter: Option<Seq<char>>) -> bool {
    passes(agent.agent_id, filter) || passes(agent.runtime_id, filter) || passes(
        agent.pane_id,
        filter,
    ) || passes(agent.mux_session_id, filter)
}

/// Whether a managed agent passes the filter.
pub fn managed_agent_matches_filter(agent: &DoctorManagedAgent, filter: Option<&str>) -> (r: bool)
    ensures
        r == agent_passes(agent@, opt_str(filter)),
{
    passes_filter(agent.agent_id.as_str(), filter) || passes_filter(
        agent.runtime_id.as_str(),
        filter,
    ) || passes_filter(agent.pane_id.as_str(), filter) || passes_filter(
        agent.mux_session_id.as_str(),
        filter,
    )
}

/// The managed agents that pass the filter.
pub open spec fn matching(agents: Seq<ManagedAgentView>, filter: Option<Seq<char>>) -> Seq<
    ManagedAgentView,
>
    decreases agents.len(),
{
    if agents.len() == 0 {
        Seq::empty()
    } else {
        let rest = matching(agents.drop_last(), filter);
        if agent_passes(agents.last(), filter) {
            rest.push(agents.last())
        } else {
            rest
        }
    }
}

/// What is told of a managed agent.
pub open spec fn agent_detail(agent: ManagedAgentView) -> Seq<char> {
    agent.agent_id + ": adapter="@ + agent.adapter + ", status="@ + agent.status + ", runtime="@
        + agent.runtime_id + ", pane="@ + agent.pane_id + ", pane_title="@ + agent.pane_title
        + ", session="@ + agent.mux_session_id + ", session_name="@ + agent.session_name
        + ", last_activity="@ + (match agent.last_activity {
        Some(text) => text,
        None => "unknown"@,
    })
}

fn describe_agent(agent: &DoctorManagedAgent) -> (r: String)
    ensures
        r@ == agent_detail(agent@),
{
    let mut text: String = agent.agent_id.clone();
    text.append(": adapter=");
    text.append(agent.adapter.as_str());
    text.append(", status=");
    text.append(agent.status.as_str());
    text.append(", runtime=");
    text.append(agent.runtime_id.as_str());
    text.append(", pane=");
    text.append(agent.pane_id.as_str());
    text.append(", pane_title=");
    text.append(agent.pane_title.as_str());
    text.append(", session=");
    text.append(agent.mux_session_id.as_str());
    text.append(", session_name=");
    text.append(agent.session_name.as_str());
    text.append(", last_activity=");
    match &agent.last_activity {
        Some(activity) => text.append(activity.as_str()),
        None => text.append("unknown"),
    }
    text
}

/// What is told of the agents in error, or of the others.
pub open spec fn agent_details(agents: Seq<ManagedAgentView>, in_error: bool) -> Seq<Seq<char>>
    decreases agents.len(),
{
    if agents.len() == 0 {
        Seq::empty()
    } else {
        let rest = agent_details(agents.drop_last(), in_error);
        if (agents.last().status == "Error"@) == in_error {
            rest.push(agent_detail(agents.last()))
        } else {
            rest
        }
    }
}

/// The check of the managed agents.
pub open spec fn managed_check(
    agents: Seq<ManagedAgentView>,
    filter: Option<Seq<char>>,
) -> AgentCheckView {
    let found = matching(agents, filter);
    let errors = agent_details(found, true);
    if found.len() == 0 {
        AgentCheckView {
            name: "managed_agents"@,
            status: "ok"@,
            detail: "no managed agent snapshots found"@,
        }
    } else if errors.len() == 0 {
        AgentCheckView {
            name: "managed_agents"@,
            status: "ok"@,
            detail: join(agent_details(found, false), " | "@),
        }
    } else {
        AgentCheckView { name: "managed_agents"@, status: "error"@, detail: join(errors, " | "@) }
    }
}

/// The check of the managed agents that pass the filter.
pub fn check_managed_agents(filter: Option<&str>, agents: &[DoctorManagedAgent]) -> (r: AgentCheck)
    ensures
        r@ == managed_check(managed_views(agents@), opt_str(filter)),
{
    let ghost all = managed_views(agents@);
    let ghost wanted = opt_str(filter);
    let mut details: Vec<String> = Vec::new();
    let mut errors: Vec<String> = Vec::new();
    let mut found: bool = false;
    let mut i: usize = 0;
    proof {
        assert(all.take(0) =~= Seq::<ManagedAgentView>::empty());
        assert(views(details@) =~= agent_details(matching(all.take(0), wanted), false));
        assert(views(errors@) =~= agent_details(matching(all.take(0), wanted), true));
    }
    while i < agents.len()
        invariant
            i <= agents@.len(),
            all == managed_views(agents@),
            wanted == opt_str(filter),
            found == (matching(all.take(i as int), wanted).len() > 0),
            views(details@) == agent_details(matching(all.take(i as int), wanted), false),
            views(errors@) == agent_details(matching(all.take(i as int), wanted), true),
        decreases agents@.len() - i,
    {
        let ghost before = matching(all.take(i as int), wanted);
        proof {
            assert(all.take(i + 1).drop_last() =~= all.take(i as int));
            assert(all.take(i + 1).last() == agents@[i as int]@);
        }
        if managed_agent_matches_filter(&agents[i], filter) {
            found = true;
            let detail = describe_agent(&agents[i]);
            proof {
                let now = matching(all.take(i + 1), wanted);
                assert(now.drop_last() =~= before);
                assert(now.last() == agents@[i as int]@);
            }
            if same(agents[i].status.as_str(), "Error") {
                push_text(&mut errors, detail);
            } else {
                push_text(&mut details, detail);
            }
        }
        i = i + 1;
    }
    assert(all.take(i as int) =~= all);
    assert(views(errors@).len() == errors@.len());
    if !found {
        return agent_check("managed_agents", "ok", "no managed agent snapshots found".to_owned());
    }
    if errors.len() == 0 {
        agent_check("managed_agents", "ok", joined(details.as_slice(), " | "))
    } else {
        agent_check("managed_agents", "error", joined(errors.as_slice(), " | "))
    }
}

/// An environment file that was found, and what its inspection gave.
#[derive(Debug)]
pub struct EnvironmentFile {
    pub runtime_id: String,
    pub file_name: String,
    pub inspection: Result<String, String>,
}

/// What is told of the files that could be read, or of the others.
pub open spec fn file_details(
    files: Seq<EnvironmentFile>,
    filter: Option<Seq<char>>,
    readable: bool,
) -> Seq<Seq<char>>
    decreases files.len(),
{
    if files.len() == 0 {
        Seq::empty()
    } else {
        let rest = file_details(files.drop_last(), filter, readable);
        let last = files.last();
        if passes(last.runtime_id@, filter) && (last.inspection is Ok) == readable {
            rest.push(
                match last.inspection {
                    Ok(detail) => last.runtime_id@ + ": "@ + detail@,
                    Err(error) => last.runtime_id@ + "/"@ + last.file_name@ + ": "@ + error@,
                },
            )
        } else {
            rest
        }
    }
}

/// The check of the environment files; nothing stands for a directory that could not be read.
pub open spec fn files_check(
    files: Option<Seq<EnvironmentFile>>,
    agents: Seq<ManagedAgentView>,
    filter: Option<Seq<char>>,
) -> AgentCheckView {
    let active = matching(agents, filter).len() > 0;
    match files {
        None => if active {
            AgentCheckView {
                name: "runtime_env_files"@,
                status: "ok"@,
                detail: "active managed agents are present; persistent environment files are not required for managed agents"@,
            }
        } else {
            AgentCheckView {
                name: "runtime_env_files"@,
                status: "warn"@,
                detail: "no luna-mux temp directory"@,
            }
        },
        Some(list) => {
            let details = file_details(list, filter, true);
            let errors = file_details(list, filter, false);
            if details.len() == 0 && errors.len() == 0 {
                if active {
                    AgentCheckView {
                        name: "runtime_env_files"@,
                        status: "ok"@,
                        detail: "no persistent environment files found; active managed agents receive hook/MCP configuration through their launch environment instead"@,
                    }
                } else {
                    AgentCheckView {
                        name: "runtime_env_files"@,
                        status: "warn"@,
                        detail: "no persistent runtime environment files found; this is expected when no agent runtime is active"@,
                    }
                }
            } else if errors.len() == 0 {
                AgentCheckView {
                    name: "runtime_env_files"@,
                    status: "ok"@,
                    detail: join(details, " | "@),
                }
            } else {
                AgentCheckView {
                    name: "runtime_env_files"@,
                    status: "error"@,
                    detail: join(errors, " | "@),
                }
            }
        },
    }
}

fn any_matching(filter: Option<&str>, agents: &[DoctorManagedAgent]) -> (r: bool)
    ensures
        r == (matching(managed_views(agents@), opt_str(filter)).len() > 0),
{
    let ghost all = managed_views(agents@);
    let mut found: bool = false;
    let mut i: usize = 0;
    while i < agents.len()
        invariant
            i <= agents@.len(),
            all == managed_views(agents@),
            found == (matching(all.take(i as int), opt_str(filter)).len() > 0),
        decreases agents@.len() - i,
    {
        proof {
            assert(all.take(i + 1).drop_last() =~= all.take(i as int));
            assert(all.take(i + 1).last() == agents@[i as int]@);
        }
        if managed_agent_matches_filter(&agents[i], filter) {
            found = true;
        }
        i = i + 1;
    }
    assert(all.take(i as int) =~= all);
    found
}

/// The files as a view.
pub open spec fn opt_files(files: Option<Vec<EnvironmentFile>>) -> Option<Seq<EnvironmentFile>> {
    match files {
        Some(list) => Some(list@),
        None => None,
    }
}

/// The check of the environment files of the terminals that pass the filter.
pub fn check_runtime_environment_files(
    filter: Option<&str>,
    agents: &[DoctorManagedAgent],
    files: &Option<Vec<EnvironmentFile>>,
) -> (r: AgentCheck)
    ensures
        r@ == files_check(opt_files(*files), managed_views(agents@), opt_str(filter)),
{
    let active = any_matching(filter, agents);
    let list = match files {
        Some(list) => list,
        None => {
            return if active {
                agent_check(
                    "runtime_env_files",
                    "ok",
                    "active managed agents are present; persistent environment files are not required for managed agents".to_owned(),
                )
            } else {
                agent_check("runtime_env_files", "warn", "no luna-mux temp directory".to_owned())
            };
        },
    };
    let ghost wanted = opt_str(filter);
    let mut details: Vec<String> = Vec::new();
    let mut errors: Vec<String> = Vec::new();
    let mut i: usize = 0;
    proof {
        assert(views(details@) =~= file_details(list@.take(0), wanted, true));
        assert(views(errors@) =~= file_details(list@.take(0), wanted, false));
    }
    while i < list.len()
        invariant
            i <= list@.len(),
            wanted == opt_str(filter),
            views(details@) == file_details(list@.take(i as int), wanted, true),
            views(errors@) == file_details(list@.take(i as int), wanted, false),
        decreases list@.len() - i,
    {
        proof {
            assert(list@.take(i + 1).drop_last() =~= list@.take(i as int));
        }
        let file = &list[i];
        if passes_filter(file.runtime_id.as_str(), filter) {
            let mut text: String = file.runtime_id.clone();
            match &file.inspection {
                Ok(detail) => {
                    text.append(": ");
                    text.append(detail.as_str());
                    push_text(&mut details, text);
                },
                Err(error) => {
                    text.append("/");
                    text.append(file.file_name.as_str());
                    text.append(": ");
                    text.append(error.as_str());
                    push_text(&mut errors, text);
                },
            }
        }
        i = i + 1;
    }
    assert(list@.take(i as int) =~= list@);
    assert(views(errors@).len() == errors@.len());
    assert(views(details@).len() == details@.len());
    if details.len() == 0 && errors.len() == 0 {
        return if active {
            agent_check(
                "runtime_env_files",
                "ok",
                "no persistent environment files found; active managed agents receive hook/MCP configuration through their launch environment instead".to_owned(),
            )
        } else {
            agent_check(
                "runtime_env_files",
                "warn",
                "no persistent runtime environment files found; this is expected when no agent runtime is active".to_owned(),
            )
        };
    }
    if errors.len() == 0 {
        agent_check("runtime_env_files", "ok", joined(details.as_slice(), " | "))
    } else {
        agent_check("runtime_env_files", "error", joined(errors.as_slice(), " | "))
    }
}

/// Missing environment files are no warning while a managed agent is active.
pub proof fn law_active_agents_need_no_environment_files(
    agents: Seq<ManagedAgentView>,
    filter: Option<Seq<char>>,
)
    requires
        matching(agents, filter).len() > 0,
    ensures
        files_check(None, agents, filter).status == "ok"@,
        files_check(Some(Seq::empty()), agents, filter).status == "ok"@,
{
}

/// A filter picks the agents that it names by their id, their terminal, their pane or their session,
/// in their order; without one all are picked.
pub proof fn law_filters_pick_agents(
    agents: Seq<ManagedAgentView>,
    agent: ManagedAgentView,
    part: Seq<char>,
)
    ensures
        matching(agents.push(agent), None) == matching(agents, None).push(agent),
        contains(agent.agent_id, part) || contains(agent.runtime_id, part) || contains(
            agent.pane_id,
            part,
        ) || contains(agent.mux_session_id, part) ==> matching(agents.push(agent), Some(part))
            == matching(agents, Some(part)).push(agent),
        !contains(agent.agent_id, part) && !contains(agent.runtime_id, part) && !contains(
            agent.pane_id,
            part,
        ) && !contains(agent.mux_session_id, part) ==> matching(agents.push(agent), Some(part))
            == matching(agents, Some(part)),
{
    assert(agents.push(agent).drop_last() =~= agents);
}

/// The managed agents are in order unless one of those that the filter picks is in error; then those
/// are told.
pub proof fn law_failed_agents_are_told(agents: Seq<ManagedAgentView>, filter: Option<Seq<char>>)
    ensures
        ({
            let found = matching(agents, filter);
            let failed = exists|i: int|
                0 <= i < found.len() && (#[trigger] found[i]).status == "Error"@;
            let check = managed_check(agents, filter);
            &&& check.name == "managed_agents"@
            &&& failed <==> check.status == "error"@
            &&& !failed ==> check.status == "ok"@
            &&& failed ==> check.detail == join(agent_details(found, true), " | "@)
        }),
{
    let found = matching(agents, filter);
    lemma_failed(found);
    reveal_strlit("ok");
    reveal_strlit("error");
    assert("ok"@.len() == 2 && "error"@.len() == 5);
}

proof fn lemma_failed(agents: Seq<ManagedAgentView>)
    ensures
        agent_details(agents, true).len() > 0 <==> exists|i: int|
            0 <= i < agents.len() && (#[trigger] agents[i]).status == "Error"@,
    decreases agents.len(),
{
    if agents.len() > 0 {
        let front = agents.drop_last();
        lemma_failed(front);
        assert forall|i: int| 0 <= i < front.len() implies #[trigger] agents[i] == front[i] by {}
        assert(agents[agents.len() - 1] == agents.last());
        if exists|i: int| 0 <= i < agents.len() && (#[trigger] agents[i]).status == "Error"@ {
            let i = choose|i: int|
                0 <= i < agents.len() && (#[trigger] agents[i]).status == "Error"@;
            if i < front.len() {
                assert(front[i].status == "Error"@);
            }
        }
        if agent_details(front, true).len() > 0 {
            let i = choose|i: int|
                0 <= i < front.len() && (#[trigger] front[i]).status == "Error"@;
            assert(agents[i].status == "Error"@);
        }
    }
}

/// An environment file that cannot be read is an error, and it is told; readable ones are in order.
pub proof fn law_unreadable_files_are_errors(
    files: Seq<EnvironmentFile>,
    agents: Seq<ManagedAgentView>,
    filter: Option<Seq<char>>,
)
    ensures
        ({
            let bad = exists|i: int|
                0 <= i < files.len() && (#[trigger] files[i]).inspection is Err && passes(
                    files[i].runtime_id@,
                    filter,
                );
            let good = exists|i: int|
                0 <= i < files.len() && (#[trigger] files[i]).inspection is Ok && passes(
                    files[i].runtime_id@,
                    filter,
                );
            let check = files_check(Some(files), agents, filter);
            &&& check.name == "runtime_env_files"@
            &&& bad ==> check.status == "error"@ && check.detail == join(
                file_details(files, filter, false),
                " | "@,
            )
            &&& !bad && good ==> check.status == "ok"@ && check.detail == join(
                file_details(files, filter, true),
                " | "@,
            )
            &&& !bad && !good ==> (check.status == "ok"@ <==> matching(agents, filter).len() > 0)
            &&& !bad && !good && matching(agents, filter).len() == 0 ==> check.status == "warn"@
        }),
{
    lemma_files(files, filter);
    reveal_strlit("ok");
    reveal_strlit("warn");
    assert("ok"@.len() == 2 && "warn"@.len() == 4);
}

proof fn lemma_files(files: Seq<EnvironmentFile>, filter: Option<Seq<char>>)
    ensures
        file_details(files, filter, false).len() > 0 <==> exists|i: int|
            0 <= i < files.len() && (#[trigger] files[i]).inspection is Err && passes(
                files[i].runtime_id@,
                filter,
            ),
        file_details(files, filter, true).len() > 0 <==> exists|i: int|
            0 <= i < files.len() && (#[trigger] files[i]).inspection is Ok && passes(
                files[i].runtime_id@,
                filter,
            ),
    decreases files.len(),
{
    if files.len() > 0 {
        let front = files.drop_last();
        lemma_files(front, filter);
        assert forall|i: int| 0 <= i < front.len() implies #[trigger] files[i] == front[i] by {}
        assert(files[files.len() - 1] == files.last());
        if exists|i: int|
            0 <= i < files.len() && (#[trigger] files[i]).inspection is Err && passes(
                files[i].runtime_id@,
                filter,
            ) {
            let i = choose|i: int|
                0 <= i < files.len() && (#[trigger] files[i]).inspection is Err && passes(
                    files[i].runtime_id@,
                    filter,
                );
            if i < front.len() {
                assert(front[i].inspection is Err);
            }
        }
        if exists|i: int|
            0 <= i < files.len() && (#[trigger] files[i]).inspection is Ok && passes(
                files[i].runtime_id@,
                filter,
            ) {
            let i = choose|i: int|
                0 <= i < files.len() && (#[trigger] files[i]).inspection is Ok && passes(
                    files[i].runtime_id@,
                    filter,
                );
            if i < front.len() {
                assert(front[i].inspection is Ok);
            }
        }
        if file_details(front, filter, false).len() > 0 {
            let i = choose|i: int|
                0 <= i < front.len() && (#[trigger] front[i]).inspection is Err && passes(
                    front[i].runtime_id@,
                    filter,
                );
            assert(files[i].inspection is Err);
        }
        if file_details(front, filter, true).len() > 0 {
            let i = choose|i: int|
                0 <= i < front.len() && (#[trigger] front[i]).inspection is Ok && passes(
                    front[i].runtime_id@,
                    filter,
                );
            assert(files[i].inspection is Ok);
        }
    }
}

/// An endpoint is taken only on this machine, and its port is the number behind the last colon in
/// front of the path.
pub proof fn law_endpoints_are_on_this_machine(host: Seq<char>, port: Seq<char>, rest: Seq<char>)
    requires
        !host.contains('/') && !port.contains('/') && !port.contains(':'),
    ensures
        ({
            let plain = "http://"@ + (host + seq![':'] + port) + seq!['/'] + rest;
            let local = host == "127.0.0.1"@ || host == "localhost"@;
            &&& !local ==> port_of(plain) == Err::<nat, Seq<char>>("unexpected host "@ + host)
            &&& local && parse_unsigned(port, 65535) is Some ==> port_of(plain) == Ok::<
                nat,
                Seq<char>,
            >(parse_unsigned(port, 65535)->0)
            &&& local && parse_unsigned(port, 65535) is None ==> port_of(plain) is Err
        }),
{
    let plain = host + seq![':'] + port;
    let endpoint = "http://"@ + plain + seq!['/'] + rest;
    let n = "http://"@.len() as int;
    assert(endpoint.subrange(0, n) =~= "http://"@);
    assert(endpoint.skip(n) =~= plain + seq!['/'] + rest);
    assert forall|i: int| 0 <= i < plain.len() implies plain[i] != '/' by {
        if i < host.len() {
            assert(host.contains(host[i]));
        } else if i > host.len() {
            assert(port.contains(port[i - host.len() - 1]));
        }
    }
    lemma_before_slash(plain, rest);
    lemma_last_colon(host, port);
    assert(plain.take(host.len() as int) =~= host);
    assert(plain.skip(host.len() as int + 1) =~= port);
}

proof fn lemma_no_slash(s: Seq<char>)
    requires
        forall|i: int| 0 <= i < s.len() ==> s[i] != '/',
    ensures
        split_at(s, '/') == seq![s],
    decreases s.len(),
{
    if s.len() == 0 {
        assert(s =~= Seq::<char>::empty());
    } else {
        let front = s.drop_last();
        lemma_no_slash(front);
        assert(s[s.len() - 1] != '/');
        assert(split_at(s, '/') == seq![front].drop_last().push(seq![front].last().push(s.last())));
        assert(front.push(s.last()) =~= s);
        assert(split_at(s, '/') =~= seq![s]);
    }
}

proof fn lemma_before_slash(front: Seq<char>, rest: Seq<char>)
    requires
        forall|i: int| 0 <= i < front.len() ==> front[i] != '/',
    ensures
        split_at(front + seq!['/'] + rest, '/').len() >= 2,
        split_at(front + seq!['/'] + rest, '/')[0] == front,
    decreases rest.len(),
{
    let whole = front + seq!['/'] + rest;
    if rest.len() == 0 {
        lemma_no_slash(front);
        assert(whole.drop_last() =~= front);
        assert(whole.last() == '/');
    } else {
        lemma_before_slash(front, rest.drop_last());
        assert(whole.drop_last() =~= front + seq!['/'] + rest.drop_last());
    }
}

proof fn lemma_last_colon(host: Seq<char>, port: Seq<char>)
    requires
        !port.contains(':'),
    ensures
        last_place_of(host + seq![':'] + port, ':') == Some(host.len() as int),
    decreases port.len(),
{
    let whole = host + seq![':'] + port;
    if port.len() == 0 {
        assert(whole.last() == ':');
    } else {
        let front = port.drop_last();
        assert(port.contains(port.last())) by {
            assert(port[port.len() - 1] == port.last());
        }
        assert forall|i: int| 0 <= i < front.len() implies front[i] != ':' by {
            assert(port[i] == front[i]);
        }
        lemma_last_colon(host, front);
        assert(whole.drop_last() =~= host + seq![':'] + front);
        assert(whole.last() == port.last());
    }
}

/// A line assigns what stands behind its first equals sign to what stands in front of it, both
/// without outer white space, and the value without its quotes.
pub proof fn law_lines_assign_values(name: Seq<char>, value: Seq<char>)
    requires
        !name.contains('='),
    ensures
        assignment(name + seq!['='] + value) == Some((trim(name), trim(value))),
        unquote(value) == trim(value) || (trim(value).len() >= 2 && trim(value)[0] == trim(
            value,
        ).last() && unquote(value) == trim(value).subrange(1, trim(value).len() - 1)),
        trim(value).len() >= 2 && trim(value)[0] == trim(value).last() && (trim(value)[0] == '"'
            || trim(value)[0] == '\'') ==> unquote(value) == trim(value).subrange(
            1,
            trim(value).len() - 1,
        ),
{
    let text = name + seq!['='] + value;
    lemma_first_equals(name, value);
    assert(text.take(name.len() as int) =~= name);
    assert(text.skip(name.len() as int + 1) =~= value);
}

proof fn lemma_first_equals(name: Seq<char>, value: Seq<char>)
    requires
        !name.contains('='),
    ensures
        place_of(name + seq!['='] + value, '=') == Some(name.len() as int),
    decreases value.len(),
{
    let text = name + seq!['='] + value;
    if value.len() == 0 {
        assert(text.drop_last() =~= name);
        lemma_not_placed(name, '=');
        assert(text.last() == '=');
    } else {
        lemma_first_equals(name, value.drop_last());
        assert(text.drop_last() =~= name + seq!['='] + value.drop_last());
    }
}

proof fn lemma_not_placed(s: Seq<char>, c: char)
    requires
        !s.contains(c),
    ensures
        place_of(s, c) is None,
    decreases s.len(),
{
    if s.len() > 0 {
        assert forall|i: int| 0 <= i < s.drop_last().len() implies s.drop_last()[i] != c by {
            assert(s[i] == s.drop_last()[i]);
        }
        lemma_not_placed(s.drop_last(), c);
        assert(s[s.len() - 1] == s.last());
    }
}

/// A line may begin with the word of its shell for setting a variable; the word is no part of the
/// name.
pub proof fn law_words_for_setting_are_no_part_of_the_name(rest: Seq<char>)
    requires
        trim("export "@ + rest) == "export "@ + rest,
        trim("$env:"@ + rest) == "$env:"@ + rest,
    ensures
        assignment_text("export "@ + rest) == rest,
        assignment_text("$env:"@ + rest) == rest,
{
    let a = "export "@ + rest;
    let b = "$env:"@ + rest;
    reveal_strlit("export ");
    reveal_strlit("$env:");
    let n = "export "@.len() as int;
    let m = "$env:"@.len() as int;
    assert(a.subrange(0, n) =~= "export "@);
    assert(occurs_at(a, "export "@, 0));
    assert(a.skip(n) =~= rest);
    assert(b.subrange(0, m) =~= "$env:"@);
    assert(occurs_at(b, "$env:"@, 0));
    assert(b.skip(m) =~= rest);
    assert(b[0] == '$');
    if starts_with(b, "export "@) {
        assert(b.subrange(0, n)[0] == b[0]);
        assert("export "@[0] == 'e');
    }
}

/// Each line that assigns something counts, in the order of the lines; any other is passed over.
pub proof fn law_every_assignment_counts(lines: Seq<Seq<char>>, line: Seq<char>)
    ensures
        match line_assignment(line) {
            Some(a) => assignments(lines.push(line)) == assignments(lines).push(a),
            None => assignments(lines.push(line)) == assignments(lines),
        },
        line_assignment(line) is Some <==> assignment_text(line).contains('='),
{
    assert(lines.push(line).drop_last() =~= lines);
    let text = assignment_text(line);
    if !text.contains('=') {
        lemma_not_placed(text, '=');
    } else {
        lemma_placed(text, '=');
    }
}

proof fn lemma_placed(s: Seq<char>, c: char)
    requires
        s.contains(c),
    ensures
        place_of(s, c) is Some,
    decreases s.len(),
{
    let i = choose|i: int| 0 <= i < s.len() && s[i] == c;
    if i < s.len() - 1 {
        assert(s.drop_last()[i] == c);
        lemma_placed(s.drop_last(), c);
    }
}

/// Both endpoints are read under their names, and a token is missing where either is not there or
/// empty.
pub proof fn law_endpoints_are_read_by_name(values: &EnvironmentValues, r: EnvironmentEndpoints)
    requires
        environment_endpoints.ensures((values,), r),
    ensures
        opt_view(r.hook) == value_of(values@, "LUNA_MUX_HOOK_ENDPOINT"@),
        opt_view(r.mcp) == value_of(values@, "LUNA_MUX_MCP_ENDPOINT"@),
        ({
            let hook = value_of(values@, "LUNA_MUX_HOOK_AUTHORIZATION"@);
            let mcp = value_of(values@, "LUNA_MUX_MCP_AUTHORIZATION"@);
            r.tokens_missing <==> hook is None || mcp is None || hook->0.len() == 0 || mcp->0.len()
                == 0
        }),
{
}

/// An endpoint is told as missing, as reachable, or with what kept it from being reached.
pub proof fn law_endpoints_are_told_with_their_reach(label: Seq<char>, message: String)
    ensures
        reach_text(label, None) == label + "_endpoint=missing"@,
        reach_text(label, Some(Ok(()))) == label + "_endpoint=reachable"@,
        reach_text(label, Some(Err(message))) == label + "_endpoint="@ + message@,
{
}

/// An agent is told with its adapter, its status, its terminal, its pane and its session, and when it
/// was last active.
pub proof fn law_agents_are_told_in_full(agent: ManagedAgentView)
    ensures
        ({
            let front = agent.agent_id + ": adapter="@ + agent.adapter + ", status="@ + agent.status
                + ", runtime="@ + agent.runtime_id + ", pane="@ + agent.pane_id + ", pane_title="@
                + agent.pane_title + ", session="@ + agent.mux_session_id + ", session_name="@
                + agent.session_name + ", last_activity="@;
            &&& agent.last_activity matches Some(text) ==> agent_detail(agent) == front + text
            &&& agent.last_activity is None ==> agent_detail(agent) == front + "unknown"@
        }),
{
}

} // verus!
