//! The probes of the local endpoints: what is sent, and what the answer tells.
use vstd::prelude::*;
use vstd::string::*;
use vstd::utf8::*;

use crate::doctor_checks::{CheckView, DoctorEvidence, DoctorRuntimeCheck, EvidenceView};
use crate::dump_plan::opt_str;
use crate::number_text::{decimal, decimal_text, parse_u64, parse_unsigned};
use crate::text::{
    contains, has_part, is_blank, lines, lossy_text, lossy_utf8, occurs_at, opt_view, same,
    split_lines, split_words, to_chars, trim, views, words,
};

verus! {

/// The parts of an address that a probe needs.
#[derive(Debug)]
pub struct UrlParts {
    pub host: Option<String>,
    pub port: Option<u16>,
    pub path: String,
}

/// The parts of an address, as views.
pub ghost struct UrlView {
    pub host: Option<Seq<char>>,
    pub port: Option<u16>,
    pub path: Seq<char>,
}

/// What was read of an address.
pub open spec fn url_view(parts: Result<UrlParts, String>) -> Result<UrlView, Seq<char>> {
    match parts {
        Ok(p) => Ok(UrlView { host: opt_view(p.host), port: p.port, path: p.path@ }),
        Err(message) => Err(message@),
    }
}

/// The host, the port and the path that `url::Url` reads in an address, or the text of its error.
pub uninterp spec fn parsed_url(address: Seq<char>) -> Result<UrlView, Seq<char>>;

/// Calls `url::Url::parse` and takes over `host_str`, `port_or_known_default` and `path`, or the
/// text of the error. What comes out has a name, `parsed_url`.
#[verifier::external_body]
fn parse_url(address: &str) -> (r: Result<UrlParts, String>)
    ensures
        url_view(r) == parsed_url(address@),
{
    url::Url::parse(address).map_err(|e| e.to_string()).map(|url| UrlParts {
        host: url.host_str().map(|host| host.to_owned()),
        port: url.port_or_known_default(),
        path: url.path().to_owned(),
    })
}

/// Why a probe failed.
#[derive(Debug)]
pub struct ProbeFailure {
    pub code: &'static str,
    pub detail: String,
}

/// Why a probe failed, as views.
pub ghost struct FailureView {
    pub code: Seq<char>,
    pub detail: Seq<char>,
}

impl View for ProbeFailure {
    type V = FailureView;

    open spec fn view(&self) -> FailureView {
        FailureView { code: self.code@, detail: self.detail@ }
    }
}

fn failure(code: &'static str, detail: &str) -> (r: ProbeFailure)
    ensures
        r@ == (FailureView { code: code@, detail: detail@ }),
{
    ProbeFailure { code, detail: detail.to_owned() }
}

/// What is sent to an endpoint, and to which port of this machine.
#[derive(Debug)]
pub struct ProbeRequest {
    pub port: u16,
    pub text: String,
}

/// The body of a probe.
pub open spec fn probe_body(mcp: bool) -> Seq<char> {
    if mcp {
        "{\"jsonrpc\":\"2.0\",\"id\":1,\"method\":\"initialize\",\"params\":{\"protocolVersion\":\"2025-03-26\",\"capabilities\":{},\"clientInfo\":{\"name\":\"luna-mux-doctor\",\"version\":\"1\"}}}"@
    } else {
        "{\"hook_event_name\":\"__luna_mux_diagnostic__\"}"@
    }
}

/// The header that marks a probe of the hook.
pub open spec fn probe_header(mcp: bool) -> Seq<char> {
    if mcp {
        ""@
    } else {
        "X-Luna-Mux-Diagnostic: 1\r\n"@
    }
}

/// The text of a probe.
pub open spec fn probe_text(
    host: Seq<char>,
    port: u16,
    path: Seq<char>,
    token: Seq<char>,
    mcp: bool,
) -> Seq<char> {
    "POST "@ + (if path.len() == 0 {
        "/"@
    } else {
        path
    }) + " HTTP/1.1\r\nHost: "@ + host + ":"@ + decimal(port as nat)
        + "\r\nAuthorization: Bearer "@ + token + "\r\n"@ + probe_header(mcp)
        + "Content-Type: application/json\r\nAccept: application/json, text/event-stream\r\nContent-Length: "@
        + decimal(encode_utf8(probe_body(mcp)).len()) + "\r\nConnection: close\r\n\r\n"@
        + probe_body(mcp)
}

/// What is sent for a probe of an address that was read, or why nothing is sent: only this machine
/// is probed.
pub open spec fn probe_plan(
    parsed: Result<UrlView, Seq<char>>,
    token: Seq<char>,
    mcp: bool,
) -> Result<(u16, Seq<char>), FailureView> {
    match parsed {
        Err(message) => Err(FailureView { code: "endpoint_invalid"@, detail: message }),
        Ok(url) => match url.host {
            None => Err(FailureView { code: "endpoint_invalid"@, detail: "missing host"@ }),
            Some(host) => if host != "127.0.0.1"@ && host != "localhost"@ {
                Err(
                    FailureView {
                        code: "endpoint_unexpected_host"@,
                        detail: "unexpected host "@ + host,
                    },
                )
            } else {
                match url.port {
                    None => Err(
                        FailureView { code: "endpoint_invalid"@, detail: "missing port"@ },
                    ),
                    Some(port) => Ok((port, probe_text(host, port, url.path, token, mcp))),
                }
            },
        },
    }
}

/// The request or the failure is the one that was decided on.
pub open spec fn sends(
    request: Result<ProbeRequest, ProbeFailure>,
    plan: Result<(u16, Seq<char>), FailureView>,
) -> bool {
    match plan {
        Ok((port, text)) => request is Ok && request->Ok_0.port == port && request->Ok_0.text@
            == text,
        Err(failure) => request is Err && request->Err_0@ == failure,
    }
}

fn write_probe(host: &str, port: u16, path: &str, token: &str, mcp: bool) -> (r: String)
    ensures
        r@ == probe_text(host@, port, path@, token@, mcp),
{
    let body = if mcp {
        "{\"jsonrpc\":\"2.0\",\"id\":1,\"method\":\"initialize\",\"params\":{\"protocolVersion\":\"2025-03-26\",\"capabilities\":{},\"clientInfo\":{\"name\":\"luna-mux-doctor\",\"version\":\"1\"}}}"
    } else {
        "{\"hook_event_name\":\"__luna_mux_diagnostic__\"}"
    };
    let mut text: String = "POST ".to_owned();
    if to_chars(path).len() == 0 {
        text.append("/");
    } else {
        text.append(path);
    }
    text.append(" HTTP/1.1\r\nHost: ");
    text.append(host);
    text.append(":");
    text.append(decimal_text(port as u64).as_str());
    text.append("\r\nAuthorization: Bearer ");
    text.append(token);
    text.append("\r\n");
    if mcp {
        text.append("");
    } else {
        text.append("X-Luna-Mux-Diagnostic: 1\r\n");
    }
    text.append(
        "Content-Type: application/json\r\nAccept: application/json, text/event-stream\r\nContent-Length: ",
    );
    text.append(decimal_text(body.as_bytes().len() as u64).as_str());
    text.append("\r\nConnection: close\r\n\r\n");
    text.append(body);
    text
}

/// What is sent for a probe of an address that was read.
pub fn plan_probe(parsed: Result<UrlParts, String>, token: &str, mcp: bool) -> (r: Result<
    ProbeRequest,
    ProbeFailure,
>)
    ensures
        sends(r, probe_plan(url_view(parsed), token@, mcp)),
{
    let url = match parsed {
        Ok(url) => url,
        Err(message) => {
            return Err(ProbeFailure { code: "endpoint_invalid", detail: message });
        },
    };
    let host = match &url.host {
        Some(host) => host,
        None => {
            return Err(failure("endpoint_invalid", "missing host"));
        },
    };
    if !same(host.as_str(), "127.0.0.1") && !same(host.as_str(), "localhost") {
        let mut detail: String = "unexpected host ".to_owned();
        detail.append(host.as_str());
        return Err(ProbeFailure { code: "endpoint_unexpected_host", detail });
    }
    match url.port {
        None => Err(failure("endpoint_invalid", "missing port")),
        Some(port) => Ok(
            ProbeRequest {
                port,
                text: write_probe(host.as_str(), port, url.path.as_str(), token, mcp),
            },
        ),
    }
}

/// What is sent for a probe of an endpoint.
pub fn probe_request(endpoint: &str, token: &str, mcp: bool) -> (r: Result<
    ProbeRequest,
    ProbeFailure,
>)
    ensures
        sends(r, probe_plan(parsed_url(endpoint@), token@, mcp)),
{
    plan_probe(parse_url(endpoint), token, mcp)
}

/// Enough of an answer was read: it is long, or its head is complete and a body has closed.
pub open spec fn is_enough(response: Seq<u8>) -> bool {
    response.len() >= 32768 || (response.contains(125) && exists|i: int|
        0 <= i && i + 4 <= response.len() && #[trigger] response[i] == 13 && response[i + 1] == 10
            && response[i + 2] == 13 && response[i + 3] == 10)
}

/// Whether enough of an answer was read.
pub fn response_complete(response: &[u8]) -> (r: bool)
    ensures
        r == is_enough(response@),
{
    if response.len() >= 32768 {
        return true;
    }
    let mut closed: bool = false;
    let mut i: usize = 0;
    while i < response.len()
        invariant
            i <= response@.len(),
            closed == response@.take(i as int).contains(125),
        decreases response@.len() - i,
    {
        proof {
            let before = response@.take(i as int);
            let now = response@.take(i + 1);
            assert(now =~= before.push(response@[i as int]));
            if before.contains(125) {
                let k = choose|k: int| 0 <= k < before.len() && before[k] == 125;
                assert(now[k] == 125);
            }
            if now.contains(125) && response@[i as int] != 125 {
                let k = choose|k: int| 0 <= k < now.len() && now[k] == 125;
                assert(before[k] == 125);
            }
            assert(now[i as int] == response@[i as int]);
        }
        if response[i] == 125 {
            closed = true;
        }
        i = i + 1;
    }
    assert(response@.take(i as int) =~= response@);
    if !closed {
        return false;
    }
    let mut j: usize = 0;
    while j < response.len()
        invariant
            j <= response@.len(),
            response@.len() < 32768,
            response@.contains(125),
            forall|k: int|
                0 <= k < j && k + 4 <= response@.len() ==> !(#[trigger] response@[k] == 13
                    && response@[k + 1] == 10 && response@[k + 2] == 13 && response@[k + 3] == 10),
        decreases response@.len() - j,
    {
        if response.len() - j >= 4 && response[j] == 13 && response[j + 1] == 10 && response[j + 2]
            == 13 && response[j + 3] == 10 {
            assert(response@[j as int] == 13);
            return true;
        }
        j = j + 1;
    }
    false
}

/// What came back from an endpoint.
#[derive(Debug)]
pub enum HttpAnswer {
    Unreachable(String),
    WriteFailed(String),
    ReadFailed(String),
    Response(Vec<u8>),
}

/// The second word of the first line as a status; zero where there is none.
pub open spec fn http_status(text: Seq<char>) -> nat {
    let first = if lines(text).len() > 0 {
        lines(text)[0]
    } else {
        Seq::empty()
    };
    if words(first).len() > 1 {
        match parse_unsigned(words(first)[1], 65535) {
            Some(n) => n,
            None => 0,
        }
    } else {
        0
    }
}

fn read_status(text: &str) -> (r: u64)
    ensures
        r == http_status(text@),
        r <= 65535,
{
    let all = split_lines(text);
    assert(views(all@).len() == all@.len());
    if all.len() == 0 {
        assert(words(Seq::empty()).len() == 0);
        return 0;
    }
    let first = split_words(all[0].as_str());
    assert(views(first@).len() == first@.len());
    assert(lines(text@)[0] == all@[0]@);
    if first.len() > 1 {
        assert(words(lines(text@)[0])[1] == first@[1]@);
        match parse_u64(first[1].as_str()) {
            Some(n) => if n <= 65535 {
                n
            } else {
                0
            },
            None => 0,
        }
    } else {
        0
    }
}

/// The code for a status that is no success.
pub open spec fn status_code(status: nat) -> Seq<char> {
    if status == 401 || status == 403 {
        "endpoint_unauthorized"@
    } else if status == 404 {
        "endpoint_not_found"@
    } else if status == 405 {
        "endpoint_method_rejected"@
    } else if status == 0 {
        "endpoint_no_http_response"@
    } else {
        "endpoint_http_error"@
    }
}

/// What the text of an answer tells.
pub open spec fn text_verdict(text: Seq<char>, mcp: bool) -> Result<Seq<char>, FailureView> {
    let status = http_status(text);
    if !(200 <= status < 300) {
        Err(FailureView { code: status_code(status), detail: "HTTP status "@ + decimal(status) })
    } else if mcp && !contains(text, "\"result\""@) {
        Err(
            FailureView {
                code: "mcp_initialize_failed"@,
                detail: "MCP initialize response did not contain a result"@,
            },
        )
    } else {
        Ok(
            "HTTP "@ + decimal(status) + "; "@ + (if mcp {
                "MCP initialize"@
            } else {
                "hook"@
            }) + " probe succeeded"@,
        )
    }
}

/// What an answer tells.
pub open spec fn answer_verdict(answer: HttpAnswer, mcp: bool) -> Result<Seq<char>, FailureView> {
    match answer {
        HttpAnswer::Unreachable(e) => Err(
            FailureView { code: "endpoint_tcp_unreachable"@, detail: e@ },
        ),
        HttpAnswer::WriteFailed(e) => Err(
            FailureView { code: "endpoint_write_failed"@, detail: e@ },
        ),
        HttpAnswer::ReadFailed(e) => Err(
            FailureView { code: "endpoint_read_failed"@, detail: e@ },
        ),
        HttpAnswer::Response(bytes) => text_verdict(lossy_utf8(bytes@), mcp),
    }
}

/// The outcome is the one that was decided on.
pub open spec fn outcome_is(
    outcome: Result<String, ProbeFailure>,
    decided: Result<Seq<char>, FailureView>,
) -> bool {
    match decided {
        Ok(detail) => outcome is Ok && outcome->Ok_0@ == detail,
        Err(failure) => outcome is Err && outcome->Err_0@ == failure,
    }
}

/// What the text of an answer tells.
pub fn judge_text(text: &str, mcp: bool) -> (r: Result<String, ProbeFailure>)
    ensures
        outcome_is(r, text_verdict(text@, mcp)),
{
    let status: u64 = read_status(text);
    if status < 200 || status >= 300 {
        let code = if status == 401 || status == 403 {
            "endpoint_unauthorized"
        } else if status == 404 {
            "endpoint_not_found"
        } else if status == 405 {
            "endpoint_method_rejected"
        } else if status == 0 {
            "endpoint_no_http_response"
        } else {
            "endpoint_http_error"
        };
        let mut detail: String = "HTTP status ".to_owned();
        detail.append(decimal_text(status).as_str());
        return Err(ProbeFailure { code, detail });
    }
    if mcp && !has_part(text, "\"result\"") {
        return Err(
            failure(
                "mcp_initialize_failed",
                "MCP initialize response did not contain a result",
            ),
        );
    }
    let mut detail: String = "HTTP ".to_owned();
    detail.append(decimal_text(status).as_str());
    detail.append("; ");
    if mcp {
        detail.append("MCP initialize");
    } else {
        detail.append("hook");
    }
    detail.append(" probe succeeded");
    Ok(detail)
}

/// What an answer tells.
pub fn judge_answer(answer: &HttpAnswer, mcp: bool) -> (r: Result<String, ProbeFailure>)
    ensures
        outcome_is(r, answer_verdict(*answer, mcp)),
{
    match answer {
        HttpAnswer::Unreachable(e) => Err(failure("endpoint_tcp_unreachable", e.as_str())),
        HttpAnswer::WriteFailed(e) => Err(failure("endpoint_write_failed", e.as_str())),
        HttpAnswer::ReadFailed(e) => Err(failure("endpoint_read_failed", e.as_str())),
        HttpAnswer::Response(bytes) => {
            let text = lossy_text(bytes.as_slice());
            judge_text(text.as_str(), mcp)
        },
    }
}

/// A text that is given and not blank.
pub open spec fn given(text: Option<Seq<char>>) -> Option<Seq<char>> {
    match text {
        Some(s) => if trim(s).len() > 0 {
            Some(s)
        } else {
            None
        },
        None => None,
    }
}

fn given_text<'a>(text: Option<&'a str>) -> (r: Option<&'a str>)
    ensures
        opt_str(r) == given(opt_str(text)),
{
    match text {
        Some(s) => if is_blank(s) {
            None
        } else {
            Some(s)
        },
        None => None,
    }
}

/// A check that found something missing.
pub open spec fn missing_check(
    name: Seq<char>,
    phase: Seq<char>,
    detail: Seq<char>,
    code: Seq<char>,
) -> CheckView {
    CheckView {
        name,
        status: "error"@,
        detail,
        code: Some(code),
        phase: Some(phase),
        evidence: Seq::empty(),
        repairable: true,
    }
}

/// The code for an endpoint that is missing.
pub open spec fn endpoint_code(mcp: bool) -> Seq<char> {
    if mcp {
        "luna_mcp_endpoint_missing"@
    } else {
        "hook_endpoint_missing"@
    }
}

/// The code for a token that is missing.
pub open spec fn token_code(mcp: bool) -> Seq<char> {
    if mcp {
        "luna_mcp_authorization_missing"@
    } else {
        "hook_authorization_missing"@
    }
}

/// The check of a probe with this outcome.
pub open spec fn outcome_check(
    name: Seq<char>,
    phase: Seq<char>,
    outcome: Result<Seq<char>, FailureView>,
) -> CheckView {
    match outcome {
        Ok(detail) => CheckView {
            name,
            status: "ok"@,
            detail,
            code: None,
            phase: Some(phase),
            evidence: seq![
                EvidenceView { kind: "http"@, detail: "authenticated probe succeeded"@ },
            ],
            repairable: false,
        },
        Err(failure) => missing_check(name, phase, failure.detail, failure.code),
    }
}

/// The check of an endpoint, given what was read of its address and what came back from it.
pub open spec fn endpoint_check(
    name: Seq<char>,
    phase: Seq<char>,
    endpoint: Option<Seq<char>>,
    token: Option<Seq<char>>,
    mcp: bool,
    answer: HttpAnswer,
) -> CheckView {
    match (given(endpoint), given(token)) {
        (None, _) => missing_check(name, phase, "endpoint is missing"@, endpoint_code(mcp)),
        (Some(_), None) => missing_check(
            name,
            phase,
            "authorization token is missing"@,
            token_code(mcp),
        ),
        (Some(address), Some(secret)) => outcome_check(
            name,
            phase,
            match probe_plan(parsed_url(address), secret, mcp) {
                Ok(_) => answer_verdict(answer, mcp),
                Err(failure) => Err(failure),
            },
        ),
    }
}

fn failed_check(name: &str, phase: &str, detail: String, code: &str) -> (r: DoctorRuntimeCheck)
    ensures
        r@ == missing_check(name@, phase@, detail@, code@),
{
    let r = DoctorRuntimeCheck {
        name: name.to_owned(),
        status: "error".to_owned(),
        detail,
        code: Some(code.to_owned()),
        phase: Some(phase.to_owned()),
        evidence: Vec::new(),
        repairable: true,
    };
    assert(r@.evidence =~= Seq::<EvidenceView>::empty());
    r
}

fn check_of_outcome(name: &str, phase: &str, outcome: Result<String, ProbeFailure>) -> (r:
    DoctorRuntimeCheck)
    ensures
        forall|decided: Result<Seq<char>, FailureView>| #[trigger]
            outcome_is(outcome, decided) ==> r@ == outcome_check(name@, phase@, decided),
{
    match outcome {
        Ok(detail) => {
            let mut evidence: Vec<DoctorEvidence> = Vec::new();
            evidence.push(
                DoctorEvidence {
                    kind: "http".to_owned(),
                    detail: "authenticated probe succeeded".to_owned(),
                },
            );
            let r = DoctorRuntimeCheck {
                name: name.to_owned(),
                status: "ok".to_owned(),
                detail,
                code: None,
                phase: Some(phase.to_owned()),
                evidence,
                repairable: false,
            };
            assert(r@.evidence =~= seq![
                EvidenceView { kind: "http"@, detail: "authenticated probe succeeded"@ },
            ]);
            r
        },
        Err(failure) => failed_check(name, phase, failure.detail, failure.code),
    }
}

/// Whether an endpoint is probed at all, and with which request.
pub fn runtime_probe(endpoint: Option<&str>, token: Option<&str>, mcp: bool) -> (r: Option<
    ProbeRequest,
>)
    ensures
        match (given(opt_str(endpoint)), given(opt_str(token))) {
            (Some(address), Some(secret)) => match probe_plan(parsed_url(address), secret, mcp) {
                Ok((port, text)) => r is Some && r->0.port == port && r->0.text@ == text,
                Err(_) => r is None,
            },
            _ => r is None,
        },
{
    match (given_text(endpoint), given_text(token)) {
        (Some(address), Some(secret)) => match probe_request(address, secret, mcp) {
            Ok(request) => Some(request),
            Err(_) => None,
        },
        _ => None,
    }
}

/// The check of an endpoint, given what came back from it.
pub fn probe_runtime_endpoint(
    name: &str,
    phase: &str,
    endpoint: Option<&str>,
    token: Option<&str>,
    mcp: bool,
    answer: &HttpAnswer,
) -> (r: DoctorRuntimeCheck)
    ensures
        r@ == endpoint_check(name@, phase@, opt_str(endpoint), opt_str(token), mcp, *answer),
{
    let address = match given_text(endpoint) {
        Some(address) => address,
        None => {
            let code = if mcp {
                "luna_mcp_endpoint_missing"
            } else {
                "hook_endpoint_missing"
            };
            return failed_check(name, phase, "endpoint is missing".to_owned(), code);
        },
    };
    let secret = match given_text(token) {
        Some(secret) => secret,
        None => {
            let code = if mcp {
                "luna_mcp_authorization_missing"
            } else {
                "hook_authorization_missing"
            };
            return failed_check(name, phase, "authorization token is missing".to_owned(), code);
        },
    };
    match probe_request(address, secret, mcp) {
        Ok(_) => {
            let outcome = judge_answer(answer, mcp);
            assert(outcome_is(outcome, answer_verdict(*answer, mcp)));
            check_of_outcome(name, phase, outcome)
        },
        Err(failure) => {
            let ghost seen = failure@;
            let outcome: Result<String, ProbeFailure> = Err(failure);
            assert(outcome_is(outcome, Err(seen)));
            check_of_outcome(name, phase, outcome)
        },
    }
}

/// Only this machine is ever probed.
pub proof fn law_probes_stay_on_this_machine(
    parsed: Result<UrlView, Seq<char>>,
    token: Seq<char>,
    mcp: bool,
)
    requires
        probe_plan(parsed, token, mcp) is Ok,
    ensures
        parsed is Ok,
        parsed->Ok_0.host == Some("127.0.0.1"@) || parsed->Ok_0.host == Some("localhost"@),
{
}

/// The token decides nothing that a check shows but whether it is there: two tokens that are both
/// given, or both missing or blank, lead to the same check.
pub proof fn law_checks_do_not_show_the_token(
    name: Seq<char>,
    phase: Seq<char>,
    endpoint: Option<Seq<char>>,
    token: Option<Seq<char>>,
    other: Option<Seq<char>>,
    mcp: bool,
    answer: HttpAnswer,
)
    requires
        given(token) is Some == given(other) is Some,
    ensures
        endpoint_check(name, phase, endpoint, token, mcp, answer) == endpoint_check(
            name,
            phase,
            endpoint,
            other,
            mcp,
            answer,
        ),
{
}

/// Every endpoint on this machine with a port is asked, at that port.
pub proof fn law_local_endpoints_are_asked(url: UrlView, token: Seq<char>, mcp: bool)
    ensures
        (url.host == Some("127.0.0.1"@) || url.host == Some("localhost"@)) && url.port is Some
            ==> probe_plan(Ok(url), token, mcp) is Ok && probe_plan(Ok(url), token, mcp)->Ok_0.0
            == url.port->0,
        url.host is None || url.port is None ==> probe_plan(Ok(url), token, mcp) is Err,
        url.host is Some && url.host != Some("127.0.0.1"@) && url.host != Some("localhost"@)
            ==> probe_plan(Ok(url), token, mcp)->Err_0.code == "endpoint_unexpected_host"@,
{
}

/// What is asked is a request with the token, for the path that was given or else for the root, and
/// it ends in the question itself; its length is told right. A hook is told that this is a test.
pub proof fn law_questions_are_complete(
    host: Seq<char>,
    port: u16,
    path: Seq<char>,
    token: Seq<char>,
    mcp: bool,
)
    ensures
        ({
            let text = probe_text(host, port, path, token, mcp);
            let body = probe_body(mcp);
            let asked = if path.len() == 0 {
                "/"@
            } else {
                path
            };
            let first = "POST "@ + asked + " HTTP/1.1\r\nHost: "@ + host + ":"@ + decimal(
                port as nat,
            ) + "\r\nAuthorization: Bearer "@ + token + "\r\n"@;
            let length = "Content-Length: "@ + decimal(encode_utf8(body).len())
                + "\r\nConnection: close\r\n\r\n"@ + body;
            &&& text.len() >= first.len() && text.take(first.len() as int) == first
            &&& text.len() >= length.len() && text.skip(text.len() - length.len()) == length
            &&& !mcp ==> contains(text, "X-Luna-Mux-Diagnostic: 1\r\n"@)
        }),
{
    let text = probe_text(host, port, path, token, mcp);
    let body = probe_body(mcp);
    let asked = if path.len() == 0 {
        "/"@
    } else {
        path
    };
    let first = "POST "@ + asked + " HTTP/1.1\r\nHost: "@ + host + ":"@ + decimal(port as nat)
        + "\r\nAuthorization: Bearer "@ + token + "\r\n"@;
    let middle = probe_header(mcp)
        + "Content-Type: application/json\r\nAccept: application/json, text/event-stream\r\n"@;
    let length = "Content-Length: "@ + decimal(encode_utf8(body).len())
        + "\r\nConnection: close\r\n\r\n"@ + body;
    reveal_strlit(
        "Content-Type: application/json\r\nAccept: application/json, text/event-stream\r\nContent-Length: ",
    );
    reveal_strlit(
        "Content-Type: application/json\r\nAccept: application/json, text/event-stream\r\n",
    );
    reveal_strlit("Content-Length: ");
    assert("Content-Type: application/json\r\nAccept: application/json, text/event-stream\r\nContent-Length: "@
        =~= "Content-Type: application/json\r\nAccept: application/json, text/event-stream\r\n"@
        + "Content-Length: "@);
    assert(text =~= first + middle + length);
    assert(text.take(first.len() as int) =~= first);
    assert(text.skip(text.len() - length.len()) =~= length);
    if !mcp {
        let header = "X-Luna-Mux-Diagnostic: 1\r\n"@;
        let at = first.len() as int;
        assert(text.subrange(at, at + header.len()) =~= header);
        assert(occurs_at(text, header, at));
    }
}

/// An answer is good exactly where its status is one of success and, where a server was to be
/// initialized, a result came; what went wrong is told by the status.
pub proof fn law_answers_are_good_with_a_result(text: Seq<char>, mcp: bool)
    ensures
        ({
            let status = http_status(text);
            let verdict = text_verdict(text, mcp);
            let success = 200 <= status <= 299;
            &&& verdict is Ok <==> success && (mcp ==> contains(text, "\"result\""@))
            &&& success && verdict is Err ==> verdict->Err_0.code == "mcp_initialize_failed"@
            &&& status == 401 || status == 403 ==> verdict->Err_0.code == "endpoint_unauthorized"@
            &&& status == 404 ==> verdict->Err_0.code == "endpoint_not_found"@
            &&& status == 405 ==> verdict->Err_0.code == "endpoint_method_rejected"@
            &&& status == 0 ==> verdict->Err_0.code == "endpoint_no_http_response"@
            &&& !success && status != 401 && status != 403 && status != 404 && status != 405
                && status != 0 ==> verdict->Err_0.code == "endpoint_http_error"@
        }),
{
}

/// An endpoint is well exactly where its address and its token are given, the address is one that
/// may be asked, and the answer is good. Everything else is an error that can be repaired.
pub proof fn law_endpoints_are_well_with_a_good_answer(
    name: Seq<char>,
    phase: Seq<char>,
    endpoint: Option<Seq<char>>,
    token: Option<Seq<char>>,
    mcp: bool,
    answer: HttpAnswer,
)
    ensures
        ({
            let check = endpoint_check(name, phase, endpoint, token, mcp, answer);
            let address = endpoint is Some && trim(endpoint->0).len() > 0;
            let secret = token is Some && trim(token->0).len() > 0;
            let well = address && secret && probe_plan(parsed_url(endpoint->0), token->0, mcp) is Ok
                && answer_verdict(answer, mcp) is Ok;
            &&& check.name == name && check.phase == Some(phase)
            &&& well ==> check.status == "ok"@ && check.code is None && !check.repairable
            &&& !well ==> check.status == "error"@ && check.code is Some && check.repairable
            &&& !address ==> check.code == Some(
                if mcp {
                    "luna_mcp_endpoint_missing"@
                } else {
                    "hook_endpoint_missing"@
                },
            )
            &&& address && !secret ==> check.code == Some(
                if mcp {
                    "luna_mcp_authorization_missing"@
                } else {
                    "hook_authorization_missing"@
                },
            )
        }),
{
}

/// What kept an answer from coming is told by where it failed.
pub proof fn law_failures_tell_where_they_happened(message: String, mcp: bool)
    ensures
        answer_verdict(HttpAnswer::Unreachable(message), mcp) == Err::<Seq<char>, FailureView>(
            FailureView { code: "endpoint_tcp_unreachable"@, detail: message@ },
        ),
        answer_verdict(HttpAnswer::WriteFailed(message), mcp) == Err::<Seq<char>, FailureView>(
            FailureView { code: "endpoint_write_failed"@, detail: message@ },
        ),
        answer_verdict(HttpAnswer::ReadFailed(message), mcp) == Err::<Seq<char>, FailureView>(
            FailureView { code: "endpoint_read_failed"@, detail: message@ },
        ),
{
}

/// A response is read on until its head is closed and its body holds a closing brace, or until it is
/// too long.
pub proof fn law_responses_are_read_to_their_end(response: Seq<u8>, at: int)
    ensures
        response.len() >= 32768 ==> is_enough(response),
        0 <= at && at + 4 <= response.len() && response[at] == 13 && response[at + 1] == 10
            && response[at + 2] == 13 && response[at + 3] == 10 && response.contains(125)
            ==> is_enough(response),
        response.len() < 32768 && !response.contains(125) ==> !is_enough(response),
        response.len() < 32768 && (forall|i: int|
            0 <= i && i + 4 <= response.len() ==> !(#[trigger] response[i] == 13 && response[i + 1]
                == 10 && response[i + 2] == 13 && response[i + 3] == 10)) ==> !is_enough(response),
{
}

} // verus!
