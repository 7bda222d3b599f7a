use luna_mux::doctor::{
    agent_check_request, agent_check_status, is_wsl_interop_probe, run, run_report,
    run_report_with_agents, run_report_with_runtime_inputs, runtime_report, HostObservation,
    LocalAgents, RuntimeAnswers, INTEROP_ANSWER,
};
use luna_mux::doctor_checks::{DoctorManagedAgent, DoctorRuntimeInput};
use luna_mux::doctor_environment::{
    check_runtime_environment_files, endpoint_port, environment_endpoints,
    inspect_environment_file, parse_environment_file, EnvironmentFile,
};
use luna_mux::doctor_log::{redact_log_line, remote_log_check};
use luna_mux::doctor_probe::{
    judge_text, probe_request, probe_runtime_endpoint, response_complete, HttpAnswer,
};
use luna_mux::doctor_wsl::{
    check_wsl_distributions, check_wsl_interop_executable, normalize_wsl_detail,
    parse_wsl_distributions, windows_executable_wsl_path, wsl_failure_detail, wsl_probe_error,
    InteropProbe, WslList,
};

fn utf16le(value: &str) -> Vec<u8> {
    value.encode_utf16().flat_map(u16::to_le_bytes).collect()
}

fn agent(id: &str) -> DoctorManagedAgent {
    DoctorManagedAgent {
        agent_id: id.to_string(),
        adapter: "codex".to_string(),
        runtime_id: "runtime-1".to_string(),
        pane_id: "pane-1".to_string(),
        pane_title: "My Pane".to_string(),
        mux_session_id: "session-1".to_string(),
        session_name: "My Session".to_string(),
        status: "Working".to_string(),
        last_activity: None,
    }
}

fn host() -> HostObservation {
    HostObservation {
        executable: Ok("/usr/bin/luna-mux".to_string()),
        local_agents: Vec::new(),
        environment_files: None,
        platform_checks: Vec::new(),
    }
}

fn runtime_input(runtime_id: &str, target_id: &str, title: &str, status: &str) -> DoctorRuntimeInput {
    DoctorRuntimeInput {
        runtime_id: runtime_id.to_string(),
        target_id: target_id.to_string(),
        title: title.to_string(),
        status: status.to_string(),
        pane_id: None,
        pane_title: None,
        mux_session_id: None,
        hook_endpoint: None,
        hook_token: None,
        mcp_endpoint: None,
        mcp_token: None,
        remote_helper_exists: None,
        remote_helper_log: None,
        remote_bridge_log: None,
        integration_enabled: false,
        browser_runtime: None,
    }
}

fn silent() -> RuntimeAnswers {
    RuntimeAnswers {
        mcp: HttpAnswer::Unreachable("connection refused".to_string()),
        hook: HttpAnswer::Unreachable("connection refused".to_string()),
    }
}

#[test]
fn decodes_utf16_wsl_install_guidance() {
    let message =
        "适用于 Linux 的 Windows 子系统未安装。请运行 wsl.exe --install\r\r\n有关详细信息";
    assert_eq!(
        wsl_failure_detail(&utf16le(message), &[]),
        "适用于 Linux 的 Windows 子系统未安装。请运行 wsl.exe --install\n有关详细信息"
    );
}

#[test]
fn parses_utf16_wsl_distributions_by_line() {
    assert_eq!(
        parse_wsl_distributions(&utf16le("Ubuntu\r\nDebian\r\n"), None),
        ["Ubuntu", "Debian"]
    );
}

#[test]
fn active_managed_agents_suppress_missing_env_file_warning() {
    let agents = vec![agent("agent-1")];
    let checks = run(None, &agents, &host());
    let runtime_env = checks
        .iter()
        .find(|check| check.name == "runtime_env_files")
        .unwrap();
    assert_eq!(runtime_env.status, "ok");
    let managed = checks
        .iter()
        .find(|check| check.name == "managed_agents")
        .unwrap();
    assert_eq!(managed.status, "ok");
    assert!(managed.detail.contains("agent-1"));
}

#[test]
fn environment_parser_accepts_posix_and_powershell_forms() {
    let values = parse_environment_file(
        "export LUNA_MUX_HOOK_ENDPOINT='http://127.0.0.1:43127/v1/hooks'\n$env:LUNA_MUX_MCP_AUTHORIZATION = 'secret'\n",
    );
    assert_eq!(
        values.get("LUNA_MUX_HOOK_ENDPOINT").map(String::as_str),
        Some("http://127.0.0.1:43127/v1/hooks")
    );
    assert_eq!(
        values.get("LUNA_MUX_MCP_AUTHORIZATION").map(String::as_str),
        Some("secret")
    );
}

#[test]
fn runtime_report_exposes_actionable_endpoint_codes_without_secrets() {
    let mut input = runtime_input("runtime-1", "local:shell", "Shell", "Running");
    input.mcp_endpoint = Some("http://127.0.0.1:1/mcp".to_string());
    input.mcp_token = Some("secret-token".to_string());
    input.integration_enabled = true;
    let report = runtime_report(&input, &silent());
    let hook = report
        .checks
        .iter()
        .find(|check| check.name == "hook")
        .unwrap();
    assert_eq!(hook.code.as_deref(), Some("hook_endpoint_missing"));
    let encoded = format!("{report:?}");
    assert!(!encoded.contains("secret-token"));
}

#[test]
fn secrets_in_logs_do_not_reach_the_report() {
    let mut input = runtime_input("runtime-1", "local:shell", "Shell", "Running");
    input.hook_token = Some("secret-token".to_string());
    input.remote_helper_log = Some("Authorization: Bearer secret-token".to_string());
    let report = runtime_report(&input, &silent());
    let log = report
        .checks
        .iter()
        .find(|check| check.name == "remote_helper_log")
        .unwrap();
    assert_eq!(log.evidence[0].detail, "Authorization: <redacted> <redacted>");
    assert!(!format!("{report:?}").contains("secret-token"));
}

#[test]
fn exited_runtime_is_not_reported_as_an_active_terminal() {
    let mut input = runtime_input(
        "runtime-exited",
        "local:powershell",
        "PowerShell 7",
        "Exited",
    );
    input.browser_runtime = Some("Running cdp=51860".to_string());
    input.integration_enabled = true;
    let report = run_report_with_runtime_inputs(None, &[], &[input], &[silent()], &host());

    assert!(report.ok);
    assert!(report.runtimes.is_empty());
}

#[test]
fn exited_runtime_report_does_not_attach_browser_status() {
    let mut input = runtime_input(
        "runtime-exited",
        "local:powershell",
        "PowerShell 7",
        "Exited",
    );
    input.browser_runtime = Some("Running cdp=51860".to_string());
    let report = runtime_report(&input, &silent());

    assert!(report
        .checks
        .iter()
        .all(|check| check.name != "agent_browser"));
}

#[test]
fn remote_log_classification_distinguishes_transport_and_bridge_auth() {
    assert_eq!(
        remote_log_check(
            "remote_helper_log",
            "start mode=hook\nhook no_transport_succeeded"
        )
        .code
        .as_deref(),
        Some("remote_helper_transport_failed")
    );
    assert_eq!(
        remote_log_check(
            "browser_bridge",
            "remote forward bridge failed: authentication failed"
        )
        .code
        .as_deref(),
        Some("browser_authentication_failed")
    );
    assert_eq!(
        remote_log_check("remote_helper_log", "browser transport=socat port=1234").status,
        "ok"
    );
}

#[test]
fn tokens_are_cut_out_of_log_lines() {
    assert_eq!(
        redact_log_line("token=lmxh_abc,next lmxb_1 lmxbm_2;end"),
        "token=<redacted>,next <redacted> <redacted>;end"
    );
    assert_eq!(redact_log_line("plain line"), "plain line");
    assert_eq!(
        redact_log_line("Authorization: Bearer abc"),
        "Authorization: <redacted> <redacted>"
    );
    assert_eq!(redact_log_line("Bearer lmxh_abc"), "<redacted> <redacted>");
    assert_eq!(redact_log_line("x Bearer  \t"), "x <redacted>  \t");
    assert_eq!(
        redact_log_line("sent \"Bearer secret-token\", then lmxh_a;Bearer  'quoted' end"),
        "sent \"<redacted> <redacted>\", then <redacted>;<redacted>  '<redacted>' end"
    );
    assert_eq!(
        redact_log_line("Bearer Bearer secret"),
        "<redacted> <redacted> <redacted>"
    );
    assert_eq!(
        redact_log_line("lmxh_xBearer secret tail"),
        "<redacted> <redacted> tail"
    );
}

#[test]
fn log_tails_hold_the_last_eight_lines() {
    let log = "1\n2\n3\n4\n5\n6\n7\n8\n9\nlmxh_x";
    let check = remote_log_check("remote_helper_log", log);
    assert_eq!(check.status, "warn");
    assert_eq!(
        check.code.as_deref(),
        Some("remote_helper_no_recent_success")
    );
    assert_eq!(check.phase.as_deref(), Some("remote_helper"));
    assert_eq!(check.evidence.len(), 1);
    assert_eq!(check.evidence[0].kind, "logTail");
    assert_eq!(check.evidence[0].detail, "3\n4\n5\n6\n7\n8\n9\n<redacted>");
    assert!(check.repairable);
}

#[test]
fn bridge_logs_tell_unconnected_and_broken_sidecars_apart() {
    let waiting = remote_log_check("browser_bridge", "Browser reverse forward registered");
    assert_eq!(
        waiting.code.as_deref(),
        Some("browser_reverse_forward_not_connected")
    );
    let broken = remote_log_check("browser_bridge", "agent-browser exited");
    assert_eq!(broken.code.as_deref(), Some("browser_sidecar_start_failed"));
    assert_eq!(broken.phase.as_deref(), Some("browser_bridge"));
    let connected = remote_log_check(
        "browser_bridge",
        "browser reverse forward registered\nconnection received",
    );
    assert_eq!(connected.status, "ok");
    assert_eq!(connected.code, None);
}

#[test]
fn probes_name_the_endpoint_and_carry_the_token() {
    let request = probe_request("http://127.0.0.1:43128/mcp", "token", true).unwrap();
    assert_eq!(request.port, 43128);
    let body = r#"{"jsonrpc":"2.0","id":1,"method":"initialize","params":{"protocolVersion":"2025-03-26","capabilities":{},"clientInfo":{"name":"luna-mux-doctor","version":"1"}}}"#;
    assert_eq!(
        request.text,
        format!(
            "POST /mcp HTTP/1.1\r\nHost: 127.0.0.1:43128\r\nAuthorization: Bearer token\r\nContent-Type: application/json\r\nAccept: application/json, text/event-stream\r\nContent-Length: {}\r\nConnection: close\r\n\r\n{body}",
            body.len()
        )
    );
    let hook = probe_request("http://localhost/v1/hooks", "token", false).unwrap();
    assert_eq!(hook.port, 80);
    assert!(hook.text.starts_with("POST /v1/hooks HTTP/1.1\r\nHost: localhost:80\r\n"));
    assert!(hook.text.contains("X-Luna-Mux-Diagnostic: 1\r\n"));
    assert!(hook
        .text
        .ends_with("\r\n\r\n{\"hook_event_name\":\"__luna_mux_diagnostic__\"}"));
}

#[test]
fn probes_stay_on_this_machine() {
    let refused = probe_request("http://example.com:80/mcp", "token", true).unwrap_err();
    assert_eq!(refused.code, "endpoint_unexpected_host");
    assert_eq!(refused.detail, "unexpected host example.com");
    let invalid = probe_request("not a url", "token", true).unwrap_err();
    assert_eq!(invalid.code, "endpoint_invalid");
    assert_eq!(invalid.detail, "relative URL without a base");
    let hostless = probe_request("data:text/plain,x", "token", true).unwrap_err();
    assert_eq!(hostless.detail, "missing host");
    let portless = probe_request("custom://localhost/mcp", "token", true).unwrap_err();
    assert_eq!(portless.code, "endpoint_invalid");
    assert_eq!(portless.detail, "missing port");
}

#[test]
fn answers_are_read_until_they_are_complete() {
    assert!(!response_complete(b"HTTP/1.1 200 OK\r\n\r\n"));
    assert!(!response_complete(b"{}"));
    assert!(response_complete(b"HTTP/1.1 200 OK\r\n\r\n{}"));
    assert!(response_complete(&vec![b'a'; 32 * 1024]));
    assert!(!response_complete(&vec![b'a'; 32 * 1024 - 1]));
}

#[test]
fn statuses_are_judged() {
    let code = |text: &str| judge_text(text, false).unwrap_err().code;
    assert_eq!(code("HTTP/1.1 401 Unauthorized\r\n"), "endpoint_unauthorized");
    assert_eq!(code("HTTP/1.1 403 Forbidden\r\n"), "endpoint_unauthorized");
    assert_eq!(code("HTTP/1.1 404 Not Found\r\n"), "endpoint_not_found");
    assert_eq!(code("HTTP/1.1 405 No\r\n"), "endpoint_method_rejected");
    assert_eq!(code("HTTP/1.1 500 Oops\r\n"), "endpoint_http_error");
    assert_eq!(code(""), "endpoint_no_http_response");
    assert_eq!(code("HTTP/1.1 99999\r\n"), "endpoint_no_http_response");
    assert_eq!(
        judge_text("HTTP/1.1 500 Oops\r\n", false).unwrap_err().detail,
        "HTTP status 500"
    );
    assert_eq!(
        judge_text("HTTP/1.1 204 No Content\r\n", false).unwrap(),
        "HTTP 204; hook probe succeeded"
    );
    assert_eq!(
        judge_text("HTTP/1.1 200 OK\r\n\r\n{}", true).unwrap_err().code,
        "mcp_initialize_failed"
    );
    assert_eq!(
        judge_text("HTTP/1.1 200 OK\r\n\r\n{\"result\":{}}", true).unwrap(),
        "HTTP 200; MCP initialize probe succeeded"
    );
}

#[test]
fn endpoints_are_checked_before_they_are_asked() {
    let check = |endpoint: Option<&str>, token: Option<&str>, answer: HttpAnswer| {
        probe_runtime_endpoint("luna_mcp", "luna_mcp", endpoint, token, true, &answer)
    };
    let nothing = HttpAnswer::Response(Vec::new());
    assert_eq!(
        check(Some("  "), Some("t"), nothing).code.as_deref(),
        Some("luna_mcp_endpoint_missing")
    );
    assert_eq!(
        check(
            Some("http://127.0.0.1:1/mcp"),
            Some(" "),
            HttpAnswer::Response(Vec::new())
        )
        .code
        .as_deref(),
        Some("luna_mcp_authorization_missing")
    );
    let refused = check(
        Some("http://127.0.0.1:1/mcp"),
        Some("t"),
        HttpAnswer::Unreachable("refused".to_string()),
    );
    assert_eq!(refused.code.as_deref(), Some("endpoint_tcp_unreachable"));
    assert_eq!(refused.detail, "refused");
    assert!(refused.repairable);
    let unwritten = check(
        Some("http://127.0.0.1:1/mcp"),
        Some("t"),
        HttpAnswer::WriteFailed("broken".to_string()),
    );
    assert_eq!(unwritten.code.as_deref(), Some("endpoint_write_failed"));
    let unread = check(
        Some("http://127.0.0.1:1/mcp"),
        Some("t"),
        HttpAnswer::ReadFailed("reset".to_string()),
    );
    assert_eq!(unread.code.as_deref(), Some("endpoint_read_failed"));
    let answered = check(
        Some("http://127.0.0.1:1/mcp"),
        Some("t"),
        HttpAnswer::Response(b"HTTP/1.1 200 OK\r\n\r\n{\"result\":1}\xff".to_vec()),
    );
    assert_eq!(answered.status, "ok");
    assert_eq!(answered.code, None);
    assert_eq!(answered.evidence[0].detail, "authenticated probe succeeded");
    assert!(!answered.repairable);
}

#[test]
fn the_last_assignment_of_a_name_counts() {
    let values = parse_environment_file("A=1\nnothing here\nexport A=\"2\"\n  B = 'x=y' \nA='\n");
    assert_eq!(values.get("A").map(String::as_str), Some("'"));
    assert_eq!(values.get("B").map(String::as_str), Some("x=y"));
    assert_eq!(values.get("nothing here"), None);
}

#[test]
fn endpoints_of_environment_files_are_local() {
    assert_eq!(endpoint_port("http://127.0.0.1:43127/v1/hooks"), Ok(43127));
    assert_eq!(endpoint_port("localhost:80"), Ok(80));
    assert_eq!(
        endpoint_port("http://example.com:80/"),
        Err("unexpected host example.com".to_string())
    );
    assert_eq!(
        endpoint_port("http://127.0.0.1/"),
        Err("invalid endpoint".to_string())
    );
    assert_eq!(
        endpoint_port("http://127.0.0.1:x/"),
        Err("invalid digit found in string".to_string())
    );
    assert_eq!(
        endpoint_port("http://127.0.0.1:65536/"),
        Err("number too large to fit in target type".to_string())
    );
}

#[test]
fn environment_files_are_summarised() {
    let values = parse_environment_file(
        "LUNA_MUX_HOOK_ENDPOINT=http://127.0.0.1:1/\nLUNA_MUX_HOOK_AUTHORIZATION=t\n",
    );
    let endpoints = environment_endpoints(&values);
    assert_eq!(endpoints.hook.as_deref(), Some("http://127.0.0.1:1/"));
    assert_eq!(endpoints.mcp, None);
    assert!(endpoints.tokens_missing);
    assert_eq!(
        inspect_environment_file(&endpoints, &Some(Err("refused".to_string())), &None),
        "hook_endpoint=refused,mcp_endpoint=missing,tokens=missing"
    );
    let complete = environment_endpoints(&parse_environment_file(
        "LUNA_MUX_HOOK_AUTHORIZATION=t\nLUNA_MUX_MCP_AUTHORIZATION=u\n",
    ));
    assert_eq!(
        inspect_environment_file(&complete, &Some(Ok(())), &Some(Ok(()))),
        "hook_endpoint=reachable,mcp_endpoint=reachable"
    );
}

#[test]
fn environment_files_are_reported() {
    let file = |runtime: &str, name: &str, inspection: Result<String, String>| EnvironmentFile {
        runtime_id: runtime.to_string(),
        file_name: name.to_string(),
        inspection,
    };
    let missing = check_runtime_environment_files(None, &[], &None);
    assert_eq!(missing.status, "warn");
    assert_eq!(missing.detail, "no luna-mux temp directory");
    let none_found = check_runtime_environment_files(None, &[agent("a")], &Some(Vec::new()));
    assert_eq!(none_found.status, "ok");
    let files = Some(vec![
        file("r1", "agent-env.sh", Ok("fine".to_string())),
        file("r2", "agent-env.ps1", Ok("good".to_string())),
    ]);
    let fine = check_runtime_environment_files(None, &[], &files);
    assert_eq!(fine.status, "ok");
    assert_eq!(fine.detail, "r1: fine | r2: good");
    let broken = Some(vec![
        file("r1", "agent-env.sh", Ok("fine".to_string())),
        file("r2", "agent-env.ps1", Err("denied".to_string())),
    ]);
    let failed = check_runtime_environment_files(None, &[], &broken);
    assert_eq!(failed.status, "error");
    assert_eq!(failed.detail, "r2/agent-env.ps1: denied");
    let filtered = check_runtime_environment_files(Some("r1"), &[], &broken);
    assert_eq!(filtered.status, "ok");
    assert_eq!(filtered.detail, "r1: fine");
}

#[test]
fn agents_found_on_this_machine_are_listed() {
    let mut observed = host();
    observed.local_agents = vec![
        LocalAgents {
            target_id: "local:shell".to_string(),
            found: vec![("codex".to_string(), "/bin/codex".to_string())],
            warning: None,
        },
        LocalAgents {
            target_id: "local:other".to_string(),
            found: Vec::new(),
            warning: Some("slow".to_string()),
        },
    ];
    let checks = run(None, &[], &observed);
    assert_eq!(checks.len(), 4);
    assert_eq!(checks[0].name, "executable");
    assert_eq!(checks[0].detail, "/usr/bin/luna-mux");
    assert_eq!(checks[1].status, "ok");
    assert_eq!(checks[1].detail, "codex[local:shell]=/bin/codex");
    observed.local_agents[0].found = Vec::new();
    let none = run(None, &[], &observed);
    assert_eq!(none[1].status, "warn");
    assert_eq!(
        none[1].detail,
        "no agent executables found; local:other: slow"
    );
    observed.local_agents = Vec::new();
    assert_eq!(
        run(None, &[], &observed)[1].detail,
        "no agent executables found in local terminal environments"
    );
}

#[test]
fn failed_agents_fail_the_report() {
    let mut broken = agent("agent-2");
    broken.status = "Error".to_string();
    broken.last_activity = Some("now".to_string());
    let report = run_report_with_agents(None, &[agent("agent-1"), broken], &host());
    assert!(!report.ok);
    assert_eq!(report.managed_agents.len(), 2);
    assert_eq!(
        report.checks[3].detail,
        "agent-2: adapter=codex, status=Error, runtime=runtime-1, pane=pane-1, pane_title=My Pane, session=session-1, session_name=My Session, last_activity=now"
    );
    assert_eq!(agent_check_status(&report), 1);
    let filtered = run_report_with_agents(Some("agent-1"), &[agent("agent-1")], &host());
    assert_eq!(filtered.managed_agents.len(), 1);
    assert!(filtered.ok);
    let plain = run_report(None, &host());
    assert_eq!(agent_check_status(&plain), 0);
    assert_eq!(plain.checks[3].detail, "no managed agent snapshots found");
}

#[test]
fn running_terminals_are_reported_with_their_browser() {
    let mut input = runtime_input("runtime-1", "ssh:1", "Shell", "running");
    input.pane_id = Some("pane-9".to_string());
    input.browser_runtime = Some("Error crashed".to_string());
    input.remote_helper_exists = Some(false);
    input.remote_bridge_log = Some("connection received".to_string());
    let report =
        run_report_with_runtime_inputs(Some("pane-9"), &[], &[input], &[silent()], &host());
    assert!(!report.ok);
    assert_eq!(report.runtimes.len(), 1);
    let checks = &report.runtimes[0].checks;
    let names: Vec<&str> = checks.iter().map(|check| check.name.as_str()).collect();
    assert_eq!(
        names,
        ["runtime", "agent_browser", "remote_helper", "browser_bridge"]
    );
    assert_eq!(checks[0].detail, "runtime is running");
    assert_eq!(checks[1].code.as_deref(), Some("browser_runtime_error"));
    assert_eq!(checks[2].code.as_deref(), Some("remote_helper_missing"));
    assert_eq!(checks[3].status, "ok");
}

#[test]
fn windows_paths_are_seen_from_wsl() {
    assert_eq!(
        windows_executable_wsl_path("C:\\Program Files\\Luna\\mux.exe").unwrap(),
        "/mnt/c/Program Files/Luna/mux.exe"
    );
    assert_eq!(windows_executable_wsl_path("d:/mux.exe").unwrap(), "/mnt/d/mux.exe");
    assert_eq!(
        windows_executable_wsl_path("\\\\server\\mux.exe").unwrap_err(),
        "current executable is not on a Windows local drive"
    );
}

#[test]
fn wsl_answers_are_reported() {
    let none = check_wsl_distributions(&WslList::Listed(utf16le("\r\n")), None);
    assert_eq!(none.status, "warn");
    assert_eq!(none.detail, "no WSL distributions found");
    let some = check_wsl_distributions(&WslList::Listed(utf16le("Ubuntu\r\nDebian")), None);
    assert_eq!(some.status, "ok");
    assert_eq!(some.detail, "Ubuntu, Debian");
    let missing = check_wsl_distributions(&WslList::Unavailable("not found".to_string()), None);
    assert_eq!(missing.detail, "wsl.exe unavailable: not found");
    let failed = check_wsl_distributions(
        &WslList::Failed {
            stderr: Vec::new(),
            stdout: b"broken  \nrest".to_vec(),
        },
        None,
    );
    assert_eq!(failed.detail, "broken\nrest");
    assert_eq!(normalize_wsl_detail("a  \r\nb \n"), "a\nb");
    assert_eq!(wsl_probe_error(b" out ", b" err ", Some(3)), "out err (status 3)");
    assert_eq!(
        wsl_probe_error(b"", b"", None),
        "WSL interop probe exited with status unknown"
    );
    assert_eq!(
        wsl_probe_error(b"", b"", Some(-1)),
        "WSL interop probe exited with status -1"
    );
}

#[test]
fn the_executable_is_tried_in_every_distribution() {
    let program: Result<String, String> = Ok("C:\\mux.exe".to_string());
    let names: Result<Vec<String>, String> = Ok(vec!["Ubuntu".to_string(), "Debian".to_string()]);
    let fine =
        check_wsl_interop_executable(&program, &names, &[InteropProbe::Ran, InteropProbe::Ran]);
    assert_eq!(fine.status, "ok");
    assert_eq!(
        fine.detail,
        "Ubuntu: exists and runs from WSL (/mnt/c/mux.exe); Debian: exists and runs from WSL (/mnt/c/mux.exe)"
    );
    let bad = check_wsl_interop_executable(
        &program,
        &names,
        &[InteropProbe::NotVisible, InteropProbe::NotRun("no".to_string())],
    );
    assert_eq!(bad.status, "error");
    assert_eq!(
        bad.detail,
        "Ubuntu: Windows executable not visible in WSL: /mnt/c/mux.exe\nDebian: exists but could not be executed from WSL (/mnt/c/mux.exe): no"
    );
    let gone = check_wsl_interop_executable(&Err("gone".to_string()), &names, &[
        InteropProbe::NotTried("x".to_string()),
        InteropProbe::Ran,
    ]);
    assert_eq!(gone.detail, "current executable unavailable: gone");
    let none = check_wsl_interop_executable(&program, &Err("no WSL".to_string()), &[]);
    assert_eq!(none.status, "warn");
    assert_eq!(none.detail, "no WSL");
}

#[test]
fn command_lines_ask_for_a_check() {
    let words = |list: &[&str]| -> Vec<String> { list.iter().map(|w| w.to_string()).collect() };
    assert!(agent_check_request(&words(&["luna-mux"])).is_none());
    assert!(agent_check_request(&words(&["luna-mux", "hook"])).is_none());
    assert_eq!(agent_check_request(&words(&["luna-mux", "doctor"])).unwrap().filter, None);
    assert_eq!(
        agent_check_request(&words(&["luna-mux", "agent-check", "pane"]))
            .unwrap()
            .filter
            .as_deref(),
        Some("pane")
    );
    assert!(is_wsl_interop_probe(&words(&["luna-mux", "wsl-interop-probe"])));
    assert!(!is_wsl_interop_probe(&words(&["luna-mux", "doctor"])));
    assert_eq!(INTEROP_ANSWER, "luna-mux-wsl-interop-ok");
}
