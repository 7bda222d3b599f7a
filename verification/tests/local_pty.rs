use luna_mux::local_pty::{
    bootstrapped_command, command_for_request, configure_terminal_environment,
    decode_windows_command_output, initial_input, is_powershell_target, launch_environment,
    macos_target, parse_wsl_registry_output, pty_size, put_wrappers_first, start_directory,
    supported_macos_shell, takes_wrappers, windows_targets, wsl_environment_bridge, AgentWrappers,
    CloseStep, FoundShells,
    InProcessLocalPtyTerminalBackend, LocalLaunch, ManagedAgent, Platform, RuntimeRequest,
    TerminalRuntimeContext, TerminalRuntimeExitReason, TerminalRuntimeStatus, TerminalTargetKind, TerminalTransport, ShellPath, macos_supported_shell,
};
use luna_mux::text_map::TextMap;

const MACOS_SHELL_TARGET: &str = "local:macos-shell";
const POWERSHELL_TARGET: &str = "local:powershell";
const POWERSHELL5_TARGET: &str = "local:powershell5";

fn environment(pairs: &[(&str, &str)]) -> TextMap<String> {
    let mut map = TextMap::new();
    for (name, value) in pairs {
        map.insert(name.to_string(), value.to_string());
    }
    map
}

fn value<'a>(map: &'a TextMap<String>, name: &str) -> Option<&'a str> {
    map.get(name).map(String::as_str)
}

fn launch(target_id: &str, cwd: Option<&str>, command: Option<&str>) -> LocalLaunch {
    LocalLaunch {
        target_id: target_id.to_string(),
        cwd: cwd.map(str::to_owned),
        command: command.map(str::to_owned),
        environment: TextMap::new(),
    }
}

fn shells() -> FoundShells {
    FoundShells {
        powershell7: Some("pwsh.exe".to_string()),
        powershell5: None,
        macos_shell: Some("/bin/zsh".to_string()),
        profile_script: ". $PROFILE.CurrentUserCurrentHost".to_string(),
    }
}

#[test]
fn macos_shell_uses_the_emulated_terminal_capabilities() {
    let mut command = environment(&[("TERM", "dumb")]);

    configure_terminal_environment(&mut command, MACOS_SHELL_TARGET);

    assert_eq!(value(&command, "TERM"), Some("xterm-256color"));
    assert_eq!(value(&command, "COLORTERM"), Some("truecolor"));
}

#[test]
fn powershell_and_wsl_keep_their_platform_environment() {
    for target_id in [POWERSHELL_TARGET, POWERSHELL5_TARGET, "local:wsl:Ubuntu"] {
        let mut command = environment(&[
            ("TERM", "platform-default"),
            ("COLORTERM", "platform-color"),
        ]);

        configure_terminal_environment(&mut command, target_id);

        assert_eq!(value(&command, "TERM"), Some("platform-default"));
        assert_eq!(value(&command, "COLORTERM"), Some("platform-color"));
    }
}

#[test]
fn decodes_wsl_utf16_distribution_output() {
    let bytes = "Ubuntu\r\nDebian\r\n"
        .encode_utf16()
        .flat_map(u16::to_le_bytes)
        .collect::<Vec<_>>();
    assert_eq!(
        decode_windows_command_output(&bytes),
        "Ubuntu\r\nDebian\r\n"
    );
}

#[test]
fn command_output_is_read_in_both_encodings() {
    let text = "Ubuntu 😀 – Müller\r\n";
    let bytes: Vec<u8> = text.encode_utf16().flat_map(u16::to_le_bytes).collect();
    assert_eq!(decode_windows_command_output(&bytes), text);
    assert_eq!(decode_windows_command_output(text.as_bytes()), text);
    assert_eq!(decode_windows_command_output(&[]), "");
}

#[test]
fn agent_wrappers_are_found_first() {
    let wrappers = AgentWrappers {
        directory: "/w".to_string(),
        search_path: "/w:/bin".to_string(),
        powershell_script: "/w/bootstrap.ps1".to_string(),
        shell_bootstrap: ". '/w/bootstrap.sh'".to_string(),
        user_zdotdir: Some("/home/me".to_string()),
    };
    let mut zsh = launch(MACOS_SHELL_TARGET, None, Some("ls"));
    put_wrappers_first(&mut zsh, &wrappers, Some("zsh"));
    assert_eq!(value(&zsh.environment, "PATH"), Some("/w:/bin"));
    assert_eq!(value(&zsh.environment, "ZDOTDIR"), Some("/w"));
    assert_eq!(value(&zsh.environment, "LUNA_MUX_USER_ZDOTDIR"), Some("/home/me"));
    assert_eq!(zsh.command.as_deref(), Some("ls"));

    let mut bash = launch(MACOS_SHELL_TARGET, None, Some("ls"));
    put_wrappers_first(&mut bash, &wrappers, Some("bash"));
    assert_eq!(bash.command.as_deref(), Some(". '/w/bootstrap.sh'; ls"));
    assert_eq!(value(&bash.environment, "ZDOTDIR"), None);

    let mut powershell = launch(POWERSHELL5_TARGET, None, None);
    put_wrappers_first(&mut powershell, &wrappers, Some("bash"));
    assert_eq!(
        value(&powershell.environment, "LUNA_MUX_AGENT_BOOTSTRAP"),
        Some("/w/bootstrap.ps1")
    );
    assert_eq!(powershell.command, None);

    let mut wsl = launch("local:wsl:Ubuntu", None, None);
    assert!(!takes_wrappers("local:wsl:Ubuntu"));
    assert!(takes_wrappers(MACOS_SHELL_TARGET));
    put_wrappers_first(&mut wsl, &wrappers, Some("zsh"));
    assert_eq!(value(&wsl.environment, "PATH"), None);
}

#[test]
fn parses_wsl_distributions_from_registry_output() {
    let output = "    DistributionName    REG_SZ    Ubuntu 24.04\r\n    DistributionName    REG_SZ    Debian\r\n";
    assert_eq!(
        parse_wsl_registry_output(output),
        ["Debian", "Ubuntu 24.04"]
    );
}

#[test]
fn powershell_loads_profiles_before_the_codex_bootstrap() {
    let mut request = launch(POWERSHELL_TARGET, None, None);
    request.environment.insert(
        "LUNA_MUX_CODEX_BOOTSTRAP".to_string(),
        r"C:\Temp\luna-mux\runtime\bin\bootstrap.ps1".to_string(),
    );

    let command = command_for_request(Platform::Windows, &request, &shells())
        .expect("build PowerShell command");

    assert!(command.args.iter().any(|value| value == "-NoProfile"));
    let script = command
        .args
        .last()
        .expect("PowerShell initialization command is present");
    let profile_index = script
        .find("$PROFILE.CurrentUserCurrentHost")
        .expect("normal PowerShell profiles are loaded");
    let bootstrap_index = script
        .find(r"C:\Temp\luna-mux\runtime\bin\bootstrap.ps1")
        .expect("Luna Codex bootstrap is loaded");
    assert!(profile_index < bootstrap_index);
}

#[test]
fn builds_wsl_target_with_distribution_and_cwd() {
    let request = launch(
        "local:wsl:Ubuntu",
        Some("D:\\code\\project"),
        Some("codex"),
    );
    let command =
        command_for_request(Platform::Windows, &request, &shells()).expect("build WSL command");
    let mut argv = vec![command.program.as_str()];
    argv.extend(command.args.iter().map(String::as_str));
    assert_eq!(
        argv,
        [
            "wsl.exe",
            "--distribution",
            "Ubuntu",
            "--cd",
            "D:\\code\\project"
        ]
    );
    assert_eq!(initial_input(&request), Some("codex\r".to_string()));
}

#[test]
fn bridges_managed_agent_and_hook_environment_into_wsl() {
    let mut request = environment(&[
        ("LUNA_MUX_HOOK_ENDPOINT", "http://127.0.0.1:1234/v1/hooks"),
        ("LUNA_MUX_HOOK_AUTHORIZATION", "secret"),
        ("LUNA_MUX_MCP_ENDPOINT", "http://127.0.0.1:1235/mcp"),
        ("LUNA_MUX_MCP_AUTHORIZATION", "mcp-secret"),
    ]);
    let agent = Some(ManagedAgent {
        mux_session_id: "session-1".to_string(),
        pane_id: "pane-1".to_string(),
        runtime_id: "runtime-1".to_string(),
        agent_id: "agent-1".to_string(),
        launch_profile_id: "codex.default".to_string(),
    });
    launch_environment(&mut request, "local:wsl:Ubuntu", &agent, "");
    let bridge = value(&request, "WSLENV").unwrap();
    for name in [
        "LUNA_MUX_HOOK_ENDPOINT",
        "LUNA_MUX_HOOK_AUTHORIZATION",
        "LUNA_MUX_MCP_ENDPOINT",
        "LUNA_MUX_MCP_AUTHORIZATION",
        "LUNA_MUX_SESSION_ID",
        "LUNA_MUX_RUNTIME_ID",
        "LUNA_MUX_AGENT_ID",
    ] {
        assert!(bridge.split(':').any(|value| value == name));
    }
    assert!(!bridge.contains("secret"));
    assert!(!bridge.contains("mcp-secret"));
    assert_eq!(value(&request, "LUNA_MUX_AGENT_ID"), Some("agent-1"));
}

#[test]
fn output_that_is_not_utf16_is_read_as_utf8() {
    assert_eq!(decode_windows_command_output("终端".as_bytes()), "终端");
    assert_eq!(decode_windows_command_output(b"a\xff"), "a\u{fffd}");
    assert_eq!(decode_windows_command_output(b""), "");
    assert_eq!(
        decode_windows_command_output(&[b'a', 0, 0, 0xd8]),
        "a\u{fffd}"
    );
}

#[test]
fn lines_without_a_registered_name_are_passed_over() {
    assert_eq!(
        parse_wsl_registry_output("HKEY\r\n Name REG_SZ   \r\n Name REG_SZ B\r\n Name REG_SZ B\n"),
        ["B"]
    );
}

#[test]
fn the_bridge_into_a_distribution_is_sorted() {
    assert_eq!(
        wsl_environment_bridge("Z::A", &["B".to_string(), "A".to_string()], false),
        "A:B:Z"
    );
    assert_eq!(
        wsl_environment_bridge("", &[], true),
        "LUNA_MUX_AGENT_ID:LUNA_MUX_LAUNCH_PROFILE_ID:LUNA_MUX_PANE_ID:LUNA_MUX_RUNTIME_ID:LUNA_MUX_SESSION_ID"
    );
}

#[test]
fn terminals_of_other_platforms_are_refused() {
    let fail = |platform: Platform, target: &str| {
        command_for_request(platform, &launch(target, None, None), &shells()).unwrap_err()
    };
    assert_eq!(
        fail(Platform::Macos, POWERSHELL_TARGET),
        "PowerShell 目标仅在 Windows 上可用"
    );
    assert_eq!(
        fail(Platform::Windows, POWERSHELL5_TARGET),
        "未找到 Windows PowerShell 5.1（powershell.exe）"
    );
    assert_eq!(
        fail(Platform::Other, "local:wsl:Ubuntu"),
        "WSL 目标仅在 Windows 上可用"
    );
    assert_eq!(
        fail(Platform::Windows, "local:wsl: "),
        "WSL 目标缺少发行版名称"
    );
    assert_eq!(fail(Platform::Windows, "local:other"), "本地终端目标不存在");
    let mut none = shells();
    none.powershell7 = None;
    assert_eq!(
        command_for_request(
            Platform::Windows,
            &launch(POWERSHELL_TARGET, None, None),
            &none
        )
        .unwrap_err(),
        "未找到 PowerShell 7（pwsh.exe）"
    );
}

#[test]
fn shells_are_started_with_their_arguments() {
    let plain = command_for_request(
        Platform::Windows,
        &launch(POWERSHELL_TARGET, None, None),
        &shells(),
    )
    .unwrap();
    assert_eq!(plain.program, "pwsh.exe");
    assert_eq!(plain.args, ["-NoLogo", "-NoExit"]);
    let mut quoted = launch(POWERSHELL_TARGET, None, None);
    quoted
        .environment
        .insert("LUNA_MUX_AGENT_BOOTSTRAP".to_string(), "C:\\it's.ps1".to_string());
    let command = command_for_request(Platform::Windows, &quoted, &shells()).unwrap();
    assert_eq!(
        command.args,
        [
            "-NoLogo",
            "-NoExit",
            "-NoProfile",
            "-Command",
            ". $PROFILE.CurrentUserCurrentHost; . 'C:\\it''s.ps1'"
        ]
    );
    let macos = command_for_request(
        Platform::Macos,
        &launch(MACOS_SHELL_TARGET, None, None),
        &shells(),
    )
    .unwrap();
    assert_eq!(macos.program, "/bin/zsh");
    assert!(is_powershell_target(POWERSHELL5_TARGET));
    assert!(!is_powershell_target("local:powershell6"));
}

#[test]
fn directories_and_commands_are_handed_over() {
    assert_eq!(
        start_directory(&launch("local:powershell", Some("C:\\work"), None)).as_deref(),
        Some("C:\\work")
    );
    assert_eq!(
        start_directory(&launch("local:wsl:Ubuntu", Some("/work"), None)),
        None
    );
    assert_eq!(start_directory(&launch("local:powershell", Some(" "), None)), None);
    assert_eq!(initial_input(&launch("local:powershell", None, Some(" \t"))), None);
    assert_eq!(bootstrapped_command(". boot", Some("ls")), ". boot; ls");
    assert_eq!(bootstrapped_command(". boot", Some(" ")), ". boot");
    assert_eq!(bootstrapped_command(". boot", None), ". boot");
    assert_eq!(pty_size(0), 1);
    assert_eq!(pty_size(80), 80);
    assert_eq!(pty_size(70000), 65535);
}

#[test]
fn terminals_of_this_machine_are_listed() {
    let targets = windows_targets(true, false, &["Ubuntu".to_string()]);
    assert_eq!(targets.len(), 2);
    assert_eq!(targets[0].id, "local:powershell");
    assert_eq!(targets[0].label, "PowerShell 7");
    assert_eq!(targets[1].id, "local:wsl:Ubuntu");
    assert_eq!(targets[1].label, "WSL · Ubuntu");
    assert_eq!(targets[1].kind, TerminalTargetKind::Wsl);
    assert!(targets
        .iter()
        .all(|target| target.transport == TerminalTransport::LocalPty));
    assert_eq!(windows_targets(false, true, &[])[0].label, "PowerShell 5.1");
    assert_eq!(macos_target(Some("zsh")).label, "macOS zsh");
    assert_eq!(macos_target(None).label, "macOS Shell");
    assert!(supported_macos_shell(Some("bash")));
    assert!(!supported_macos_shell(Some("fish")));
    assert!(!supported_macos_shell(None));
    assert!(InProcessLocalPtyTerminalBackend::is_local_target("local:anything"));
    assert!(!InProcessLocalPtyTerminalBackend::is_local_target("ssh:1"));
}

fn request(runtime_id: Option<&str>, title: Option<&str>) -> RuntimeRequest {
    RuntimeRequest {
        runtime_id: runtime_id.map(str::to_owned),
        target_id: "local:shell".to_string(),
        title: title.map(str::to_owned),
        context: None,
        managed_agent: None,
    }
}

#[test]
fn terminals_are_listed_with_their_pane_and_agent() {
    let mut backend = InProcessLocalPtyTerminalBackend::new();
    backend.create(request(Some("r1"), Some("One")));
    let mut second = request(Some("r2"), None);
    second.context = Some(TerminalRuntimeContext {
        mux_session_id: "session".to_string(),
        pane_id: "pane".to_string(),
        runtime_id: "r2".to_string(),
    });
    second.managed_agent = Some(ManagedAgent {
        mux_session_id: "session".to_string(),
        pane_id: "pane".to_string(),
        runtime_id: "r2".to_string(),
        agent_id: "agent".to_string(),
        launch_profile_id: "codex".to_string(),
    });
    let started = backend.create(second);
    assert_eq!(started.status, TerminalRuntimeStatus::Running);
    backend.finish_record("r1", false);
    let listed = backend.list();
    assert_eq!(listed.len(), 2);
    let one = listed.iter().find(|row| row.runtime_id == "r1").unwrap();
    assert_eq!(one.title, "One");
    assert_eq!(one.status, TerminalRuntimeStatus::Exited);
    assert!(one.context.is_none() && one.error.is_none());
    let two = listed.iter().find(|row| row.runtime_id == "r2").unwrap();
    assert_eq!(two.target_id, "local:shell");
    assert_eq!(two.title, "本地终端");
    assert_eq!(two.context.as_ref().unwrap().pane_id, "pane");
    assert_eq!(two.managed_agent.as_ref().unwrap().agent_id, "agent");
}

#[test]
fn terminals_end_once() {
    assert_eq!(
        InProcessLocalPtyTerminalBackend::check_create(true).unwrap_err(),
        "本地终端不支持该认证方式"
    );
    assert!(InProcessLocalPtyTerminalBackend::check_create(false).is_ok());
    let mut backend = InProcessLocalPtyTerminalBackend::new();
    assert_eq!(backend.create(request(Some("r1"), None)).runtime_id, "r1");
    let fresh = backend.create(request(None, Some("Title"))).runtime_id;
    assert_eq!(fresh.len(), 36);
    assert_eq!(backend.runtimes.get("r1").unwrap().title, "本地终端");
    assert_eq!(backend.list().len(), 2);
    assert!(backend.check_open("r1").is_ok());
    assert_eq!(backend.check_open("r2").unwrap_err(), "终端 Runtime 不存在");
    backend.set_output_paused("r1", true).unwrap();
    assert!(backend.runtimes.get("r1").unwrap().paused);
    assert!(backend.set_output_paused("r2", true).is_err());
    assert_eq!(backend.close("r1"), Ok(CloseStep::Kill));
    assert!(!backend.runtimes.get("r1").unwrap().paused);
    backend.let_go("r1");
    assert_eq!(backend.check_open("r1").unwrap_err(), "本地 PTY 已退出");
    assert_eq!(
        backend.finish_record("r1", true),
        Some(TerminalRuntimeExitReason::Closed)
    );
    assert_eq!(backend.finish_record("r1", true), None);
    assert_eq!(backend.close("r1"), Ok(CloseStep::Nothing));
    assert!(backend.close("r2").is_err());
    assert_eq!(backend.close_all(), [fresh.as_str()]);
    assert_eq!(
        backend.finish_record(&fresh, false),
        Some(TerminalRuntimeExitReason::Closed)
    );
    backend.create(request(Some("r3"), None));
    assert_eq!(
        backend.finish_record("r3", true),
        Some(TerminalRuntimeExitReason::Signaled)
    );
    backend.create(request(Some("r3"), None));
    assert_eq!(
        backend.finish_record("r3", false),
        Some(TerminalRuntimeExitReason::Exited)
    );
}

#[test]
fn macos_starts_the_first_wished_shell_that_is_supported() {
    let shell = |path: &str| ShellPath {
        path: path.to_string(),
        file_name: path.rsplit('/').next().map(str::to_string),
    };
    let found = ["/bin/zsh".to_string(), "/bin/bash".to_string()];
    let wished = [shell("/usr/bin/fish"), shell("/opt/bin/bash")];
    assert_eq!(
        macos_supported_shell(&wished, &found).as_deref(),
        Some("/opt/bin/bash")
    );
    assert_eq!(
        macos_supported_shell(&wished[..1], &found).as_deref(),
        Some("/bin/zsh")
    );
    assert_eq!(macos_supported_shell(&wished[..1], &[]), None);
}
