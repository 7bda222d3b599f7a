use luna_mux::grok_build_adapter::{
    executable_for_target, install_wsl_manual_bootstrap, managed_command, posix_script,
    powershell_literal, powershell_script, requires_remote_hook_helper, with_bootstrap, wsl_script,
    ManagedAgentLaunch, GROK_BUILD_ADAPTER_ID, GROK_CMD,
};
use luna_mux::json::{copy_json, same_json, Json, JsonNumber};
use luna_mux::legacy_agent_hook_cleanup::{is_owned_command, remove_owned_hooks};

fn value(parsed: &serde_json::Value) -> Json {
    match parsed {
        serde_json::Value::Null => Json::Null,
        serde_json::Value::Bool(b) => Json::Bool(*b),
        serde_json::Value::Number(n) => Json::Number(match (n.as_u64(), n.as_i64()) {
            (Some(whole), _) => JsonNumber::Whole(whole),
            (None, Some(negative)) => JsonNumber::Negative(negative),
            (None, None) => JsonNumber::Real(n.as_f64().unwrap().to_bits()),
        }),
        serde_json::Value::String(s) => Json::Text(s.clone()),
        serde_json::Value::Array(items) => Json::List(items.iter().map(value).collect()),
        serde_json::Value::Object(fields) => Json::Object(
            fields
                .iter()
                .map(|(name, field)| (name.clone(), value(field)))
                .collect(),
        ),
    }
}

fn json(text: &str) -> Json {
    value(&serde_json::from_str(text).unwrap())
}

#[test]
fn managed_command_tracks_lifecycle_without_injecting_mcp_or_grok_home() {
    let command = managed_command(
        &ManagedAgentLaunch {
            command: "grok".to_string(),
            target_id: "ssh-bookmark:test".to_string(),
            hook_command: Some("remote-agent hook".to_string()),
        },
        Err("unused".to_string()),
    )
    .unwrap();

    assert!(command.contains("AgentProcessStart"), "{command}");
    assert!(command.contains("AgentProcessExit"), "{command}");
    assert!(command.contains("remote-agent hook"), "{command}");
    assert!(command.contains("; grok;"), "{command}");
    assert!(!command.contains("GROK_HOME"));
    assert!(!command.contains("43128"));
}

#[test]
fn wsl_bootstrap_preserves_the_user_grok_home() {
    let environment =
        executable_for_target(r"C:\Temp\luna-mux\agent.env", "local:wsl:Ubuntu", true).unwrap();
    let forwarder =
        executable_for_target(r"C:\Luna\luna-mux.exe", "local:wsl:Ubuntu", true).unwrap();
    let script = wsl_script(Some(&environment), GROK_BUILD_ADAPTER_ID, &forwarder);

    assert!(!script.contains("GROK_HOME"), "{script}");
    assert!(!script.contains("config.toml"), "{script}");
    assert!(script.contains("command grok \"$@\""), "{script}");
    assert!(script.contains("if [ -r /mnt/c/Temp/luna-mux/agent.env ]"), "{script}");
    assert_eq!(
        install_wsl_manual_bootstrap("local:wsl:Ubuntu", "/mnt/c/boot.sh").unwrap(),
        ". /mnt/c/boot.sh"
    );
    assert_eq!(
        install_wsl_manual_bootstrap("local:powershell", "/mnt/c/boot.sh").unwrap_err(),
        "WSL Grok Build 启动脚本只能安装到 WSL 终端"
    );
}

#[test]
fn commands_without_a_hook_are_left_alone() {
    let launch = |target: &str| ManagedAgentLaunch {
        command: " grok --fast ".to_string(),
        target_id: target.to_string(),
        hook_command: None,
    };
    assert_eq!(
        managed_command(&launch("local:powershell"), Err("none".to_string())).unwrap(),
        "grok --fast"
    );
    assert_eq!(
        managed_command(&launch("local:wsl:Ubuntu"), Err("none".to_string())).unwrap_err(),
        "none"
    );
    assert_eq!(
        managed_command(&launch("local:wsl:Ubuntu"), Ok("/mnt/c/mux.exe".to_string())).unwrap(),
        "(printf '%s' '{\"hook_event_name\":\"AgentProcessStart\",\"agent_adapter\":\"grok-build\"}' | /mnt/c/mux.exe hook >/dev/null 2>&1 || true; grok --fast; luna_mux_agent_exit_code=$?; printf '%s' '{\"hook_event_name\":\"AgentProcessExit\",\"agent_adapter\":\"grok-build\"}' | /mnt/c/mux.exe hook >/dev/null 2>&1 || true; exit \"$luna_mux_agent_exit_code\")"
    );
    assert!(requires_remote_hook_helper());
}

#[test]
fn scripts_tell_of_the_start_and_the_end() {
    assert_eq!(
        posix_script("grok-build", "/opt/mux", "/bin/grok"),
        "#!/bin/sh\nexport LUNA_MUX_AGENT_ADAPTER=grok-build\nexport LUNA_MUX_AGENT_PROCESS_ID=\"$$-$(date +%s)\"\nprintf '%s' '{\"hook_event_name\":\"AgentProcessStart\",\"agent_adapter\":\"grok-build\"}' | /opt/mux hook >/dev/null 2>&1 || true\n/bin/grok \"$@\"\ncode=$?\nprintf '%s' '{\"hook_event_name\":\"AgentProcessExit\",\"agent_adapter\":\"grok-build\"}' | /opt/mux hook >/dev/null 2>&1 || true\nexit $code\n"
    );
    assert_eq!(powershell_literal("it's"), "it''s");
    assert_eq!(
        powershell_script("C:\\it's.exe", "C:\\grok.cmd"),
        "$env:LUNA_MUX_AGENT_ADAPTER='grok-build'\r\n$env:LUNA_MUX_AGENT_PROCESS_ID=[guid]::NewGuid().ToString('N')\r\n$forwarder='C:\\it''s.exe'\r\ntry { '{\"hook_event_name\":\"AgentProcessStart\",\"agent_adapter\":\"grok-build\"}' | & $forwarder hook | Out-Null; & 'C:\\grok.cmd' @args; $code=$LASTEXITCODE } finally { '{\"hook_event_name\":\"AgentProcessExit\",\"agent_adapter\":\"grok-build\"}' | & $forwarder hook | Out-Null }\r\nexit $code\r\n"
    );
    assert!(GROK_CMD.starts_with("@echo off\r\n"));
}

#[test]
fn the_bootstrap_is_added_once() {
    let added = with_bootstrap("# profile\r\n".to_string(), "C:\\grok.ps1").unwrap();
    assert_eq!(
        added,
        "# profile\r\nfunction global:grok { & 'C:\\grok.ps1' @args }\r\n"
    );
    assert!(with_bootstrap(added, "C:\\other.ps1").is_none());
}

#[test]
fn paths_are_turned_for_distributions() {
    assert_eq!(
        executable_for_target("D:\\Luna\\mux.exe", "local:wsl:Ubuntu", true).unwrap(),
        "/mnt/d/Luna/mux.exe"
    );
    assert_eq!(
        executable_for_target("mux", "local:wsl:Ubuntu", true).unwrap_err(),
        "无法将 Windows 路径转换为 WSL 路径"
    );
    assert_eq!(
        executable_for_target("/opt/mux", "local:wsl:Ubuntu", false).unwrap(),
        "/opt/mux"
    );
    assert_eq!(
        executable_for_target("C:\\mux.exe", "local:powershell", true).unwrap(),
        "C:\\mux.exe"
    );
}

fn field<'a>(value: &'a Json, name: &str) -> &'a Json {
    luna_mux::json::get(value, name).unwrap()
}

#[test]
fn removes_only_luna_mux_owned_handlers() {
    let mut root = json(
        r#"{
            "custom": true,
            "hooks": {
                "Stop": [{ "hooks": [
                    { "type": "command", "command": "other-tool hook" },
                    { "type": "command", "command": "\"/Applications/Luna Mux\" hook --adapter-owner luna-mux" }
                ] }],
                "SessionStart": [{ "hooks": [
                    { "type": "command", "command": "luna-mux hook --adapter-owner luna-mux" }
                ] }]
            }
        }"#,
    );

    assert!(remove_owned_hooks(&mut root).unwrap());
    assert!(matches!(field(&root, "custom"), Json::Bool(true)));
    let hooks = field(&root, "hooks");
    match field(hooks, "Stop") {
        Json::List(groups) => match field(&groups[0], "hooks") {
            Json::List(handlers) => assert_eq!(handlers.len(), 1),
            other => panic!("{other:?}"),
        },
        other => panic!("{other:?}"),
    }
    assert!(luna_mux::json::get(hooks, "SessionStart").is_none());
}

#[test]
fn a_second_cleanup_finds_nothing() {
    let mut root = json(
        r#"{
            "hooks": {
                "Start": [],
                "Stop": [{ "hooks": [] }, { "hooks": [
                    { "command": "luna-mux hook --adapter-owner luna-mux" },
                    { "command": "other-tool hook" }
                ] }]
            },
            "model": "x"
        }"#,
    );
    assert!(remove_owned_hooks(&mut root).unwrap());
    let once = copy_json(&root);
    assert!(!remove_owned_hooks(&mut root).unwrap());
    assert!(same_json(&root, &once));
    assert!(same_json(
        &root,
        &json(r#"{"hooks":{"Stop":[{"hooks":[{"command":"other-tool hook"}]}]},"model":"x"}"#)
    ));
}

#[test]
fn leaves_unrelated_configuration_unchanged() {
    let text = r#"{
        "hooks": { "Stop": [{ "hooks": [{ "command": "other-tool hook" }] }] }
    }"#;
    let mut root = json(text);
    assert!(!remove_owned_hooks(&mut root).unwrap());
    assert!(same_json(&root, &json(text)));
}

#[test]
fn configurations_of_another_shape_are_refused_or_kept() {
    let mut list = json("[1]");
    assert!(remove_owned_hooks(&mut list).is_err());
    let mut plain = json(r#"{"model":"x"}"#);
    assert!(!remove_owned_hooks(&mut plain).unwrap());
    assert!(same_json(&plain, &json(r#"{"model":"x"}"#)));
    let mut only = json(
        r#"{"hooks":{"Stop":[{"hooks":[{"command":"luna-mux hook --adapter-owner luna-mux"}]}]}}"#,
    );
    assert!(remove_owned_hooks(&mut only).unwrap());
    assert!(luna_mux::json::get(&only, "hooks").is_none());
    assert!(is_owned_command("luna-mux hook --adapter-owner luna-mux"));
    assert!(!is_owned_command("other hook"));
}
