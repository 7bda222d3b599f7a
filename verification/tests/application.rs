use luna_mux::desktop::{
    entry_label, handle_menu, menu, submenu_entries, MenuCommand, MenuEntry, NativeMenuLabels, Submenu,
    SystemEntry,
};
use luna_mux::lifecycle::{
    active_runtime_count, begin_exit_cleanup, choose_browser, exit_requested, runtime_reaction,
    BrowserChoice, BrowserRuntimeStatus, ExitStep, RuntimeNews, StartedBrowser,
};
use luna_mux::local_pty::TerminalRuntimeStatus;
use luna_mux::mux_store::{BrowserResource, MuxPane, MuxPaneKind};
use luna_mux::notifications::{
    agent_desktop_notification_body, exit_confirmation_copy, notification, notification_title,
    should_activate_windows_agent_notification, should_send_agent_desktop_notification,
    AgentNotificationFocus, ManagedAgentEvent, ManagedAgentEvidence, ManagedAgentStatus,
    ManagedAgentWaitingReason, NotificationResponse, TerminalManagedAgentContext,
};

#[test]
fn exit_confirmation_is_localized() {
    let zh = exit_confirmation_copy("zh-CN", 2);
    assert!(zh.1.contains('2'));
    assert!(zh.2.contains("关闭进程"));
    let en = exit_confirmation_copy("en", 3);
    assert!(en.1.contains('3'));
    assert_eq!(en.3, "Cancel");
}

fn agent_event(hook: &str, status: ManagedAgentStatus) -> ManagedAgentEvent {
    ManagedAgentEvent {
        sequence: 1,
        timestamp: "2026-08-16T00:00:00Z".to_string(),
        context: TerminalManagedAgentContext {
            mux_session_id: "session-1".to_string(),
            pane_id: "pane-1".to_string(),
            runtime_id: "runtime-1".to_string(),
            agent_id: "agent-1".to_string(),
            launch_profile_id: "codex.default".to_string(),
        },
        adapter_id: "codex".to_string(),
        agent_session_id: None,
        agent_turn_id: None,
        hook_event_name: hook.to_string(),
        status,
        waiting_reason: None,
        evidence: ManagedAgentEvidence::StructuredHook,
    }
}

#[test]
fn agent_desktop_notifications_cover_attention_but_not_process_teardown() {
    let mut permission = agent_event("PermissionRequest", ManagedAgentStatus::Waiting);
    permission.waiting_reason = Some(ManagedAgentWaitingReason::Permission);
    assert!(should_send_agent_desktop_notification(&permission));
    assert_eq!(
        agent_desktop_notification_body(&permission, "zh-CN"),
        "Agent 正在等待权限确认"
    );

    let completed = agent_event("Stop", ManagedAgentStatus::Completed);
    assert!(should_send_agent_desktop_notification(&completed));
    assert_eq!(
        agent_desktop_notification_body(&completed, "en"),
        "Agent completed its task"
    );

    let ended = agent_event("SessionEnd", ManagedAgentStatus::Completed);
    assert!(!should_send_agent_desktop_notification(&ended));

    let mut heuristic = agent_event("TerminalBell", ManagedAgentStatus::Waiting);
    heuristic.evidence = ManagedAgentEvidence::TerminalHeuristic;
    assert!(!should_send_agent_desktop_notification(&heuristic));
}

fn pane(id: &str, title: &str) -> MuxPane {
    MuxPane {
        id: id.to_string(),
        mux_session_id: "session-1".to_string(),
        kind: MuxPaneKind::Terminal,
        title: title.to_string(),
        target_id: "local:shell".to_string(),
        bookmark_id: String::new(),
        cwd: String::new(),
        command: String::new(),
        launch_profile_id: String::new(),
        sort_order: 0,
        created_at: String::new(),
        updated_at: String::new(),
    }
}

#[test]
fn nothing_is_said_of_the_pane_in_front() {
    let event = agent_event("Stop", ManagedAgentStatus::Error);
    let panes = [pane("pane-0", "Other"), pane("pane-1", "Mine")];
    let away = AgentNotificationFocus::default();
    let told = notification(&event, true, &away, "en", &panes).unwrap();
    assert_eq!(told.title, "Mine");
    assert_eq!(told.body, "Agent encountered an error");
    let here = AgentNotificationFocus {
        mux_session_id: Some("session-1".to_string()),
        pane_id: Some("pane-1".to_string()),
        terminal_visible: true,
    };
    assert!(notification(&event, true, &here, "en", &panes).is_none());
    assert!(notification(&event, false, &here, "en", &panes).is_some());
    let working = agent_event("PreToolUse", ManagedAgentStatus::Working);
    assert!(notification(&working, false, &away, "en", &panes).is_none());
    assert_eq!(notification_title(&panes, "pane-9"), "Luna Mux");
    let waiting = agent_event("Notification", ManagedAgentStatus::Waiting);
    assert_eq!(
        agent_desktop_notification_body(&waiting, "zh"),
        "Agent 正在等待输入"
    );
    assert_eq!(
        agent_desktop_notification_body(&working, "en"),
        "Agent status changed"
    );
}

#[test]
fn running_terminals_are_asked_about_before_the_end() {
    let terminals = [
        TerminalRuntimeStatus::Running,
        TerminalRuntimeStatus::Exited,
        TerminalRuntimeStatus::Connecting,
        TerminalRuntimeStatus::Error,
    ];
    let browsers = [BrowserRuntimeStatus::Starting, BrowserRuntimeStatus::Exited];
    assert_eq!(active_runtime_count(&terminals, &browsers), 3);
    assert!(matches!(
        exit_requested(true, &terminals, &browsers, None, "en"),
        ExitStep::LetGo
    ));
    assert!(matches!(
        exit_requested(false, &[TerminalRuntimeStatus::Exited], &[], Some(2), "en"),
        ExitStep::CleanUp { code: 2 }
    ));
    match exit_requested(false, &terminals, &browsers, None, "en") {
        ExitStep::Ask {
            title,
            message,
            confirm,
            cancel,
            code,
        } => {
            assert_eq!(title, "Quit Luna Mux?");
            assert_eq!(
                message,
                "3 terminal process(es) are still running. Quitting will close them."
            );
            assert_eq!(confirm, "Quit and close processes");
            assert_eq!(cancel, "Cancel");
            assert_eq!(code, 0);
        }
        other => panic!("{other:?}"),
    }
    let mut started = false;
    assert!(begin_exit_cleanup(&mut started));
    assert!(started);
    assert!(!begin_exit_cleanup(&mut started));
}

fn started(session: &str, status: BrowserRuntimeStatus) -> StartedBrowser {
    StartedBrowser {
        mux_session_id: session.to_string(),
        status,
    }
}

fn resource(id: &str, source_pane_id: &str) -> BrowserResource {
    BrowserResource {
        id: id.to_string(),
        mux_session_id: "s".to_string(),
        name: "Browser".to_string(),
        source_pane_id: source_pane_id.to_string(),
        bookmark_id: String::new(),
        url: "about:blank".to_string(),
        temporary_profile: false,
        sort_order: 0,
        created_at: String::new(),
        updated_at: String::new(),
    }
}

#[test]
fn agents_get_the_only_browser_of_their_session() {
    let browsers = [
        started("other", BrowserRuntimeStatus::Running),
        started("s", BrowserRuntimeStatus::Exited),
        started("s", BrowserRuntimeStatus::Running),
    ];
    assert_eq!(
        choose_browser(&browsers, "s", &[]),
        Ok(BrowserChoice::Running(2))
    );
    let twice = [
        started("s", BrowserRuntimeStatus::Running),
        started("s", BrowserRuntimeStatus::Running),
    ];
    assert_eq!(
        choose_browser(&twice, "s", &[]).unwrap_err(),
        "当前 Session 同时运行了多个 Browser Resource，请先只保留一个"
    );
    assert_eq!(
        choose_browser(&[], "s", &[resource("a", "pane"), resource("b", "")]),
        Ok(BrowserChoice::Start(1))
    );
    assert_eq!(
        choose_browser(&[], "s", &[resource("a", "pane")]).unwrap_err(),
        "当前 Session 没有可自动启动的本地 Browser Resource，请先创建一个"
    );
    assert_eq!(
        choose_browser(&[], "s", &[resource("a", ""), resource("b", "")]).unwrap_err(),
        "当前 Session 有多个本地 Browser Resource，无法自动选择，请先手动启动其中一个"
    );
}

#[test]
fn news_of_terminals_lead_to_their_reactions() {
    let ended = runtime_reaction(&RuntimeNews::Exit {
        runtime_id: "r".to_string(),
    });
    assert_eq!(ended.revoke_runtime.as_deref(), Some("r"));
    assert!(!ended.record_output);
    let output = runtime_reaction(&RuntimeNews::Output);
    assert!(output.record_output);
    assert_eq!(output.refresh_session, None);
    let status = runtime_reaction(&RuntimeNews::Status {
        agent_session: Some("a".to_string()),
        pane_session: Some("p".to_string()),
    });
    assert_eq!(status.refresh_session.as_deref(), Some("a"));
    let plain = runtime_reaction(&RuntimeNews::Status {
        agent_session: None,
        pane_session: Some("p".to_string()),
    });
    assert_eq!(plain.refresh_session.as_deref(), Some("p"));
    let other = runtime_reaction(&RuntimeNews::Other);
    assert!(other.refresh_session.is_none() && other.revoke_runtime.is_none());
}

#[test]
fn menu_entries_lead_to_commands() {
    for command in [
        MenuCommand::NewConnection,
        MenuCommand::ImportConnections,
        MenuCommand::NewSession,
        MenuCommand::CloseTab,
        MenuCommand::Settings,
        MenuCommand::Help,
        MenuCommand::ShowTerminal,
        MenuCommand::ShowFiles,
        MenuCommand::ToggleSidebar,
    ] {
        assert_eq!(handle_menu(command.id()), Some(command));
    }
    assert_eq!(handle_menu("quit"), None);
    assert_eq!(MenuCommand::Settings.accelerator(), Some("CmdOrCtrl+,"));
    assert_eq!(MenuCommand::ImportConnections.accelerator(), None);
    assert_eq!(
        submenu_entries(Submenu::Window),
        [
            MenuEntry::System(SystemEntry::Minimize),
            MenuEntry::System(SystemEntry::Maximize),
            MenuEntry::Separator,
            MenuEntry::System(SystemEntry::BringAllToFront),
        ]
    );
    assert_eq!(
        submenu_entries(Submenu::Help),
        [MenuEntry::Command(MenuCommand::Help)]
    );
}

fn labels() -> NativeMenuLabels {
    let text = |name: &str| format!("<{name}>");
    NativeMenuLabels {
        settings: text("settings"),
        new_connection: text("new connection"),
        import_open_ssh_config: text("import"),
        new_session: text("new session"),
        close_tab: text("close tab"),
        terminal: text("terminal"),
        files: text("files"),
        toggle_sidebar: text("sidebar"),
        help_item: text("help item"),
        about: text("about"),
        services: text("services"),
        hide: text("hide"),
        hide_others: text("hide others"),
        show_all: text("show all"),
        quit: text("quit"),
        connection_menu: text("connection"),
        edit_menu: text("edit"),
        undo: text("undo"),
        redo: text("redo"),
        cut: text("cut"),
        copy: text("copy"),
        paste: text("paste"),
        select_all: text("select all"),
        view_menu: text("view"),
        fullscreen: text("fullscreen"),
        window_menu: text("window"),
        minimize: text("minimize"),
        zoom: text("zoom"),
        bring_all_to_front: text("front"),
        help_menu: text("help"),
    }
}

#[test]
fn the_menu_bar_shows_the_given_texts_in_order() {
    let bar = menu(&labels());
    let titles: Vec<&str> = bar.iter().map(|part| part.title.as_str()).collect();
    assert_eq!(
        titles,
        ["Luna Mux", "<connection>", "<edit>", "<view>", "<window>", "<help>"]
    );
    let window: Vec<Option<&str>> = bar[4]
        .items
        .iter()
        .map(|item| item.label.as_deref())
        .collect();
    assert_eq!(
        window,
        [Some("<minimize>"), Some("<zoom>"), None, Some("<front>")]
    );
    assert_eq!(
        bar[5].items[0].entry,
        MenuEntry::Command(MenuCommand::Help)
    );
    assert_eq!(bar[5].items[0].label.as_deref(), Some("<help item>"));
    assert_eq!(
        entry_label(
            MenuEntry::Command(MenuCommand::ImportConnections),
            &labels()
        )
        .as_deref(),
        Some("<import>")
    );
}

#[test]
fn closed_notifications_lead_nowhere() {
    for response in [
        NotificationResponse::Default,
        NotificationResponse::Action,
        NotificationResponse::Reply,
    ] {
        assert!(should_activate_windows_agent_notification(response));
    }
    assert!(!should_activate_windows_agent_notification(
        NotificationResponse::Closed
    ));
}
