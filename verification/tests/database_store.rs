use luna_mux::bookmarks::{add_ai_command_history, AuthType, BookmarkInput};
use luna_mux::control_effects::TransferDirection;
use luna_mux::control_lists::TransferStatus;
use luna_mux::control_service::ControlAuditRecord;
use luna_mux::database::Database;
use luna_mux::json::Json;
use luna_mux::mux_layout::{copy_opt_layout, MuxSplitDirection, MuxSplitNode, SplitRatio};
use luna_mux::mux_store::{
    plan_migration, BrowserResourceInput, MigrationPlan, MuxPane, MuxPaneInput, MuxPaneKind,
    MuxSession, MuxSessionInput,
};
use luna_mux::opening::StoredRows;
use luna_mux::remote_import::{
    are_portable, check_required_tables, connections_query, read_luna_remote_snapshot, BookmarkArchiveEntry, KnownHostImportEntry, PortForwardProfile,
    RemoteImportOptions, RemoteSource,
};
use luna_mux::stored_records::{choose_secret, SettingValue, StoredSetting};
use luna_mux::stored_transfers::{TransferTask, TRANSFER_LIMIT};
use luna_mux::text_map::TextMap;

fn input(name: &str, group_name: &str) -> BookmarkInput {
    BookmarkInput {
        id: None,
        name: name.to_string(),
        host: format!("{}.example.com", name.to_lowercase()),
        port: 22,
        username: "test".to_string(),
        auth_type: AuthType::Agent,
        private_key_path: String::new(),
        jump_bookmark_id: String::new(),
        group_name: group_name.to_string(),
        favorite: false,
        keepalive_enabled: true,
        keepalive_interval_seconds: 15,
        keepalive_count_max: 3,
        note: String::new(),
    }
}

fn empty_rows() -> StoredRows {
    StoredRows {
        bookmarks: Vec::new(),
        credential_refs: Vec::new(),
        groups: Vec::new(),
        forwardings: Vec::new(),
        known_hosts: Vec::new(),
        settings: TextMap::new(),
        sessions: Vec::new(),
        panes: Vec::new(),
        browsers: Vec::new(),
        audit: Vec::new(),
        transfers: Vec::new(),
    }
}

const UP_TO_DATE: MigrationPlan = MigrationPlan {
    add_session_layout: false,
    add_launch_profile: false,
    move_browser_panes: false,
    add_bookmark_order: false,
};

fn fresh() -> Database {
    Database::open(empty_rows(), &UP_TO_DATE)
}

fn reopen(db: Database) -> Database {
    let stored = StoredRows {
        bookmarks: db.bookmarks.rows,
        credential_refs: db.credential_refs,
        groups: db.groups,
        forwardings: db.forwardings,
        known_hosts: db.known_hosts,
        settings: db.settings,
        sessions: db.sessions.rows,
        panes: db.panes.rows,
        browsers: db.browsers.rows,
        audit: db.audit,
        transfers: db.transfers,
    };
    let mut opened = Database::open(stored, &UP_TO_DATE);
    opened.ensure_browsers().unwrap();
    opened
}

fn leaf(id: &str) -> Box<MuxSplitNode> {
    Box::new(MuxSplitNode::Pane {
        pane_id: id.to_string(),
    })
}

fn split(
    direction: MuxSplitDirection,
    ratio: f64,
    first: Box<MuxSplitNode>,
    second: Box<MuxSplitNode>,
) -> MuxSplitNode {
    MuxSplitNode::Split {
        direction,
        ratio: SplitRatio {
            bits: ratio.to_bits(),
        },
        first,
        second,
    }
}

fn session_input(id: Option<&str>, name: &str, layout: Option<MuxSplitNode>) -> MuxSessionInput {
    MuxSessionInput {
        id: id.map(str::to_string),
        name: name.to_string(),
        root_path: "D:/code/alpha".to_string(),
        layout,
    }
}

fn pane_input(session: &str, title: &str, target: &str) -> MuxPaneInput {
    MuxPaneInput {
        id: None,
        mux_session_id: session.to_string(),
        kind: MuxPaneKind::Terminal,
        title: title.to_string(),
        target_id: target.to_string(),
        bookmark_id: String::new(),
        cwd: String::new(),
        command: String::new(),
        launch_profile_id: String::new(),
    }
}

fn browser_input(id: Option<&str>, session: &str, name: &str) -> BrowserResourceInput {
    BrowserResourceInput {
        id: id.map(str::to_string),
        mux_session_id: session.to_string(),
        name: name.to_string(),
        source_pane_id: String::new(),
        bookmark_id: String::new(),
        url: String::new(),
        temporary_profile: false,
    }
}

#[test]
fn persists_mux_sessions_panes_and_layout() {
    let mut db = fresh();
    let session = db
        .save_mux_session(session_input(None, "Project Alpha", None))
        .expect("save mux session");
    let mut local_input = pane_input(&session.id, "PowerShell", "local:powershell");
    local_input.cwd = session.root_path.clone();
    let local = db.save_mux_pane(local_input).expect("save local pane");
    let mut ssh_input = pane_input(&session.id, "Build host", "ssh:bookmark-1");
    ssh_input.bookmark_id = "bookmark-1".to_string();
    ssh_input.command = "codex".to_string();
    ssh_input.launch_profile_id = "codex.default".to_string();
    let ssh = db.save_mux_pane(ssh_input).expect("save ssh pane");
    let layout = Some(split(
        MuxSplitDirection::Horizontal,
        0.5,
        leaf(&local.id),
        leaf(&ssh.id),
    ));
    db.save_mux_session(session_input(
        Some(&session.id),
        &session.name,
        copy_opt_layout(&layout),
    ))
    .expect("save session layout");

    let mut db = reopen(db);
    let sessions = db.list_mux_sessions();
    assert_eq!(sessions.len(), 1);
    assert_eq!(format!("{:?}", sessions[0].layout), format!("{layout:?}"));
    let panes = db.list_mux_panes(Some(&session.id));
    assert_eq!(panes.len(), 2);
    assert_eq!(panes[0].id, local.id);
    assert_eq!(panes[1].id, ssh.id);
    let browser = db.list_browser_resources(Some(&session.id));
    assert_eq!(browser.len(), 1);
    assert_eq!(browser[0].name, "Browser");
    assert_eq!(
        db.ensure_session_browser_resource(&session.id)
            .expect("reuse implicit browser resource")
            .id,
        browser[0].id
    );

    db.delete_mux_session(&session.id);
    assert!(db.list_mux_panes(None).is_empty());
    assert!(db.list_browser_resources(None).is_empty());
}

#[test]
fn persists_browser_resource_updates_and_enforces_one_per_session() {
    let mut db = fresh();
    let session = db
        .save_mux_session(session_input(None, "Browser Session", None))
        .unwrap();
    let browser = db
        .save_browser_resource(browser_input(None, &session.id, "Browser"))
        .unwrap();
    assert!(browser.url.is_empty());
    assert!(db
        .save_browser_resource(browser_input(None, &session.id, "Second Browser"))
        .unwrap_err()
        .contains("只能关联一个浏览器资源"));
    let renamed = db
        .save_browser_resource(browser_input(
            Some(&browser.id),
            &session.id,
            "Renamed Browser",
        ))
        .unwrap();
    assert_eq!(renamed.id, browser.id);
    assert_eq!(renamed.name, "Renamed Browser");
    let listed = db.list_browser_resources(Some(&session.id));
    assert_eq!(format!("{listed:?}"), format!("{:?}", vec![renamed]));
}

fn audit(id: &str, timestamp: String) -> ControlAuditRecord {
    ControlAuditRecord {
        id: id.to_string(),
        timestamp,
        caller_id: "agent".to_string(),
        caller_kind: "agent".to_string(),
        operation: "agents.list".to_string(),
        resource_kind: "agent".to_string(),
        resource_id: String::new(),
        arguments: Json::Object(Vec::new()),
        result: "success".to_string(),
        error_code: String::new(),
    }
}

#[test]
fn prunes_control_audit_older_than_retention_window() {
    let mut db = fresh();
    db.append_control_audit(audit(
        "old",
        (chrono::Utc::now() - chrono::Duration::days(31)).to_rfc3339(),
    ))
    .unwrap();
    db.append_control_audit(audit("current", chrono::Utc::now().to_rfc3339()))
        .unwrap();
    assert_eq!(db.prune_control_audit(30), 1);
    assert_eq!(db.list_control_audit(10)[0].id, "current");
}

#[test]
fn persists_manual_bookmark_order() {
    let mut db = fresh();
    let first = db.save_bookmark(input("First", "A")).expect("save first");
    let second = db.save_bookmark(input("Second", "A")).expect("save second");
    let third = db.save_bookmark(input("Third", "B")).expect("save third");

    let reordered = db
        .reorder_bookmarks(&[third.id.clone(), first.id.clone(), second.id.clone()])
        .expect("reorder bookmarks");
    assert_eq!(
        reordered
            .into_iter()
            .map(|item| item.id)
            .collect::<Vec<_>>(),
        [third.id.clone(), first.id.clone(), second.id]
    );
    assert!(db.reorder_bookmarks(&[third.id, first.id]).is_err());
}

#[test]
fn keeps_only_ten_most_recent_ai_commands() {
    let mut history: Vec<String> = Vec::new();
    for index in 0..12 {
        history = add_ai_command_history(history, format!("command-{index}"));
    }
    assert_eq!(history.len(), 10);
    assert_eq!(history.first().map(String::as_str), Some("command-11"));
    assert_eq!(history.last().map(String::as_str), Some("command-2"));
}

#[test]
fn persists_and_manages_bookmark_groups() {
    let now = "2026-08-16T00:00:00Z";
    let mut db = fresh();
    let ungrouped = db
        .save_bookmark(input("Ungrouped", ""))
        .expect("save ungrouped");
    db.save_bookmark(input("Alpha", "A")).expect("save grouped");

    assert_eq!(db.list_bookmark_groups(), ["", "A"]);
    assert_eq!(
        db.create_bookmark_group("Empty")
            .expect("create empty group"),
        ["", "A", "Empty"]
    );

    let mut db = reopen(db);
    assert_eq!(db.list_bookmark_groups(), ["", "A", "Empty"]);
    assert_eq!(
        db.reorder_bookmark_groups(&["Empty".to_string(), String::new(), "A".to_string()])
            .expect("reorder groups"),
        ["Empty", "", "A"]
    );
    db.move_bookmark_to_group(&ungrouped.id, "Empty", now)
        .expect("move bookmark to group");
    assert_eq!(
        db.get_bookmark(&ungrouped.id)
            .expect("moved bookmark exists")
            .group_name,
        "Empty"
    );
    assert_eq!(
        db.rename_bookmark_group("Empty", "Production", now)
            .expect("rename group"),
        ["Production", "", "A"]
    );
    assert_eq!(
        db.get_bookmark(&ungrouped.id)
            .expect("renamed bookmark exists")
            .group_name,
        "Production"
    );
    let deleted = db
        .delete_bookmark_group("Production")
        .expect("delete group with bookmarks");
    assert_eq!(deleted.deleted_bookmark_ids, [ungrouped.id.clone()]);
    assert_eq!(deleted.groups, ["", "A"]);
    assert!(db.get_bookmark(&ungrouped.id).is_none());
}

#[test]
fn allows_renaming_and_deleting_ungrouped() {
    let now = "2026-08-16T00:00:00Z";
    let mut db = fresh();
    let first = db.save_bookmark(input("First", "")).expect("save first");
    assert_eq!(
        db.rename_bookmark_group("", "Default", now)
            .expect("rename ungrouped"),
        ["Default"]
    );
    assert_eq!(
        db.get_bookmark(&first.id)
            .expect("renamed bookmark exists")
            .group_name,
        "Default"
    );

    let second = db.save_bookmark(input("Second", "")).expect("save second");
    let deleted = db.delete_bookmark_group("").expect("delete ungrouped");
    assert_eq!(deleted.deleted_bookmark_ids, [second.id]);
    assert_eq!(deleted.groups, ["Default"]);
}

fn entries(jump: &str, target: &str) -> Vec<BookmarkArchiveEntry> {
    vec![
        BookmarkArchiveEntry {
            id: jump.to_string(),
            name: "Jump".to_string(),
            host: "jump.example.com".to_string(),
            port: 22,
            username: "jump-user".to_string(),
            auth_type: AuthType::Agent,
            private_key_path: String::new(),
            jump_bookmark_id: String::new(),
            group_name: "Imported".to_string(),
            favorite: false,
            keepalive_enabled: true,
            keepalive_interval_seconds: 15,
            keepalive_count_max: 3,
            note: String::new(),
        },
        BookmarkArchiveEntry {
            id: target.to_string(),
            name: "Target".to_string(),
            host: "target.example.com".to_string(),
            port: 2202,
            username: "target-user".to_string(),
            auth_type: AuthType::Password,
            private_key_path: String::new(),
            jump_bookmark_id: jump.to_string(),
            group_name: "Imported".to_string(),
            favorite: true,
            keepalive_enabled: true,
            keepalive_interval_seconds: 30,
            keepalive_count_max: 4,
            note: "from archive".to_string(),
        },
    ]
}

#[test]
fn imports_archive_transaction_with_new_ids_and_jump_relationships() {
    let mut db = fresh();
    db.create_bookmark_group("Existing")
        .expect("create existing group");

    let result = db.import_bookmark_archive(
        &entries("jump-source-id", "target-source-id"),
        &["Empty imported".to_string()],
    )
    .expect("import archive");
    assert_eq!(result.imported_connections, 2);
    assert_eq!(result.imported_groups, 2);

    let bookmarks = db.list_bookmarks();
    let jump = bookmarks
        .iter()
        .find(|bookmark| bookmark.name == "Jump")
        .expect("jump imported");
    let target = bookmarks
        .iter()
        .find(|bookmark| bookmark.name == "Target")
        .expect("target imported");
    assert_ne!(jump.id, "jump-source-id");
    assert_ne!(target.id, "target-source-id");
    assert_eq!(target.jump_bookmark_id, jump.id);
    assert!(!jump.has_saved_credential);
    assert!(!target.has_saved_credential);
    assert_eq!(
        db.list_bookmark_groups(),
        ["Existing", "Empty imported", "Imported"]
    );
}

fn remote_source() -> RemoteSource {
    RemoteSource {
        path: "/tmp/remote.db".to_string(),
        source_modified_at: "2026-01-01".to_string(),
        connections: entries("jump", "target"),
        settings: vec![
            (
                "bookmarkGroups".to_string(),
                "[\"Imported\",\"Empty\"]".to_string(),
            ),
            ("uiTheme".to_string(), "\"dark\"".to_string()),
            ("portForwardProfiles".to_string(), "[]".to_string()),
        ],
        forwarding_profiles: vec![PortForwardProfile {
            id: "forward-source".to_string(),
            bookmark_id: "target".to_string(),
            name: "Web".to_string(),
            forward_type: "local".to_string(),
            bind_address: "127.0.0.1".to_string(),
            bind_port: 8080,
            target_host: "127.0.0.1".to_string(),
            target_port: 80,
        }],
        known_hosts: vec![KnownHostImportEntry {
            host: "target.example.com".to_string(),
            port: 2202,
            fingerprint: "SHA256:test".to_string(),
        }],
        credential_refs: vec!["target".to_string()],
    }
}

#[test]
fn reads_and_imports_luna_remote_snapshot_without_mutating_source() {
    let snapshot = read_luna_remote_snapshot(remote_source()).expect("read snapshot");
    assert_eq!(snapshot.connections.len(), 2);
    assert_eq!(snapshot.groups, ["Imported", "Empty"]);
    assert_eq!(snapshot.known_hosts.len(), 1);
    assert_eq!(snapshot.settings.len(), 1);
    assert_eq!(snapshot.forwarding_profiles.len(), 1);
    assert_eq!(snapshot.credential_connection_ids, ["target"]);

    let mut db = fresh();
    let options = RemoteImportOptions {
        host_keys: true,
        settings: true,
        forwarding_profiles: true,
        credentials: false,
    };
    let found = vec![false; snapshot.connections.len()];
    let import = db.prepare_luna_remote_import(
        &snapshot,
        &snapshot.connections,
        &["Empty".to_string()],
        options,
        &found,
        "2026-08-16T00:00:00Z",
    );
    assert!(are_portable(&snapshot.settings));
    let result = db
        .import_luna_remote_snapshot(&import, &snapshot, &snapshot.connections, options)
        .expect("import snapshot");
    assert_eq!(result.imported_connections, 2);
    assert_eq!(result.imported_groups, 2);
    assert_eq!(result.imported_host_keys, 1);
    assert_eq!(result.imported_settings, 1);
    assert_eq!(result.imported_forwarding_profiles, 1);
    assert_eq!(result.imported_credentials, 0);
    assert_eq!(result.unavailable_credentials, 0);

    let bookmarks = db.list_bookmarks();
    let jump = bookmarks
        .iter()
        .find(|bookmark| bookmark.name == "Jump")
        .expect("jump imported");
    let target = bookmarks
        .iter()
        .find(|bookmark| bookmark.name == "Target")
        .expect("target imported");
    assert_ne!(jump.id, "jump");
    assert_ne!(target.id, "target");
    assert_eq!(target.jump_bookmark_id, jump.id);
    assert_eq!(
        db.known_host("target.example.com", 2202),
        Some("SHA256:test".to_string())
    );
    assert_eq!(
        text_setting(&db, "uiTheme").as_deref(),
        Some("\"dark\"")
    );
    assert_eq!(db.forwardings.len(), 1);
    assert_ne!(db.forwardings[0].id, "forward-source");
    assert_eq!(db.forwardings[0].bookmark_id, target.id);
}

#[test]
fn snapshots_read_the_stored_groups_and_clear_the_picture() {
    let mut source = remote_source();
    source.settings.push((
        "terminalSettings".to_string(),
        "{\"backgroundImagePath\":\"/x.png\"}".to_string(),
    ));
    let snapshot = read_luna_remote_snapshot(source).unwrap();
    assert_eq!(snapshot.groups, ["Imported", "Empty"]);
    let terminal = snapshot
        .settings
        .iter()
        .find(|setting| setting.key == "terminalSettings")
        .unwrap();
    assert_eq!(terminal.value, "{\"backgroundImagePath\":\"\"}");

    let mut unreadable = remote_source();
    unreadable.settings[0].1 = "not a list".to_string();
    let snapshot = read_luna_remote_snapshot(unreadable).unwrap();
    assert_eq!(snapshot.groups, ["Imported"]);
}

#[test]
fn snapshots_are_placed_behind_what_is_stored() {
    let snapshot = read_luna_remote_snapshot(remote_source()).unwrap();
    let mut db = fresh();
    let first = db.save_bookmark(input("First", "Imported")).unwrap();
    let options = RemoteImportOptions {
        host_keys: false,
        settings: false,
        forwarding_profiles: false,
        credentials: true,
    };
    let import = db.prepare_luna_remote_import(
        &snapshot,
        &snapshot.connections,
        &[],
        options,
        &[true, true],
        "2026-08-16T00:00:00Z",
    );
    let places: Vec<i64> = import.rows.iter().map(|row| row.sort_order).collect();
    assert_eq!(places, [first.sort_order + 1, first.sort_order + 2]);
    assert_eq!(import.result.imported_groups, 0);
    assert_eq!(import.credential_sources, ["target"]);
    assert_eq!(import.result.imported_credentials, 1);
}

#[test]
fn a_browser_is_refused_only_where_another_belongs_to_the_session() {
    let mut db = fresh();
    let session = db
        .save_mux_session(MuxSessionInput {
            id: None,
            name: "Session".to_string(),
            root_path: String::new(),
            layout: None,
        })
        .unwrap();
    let browser = |id: Option<&str>, name: &str| BrowserResourceInput {
        id: id.map(str::to_owned),
        mux_session_id: session.id.clone(),
        name: name.to_string(),
        source_pane_id: String::new(),
        bookmark_id: String::new(),
        url: " http://x ".to_string(),
        temporary_profile: false,
    };
    let first = db.save_browser_resource(browser(None, " One ")).unwrap();
    assert_eq!((first.name.as_str(), first.url.as_str()), ("One", "http://x"));
    for id in [None, Some("other")] {
        assert_eq!(
            db.save_browser_resource(browser(id, "Two")).unwrap_err(),
            "每个 Mux Session 只能关联一个浏览器资源"
        );
    }
    let again = db.save_browser_resource(browser(Some(&first.id), "Three")).unwrap();
    assert_eq!((again.id, again.created_at), (first.id, first.created_at));
    assert_eq!(db.list_browser_resources(Some(&session.id)).len(), 1);
}

fn stored_pane(
    id: &str,
    kind: MuxPaneKind,
    title: &str,
    target: &str,
    command: &str,
    order: i64,
) -> MuxPane {
    MuxPane {
        id: id.to_string(),
        mux_session_id: "session-v9".to_string(),
        kind,
        title: title.to_string(),
        target_id: target.to_string(),
        bookmark_id: if kind == MuxPaneKind::Browser {
            "bookmark-1".to_string()
        } else {
            String::new()
        },
        cwd: String::new(),
        command: command.to_string(),
        launch_profile_id: String::new(),
        sort_order: order,
        created_at: format!("2026-08-01T0{order}:00:00Z"),
        updated_at: format!("2026-08-02T0{order}:00:00Z"),
    }
}

fn names(list: &[&str]) -> Vec<String> {
    list.iter().map(|name| name.to_string()).collect()
}

#[test]
fn migrates_version_nine_browser_panes_to_session_resources() {
    let plan = plan_migration(
        &names(&["id", "name", "rootPath", "layoutJson", "sortOrder"]),
        &names(&["id", "muxSessionId", "kind", "title", "launchProfileId"]),
        &names(&["id", "sourcePaneId", "targetPaneId", "access"]),
        &names(&["id", "sortOrder"]),
    );
    assert!(plan.move_browser_panes);
    let mut stored = empty_rows();
    stored.sessions = vec![MuxSession {
        id: "session-v9".to_string(),
        name: "Legacy project".to_string(),
        root_path: "D:/code/legacy".to_string(),
        layout: Some(split(
            MuxSplitDirection::Horizontal,
            0.4,
            leaf("agent-pane"),
            Box::new(split(
                MuxSplitDirection::Vertical,
                0.5,
                leaf("browser-pane"),
                leaf("terminal-pane"),
            )),
        )),
        sort_order: 0,
        created_at: "2026-08-01T00:00:00Z".to_string(),
        updated_at: "2026-08-02T00:00:00Z".to_string(),
    }];
    stored.panes = vec![
        stored_pane(
            "agent-pane",
            MuxPaneKind::Terminal,
            "Codex",
            "local:powershell",
            "codex",
            0,
        ),
        stored_pane(
            "browser-pane",
            MuxPaneKind::Browser,
            "Preview",
            "ssh-runtime",
            "http://localhost:4173",
            1,
        ),
        stored_pane(
            "terminal-pane",
            MuxPaneKind::Terminal,
            "Shell",
            "local:powershell",
            "",
            2,
        ),
    ];
    let mut db = Database::open(stored, &plan);
    db.ensure_browsers().unwrap();

    let panes = db.list_mux_panes(Some("session-v9"));
    assert_eq!(
        panes
            .iter()
            .map(|pane| pane.id.as_str())
            .collect::<Vec<_>>(),
        ["agent-pane", "terminal-pane"]
    );
    let resources = db.list_browser_resources(Some("session-v9"));
    assert_eq!(resources.len(), 1);
    assert_eq!(resources[0].id, "browser-pane");
    assert_eq!(resources[0].name, "Preview");
    assert_eq!(resources[0].source_pane_id, "ssh-runtime");
    assert_eq!(resources[0].bookmark_id, "bookmark-1");
    assert_eq!(resources[0].url, "http://localhost:4173");
    assert_eq!(resources[0].created_at, "2026-08-01T01:00:00Z");

    let sessions = db.list_mux_sessions();
    let session = sessions
        .iter()
        .find(|session| session.id == "session-v9")
        .expect("migrated session");
    let expected = Some(split(
        MuxSplitDirection::Horizontal,
        0.4,
        leaf("agent-pane"),
        leaf("terminal-pane"),
    ));
    assert_eq!(format!("{:?}", session.layout), format!("{expected:?}"));
}

#[test]
fn migrates_bookmark_sort_order_from_version_five() {
    let plan = plan_migration(
        &names(&["id", "layoutJson"]),
        &names(&["id", "launchProfileId"]),
        &[],
        &names(&["id", "name"]),
    );
    assert!(plan.add_bookmark_order);
    let mut source = fresh();
    let older = source
        .save_bookmark_as(input("Older", ""), "older".to_string(), "2026-01-01")
        .unwrap();
    let mut recent = source
        .save_bookmark_as(input("Recent", ""), "recent".to_string(), "2026-01-02")
        .unwrap();
    recent.favorite = true;
    recent.last_connected_at = "2026-01-02".to_string();
    recent.sort_order = 0;
    let mut stored = empty_rows();
    stored.bookmarks = vec![older, recent];
    let db = Database::open(stored, &plan);
    assert_eq!(
        db.list_bookmarks()
            .into_iter()
            .map(|item| item.id)
            .collect::<Vec<_>>(),
        ["recent", "older"]
    );
}

#[test]
fn bookmarks_are_checked_before_they_are_saved() {
    let mut db = fresh();
    let mut nameless = input("x", "");
    nameless.host = " ".to_string();
    assert!(db.save_bookmark(nameless).is_err());
    let mut loose = input("Loose", " G ");
    loose.keepalive_interval_seconds = 100_000;
    loose.keepalive_count_max = 0;
    let saved = db
        .save_bookmark_as(loose, "id-1".to_string(), "now")
        .unwrap();
    assert_eq!(saved.id, "id-1");
    assert_eq!(saved.group_name, "G");
    assert!(saved.keepalive_interval_seconds < 100_000);
    assert!(saved.keepalive_count_max > 0);
    let mut own_jump = input("Loose", "G");
    own_jump.id = Some("id-1".to_string());
    own_jump.jump_bookmark_id = "id-1".to_string();
    assert!(db.save_bookmark(own_jump).is_err());
    let mut jump = input("Second", "G");
    jump.jump_bookmark_id = "missing".to_string();
    assert!(db.save_bookmark(jump).is_err());
    db.mark_connected("id-1", "later");
    assert_eq!(db.get_bookmark("id-1").unwrap().last_connected_at, "later");
    db.remove_bookmark("id-1");
    assert!(db.get_bookmark("id-1").is_none());
}

#[test]
fn credentials_are_marked_on_their_bookmark() {
    let mut db = fresh();
    db.save_bookmark_as(input("One", ""), "one".to_string(), "now")
        .unwrap();
    db.save_credential("one");
    assert!(db.has_credential("one"));
    assert!(db.get_bookmark("one").unwrap().has_saved_credential);
    db.forget_credential("one");
    assert!(!db.has_credential("one"));
    assert!(!db.get_bookmark("one").unwrap().has_saved_credential);
    let own = choose_secret(Some("a".to_string()), Some("b".to_string())).unwrap();
    assert_eq!(own.secret, "a");
    assert!(!own.keep);
    let legacy = choose_secret(None, Some("b".to_string())).unwrap();
    assert_eq!(legacy.secret, "b");
    assert!(legacy.keep);
    assert!(choose_secret(None, None).is_none());
}

#[test]
fn hosts_and_settings_are_kept() {
    let mut db = fresh();
    db.trust_host("h", 22, "one");
    db.trust_host("h", 2222, "other");
    db.trust_host("h", 22, "two");
    assert_eq!(db.known_host("h", 22).as_deref(), Some("two"));
    assert_eq!(db.known_host("h", 2222).as_deref(), Some("other"));
    assert_eq!(db.known_host("g", 22), None);
    db.set_setting("language", setting("\"zh\"", &[], Vec::new()));
    assert_eq!(text_setting(&db, "language").as_deref(), Some("\"zh\""));
    assert!(db.get_setting("theme").is_none());
}

fn setting(text: &str, groups: &[&str], forwardings: Vec<PortForwardProfile>) -> SettingValue {
    SettingValue {
        text: text.to_string(),
        groups: groups.iter().map(|group| group.to_string()).collect(),
        forwardings,
    }
}

fn text_setting(db: &Database, key: &str) -> Option<String> {
    match db.get_setting(key) {
        Some(StoredSetting::Text(text)) => Some(text.clone()),
        _ => None,
    }
}

#[test]
fn the_groups_are_a_setting() {
    let mut db = fresh();
    db.set_setting("bookmarkGroups", setting("[\"A\"]", &["A"], Vec::new()));
    assert_eq!(db.list_bookmark_groups(), ["A"]);
    match db.get_setting("bookmarkGroups") {
        Some(StoredSetting::Groups(groups)) => assert_eq!(groups, &["A"]),
        other => panic!("{other:?}"),
    }
    db.create_bookmark_group("B").unwrap();
    match db.get_setting("bookmarkGroups") {
        Some(StoredSetting::Groups(groups)) => assert_eq!(groups, &["A", "B"]),
        other => panic!("{other:?}"),
    }
    assert!(text_setting(&db, "bookmarkGroups").is_none());
    db.set_setting("bookmarkGroups", setting("no list", &[], Vec::new()));
    assert!(db.list_bookmark_groups().is_empty());
}

#[test]
fn the_forwardings_are_a_setting() {
    let mut db = fresh();
    let source = remote_source();
    let count = source.forwarding_profiles.len();
    assert!(count > 0);
    let id = source.forwarding_profiles[0].id.clone();
    db.set_setting(
        "portForwardProfiles",
        setting("[..]", &["A"], source.forwarding_profiles),
    );
    assert_eq!(db.forwardings.len(), count);
    assert!(db.list_bookmark_groups().is_empty());
    match db.get_setting("portForwardProfiles") {
        Some(StoredSetting::Forwardings(profiles)) => assert_eq!(profiles[0].id, id),
        other => panic!("{other:?}"),
    }
}

#[test]
fn archives_that_repeat_an_id_are_refused_whole() {
    let mut db = fresh();
    let refused = db
        .import_bookmark_archive(&entries("same", "same"), &["Empty".to_string()])
        .unwrap_err();
    assert_eq!(refused, "UNIQUE constraint failed: bookmarks.id");
    assert!(db.list_bookmarks().is_empty());
    assert!(db.list_bookmark_groups().is_empty());

    let both = entries("jump", "target");
    let fresh_ids = ["one".to_string(), "two".to_string()];
    assert!(db
        .import_bookmark_archive_as(&both, &[], &fresh_ids, "now")
        .is_ok());
    let taken = db
        .import_bookmark_archive_as(&both, &[], &fresh_ids, "later")
        .unwrap_err();
    assert_eq!(taken, "UNIQUE constraint failed: bookmarks.id");
    assert_eq!(db.list_bookmarks().len(), 2);
    assert_eq!(db.get_bookmark("one").unwrap().created_at, "now");
}

#[test]
fn snapshots_that_repeat_an_id_are_refused_whole() {
    let snapshot = read_luna_remote_snapshot(remote_source()).unwrap();
    let mut db = fresh();
    let options = RemoteImportOptions {
        host_keys: true,
        settings: true,
        forwarding_profiles: true,
        credentials: false,
    };
    let repeated = entries("target", "target");
    let import = db.prepare_luna_remote_import(
        &snapshot,
        &repeated,
        &[],
        options,
        &[false, false],
        "now",
    );
    let refused = db
        .import_luna_remote_snapshot(&import, &snapshot, &repeated, options)
        .unwrap_err();
    assert_eq!(refused, "UNIQUE constraint failed: bookmarks.id");
    assert!(db.list_bookmarks().is_empty());
    assert!(db.forwardings.is_empty());
    assert!(db.get_setting("uiTheme").is_none());
    assert_eq!(db.known_host("target.example.com", 2202), None);
}

#[test]
fn stored_rows_are_replaced_where_no_place_is_left() {
    let mut db = fresh();
    let session = db
        .save_mux_session(MuxSessionInput {
            id: None,
            name: "Work".to_string(),
            root_path: String::new(),
            layout: None,
        })
        .unwrap();
    let saved = db.save_bookmark(input("Alpha", "")).unwrap();
    db.sessions.rows[0].sort_order = i64::MAX;
    db.bookmarks.rows[0].sort_order = i64::MAX;
    let other = MuxSessionInput {
        id: None,
        name: "Other".to_string(),
        root_path: String::new(),
        layout: None,
    };
    assert!(!db.has_place_for_session(&other));
    assert!(!db.has_place_for_bookmark(&input("Beta", "")));
    let renamed = MuxSessionInput {
        id: Some(session.id.clone()),
        ..other
    };
    assert!(db.has_place_for_session(&renamed));
    let renamed = db.save_mux_session(renamed).unwrap();
    assert_eq!(renamed.name, "Other");
    assert_eq!(renamed.sort_order, i64::MAX);
    let again = db
        .update_session(&session.id, Some("Third".to_string()), None)
        .unwrap();
    assert_eq!(again.name, "Third");
    let changed = BookmarkInput {
        id: Some(saved.id.clone()),
        ..input("Gamma", "")
    };
    assert!(db.has_place_for_bookmark(&changed));
    let changed = db.save_bookmark(changed).unwrap();
    assert_eq!((changed.name.as_str(), changed.sort_order), ("Gamma", i64::MAX));
    assert!(db.has_place_for_bookmark(&input(" ", "")));
    assert!(db.save_bookmark(input(" ", "")).is_err());
}

#[test]
fn the_audit_is_kept_for_the_given_days() {
    let mut db = fresh();
    for (id, time) in [
        ("old", "2026-01-01T11:59:59+00:00"),
        ("edge", "2026-01-01T12:00:00+00:00"),
        ("young", "2026-01-30T00:00:00+00:00"),
    ] {
        db.append_control_audit(audit(id, time.to_string())).unwrap();
    }
    let now = "2026-01-31T12:00:00+00:00";
    assert_eq!(db.prune_control_audit_at(now, 30), 1);
    assert_eq!(db.list_control_audit(10).len(), 2);
    assert_eq!(db.prune_control_audit_at("no moment", 30), 0);
    assert_eq!(db.prune_control_audit_at(now, i64::MAX), 0);
    assert_eq!(db.prune_control_audit_at(now, -5), 2);
    assert!(db.list_control_audit(10).is_empty());
}

#[test]
fn the_audit_takes_each_id_once() {
    let mut db = fresh();
    db.append_control_audit(audit("a", "2026-01-01".to_string())).unwrap();
    assert_eq!(
        db.append_control_audit(audit("a", "2026-01-02".to_string())),
        Err("UNIQUE constraint failed: control_audit.id".to_string())
    );
    let kept = db.list_control_audit(10);
    assert_eq!(kept.len(), 1);
    assert_eq!(kept[0].timestamp, "2026-01-01");
}

#[test]
fn the_audit_is_listed_newest_first() {
    let mut db = fresh();
    for (id, time) in [("a", "2026-01-01"), ("b", "2026-01-03"), ("c", "2026-01-02")] {
        db.append_control_audit(audit(id, time.to_string())).unwrap();
    }
    let listed: Vec<String> = db
        .list_control_audit(2)
        .into_iter()
        .map(|record| record.id)
        .collect();
    assert_eq!(listed, ["b", "c"]);
    assert_eq!(db.prune_control_audit_before("2026-01-02"), 1);
    assert_eq!(db.list_control_audit(10).len(), 2);
    assert_eq!(db.clear_control_audit(), 2);
    assert!(db.list_control_audit(10).is_empty());
}

#[test]
fn panes_belong_to_a_session() {
    let mut db = fresh();
    assert!(db
        .save_mux_pane(pane_input("missing", "P", "local:shell"))
        .is_err());
    assert!(db
        .save_mux_session(session_input(None, "  ", None))
        .is_err());
    let session = db
        .save_mux_session_as(
            session_input(None, " Name ", None),
            "s".to_string(),
            "now",
        )
        .unwrap();
    assert_eq!(session.name, "Name");
    let pane = db
        .save_mux_pane_as(pane_input("s", "P", "local:shell"), "p".to_string(), "now")
        .unwrap();
    assert_eq!(pane.sort_order, 0);
    db.delete_mux_pane("p");
    assert!(db.list_mux_panes(Some("s")).is_empty());
    let browser = db
        .ensure_session_browser_resource_as("s", "b".to_string(), "now")
        .unwrap();
    assert_eq!(browser.id, "b");
    db.delete_browser_resource("b");
    assert!(db.list_browser_resources(Some("s")).is_empty());
    assert!(db.ensure_session_browser_resource("missing").is_err());
}

#[test]
fn sources_without_their_tables_are_refused() {
    assert!(check_required_tables(&names(&[
        "bookmarks",
        "credential_refs",
        "known_hosts",
        "settings"
    ]))
    .is_ok());
    assert!(check_required_tables(&names(&["bookmarks", "settings"])).is_err());
    assert!(connections_query(&names(&["id", "sortOrder"])).contains("sortOrder"));
    let mut source = remote_source();
    source.connections[1].jump_bookmark_id = "elsewhere".to_string();
    assert!(read_luna_remote_snapshot(source).is_err());
}

fn task(id: &str, status: TransferStatus, created_at: &str) -> TransferTask {
    TransferTask {
        id: id.to_string(),
        session_id: "session".to_string(),
        bookmark_id: "bookmark".to_string(),
        direction: TransferDirection::Upload,
        source_path: "/from".to_string(),
        destination_path: "/to".to_string(),
        display_name: "file".to_string(),
        status,
        bytes_total: 10,
        bytes_transferred: 4,
        speed: 0,
        error: None,
        created_at: created_at.to_string(),
        updated_at: created_at.to_string(),
    }
}

fn listed(db: &Database) -> Vec<String> {
    db.list_transfers().into_iter().map(|task| task.id).collect()
}

#[test]
fn transfers_are_listed_with_the_latest_first() {
    let mut db = fresh();
    db.save_transfer(&task("a", TransferStatus::Running, "2026-01-02"));
    db.save_transfer(&task("b", TransferStatus::Queued, "2026-01-03"));
    db.save_transfer(&task("c", TransferStatus::Failed, "2026-01-01"));
    assert_eq!(listed(&db), vec!["b", "a", "c"]);
}

#[test]
fn saving_a_transfer_again_keeps_what_it_moves() {
    let mut db = fresh();
    db.save_transfer(&task("a", TransferStatus::Running, "2026-01-02"));
    let mut again = task("a", TransferStatus::Completed, "2026-02-02");
    again.direction = TransferDirection::Download;
    again.source_path = "/elsewhere".to_string();
    again.display_name = "renamed".to_string();
    again.destination_path = "/moved".to_string();
    again.bytes_transferred = 10;
    db.save_transfer(&again);
    let stored = db.list_transfers();
    assert_eq!(stored.len(), 1);
    assert!(matches!(stored[0].direction, TransferDirection::Upload));
    assert_eq!(stored[0].source_path, "/from");
    assert_eq!(stored[0].display_name, "file");
    assert_eq!(stored[0].created_at, "2026-01-02");
    assert_eq!(stored[0].destination_path, "/moved");
    assert_eq!(stored[0].bytes_transferred, 10);
    assert!(matches!(stored[0].status, TransferStatus::Completed));
    assert_eq!(stored[0].updated_at, "2026-02-02");
}

#[test]
fn clearing_keeps_the_transfers_that_are_not_settled() {
    let mut db = fresh();
    db.save_transfer(&task("a", TransferStatus::Completed, "1"));
    db.save_transfer(&task("b", TransferStatus::Failed, "2"));
    db.save_transfer(&task("c", TransferStatus::Cancelled, "3"));
    db.save_transfer(&task("d", TransferStatus::Running, "4"));
    db.clear_completed();
    assert_eq!(listed(&db), vec!["d", "b"]);
}

#[test]
fn transfers_under_way_are_interrupted_by_a_restart() {
    let mut db = fresh();
    db.save_transfer(&task("a", TransferStatus::Running, "1"));
    db.save_transfer(&task("b", TransferStatus::Completed, "2"));
    db.interrupt_transfers_at("9");
    let stored = db.list_transfers();
    assert!(matches!(stored[0].status, TransferStatus::Completed));
    assert_eq!(stored[0].updated_at, "2");
    assert!(matches!(stored[1].status, TransferStatus::Interrupted));
    assert_eq!(stored[1].updated_at, "9");
    assert_eq!(
        stored[1].error.as_deref(),
        Some("应用上次退出时传输未完成")
    );
    let mut later = fresh();
    later.save_transfer(&task("a", TransferStatus::Queued, "1"));
    later.interrupt_transfers();
    let resumed = later.list_transfers();
    assert!(matches!(resumed[0].status, TransferStatus::Interrupted));
    assert_ne!(resumed[0].updated_at, "1");
}

#[test]
fn only_the_latest_transfers_are_listed() {
    let mut db = fresh();
    for i in 0..TRANSFER_LIMIT + 3 {
        db.save_transfer(&task(
            &format!("t{i}"),
            TransferStatus::Failed,
            &format!("{i:05}"),
        ));
    }
    let shown = listed(&db);
    assert_eq!(shown.len(), 500);
    assert_eq!(shown[0], "t502");
    assert_eq!(shown[499], "t3");
}

#[test]
fn credentials_are_looked_up_only_where_one_is_noted() {
    let mut db = fresh();
    let own = || Some("own".to_string());
    assert!(db.get_credential("b", own(), own()).is_none());
    let saved = db.save_bookmark(input("Alpha", "")).unwrap();
    db.save_credential(&saved.id);
    let found = db.get_credential(&saved.id, own(), None).unwrap();
    assert_eq!(found.secret, "own");
    assert!(!found.keep);
    let moved = db
        .get_credential(&saved.id, Some(String::new()), Some("old".to_string()))
        .unwrap();
    assert_eq!(moved.secret, "old");
    assert!(moved.keep);
    assert!(db.get_credential(&saved.id, None, None).is_none());
}

#[test]
fn a_start_prepares_what_is_stored() {
    let mut db = fresh();
    db.save_transfer(&task("a", TransferStatus::Running, "1"));
    let session = db
        .save_mux_session(MuxSessionInput {
            id: None,
            name: "Work".to_string(),
            root_path: String::new(),
            layout: None,
        })
        .unwrap();
    let record = |id: &str, timestamp: &str| ControlAuditRecord {
        id: id.to_string(),
        timestamp: timestamp.to_string(),
        caller_id: "caller".to_string(),
        caller_kind: "ui".to_string(),
        operation: "agents.list".to_string(),
        resource_kind: String::new(),
        resource_id: String::new(),
        arguments: Json::Object(Vec::new()),
        result: "success".to_string(),
        error_code: String::new(),
    };
    db.append_control_audit(record("old", "2000-01-01T00:00:00+00:00")).unwrap();
    db.append_control_audit(record("new", "9000-01-01T00:00:00+00:00")).unwrap();
    let stored = StoredRows {
        sessions: db.sessions.rows,
        transfers: db.transfers,
        audit: db.audit,
        ..empty_rows()
    };
    let started = Database::initialize(stored, &UP_TO_DATE).unwrap();
    let browsers = started.list_browser_resources(Some(&session.id));
    assert_eq!(browsers.len(), 1);
    assert_eq!(browsers[0].name, "Browser");
    assert!(matches!(
        started.list_transfers()[0].status,
        TransferStatus::Interrupted
    ));
    let kept = started.list_control_audit(10);
    assert_eq!(kept.len(), 1);
    assert_eq!(kept[0].id, "new");
}

#[test]
fn a_start_fails_where_a_session_gets_no_browser() {
    let stored = StoredRows {
        sessions: vec![MuxSession {
            id: " padded ".to_string(),
            name: "Work".to_string(),
            root_path: String::new(),
            layout: None,
            sort_order: 0,
            created_at: "1".to_string(),
            updated_at: "1".to_string(),
        }],
        ..empty_rows()
    };
    let refused = Database::initialize(stored, &UP_TO_DATE).unwrap_err();
    assert_eq!(refused, "Mux Session 不存在");
}

#[test]
fn archives_are_imported_under_the_given_ids() {
    let mut db = fresh();
    let entry = BookmarkArchiveEntry {
        id: "source".to_string(),
        name: " Alpha ".to_string(),
        host: "alpha.example.com".to_string(),
        port: 22,
        username: "test".to_string(),
        auth_type: AuthType::Agent,
        private_key_path: String::new(),
        jump_bookmark_id: String::new(),
        group_name: "Imported".to_string(),
        favorite: false,
        keepalive_enabled: true,
        keepalive_interval_seconds: 1,
        keepalive_count_max: 99,
        note: String::new(),
    };
    let result = db
        .import_bookmark_archive_as(&[entry], &[], &["fresh".to_string()], "now")
        .unwrap();
    assert_eq!(result.imported_connections, 1);
    assert_eq!(result.imported_groups, 1);
    let stored = db.get_bookmark("fresh").unwrap();
    assert_eq!(stored.name, "Alpha");
    assert_eq!(stored.keepalive_interval_seconds, 5);
    assert_eq!(stored.keepalive_count_max, 10);
    assert_eq!(stored.created_at, "now");
}

#[test]
fn a_restart_restores_sessions_and_layouts() {
    let mut db = fresh();
    let session = db
        .save_mux_session(MuxSessionInput {
            id: None,
            name: "Work".to_string(),
            root_path: "/work".to_string(),
            layout: Some(*leaf("pane")),
        })
        .unwrap();
    let stored = StoredRows {
        sessions: db.sessions.rows,
        panes: db.panes.rows,
        browsers: db.browsers.rows,
        settings: db.settings,
        ..empty_rows()
    };
    let started = Database::initialize(stored, &UP_TO_DATE).unwrap();
    let sessions = started.list_mux_sessions();
    assert_eq!(sessions.len(), 1);
    assert_eq!(sessions[0].id, session.id);
    assert_eq!(sessions[0].root_path, "/work");
    match &sessions[0].layout {
        Some(MuxSplitNode::Pane { pane_id }) => assert_eq!(pane_id, "pane"),
        other => panic!("{other:?}"),
    }
}
