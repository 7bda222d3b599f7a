use luna_mux::bookmarks::{
    clamped, create_bookmark_group, list_bookmark_groups, move_target, rename_bookmark_group,
    reorder_bookmark_groups, AuthType, Bookmark,
};
use luna_mux::control_contract::ControlErrorCode;
use luna_mux::control_diagnostics::{
    browser_status, diagnostics_browser_runtime, diagnostics_filter, managed_agent, runtime_input,
    with_remote_side, AgentSnapshot, ListedBrowser, ListedRuntime, PaneContext, RuntimeEndpoints,
};
use luna_mux::control_lists::{
    check_repair, connection_value, connections_list, repair_value, transfer_cancel, transfer_list,
    tunnel_profile, ListedConnection, TransferEntry, TransferStatus,
};
use luna_mux::json::{
    copy_json, get, get_text, is_empty_object, put_field, same_json, text_value, whole_value, Json,
};
use luna_mux::mux_layout::{
    insert_mux_pane, normalize_mux_layout, prune_mux_layout, validate_mux_layout,
    MuxSplitDirection, MuxSplitNode, SplitRatio,
};
use luna_mux::number_text::{decimal_text, hex_text, padded_text, parse_u64, signed_decimal_text};
use luna_mux::ordered_text::{insert_sorted, is_before};
use luna_mux::remote_import::{
    check_source_connections, names_in, portable_settings, snapshot_groups, without_picture,
    BookmarkArchiveEntry,
    PortForwardProfile,
};
use luna_mux::text::{lowered, replaced, split, split_lines, split_words, strip_prefix, trimmed};
use luna_mux::text_map::TextMap;

fn leaf(id: &str) -> MuxSplitNode {
    MuxSplitNode::Pane {
        pane_id: id.to_string(),
    }
}

fn ratio(value: f64) -> SplitRatio {
    SplitRatio {
        bits: value.to_bits(),
    }
}

fn pair(first: MuxSplitNode, second: MuxSplitNode, part: f64) -> MuxSplitNode {
    MuxSplitNode::Split {
        direction: MuxSplitDirection::Horizontal,
        ratio: ratio(part),
        first: Box::new(first),
        second: Box::new(second),
    }
}

fn names(list: &[&str]) -> Vec<String> {
    list.iter().map(|name| name.to_string()).collect()
}

fn shown(layout: &MuxSplitNode) -> String {
    match layout {
        MuxSplitNode::Pane { pane_id } => pane_id.clone(),
        MuxSplitNode::Split { first, second, .. } => {
            format!("({} {})", shown(first), shown(second))
        }
    }
}

#[test]
fn pruning_keeps_the_other_panes() {
    let tree = pair(leaf("a"), pair(leaf("b"), leaf("c"), 0.5), 0.5);
    assert_eq!(shown(&prune_mux_layout(tree, &names(&["b"])).unwrap()), "(a c)");
    assert!(prune_mux_layout(leaf("a"), &names(&["a"])).is_none());
}

#[test]
fn normalized_layouts_hold_each_pane_once() {
    let twice = pair(leaf("a"), pair(leaf("a"), leaf("x"), 0.5), 0.5);
    let tidy = normalize_mux_layout(Some(twice), &names(&["a", "b"])).unwrap();
    assert!(validate_mux_layout(Some(&tidy), &names(&["a", "b"])).is_ok());
    assert_eq!(shown(&tidy), "(a b)");
    assert!(normalize_mux_layout(None, &[]).is_none());
    let wide = pair(leaf("a"), leaf("b"), 0.99);
    match normalize_mux_layout(Some(wide), &names(&["a", "b"])).unwrap() {
        MuxSplitNode::Split { ratio, .. } => assert_eq!(f64::from_bits(ratio.bits), 0.9),
        other => panic!("{other:?}"),
    }
}

#[test]
fn new_panes_stand_beside_their_anchor() {
    let tree = pair(leaf("a"), leaf("b"), 0.5);
    let beside = insert_mux_pane(
        Some(tree),
        Some("a"),
        "n",
        MuxSplitDirection::Vertical,
        ratio(0.4),
    );
    assert_eq!(shown(&beside), "((a n) b)");
    let behind = insert_mux_pane(
        Some(leaf("a")),
        Some("missing"),
        "n",
        MuxSplitDirection::Vertical,
        ratio(0.4),
    );
    assert_eq!(shown(&behind), "(a n)");
    let alone = insert_mux_pane(None, None, "n", MuxSplitDirection::Vertical, ratio(0.4));
    assert_eq!(shown(&alone), "n");
}

#[test]
fn faulty_layouts_are_refused() {
    let fault = |layout: Option<MuxSplitNode>, ids: &[&str]| {
        let error = validate_mux_layout(layout.as_ref(), &names(ids)).unwrap_err();
        assert_eq!(error.code, ControlErrorCode::InvalidArguments);
        error.message
    };
    assert_eq!(
        fault(Some(leaf("x")), &["a"]),
        "布局包含不属于当前 Session 的 Pane：x"
    );
    assert_eq!(
        fault(Some(pair(leaf("a"), leaf("a"), 0.5)), &["a"]),
        "布局重复引用了 Pane：a"
    );
    assert_eq!(
        fault(Some(pair(leaf("a"), leaf("b"), 0.05)), &["a", "b"]),
        "布局 split ratio 必须在 0.1 到 0.9 之间"
    );
    assert_eq!(
        fault(Some(pair(leaf("a"), leaf("b"), f64::NAN)), &["a", "b"]),
        "布局 split ratio 必须在 0.1 到 0.9 之间"
    );
    assert_eq!(
        fault(Some(leaf("a")), &["a", "b"]),
        "布局必须且只能包含当前 Session 的全部 Pane"
    );
    let mut deep = leaf("p0");
    let mut ids = vec!["p0".to_string()];
    for level in 1..40 {
        deep = pair(leaf(&format!("p{level}")), deep, 0.5);
        ids.push(format!("p{level}"));
    }
    let error = validate_mux_layout(Some(&deep), &ids).unwrap_err();
    assert_eq!(error.message, "布局嵌套不能超过 32 层");
}

fn bookmark(id: &str, group: &str) -> Bookmark {
    Bookmark {
        id: id.to_string(),
        name: "Name".to_string(),
        host: "host".to_string(),
        port: 22,
        username: "user".to_string(),
        auth_type: AuthType::PrivateKey,
        private_key_path: "/secret/key".to_string(),
        jump_bookmark_id: String::new(),
        group_name: group.to_string(),
        favorite: true,
        last_connected_at: String::new(),
        keepalive_enabled: true,
        keepalive_interval_seconds: 15,
        keepalive_count_max: 3,
        note: "private note".to_string(),
        has_saved_credential: false,
        sort_order: 0,
        created_at: String::new(),
        updated_at: String::new(),
    }
}

#[test]
fn connections_hide_keys_and_notes() {
    let shown = connection_value(&bookmark("b", "G"), "privateKey");
    assert_eq!(get_text(&shown, "authType").unwrap(), "privateKey");
    assert_eq!(get_text(&shown, "id").unwrap(), "b");
    let written = format!("{shown:?}");
    assert!(!written.contains("/secret/key"));
    assert!(!written.contains("private note"));
    let list = connections_list(&[ListedConnection {
        bookmark: bookmark("b", "G"),
        auth_type: "agent".to_string(),
    }]);
    match list {
        Json::List(items) => assert_eq!(items.len(), 1),
        other => panic!("{other:?}"),
    }
}

#[test]
fn groups_are_listed_once() {
    let stored = names(&["A", "B"]);
    let rows = [bookmark("1", "C"), bookmark("2", "A"), bookmark("3", "")];
    let groups = list_bookmark_groups(&stored, &rows);
    for name in ["A", "B", "C", ""] {
        assert_eq!(groups.iter().filter(|group| *group == name).count(), 1);
    }
    assert!(create_bookmark_group(names(&["A"]), " A ").is_err());
    assert!(create_bookmark_group(names(&["A"]), " ").is_err());
    assert_eq!(create_bookmark_group(names(&["A"]), " B ").unwrap(), ["A", "B"]);
    assert!(rename_bookmark_group(&names(&["A", "B"]), "A", "B").is_err());
    assert!(rename_bookmark_group(&names(&["A"]), "X", "Y").is_err());
    assert!(reorder_bookmark_groups(&names(&["A", "B"]), &names(&["A", "A"])).is_err());
    assert!(move_target(&names(&["A"]), "B").is_err());
    assert_eq!(move_target(&names(&["A"]), "A").unwrap(), "A");
    assert_eq!(clamped(3, 5, 10), 5);
    assert_eq!(clamped(30, 5, 10), 10);
    assert_eq!(clamped(7, 5, 10), 7);
}

#[test]
fn transfers_are_found_by_their_session() {
    let entry = |id: &str, session: &str, status: TransferStatus| TransferEntry {
        id: id.to_string(),
        session_id: session.to_string(),
        status,
    };
    let all = [
        entry("1", "a", TransferStatus::Running),
        entry("2", "b", TransferStatus::Completed),
        entry("3", "a", TransferStatus::Failed),
    ];
    assert_eq!(transfer_list(&all, "a"), [0, 2]);
    assert_eq!(transfer_cancel(&all, "1"), Ok(true));
    assert_eq!(transfer_cancel(&all, "2"), Ok(false));
    assert_eq!(transfer_cancel(&all, "9").unwrap_err(), "传输任务不存在");
    for status in [
        TransferStatus::Queued,
        TransferStatus::Scanning,
        TransferStatus::Running,
        TransferStatus::Conflict,
        TransferStatus::Completed,
        TransferStatus::Failed,
        TransferStatus::Cancelled,
        TransferStatus::Interrupted,
    ] {
        assert_eq!(TransferStatus::parse(status.as_str()), status);
    }
    let profile = PortForwardProfile {
        id: "p".to_string(),
        bookmark_id: "b".to_string(),
        name: "n".to_string(),
        forward_type: "local".to_string(),
        bind_address: "127.0.0.1".to_string(),
        bind_port: 1,
        target_host: "h".to_string(),
        target_port: 2,
    };
    assert_eq!(tunnel_profile(&[profile], "p"), Ok(0));
    assert_eq!(tunnel_profile(&[], "p").unwrap_err(), "端口转发配置不存在");
    assert!(check_repair("remoteHelper").is_ok());
    assert_eq!(check_repair("other").unwrap_err(), "不支持的诊断修复操作");
    let repaired = repair_value("remoteHelper", "r", "/tmp/helper");
    assert!(matches!(
        get(&repaired, "requiresAgentRestart"),
        Some(Json::Bool(true))
    ));
}

#[test]
fn diagnostics_are_gathered_from_panes() {
    assert_eq!(diagnostics_filter(Some(" ".to_string())), None);
    assert_eq!(
        diagnostics_filter(Some("x ".to_string())).as_deref(),
        Some("x ")
    );
    let mut titles: TextMap<String> = TextMap::new();
    titles.insert("pane".to_string(), "Title".to_string());
    let agent = managed_agent(
        &AgentSnapshot {
            agent_id: "a".to_string(),
            runtime_id: "r".to_string(),
            pane_id: "pane".to_string(),
            mux_session_id: "s".to_string(),
            status: "Working".to_string(),
            last_activity: None,
        },
        None,
        &titles,
        &TextMap::new(),
    );
    assert_eq!(agent.adapter, "unknown");
    assert_eq!(agent.pane_title, "Title");
    assert_eq!(agent.session_name, "");
    let mut runtime = ListedRuntime {
        runtime_id: "r".to_string(),
        target_id: "ssh-bookmark:b".to_string(),
        title: "T".to_string(),
        status: "Running".to_string(),
        context: None,
        managed_agent: None,
    };
    let endpoints = RuntimeEndpoints {
        hook_endpoint: Some("http://127.0.0.1:1/".to_string()),
        hook_token: None,
        mcp_endpoint: None,
        mcp_token: None,
    };
    assert!(runtime_input(&runtime, &endpoints, true).is_none());
    runtime.managed_agent = Some(PaneContext {
        mux_session_id: "s".to_string(),
        pane_id: "pane".to_string(),
    });
    let input = runtime_input(&runtime, &endpoints, false).unwrap();
    assert!(!input.integration_enabled);
    assert_eq!(input.pane_id.as_deref(), Some("pane"));
    let full = with_remote_side(
        input,
        Ok((true, Some("log".to_string()))),
        Some("Running cdp=1".to_string()),
    );
    assert_eq!(full.remote_helper_exists, Some(true));
    assert_eq!(full.remote_helper_log.as_deref(), Some("log"));
    assert_eq!(full.browser_runtime.as_deref(), Some("Running cdp=1"));
    assert_eq!(browser_status("Running", 51860), "Running cdp=51860");
    let browsers = [ListedBrowser {
        mux_session_id: "s".to_string(),
        status: "Exited".to_string(),
        cdp_port: 0,
    }];
    assert_eq!(
        diagnostics_browser_runtime(&browsers, "s").as_deref(),
        Some("Exited cdp=0")
    );
    assert_eq!(diagnostics_browser_runtime(&browsers, "t"), None);
}

fn entry(id: &str, jump: &str) -> BookmarkArchiveEntry {
    BookmarkArchiveEntry {
        id: id.to_string(),
        name: id.to_string(),
        host: "h".to_string(),
        port: 22,
        username: "u".to_string(),
        auth_type: AuthType::Agent,
        private_key_path: String::new(),
        jump_bookmark_id: jump.to_string(),
        group_name: "G".to_string(),
        favorite: false,
        keepalive_enabled: true,
        keepalive_interval_seconds: 15,
        keepalive_count_max: 3,
        note: String::new(),
    }
}

#[test]
fn jumps_of_a_source_are_one_step() {
    assert!(check_source_connections(&[entry("a", ""), entry("b", "a")]).is_ok());
    assert_eq!(
        check_source_connections(&[entry("a", ""), entry("b", "a"), entry("c", "b")]).unwrap_err(),
        "Luna Remote 数据库包含多层跳板机，当前仅支持一层跳板机"
    );
    for faulty in [
        vec![entry("a", ""), entry("a", "")],
        vec![entry("a", "a")],
        vec![entry("a", "missing")],
        vec![entry(" ", "")],
    ] {
        assert_eq!(
            check_source_connections(&faulty).unwrap_err(),
            "Luna Remote 数据库包含无效连接或跳板机引用"
        );
    }
    let many: Vec<BookmarkArchiveEntry> =
        (0..10_001).map(|index| entry(&index.to_string(), "")).collect();
    assert_eq!(
        check_source_connections(&many).unwrap_err(),
        "Luna Remote 数据库中的连接数量过多"
    );
    assert_eq!(
        snapshot_groups(names(&["A", " "]), &[entry("a", "")]),
        ["A", "G"]
    );
}

#[test]
fn only_readable_settings_move() {
    let settings = [
        ("uiTheme".to_string(), "\"dark\"".to_string()),
        ("language".to_string(), "not json".to_string()),
        ("somethingElse".to_string(), "1".to_string()),
    ];
    let moved = portable_settings(&settings);
    assert_eq!(moved.len(), 1);
    assert_eq!(moved[0].key, "uiTheme");
    assert_eq!(moved[0].value, "\"dark\"");
}

fn moved_terminal(text: &str) -> Option<String> {
    let settings = [("terminalSettings".to_string(), text.to_string())];
    let mut moved = portable_settings(&settings);
    assert!(moved.len() < 2);
    moved.pop().map(|setting| setting.value)
}

#[test]
fn the_background_picture_does_not_move() {
    assert_eq!(
        moved_terminal("{\"backgroundImagePath\":\"/home/a/b.png\",\"fontSize\":14}").as_deref(),
        Some("{\"backgroundImagePath\":\"\",\"fontSize\":14}")
    );
    let added = moved_terminal("{ \"fontSize\": 14 }").unwrap();
    assert!(added.contains("\"backgroundImagePath\":\"\""));
    assert!(added.contains("\"fontSize\":14"));
    assert_eq!(moved_terminal("[1]"), None);
    assert_eq!(moved_terminal("no json"), None);

    let fields = without_picture(vec![
        ("a\"b".to_string(), "[1,2]".to_string()),
        ("backgroundImagePath".to_string(), "\"x\"".to_string()),
    ]);
    assert_eq!(fields[0], ("a\"b".to_string(), "[1,2]".to_string()));
    assert_eq!(fields[1].1, "\"\"");
    assert_eq!(fields.len(), 2);
}

#[test]
fn stored_names_are_read_as_a_list() {
    assert_eq!(names_in(Some("[\"A\",\"\\u0042\"]")), ["A", "B"]);
    assert!(names_in(Some("{\"A\":1}")).is_empty());
    assert!(names_in(Some("[1]")).is_empty());
    assert!(names_in(None).is_empty());
}

#[test]
fn numbers_are_written_and_read() {
    assert_eq!(decimal_text(0), "0");
    assert_eq!(decimal_text(u64::MAX), "18446744073709551615");
    assert_eq!(signed_decimal_text(-12), "-12");
    assert_eq!(padded_text(7, 3), "007");
    assert_eq!(padded_text(1234, 3), "1234");
    assert_eq!(hex_text(&[0, 255, 0x4a]), "00FF4A");
    assert_eq!(parse_u64("18446744073709551615"), Some(u64::MAX));
    assert_eq!(parse_u64("18446744073709551616"), None);
    assert_eq!(parse_u64("+7"), Some(7));
    assert_eq!(parse_u64(""), None);
    assert_eq!(parse_u64("1x"), None);
}

#[test]
fn texts_are_cut_and_compared() {
    assert_eq!(trimmed("\u{3000} a \u{85}"), "a");
    assert_eq!(lowered("AbCÄ"), "abcÄ");
    assert_eq!(replaced("a'b", '\'', "''"), "a''b");
    assert_eq!(split("a::b", ':'), ["a", "", "b"]);
    assert_eq!(split_lines("a\r\nb\n\nc"), ["a", "b", "", "c"]);
    assert_eq!(split_words("  a\tb  "), ["a", "b"]);
    assert_eq!(strip_prefix("local:x", "local:").as_deref(), Some("x"));
    assert_eq!(strip_prefix("remote:x", "local:"), None);
    assert!(is_before("a", "ab"));
    assert!(is_before("Z", "a"));
    assert!(!is_before("b", "b"));
    let mut list: Vec<String> = Vec::new();
    for item in ["b", "a", "b", "c"] {
        insert_sorted(&mut list, item.to_string());
    }
    assert_eq!(list, ["a", "b", "c"]);
}

#[test]
fn json_values_are_copied_and_compared() {
    let mut fields: Vec<(String, Json)> = Vec::new();
    put_field(&mut fields, "b", whole_value(1));
    put_field(&mut fields, "a", text_value("x"));
    put_field(&mut fields, "b", whole_value(2));
    let object = Json::Object(fields);
    let copy = copy_json(&object);
    assert!(same_json(&object, &copy));
    assert!(same_json(get(&object, "b").unwrap(), &whole_value(2)));
    assert!(!same_json(&object, &Json::Object(Vec::new())));
    assert!(is_empty_object(&Json::Object(Vec::new())));
    assert!(!is_empty_object(&Json::Null));
}
