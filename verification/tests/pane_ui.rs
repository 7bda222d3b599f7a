use luna_mux::database_pane_ui::{lost_reply, DatabasePaneUiBridge, LostReply, PaneUiAction};

#[test]
fn reply_is_bound_to_mounted_pane_and_request() {
    let mut bridge = DatabasePaneUiBridge::new();
    bridge.mount("pane", "mount", true).unwrap();
    let request = bridge.request("pane", PaneUiAction::Snapshot).unwrap();
    assert_eq!(request.pane_id, "pane");
    assert_eq!(request.mount_id, "mount");
    assert_eq!(request.request_id.len(), 36);
    assert!(bridge
        .respond(&request.request_id, "other", "mount", 2)
        .is_err());
    bridge
        .respond(&request.request_id, "pane", "mount", 14)
        .unwrap();
    assert!(bridge.pending.entries.is_empty());
}

#[test]
fn timeout_emit_failure_and_unmount_release_requests() {
    let mut bridge = DatabasePaneUiBridge::new();
    assert!(bridge.request("pane", PaneUiAction::Snapshot).is_err());
    bridge.mount("pane", "mount", true).unwrap();
    let late = bridge.request("pane", PaneUiAction::Snapshot).unwrap();
    bridge.release(&late.request_id);
    let unsent = bridge.request("pane", PaneUiAction::Snapshot).unwrap();
    bridge.release(&unsent.request_id);
    let gone = bridge.request("pane", PaneUiAction::Snapshot).unwrap();
    bridge.mount("pane", "mount", false).unwrap();
    assert!(bridge.respond(&gone.request_id, "pane", "mount", 2).is_err());
    assert!(bridge.pending.entries.is_empty());
}

#[test]
fn cancellation_cleans_up_and_old_unmount_cannot_remove_new_mount() {
    let mut bridge = DatabasePaneUiBridge::new();
    bridge.mount("pane", "new", true).unwrap();
    bridge.mount("pane", "old", false).unwrap();
    let request = bridge.request("pane", PaneUiAction::Snapshot).unwrap();
    assert_eq!(bridge.pending.entries.len(), 1);
    bridge.release(&request.request_id);
    assert!(bridge.pending.entries.is_empty());
    assert_eq!(bridge.mounted.get("pane").unwrap(), "new");
}

#[test]
fn controls_are_named_within_limits() {
    let click = |reference: String| PaneUiAction::Click { reference }.validate();
    assert!(click("a".to_string()).is_ok());
    assert_eq!(click(String::new()).unwrap_err(), "Invalid control ref");
    assert!(click("a".repeat(1024)).is_ok());
    assert_eq!(click("a".repeat(1025)).unwrap_err(), "Invalid control ref");
    assert_eq!(click("字".repeat(342)).unwrap_err(), "Invalid control ref");
    let fill = |value: String| {
        PaneUiAction::Fill {
            reference: "a".to_string(),
            value,
        }
        .validate()
    };
    assert!(fill("v".repeat(65536)).is_ok());
    assert_eq!(
        fill("v".repeat(65537)).unwrap_err(),
        "Control value exceeds 65536 bytes"
    );
    assert!(PaneUiAction::Snapshot.validate().is_ok());
}

#[test]
fn panes_wait_for_one_reply() {
    let mut bridge = DatabasePaneUiBridge::new();
    assert_eq!(
        bridge.mount("", "mount", true).unwrap_err(),
        "Invalid database pane mount"
    );
    assert_eq!(
        bridge.mount("pane", &"m".repeat(129), true).unwrap_err(),
        "Invalid database pane mount"
    );
    assert_eq!(
        bridge.request("pane", PaneUiAction::Snapshot).unwrap_err(),
        "Database pane UI is not mounted; open its Session first"
    );
    bridge.mount("pane", "mount", true).unwrap();
    bridge
        .request_as("pane", PaneUiAction::Snapshot, "r1".to_string())
        .unwrap();
    assert_eq!(
        bridge.request("pane", PaneUiAction::Snapshot).unwrap_err(),
        "Database pane UI already has a pending request"
    );
    assert_eq!(
        bridge.respond("r1", "pane", "mount", 524289).unwrap_err(),
        "Database UI response exceeds 512 KiB"
    );
    assert_eq!(
        bridge.respond("r2", "pane", "mount", 0).unwrap_err(),
        "Database UI request expired"
    );
    assert_eq!(
        bridge.respond("r1", "pane", "other", 0).unwrap_err(),
        "Database UI response has the wrong pane or mount"
    );
    bridge.respond("r1", "pane", "mount", 524288).unwrap();
    assert!(bridge.respond("r1", "pane", "mount", 0).is_err());
}

#[test]
fn lost_replies_are_explained() {
    assert_eq!(
        lost_reply(LostReply::TimedOut),
        "Database pane UI did not respond; inspect before retrying a click"
    );
    assert_eq!(
        lost_reply(LostReply::Unmounted),
        "Database pane UI was unmounted"
    );
    assert_eq!(
        lost_reply(LostReply::CallerGone),
        "Database UI caller disconnected"
    );
}
