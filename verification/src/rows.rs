//! Sessions, panes, browsers and connections as rows of their tables.
use vstd::prelude::*;
use vstd::string::*;

use crate::bookmarks::{bookmark_with, AuthType, Bookmark};
use crate::mux_layout::{copy_opt_layout, opt_layout, LayoutView};
use crate::mux_store::{
    browser_with, pane_with, session_with, BrowserResource, MuxPane, MuxPaneKind, MuxSession,
};
use crate::table::{row_with, Row};

verus! {

/// What a session holds.
pub ghost struct SessionView {
    pub id: Seq<char>,
    pub name: Seq<char>,
    pub root_path: Seq<char>,
    pub layout: Option<LayoutView>,
    pub sort_order: i64,
    pub created_at: Seq<char>,
    pub updated_at: Seq<char>,
}

impl View for MuxSession {
    type V = SessionView;

    open spec fn view(&self) -> SessionView {
        SessionView {
            id: self.id@,
            name: self.name@,
            root_path: self.root_path@,
            layout: opt_layout(self.layout),
            sort_order: self.sort_order,
            created_at: self.created_at@,
            updated_at: self.updated_at@,
        }
    }
}

impl Row for MuxSession {
    open spec fn key_id(&self) -> Seq<char> {
        self.id@
    }

    open spec fn key_group(&self) -> Seq<char> {
        ""@
    }

    open spec fn key_order(&self) -> int {
        self.sort_order as int
    }

    open spec fn key_time(&self) -> Seq<char> {
        self.created_at@
    }

    fn row_id(&self) -> (r: &str) {
        self.id.as_str()
    }

    fn row_group(&self) -> (r: &str) {
        ""
    }

    fn row_order(&self) -> (r: i64) {
        self.sort_order
    }

    fn row_time(&self) -> (r: &str) {
        self.created_at.as_str()
    }

    fn copy_row(&self) -> (r: Self) {
        MuxSession {
            id: self.id.clone(),
            name: self.name.clone(),
            root_path: self.root_path.clone(),
            layout: copy_opt_layout(&self.layout),
            sort_order: self.sort_order,
            created_at: self.created_at.clone(),
            updated_at: self.updated_at.clone(),
        }
    }
}

/// What a pane holds.
pub ghost struct PaneView {
    pub id: Seq<char>,
    pub mux_session_id: Seq<char>,
    pub kind: MuxPaneKind,
    pub title: Seq<char>,
    pub target_id: Seq<char>,
    pub bookmark_id: Seq<char>,
    pub cwd: Seq<char>,
    pub command: Seq<char>,
    pub launch_profile_id: Seq<char>,
    pub sort_order: i64,
    pub created_at: Seq<char>,
    pub updated_at: Seq<char>,
}

impl View for MuxPane {
    type V = PaneView;

    open spec fn view(&self) -> PaneView {
        PaneView {
            id: self.id@,
            mux_session_id: self.mux_session_id@,
            kind: self.kind,
            title: self.title@,
            target_id: self.target_id@,
            bookmark_id: self.bookmark_id@,
            cwd: self.cwd@,
            command: self.command@,
            launch_profile_id: self.launch_profile_id@,
            sort_order: self.sort_order,
            created_at: self.created_at@,
            updated_at: self.updated_at@,
        }
    }
}

impl Row for MuxPane {
    open spec fn key_id(&self) -> Seq<char> {
        self.id@
    }

    open spec fn key_group(&self) -> Seq<char> {
        self.mux_session_id@
    }

    open spec fn key_order(&self) -> int {
        self.sort_order as int
    }

    open spec fn key_time(&self) -> Seq<char> {
        self.created_at@
    }

    fn row_id(&self) -> (r: &str) {
        self.id.as_str()
    }

    fn row_group(&self) -> (r: &str) {
        self.mux_session_id.as_str()
    }

    fn row_order(&self) -> (r: i64) {
        self.sort_order
    }

    fn row_time(&self) -> (r: &str) {
        self.created_at.as_str()
    }

    fn copy_row(&self) -> (r: Self) {
        MuxPane {
            id: self.id.clone(),
            mux_session_id: self.mux_session_id.clone(),
            kind: self.kind,
            title: self.title.clone(),
            target_id: self.target_id.clone(),
            bookmark_id: self.bookmark_id.clone(),
            cwd: self.cwd.clone(),
            command: self.command.clone(),
            launch_profile_id: self.launch_profile_id.clone(),
            sort_order: self.sort_order,
            created_at: self.created_at.clone(),
            updated_at: self.updated_at.clone(),
        }
    }
}

/// What a browser holds.
pub ghost struct BrowserView {
    pub id: Seq<char>,
    pub mux_session_id: Seq<char>,
    pub name: Seq<char>,
    pub source_pane_id: Seq<char>,
    pub bookmark_id: Seq<char>,
    pub url: Seq<char>,
    pub temporary_profile: bool,
    pub sort_order: i64,
    pub created_at: Seq<char>,
    pub updated_at: Seq<char>,
}

impl View for BrowserResource {
    type V = BrowserView;

    open spec fn view(&self) -> BrowserView {
        BrowserView {
            id: self.id@,
            mux_session_id: self.mux_session_id@,
            name: self.name@,
            source_pane_id: self.source_pane_id@,
            bookmark_id: self.bookmark_id@,
            url: self.url@,
            temporary_profile: self.temporary_profile,
            sort_order: self.sort_order,
            created_at: self.created_at@,
            updated_at: self.updated_at@,
        }
    }
}

impl Row for BrowserResource {
    open spec fn key_id(&self) -> Seq<char> {
        self.id@
    }

    open spec fn key_group(&self) -> Seq<char> {
        self.mux_session_id@
    }

    open spec fn key_order(&self) -> int {
        self.sort_order as int
    }

    open spec fn key_time(&self) -> Seq<char> {
        self.created_at@
    }

    fn row_id(&self) -> (r: &str) {
        self.id.as_str()
    }

    fn row_group(&self) -> (r: &str) {
        self.mux_session_id.as_str()
    }

    fn row_order(&self) -> (r: i64) {
        self.sort_order
    }

    fn row_time(&self) -> (r: &str) {
        self.created_at.as_str()
    }

    fn copy_row(&self) -> (r: Self) {
        BrowserResource {
            id: self.id.clone(),
            mux_session_id: self.mux_session_id.clone(),
            name: self.name.clone(),
            source_pane_id: self.source_pane_id.clone(),
            bookmark_id: self.bookmark_id.clone(),
            url: self.url.clone(),
            temporary_profile: self.temporary_profile,
            sort_order: self.sort_order,
            created_at: self.created_at.clone(),
            updated_at: self.updated_at.clone(),
        }
    }
}

/// What a connection holds.
pub ghost struct BookmarkView {
    pub id: Seq<char>,
    pub name: Seq<char>,
    pub host: Seq<char>,
    pub port: u16,
    pub username: Seq<char>,
    pub auth_type: AuthType,
    pub private_key_path: Seq<char>,
    pub jump_bookmark_id: Seq<char>,
    pub group_name: Seq<char>,
    pub favorite: bool,
    pub last_connected_at: Seq<char>,
    pub keepalive_enabled: bool,
    pub keepalive_interval_seconds: u32,
    pub keepalive_count_max: u32,
    pub note: Seq<char>,
    pub has_saved_credential: bool,
    pub sort_order: i64,
    pub created_at: Seq<char>,
    pub updated_at: Seq<char>,
}

impl View for Bookmark {
    type V = BookmarkView;

    open spec fn view(&self) -> BookmarkView {
        BookmarkView {
            id: self.id@,
            name: self.name@,
            host: self.host@,
            port: self.port,
            username: self.username@,
            auth_type: self.auth_type,
            private_key_path: self.private_key_path@,
            jump_bookmark_id: self.jump_bookmark_id@,
            group_name: self.group_name@,
            favorite: self.favorite,
            last_connected_at: self.last_connected_at@,
            keepalive_enabled: self.keepalive_enabled,
            keepalive_interval_seconds: self.keepalive_interval_seconds,
            keepalive_count_max: self.keepalive_count_max,
            note: self.note@,
            has_saved_credential: self.has_saved_credential,
            sort_order: self.sort_order,
            created_at: self.created_at@,
            updated_at: self.updated_at@,
        }
    }
}

impl Row for Bookmark {
    open spec fn key_id(&self) -> Seq<char> {
        self.id@
    }

    open spec fn key_group(&self) -> Seq<char> {
        ""@
    }

    open spec fn key_order(&self) -> int {
        self.sort_order as int
    }

    open spec fn key_time(&self) -> Seq<char> {
        self.created_at@
    }

    fn row_id(&self) -> (r: &str) {
        self.id.as_str()
    }

    fn row_group(&self) -> (r: &str) {
        ""
    }

    fn row_order(&self) -> (r: i64) {
        self.sort_order
    }

    fn row_time(&self) -> (r: &str) {
        self.created_at.as_str()
    }

    fn copy_row(&self) -> (r: Self) {
        Bookmark {
            id: self.id.clone(),
            name: self.name.clone(),
            host: self.host.clone(),
            port: self.port,
            username: self.username.clone(),
            auth_type: self.auth_type,
            private_key_path: self.private_key_path.clone(),
            jump_bookmark_id: self.jump_bookmark_id.clone(),
            group_name: self.group_name.clone(),
            favorite: self.favorite,
            last_connected_at: self.last_connected_at.clone(),
            keepalive_enabled: self.keepalive_enabled,
            keepalive_interval_seconds: self.keepalive_interval_seconds,
            keepalive_count_max: self.keepalive_count_max,
            note: self.note.clone(),
            has_saved_credential: self.has_saved_credential,
            sort_order: self.sort_order,
            created_at: self.created_at.clone(),
            updated_at: self.updated_at.clone(),
        }
    }
}

/// Looking up a session in the list is looking up its row.
pub proof fn lemma_session_row(rows: Seq<MuxSession>, id: Seq<char>)
    ensures
        session_with(rows, id) == row_with(rows, id),
    decreases rows.len(),
{
    if rows.len() > 0 {
        lemma_session_row(rows.skip(1), id);
    }
}

/// Looking up a pane in the list is looking up its row.
pub proof fn lemma_pane_row(rows: Seq<MuxPane>, id: Seq<char>)
    ensures
        pane_with(rows, id) == row_with(rows, id),
    decreases rows.len(),
{
    if rows.len() > 0 {
        lemma_pane_row(rows.skip(1), id);
    }
}

/// Looking up a connection in the list is looking up its row.
pub proof fn lemma_bookmark_row(rows: Seq<Bookmark>, id: Seq<char>)
    ensures
        bookmark_with(rows, id) == row_with(rows, id),
    decreases rows.len(),
{
    if rows.len() > 0 {
        lemma_bookmark_row(rows.skip(1), id);
    }
}

/// Looking up a browser in the list is looking up its row.
pub proof fn lemma_browser_row(rows: Seq<BrowserResource>, id: Seq<char>)
    ensures
        browser_with(rows, id) == row_with(rows, id),
    decreases rows.len(),
{
    if rows.len() > 0 {
        lemma_browser_row(rows.skip(1), id);
    }
}

} // verus!
