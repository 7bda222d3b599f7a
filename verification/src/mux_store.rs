//! Sessions, panes and browser resources as they are stored.
use vstd::prelude::*;
use vstd::string::*;

use crate::ids::{is_uuid_text, new_id};
use crate::mux_layout::{
    opt_layout, prune_mux_layout, pruned, LayoutView, MuxSplitNode,
};
use crate::text::{is_blank, list_has, same, trim, trimmed, views};

verus! {

/// A session: a set of panes with a layout.
#[derive(Debug)]
pub struct MuxSession {
    pub id: String,
    pub name: String,
    pub root_path: String,
    pub layout: Option<MuxSplitNode>,
    pub sort_order: i64,
    pub created_at: String,
    pub updated_at: String,
}

/// A session to save. With an id it replaces the session with that id.
#[derive(Debug)]
pub struct MuxSessionInput {
    pub id: Option<String>,
    pub name: String,
    pub root_path: String,
    pub layout: Option<MuxSplitNode>,
}

/// What a pane shows.
#[derive(Clone, Copy, Debug, PartialEq, Eq, Structural)]
pub enum MuxPaneKind {
    Terminal,
    Browser,
    Database,
}

/// A pane of a session.
#[derive(Debug)]
pub struct MuxPane {
    pub id: String,
    pub mux_session_id: String,
    pub kind: MuxPaneKind,
    pub title: String,
    pub target_id: String,
    pub bookmark_id: String,
    pub cwd: String,
    pub command: String,
    pub launch_profile_id: String,
    pub sort_order: i64,
    pub created_at: String,
    pub updated_at: String,
}

/// A pane to save. With an id it replaces the pane with that id.
#[derive(Debug)]
pub struct MuxPaneInput {
    pub id: Option<String>,
    pub mux_session_id: String,
    pub kind: MuxPaneKind,
    pub title: String,
    pub target_id: String,
    pub bookmark_id: String,
    pub cwd: String,
    pub command: String,
    pub launch_profile_id: String,
}

/// The browser of a session.
#[derive(Debug)]
pub struct BrowserResource {
    pub id: String,
    pub mux_session_id: String,
    pub name: String,
    pub source_pane_id: String,
    pub bookmark_id: String,
    pub url: String,
    pub temporary_profile: bool,
    pub sort_order: i64,
    pub created_at: String,
    pub updated_at: String,
}

/// A browser to save. With an id it replaces the browser with that id.
#[derive(Debug)]
pub struct BrowserResourceInput {
    pub id: Option<String>,
    pub mux_session_id: String,
    pub name: String,
    pub source_pane_id: String,
    pub bookmark_id: String,
    pub url: String,
    pub temporary_profile: bool,
}

/// The id to save under: the given one where it is not blank, else the fresh one.
pub open spec fn id_or(id: Option<String>, fresh: Seq<char>) -> Seq<char> {
    match id {
        Some(own) if trim(own@).len() > 0 => own@,
        _ => fresh,
    }
}

fn choose_id(id: &Option<String>, fresh: String) -> (r: String)
    ensures
        r@ == id_or(*id, fresh@),
{
    match id {
        Some(own) => if is_blank(own.as_str()) {
            fresh
        } else {
            own.clone()
        },
        None => fresh,
    }
}

/// The session with this id; the first where more than one has it.
pub open spec fn session_with(list: Seq<MuxSession>, id: Seq<char>) -> Option<MuxSession>
    decreases list.len(),
{
    if list.len() == 0 {
        None
    } else if list[0].id@ == id {
        Some(list[0])
    } else {
        session_with(list.skip(1), id)
    }
}

/// The session with this id.
pub fn find_session<'a>(list: &'a [MuxSession], id: &str) -> (r: Option<&'a MuxSession>)
    ensures
        match r {
            Some(s) => session_with(list@, id@) == Some(*s),
            None => session_with(list@, id@) is None,
        },
{
    let mut i: usize = 0;
    assert(list@.skip(0) =~= list@);
    while i < list.len()
        invariant
            i <= list@.len(),
            session_with(list@, id@) == session_with(list@.skip(i as int), id@),
        decreases list@.len() - i,
    {
        if same(list[i].id.as_str(), id) {
            return Some(&list[i]);
        }
        proof {
            assert(list@.skip(i as int).skip(1) =~= list@.skip(i + 1));
        }
        i = i + 1;
    }
    None
}

/// The pane with this id; the first where more than one has it.
pub open spec fn pane_with(list: Seq<MuxPane>, id: Seq<char>) -> Option<MuxPane>
    decreases list.len(),
{
    if list.len() == 0 {
        None
    } else if list[0].id@ == id {
        Some(list[0])
    } else {
        pane_with(list.skip(1), id)
    }
}

/// The pane with this id.
pub fn find_pane<'a>(list: &'a [MuxPane], id: &str) -> (r: Option<&'a MuxPane>)
    ensures
        match r {
            Some(p) => pane_with(list@, id@) == Some(*p),
            None => pane_with(list@, id@) is None,
        },
{
    let mut i: usize = 0;
    assert(list@.skip(0) =~= list@);
    while i < list.len()
        invariant
            i <= list@.len(),
            pane_with(list@, id@) == pane_with(list@.skip(i as int), id@),
        decreases list@.len() - i,
    {
        if same(list[i].id.as_str(), id) {
            return Some(&list[i]);
        }
        proof {
            assert(list@.skip(i as int).skip(1) =~= list@.skip(i + 1));
        }
        i = i + 1;
    }
    None
}

/// The browser with this id; the first where more than one has it.
pub open spec fn browser_with(list: Seq<BrowserResource>, id: Seq<char>) -> Option<BrowserResource>
    decreases list.len(),
{
    if list.len() == 0 {
        None
    } else if list[0].id@ == id {
        Some(list[0])
    } else {
        browser_with(list.skip(1), id)
    }
}

fn find_browser<'a>(list: &'a [BrowserResource], id: &str) -> (r: Option<&'a BrowserResource>)
    ensures
        match r {
            Some(b) => browser_with(list@, id@) == Some(*b),
            None => browser_with(list@, id@) is None,
        },
{
    let mut i: usize = 0;
    assert(list@.skip(0) =~= list@);
    while i < list.len()
        invariant
            i <= list@.len(),
            browser_with(list@, id@) == browser_with(list@.skip(i as int), id@),
        decreases list@.len() - i,
    {
        if same(list[i].id.as_str(), id) {
            return Some(&list[i]);
        }
        proof {
            assert(list@.skip(i as int).skip(1) =~= list@.skip(i + 1));
        }
        i = i + 1;
    }
    None
}

/// The session to save. One that is replaced keeps its place and the moment it was made.
pub open spec fn is_saved_session(
    s: MuxSession,
    input: MuxSessionInput,
    list: Seq<MuxSession>,
    fresh_id: Seq<char>,
    next_sort_order: i64,
    now: Seq<char>,
) -> bool {
    &&& s.id@ == id_or(input.id, fresh_id)
    &&& s.name@ == trim(input.name@)
    &&& s.root_path@ == trim(input.root_path@)
    &&& opt_layout(s.layout) == opt_layout(input.layout)
    &&& s.updated_at@ == now
    &&& match session_with(list, s.id@) {
        Some(old_one) => s.sort_order == old_one.sort_order && s.created_at@ == old_one.created_at@,
        None => s.sort_order == next_sort_order && s.created_at@ == now,
    }
}

/// Prepares a session for saving, under the given id where it has none.
pub fn save_mux_session_with(
    input: MuxSessionInput,
    sessions: &[MuxSession],
    fresh_id: String,
    next_sort_order: i64,
    now: &str,
) -> (r: Result<MuxSession, String>)
    ensures
        if trim(input.name@).len() == 0 {
            r is Err && r->Err_0@ == "Session 名称不能为空"@
        } else {
            r is Ok && is_saved_session(
                r->Ok_0,
                input,
                sessions@,
                fresh_id@,
                next_sort_order,
                now@,
            )
        },
{
    let name = trimmed(input.name.as_str());
    if name.as_str().is_empty() {
        return Err("Session 名称不能为空".to_owned());
    }
    let id = choose_id(&input.id, fresh_id);
    let (sort_order, created_at) = match find_session(sessions, id.as_str()) {
        Some(s) => (s.sort_order, s.created_at.clone()),
        None => (next_sort_order, now.to_owned()),
    };
    Ok(
        MuxSession {
            id,
            name,
            root_path: trimmed(input.root_path.as_str()),
            layout: input.layout,
            sort_order,
            created_at,
            updated_at: now.to_owned(),
        },
    )
}

/// Prepares a session for saving, under a fresh id where it has none.
pub fn save_mux_session(
    input: MuxSessionInput,
    sessions: &[MuxSession],
    next_sort_order: i64,
    now: &str,
) -> (r: Result<MuxSession, String>)
    ensures
        if trim(input.name@).len() == 0 {
            r is Err && r->Err_0@ == "Session 名称不能为空"@
        } else {
            r is Ok && exists|fresh_id: Seq<char>|
                is_uuid_text(fresh_id) && #[trigger] is_saved_session(
                    r->Ok_0,
                    input,
                    sessions@,
                    fresh_id,
                    next_sort_order,
                    now@,
                )
        },
{
    let fresh_id = new_id();
    save_mux_session_with(input, sessions, fresh_id, next_sort_order, now)
}

/// Why a pane is refused.
pub ghost enum PaneFault {
    Incomplete,
    Browser,
    NoTarget,
    NoSession,
}

/// The first fault of a pane to save.
pub open spec fn pane_fault(input: MuxPaneInput, session_exists: bool) -> Option<PaneFault> {
    if trim(input.mux_session_id@).len() == 0 || trim(input.title@).len() == 0 {
        Some(PaneFault::Incomplete)
    } else if input.kind == MuxPaneKind::Browser {
        Some(PaneFault::Browser)
    } else if input.kind == MuxPaneKind::Terminal && trim(input.target_id@).len() == 0 {
        Some(PaneFault::NoTarget)
    } else if !session_exists {
        Some(PaneFault::NoSession)
    } else {
        None
    }
}

/// The message for a fault.
pub open spec fn pane_fault_text(fault: PaneFault) -> Seq<char> {
    match fault {
        PaneFault::Incomplete => "Pane 必须属于一个 Session，且名称不能为空"@,
        PaneFault::Browser => "浏览器是会话级资源，不能保存为 Pane"@,
        PaneFault::NoTarget => "Terminal Pane 必须指定 targetId"@,
        PaneFault::NoSession => "Mux Session 不存在"@,
    }
}

/// The pane to save. One that is replaced keeps its place and the moment it was made.
pub open spec fn is_saved_pane(
    p: MuxPane,
    input: MuxPaneInput,
    list: Seq<MuxPane>,
    fresh_id: Seq<char>,
    next_sort_order: i64,
    now: Seq<char>,
) -> bool {
    &&& p.id@ == id_or(input.id, fresh_id)
    &&& p.mux_session_id@ == trim(input.mux_session_id@)
    &&& p.kind == input.kind
    &&& p.title@ == trim(input.title@)
    &&& p.target_id@ == trim(input.target_id@)
    &&& p.bookmark_id@ == trim(input.bookmark_id@)
    &&& p.cwd@ == trim(input.cwd@)
    &&& p.command@ == trim(input.command@)
    &&& p.launch_profile_id@ == trim(input.launch_profile_id@)
    &&& p.updated_at@ == now
    &&& match pane_with(list, p.id@) {
        Some(old_one) => p.sort_order == old_one.sort_order && p.created_at@ == old_one.created_at@,
        None => p.sort_order == next_sort_order && p.created_at@ == now,
    }
}

/// Tells what is wrong with a pane that is to be saved.
pub fn check_pane(input: &MuxPaneInput, session_exists: bool) -> (r: Result<(), String>)
    ensures
        match pane_fault(*input, session_exists) {
            Some(fault) => r is Err && r->Err_0@ == pane_fault_text(fault),
            None => r is Ok,
        },
{
    if is_blank(input.mux_session_id.as_str()) || is_blank(input.title.as_str()) {
        return Err("Pane 必须属于一个 Session，且名称不能为空".to_owned());
    }
    if input.kind == MuxPaneKind::Browser {
        return Err("浏览器是会话级资源，不能保存为 Pane".to_owned());
    }
    if input.kind == MuxPaneKind::Terminal && is_blank(input.target_id.as_str()) {
        return Err("Terminal Pane 必须指定 targetId".to_owned());
    }
    if !session_exists {
        return Err("Mux Session 不存在".to_owned());
    }
    Ok(())
}

/// Prepares a pane for saving, under the given id where it has none. `session_exists` tells
/// whether the session that it names is stored.
pub fn save_mux_pane_with(
    input: MuxPaneInput,
    session_exists: bool,
    panes: &[MuxPane],
    fresh_id: String,
    next_sort_order: i64,
    now: &str,
) -> (r: Result<MuxPane, String>)
    ensures
        match pane_fault(input, session_exists) {
            Some(fault) => r is Err && r->Err_0@ == pane_fault_text(fault),
            None => r is Ok && is_saved_pane(
                r->Ok_0,
                input,
                panes@,
                fresh_id@,
                next_sort_order,
                now@,
            ),
        },
{
    match check_pane(&input, session_exists) {
        Err(message) => {
            return Err(message);
        },
        Ok(()) => {},
    }
    let id = choose_id(&input.id, fresh_id);
    let (sort_order, created_at) = match find_pane(panes, id.as_str()) {
        Some(p) => (p.sort_order, p.created_at.clone()),
        None => (next_sort_order, now.to_owned()),
    };
    Ok(
        MuxPane {
            id,
            mux_session_id: trimmed(input.mux_session_id.as_str()),
            kind: input.kind,
            title: trimmed(input.title.as_str()),
            target_id: trimmed(input.target_id.as_str()),
            bookmark_id: trimmed(input.bookmark_id.as_str()),
            cwd: trimmed(input.cwd.as_str()),
            command: trimmed(input.command.as_str()),
            launch_profile_id: trimmed(input.launch_profile_id.as_str()),
            sort_order,
            created_at,
            updated_at: now.to_owned(),
        },
    )
}

/// Prepares a pane for saving, under a fresh id where it has none.
pub fn save_mux_pane(
    input: MuxPaneInput,
    session_exists: bool,
    panes: &[MuxPane],
    next_sort_order: i64,
    now: &str,
) -> (r: Result<MuxPane, String>)
    ensures
        match pane_fault(input, session_exists) {
            Some(fault) => r is Err && r->Err_0@ == pane_fault_text(fault),
            None => r is Ok && exists|fresh_id: Seq<char>|
                is_uuid_text(fresh_id) && #[trigger] is_saved_pane(
                    r->Ok_0,
                    input,
                    panes@,
                    fresh_id,
                    next_sort_order,
                    now@,
                ),
        },
{
    let fresh_id = new_id();
    save_mux_pane_with(input, session_exists, panes, fresh_id, next_sort_order, now)
}

/// The pane is the named one and connects to the named bookmark.
pub open spec fn is_source_pane(p: MuxPane, pane_id: Seq<char>, bookmark_id: Seq<char>) -> bool {
    p.id@ == pane_id && p.bookmark_id@.len() > 0 && p.bookmark_id@ == bookmark_id
}

/// Some pane of the list is the named one and connects to the named bookmark.
pub open spec fn has_source_pane(
    panes: Seq<MuxPane>,
    pane_id: Seq<char>,
    bookmark_id: Seq<char>,
) -> bool {
    exists|i: int| 0 <= i < panes.len() && #[trigger] is_source_pane(panes[i], pane_id, bookmark_id)
}

/// Another browser belongs to the session.
pub open spec fn has_other_browser(
    list: Seq<BrowserResource>,
    session_id: Seq<char>,
    id: Seq<char>,
) -> bool {
    exists|i: int|
        0 <= i < list.len() && (#[trigger] list[i]).mux_session_id@ == session_id && list[i].id@
            != id
}

/// Why a browser is refused.
pub ghost enum BrowserFault {
    Incomplete,
    NoSession,
    NoSource,
    SecondBrowser,
}

/// The first fault of a browser to save under the given id.
pub open spec fn browser_fault(
    input: BrowserResourceInput,
    session_exists: bool,
    session_panes: Seq<MuxPane>,
    list: Seq<BrowserResource>,
    id: Seq<char>,
) -> Option<BrowserFault> {
    let session = trim(input.mux_session_id@);
    let source = trim(input.source_pane_id@);
    if session.len() == 0 || trim(input.name@).len() == 0 {
        Some(BrowserFault::Incomplete)
    } else if !session_exists {
        Some(BrowserFault::NoSession)
    } else if source.len() > 0 && !has_source_pane(session_panes, source, trim(input.bookmark_id@)) {
        Some(BrowserFault::NoSource)
    } else if has_other_browser(list, session, id) {
        Some(BrowserFault::SecondBrowser)
    } else {
        None
    }
}

/// The message for a fault.
pub open spec fn browser_fault_text(fault: BrowserFault) -> Seq<char> {
    match fault {
        BrowserFault::Incomplete => "浏览器资源必须属于一个会话，且名称不能为空"@,
        BrowserFault::NoSession => "Mux Session 不存在"@,
        BrowserFault::NoSource => "浏览器资源引用的 SSH 窗格与当前会话或目标不匹配"@,
        BrowserFault::SecondBrowser => "每个 Mux Session 只能关联一个浏览器资源"@,
    }
}

/// The browser to save. One that is replaced keeps its place and the moment it was made.
pub open spec fn is_saved_browser(
    b: BrowserResource,
    input: BrowserResourceInput,
    list: Seq<BrowserResource>,
    fresh_id: Seq<char>,
    next_sort_order: i64,
    now: Seq<char>,
) -> bool {
    &&& b.id@ == id_or(input.id, fresh_id)
    &&& b.mux_session_id@ == trim(input.mux_session_id@)
    &&& b.name@ == trim(input.name@)
    &&& b.source_pane_id@ == trim(input.source_pane_id@)
    &&& b.bookmark_id@ == trim(input.bookmark_id@)
    &&& b.url@ == trim(input.url@)
    &&& b.temporary_profile == input.temporary_profile
    &&& b.updated_at@ == now
    &&& match browser_with(list, b.id@) {
        Some(old_one) => b.sort_order == old_one.sort_order && b.created_at@ == old_one.created_at@,
        None => b.sort_order == next_sort_order && b.created_at@ == now,
    }
}

/// Prepares a browser for saving, under the given id where it has none. `session_panes` are the
/// panes of the session that it names, `browsers` all stored browsers.
pub fn save_browser_resource_with(
    input: BrowserResourceInput,
    session_exists: bool,
    session_panes: &[MuxPane],
    browsers: &[BrowserResource],
    fresh_id: String,
    next_sort_order: i64,
    now: &str,
) -> (r: Result<BrowserResource, String>)
    ensures
        match browser_fault(
            input,
            session_exists,
            session_panes@,
            browsers@,
            id_or(input.id, fresh_id@),
        ) {
            Some(fault) => r is Err && r->Err_0@ == browser_fault_text(fault),
            None => r is Ok && is_saved_browser(
                r->Ok_0,
                input,
                browsers@,
                fresh_id@,
                next_sort_order,
                now@,
            ),
        },
{
    let mux_session_id = trimmed(input.mux_session_id.as_str());
    let name = trimmed(input.name.as_str());
    if mux_session_id.as_str().is_empty() || name.as_str().is_empty() {
        return Err("浏览器资源必须属于一个会话，且名称不能为空".to_owned());
    }
    if !session_exists {
        return Err("Mux Session 不存在".to_owned());
    }
    let source_pane_id = trimmed(input.source_pane_id.as_str());
    let bookmark_id = trimmed(input.bookmark_id.as_str());
    if !source_pane_id.as_str().is_empty() && !any_source_pane(
        session_panes,
        source_pane_id.as_str(),
        bookmark_id.as_str(),
    ) {
        return Err("浏览器资源引用的 SSH 窗格与当前会话或目标不匹配".to_owned());
    }
    let id = choose_id(&input.id, fresh_id);
    if any_other_browser(browsers, mux_session_id.as_str(), id.as_str()) {
        return Err("每个 Mux Session 只能关联一个浏览器资源".to_owned());
    }
    let (sort_order, created_at) = match find_browser(browsers, id.as_str()) {
        Some(b) => (b.sort_order, b.created_at.clone()),
        None => (next_sort_order, now.to_owned()),
    };
    Ok(
        BrowserResource {
            id,
            mux_session_id,
            name,
            source_pane_id,
            bookmark_id,
            url: trimmed(input.url.as_str()),
            temporary_profile: input.temporary_profile,
            sort_order,
            created_at,
            updated_at: now.to_owned(),
        },
    )
}

fn any_source_pane(panes: &[MuxPane], pane_id: &str, bookmark_id: &str) -> (r: bool)
    ensures
        r == has_source_pane(panes@, pane_id@, bookmark_id@),
{
    let mut i: usize = 0;
    while i < panes.len()
        invariant
            i <= panes@.len(),
            forall|k: int|
                0 <= k < i ==> !#[trigger] is_source_pane(panes@[k], pane_id@, bookmark_id@),
        decreases panes@.len() - i,
    {
        let p = &panes[i];
        if same(p.id.as_str(), pane_id) && !p.bookmark_id.as_str().is_empty() && same(
            p.bookmark_id.as_str(),
            bookmark_id,
        ) {
            assert(is_source_pane(panes@[i as int], pane_id@, bookmark_id@));
            return true;
        }
        i = i + 1;
    }
    false
}

fn any_other_browser(list: &[BrowserResource], session_id: &str, id: &str) -> (r: bool)
    ensures
        r == has_other_browser(list@, session_id@, id@),
{
    let mut i: usize = 0;
    while i < list.len()
        invariant
            i <= list@.len(),
            forall|k: int|
                0 <= k < i ==> !((#[trigger] list@[k]).mux_session_id@ == session_id@
                    && list@[k].id@ != id@),
        decreases list@.len() - i,
    {
        let b = &list[i];
        if same(b.mux_session_id.as_str(), session_id) && !same(b.id.as_str(), id) {
            assert(list@[i as int].mux_session_id@ == session_id@);
            return true;
        }
        i = i + 1;
    }
    false
}

/// Prepares a browser for saving, under a fresh id where it has none.
pub fn save_browser_resource(
    input: BrowserResourceInput,
    session_exists: bool,
    session_panes: &[MuxPane],
    browsers: &[BrowserResource],
    next_sort_order: i64,
    now: &str,
) -> (r: Result<BrowserResource, String>)
    ensures
        exists|fresh_id: Seq<char>|
            is_uuid_text(fresh_id) && match #[trigger] browser_fault(
                input,
                session_exists,
                session_panes@,
                browsers@,
                id_or(input.id, fresh_id),
            ) {
                Some(fault) => r is Err && r->Err_0@ == browser_fault_text(fault),
                None => r is Ok && is_saved_browser(
                    r->Ok_0,
                    input,
                    browsers@,
                    fresh_id,
                    next_sort_order,
                    now@,
                ),
            },
{
    let fresh_id = new_id();
    let ghost fresh = fresh_id@;
    let r = save_browser_resource_with(
        input,
        session_exists,
        session_panes,
        browsers,
        fresh_id,
        next_sort_order,
        now,
    );
    assert(is_uuid_text(fresh));
    r
}

/// The browser that a session gets where it has none.
pub fn default_browser_input(mux_session_id: &str) -> (r: BrowserResourceInput)
    ensures
        r.id is None,
        r.mux_session_id@ == mux_session_id@,
        r.name@ == "Browser"@,
        r.source_pane_id@.len() == 0,
        r.bookmark_id@.len() == 0,
        r.url@.len() == 0,
        !r.temporary_profile,
{
    BrowserResourceInput {
        id: None,
        mux_session_id: mux_session_id.to_owned(),
        name: "Browser".to_owned(),
        source_pane_id: String::new(),
        bookmark_id: String::new(),
        url: String::new(),
        temporary_profile: false,
    }
}

/// The changes that bring an older database up to date.
#[derive(Clone, Copy, Debug, PartialEq, Eq, Structural)]
pub struct MigrationPlan {
    pub add_session_layout: bool,
    pub add_launch_profile: bool,
    pub move_browser_panes: bool,
    pub add_bookmark_order: bool,
}

/// The changes that a database needs, by the columns that its tables have.
pub fn plan_migration(
    session_columns: &[String],
    pane_columns: &[String],
    grant_columns: &[String],
    bookmark_columns: &[String],
) -> (r: MigrationPlan)
    ensures
        r.add_session_layout == !views(session_columns@).contains("layoutJson"@),
        r.add_launch_profile == !views(pane_columns@).contains("launchProfileId"@),
        r.move_browser_panes == !views(grant_columns@).contains("targetResourceKind"@),
        r.add_bookmark_order == !views(bookmark_columns@).contains("sortOrder"@),
{
    MigrationPlan {
        add_session_layout: !list_has(session_columns, "layoutJson"),
        add_launch_profile: !list_has(pane_columns, "launchProfileId"),
        move_browser_panes: !list_has(grant_columns, "targetResourceKind"),
        add_bookmark_order: !list_has(bookmark_columns, "sortOrder"),
    }
}

/// The layout of a session once its browser panes became resources.
pub open spec fn migrated(layout: Option<LayoutView>, browser_panes: Seq<Seq<char>>) -> Option<
    LayoutView,
> {
    match layout {
        Some(v) => pruned(v, browser_panes),
        None => None,
    }
}

/// The layout of a session once its browser panes became resources.
pub fn migrate_layout(layout: Option<MuxSplitNode>, browser_pane_ids: &[String]) -> (r: Option<
    MuxSplitNode,
>)
    ensures
        opt_layout(r) == migrated(opt_layout(layout), views(browser_pane_ids@)),
{
    match layout {
        Some(node) => prune_mux_layout(node, browser_pane_ids),
        None => None,
    }
}

/// An older database is brought up to date exactly in what it lacks.
pub proof fn law_migrations_add_what_is_missing(
    session_columns: &[String],
    pane_columns: &[String],
    grant_columns: &[String],
    bookmark_columns: &[String],
    r: MigrationPlan,
)
    requires
        plan_migration.ensures(
            (session_columns, pane_columns, grant_columns, bookmark_columns),
            r,
        ),
    ensures
        r.add_session_layout <==> !views(session_columns@).contains("layoutJson"@),
        r.add_launch_profile <==> !views(pane_columns@).contains("launchProfileId"@),
        r.move_browser_panes <==> !views(grant_columns@).contains("targetResourceKind"@),
        r.add_bookmark_order <==> !views(bookmark_columns@).contains("sortOrder"@),
{
}

} // verus!
