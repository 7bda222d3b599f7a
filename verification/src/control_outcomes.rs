//! What control requests find in the application, and the answers that they get.
use vstd::prelude::*;
use vstd::string::*;

use crate::control_contract::{
    control_error, law_access_comes_from_a_grant, plain_error, ControlAccess, ControlCaller,
    ControlErrorCode, ControlResourceKind, ControlResult,
};
use crate::control_effects::{PaneCreateArguments, PaneUpdateArguments};
use crate::control_requests::{invalid_arguments, Refusal};
use crate::json::{copy_json, list_view, push_item, Json, JsonView};
use crate::mux_layout::{
    copy_opt_layout, fault_text, has_part, insert_mux_pane,
    law_check_accepts_exactly_the_valid_layouts, law_insertion_is_undone_by_pruning,
    law_normalizing_keeps_a_valid_layout, layout_fault, layout_valid, leaves, normalize_mux_layout,
    normalized, opt_layout, pruned, validate_mux_layout, with_pane, LayoutView, MuxSplitDirection,
    MuxSplitNode, SplitRatio, HALF_RATIO_BITS,
};
use crate::mux_store::{
    find_pane, find_session, pane_with, session_with, MuxPane, MuxPaneInput, MuxPaneKind,
    MuxSession, MuxSessionInput,
};
use crate::text::{is_blank, occurs_at, opt_view, same, starts_with, strip_prefix, trim, views};

verus! {

/// Something that a list operation can return, with the id by which access is granted.
#[derive(Debug)]
pub struct ListedItem {
    pub id: String,
    pub value: Json,
}

/// The item is asked for: it is the named one, or none is named and the caller may read it.
pub open spec fn is_visible(
    caller: ControlCaller,
    kind: ControlResourceKind,
    requested: Option<Seq<char>>,
    id: Seq<char>,
) -> bool {
    match requested {
        Some(wanted) => wanted == id,
        None => caller.may_access(kind, Some(id), ControlAccess::Read),
    }
}

/// The values of the items that are asked for, in their order.
pub open spec fn visible_of(
    caller: ControlCaller,
    kind: ControlResourceKind,
    requested: Option<Seq<char>>,
    items: Seq<ListedItem>,
) -> Seq<JsonView>
    decreases items.len(),
{
    if items.len() == 0 {
        Seq::empty()
    } else {
        let rest = visible_of(caller, kind, requested, items.drop_last());
        if is_visible(caller, kind, requested, items.last().id@) {
            rest.push(items.last().value.view())
        } else {
            rest
        }
    }
}

/// The items that a list operation returns: the named one, or those that the caller may read.
pub fn list_visible(
    caller: &ControlCaller,
    kind: ControlResourceKind,
    requested: Option<&str>,
    items: &[ListedItem],
) -> (r: Json)
    ensures
        r.view() == JsonView::List(
            visible_of(
                *caller,
                kind,
                match requested {
                    Some(s) => Some(s@),
                    None => None,
                },
                items@,
            ),
        ),
{
    let ghost wanted: Option<Seq<char>> = match requested {
        Some(s) => Some(s@),
        None => None,
    };
    let mut found: Vec<Json> = Vec::new();
    let mut i: usize = 0;
    while i < items.len()
        invariant
            i <= items@.len(),
            wanted == (match requested {
                Some(s) => Some(s@),
                None => None::<Seq<char>>,
            }),
            list_view(found@) == visible_of(*caller, kind, wanted, items@.take(i as int)),
        decreases items@.len() - i,
    {
        proof {
            assert(items@.take(i + 1).drop_last() =~= items@.take(i as int));
        }
        let shown = match requested {
            Some(id) => same(id, items[i].id.as_str()),
            None => caller.has_access(&kind, Some(items[i].id.as_str()), &ControlAccess::Read),
        };
        if shown {
            push_item(&mut found, copy_json(&items[i].value));
        }
        i = i + 1;
    }
    assert(items@.take(i as int) =~= items@);
    Json::List(found)
}

/// A list operation shows a caller that names no resource only what it may read.
pub proof fn law_lists_show_only_readable_items(
    caller: ControlCaller,
    kind: ControlResourceKind,
    items: Seq<ListedItem>,
)
    ensures
        forall|i: int|
            #![trigger visible_of(caller, kind, None, items)[i]]
            0 <= i < visible_of(caller, kind, None, items).len() ==> exists|j: int|
                0 <= j < items.len() && #[trigger] items[j].value.view() == visible_of(
                    caller,
                    kind,
                    None,
                    items,
                )[i] && caller.may_access(kind, Some(items[j].id@), ControlAccess::Read),
    decreases items.len(),
{
    if items.len() > 0 {
        let rest = items.drop_last();
        law_lists_show_only_readable_items(caller, kind, rest);
        let before = visible_of(caller, kind, None, rest);
        let after = visible_of(caller, kind, None, items);
        assert forall|i: int|
            #![trigger after[i]]
            0 <= i < after.len() implies exists|j: int|
            0 <= j < items.len() && #[trigger] items[j].value.view() == after[i]
                && caller.may_access(kind, Some(items[j].id@), ControlAccess::Read) by {
            if i < before.len() {
                assert(after[i] == before[i]);
                let j = choose|j: int|
                    0 <= j < rest.len() && #[trigger] rest[j].value.view() == before[i]
                        && caller.may_access(kind, Some(rest[j].id@), ControlAccess::Read);
                assert(items[j].value.view() == after[i]);
            } else {
                assert(items[items.len() - 1].value.view() == after[i]);
            }
        }
    }
}

/// A managed agent, with the runtime that it lives in.
#[derive(Debug)]
pub struct AgentRef {
    pub agent_id: String,
    pub runtime_id: String,
    pub value: Json,
}

/// The agent with this id; the first where more than one has it.
pub open spec fn agent_with(list: Seq<AgentRef>, id: Seq<char>) -> Option<AgentRef>
    decreases list.len(),
{
    if list.len() == 0 {
        None
    } else if list[0].agent_id@ == id {
        Some(list[0])
    } else {
        agent_with(list.skip(1), id)
    }
}

/// The agent with this id.
pub fn find_agent<'a>(list: &'a [AgentRef], id: &str) -> (r: ControlResult<&'a AgentRef>)
    ensures
        match agent_with(list@, id@) {
            Some(agent) => r is Ok && *r->Ok_0 == agent,
            None => r is Err && plain_error(
                r->Err_0,
                ControlErrorCode::NotFound,
                "Managed Agent 不存在"@,
            ),
        },
{
    let mut i: usize = 0;
    assert(list@.skip(0) =~= list@);
    while i < list.len()
        invariant
            i <= list@.len(),
            agent_with(list@, id@) == agent_with(list@.skip(i as int), id@),
        decreases list@.len() - i,
    {
        if same(list[i].agent_id.as_str(), id) {
            return Ok(&list[i]);
        }
        proof {
            assert(list@.skip(i as int).skip(1) =~= list@.skip(i + 1));
        }
        i = i + 1;
    }
    Err(control_error(ControlErrorCode::NotFound, "Managed Agent 不存在"))
}

/// The session that a change leads to: the given name and path, or those it had.
pub fn update_session_input(
    sessions: &[MuxSession],
    session_id: &str,
    name: Option<String>,
    root_path: Option<String>,
) -> (r: ControlResult<MuxSessionInput>)
    ensures
        match session_with(sessions@, session_id@) {
            None => r is Err && plain_error(
                r->Err_0,
                ControlErrorCode::NotFound,
                "Mux Session 不存在"@,
            ),
            Some(session) => {
                &&& r is Ok
                &&& opt_view(r->Ok_0.id) == Some(session.id@)
                &&& r->Ok_0.name@ == (match name {
                    Some(s) => s@,
                    None => session.name@,
                })
                &&& r->Ok_0.root_path@ == (match root_path {
                    Some(s) => s@,
                    None => session.root_path@,
                })
                &&& opt_layout(r->Ok_0.layout) == opt_layout(session.layout)
            },
        },
{
    match find_session(sessions, session_id) {
        None => Err(control_error(ControlErrorCode::NotFound, "Mux Session 不存在")),
        Some(session) => Ok(
            MuxSessionInput {
                id: Some(session.id.clone()),
                name: match name {
                    Some(s) => s,
                    None => session.name.clone(),
                },
                root_path: match root_path {
                    Some(s) => s,
                    None => session.root_path.clone(),
                },
                layout: copy_opt_layout(&session.layout),
            },
        ),
    }
}

/// The session with a new layout, where the layout fits its panes.
pub fn set_layout_input(
    sessions: &[MuxSession],
    session_id: &str,
    pane_ids: &[String],
    layout: Option<MuxSplitNode>,
) -> (r: ControlResult<MuxSessionInput>)
    ensures
        match session_with(sessions@, session_id@) {
            None => r is Err && plain_error(
                r->Err_0,
                ControlErrorCode::NotFound,
                "Mux Session 不存在"@,
            ),
            Some(session) => match layout_fault(opt_layout(layout), views(pane_ids@)) {
                Some(fault) => r is Err && plain_error(
                    r->Err_0,
                    ControlErrorCode::InvalidArguments,
                    fault_text(fault),
                ),
                None => {
                    &&& r is Ok
                    &&& opt_view(r->Ok_0.id) == Some(session.id@)
                    &&& r->Ok_0.name@ == session.name@
                    &&& r->Ok_0.root_path@ == session.root_path@
                    &&& opt_layout(r->Ok_0.layout) == opt_layout(layout)
                },
            },
        },
{
    match find_session(sessions, session_id) {
        None => Err(control_error(ControlErrorCode::NotFound, "Mux Session 不存在")),
        Some(session) => {
            let checked = match &layout {
                Some(node) => validate_mux_layout(Some(node), pane_ids),
                None => validate_mux_layout(None, pane_ids),
            };
            match checked {
                Err(error) => Err(error),
                Ok(()) => Ok(
                    MuxSessionInput {
                        id: Some(session.id.clone()),
                        name: session.name.clone(),
                        root_path: session.root_path.clone(),
                        layout,
                    },
                ),
            }
        },
    }
}

/// A place where a terminal can run.
#[derive(Debug)]
pub struct TargetRef {
    pub id: String,
    pub label: String,
}

/// The target with this id; the first where more than one has it.
pub open spec fn target_with(list: Seq<TargetRef>, id: Seq<char>) -> Option<TargetRef>
    decreases list.len(),
{
    if list.len() == 0 {
        None
    } else if list[0].id@ == id {
        Some(list[0])
    } else {
        target_with(list.skip(1), id)
    }
}

fn find_target<'a>(list: &'a [TargetRef], id: &str) -> (r: Option<&'a TargetRef>)
    ensures
        match r {
            Some(t) => target_with(list@, id@) == Some(*t),
            None => target_with(list@, id@) is None,
        },
{
    let mut i: usize = 0;
    assert(list@.skip(0) =~= list@);
    while i < list.len()
        invariant
            i <= list@.len(),
            target_with(list@, id@) == target_with(list@.skip(i as int), id@),
        decreases list@.len() - i,
    {
        if same(list[i].id.as_str(), id) {
            return Some(&list[i]);
        }
        proof {
            assert(list@.skip(i as int).skip(1) =~= list@.skip(i + 1));
        }
        i = i + 1;
    }
    None
}

/// The ratio of the split that a new pane makes.
pub open spec fn chosen_ratio(arguments: PaneCreateArguments) -> SplitRatio {
    match arguments.split_ratio {
        Some(ratio) => ratio,
        None => SplitRatio { bits: HALF_RATIO_BITS },
    }
}

/// Why a new pane is refused, by the first check that fails.
pub open spec fn create_refusal(
    caller: ControlCaller,
    sessions: Seq<MuxSession>,
    targets: Seq<TargetRef>,
    panes: Seq<MuxPane>,
    session_id: Seq<char>,
    arguments: PaneCreateArguments,
) -> Option<Refusal> {
    if session_with(sessions, session_id) is None {
        Some(Refusal { code: ControlErrorCode::NotFound, message: "Mux Session 不存在"@ })
    } else if target_with(targets, arguments.target_id@) is None {
        Some(Refusal { code: ControlErrorCode::NotFound, message: "Terminal Target 不存在"@ })
    } else if !caller.may_access(
        ControlResourceKind::TerminalTarget,
        Some(arguments.target_id@),
        ControlAccess::Read,
    ) {
        Some(
            Refusal {
                code: ControlErrorCode::Unauthorized,
                message: "调用者没有该 Terminal Target 的访问权限"@,
            },
        )
    } else if arguments.anchor_pane_id is Some && pane_with(
        panes,
        arguments.anchor_pane_id->0@,
    ) is None {
        Some(
            Refusal {
                code: ControlErrorCode::InvalidArguments,
                message: "anchorPaneId 必须属于目标 Mux Session"@,
            },
        )
    } else if !chosen_ratio(arguments).in_range() {
        Some(
            Refusal {
                code: ControlErrorCode::InvalidArguments,
                message: "splitRatio 必须在 0.1 到 0.9 之间"@,
            },
        )
    } else {
        None
    }
}

/// The connection that an SSH target stands for; empty for any other target.
pub open spec fn bookmark_of_target(target_id: Seq<char>) -> Seq<char> {
    if starts_with(target_id, "ssh-bookmark:"@) {
        target_id.skip("ssh-bookmark:"@.len() as int)
    } else {
        Seq::empty()
    }
}

/// The pane to create: a terminal on the target, titled as asked or as the target, in the asked
/// directory or that of the session.
pub open spec fn is_created_pane(
    p: MuxPaneInput,
    session: MuxSession,
    target: TargetRef,
    session_id: Seq<char>,
    arguments: PaneCreateArguments,
) -> bool {
    &&& p.id is None
    &&& p.mux_session_id@ == session_id
    &&& p.kind == MuxPaneKind::Terminal
    &&& p.title@ == (match arguments.title {
        Some(title) if trim(title@).len() > 0 => title@,
        _ => target.label@,
    })
    &&& p.target_id@ == target.id@
    &&& p.bookmark_id@ == bookmark_of_target(target.id@)
    &&& p.cwd@ == (match arguments.cwd {
        Some(cwd) => cwd@,
        None => session.root_path@,
    })
    &&& p.command@ == arguments.command@
    &&& p.launch_profile_id@ == arguments.launch_profile_id@
}

/// Checks a request for a new pane and prepares it. `panes` are the panes of the session.
pub fn plan_pane_creation(
    caller: &ControlCaller,
    sessions: &[MuxSession],
    targets: &[TargetRef],
    panes: &[MuxPane],
    session_id: &str,
    arguments: &PaneCreateArguments,
) -> (r: ControlResult<MuxPaneInput>)
    ensures
        match create_refusal(*caller, sessions@, targets@, panes@, session_id@, *arguments) {
            Some(refusal) => r is Err && plain_error(r->Err_0, refusal.code, refusal.message),
            None => r is Ok && is_created_pane(
                r->Ok_0,
                session_with(sessions@, session_id@)->0,
                target_with(targets@, arguments.target_id@)->0,
                session_id@,
                *arguments,
            ),
        },
{
    let session = match find_session(sessions, session_id) {
        Some(session) => session,
        None => {
            return Err(control_error(ControlErrorCode::NotFound, "Mux Session 不存在"));
        },
    };
    let target = match find_target(targets, arguments.target_id.as_str()) {
        Some(target) => target,
        None => {
            return Err(control_error(ControlErrorCode::NotFound, "Terminal Target 不存在"));
        },
    };
    if !caller.has_access(
        &ControlResourceKind::TerminalTarget,
        Some(arguments.target_id.as_str()),
        &ControlAccess::Read,
    ) {
        return Err(
            control_error(
                ControlErrorCode::Unauthorized,
                "调用者没有该 Terminal Target 的访问权限",
            ),
        );
    }
    match &arguments.anchor_pane_id {
        Some(anchor) => {
            if find_pane(panes, anchor.as_str()).is_none() {
                return Err(invalid_arguments("anchorPaneId 必须属于目标 Mux Session"));
            }
        },
        None => {},
    }
    let ratio: SplitRatio = match arguments.split_ratio {
        Some(ratio) => ratio,
        None => SplitRatio { bits: HALF_RATIO_BITS },
    };
    if !ratio.is_in_range() {
        return Err(invalid_arguments("splitRatio 必须在 0.1 到 0.9 之间"));
    }
    let title = match &arguments.title {
        Some(title) => if is_blank(title.as_str()) {
            target.label.clone()
        } else {
            title.clone()
        },
        None => target.label.clone(),
    };
    let bookmark_id = match strip_prefix(target.id.as_str(), "ssh-bookmark:") {
        Some(id) => id,
        None => String::new(),
    };
    Ok(
        MuxPaneInput {
            id: None,
            mux_session_id: session_id.to_owned(),
            kind: MuxPaneKind::Terminal,
            title,
            target_id: target.id.clone(),
            bookmark_id,
            cwd: match &arguments.cwd {
                Some(cwd) => cwd.clone(),
                None => session.root_path.clone(),
            },
            command: arguments.command.clone(),
            launch_profile_id: arguments.launch_profile_id.clone(),
        },
    )
}

/// The layout of a session once a pane was created: the normalized one with the new pane beside
/// its anchor or at the end.
pub open spec fn created_layout(
    layout: Option<LayoutView>,
    pane_ids: Seq<Seq<char>>,
    pane_id: Seq<char>,
    arguments: PaneCreateArguments,
) -> LayoutView {
    with_pane(
        normalized(layout, pane_ids),
        opt_view(arguments.anchor_pane_id),
        match arguments.split_direction {
            Some(direction) => direction,
            None => MuxSplitDirection::Horizontal,
        },
        chosen_ratio(arguments),
        pane_id,
    )
}

/// The session with the layout that a new pane leads to. `pane_ids` are the panes that it had.
pub fn session_with_created_pane(
    session: &MuxSession,
    pane_ids: &[String],
    pane_id: &str,
    arguments: &PaneCreateArguments,
) -> (r: MuxSessionInput)
    ensures
        opt_view(r.id) == Some(session.id@),
        r.name@ == session.name@,
        r.root_path@ == session.root_path@,
        opt_layout(r.layout) == Some(
            created_layout(opt_layout(session.layout), views(pane_ids@), pane_id@, *arguments),
        ),
{
    let base = normalize_mux_layout(copy_opt_layout(&session.layout), pane_ids);
    let direction: MuxSplitDirection = match arguments.split_direction {
        Some(direction) => direction,
        None => MuxSplitDirection::Horizontal,
    };
    let ratio: SplitRatio = match arguments.split_ratio {
        Some(ratio) => ratio,
        None => SplitRatio { bits: HALF_RATIO_BITS },
    };
    let anchor = match &arguments.anchor_pane_id {
        Some(anchor) => Some(anchor.as_str()),
        None => None,
    };
    let layout = insert_mux_pane(base, anchor, pane_id, direction, ratio);
    MuxSessionInput {
        id: Some(session.id.clone()),
        name: session.name.clone(),
        root_path: session.root_path.clone(),
        layout: Some(layout),
    }
}

/// The value that was given, else the one that was there.
pub open spec fn given_or(given: Option<String>, own: Seq<char>) -> Seq<char> {
    match given {
        Some(s) => s@,
        None => own,
    }
}

fn take_or(given: Option<String>, own: &String) -> (r: String)
    ensures
        r@ == given_or(given, own@),
{
    match given {
        Some(s) => s,
        None => own.clone(),
    }
}

/// The pane that a change leads to.
pub fn update_pane_input(
    panes: &[MuxPane],
    pane_id: &str,
    arguments: PaneUpdateArguments,
) -> (r: ControlResult<MuxPaneInput>)
    ensures
        match pane_with(panes@, pane_id@) {
            None => r is Err && plain_error(
                r->Err_0,
                ControlErrorCode::NotFound,
                "Mux Pane 不存在"@,
            ),
            Some(pane) => {
                &&& r is Ok
                &&& opt_view(r->Ok_0.id) == Some(pane.id@)
                &&& r->Ok_0.mux_session_id@ == pane.mux_session_id@
                &&& r->Ok_0.kind == pane.kind
                &&& r->Ok_0.title@ == given_or(arguments.title, pane.title@)
                &&& r->Ok_0.target_id@ == pane.target_id@
                &&& r->Ok_0.bookmark_id@ == pane.bookmark_id@
                &&& r->Ok_0.cwd@ == given_or(arguments.cwd, pane.cwd@)
                &&& r->Ok_0.command@ == given_or(arguments.command, pane.command@)
                &&& r->Ok_0.launch_profile_id@ == given_or(
                    arguments.launch_profile_id,
                    pane.launch_profile_id@,
                )
            },
        },
{
    match find_pane(panes, pane_id) {
        None => Err(control_error(ControlErrorCode::NotFound, "Mux Pane 不存在")),
        Some(pane) => Ok(
            MuxPaneInput {
                id: Some(pane.id.clone()),
                mux_session_id: pane.mux_session_id.clone(),
                kind: pane.kind,
                title: take_or(arguments.title, &pane.title),
                target_id: pane.target_id.clone(),
                bookmark_id: pane.bookmark_id.clone(),
                cwd: take_or(arguments.cwd, &pane.cwd),
                command: take_or(arguments.command, &pane.command),
                launch_profile_id: take_or(arguments.launch_profile_id, &pane.launch_profile_id),
            },
        ),
    }
}

/// The forwardings of a connection, or all where none is named. `items` carry the id of the
/// connection.
pub open spec fn profiles_of(items: Seq<ListedItem>, bookmark: Option<Seq<char>>) -> Seq<JsonView>
    decreases items.len(),
{
    if items.len() == 0 {
        Seq::empty()
    } else {
        let rest = profiles_of(items.drop_last(), bookmark);
        if bookmark is None || bookmark->0 == items.last().id@ {
            rest.push(items.last().value.view())
        } else {
            rest
        }
    }
}

/// The forwardings of a connection, or all where none is named.
pub fn list_profiles(items: &[ListedItem], bookmark_id: &Option<String>) -> (r: Json)
    ensures
        r.view() == JsonView::List(profiles_of(items@, opt_view(*bookmark_id))),
{
    let mut found: Vec<Json> = Vec::new();
    let mut i: usize = 0;
    while i < items.len()
        invariant
            i <= items@.len(),
            list_view(found@) == profiles_of(items@.take(i as int), opt_view(*bookmark_id)),
        decreases items@.len() - i,
    {
        proof {
            assert(items@.take(i + 1).drop_last() =~= items@.take(i as int));
        }
        let shown = match bookmark_id {
            Some(id) => same(id.as_str(), items[i].id.as_str()),
            None => true,
        };
        if shown {
            push_item(&mut found, copy_json(&items[i].value));
        }
        i = i + 1;
    }
    assert(items@.take(i as int) =~= items@);
    Json::List(found)
}

/// A list shows the item that a request names and no other. Where none is named, it shows those that
/// a grant of the caller is for, of whatever level, and all of those.
pub proof fn law_lists_show_what_grants_open(
    caller: ControlCaller,
    kind: ControlResourceKind,
    requested: Option<Seq<char>>,
    items: Seq<ListedItem>,
    j: int,
)
    requires
        0 <= j < items.len(),
    ensures
        ({
            let granted = exists|i: int|
                0 <= i < caller.grants@.len() && (#[trigger] caller.grants@[i]).resource_kind
                    == kind && (caller.grants@[i].resource_id is None || opt_view(
                    caller.grants@[i].resource_id,
                ) == Some(items[j].id@));
            let shown = match requested {
                Some(wanted) => wanted == items[j].id@,
                None => granted,
            };
            &&& shown <==> is_visible(caller, kind, requested, items[j].id@)
            &&& shown ==> visible_of(caller, kind, requested, items).contains(
                items[j].value.view(),
            )
        }),
        visible_of(caller, kind, requested, items).len() <= items.len(),
    decreases items.len(),
{
    law_access_comes_from_a_grant(caller, kind, Some(items[j].id@));
    let front = items.drop_last();
    let rest = visible_of(caller, kind, requested, front);
    let all = visible_of(caller, kind, requested, items);
    lemma_visible_length(caller, kind, requested, items);
    if j < items.len() - 1 {
        assert(front[j] == items[j]);
        law_lists_show_what_grants_open(caller, kind, requested, front, j);
        if is_visible(caller, kind, requested, items[j].id@) {
            let k = choose|k: int| 0 <= k < rest.len() && rest[k] == items[j].value.view();
            assert(all[k] == items[j].value.view());
        }
    } else if is_visible(caller, kind, requested, items[j].id@) {
        assert(all[all.len() - 1] == items[j].value.view());
    }
}

proof fn lemma_visible_length(
    caller: ControlCaller,
    kind: ControlResourceKind,
    requested: Option<Seq<char>>,
    items: Seq<ListedItem>,
)
    ensures
        visible_of(caller, kind, requested, items).len() <= items.len(),
    decreases items.len(),
{
    if items.len() > 0 {
        lemma_visible_length(caller, kind, requested, items.drop_last());
    }
}

/// A pane is made exactly where its session and its target are there, the caller has a grant for the
/// target, the pane that it should stand beside belongs to the session, and the ratio is in range.
pub proof fn law_panes_are_made_where_all_is_there(
    caller: ControlCaller,
    sessions: Seq<MuxSession>,
    targets: Seq<TargetRef>,
    panes: Seq<MuxPane>,
    session_id: Seq<char>,
    arguments: PaneCreateArguments,
)
    ensures
        ({
            let refused = create_refusal(caller, sessions, targets, panes, session_id, arguments);
            let session = session_with(sessions, session_id) is Some;
            let target = target_with(targets, arguments.target_id@) is Some;
            let granted = exists|i: int|
                0 <= i < caller.grants@.len() && (#[trigger] caller.grants@[i]).resource_kind
                    == ControlResourceKind::TerminalTarget && (caller.grants@[i].resource_id is None
                    || opt_view(caller.grants@[i].resource_id) == Some(arguments.target_id@));
            let anchor = arguments.anchor_pane_id matches Some(anchor) ==> pane_with(
                panes,
                anchor@,
            ) is Some;
            let ratio = arguments.split_ratio matches Some(ratio) ==> 0x3FB999999999999A
                <= ratio.bits <= 0x3FECCCCCCCCCCCCD;
            &&& refused is None <==> session && target && granted && anchor && ratio
            &&& !session || !target ==> refused->0.code == ControlErrorCode::NotFound
            &&& session && target && !granted ==> refused->0.code == ControlErrorCode::Unauthorized
            &&& session && target && granted && (!anchor || !ratio) ==> refused->0.code
                == ControlErrorCode::InvalidArguments
        }),
{
    law_access_comes_from_a_grant(
        caller,
        ControlResourceKind::TerminalTarget,
        Some(arguments.target_id@),
    );
}

/// A pane that is made is a terminal of the target that was asked for, in the directory that was
/// asked for or else in that of its session, with the title that was asked for or else that of the
/// target. The bookmark is that of the target, where the target is one.
pub proof fn law_made_panes_follow_their_target(
    p: MuxPaneInput,
    session: MuxSession,
    target: TargetRef,
    session_id: Seq<char>,
    arguments: PaneCreateArguments,
    bookmark: Seq<char>,
)
    requires
        is_created_pane(p, session, target, session_id, arguments),
    ensures
        p.id is None,
        p.mux_session_id@ == session_id,
        p.kind == MuxPaneKind::Terminal,
        p.target_id@ == target.id@,
        p.command@ == arguments.command@,
        p.launch_profile_id@ == arguments.launch_profile_id@,
        arguments.title is Some && trim(arguments.title->0@).len() > 0 ==> p.title@
            == arguments.title->0@,
        arguments.title is None || trim(arguments.title->0@).len() == 0 ==> p.title@
            == target.label@,
        arguments.cwd matches Some(cwd) ==> p.cwd@ == cwd@,
        arguments.cwd is None ==> p.cwd@ == session.root_path@,
        target.id@ == "ssh-bookmark:"@ + bookmark ==> p.bookmark_id@ == bookmark,
        !starts_with(target.id@, "ssh-bookmark:"@) ==> p.bookmark_id@.len() == 0,
{
    if target.id@ == "ssh-bookmark:"@ + bookmark {
        let n = "ssh-bookmark:"@.len() as int;
        assert(target.id@.subrange(0, n) =~= "ssh-bookmark:"@);
        assert(occurs_at(target.id@, "ssh-bookmark:"@, 0));
        assert(target.id@.skip(n) =~= bookmark);
    }
}

/// A pane that is made stands where it was asked for: beside its anchor, or else beside all that the
/// session shows, to the right and with half of the room where nothing else is asked. Taking it out
/// again gives the layout of the session back.
pub proof fn law_made_panes_stand_where_asked(
    v: LayoutView,
    pane_ids: Seq<Seq<char>>,
    pane_id: Seq<char>,
    arguments: PaneCreateArguments,
)
    requires
        layout_valid(v, pane_ids),
        !pane_ids.contains(pane_id),
    ensures
        ({
            let after = created_layout(Some(v), pane_ids, pane_id, arguments);
            let direction = match arguments.split_direction {
                Some(direction) => direction,
                None => MuxSplitDirection::Horizontal,
            };
            let ratio = match arguments.split_ratio {
                Some(ratio) => ratio,
                None => SplitRatio { bits: 0x3FE0000000000000 },
            };
            let found = arguments.anchor_pane_id is Some && pane_ids.contains(
                arguments.anchor_pane_id->0@,
            );
            let beside = if found {
                LayoutView::Pane(arguments.anchor_pane_id->0@)
            } else {
                v
            };
            &&& pruned(after, seq![pane_id]) == Some(v)
            &&& has_part(
                after,
                LayoutView::Split(
                    direction,
                    ratio,
                    Box::new(beside),
                    Box::new(LayoutView::Pane(pane_id)),
                ),
            )
        }),
{
    law_normalizing_keeps_a_valid_layout(v, pane_ids);
    assert(leaves(v).contains(pane_id) <==> pane_ids.contains(pane_id));
    if arguments.anchor_pane_id is Some {
        let anchor = arguments.anchor_pane_id->0@;
        assert(leaves(v).contains(anchor) <==> pane_ids.contains(anchor));
    }
    law_insertion_is_undone_by_pruning(
        v,
        opt_view(arguments.anchor_pane_id),
        match arguments.split_direction {
            Some(direction) => direction,
            None => MuxSplitDirection::Horizontal,
        },
        chosen_ratio(arguments),
        pane_id,
    );
}

/// The profiles of a bookmark are those that belong to it; without a bookmark all are listed.
pub proof fn law_profiles_belong_to_their_bookmark(
    items: Seq<ListedItem>,
    bookmark: Option<Seq<char>>,
    item: ListedItem,
)
    ensures
        profiles_of(items.push(item), bookmark) == (if bookmark is None || bookmark == Some(
            item.id@,
        ) {
            profiles_of(items, bookmark).push(item.value.view())
        } else {
            profiles_of(items, bookmark)
        }),
        profiles_of(Seq::empty(), bookmark).len() == 0,
{
    assert(items.push(item).drop_last() =~= items);
}

/// The agent that is found has the id that was asked for, and it is found where there is one.
pub proof fn law_agents_are_found_by_their_id(list: Seq<AgentRef>, id: Seq<char>)
    ensures
        match agent_with(list, id) {
            Some(found) => list.contains(found) && found.agent_id@ == id,
            None => forall|i: int| 0 <= i < list.len() ==> (#[trigger] list[i]).agent_id@ != id,
        },
    decreases list.len(),
{
    if list.len() > 0 {
        let rest = list.skip(1);
        law_agents_are_found_by_their_id(rest, id);
        assert(list.contains(list[0]));
        match agent_with(rest, id) {
            Some(found) => {
                let k = choose|k: int| 0 <= k < rest.len() && rest[k] == found;
                assert(list[k + 1] == found);
            },
            None => {
                assert forall|i: int| 1 <= i < list.len() implies (#[trigger] list[i]).agent_id@
                    != id by {
                    assert(rest[i - 1] == list[i]);
                }
            },
        }
    }
}

/// The target that is found has the id that was asked for, and it is found where there is one.
pub proof fn law_targets_are_found_by_their_id(list: Seq<TargetRef>, id: Seq<char>)
    ensures
        match target_with(list, id) {
            Some(found) => list.contains(found) && found.id@ == id,
            None => forall|i: int| 0 <= i < list.len() ==> (#[trigger] list[i]).id@ != id,
        },
    decreases list.len(),
{
    if list.len() > 0 {
        let rest = list.skip(1);
        law_targets_are_found_by_their_id(rest, id);
        assert(list.contains(list[0]));
        match target_with(rest, id) {
            Some(found) => {
                let k = choose|k: int| 0 <= k < rest.len() && rest[k] == found;
                assert(list[k + 1] == found);
            },
            None => {
                assert forall|i: int| 1 <= i < list.len() implies (#[trigger] list[i]).id@
                    != id by {
                    assert(rest[i - 1] == list[i]);
                }
            },
        }
    }
}

/// A session that is changed gets the name and the directory that were given, and keeps what was not;
/// its layout stays. A session that is not there is told as not found.
pub proof fn law_changed_sessions_keep_the_rest(
    sessions: &[MuxSession],
    session_id: &str,
    name: Option<String>,
    root_path: Option<String>,
    r: ControlResult<MuxSessionInput>,
)
    requires
        update_session_input.ensures((sessions, session_id, name, root_path), r),
    ensures
        match session_with(sessions@, session_id@) {
            None => r matches Err(e) && e.code == ControlErrorCode::NotFound,
            Some(session) => {
                &&& r is Ok
                &&& opt_view(r->Ok_0.id) == Some(session.id@)
                &&& name matches Some(text) ==> r->Ok_0.name@ == text@
                &&& name is None ==> r->Ok_0.name@ == session.name@
                &&& root_path matches Some(text) ==> r->Ok_0.root_path@ == text@
                &&& root_path is None ==> r->Ok_0.root_path@ == session.root_path@
                &&& opt_layout(r->Ok_0.layout) == opt_layout(session.layout)
            },
        },
{
}

/// A layout is set exactly where the session is there and the layout is valid for its panes; the name
/// and the directory stay.
pub proof fn law_valid_layouts_are_set(
    sessions: &[MuxSession],
    session_id: &str,
    pane_ids: &[String],
    layout: Option<MuxSplitNode>,
    r: ControlResult<MuxSessionInput>,
)
    requires
        set_layout_input.ensures((sessions, session_id, pane_ids, layout), r),
    ensures
        session_with(sessions@, session_id@) is None ==> (r matches Err(e) && e.code
            == ControlErrorCode::NotFound),
        session_with(sessions@, session_id@) matches Some(session) ==> {
            let valid = match opt_layout(layout) {
                Some(v) => layout_valid(v, views(pane_ids@)),
                None => pane_ids@.len() == 0,
            };
            &&& r is Ok <==> valid
            &&& r matches Err(e) ==> e.code == ControlErrorCode::InvalidArguments
            &&& r matches Ok(input) ==> opt_layout(input.layout) == opt_layout(layout)
                && input.name@ == session.name@ && input.root_path@ == session.root_path@
        },
{
    match opt_layout(layout) {
        Some(v) => {
            law_check_accepts_exactly_the_valid_layouts(v, views(pane_ids@));
        },
        None => {
            law_check_accepts_exactly_the_valid_layouts(
                LayoutView::Pane(Seq::empty()),
                views(pane_ids@),
            );
        },
    }
}

/// A pane that is changed gets what was given and keeps the rest: its session, its kind, its target
/// and its bookmark never change.
pub proof fn law_changed_panes_keep_the_rest(
    panes: &[MuxPane],
    pane_id: &str,
    arguments: PaneUpdateArguments,
    r: ControlResult<MuxPaneInput>,
)
    requires
        update_pane_input.ensures((panes, pane_id, arguments), r),
    ensures
        match pane_with(panes@, pane_id@) {
            None => r matches Err(e) && e.code == ControlErrorCode::NotFound,
            Some(pane) => {
                let p = r->Ok_0;
                &&& r is Ok
                &&& opt_view(p.id) == Some(pane.id@) && p.mux_session_id@ == pane.mux_session_id@
                &&& p.kind == pane.kind && p.target_id@ == pane.target_id@ && p.bookmark_id@
                    == pane.bookmark_id@
                &&& arguments.title matches Some(text) ==> p.title@ == text@
                &&& arguments.title is None ==> p.title@ == pane.title@
                &&& arguments.cwd matches Some(text) ==> p.cwd@ == text@
                &&& arguments.cwd is None ==> p.cwd@ == pane.cwd@
                &&& arguments.command matches Some(text) ==> p.command@ == text@
                &&& arguments.command is None ==> p.command@ == pane.command@
                &&& arguments.launch_profile_id matches Some(text) ==> p.launch_profile_id@
                    == text@
                &&& arguments.launch_profile_id is None ==> p.launch_profile_id@
                    == pane.launch_profile_id@
            },
        },
{
}

/// The session of a new pane keeps its name and its directory; only its layout changes.
pub proof fn law_new_panes_change_only_the_layout(
    session: &MuxSession,
    pane_ids: &[String],
    pane_id: &str,
    arguments: &PaneCreateArguments,
    r: MuxSessionInput,
)
    requires
        session_with_created_pane.ensures((session, pane_ids, pane_id, arguments), r),
    ensures
        opt_view(r.id) == Some(session.id@),
        r.name@ == session.name@,
        r.root_path@ == session.root_path@,
        r.layout is Some,
{
}

} // verus!
