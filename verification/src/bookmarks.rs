//! Saved connections and their groups.
use vstd::prelude::*;
use vstd::string::*;

use crate::text::{is_blank, list_has, push_text, same, trim, trimmed, views};

verus! {

/// How a connection proves who it is.
#[derive(Clone, Copy, Debug, PartialEq, Eq, Structural)]
pub enum AuthType {
    Password,
    PrivateKey,
    Agent,
}

/// A saved connection.
#[derive(Debug)]
pub struct Bookmark {
    pub id: String,
    pub name: String,
    pub host: String,
    pub port: u16,
    pub username: String,
    pub auth_type: AuthType,
    pub private_key_path: String,
    pub jump_bookmark_id: String,
    pub group_name: String,
    pub favorite: bool,
    pub last_connected_at: String,
    pub keepalive_enabled: bool,
    pub keepalive_interval_seconds: u32,
    pub keepalive_count_max: u32,
    pub note: String,
    pub has_saved_credential: bool,
    pub sort_order: i64,
    pub created_at: String,
    pub updated_at: String,
}

/// What a user enters for a connection. With an id it replaces the connection with that id.
#[derive(Debug)]
pub struct BookmarkInput {
    pub id: Option<String>,
    pub name: String,
    pub host: String,
    pub port: u16,
    pub username: String,
    pub auth_type: AuthType,
    pub private_key_path: String,
    pub jump_bookmark_id: String,
    pub group_name: String,
    pub favorite: bool,
    pub keepalive_enabled: bool,
    pub keepalive_interval_seconds: u32,
    pub keepalive_count_max: u32,
    pub note: String,
}

/// The bookmark with this id, the first where more than one has it.
pub open spec fn bookmark_with(list: Seq<Bookmark>, id: Seq<char>) -> Option<Bookmark>
    decreases list.len(),
{
    if list.len() == 0 {
        None
    } else if list[0].id@ == id {
        Some(list[0])
    } else {
        bookmark_with(list.skip(1), id)
    }
}

/// The bookmark with this id.
pub fn get_bookmark<'a>(list: &'a [Bookmark], id: &str) -> (r: Option<&'a Bookmark>)
    ensures
        match r {
            Some(b) => bookmark_with(list@, id@) == Some(*b),
            None => bookmark_with(list@, id@) is None,
        },
{
    let mut i: usize = 0;
    assert(list@.skip(0) =~= list@);
    while i < list.len()
        invariant
            i <= list@.len(),
            bookmark_with(list@, id@) == bookmark_with(list@.skip(i as int), id@),
        decreases list@.len() - i,
    {
        if same(list[i].id.as_str(), id) {
            return Some(&list[i]);
        }
        proof {
            assert(list@.skip(i as int).skip(1) =~= list@.skip(i + 1));
        }
        i = i + 1;
    }
    None
}

/// The value, moved into the range where it lies outside.
pub open spec fn clamp(value: int, low: int, high: int) -> int {
    if value < low {
        low
    } else if value > high {
        high
    } else {
        value
    }
}

/// The value, moved into the range where it lies outside.
pub fn clamped(value: u32, low: u32, high: u32) -> (r: u32)
    requires
        low <= high,
    ensures
        r == clamp(value as int, low as int, high as int),
{
    if value < low {
        low
    } else if value > high {
        high
    } else {
        value
    }
}

/// Why an entered connection is refused.
pub ghost enum BookmarkFault {
    Incomplete,
    OwnJump,
    NoJump,
}

/// The first fault of an entered connection.
pub open spec fn bookmark_fault(input: BookmarkInput, list: Seq<Bookmark>) -> Option<
    BookmarkFault,
> {
    let jump = trim(input.jump_bookmark_id@);
    if trim(input.name@).len() == 0 || trim(input.host@).len() == 0 || trim(input.username@).len()
        == 0 {
        Some(BookmarkFault::Incomplete)
    } else if input.id is Some && jump == input.id->0@ {
        Some(BookmarkFault::OwnJump)
    } else if jump.len() > 0 && bookmark_with(list, jump) is None {
        Some(BookmarkFault::NoJump)
    } else {
        None
    }
}

/// The message for a fault.
pub open spec fn bookmark_fault_text(fault: BookmarkFault) -> Seq<char> {
    match fault {
        BookmarkFault::Incomplete => "连接名称、主机和用户名不能为空"@,
        BookmarkFault::OwnJump => "连接不能将自身设置为跳板机"@,
        BookmarkFault::NoJump => "选择的跳板机连接不存在"@,
    }
}

/// The connection that the input replaces.
pub open spec fn replaced_bookmark(input: BookmarkInput, list: Seq<Bookmark>) -> Option<Bookmark> {
    match input.id {
        Some(id) => bookmark_with(list, id@),
        None => None,
    }
}

/// The connection to save: the input without outer white space and with the keepalive values in
/// range, under its own id or the fresh one. What it replaces keeps its place, its history and the
/// mark of its credential.
pub open spec fn is_saved_form(
    b: Bookmark,
    input: BookmarkInput,
    replaced: Option<Bookmark>,
    fresh_id: Seq<char>,
    next_sort_order: i64,
    now: Seq<char>,
) -> bool {
    &&& b.id@ == (match input.id {
        Some(id) => id@,
        None => fresh_id,
    })
    &&& b.name@ == trim(input.name@)
    &&& b.host@ == trim(input.host@)
    &&& b.port == input.port
    &&& b.username@ == trim(input.username@)
    &&& b.auth_type == input.auth_type
    &&& b.private_key_path@ == trim(input.private_key_path@)
    &&& b.jump_bookmark_id@ == trim(input.jump_bookmark_id@)
    &&& b.group_name@ == trim(input.group_name@)
    &&& b.favorite == input.favorite
    &&& b.keepalive_enabled == input.keepalive_enabled
    &&& b.keepalive_interval_seconds == clamp(input.keepalive_interval_seconds as int, 5, 300)
    &&& b.keepalive_count_max == clamp(input.keepalive_count_max as int, 1, 10)
    &&& b.note@ == trim(input.note@)
    &&& b.updated_at@ == now
    &&& match replaced {
        Some(old_one) => {
            &&& b.last_connected_at@ == old_one.last_connected_at@
            &&& b.has_saved_credential == old_one.has_saved_credential
            &&& b.sort_order == old_one.sort_order
            &&& b.created_at@ == old_one.created_at@
        },
        None => {
            &&& b.last_connected_at@.len() == 0
            &&& !b.has_saved_credential
            &&& b.sort_order == next_sort_order
            &&& b.created_at@ == now
        },
    }
}

/// A connection that is ready to be saved, and whether the stored credential of the one that it
/// replaces has to go because the way to authenticate changed.
#[derive(Debug)]
pub struct PreparedBookmark {
    pub bookmark: Bookmark,
    pub forget_credential: bool,
}

/// Tells what is wrong with a connection that is to be saved.
pub fn check_bookmark(input: &BookmarkInput, list: &[Bookmark]) -> (r: Result<(), String>)
    ensures
        match bookmark_fault(*input, list@) {
            Some(fault) => r is Err && r->Err_0@ == bookmark_fault_text(fault),
            None => r is Ok,
        },
{
    if is_blank(input.name.as_str()) || is_blank(input.host.as_str()) || is_blank(
        input.username.as_str(),
    ) {
        return Err("连接名称、主机和用户名不能为空".to_owned());
    }
    let jump = trimmed(input.jump_bookmark_id.as_str());
    match &input.id {
        Some(id) => {
            if same(jump.as_str(), id.as_str()) {
                return Err("连接不能将自身设置为跳板机".to_owned());
            }
        },
        None => {},
    }
    if !jump.as_str().is_empty() && get_bookmark(list, jump.as_str()).is_none() {
        return Err("选择的跳板机连接不存在".to_owned());
    }
    Ok(())
}

/// Prepares an entered connection for saving, under the given id where it has none.
pub fn prepare_bookmark_with(
    input: BookmarkInput,
    list: &[Bookmark],
    fresh_id: String,
    next_sort_order: i64,
    now: &str,
) -> (r: Result<PreparedBookmark, String>)
    ensures
        match bookmark_fault(input, list@) {
            Some(fault) => r is Err && r->Err_0@ == bookmark_fault_text(fault),
            None => {
                let replaced = replaced_bookmark(input, list@);
                &&& r is Ok
                &&& is_saved_form(
                    r->Ok_0.bookmark,
                    input,
                    replaced,
                    fresh_id@,
                    next_sort_order,
                    now@,
                )
                &&& r->Ok_0.forget_credential == (replaced is Some && replaced->0.auth_type
                    != input.auth_type)
            },
        },
{
    match check_bookmark(&input, list) {
        Err(message) => {
            return Err(message);
        },
        Ok(()) => {},
    }
    let replaced = match &input.id {
        Some(id) => get_bookmark(list, id.as_str()),
        None => None,
    };
    let (last_connected_at, has_saved_credential, sort_order, created_at, forget_credential) =
        match replaced {
        Some(b) => (
            b.last_connected_at.clone(),
            b.has_saved_credential,
            b.sort_order,
            b.created_at.clone(),
            b.auth_type != input.auth_type,
        ),
        None => (String::new(), false, next_sort_order, now.to_owned(), false),
    };
    let id = match &input.id {
        Some(id) => id.clone(),
        None => fresh_id,
    };
    let bookmark = Bookmark {
        id,
        name: trimmed(input.name.as_str()),
        host: trimmed(input.host.as_str()),
        port: input.port,
        username: trimmed(input.username.as_str()),
        auth_type: input.auth_type,
        private_key_path: trimmed(input.private_key_path.as_str()),
        jump_bookmark_id: trimmed(input.jump_bookmark_id.as_str()),
        group_name: trimmed(input.group_name.as_str()),
        favorite: input.favorite,
        last_connected_at,
        keepalive_enabled: input.keepalive_enabled,
        keepalive_interval_seconds: clamped(input.keepalive_interval_seconds, 5, 300),
        keepalive_count_max: clamped(input.keepalive_count_max, 1, 10),
        note: trimmed(input.note.as_str()),
        has_saved_credential,
        sort_order,
        created_at,
        updated_at: now.to_owned(),
    };
    Ok(PreparedBookmark { bookmark, forget_credential })
}

/// The texts without outer white space, each once, at the place where it comes first.
pub open spec fn first_trimmed(texts: Seq<Seq<char>>) -> Seq<Seq<char>>
    decreases texts.len(),
{
    if texts.len() == 0 {
        texts
    } else {
        let rest = first_trimmed(texts.drop_last());
        let last = trim(texts.last());
        if rest.contains(last) {
            rest
        } else {
            rest.push(last)
        }
    }
}

/// The group names of connections.
pub open spec fn group_names(list: Seq<Bookmark>) -> Seq<Seq<char>> {
    list.map_values(|b: Bookmark| b.group_name@)
}

/// The groups: the stored ones and those of the connections, each once.
pub fn list_bookmark_groups(stored: &[String], bookmarks: &[Bookmark]) -> (r: Vec<String>)
    ensures
        views(r@) == first_trimmed(views(stored@) + group_names(bookmarks@)),
{
    let mut groups: Vec<String> = Vec::new();
    let ghost all = views(stored@) + group_names(bookmarks@);
    assert(views(groups@) =~= first_trimmed(all.take(0)));
    let mut i: usize = 0;
    while i < stored.len()
        invariant
            i <= stored@.len(),
            all == views(stored@) + group_names(bookmarks@),
            views(groups@) == first_trimmed(all.take(i as int)),
        decreases stored@.len() - i,
    {
        proof {
            assert(all.take(i + 1).drop_last() =~= all.take(i as int));
            assert(all.take(i + 1).last() == stored@[i as int]@);
        }
        let group = trimmed(stored[i].as_str());
        if !list_has(&groups, group.as_str()) {
            push_text(&mut groups, group);
        }
        i = i + 1;
    }
    let mut k: usize = 0;
    while k < bookmarks.len()
        invariant
            k <= bookmarks@.len(),
            all == views(stored@) + group_names(bookmarks@),
            views(groups@) == first_trimmed(all.take(stored@.len() + k)),
        decreases bookmarks@.len() - k,
    {
        proof {
            let n = stored@.len() as int;
            assert(all.take(n + k + 1).drop_last() =~= all.take(n + k));
            assert(all.take(n + k + 1).last() == bookmarks@[k as int].group_name@);
        }
        let group = trimmed(bookmarks[k].group_name.as_str());
        if !list_has(&groups, group.as_str()) {
            push_text(&mut groups, group);
        }
        k = k + 1;
    }
    assert(all.take(stored@.len() + k) =~= all);
    groups
}

/// No group is listed twice.
pub proof fn law_groups_are_listed_once(texts: Seq<Seq<char>>)
    ensures
        first_trimmed(texts).no_duplicates(),
        forall|k: int|
            0 <= k < texts.len() ==> first_trimmed(texts).contains(trim(#[trigger] texts[k])),
    decreases texts.len(),
{
    if texts.len() > 0 {
        let rest = texts.drop_last();
        law_groups_are_listed_once(rest);
        let before = first_trimmed(rest);
        let after = first_trimmed(texts);
        assert forall|k: int| 0 <= k < texts.len() implies after.contains(
            trim(#[trigger] texts[k]),
        ) by {
            if k < rest.len() {
                assert(rest[k] == texts[k]);
                assert(before.contains(trim(rest[k])));
                let j = choose|j: int| 0 <= j < before.len() && before[j] == trim(rest[k]);
                assert(after[j] == before[j]);
            } else if !before.contains(trim(texts.last())) {
                assert(after[before.len() as int] == trim(texts.last()));
            }
        }
    }
}

/// The name may be given to a group: it is not empty and not the one for no group.
pub open spec fn is_group_name(name: Seq<char>) -> bool {
    name.len() > 0 && name != "未分组"@
}

/// Adds a group. The name loses its outer white space first.
pub fn create_bookmark_group(groups: Vec<String>, name: &str) -> (r: Result<Vec<String>, String>)
    ensures
        ({
            let wanted = trim(name@);
            if !is_group_name(wanted) {
                r is Err && r->Err_0@ == "分组名称不能为空或“未分组”"@
            } else if views(groups@).contains(wanted) {
                r is Err && r->Err_0@ == "同名分组已存在"@
            } else {
                r is Ok && views(r->Ok_0@) == views(groups@).push(wanted)
            }
        }),
{
    let wanted = trimmed(name);
    if wanted.as_str().is_empty() || same(wanted.as_str(), "未分组") {
        return Err("分组名称不能为空或“未分组”".to_owned());
    }
    if list_has(&groups, wanted.as_str()) {
        return Err("同名分组已存在".to_owned());
    }
    let mut groups = groups;
    push_text(&mut groups, wanted);
    Ok(groups)
}

/// The names with one replaced by another.
pub open spec fn renamed(
    names: Seq<Seq<char>>,
    from: Seq<char>,
    to: Seq<char>,
) -> Seq<Seq<char>> {
    names.map_values(|n: Seq<char>| if n == from { to } else { n })
}

/// Renames a group in the list of groups. Both names lose their outer white space first.
pub fn rename_bookmark_group(groups: &[String], old_name: &str, new_name: &str) -> (r: Result<
    Vec<String>,
    String,
>)
    ensures
        ({
            let from = trim(old_name@);
            let to = trim(new_name@);
            let all = views(groups@);
            if !is_group_name(to) {
                r is Err && r->Err_0@ == "分组名称不能为空或“未分组”"@
            } else if !all.contains(from) {
                r is Err && r->Err_0@ == "要重命名的分组不存在"@
            } else if from != to && all.contains(to) {
                r is Err && r->Err_0@ == "同名分组已存在"@
            } else {
                r is Ok && views(r->Ok_0@) == renamed(all, from, to)
            }
        }),
{
    let from = trimmed(old_name);
    let to = trimmed(new_name);
    if to.as_str().is_empty() || same(to.as_str(), "未分组") {
        return Err("分组名称不能为空或“未分组”".to_owned());
    }
    if !list_has(groups, from.as_str()) {
        return Err("要重命名的分组不存在".to_owned());
    }
    if !same(from.as_str(), to.as_str()) && list_has(groups, to.as_str()) {
        return Err("同名分组已存在".to_owned());
    }
    let mut r: Vec<String> = Vec::new();
    let ghost all = views(groups@);
    let mut i: usize = 0;
    while i < groups.len()
        invariant
            i <= groups@.len(),
            all == views(groups@),
            views(r@) == renamed(all.take(i as int), from@, to@),
        decreases groups@.len() - i,
    {
        let next = if same(groups[i].as_str(), from.as_str()) {
            to.clone()
        } else {
            groups[i].clone()
        };
        let ghost done = views(r@);
        push_text(&mut r, next);
        proof {
            assert(all[i as int] == groups@[i as int]@);
            assert(renamed(all.take(i + 1), from@, to@) =~= done.push(next@));
        }
        i = i + 1;
    }
    assert(all.take(i as int) =~= all);
    Ok(r)
}

/// Renaming a group keeps the groups different from each other, and the place of each.
pub proof fn law_renaming_keeps_groups_apart(
    names: Seq<Seq<char>>,
    from: Seq<char>,
    to: Seq<char>,
)
    requires
        names.no_duplicates(),
        from == to || !names.contains(to),
    ensures
        renamed(names, from, to).no_duplicates(),
        renamed(names, from, to).len() == names.len(),
        !names.contains(from) ==> renamed(names, from, to) == names,
        from != to ==> !renamed(names, from, to).contains(from),
{
    let after = renamed(names, from, to);
    assert forall|i: int, j: int|
        0 <= i < after.len() && 0 <= j < after.len() && i != j implies after[i] != after[j] by {
        assert(names[i] != names[j]);
        assert(names.contains(names[i]));
        assert(names.contains(names[j]));
    }
    if !names.contains(from) {
        assert forall|i: int| 0 <= i < names.len() implies names[i] == after[i] by {
            assert(names.contains(names[i]));
        }
        assert(after =~= names);
    }
    if from != to && after.contains(from) {
        let i = choose|i: int| 0 <= i < after.len() && after[i] == from;
        assert(names[i] == from);
    }
}

/// The ids of connections.
pub open spec fn bookmark_ids(list: Seq<Bookmark>) -> Seq<Seq<char>> {
    list.map_values(|b: Bookmark| b.id@)
}

/// The ids of the connections in a group.
pub open spec fn ids_in_group(list: Seq<Bookmark>, group: Seq<char>) -> Seq<Seq<char>>
    decreases list.len(),
{
    if list.len() == 0 {
        Seq::empty()
    } else {
        let rest = ids_in_group(list.drop_last(), group);
        if list.last().group_name@ == group {
            rest.push(list.last().id@)
        } else {
            rest
        }
    }
}

/// The connection stays and jumps through one of those that leave.
pub open spec fn depends_on(b: Bookmark, leaving: Seq<Seq<char>>) -> bool {
    !leaving.contains(b.id@) && leaving.contains(b.jump_bookmark_id@)
}

/// The first connection that stays and jumps through one of those that leave.
pub open spec fn first_dependent(list: Seq<Bookmark>, leaving: Seq<Seq<char>>) -> Option<Bookmark>
    decreases list.len(),
{
    if list.len() == 0 {
        None
    } else if depends_on(list[0], leaving) {
        Some(list[0])
    } else {
        first_dependent(list.skip(1), leaving)
    }
}

/// The names without one.
pub open spec fn names_without(names: Seq<Seq<char>>, name: Seq<char>) -> Seq<Seq<char>>
    decreases names.len(),
{
    if names.len() == 0 {
        names
    } else {
        let rest = names_without(names.drop_last(), name);
        if names.last() == name {
            rest
        } else {
            rest.push(names.last())
        }
    }
}

/// What is left after a group was deleted, and which connections went with it.
#[derive(Debug)]
pub struct BookmarkGroupDeleteResult {
    pub groups: Vec<String>,
    pub deleted_bookmark_ids: Vec<String>,
}

fn collect_ids_in_group(list: &[Bookmark], group: &str) -> (r: Vec<String>)
    ensures
        views(r@) == ids_in_group(list@, group@),
{
    let mut r: Vec<String> = Vec::new();
    assert(views(r@) =~= Seq::empty());
    let mut i: usize = 0;
    while i < list.len()
        invariant
            i <= list@.len(),
            views(r@) == ids_in_group(list@.take(i as int), group@),
        decreases list@.len() - i,
    {
        proof {
            assert(list@.take(i + 1).drop_last() =~= list@.take(i as int));
        }
        if same(list[i].group_name.as_str(), group) {
            push_text(&mut r, list[i].id.clone());
        }
        i = i + 1;
    }
    assert(list@.take(i as int) =~= list@);
    r
}

/// The names without one.
pub fn drop_name(names: &[String], name: &str) -> (r: Vec<String>)
    ensures
        views(r@) == names_without(views(names@), name@),
{
    let mut r: Vec<String> = Vec::new();
    let ghost all = views(names@);
    assert(views(r@) =~= names_without(all.take(0), name@));
    let mut i: usize = 0;
    while i < names.len()
        invariant
            i <= names@.len(),
            all == views(names@),
            views(r@) == names_without(all.take(i as int), name@),
        decreases names@.len() - i,
    {
        proof {
            assert(all.take(i + 1).drop_last() =~= all.take(i as int));
            assert(all.take(i + 1).last() == names@[i as int]@);
        }
        if !same(names[i].as_str(), name) {
            push_text(&mut r, names[i].clone());
        }
        i = i + 1;
    }
    assert(all.take(i as int) =~= all);
    r
}

/// Deletes a group with its connections, unless a connection that stays jumps through one of them.
/// The name loses its outer white space first.
pub fn delete_bookmark_group(groups: &[String], bookmarks: &[Bookmark], name: &str) -> (r: Result<
    BookmarkGroupDeleteResult,
    String,
>)
    ensures
        ({
            let wanted = trim(name@);
            let leaving = ids_in_group(bookmarks@, wanted);
            if !views(groups@).contains(wanted) {
                r is Err && r->Err_0@ == "要删除的分组不存在"@
            } else {
                match first_dependent(bookmarks@, leaving) {
                    Some(b) => r is Err && r->Err_0@ == "连接“"@ + b.name@
                        + "”正在使用该分组中的跳板机，请先修改该连接"@,
                    None => r is Ok && views(r->Ok_0.groups@) == names_without(
                        views(groups@),
                        wanted,
                    ) && views(r->Ok_0.deleted_bookmark_ids@) == leaving,
                }
            }
        }),
{
    let wanted = trimmed(name);
    if !list_has(groups, wanted.as_str()) {
        return Err("要删除的分组不存在".to_owned());
    }
    let leaving = collect_ids_in_group(bookmarks, wanted.as_str());
    let ghost gone = views(leaving@);
    let mut i: usize = 0;
    assert(bookmarks@.skip(0) =~= bookmarks@);
    while i < bookmarks.len()
        invariant
            i <= bookmarks@.len(),
            gone == views(leaving@),
            wanted@ == trim(name@),
            gone == ids_in_group(bookmarks@, wanted@),
            views(groups@).contains(wanted@),
            first_dependent(bookmarks@, gone) == first_dependent(bookmarks@.skip(i as int), gone),
        decreases bookmarks@.len() - i,
    {
        let b = &bookmarks[i];
        if !list_has(&leaving, b.id.as_str()) && list_has(&leaving, b.jump_bookmark_id.as_str()) {
            let mut message = "连接“".to_owned();
            message.append(b.name.as_str());
            message.append("”正在使用该分组中的跳板机，请先修改该连接");
            return Err(message);
        }
        proof {
            assert(bookmarks@.skip(i as int).skip(1) =~= bookmarks@.skip(i + 1));
        }
        i = i + 1;
    }
    Ok(
        BookmarkGroupDeleteResult {
            groups: drop_name(groups, wanted.as_str()),
            deleted_bookmark_ids: leaving,
        },
    )
}

/// Where no connection depends on those that leave, every connection that stays jumps through
/// none of them.
pub proof fn law_group_deletion_leaves_no_dangling_jump(
    list: Seq<Bookmark>,
    leaving: Seq<Seq<char>>,
)
    requires
        first_dependent(list, leaving) is None,
    ensures
        forall|i: int|
            0 <= i < list.len() && !leaving.contains((#[trigger] list[i]).id@)
                ==> !leaving.contains(list[i].jump_bookmark_id@),
    decreases list.len(),
{
    if list.len() > 0 {
        law_group_deletion_leaves_no_dangling_jump(list.skip(1), leaving);
        assert forall|i: int|
            0 <= i < list.len() && !leaving.contains(
                (#[trigger] list[i]).id@,
            ) implies !leaving.contains(list[i].jump_bookmark_id@) by {
            if i > 0 {
                assert(list.skip(1)[i - 1] == list[i]);
            }
        }
    }
}

/// The two lists are of the same length and hold the same texts.
pub open spec fn same_members(a: Seq<Seq<char>>, b: Seq<Seq<char>>) -> bool {
    &&& a.len() == b.len()
    &&& forall|k: int| 0 <= k < a.len() ==> b.contains(#[trigger] a[k])
    &&& forall|k: int| 0 <= k < b.len() ==> a.contains(#[trigger] b[k])
}

/// Decides `same_members`.
pub fn have_same_members(a: &[String], b: &[String]) -> (r: bool)
    ensures
        r == same_members(views(a@), views(b@)),
{
    if a.len() != b.len() {
        return false;
    }
    let ghost x = views(a@);
    let ghost y = views(b@);
    let mut i: usize = 0;
    while i < a.len()
        invariant
            i <= a@.len(),
            a@.len() == b@.len(),
            x == views(a@),
            y == views(b@),
            forall|k: int| 0 <= k < i ==> y.contains(#[trigger] x[k]),
            forall|k: int| 0 <= k < i ==> x.contains(#[trigger] y[k]),
        decreases a@.len() - i,
    {
        if !list_has(b, a[i].as_str()) {
            assert(!y.contains(x[i as int]));
            return false;
        }
        if !list_has(a, b[i].as_str()) {
            assert(!x.contains(y[i as int]));
            return false;
        }
        assert(x[i as int] == a@[i as int]@);
        assert(y[i as int] == b@[i as int]@);
        i = i + 1;
    }
    true
}

fn collect_ids(list: &[Bookmark]) -> (r: Vec<String>)
    ensures
        views(r@) == bookmark_ids(list@),
{
    let mut r: Vec<String> = Vec::new();
    assert(views(r@) =~= bookmark_ids(list@.take(0)));
    let mut i: usize = 0;
    while i < list.len()
        invariant
            i <= list@.len(),
            views(r@) == bookmark_ids(list@.take(i as int)),
        decreases list@.len() - i,
    {
        let ghost done = views(r@);
        push_text(&mut r, list[i].id.clone());
        assert(bookmark_ids(list@.take(i + 1)) =~= done.push(list@[i as int].id@));
        i = i + 1;
    }
    assert(list@.take(i as int) =~= list@);
    r
}

/// Accepts a new order of the connections where it names each of them: the position of an id in
/// the list becomes its place.
pub fn reorder_bookmarks(existing: &[Bookmark], ids: &[String]) -> (r: Result<(), String>)
    ensures
        r is Ok == same_members(views(ids@), bookmark_ids(existing@)),
        r is Err ==> r->Err_0@ == "连接排序数据已过期，请刷新后重试"@,
{
    let own = collect_ids(existing);
    if have_same_members(ids, &own) {
        Ok(())
    } else {
        Err("连接排序数据已过期，请刷新后重试".to_owned())
    }
}

/// Accepts a new order of the groups where it names each of them. The names lose their outer
/// white space first.
pub fn reorder_bookmark_groups(existing: &[String], groups: &[String]) -> (r: Result<
    Vec<String>,
    String,
>)
    ensures
        ({
            let wanted = views(groups@).map_values(|s: Seq<char>| trim(s));
            if same_members(wanted, views(existing@)) {
                r is Ok && views(r->Ok_0@) == wanted
            } else {
                r is Err && r->Err_0@ == "分组排序数据已过期，请刷新后重试"@
            }
        }),
{
    let ghost all = views(groups@);
    let ghost wanted = all.map_values(|s: Seq<char>| trim(s));
    let mut normalized: Vec<String> = Vec::new();
    let mut i: usize = 0;
    while i < groups.len()
        invariant
            i <= groups@.len(),
            all == views(groups@),
            wanted == all.map_values(|s: Seq<char>| trim(s)),
            views(normalized@) == wanted.take(i as int),
        decreases groups@.len() - i,
    {
        let ghost done = views(normalized@);
        push_text(&mut normalized, trimmed(groups[i].as_str()));
        proof {
            assert(all[i as int] == groups@[i as int]@);
            assert(wanted.take(i + 1) =~= done.push(wanted[i as int]));
        }
        i = i + 1;
    }
    assert(wanted.take(i as int) =~= wanted);
    if have_same_members(&normalized, existing) {
        Ok(normalized)
    } else {
        Err("分组排序数据已过期，请刷新后重试".to_owned())
    }
}

/// An accepted order of different ids names each of them once.
pub proof fn law_accepted_order_is_a_permutation(
    ids: Seq<Seq<char>>,
    existing: Seq<Seq<char>>,
)
    requires
        existing.no_duplicates(),
        same_members(ids, existing),
    ensures
        ids.no_duplicates(),
        forall|id: Seq<char>| ids.contains(id) <==> existing.contains(id),
{
    assert forall|id: Seq<char>| ids.contains(id) <==> existing.contains(id) by {
        if ids.contains(id) {
            let k = choose|k: int| 0 <= k < ids.len() && ids[k] == id;
            assert(existing.contains(ids[k]));
        }
        if existing.contains(id) {
            let k = choose|k: int| 0 <= k < existing.len() && existing[k] == id;
            assert(ids.contains(existing[k]));
        }
    }
    assert(ids.to_set() =~= existing.to_set());
    existing.unique_seq_to_set();
    ids.lemma_no_dup_set_cardinality();
}

/// The group to move a connection to, without outer white space, where it exists.
pub fn move_target(groups: &[String], group_name: &str) -> (r: Result<String, String>)
    ensures
        if views(groups@).contains(trim(group_name@)) {
            r is Ok && r->Ok_0@ == trim(group_name@)
        } else {
            r is Err && r->Err_0@ == "目标分组不存在"@
        },
{
    let wanted = trimmed(group_name);
    if list_has(groups, wanted.as_str()) {
        Ok(wanted)
    } else {
        Err("目标分组不存在".to_owned())
    }
}

/// How many generated commands the history keeps.
pub const AI_COMMAND_HISTORY_LIMIT: usize = 10;

/// The history with one more entry at its front; the oldest leave where it grows too long.
pub fn add_ai_command_history<T>(history: Vec<T>, entry: T) -> (r: Vec<T>)
    ensures
        r@ == (if history@.len() < AI_COMMAND_HISTORY_LIMIT {
            seq![entry] + history@
        } else {
            (seq![entry] + history@).take(AI_COMMAND_HISTORY_LIMIT as int)
        }),
{
    let ghost was = history@;
    let mut history = history;
    if history.len() >= AI_COMMAND_HISTORY_LIMIT {
        history.truncate(AI_COMMAND_HISTORY_LIMIT - 1);
    }
    let ghost cut = history@;
    history.insert(0, entry);
    proof {
        assert(history@ =~= seq![entry] + cut);
        if was.len() >= AI_COMMAND_HISTORY_LIMIT {
            assert(history@ =~= (seq![entry] + was).take(AI_COMMAND_HISTORY_LIMIT as int));
        }
    }
    history
}

/// Renaming a group gives the new name to that group and leaves every other group at its place.
pub proof fn law_renaming_changes_one_name(
    names: Seq<Seq<char>>,
    from: Seq<char>,
    to: Seq<char>,
    i: int,
)
    requires
        0 <= i < names.len(),
    ensures
        names[i] == from ==> renamed(names, from, to)[i] == to,
        names[i] != from ==> renamed(names, from, to)[i] == names[i],
{
}

/// A group cannot be deleted exactly while a connection that stays jumps through one of its
/// connections; the first such connection is named.
pub proof fn law_jumps_hold_a_group(list: Seq<Bookmark>, leaving: Seq<Seq<char>>)
    ensures
        match first_dependent(list, leaving) {
            Some(b) => list.contains(b) && !leaving.contains(b.id@) && leaving.contains(
                b.jump_bookmark_id@,
            ),
            None => forall|i: int|
                0 <= i < list.len() ==> leaving.contains((#[trigger] list[i]).id@)
                    || !leaving.contains(list[i].jump_bookmark_id@),
        },
    decreases list.len(),
{
    if list.len() > 0 {
        let rest = list.skip(1);
        law_jumps_hold_a_group(rest, leaving);
        assert(list[0] == list.first());
        match first_dependent(rest, leaving) {
            Some(b) => {
                let k = choose|k: int| 0 <= k < rest.len() && rest[k] == b;
                assert(list[k + 1] == b);
            },
            None => {
                assert forall|i: int| 1 <= i < list.len() implies leaving.contains(
                    (#[trigger] list[i]).id@,
                ) || !leaving.contains(list[i].jump_bookmark_id@) by {
                    assert(rest[i - 1] == list[i]);
                }
            },
        }
    }
}

/// Every order that names each of the ids once is accepted.
pub proof fn law_every_permutation_is_accepted(ids: Seq<Seq<char>>, existing: Seq<Seq<char>>)
    requires
        existing.no_duplicates(),
        ids.no_duplicates(),
        forall|id: Seq<char>| #[trigger] ids.contains(id) <==> existing.contains(id),
    ensures
        same_members(ids, existing),
{
    assert(ids.to_set() =~= existing.to_set()) by {
        assert forall|id: Seq<char>| ids.to_set().contains(id) <==> existing.to_set().contains(
            id,
        ) by {
            assert(ids.contains(id) <==> existing.contains(id));
        }
    }
    existing.unique_seq_to_set();
    ids.unique_seq_to_set();
    assert forall|k: int| 0 <= k < ids.len() implies existing.contains(#[trigger] ids[k]) by {
        assert(ids.contains(ids[k]));
    }
    assert forall|k: int| 0 <= k < existing.len() implies ids.contains(#[trigger] existing[k]) by {
        assert(existing.contains(existing[k]));
        assert(ids.contains(existing[k]));
    }
}

/// The names without one are the others, each as often as it stood there.
pub proof fn law_dropping_a_name_keeps_the_others(
    names: Seq<Seq<char>>,
    name: Seq<char>,
    other: Seq<char>,
)
    ensures
        !names_without(names, name).contains(name),
        other != name ==> names_without(names, name).to_multiset().count(other)
            == names.to_multiset().count(other),
    decreases names.len(),
{
    broadcast use vstd::seq_lib::group_to_multiset_ensures;
    if names.len() > 0 {
        let front = names.drop_last();
        law_dropping_a_name_keeps_the_others(front, name, other);
        assert(names =~= front.push(names.last()));
        let rest = names_without(front, name);
        if names.last() != name {
            assert(names_without(names, name) =~= rest.push(names.last()));
            assert forall|k: int| 0 <= k < names_without(names, name).len() implies names_without(
                names,
                name,
            )[k] != name by {
                if k < rest.len() {
                    assert(rest.contains(rest[k]));
                }
            }
        }
    }
}

/// A group is added exactly where its name, without outer white space, may be given to a group and is
/// not taken; it comes behind the others.
pub proof fn law_new_groups_come_last(
    groups: Vec<String>,
    name: &str,
    r: Result<Vec<String>, String>,
)
    requires
        create_bookmark_group.ensures((groups, name), r),
    ensures
        r is Ok <==> trim(name@).len() > 0 && trim(name@) != "未分组"@ && !views(groups@).contains(
            trim(name@),
        ),
        r matches Ok(after) ==> after@.len() == groups@.len() + 1 && after@.last()@ == trim(name@)
            && forall|i: int|
            0 <= i < groups@.len() ==> (#[trigger] after@[i])@ == groups@[i]@,
{
    if r is Ok {
        let after = r->Ok_0@;
        let all = views(after);
        assert(all.len() == after.len());
        assert(all.last() == after.last()@);
        assert forall|i: int| 0 <= i < groups@.len() implies (#[trigger] after[i])@
            == groups@[i]@ by {
            assert(all[i] == after[i]@);
            assert(all[i] == views(groups@)[i]);
        }
    }
}

/// A group is renamed exactly where it is there and the new name may be given to it: one that no
/// other group has.
pub proof fn law_groups_are_renamed_to_free_names(
    groups: &[String],
    old_name: &str,
    new_name: &str,
    r: Result<Vec<String>, String>,
)
    requires
        rename_bookmark_group.ensures((groups, old_name, new_name), r),
    ensures
        ({
            let from = trim(old_name@);
            let to = trim(new_name@);
            r is Ok <==> to.len() > 0 && to != "未分组"@ && views(groups@).contains(from) && (from
                == to || !views(groups@).contains(to))
        }),
{
}

/// A group is deleted exactly where it is there and nothing that stays jumps through it; the others
/// stay, and the ids of its connections are told.
pub proof fn law_groups_are_deleted_with_their_connections(
    groups: &[String],
    bookmarks: &[Bookmark],
    name: &str,
    r: Result<BookmarkGroupDeleteResult, String>,
)
    requires
        delete_bookmark_group.ensures((groups, bookmarks, name), r),
    ensures
        ({
            let wanted = trim(name@);
            let leaving = ids_in_group(bookmarks@, wanted);
            let held = exists|i: int|
                0 <= i < bookmarks@.len() && !leaving.contains((#[trigger] bookmarks@[i]).id@)
                    && leaving.contains(bookmarks@[i].jump_bookmark_id@);
            &&& r is Ok <==> views(groups@).contains(wanted) && !held
            &&& r matches Ok(done) ==> views(done.deleted_bookmark_ids@) == leaving
                && !views(done.groups@).contains(wanted)
        }),
{
    let wanted = trim(name@);
    let leaving = ids_in_group(bookmarks@, wanted);
    law_jumps_hold_a_group(bookmarks@, leaving);
    law_dropping_a_name_keeps_the_others(views(groups@), wanted, wanted);
    match first_dependent(bookmarks@, leaving) {
        Some(b) => {
            let i = choose|i: int| 0 <= i < bookmarks@.len() && bookmarks@[i] == b;
            assert(!leaving.contains(bookmarks@[i].id@));
        },
        None => {},
    }
}

/// A connection is moved to a group that is there, and to no other.
pub proof fn law_connections_move_to_known_groups(
    groups: &[String],
    group_name: &str,
    r: Result<String, String>,
)
    requires
        move_target.ensures((groups, group_name), r),
    ensures
        r is Ok <==> views(groups@).contains(trim(group_name@)),
        r matches Ok(group) ==> group@ == trim(group_name@),
{
}

/// The newest command comes first, and no more than ten are remembered: the oldest is forgotten.
pub proof fn law_ten_commands_are_remembered(
    history: Vec<String>,
    entry: String,
    r: Vec<String>,
    i: int,
)
    requires
        add_ai_command_history::<String>.ensures((history, entry), r),
    ensures
        r@.len() == (if history@.len() < 10 {
            history@.len() + 1
        } else {
            10
        }),
        r@[0] == entry,
        0 < i < r@.len() ==> r@[i] == history@[i - 1],
{
}

} // verus!
