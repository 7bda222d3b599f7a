//! Connections that come in from an archive or from another installation.
use vstd::prelude::*;
use vstd::string::*;

use crate::bookmarks::{clamp, clamped, AuthType, Bookmark};
use crate::ids::{is_uuid_text, new_id};
use crate::stored_records::is_list_key;
use crate::text::{
    copy_list, is_blank, list_has, opt_view, push_text, same, trim, trimmed, views,
};

verus! {

/// A connection in an archive or a snapshot.
#[derive(Debug)]
pub struct BookmarkArchiveEntry {
    pub id: String,
    pub name: String,
    pub host: String,
    pub port: u16,
    pub username: String,
    pub auth_type: AuthType,
    pub private_key_path: String,
    pub jump_bookmark_id: String,
    pub group_name: String,
    pub favorite: bool,
    pub keepalive_enabled: bool,
    pub keepalive_interval_seconds: u32,
    pub keepalive_count_max: u32,
    pub note: String,
}

/// Refuses a source without one of the tables; the error names the first that is missing.
pub fn check_required_tables(tables: &[String]) -> (r: Result<(), String>)
    ensures
        ({
            let all = views(tables@);
            let missing = if !all.contains("bookmarks"@) {
                Some("bookmarks"@)
            } else if !all.contains("settings"@) {
                Some("settings"@)
            } else if !all.contains("known_hosts"@) {
                Some("known_hosts"@)
            } else {
                None
            };
            match missing {
                None => r is Ok,
                Some(table) => r is Err && r->Err_0@
                    == "所选文件不是兼容的 Luna Remote 数据库：缺少 "@ + table + " 表"@,
            }
        }),
{
    let missing = if !list_has(tables, "bookmarks") {
        "bookmarks"
    } else if !list_has(tables, "settings") {
        "settings"
    } else if !list_has(tables, "known_hosts") {
        "known_hosts"
    } else {
        return Ok(());
    };
    let mut message = "所选文件不是兼容的 Luna Remote 数据库：缺少 ".to_owned();
    message.append(missing);
    message.append(" 表");
    Err(message)
}

/// The query for the connections of a source: in the order that the user gave them where the
/// source knows it, else in the order in which they were made.
pub fn connections_query(bookmark_columns: &[String]) -> (r: String)
    ensures
        r@
            == "SELECT id,name,host,port,username,authType,privateKeyPath,jumpBookmarkId,groupName,favorite,keepaliveEnabled,keepaliveIntervalSeconds,keepaliveCountMax,note FROM bookmarks ORDER BY "@
            + (if views(bookmark_columns@).contains("sortOrder"@) {
            "sortOrder ASC, createdAt ASC"@
        } else {
            "createdAt ASC"@
        }),
{
    let mut sql =
        "SELECT id,name,host,port,username,authType,privateKeyPath,jumpBookmarkId,groupName,favorite,keepaliveEnabled,keepaliveIntervalSeconds,keepaliveCountMax,note FROM bookmarks ORDER BY ".to_owned();
    if list_has(bookmark_columns, "sortOrder") {
        sql.append("sortOrder ASC, createdAt ASC");
    } else {
        sql.append("createdAt ASC");
    }
    sql
}

/// The ids of entries.
pub open spec fn entry_ids(entries: Seq<BookmarkArchiveEntry>) -> Seq<Seq<char>> {
    entries.map_values(|e: BookmarkArchiveEntry| e.id@)
}

/// The entry names its host and user and jumps, where it does, through another of the entries.
pub open spec fn entry_sound(e: BookmarkArchiveEntry, ids: Seq<Seq<char>>) -> bool {
    &&& trim(e.id@).len() > 0
    &&& trim(e.name@).len() > 0
    &&& trim(e.host@).len() > 0
    &&& trim(e.username@).len() > 0
    &&& e.port != 0
    &&& e.jump_bookmark_id@ != e.id@
    &&& (e.jump_bookmark_id@.len() > 0 ==> ids.contains(e.jump_bookmark_id@))
}

/// The entry with this id jumps through another.
pub open spec fn jumps(entries: Seq<BookmarkArchiveEntry>, id: Seq<char>) -> bool {
    exists|j: int|
        0 <= j < entries.len() && #[trigger] entries[j].id@ == id
            && entries[j].jump_bookmark_id@.len() > 0
}

/// What is wrong with the connections of a source.
pub ghost enum SourceFault {
    TooMany,
    Unsound,
    ChainedJump,
}

/// The message for a fault.
pub open spec fn source_fault_text(fault: SourceFault) -> Seq<char> {
    match fault {
        SourceFault::TooMany => "Luna Remote 数据库中的连接数量过多"@,
        SourceFault::Unsound => "Luna Remote 数据库包含无效连接或跳板机引用"@,
        SourceFault::ChainedJump => "Luna Remote 数据库包含多层跳板机，当前仅支持一层跳板机"@,
    }
}

/// All entries are sound and no two share an id.
pub open spec fn all_sound(entries: Seq<BookmarkArchiveEntry>) -> bool {
    &&& entry_ids(entries).no_duplicates()
    &&& forall|i: int|
        0 <= i < entries.len() ==> entry_sound(#[trigger] entries[i], entry_ids(entries))
}

/// Some entry jumps through one that itself jumps.
pub open spec fn has_chained_jump(entries: Seq<BookmarkArchiveEntry>) -> bool {
    exists|i: int|
        0 <= i < entries.len() && (#[trigger] entries[i]).jump_bookmark_id@.len() > 0 && jumps(
            entries,
            entries[i].jump_bookmark_id@,
        )
}

/// The first fault of the connections of a source.
pub open spec fn source_fault(entries: Seq<BookmarkArchiveEntry>) -> Option<SourceFault> {
    if entries.len() > 10_000 {
        Some(SourceFault::TooMany)
    } else if !all_sound(entries) {
        Some(SourceFault::Unsound)
    } else if has_chained_jump(entries) {
        Some(SourceFault::ChainedJump)
    } else {
        None
    }
}

fn collect_entry_ids(entries: &[BookmarkArchiveEntry]) -> (r: Vec<String>)
    ensures
        views(r@) == entry_ids(entries@),
{
    let mut r: Vec<String> = Vec::new();
    assert(views(r@) =~= entry_ids(entries@.take(0)));
    let mut i: usize = 0;
    while i < entries.len()
        invariant
            i <= entries@.len(),
            views(r@) == entry_ids(entries@.take(i as int)),
        decreases entries@.len() - i,
    {
        let ghost done = views(r@);
        push_text(&mut r, entries[i].id.clone());
        assert(entry_ids(entries@.take(i + 1)) =~= done.push(entries@[i as int].id@));
        i = i + 1;
    }
    assert(entries@.take(i as int) =~= entries@);
    r
}

fn repeats_id(entries: &[BookmarkArchiveEntry]) -> (r: bool)
    ensures
        r == !entry_ids(entries@).no_duplicates(),
{
    let ghost ids = entry_ids(entries@);
    let mut i: usize = 0;
    while i < entries.len()
        invariant
            i <= entries@.len(),
            ids == entry_ids(entries@),
            forall|a: int, b: int| 0 <= a < b < i ==> ids[a] != ids[b],
        decreases entries@.len() - i,
    {
        let mut k: usize = 0;
        while k < i
            invariant
                k <= i < entries@.len(),
                ids == entry_ids(entries@),
                forall|a: int| 0 <= a < k ==> #[trigger] ids[a] != ids[i as int],
            decreases i - k,
        {
            if same(entries[k].id.as_str(), entries[i].id.as_str()) {
                assert(ids[k as int] == ids[i as int]);
                return true;
            }
            assert(ids[k as int] == entries@[k as int].id@);
            k = k + 1;
        }
        i = i + 1;
    }
    assert(ids.no_duplicates());
    false
}

fn is_entry_sound(e: &BookmarkArchiveEntry, ids: &[String]) -> (r: bool)
    ensures
        r == entry_sound(*e, views(ids@)),
{
    !is_blank(e.id.as_str()) && !is_blank(e.name.as_str()) && !is_blank(e.host.as_str())
        && !is_blank(e.username.as_str()) && e.port != 0 && !same(
        e.jump_bookmark_id.as_str(),
        e.id.as_str(),
    ) && (e.jump_bookmark_id.as_str().is_empty() || list_has(ids, e.jump_bookmark_id.as_str()))
}

fn does_jump(entries: &[BookmarkArchiveEntry], id: &str) -> (r: bool)
    ensures
        r == jumps(entries@, id@),
{
    let mut j: usize = 0;
    while j < entries.len()
        invariant
            j <= entries@.len(),
            forall|k: int|
                0 <= k < j ==> !(#[trigger] entries@[k].id@ == id@
                    && entries@[k].jump_bookmark_id@.len() > 0),
        decreases entries@.len() - j,
    {
        if !entries[j].jump_bookmark_id.as_str().is_empty() && same(entries[j].id.as_str(), id) {
            assert(entries@[j as int].id@ == id@);
            return true;
        }
        j = j + 1;
    }
    false
}

/// Refuses the connections of a source where there are too many, where one is unsound or shares
/// its id, or where a jump leads through a connection that itself jumps.
pub fn check_source_connections(entries: &[BookmarkArchiveEntry]) -> (r: Result<(), String>)
    ensures
        match source_fault(entries@) {
            None => r is Ok,
            Some(fault) => r is Err && r->Err_0@ == source_fault_text(fault),
        },
{
    if entries.len() > 10_000 {
        return Err("Luna Remote 数据库中的连接数量过多".to_owned());
    }
    if repeats_id(entries) {
        return Err("Luna Remote 数据库包含无效连接或跳板机引用".to_owned());
    }
    let ids = collect_entry_ids(entries);
    let mut i: usize = 0;
    while i < entries.len()
        invariant
            i <= entries@.len() <= 10_000,
            views(ids@) == entry_ids(entries@),
            entry_ids(entries@).no_duplicates(),
            forall|k: int|
                0 <= k < i ==> entry_sound(#[trigger] entries@[k], entry_ids(entries@)),
        decreases entries@.len() - i,
    {
        if !is_entry_sound(&entries[i], &ids) {
            assert(!entry_sound(entries@[i as int], entry_ids(entries@)));
            return Err("Luna Remote 数据库包含无效连接或跳板机引用".to_owned());
        }
        i = i + 1;
    }
    let mut k: usize = 0;
    while k < entries.len()
        invariant
            k <= entries@.len() <= 10_000,
            all_sound(entries@),
            forall|j: int|
                0 <= j < k ==> !((#[trigger] entries@[j]).jump_bookmark_id@.len() > 0 && jumps(
                    entries@,
                    entries@[j].jump_bookmark_id@,
                )),
        decreases entries@.len() - k,
    {
        let jump = entries[k].jump_bookmark_id.as_str();
        if !jump.is_empty() && does_jump(entries, jump) {
            assert(entries@[k as int].jump_bookmark_id@.len() > 0);
            return Err("Luna Remote 数据库包含多层跳板机，当前仅支持一层跳板机".to_owned());
        }
        k = k + 1;
    }
    Ok(())
}

/// In an accepted source every jump leads to a connection of the source that needs no jump.
pub proof fn law_accepted_jumps_are_one_step(entries: Seq<BookmarkArchiveEntry>, i: int)
    requires
        source_fault(entries) is None,
        0 <= i < entries.len(),
        entries[i].jump_bookmark_id@.len() > 0,
    ensures
        exists|j: int|
            0 <= j < entries.len() && j != i && #[trigger] entries[j].id@
                == entries[i].jump_bookmark_id@ && entries[j].jump_bookmark_id@.len() == 0,
{
    let ids = entry_ids(entries);
    assert(entry_sound(entries[i], ids));
    let j = choose|j: int| 0 <= j < ids.len() && ids[j] == entries[i].jump_bookmark_id@;
    assert(entries[j].id@ == ids[j]);
    assert(!jumps(entries, entries[i].jump_bookmark_id@));
}

/// The groups with the trimmed name behind them, where it is not empty and not there yet.
pub open spec fn with_group(groups: Seq<Seq<char>>, name: Seq<char>) -> Seq<Seq<char>> {
    let group = trim(name);
    if group.len() == 0 || groups.contains(group) {
        groups
    } else {
        groups.push(group)
    }
}

/// The groups with each of the names added in turn.
pub open spec fn with_groups(groups: Seq<Seq<char>>, names: Seq<Seq<char>>) -> Seq<Seq<char>>
    decreases names.len(),
{
    if names.len() == 0 {
        groups
    } else {
        with_group(with_groups(groups, names.drop_last()), names.last())
    }
}

/// The group names of entries.
pub open spec fn entry_groups(entries: Seq<BookmarkArchiveEntry>) -> Seq<Seq<char>> {
    entries.map_values(|e: BookmarkArchiveEntry| e.group_name@)
}

fn add_group(groups: &mut Vec<String>, name: &str)
    ensures
        views(final(groups)@) == with_group(views(old(groups)@), name@),
{
    let group = trimmed(name);
    if !group.as_str().is_empty() && !list_has(groups, group.as_str()) {
        push_text(groups, group);
    }
}

fn add_entry_groups(groups: &mut Vec<String>, entries: &[BookmarkArchiveEntry])
    ensures
        views(final(groups)@) == with_groups(views(old(groups)@), entry_groups(entries@)),
{
    let ghost start = views(groups@);
    let ghost names = entry_groups(entries@);
    let mut i: usize = 0;
    while i < entries.len()
        invariant
            i <= entries@.len(),
            names == entry_groups(entries@),
            views(groups@) == with_groups(start, names.take(i as int)),
        decreases entries@.len() - i,
    {
        proof {
            assert(names.take(i + 1).drop_last() =~= names.take(i as int));
            assert(names.take(i + 1).last() == entries@[i as int].group_name@);
        }
        add_group(groups, entries[i].group_name.as_str());
        i = i + 1;
    }
    assert(names.take(i as int) =~= names);
}

/// How many groups a snapshot keeps.
pub const SNAPSHOT_GROUP_LIMIT: usize = 1_000;

/// Those of the names that are not blank.
pub open spec fn not_blank(names: Seq<Seq<char>>) -> Seq<Seq<char>>
    decreases names.len(),
{
    if names.len() == 0 {
        names
    } else {
        let rest = not_blank(names.drop_last());
        if trim(names.last()).len() == 0 {
            rest
        } else {
            rest.push(names.last())
        }
    }
}

/// At most the first `n`.
pub open spec fn first_of<T>(items: Seq<T>, n: int) -> Seq<T> {
    if items.len() <= n {
        items
    } else {
        items.take(n)
    }
}

/// The groups of a snapshot: the stored ones and those of its connections, without blank names.
pub open spec fn snapshot_groups_of(
    stored: Seq<Seq<char>>,
    entries: Seq<BookmarkArchiveEntry>,
) -> Seq<Seq<char>> {
    first_of(not_blank(with_groups(stored, entry_groups(entries))), SNAPSHOT_GROUP_LIMIT as int)
}

/// The groups of a snapshot.
pub fn snapshot_groups(stored: Vec<String>, entries: &[BookmarkArchiveEntry]) -> (r: Vec<String>)
    ensures
        views(r@) == snapshot_groups_of(views(stored@), entries@),
{
    let mut groups = stored;
    add_entry_groups(&mut groups, entries);
    let ghost all = views(groups@);
    let mut kept: Vec<String> = Vec::new();
    assert(views(kept@) =~= not_blank(all.take(0)));
    let mut i: usize = 0;
    while i < groups.len()
        invariant
            i <= groups@.len(),
            all == views(groups@),
            views(kept@) == not_blank(all.take(i as int)),
        decreases groups@.len() - i,
    {
        proof {
            assert(all.take(i + 1).drop_last() =~= all.take(i as int));
            assert(all.take(i + 1).last() == groups@[i as int]@);
        }
        if !is_blank(groups[i].as_str()) {
            push_text(&mut kept, groups[i].clone());
        }
        i = i + 1;
    }
    assert(all.take(i as int) =~= all);
    let ghost whole = views(kept@);
    kept.truncate(SNAPSHOT_GROUP_LIMIT);
    assert(views(kept@) =~= first_of(whole, SNAPSHOT_GROUP_LIMIT as int));
    kept
}

/// A setting that can move between installations.
#[derive(Debug)]
pub struct PortableSettingEntry {
    pub key: String,
    pub value: String,
}

/// The settings that can move between installations.
pub open spec fn portable_keys() -> Seq<Seq<char>> {
    seq![
        "aiSettings"@,
        "collapsedBookmarkGroups"@,
        "language"@,
        "sidebarCollapsed"@,
        "sidebarWidth"@,
        "terminalSettings"@,
        "uiTheme"@,
    ]
}

fn portable_key_list() -> (r: Vec<String>)
    ensures
        views(r@) == portable_keys(),
{
    let mut r: Vec<String> = Vec::new();
    push_text(&mut r, "aiSettings".to_owned());
    push_text(&mut r, "collapsedBookmarkGroups".to_owned());
    push_text(&mut r, "language".to_owned());
    push_text(&mut r, "sidebarCollapsed".to_owned());
    push_text(&mut r, "sidebarWidth".to_owned());
    push_text(&mut r, "terminalSettings".to_owned());
    push_text(&mut r, "uiTheme".to_owned());
    assert(views(r@) =~= portable_keys());
    r
}

/// The text reads as a JSON value.
pub uninterp spec fn is_json_text(s: Seq<char>) -> bool;

/// Calls `serde_json::from_str` for any JSON value and tells whether it succeeds. The contract
/// names that answer; it depends on the text alone.
#[verifier::external_body]
fn reads_as_json(s: &str) -> (r: bool)
    ensures
        r == is_json_text(s@),
{
    serde_json::from_str::<serde_json::Value>(s).is_ok()
}

/// The names that `serde_json::from_str` reads in a text as a list of strings; nothing where it
/// fails.
pub uninterp spec fn listed_names(text: Seq<char>) -> Option<Seq<Seq<char>>>;

/// Calls `serde_json::from_str` for a list of strings. The contract names what it reads, or that it
/// fails; both depend on the text alone.
#[verifier::external_body]
fn read_names(text: &str) -> (r: Option<Vec<String>>)
    ensures
        match r {
            Some(names) => listed_names(text@) == Some(views(names@)),
            None => listed_names(text@) is None,
        },
{
    serde_json::from_str::<Vec<String>>(text).ok()
}

/// The names that a stored text lists; none where there is no text or it cannot be read.
pub open spec fn names_or_none(text: Option<Seq<char>>) -> Seq<Seq<char>> {
    match text {
        Some(text) => match listed_names(text) {
            Some(names) => names,
            None => Seq::empty(),
        },
        None => Seq::empty(),
    }
}

/// The names that a stored text lists.
pub fn names_in(text: Option<&str>) -> (r: Vec<String>)
    ensures
        views(r@) == names_or_none(
            match text {
                Some(text) => Some(text@),
                None => None,
            },
        ),
{
    let names = match text {
        Some(text) => read_names(text),
        None => None,
    };
    match names {
        Some(names) => names,
        None => {
            let none: Vec<String> = Vec::new();
            assert(views(none@) =~= Seq::empty());
            none
        },
    }
}

/// The fields that `serde_json::from_str` reads in a text as an object, each with the text of its
/// value; nothing where it fails.
pub uninterp spec fn object_fields(text: Seq<char>) -> Option<Seq<(Seq<char>, Seq<char>)>>;

/// The text that `serde_json::to_string` writes for an object with these fields; nothing where the
/// text of a value is no JSON.
pub uninterp spec fn object_text(fields: Seq<(Seq<char>, Seq<char>)>) -> Option<Seq<char>>;

/// The names of fields and the texts of their values.
pub open spec fn field_texts(fields: Seq<(String, String)>) -> Seq<(Seq<char>, Seq<char>)> {
    fields.map_values(|field: (String, String)| (field.0@, field.1@))
}

/// Calls `serde_json::from_str` for an object and takes over each field with the text of its value.
/// The contract names what it reads, or that it fails; both depend on the text alone.
#[verifier::external_body]
fn read_fields(text: &str) -> (r: Option<Vec<(String, String)>>)
    ensures
        match r {
            Some(fields) => object_fields(text@) == Some(field_texts(fields@)),
            None => object_fields(text@) is None,
        },
{
    let map: serde_json::Map<String, serde_json::Value> = serde_json::from_str(text).ok()?;
    Some(map.into_iter().map(|(name, value)| (name, value.to_string())).collect())
}

/// Calls `serde_json::to_string` on an object with the fields. The contract names what it writes,
/// or that the text of a value is no JSON; both depend on the fields alone.
#[verifier::external_body]
fn write_fields(fields: &[(String, String)]) -> (r: Option<String>)
    ensures
        opt_view(r) == object_text(field_texts(fields@)),
{
    let read = |text: &String| serde_json::from_str::<serde_json::Value>(text).ok();
    let map = fields.iter().map(|(name, text)| Some((name.clone(), read(text)?)));
    serde_json::to_string(&map.collect::<Option<serde_json::Map<_, _>>>()?).ok()
}

/// A field has the name.
pub open spec fn has_field(fields: Seq<(Seq<char>, Seq<char>)>, name: Seq<char>) -> bool {
    exists|i: int| 0 <= i < fields.len() && (#[trigger] fields[i]).0 == name
}

/// The fields with this value for a name: at its place where there is one, else behind the others.
pub open spec fn with_field(
    fields: Seq<(Seq<char>, Seq<char>)>,
    name: Seq<char>,
    value: Seq<char>,
) -> Seq<(Seq<char>, Seq<char>)> {
    let changed = fields.map_values(
        |field: (Seq<char>, Seq<char>)|
            if field.0 == name {
                (name, value)
            } else {
                field
            },
    );
    if has_field(fields, name) {
        changed
    } else {
        changed.push((name, value))
    }
}

/// Terminal settings without the path of the background picture, which lies on the other machine.
pub fn without_picture(fields: Vec<(String, String)>) -> (r: Vec<(String, String)>)
    ensures
        field_texts(r@) == with_field(
            field_texts(fields@),
            "backgroundImagePath"@,
            "\"\""@,
        ),
{
    let ghost all = field_texts(fields@);
    let ghost name = "backgroundImagePath"@;
    let ghost value = "\"\""@;
    let ghost changed = all.map_values(
        |field: (Seq<char>, Seq<char>)|
            if field.0 == name {
                (name, value)
            } else {
                field
            },
    );
    let mut r: Vec<(String, String)> = Vec::new();
    let mut found: bool = false;
    let mut i: usize = 0;
    assert(field_texts(r@) =~= changed.take(0));
    while i < fields.len()
        invariant
            i <= fields@.len(),
            all == field_texts(fields@),
            changed.len() == all.len(),
            name == "backgroundImagePath"@,
            value == "\"\""@,
            forall|k: int|
                0 <= k < all.len() ==> #[trigger] changed[k] == (if all[k].0 == name {
                    (name, value)
                } else {
                    all[k]
                }),
            field_texts(r@) == changed.take(i as int),
            found == exists|k: int| 0 <= k < i && (#[trigger] all[k]).0 == name,
        decreases fields@.len() - i,
    {
        let ghost done = r@;
        assert(all[i as int] == (fields@[i as int].0@, fields@[i as int].1@));
        if same(fields[i].0.as_str(), "backgroundImagePath") {
            found = true;
            r.push((fields[i].0.clone(), "\"\"".to_owned()));
        } else {
            r.push((fields[i].0.clone(), fields[i].1.clone()));
        }
        proof {
            let added = r@.last();
            assert(r@ =~= done.push(added));
            assert(field_texts(r@) =~= field_texts(done).push((added.0@, added.1@)));
            assert(changed.take(i + 1) =~= changed.take(i as int).push(changed[i as int]));
            assert(field_texts(r@) =~= changed.take(i + 1));
        }
        i = i + 1;
    }
    assert(changed.take(i as int) =~= changed);
    if !found {
        r.push(("backgroundImagePath".to_owned(), "\"\"".to_owned()));
        assert(field_texts(r@) =~= changed.push((name, value)));
    }
    r
}

/// What becomes of stored terminal settings; nothing where they are no object.
pub open spec fn moved_terminal(text: Seq<char>) -> Option<Seq<char>> {
    match object_fields(text) {
        Some(fields) => object_text(with_field(fields, "backgroundImagePath"@, "\"\""@)),
        None => None,
    }
}

fn move_terminal(text: &str) -> (r: Option<String>)
    ensures
        opt_view(r) == moved_terminal(text@),
{
    match read_fields(text) {
        Some(fields) => write_fields(&without_picture(fields)),
        None => None,
    }
}

/// The value that a key has; the first where it stands more than once.
pub open spec fn setting_value(settings: Seq<(String, String)>, key: Seq<char>) -> Option<Seq<char>>
    decreases settings.len(),
{
    if settings.len() == 0 {
        None
    } else if settings[0].0@ == key {
        Some(settings[0].1@)
    } else {
        setting_value(settings.skip(1), key)
    }
}

/// The key and value of settings.
pub open spec fn setting_views(entries: Seq<PortableSettingEntry>) -> Seq<(Seq<char>, Seq<char>)> {
    entries.map_values(|e: PortableSettingEntry| (e.key@, e.value@))
}

/// What becomes of a setting: the terminal settings go in the rewritten form, where there is one,
/// and any other setting goes as it is where it reads as JSON.
pub open spec fn portable_value(
    key: Seq<char>,
    value: Seq<char>,
    terminal: Option<Seq<char>>,
    json: bool,
) -> Option<Seq<char>> {
    if key == "terminalSettings"@ {
        terminal
    } else if json {
        Some(value)
    } else {
        None
    }
}

/// The portable settings among the first `n` keys.
pub open spec fn portable_of(
    settings: Seq<(String, String)>,
    n: nat,
) -> Seq<(Seq<char>, Seq<char>)>
    decreases n,
{
    if n == 0 {
        Seq::empty()
    } else {
        let rest = portable_of(settings, (n - 1) as nat);
        let key = portable_keys()[n - 1];
        match setting_value(settings, key) {
            None => rest,
            Some(value) => match portable_value(
                key,
                value,
                moved_terminal(value),
                is_json_text(value),
            ) {
                None => rest,
                Some(moved) => rest.push((key, moved)),
            },
        }
    }
}

fn find_setting<'a>(settings: &'a [(String, String)], key: &str) -> (r: Option<&'a String>)
    ensures
        match r {
            Some(v) => setting_value(settings@, key@) == Some(v@),
            None => setting_value(settings@, key@) is None,
        },
{
    let mut i: usize = 0;
    assert(settings@.skip(0) =~= settings@);
    while i < settings.len()
        invariant
            i <= settings@.len(),
            setting_value(settings@, key@) == setting_value(settings@.skip(i as int), key@),
        decreases settings@.len() - i,
    {
        if same(settings[i].0.as_str(), key) {
            return Some(&settings[i].1);
        }
        proof {
            assert(settings@.skip(i as int).skip(1) =~= settings@.skip(i + 1));
        }
        i = i + 1;
    }
    None
}

/// What becomes of a setting of which it is known whether it reads as JSON.
pub fn portable_setting(key: &str, value: &str, terminal: Option<&str>, json: bool) -> (r: Option<
    String,
>)
    ensures
        match portable_value(
            key@,
            value@,
            match terminal {
                Some(s) => Some(s@),
                None => None,
            },
            json,
        ) {
            Some(moved) => r is Some && r->0@ == moved,
            None => r is None,
        },
{
    if same(key, "terminalSettings") {
        match terminal {
            Some(s) => Some(s.to_owned()),
            None => None,
        }
    } else if json {
        Some(value.to_owned())
    } else {
        None
    }
}

/// The settings of a source that can move.
pub fn portable_settings(settings: &[(String, String)]) -> (r: Vec<PortableSettingEntry>)
    ensures
        setting_views(r@) == portable_of(settings@, portable_keys().len()),
{
    let keys = portable_key_list();
    let mut r: Vec<PortableSettingEntry> = Vec::new();
    assert(setting_views(r@) =~= portable_of(settings@, 0));
    let mut i: usize = 0;
    while i < keys.len()
        invariant
            i <= keys@.len(),
            views(keys@) == portable_keys(),
            setting_views(r@) == portable_of(settings@, i as nat),
        decreases keys@.len() - i,
    {
        assert(portable_keys()[i as int] == keys@[i as int]@);
        match find_setting(settings, keys[i].as_str()) {
            None => {},
            Some(value) => {
                let json = reads_as_json(value.as_str());
                let moved = move_terminal(value.as_str());
                let terminal = match &moved {
                    Some(text) => Some(text.as_str()),
                    None => None,
                };
                match portable_setting(keys[i].as_str(), value.as_str(), terminal, json) {
                    None => {},
                    Some(moved) => {
                        let ghost done = setting_views(r@);
                        let ghost pair = (keys@[i as int]@, moved@);
                        r.push(PortableSettingEntry { key: keys[i].clone(), value: moved });
                        assert(setting_views(r@) =~= done.push(pair));
                    },
                }
            },
        }
        i = i + 1;
    }
    assert(keys@.len() == portable_keys().len());
    r
}

/// A port forwarding that the user set up. `forward_type` is its kind by name.
#[derive(Debug)]
pub struct PortForwardProfile {
    pub id: String,
    pub bookmark_id: String,
    pub name: String,
    pub forward_type: String,
    pub bind_address: String,
    pub bind_port: u16,
    pub target_host: String,
    pub target_port: u16,
}

/// A host key that the user trusts.
#[derive(Debug)]
pub struct KnownHostImportEntry {
    pub host: String,
    pub port: u16,
    pub fingerprint: String,
}

/// How many forwardings a snapshot keeps.
pub const SNAPSHOT_FORWARDING_LIMIT: usize = 10_000;

/// How many host keys a source may have.
pub const SOURCE_HOST_KEY_LIMIT: usize = 100_000;

/// The forwardings that belong to one of the connections.
pub open spec fn forwardings_of(
    profiles: Seq<PortForwardProfile>,
    ids: Seq<Seq<char>>,
) -> Seq<PortForwardProfile>
    decreases profiles.len(),
{
    if profiles.len() == 0 {
        profiles
    } else {
        let rest = forwardings_of(profiles.drop_last(), ids);
        if ids.contains(profiles.last().bookmark_id@) {
            rest.push(profiles.last())
        } else {
            rest
        }
    }
}

/// Those of the names that are among the ids.
pub open spec fn known_of(names: Seq<Seq<char>>, ids: Seq<Seq<char>>) -> Seq<Seq<char>>
    decreases names.len(),
{
    if names.len() == 0 {
        names
    } else {
        let rest = known_of(names.drop_last(), ids);
        if ids.contains(names.last()) {
            rest.push(names.last())
        } else {
            rest
        }
    }
}

/// A copy of a forwarding.
pub fn copy_profile(p: &PortForwardProfile) -> (r: PortForwardProfile)
    ensures
        r == *p,
{
    PortForwardProfile {
        id: p.id.clone(),
        bookmark_id: p.bookmark_id.clone(),
        name: p.name.clone(),
        forward_type: p.forward_type.clone(),
        bind_address: p.bind_address.clone(),
        bind_port: p.bind_port,
        target_host: p.target_host.clone(),
        target_port: p.target_port,
    }
}

fn select_forwardings(profiles: &[PortForwardProfile], ids: &[String]) -> (r: Vec<
    PortForwardProfile,
>)
    ensures
        r@ == forwardings_of(profiles@, views(ids@)),
{
    let mut r: Vec<PortForwardProfile> = Vec::new();
    assert(r@ =~= forwardings_of(profiles@.take(0), views(ids@)));
    let mut i: usize = 0;
    while i < profiles.len()
        invariant
            i <= profiles@.len(),
            r@ == forwardings_of(profiles@.take(i as int), views(ids@)),
        decreases profiles@.len() - i,
    {
        proof {
            assert(profiles@.take(i + 1).drop_last() =~= profiles@.take(i as int));
        }
        if list_has(ids, profiles[i].bookmark_id.as_str()) {
            r.push(copy_profile(&profiles[i]));
        }
        i = i + 1;
    }
    assert(profiles@.take(i as int) =~= profiles@);
    r
}

fn select_known(names: &[String], ids: &[String]) -> (r: Vec<String>)
    ensures
        views(r@) == known_of(views(names@), views(ids@)),
{
    let mut r: Vec<String> = Vec::new();
    let ghost all = views(names@);
    assert(views(r@) =~= known_of(all.take(0), views(ids@)));
    let mut i: usize = 0;
    while i < names.len()
        invariant
            i <= names@.len(),
            all == views(names@),
            views(r@) == known_of(all.take(i as int), views(ids@)),
        decreases names@.len() - i,
    {
        proof {
            assert(all.take(i + 1).drop_last() =~= all.take(i as int));
            assert(all.take(i + 1).last() == names@[i as int]@);
        }
        if list_has(ids, names[i].as_str()) {
            push_text(&mut r, names[i].clone());
        }
        i = i + 1;
    }
    assert(all.take(i as int) =~= all);
    r
}

/// What was read from the database of another installation. `forwarding_profiles` is empty where
/// the source has no list of forwardings that can be read.
#[derive(Debug)]
pub struct RemoteSource {
    pub path: String,
    pub source_modified_at: String,
    pub connections: Vec<BookmarkArchiveEntry>,
    pub settings: Vec<(String, String)>,
    pub forwarding_profiles: Vec<PortForwardProfile>,
    pub known_hosts: Vec<KnownHostImportEntry>,
    pub credential_refs: Vec<String>,
}

/// What can be taken over from another installation.
#[derive(Debug)]
pub struct LunaRemoteSnapshot {
    pub path: String,
    pub source_modified_at: String,
    pub groups: Vec<String>,
    pub connections: Vec<BookmarkArchiveEntry>,
    pub known_hosts: Vec<KnownHostImportEntry>,
    pub settings: Vec<PortableSettingEntry>,
    pub forwarding_profiles: Vec<PortForwardProfile>,
    pub credential_connection_ids: Vec<String>,
}

/// The snapshot of a source: its connections and host keys, its groups, the settings that can
/// move, and the forwardings and credentials that belong to its connections.
pub open spec fn is_snapshot_of(s: LunaRemoteSnapshot, source: RemoteSource) -> bool {
    let ids = entry_ids(source.connections@);
    &&& s.path@ == source.path@
    &&& s.source_modified_at@ == source.source_modified_at@
    &&& s.connections@ == source.connections@
    &&& s.known_hosts@ == source.known_hosts@
    &&& views(s.groups@) == snapshot_groups_of(
        names_or_none(setting_value(source.settings@, "bookmarkGroups"@)),
        source.connections@,
    )
    &&& setting_views(s.settings@) == portable_of(source.settings@, portable_keys().len())
    &&& s.forwarding_profiles@ == first_of(
        forwardings_of(source.forwarding_profiles@, ids),
        SNAPSHOT_FORWARDING_LIMIT as int,
    )
    &&& views(s.credential_connection_ids@) == known_of(views(source.credential_refs@), ids)
}

/// None of the settings is the list of the groups or that of the forwardings.
pub open spec fn is_portable(settings: Seq<PortableSettingEntry>) -> bool {
    forall|i: int| 0 <= i < settings.len() ==> !is_list_key((#[trigger] settings[i]).key@)
}

/// Whether none of the settings is the list of the groups or that of the forwardings.
pub fn are_portable(settings: &[PortableSettingEntry]) -> (r: bool)
    ensures
        r == is_portable(settings@),
{
    let mut i: usize = 0;
    while i < settings.len()
        invariant
            i <= settings@.len(),
            forall|k: int| 0 <= k < i ==> !is_list_key((#[trigger] settings@[k]).key@),
        decreases settings@.len() - i,
    {
        let key = settings[i].key.as_str();
        if same(key, "bookmarkGroups") || same(key, "portForwardProfiles") {
            assert(is_list_key(settings@[i as int].key@));
            return false;
        }
        i = i + 1;
    }
    true
}

proof fn lemma_portable_keys(settings: Seq<(String, String)>, n: nat)
    requires
        n <= portable_keys().len(),
    ensures
        forall|i: int|
            0 <= i < portable_of(settings, n).len() ==> portable_keys().contains(
                (#[trigger] portable_of(settings, n)[i]).0,
            ),
    decreases n,
{
    if n > 0 {
        let rest = portable_of(settings, (n - 1) as nat);
        let whole = portable_of(settings, n);
        lemma_portable_keys(settings, (n - 1) as nat);
        assert(portable_keys().contains(portable_keys()[n - 1]));
        assert forall|i: int| 0 <= i < whole.len() implies portable_keys().contains(
            (#[trigger] whole[i]).0,
        ) by {
            if i < rest.len() {
                assert(whole[i] == rest[i]);
            }
        }
    }
}

/// What a snapshot takes over of the settings is portable.
pub proof fn law_snapshots_are_portable(s: LunaRemoteSnapshot, source: RemoteSource)
    requires
        is_snapshot_of(s, source),
    ensures
        is_portable(s.settings@),
{
    reveal_strlit("aiSettings");
    reveal_strlit("collapsedBookmarkGroups");
    reveal_strlit("language");
    reveal_strlit("sidebarCollapsed");
    reveal_strlit("sidebarWidth");
    reveal_strlit("terminalSettings");
    reveal_strlit("uiTheme");
    reveal_strlit("bookmarkGroups");
    reveal_strlit("portForwardProfiles");
    let n = portable_keys().len();
    lemma_portable_keys(source.settings@, n);
    let moved = portable_of(source.settings@, n);
    assert forall|i: int| 0 <= i < s.settings@.len() implies !is_list_key(
        (#[trigger] s.settings@[i]).key@,
    ) by {
        assert(setting_views(s.settings@)[i] == moved[i]);
        assert(portable_keys().contains(moved[i].0));
        let k = choose|k: int| 0 <= k < n && portable_keys()[k] == moved[i].0;
        assert(k == 0 || k == 1 || k == 2 || k == 3 || k == 4 || k == 5 || k == 6);
        assert(s.settings@[i].key@ == portable_keys()[k]);
        assert(portable_keys()[k].len() != 14 && portable_keys()[k].len() != 19);
        assert("bookmarkGroups"@.len() == 14 && "portForwardProfiles"@.len() == 19);
    }
}

proof fn lemma_moved_terminal(settings: Seq<(String, String)>, n: nat)
    requires
        n <= portable_keys().len(),
    ensures
        forall|i: int|
            0 <= i < portable_of(settings, n).len() && (#[trigger] portable_of(settings, n)[i]).0
                == "terminalSettings"@ ==> moved_terminal(
                setting_value(settings, "terminalSettings"@)->0,
            ) == Some(portable_of(settings, n)[i].1),
    decreases n,
{
    if n > 0 {
        let rest = portable_of(settings, (n - 1) as nat);
        let whole = portable_of(settings, n);
        lemma_moved_terminal(settings, (n - 1) as nat);
        assert forall|i: int|
            0 <= i < whole.len() && (#[trigger] whole[i]).0
                == "terminalSettings"@ implies moved_terminal(
            setting_value(settings, "terminalSettings"@)->0,
        ) == Some(whole[i].1) by {
            if i < rest.len() {
                assert(whole[i] == rest[i]);
            }
        }
    }
}

/// The path of the background picture is not carried over: the terminal settings of a snapshot are
/// an object that has it empty.
pub proof fn law_pictures_are_not_carried_over(s: LunaRemoteSnapshot, source: RemoteSource, i: int)
    requires
        is_snapshot_of(s, source),
        0 <= i < s.settings@.len(),
        s.settings@[i].key@ == "terminalSettings"@,
    ensures
        exists|fields: Seq<(Seq<char>, Seq<char>)>|
            {
                &&& #[trigger] object_text(fields) == Some(s.settings@[i].value@)
                &&& has_field(fields, "backgroundImagePath"@)
                &&& forall|k: int|
                    0 <= k < fields.len() && (#[trigger] fields[k]).0 == "backgroundImagePath"@
                        ==> fields[k].1 == "\"\""@
            },
{
    let name = "backgroundImagePath"@;
    let n = portable_keys().len();
    lemma_moved_terminal(source.settings@, n);
    assert(setting_views(s.settings@)[i] == (s.settings@[i].key@, s.settings@[i].value@));
    let text = setting_value(source.settings@, "terminalSettings"@)->0;
    let read = object_fields(text)->0;
    let fields = with_field(read, name, "\"\""@);
    if has_field(read, name) {
        let k = choose|k: int| 0 <= k < read.len() && (#[trigger] read[k]).0 == name;
        assert(fields[k].0 == name);
    } else {
        assert(fields[read.len() as int].0 == name);
    }
    assert forall|k: int|
        0 <= k < fields.len() && (#[trigger] fields[k]).0 == name implies fields[k].1
        == "\"\""@ by {
        if k < read.len() {
            assert(fields[k] == (if read[k].0 == name {
                (name, "\"\""@)
            } else {
                read[k]
            }));
        }
    }
    assert(object_text(fields) == Some(s.settings@[i].value@));
}

/// Checks what was read from another installation and takes its snapshot.
pub fn read_luna_remote_snapshot(source: RemoteSource) -> (r: Result<LunaRemoteSnapshot, String>)
    ensures
        match source_fault(source.connections@) {
            Some(fault) => r is Err && r->Err_0@ == source_fault_text(fault),
            None => if source.known_hosts@.len() > SOURCE_HOST_KEY_LIMIT {
                r is Err && r->Err_0@ == "Luna Remote 数据库中的主机指纹数量过多"@
            } else {
                r is Ok && is_snapshot_of(r->Ok_0, source)
            },
        },
{
    match check_source_connections(&source.connections) {
        Err(message) => {
            return Err(message);
        },
        Ok(()) => {},
    }
    if source.known_hosts.len() > SOURCE_HOST_KEY_LIMIT {
        return Err("Luna Remote 数据库中的主机指纹数量过多".to_owned());
    }
    let ids = collect_entry_ids(&source.connections);
    let stored = match find_setting(&source.settings, "bookmarkGroups") {
        Some(text) => Some(text.as_str()),
        None => None,
    };
    let groups = snapshot_groups(names_in(stored), &source.connections);
    let settings = portable_settings(&source.settings);
    let mut forwarding_profiles = select_forwardings(&source.forwarding_profiles, &ids);
    let ghost whole = forwarding_profiles@;
    forwarding_profiles.truncate(SNAPSHOT_FORWARDING_LIMIT);
    assert(forwarding_profiles@ =~= first_of(whole, SNAPSHOT_FORWARDING_LIMIT as int));
    let credential_connection_ids = select_known(&source.credential_refs, &ids);
    Ok(
        LunaRemoteSnapshot {
            path: source.path,
            source_modified_at: source.source_modified_at,
            groups,
            connections: source.connections,
            known_hosts: source.known_hosts,
            settings,
            forwarding_profiles,
            credential_connection_ids,
        },
    )
}

/// The new id of the entry with this id; the last where more than one has it.
pub open spec fn mapped(
    ids: Seq<Seq<char>>,
    fresh: Seq<Seq<char>>,
    id: Seq<char>,
) -> Option<Seq<char>>
    decreases ids.len(),
{
    if ids.len() == 0 {
        None
    } else if ids.last() == id {
        Some(fresh[ids.len() - 1])
    } else {
        mapped(ids.drop_last(), fresh, id)
    }
}

fn map_id(ids: &[String], fresh: &[String], id: &str) -> (r: Option<String>)
    requires
        ids@.len() == fresh@.len(),
    ensures
        match mapped(views(ids@), views(fresh@), id@) {
            Some(new_one) => r is Some && r->0@ == new_one,
            None => r is None,
        },
{
    let ghost all = views(ids@);
    let mut i: usize = ids.len();
    assert(all.take(i as int) =~= all);
    while i > 0
        invariant
            i <= ids@.len(),
            ids@.len() == fresh@.len(),
            all == views(ids@),
            mapped(all, views(fresh@), id@) == mapped(all.take(i as int), views(fresh@), id@),
        decreases i,
    {
        proof {
            assert(all.take(i as int).last() == ids@[i - 1]@);
            assert(all.take(i as int).drop_last() =~= all.take(i - 1));
        }
        i = i - 1;
        if same(ids[i].as_str(), id) {
            return Some(fresh[i].clone());
        }
    }
    None
}

/// The connection that an entry becomes: without outer white space, with the keepalive values in
/// range, never connected and without credential.
pub open spec fn is_imported_form(
    b: Bookmark,
    e: BookmarkArchiveEntry,
    id: Seq<char>,
    jump: Option<Seq<char>>,
    sort_order: int,
    now: Seq<char>,
) -> bool {
    &&& b.id@ == id
    &&& b.name@ == trim(e.name@)
    &&& b.host@ == trim(e.host@)
    &&& b.port == e.port
    &&& b.username@ == trim(e.username@)
    &&& b.auth_type == e.auth_type
    &&& b.private_key_path@ == trim(e.private_key_path@)
    &&& b.jump_bookmark_id@ == (match jump {
        Some(j) => j,
        None => Seq::empty(),
    })
    &&& b.group_name@ == trim(e.group_name@)
    &&& b.favorite == e.favorite
    &&& b.last_connected_at@.len() == 0
    &&& b.keepalive_enabled == e.keepalive_enabled
    &&& b.keepalive_interval_seconds == clamp(e.keepalive_interval_seconds as int, 5, 300)
    &&& b.keepalive_count_max == clamp(e.keepalive_count_max as int, 1, 10)
    &&& b.note@ == trim(e.note@)
    &&& !b.has_saved_credential
    &&& b.sort_order == sort_order
    &&& b.created_at@ == now
    &&& b.updated_at@ == now
}

/// The connections that entries become: under their new ids, each jump led to the new id of its
/// target, behind the connections that are there.
pub open spec fn are_imported_forms(
    rows: Seq<Bookmark>,
    entries: Seq<BookmarkArchiveEntry>,
    fresh: Seq<Seq<char>>,
    first_sort_order: int,
    now: Seq<char>,
) -> bool {
    &&& rows.len() == entries.len()
    &&& forall|i: int|
        #![trigger rows[i]]
        0 <= i < entries.len() ==> is_imported_form(
            rows[i],
            entries[i],
            mapped(entry_ids(entries), fresh, entries[i].id@)->0,
            mapped(entry_ids(entries), fresh, entries[i].jump_bookmark_id@),
            first_sort_order + i,
            now,
        )
}

pub proof fn lemma_mapped(ids: Seq<Seq<char>>, fresh: Seq<Seq<char>>, i: int)
    requires
        0 <= i < ids.len() <= fresh.len(),
    ensures
        mapped(ids, fresh, ids[i]) is Some,
        ids.no_duplicates() ==> mapped(ids, fresh, ids[i]) == Some(fresh[i]),
    decreases ids.len(),
{
    if ids.last() != ids[i] {
        assert(ids.drop_last()[i] == ids[i]);
        lemma_mapped(ids.drop_last(), fresh, i);
        assert(ids.no_duplicates() ==> ids.drop_last().no_duplicates());
    }
}

fn import_rows(
    entries: &[BookmarkArchiveEntry],
    fresh: &[String],
    first_sort_order: i64,
    now: &str,
) -> (r: Vec<Bookmark>)
    requires
        fresh@.len() == entries@.len(),
        first_sort_order + entries@.len() <= i64::MAX,
    ensures
        are_imported_forms(r@, entries@, views(fresh@), first_sort_order as int, now@),
{
    let ids = collect_entry_ids(entries);
    let ghost new_ids = views(fresh@);
    let mut rows: Vec<Bookmark> = Vec::new();
    let mut next: i64 = first_sort_order;
    let mut i: usize = 0;
    while i < entries.len()
        invariant
            i <= entries@.len(),
            i == rows@.len(),
            next == first_sort_order + i,
            fresh@.len() == entries@.len(),
            first_sort_order + entries@.len() <= i64::MAX,
            views(ids@) == entry_ids(entries@),
            new_ids == views(fresh@),
            forall|k: int|
                #![trigger rows@[k]]
                0 <= k < i ==> is_imported_form(
                    rows@[k],
                    entries@[k],
                    mapped(entry_ids(entries@), new_ids, entries@[k].id@)->0,
                    mapped(entry_ids(entries@), new_ids, entries@[k].jump_bookmark_id@),
                    first_sort_order + k,
                    now@,
                ),
        decreases entries@.len() - i,
    {
        let e = &entries[i];
        assert(ids@.len() == views(ids@).len());
        proof {
            assert(entry_ids(entries@)[i as int] == e.id@);
            lemma_mapped(entry_ids(entries@), new_ids, i as int);
        }
        let id = match map_id(&ids, fresh, e.id.as_str()) {
            Some(id) => id,
            None => String::new(),
        };
        let jump_bookmark_id = match map_id(&ids, fresh, e.jump_bookmark_id.as_str()) {
            Some(id) => id,
            None => String::new(),
        };
        let row = Bookmark {
            id,
            name: trimmed(e.name.as_str()),
            host: trimmed(e.host.as_str()),
            port: e.port,
            username: trimmed(e.username.as_str()),
            auth_type: e.auth_type,
            private_key_path: trimmed(e.private_key_path.as_str()),
            jump_bookmark_id,
            group_name: trimmed(e.group_name.as_str()),
            favorite: e.favorite,
            last_connected_at: String::new(),
            keepalive_enabled: e.keepalive_enabled,
            keepalive_interval_seconds: clamped(e.keepalive_interval_seconds, 5, 300),
            keepalive_count_max: clamped(e.keepalive_count_max, 1, 10),
            note: trimmed(e.note.as_str()),
            has_saved_credential: false,
            sort_order: next,
            created_at: now.to_owned(),
            updated_at: now.to_owned(),
        };
        rows.push(row);
        next = next + 1;
        i = i + 1;
    }
    rows
}

/// How many of the groups are named and not among those that were there.
pub open spec fn count_new(groups: Seq<Seq<char>>, existing: Seq<Seq<char>>) -> nat
    decreases groups.len(),
{
    if groups.len() == 0 {
        0
    } else {
        count_new(groups.drop_last(), existing) + if groups.last().len() > 0
            && !existing.contains(groups.last()) {
            1nat
        } else {
            0nat
        }
    }
}

fn count_new_groups(groups: &[String], existing: &[String]) -> (r: usize)
    ensures
        r == count_new(views(groups@), views(existing@)),
{
    let ghost all = views(groups@);
    let mut n: usize = 0;
    let mut i: usize = 0;
    while i < groups.len()
        invariant
            i <= groups@.len(),
            all == views(groups@),
            n == count_new(all.take(i as int), views(existing@)),
            n <= i,
        decreases groups@.len() - i,
    {
        proof {
            assert(all.take(i + 1).drop_last() =~= all.take(i as int));
            assert(all.take(i + 1).last() == groups@[i as int]@);
        }
        if !groups[i].as_str().is_empty() && !list_has(existing, groups[i].as_str()) {
            n = n + 1;
        }
        i = i + 1;
    }
    assert(all.take(i as int) =~= all);
    n
}

/// The groups after an import: those that were there, then the chosen ones and those of the
/// entries.
pub open spec fn merged_groups(
    existing: Seq<Seq<char>>,
    selected: Seq<Seq<char>>,
    entries: Seq<BookmarkArchiveEntry>,
) -> Seq<Seq<char>> {
    with_groups(with_groups(existing, selected), entry_groups(entries))
}

fn merge_groups(existing: &[String], selected: &[String], entries: &[BookmarkArchiveEntry]) -> (r:
    Vec<String>)
    ensures
        views(r@) == merged_groups(views(existing@), views(selected@), entries@),
{
    let mut groups = copy_list(existing);
    let ghost names = views(selected@);
    let mut i: usize = 0;
    while i < selected.len()
        invariant
            i <= selected@.len(),
            names == views(selected@),
            views(groups@) == with_groups(views(existing@), names.take(i as int)),
        decreases selected@.len() - i,
    {
        proof {
            assert(names.take(i + 1).drop_last() =~= names.take(i as int));
            assert(names.take(i + 1).last() == selected@[i as int]@);
        }
        add_group(&mut groups, selected[i].as_str());
        i = i + 1;
    }
    assert(names.take(i as int) =~= names);
    add_entry_groups(&mut groups, entries);
    groups
}

/// What an import of an archive writes.
#[derive(Debug)]
pub struct BookmarkArchiveImport {
    pub groups: Vec<String>,
    pub imported_groups: usize,
    pub rows: Vec<Bookmark>,
}

/// The import of entries under the given new ids.
pub open spec fn is_archive_import(
    r: BookmarkArchiveImport,
    entries: Seq<BookmarkArchiveEntry>,
    selected: Seq<Seq<char>>,
    existing: Seq<Seq<char>>,
    fresh: Seq<Seq<char>>,
    first_sort_order: int,
    now: Seq<char>,
) -> bool {
    &&& views(r.groups@) == merged_groups(existing, selected, entries)
    &&& r.imported_groups == count_new(merged_groups(existing, selected, entries), existing)
    &&& are_imported_forms(r.rows@, entries, fresh, first_sort_order, now)
}

/// Prepares the import of an archive under the given new ids. Storing it is refused where an id of
/// the entries is repeated.
pub fn prepare_archive_import_with(
    entries: &[BookmarkArchiveEntry],
    selected_groups: &[String],
    existing_groups: &[String],
    fresh: &[String],
    first_sort_order: i64,
    now: &str,
) -> (r: BookmarkArchiveImport)
    requires
        fresh@.len() == entries@.len(),
        first_sort_order + entries@.len() <= i64::MAX,
    ensures
        is_archive_import(
            r,
            entries@,
            views(selected_groups@),
            views(existing_groups@),
            views(fresh@),
            first_sort_order as int,
            now@,
        ),
{
    let groups = merge_groups(existing_groups, selected_groups, entries);
    let imported_groups = count_new_groups(&groups, existing_groups);
    let rows = import_rows(entries, fresh, first_sort_order, now);
    BookmarkArchiveImport { groups, imported_groups, rows }
}

/// All texts are those of random UUIDs.
pub open spec fn all_uuids(ids: Seq<Seq<char>>) -> bool {
    forall|i: int| 0 <= i < ids.len() ==> is_uuid_text(#[trigger] ids[i])
}

pub(crate) fn fresh_ids(n: usize) -> (r: Vec<String>)
    ensures
        r@.len() == n,
        all_uuids(views(r@)),
{
    let mut r: Vec<String> = Vec::new();
    while r.len() < n
        invariant
            r@.len() <= n,
            all_uuids(views(r@)),
        decreases n - r@.len(),
    {
        let ghost done = views(r@);
        push_text(&mut r, new_id());
        assert forall|i: int| 0 <= i < views(r@).len() implies is_uuid_text(
            #[trigger] views(r@)[i],
        ) by {
            if i < done.len() {
                assert(views(r@)[i] == done[i]);
            }
        }
    }
    r
}

/// Prepares the import of an archive under fresh ids.
pub fn prepare_archive_import(
    entries: &[BookmarkArchiveEntry],
    selected_groups: &[String],
    existing_groups: &[String],
    first_sort_order: i64,
    now: &str,
) -> (r: BookmarkArchiveImport)
    requires
        first_sort_order + entries@.len() <= i64::MAX,
    ensures
        exists|fresh: Seq<Seq<char>>|
            fresh.len() == entries@.len() && all_uuids(fresh) && #[trigger] is_archive_import(
                r,
                entries@,
                views(selected_groups@),
                views(existing_groups@),
                fresh,
                first_sort_order as int,
                now@,
            ),
{
    let fresh = fresh_ids(entries.len());
    let r = prepare_archive_import_with(
        entries,
        selected_groups,
        existing_groups,
        &fresh,
        first_sort_order,
        now,
    );
    assert(views(fresh@).len() == entries@.len());
    r
}

/// Imported entries with different ids get the new ids in turn, and an imported connection jumps
/// through the import of the entry that its entry jumped through.
pub proof fn law_import_keeps_jump_relationships(
    rows: Seq<Bookmark>,
    entries: Seq<BookmarkArchiveEntry>,
    fresh: Seq<Seq<char>>,
    first_sort_order: int,
    now: Seq<char>,
    i: int,
    j: int,
)
    requires
        are_imported_forms(rows, entries, fresh, first_sort_order, now),
        fresh.len() == entries.len(),
        entry_ids(entries).no_duplicates(),
        0 <= i < entries.len(),
        0 <= j < entries.len(),
    ensures
        rows[i].id@ == fresh[i],
        entries[i].jump_bookmark_id@ == entries[j].id@ ==> rows[i].jump_bookmark_id@ == rows[j].id@,
{
    let ids = entry_ids(entries);
    assert(ids[i] == entries[i].id@);
    assert(ids[j] == entries[j].id@);
    lemma_mapped(ids, fresh, i);
    lemma_mapped(ids, fresh, j);
    assert(is_imported_form(
        rows[i],
        entries[i],
        mapped(ids, fresh, entries[i].id@)->0,
        mapped(ids, fresh, entries[i].jump_bookmark_id@),
        first_sort_order + i,
        now,
    ));
    assert(is_imported_form(
        rows[j],
        entries[j],
        mapped(ids, fresh, entries[j].id@)->0,
        mapped(ids, fresh, entries[j].jump_bookmark_id@),
        first_sort_order + j,
        now,
    ));
}

/// Which parts of a snapshot the user takes over besides the connections.
#[derive(Clone, Copy, Debug, PartialEq, Eq, Structural)]
pub struct RemoteImportOptions {
    pub host_keys: bool,
    pub settings: bool,
    pub forwarding_profiles: bool,
    pub credentials: bool,
}

/// How much an import took over.
#[derive(Clone, Copy, Debug, PartialEq, Eq, Structural)]
pub struct LunaRemoteImportResult {
    pub imported_connections: usize,
    pub imported_groups: usize,
    pub imported_host_keys: usize,
    pub imported_settings: usize,
    pub imported_forwarding_profiles: usize,
    pub imported_credentials: usize,
    pub unavailable_credentials: usize,
}

/// What an import of a snapshot writes. `credential_sources` are the source ids whose secret goes
/// to the new id; the host keys and settings of the snapshot are written where the options say so.
#[derive(Debug)]
pub struct SnapshotImport {
    pub groups: Vec<String>,
    pub rows: Vec<Bookmark>,
    pub credential_sources: Vec<String>,
    pub forwarding_profiles: Vec<PortForwardProfile>,
    pub result: LunaRemoteImportResult,
}

/// A host key as it is stored.
pub open spec fn is_stored_host(r: KnownHostImportEntry, e: KnownHostImportEntry) -> bool {
    r.host@ == trim(e.host@) && r.port == e.port && r.fingerprint@ == trim(e.fingerprint@)
}

/// A host key as it is stored.
pub fn stored_host(e: &KnownHostImportEntry) -> (r: KnownHostImportEntry)
    ensures
        is_stored_host(r, *e),
{
    KnownHostImportEntry {
        host: trimmed(e.host.as_str()),
        port: e.port,
        fingerprint: trimmed(e.fingerprint.as_str()),
    }
}

/// The ids, each once, of the entries that have a stored credential whose secret was found.
pub open spec fn found_credentials(
    ids: Seq<Seq<char>>,
    refs: Seq<Seq<char>>,
    found: Seq<bool>,
) -> Seq<Seq<char>>
    decreases ids.len(),
{
    if ids.len() == 0 {
        ids
    } else {
        let rest = found_credentials(ids.drop_last(), refs, found);
        if refs.contains(ids.last()) && found[ids.len() - 1] && !rest.contains(ids.last()) {
            rest.push(ids.last())
        } else {
            rest
        }
    }
}

/// How many entries have a stored credential whose secret was not found.
pub open spec fn missing_credentials(
    ids: Seq<Seq<char>>,
    refs: Seq<Seq<char>>,
    found: Seq<bool>,
) -> nat
    decreases ids.len(),
{
    if ids.len() == 0 {
        0
    } else {
        missing_credentials(ids.drop_last(), refs, found) + if refs.contains(ids.last())
            && !found[ids.len() - 1] {
            1nat
        } else {
            0nat
        }
    }
}

/// What a forwarding holds.
pub ghost struct ForwardingView {
    pub id: Seq<char>,
    pub bookmark_id: Seq<char>,
    pub name: Seq<char>,
    pub forward_type: Seq<char>,
    pub bind_address: Seq<char>,
    pub bind_port: u16,
    pub target_host: Seq<char>,
    pub target_port: u16,
}

pub open spec fn forwarding_view(p: PortForwardProfile) -> ForwardingView {
    ForwardingView {
        id: p.id@,
        bookmark_id: p.bookmark_id@,
        name: p.name@,
        forward_type: p.forward_type@,
        bind_address: p.bind_address@,
        bind_port: p.bind_port,
        target_host: p.target_host@,
        target_port: p.target_port,
    }
}

pub open spec fn forwarding_views(profiles: Seq<PortForwardProfile>) -> Seq<ForwardingView> {
    profiles.map_values(|p: PortForwardProfile| forwarding_view(p))
}

/// The forwardings of the imported connections, each under a new id and for the new id of its
/// connection.
pub open spec fn moved_forwardings(
    profiles: Seq<PortForwardProfile>,
    ids: Seq<Seq<char>>,
    fresh: Seq<Seq<char>>,
    fresh_profiles: Seq<Seq<char>>,
) -> Seq<ForwardingView>
    decreases profiles.len(),
{
    if profiles.len() == 0 {
        Seq::empty()
    } else {
        let rest = moved_forwardings(profiles.drop_last(), ids, fresh, fresh_profiles);
        match mapped(ids, fresh, profiles.last().bookmark_id@) {
            None => rest,
            Some(target) => rest.push(
                ForwardingView {
                    id: fresh_profiles[profiles.len() - 1],
                    bookmark_id: target,
                    ..forwarding_view(profiles.last())
                },
            ),
        }
    }
}

fn move_forwardings(
    profiles: &[PortForwardProfile],
    ids: &[String],
    fresh: &[String],
    fresh_profiles: &[String],
) -> (r: Vec<PortForwardProfile>)
    requires
        ids@.len() == fresh@.len(),
        profiles@.len() == fresh_profiles@.len(),
    ensures
        forwarding_views(r@) == moved_forwardings(
            profiles@,
            views(ids@),
            views(fresh@),
            views(fresh_profiles@),
        ),
{
    let mut r: Vec<PortForwardProfile> = Vec::new();
    assert(forwarding_views(r@) =~= Seq::empty());
    let mut i: usize = 0;
    while i < profiles.len()
        invariant
            i <= profiles@.len(),
            ids@.len() == fresh@.len(),
            profiles@.len() == fresh_profiles@.len(),
            forwarding_views(r@) == moved_forwardings(
                profiles@.take(i as int),
                views(ids@),
                views(fresh@),
                views(fresh_profiles@),
            ),
        decreases profiles@.len() - i,
    {
        proof {
            assert(profiles@.take(i + 1).drop_last() =~= profiles@.take(i as int));
        }
        match map_id(ids, fresh, profiles[i].bookmark_id.as_str()) {
            None => {},
            Some(target) => {
                let ghost done = forwarding_views(r@);
                let mut copy = copy_profile(&profiles[i]);
                copy.id = fresh_profiles[i].clone();
                copy.bookmark_id = target;
                r.push(copy);
                assert(forwarding_views(r@) =~= done.push(forwarding_view(copy)));
            },
        }
        i = i + 1;
    }
    assert(profiles@.take(i as int) =~= profiles@);
    r
}

fn collect_credentials(ids: &[String], refs: &[String], found: &[bool]) -> (r: (Vec<String>, usize))
    requires
        found@.len() == ids@.len(),
    ensures
        views(r.0@) == found_credentials(views(ids@), views(refs@), found@),
        r.1 == missing_credentials(views(ids@), views(refs@), found@),
{
    let ghost all = views(ids@);
    let mut sources: Vec<String> = Vec::new();
    let mut missing: usize = 0;
    assert(views(sources@) =~= found_credentials(all.take(0), views(refs@), found@));
    let mut i: usize = 0;
    while i < ids.len()
        invariant
            i <= ids@.len(),
            found@.len() == ids@.len(),
            all == views(ids@),
            views(sources@) == found_credentials(all.take(i as int), views(refs@), found@),
            missing == missing_credentials(all.take(i as int), views(refs@), found@),
            missing <= i,
        decreases ids@.len() - i,
    {
        proof {
            assert(all.take(i + 1).drop_last() =~= all.take(i as int));
            assert(all.take(i + 1).last() == ids@[i as int]@);
        }
        if list_has(refs, ids[i].as_str()) {
            if !found[i] {
                missing = missing + 1;
            } else if !list_has(&sources, ids[i].as_str()) {
                push_text(&mut sources, ids[i].clone());
            }
        }
        i = i + 1;
    }
    assert(all.take(i as int) =~= all);
    (sources, missing)
}

/// The import of a snapshot under the given new ids.
pub open spec fn is_snapshot_import(
    r: SnapshotImport,
    snapshot: LunaRemoteSnapshot,
    entries: Seq<BookmarkArchiveEntry>,
    selected: Seq<Seq<char>>,
    options: RemoteImportOptions,
    existing: Seq<Seq<char>>,
    found: Seq<bool>,
    fresh: Seq<Seq<char>>,
    fresh_profiles: Seq<Seq<char>>,
    first_sort_order: int,
    now: Seq<char>,
) -> bool {
    let ids = entry_ids(entries);
    let refs = views(snapshot.credential_connection_ids@);
    let groups = merged_groups(existing, selected, entries);
    &&& views(r.groups@) == groups
    &&& are_imported_forms(r.rows@, entries, fresh, first_sort_order, now)
    &&& views(r.credential_sources@) == (if options.credentials {
        found_credentials(ids, refs, found)
    } else {
        Seq::empty()
    })
    &&& forwarding_views(r.forwarding_profiles@) == (if options.forwarding_profiles {
        moved_forwardings(snapshot.forwarding_profiles@, ids, fresh, fresh_profiles)
    } else {
        Seq::empty()
    })
    &&& r.result.imported_connections == entries.len()
    &&& r.result.imported_groups == count_new(groups, existing)
    &&& r.result.imported_host_keys == (if options.host_keys {
        snapshot.known_hosts@.len()
    } else {
        0
    })
    &&& r.result.imported_settings == (if options.settings {
        snapshot.settings@.len()
    } else {
        0
    })
    &&& r.result.imported_forwarding_profiles == r.forwarding_profiles@.len()
    &&& r.result.imported_credentials == r.credential_sources@.len()
    &&& r.result.unavailable_credentials == (if options.credentials {
        missing_credentials(ids, refs, found)
    } else {
        0
    })
}

/// Prepares the import of a snapshot under the given new ids. `found` tells for each entry whether
/// a secret for it could be read. Storing it is refused where an id of the entries is repeated.
pub fn prepare_snapshot_import_with(
    snapshot: &LunaRemoteSnapshot,
    entries: &[BookmarkArchiveEntry],
    selected_groups: &[String],
    options: RemoteImportOptions,
    existing_groups: &[String],
    found: &[bool],
    fresh: &[String],
    fresh_profiles: &[String],
    first_sort_order: i64,
    now: &str,
) -> (r: SnapshotImport)
    requires
        found@.len() == entries@.len(),
        fresh@.len() == entries@.len(),
        fresh_profiles@.len() == snapshot.forwarding_profiles@.len(),
        first_sort_order + entries@.len() <= i64::MAX,
    ensures
        is_snapshot_import(
            r,
            *snapshot,
            entries@,
            views(selected_groups@),
            options,
            views(existing_groups@),
            found@,
            views(fresh@),
            views(fresh_profiles@),
            first_sort_order as int,
            now@,
        ),
{
    let base = prepare_archive_import_with(
        entries,
        selected_groups,
        existing_groups,
        fresh,
        first_sort_order,
        now,
    );
    let ids = collect_entry_ids(entries);
    assert(ids@.len() == views(ids@).len());
    let (credential_sources, unavailable_credentials) = if options.credentials {
        collect_credentials(&ids, &snapshot.credential_connection_ids, found)
    } else {
        let none: Vec<String> = Vec::new();
        assert(views(none@) =~= Seq::empty());
        (none, 0)
    };
    let forwarding_profiles = if options.forwarding_profiles {
        move_forwardings(&snapshot.forwarding_profiles, &ids, fresh, fresh_profiles)
    } else {
        let none: Vec<PortForwardProfile> = Vec::new();
        assert(forwarding_views(none@) =~= Seq::empty());
        none
    };
    let result = LunaRemoteImportResult {
        imported_connections: entries.len(),
        imported_groups: base.imported_groups,
        imported_host_keys: if options.host_keys {
            snapshot.known_hosts.len()
        } else {
            0
        },
        imported_settings: if options.settings {
            snapshot.settings.len()
        } else {
            0
        },
        imported_forwarding_profiles: forwarding_profiles.len(),
        imported_credentials: credential_sources.len(),
        unavailable_credentials,
    };
    SnapshotImport {
        groups: base.groups,
        rows: base.rows,
        credential_sources,
        forwarding_profiles,
        result,
    }
}

/// Prepares the import of a snapshot under fresh ids.
pub fn prepare_snapshot_import(
    snapshot: &LunaRemoteSnapshot,
    entries: &[BookmarkArchiveEntry],
    selected_groups: &[String],
    options: RemoteImportOptions,
    existing_groups: &[String],
    found: &[bool],
    first_sort_order: i64,
    now: &str,
) -> (r: SnapshotImport)
    requires
        found@.len() == entries@.len(),
        first_sort_order + entries@.len() <= i64::MAX,
    ensures
        exists|fresh: Seq<Seq<char>>, fresh_profiles: Seq<Seq<char>>|
            fresh.len() == entries@.len() && fresh_profiles.len()
                == snapshot.forwarding_profiles@.len() && all_uuids(fresh) && all_uuids(
                fresh_profiles,
            ) && #[trigger] is_snapshot_import(
                r,
                *snapshot,
                entries@,
                views(selected_groups@),
                options,
                views(existing_groups@),
                found@,
                fresh,
                fresh_profiles,
                first_sort_order as int,
                now@,
            ),
{
    let fresh = fresh_ids(entries.len());
    let fresh_profiles = fresh_ids(snapshot.forwarding_profiles.len());
    assert(views(fresh@).len() == entries@.len());
    assert(views(fresh_profiles@).len() == snapshot.forwarding_profiles@.len());
    prepare_snapshot_import_with(
        snapshot,
        entries,
        selected_groups,
        options,
        existing_groups,
        found,
        &fresh,
        &fresh_profiles,
        first_sort_order,
        now,
    )
}

/// Each credential of an imported entry is either found or counted as missing, never both, and an
/// import without credentials takes none.
pub proof fn law_credentials_are_found_or_counted(
    ids: Seq<Seq<char>>,
    refs: Seq<Seq<char>>,
    found: Seq<bool>,
)
    requires
        ids.no_duplicates(),
        ids.len() <= found.len(),
    ensures
        found_credentials(ids, refs, found).len() + missing_credentials(ids, refs, found)
            == known_of(ids, refs).len(),
        found_credentials(ids, refs, found).no_duplicates(),
        forall|id: Seq<char>|
            #[trigger] found_credentials(ids, refs, found).contains(id) ==> ids.contains(id)
                && refs.contains(id),
    decreases ids.len(),
{
    if ids.len() > 0 {
        let rest = ids.drop_last();
        law_credentials_are_found_or_counted(rest, refs, found);
        let before = found_credentials(rest, refs, found);
        let after = found_credentials(ids, refs, found);
        if before.contains(ids.last()) {
            assert(rest.contains(ids.last()));
            let k = choose|k: int| 0 <= k < rest.len() && rest[k] == ids.last();
            assert(ids[k] == ids[ids.len() - 1]);
        }
        assert forall|id: Seq<char>| #[trigger] after.contains(id) implies ids.contains(id)
            && refs.contains(id) by {
            let k = choose|k: int| 0 <= k < after.len() && after[k] == id;
            if k < before.len() {
                assert(before[k] == id);
                assert(before.contains(id));
                let m = choose|m: int| 0 <= m < rest.len() && rest[m] == id;
                assert(ids[m] == id);
            } else {
                assert(ids[ids.len() - 1] == id);
            }
        }
    }
}

/// A connection of another database has an id, a name, a host, a user and a port.
pub open spec fn is_complete(e: BookmarkArchiveEntry) -> bool {
    trim(e.id@).len() > 0 && trim(e.name@).len() > 0 && trim(e.host@).len() > 0 && trim(
        e.username@,
    ).len() > 0 && e.port != 0
}

/// The connection does not jump, or it jumps through another one of the list.
pub open spec fn is_led(entries: Seq<BookmarkArchiveEntry>, e: BookmarkArchiveEntry) -> bool {
    e.jump_bookmark_id@ != e.id@ && (e.jump_bookmark_id@.len() > 0 ==> exists|j: int|
        0 <= j < entries.len() && (#[trigger] entries[j]).id@ == e.jump_bookmark_id@)
}

proof fn lemma_sound_entry(entries: Seq<BookmarkArchiveEntry>, e: BookmarkArchiveEntry)
    ensures
        entry_sound(e, entry_ids(entries)) <==> is_complete(e) && is_led(entries, e),
{
    let ids = entry_ids(entries);
    let jump = e.jump_bookmark_id@;
    if ids.contains(jump) {
        let j = choose|j: int| 0 <= j < ids.len() && ids[j] == jump;
        assert(entries[j].id@ == jump);
    }
    if exists|j: int| 0 <= j < entries.len() && (#[trigger] entries[j]).id@ == jump {
        let j = choose|j: int| 0 <= j < entries.len() && (#[trigger] entries[j]).id@ == jump;
        assert(ids[j] == jump);
    }
}

proof fn lemma_own_ids(entries: Seq<BookmarkArchiveEntry>)
    ensures
        entry_ids(entries).no_duplicates() <==> forall|i: int, j: int|
            0 <= i < j < entries.len() ==> (#[trigger] entries[i]).id@ != (
            #[trigger] entries[j]).id@,
{
    let ids = entry_ids(entries);
    if ids.no_duplicates() {
        assert forall|i: int, j: int| 0 <= i < j < entries.len() implies (
        #[trigger] entries[i]).id@ != (#[trigger] entries[j]).id@ by {
            assert(ids[i] != ids[j]);
        }
    }
    if forall|i: int, j: int|
        0 <= i < j < entries.len() ==> (#[trigger] entries[i]).id@ != (#[trigger] entries[j]).id@ {
        assert forall|i: int, j: int|
            0 <= i < ids.len() && 0 <= j < ids.len() && i != j implies ids[i] != ids[j] by {
            if i < j {
                assert(entries[i].id@ != entries[j].id@);
            } else {
                assert(entries[j].id@ != entries[i].id@);
            }
        }
    }
}

/// Connections of another database are taken exactly where they are at most 10000, each has an id of
/// its own, a name, a host, a user and a port, and each jump leads to another of them that does not
/// jump on.
pub proof fn law_sound_sources_are_taken(entries: Seq<BookmarkArchiveEntry>)
    ensures
        ({
            let own = forall|i: int, j: int|
                0 <= i < j < entries.len() ==> (#[trigger] entries[i]).id@ != (
                #[trigger] entries[j]).id@;
            let each = forall|i: int|
                0 <= i < entries.len() ==> is_complete(#[trigger] entries[i]) && is_led(
                    entries,
                    entries[i],
                );
            let once = forall|i: int|
                0 <= i < entries.len() && (#[trigger] entries[i]).jump_bookmark_id@.len() > 0
                    ==> !jumps(entries, entries[i].jump_bookmark_id@);
            source_fault(entries) is None <==> entries.len() <= 10_000 && own && each && once
        }),
        forall|id: Seq<char>| #[trigger]
            jumps(entries, id) <==> exists|j: int|
                0 <= j < entries.len() && (#[trigger] entries[j]).id@ == id
                    && entries[j].jump_bookmark_id@.len() > 0,
{
    lemma_own_ids(entries);
    assert forall|i: int| 0 <= i < entries.len() implies (entry_sound(
        #[trigger] entries[i],
        entry_ids(entries),
    ) <==> is_complete(entries[i]) && is_led(entries, entries[i])) by {
        lemma_sound_entry(entries, entries[i]);
    }
}

/// The id that an imported connection gets is the fresh one at its place; an id that is not imported
/// gets none.
pub proof fn law_each_id_gets_its_own(ids: Seq<Seq<char>>, fresh: Seq<Seq<char>>, id: Seq<char>)
    requires
        ids.no_duplicates(),
        fresh.len() >= ids.len(),
    ensures
        forall|i: int|
            0 <= i < ids.len() ==> mapped(ids, fresh, #[trigger] ids[i]) == Some(fresh[i]),
        !ids.contains(id) ==> mapped(ids, fresh, id) is None,
    decreases ids.len(),
{
    if ids.len() > 0 {
        let front = ids.drop_last();
        assert(front.no_duplicates()) by {
            assert forall|i: int, j: int|
                0 <= i < front.len() && 0 <= j < front.len() && i != j implies front[i]
                != front[j] by {
                assert(ids[i] != ids[j]);
            }
        }
        law_each_id_gets_its_own(front, fresh, id);
        assert forall|i: int| 0 <= i < ids.len() implies mapped(ids, fresh, #[trigger] ids[i])
            == Some(fresh[i]) by {
            if i < front.len() {
                assert(ids[i] != ids[ids.len() - 1]);
                assert(front[i] == ids[i]);
            }
        }
        if !ids.contains(id) {
            assert(ids[ids.len() - 1] == ids.last());
            assert forall|i: int| 0 <= i < front.len() implies front[i] != id by {
                assert(ids[i] == front[i]);
            }
        }
    }
}

/// An imported connection is what it was, without outer white space, with its keepalive in bounds;
/// it has no history and no credential yet, and it comes behind those in front of it.
pub proof fn law_imported_connections_keep_what_they_were(
    rows: Seq<Bookmark>,
    entries: Seq<BookmarkArchiveEntry>,
    fresh: Seq<Seq<char>>,
    first_sort_order: int,
    now: Seq<char>,
    i: int,
)
    requires
        are_imported_forms(rows, entries, fresh, first_sort_order, now),
        entry_ids(entries).no_duplicates(),
        fresh.len() >= entries.len(),
        0 <= i < entries.len(),
    ensures
        ({
            let b = rows[i];
            let e = entries[i];
            &&& b.id@ == fresh[i]
            &&& b.name@ == trim(e.name@) && b.host@ == trim(e.host@) && b.port == e.port
            &&& b.username@ == trim(e.username@) && b.auth_type == e.auth_type
            &&& b.private_key_path@ == trim(e.private_key_path@)
            &&& b.group_name@ == trim(e.group_name@) && b.note@ == trim(e.note@)
            &&& b.favorite == e.favorite && b.keepalive_enabled == e.keepalive_enabled
            &&& 5 <= b.keepalive_interval_seconds <= 300
            &&& 5 <= e.keepalive_interval_seconds <= 300 ==> b.keepalive_interval_seconds
                == e.keepalive_interval_seconds
            &&& 1 <= b.keepalive_count_max <= 10
            &&& 1 <= e.keepalive_count_max <= 10 ==> b.keepalive_count_max == e.keepalive_count_max
            &&& b.last_connected_at@.len() == 0 && !b.has_saved_credential
            &&& b.sort_order == first_sort_order + i
            &&& b.created_at@ == now && b.updated_at@ == now
        }),
        rows.len() == entries.len(),
{
    let ids = entry_ids(entries);
    law_each_id_gets_its_own(ids, fresh, Seq::empty());
    assert(ids[i] == entries[i].id@);
    assert(is_imported_form(
        rows[i],
        entries[i],
        mapped(ids, fresh, entries[i].id@)->0,
        mapped(ids, fresh, entries[i].jump_bookmark_id@),
        first_sort_order + i,
        now,
    ));
}

proof fn lemma_with_groups(groups: Seq<Seq<char>>, names: Seq<Seq<char>>)
    ensures
        with_groups(groups, names).len() >= groups.len(),
        with_groups(groups, names).take(groups.len() as int) == groups,
        forall|k: int|
            groups.len() <= k < with_groups(groups, names).len() ==> (#[trigger] with_groups(
                groups,
                names,
            )[k]).len() > 0 && !groups.contains(with_groups(groups, names)[k]) && exists|i: int|
                0 <= i < names.len() && trim(#[trigger] names[i]) == with_groups(groups, names)[k],
        forall|i: int|
            0 <= i < names.len() && trim(#[trigger] names[i]).len() > 0 ==> with_groups(
                groups,
                names,
            ).contains(trim(names[i])),
        groups.no_duplicates() ==> with_groups(groups, names).no_duplicates(),
    decreases names.len(),
{
    let whole = with_groups(groups, names);
    if names.len() == 0 {
        assert(whole.take(groups.len() as int) =~= groups);
    } else {
        let front = names.drop_last();
        let rest = with_groups(groups, front);
        lemma_with_groups(groups, front);
        let group = trim(names.last());
        assert(whole.take(groups.len() as int) =~= rest.take(groups.len() as int));
        assert forall|k: int| groups.len() <= k < whole.len() implies (#[trigger] whole[k]).len()
            > 0 && !groups.contains(whole[k]) && exists|i: int|
            0 <= i < names.len() && trim(#[trigger] names[i]) == whole[k] by {
            if k < rest.len() {
                assert(whole[k] == rest[k]);
                let i = choose|i: int|
                    0 <= i < front.len() && trim(#[trigger] front[i]) == rest[k];
                assert(names[i] == front[i]);
            } else {
                assert(whole[k] == group);
                assert(names[names.len() - 1] == names.last());
                if groups.contains(group) {
                    let m = choose|m: int| 0 <= m < groups.len() && groups[m] == group;
                    assert(rest.take(groups.len() as int)[m] == group);
                    assert(rest[m] == group);
                }
            }
        }
        assert forall|i: int|
            0 <= i < names.len() && trim(#[trigger] names[i]).len() > 0 implies whole.contains(
            trim(names[i]),
        ) by {
            if i < front.len() {
                assert(front[i] == names[i]);
                let m = choose|m: int| 0 <= m < rest.len() && rest[m] == trim(names[i]);
                assert(whole[m] == rest[m]);
            } else if rest.contains(group) {
                assert(whole == rest);
            } else {
                assert(whole[rest.len() as int] == group);
            }
        }
    }
}

/// Importing adds the groups that were asked for and those of the connections, without outer white
/// space, behind the ones that are there; none comes twice, and none without a name is added. The
/// number that is told is the number that was added.
pub proof fn law_imports_add_their_groups(
    existing: Seq<Seq<char>>,
    selected: Seq<Seq<char>>,
    entries: Seq<BookmarkArchiveEntry>,
)
    requires
        existing.no_duplicates(),
    ensures
        ({
            let all = merged_groups(existing, selected, entries);
            &&& all.no_duplicates()
            &&& all.len() >= existing.len() && all.take(existing.len() as int) == existing
            &&& forall|i: int|
                0 <= i < selected.len() && trim(#[trigger] selected[i]).len() > 0 ==> all.contains(
                    trim(selected[i]),
                )
            &&& forall|i: int|
                0 <= i < entries.len() && trim((#[trigger] entries[i]).group_name@).len() > 0
                    ==> all.contains(trim(entries[i].group_name@))
            &&& forall|k: int|
                existing.len() <= k < all.len() ==> (#[trigger] all[k]).len() > 0
                    && !existing.contains(all[k])
            &&& count_new(all, existing) == all.len() - existing.len()
        }),
{
    let mid = with_groups(existing, selected);
    let names = entry_groups(entries);
    let all = merged_groups(existing, selected, entries);
    lemma_with_groups(existing, selected);
    lemma_with_groups(mid, names);
    assert(all.take(existing.len() as int) =~= mid.take(existing.len() as int)) by {
        assert forall|i: int| 0 <= i < existing.len() implies all[i] == mid[i] by {
            assert(all.take(mid.len() as int)[i] == all[i]);
        }
    }
    assert forall|i: int|
        0 <= i < selected.len() && trim(#[trigger] selected[i]).len() > 0 implies all.contains(
        trim(selected[i]),
    ) by {
        let m = choose|m: int| 0 <= m < mid.len() && mid[m] == trim(selected[i]);
        assert(all.take(mid.len() as int)[m] == all[m]);
    }
    assert forall|i: int|
        0 <= i < entries.len() && trim((#[trigger] entries[i]).group_name@).len()
            > 0 implies all.contains(trim(entries[i].group_name@)) by {
        assert(names[i] == entries[i].group_name@);
    }
    assert forall|k: int| existing.len() <= k < all.len() implies (#[trigger] all[k]).len() > 0
        && !existing.contains(all[k]) by {
        if k < mid.len() {
            assert(all.take(mid.len() as int)[k] == all[k]);
            assert(mid[k].len() > 0);
        } else {
            assert(!mid.contains(all[k]));
            if existing.contains(all[k]) {
                let m = choose|m: int| 0 <= m < existing.len() && existing[m] == all[k];
                assert(mid.take(existing.len() as int)[m] == mid[m]);
            }
        }
    }
    lemma_count_new(all, existing);
}

proof fn lemma_count_new(all: Seq<Seq<char>>, existing: Seq<Seq<char>>)
    requires
        all.len() >= existing.len(),
        all.take(existing.len() as int) == existing,
        forall|k: int|
            existing.len() <= k < all.len() ==> (#[trigger] all[k]).len() > 0 && !existing.contains(
                all[k],
            ),
    ensures
        count_new(all, existing) == all.len() - existing.len(),
    decreases all.len(),
{
    if all.len() > existing.len() {
        let front = all.drop_last();
        assert(front.take(existing.len() as int) =~= existing) by {
            assert(all.take(existing.len() as int) =~= front.take(existing.len() as int));
        }
        assert forall|k: int| existing.len() <= k < front.len() implies (#[trigger] front[k]).len()
            > 0 && !existing.contains(front[k]) by {
            assert(all[k] == front[k]);
        }
        lemma_count_new(front, existing);
        assert(all[all.len() - 1] == all.last());
    } else {
        assert(all =~= existing);
        lemma_none_new(all, existing);
    }
}

proof fn lemma_none_new(part: Seq<Seq<char>>, existing: Seq<Seq<char>>)
    requires
        forall|k: int| 0 <= k < part.len() ==> existing.contains(#[trigger] part[k]),
    ensures
        count_new(part, existing) == 0,
    decreases part.len(),
{
    if part.len() > 0 {
        assert forall|k: int| 0 <= k < part.drop_last().len() implies existing.contains(
            #[trigger] part.drop_last()[k],
        ) by {
            assert(part[k] == part.drop_last()[k]);
        }
        lemma_none_new(part.drop_last(), existing);
        assert(existing.contains(part[part.len() - 1]));
    }
}

/// Only settings that make sense on another machine are carried over: those of the assistant, the
/// folded groups, the language, the side bar, the terminal and the theme. Each is carried over as it
/// is where it can be read, and that of the terminal without its picture.
pub proof fn law_portable_settings_are_carried_over(settings: Seq<(String, String)>, i: int)
    requires
        0 <= i < portable_of(settings, 7).len(),
    ensures
        ({
            let (key, value) = portable_of(settings, 7)[i];
            &&& key == "aiSettings"@ || key == "collapsedBookmarkGroups"@ || key == "language"@
                || key == "sidebarCollapsed"@ || key == "sidebarWidth"@ || key
                == "terminalSettings"@ || key == "uiTheme"@
            &&& setting_value(settings, key) is Some
            &&& key != "terminalSettings"@ ==> value == setting_value(settings, key)->0
                && is_json_text(value)
            &&& key == "terminalSettings"@ ==> moved_terminal(setting_value(settings, key)->0)
                == Some(value)
        }),
        portable_keys().len() == 7,
{
    lemma_portable(settings, 7, i);
    let keys = portable_keys();
    assert(keys.len() == 7);
    let k = choose|k: int|
        0 <= k < 7 && (#[trigger] keys[k]) == portable_of(settings, 7)[i].0;
    assert(k == 0 || k == 1 || k == 2 || k == 3 || k == 4 || k == 5 || k == 6);
}

proof fn lemma_portable(settings: Seq<(String, String)>, n: nat, i: int)
    requires
        n <= 7,
        0 <= i < portable_of(settings, n).len(),
    ensures
        exists|k: int|
            0 <= k < n && (#[trigger] portable_keys()[k]) == portable_of(settings, n)[i].0,
        ({
            let (key, value) = portable_of(settings, n)[i];
            &&& setting_value(settings, key) is Some
            &&& portable_value(
                key,
                setting_value(settings, key)->0,
                moved_terminal(setting_value(settings, key)->0),
                is_json_text(setting_value(settings, key)->0),
            ) == Some(value)
        }),
    decreases n,
{
    if n > 0 {
        let rest = portable_of(settings, (n - 1) as nat);
        let all = portable_of(settings, n);
        if i < rest.len() {
            lemma_portable(settings, (n - 1) as nat, i);
            assert(all[i] == rest[i]);
            let k = choose|k: int| 0 <= k < n - 1 && (#[trigger] portable_keys()[k]) == rest[i].0;
            assert(portable_keys()[k] == all[i].0);
        } else {
            assert(portable_keys()[n - 1] == all[i].0);
        }
    }
}

/// A forwarding goes along with its connection: one whose connection is imported gets a fresh id and
/// the new id of its connection and stays the same else; any other is left behind.
pub proof fn law_forwardings_follow_their_connection(
    profiles: Seq<PortForwardProfile>,
    profile: PortForwardProfile,
    ids: Seq<Seq<char>>,
    fresh: Seq<Seq<char>>,
    fresh_profiles: Seq<Seq<char>>,
)
    requires
        fresh_profiles.len() > profiles.len(),
    ensures
        ({
            let before = moved_forwardings(profiles, ids, fresh, fresh_profiles);
            let after = moved_forwardings(profiles.push(profile), ids, fresh, fresh_profiles);
            match mapped(ids, fresh, profile.bookmark_id@) {
                None => after == before,
                Some(target) => after == before.push(
                    ForwardingView {
                        id: fresh_profiles[profiles.len() as int],
                        bookmark_id: target,
                        name: profile.name@,
                        forward_type: profile.forward_type@,
                        bind_address: profile.bind_address@,
                        bind_port: profile.bind_port,
                        target_host: profile.target_host@,
                        target_port: profile.target_port,
                    },
                ),
            }
        }),
        ids.contains(profile.bookmark_id@) ==> forwardings_of(profiles.push(profile), ids)
            == forwardings_of(profiles, ids).push(profile),
        !ids.contains(profile.bookmark_id@) ==> forwardings_of(profiles.push(profile), ids)
            == forwardings_of(profiles, ids),
{
    assert(profiles.push(profile).drop_last() =~= profiles);
}

/// Nothing is imported that was not asked for: no host keys, no settings, no forwardings and no
/// credentials without the word for them; and what is counted is what is imported.
pub proof fn law_only_what_was_asked_for_is_imported(
    r: SnapshotImport,
    snapshot: LunaRemoteSnapshot,
    entries: Seq<BookmarkArchiveEntry>,
    selected: Seq<Seq<char>>,
    options: RemoteImportOptions,
    existing: Seq<Seq<char>>,
    found: Seq<bool>,
    fresh: Seq<Seq<char>>,
    fresh_profiles: Seq<Seq<char>>,
    first_sort_order: int,
    now: Seq<char>,
)
    requires
        is_snapshot_import(
            r,
            snapshot,
            entries,
            selected,
            options,
            existing,
            found,
            fresh,
            fresh_profiles,
            first_sort_order,
            now,
        ),
    ensures
        !options.credentials ==> r.credential_sources@.len() == 0
            && r.result.imported_credentials == 0 && r.result.unavailable_credentials == 0,
        !options.forwarding_profiles ==> r.forwarding_profiles@.len() == 0
            && r.result.imported_forwarding_profiles == 0,
        !options.host_keys ==> r.result.imported_host_keys == 0,
        !options.settings ==> r.result.imported_settings == 0,
        options.host_keys ==> r.result.imported_host_keys == snapshot.known_hosts@.len(),
        options.settings ==> r.result.imported_settings == snapshot.settings@.len(),
        r.result.imported_connections == entries.len() && r.rows@.len() == entries.len(),
        r.result.imported_credentials == r.credential_sources@.len(),
        r.result.imported_forwarding_profiles == r.forwarding_profiles@.len(),
{
    assert(views(r.credential_sources@).len() == r.credential_sources@.len());
    assert(forwarding_views(r.forwarding_profiles@).len() == r.forwarding_profiles@.len());
}

/// The groups of a snapshot are its stored ones and those of its connections; blank ones are left
/// out, and no more than a thousand are taken.
pub proof fn law_snapshot_groups_have_names(
    stored: Seq<Seq<char>>,
    entries: Seq<BookmarkArchiveEntry>,
    k: int,
)
    requires
        0 <= k < snapshot_groups_of(stored, entries).len(),
    ensures
        snapshot_groups_of(stored, entries).len() <= 1_000,
        not_blank(with_groups(stored, entry_groups(entries))).len() <= 1_000 ==> snapshot_groups_of(
            stored,
            entries,
        ) == not_blank(with_groups(stored, entry_groups(entries))),
        trim(snapshot_groups_of(stored, entries)[k]).len() > 0,
        with_groups(stored, entry_groups(entries)).contains(snapshot_groups_of(stored, entries)[k]),
{
    lemma_not_blank(with_groups(stored, entry_groups(entries)), k);
}

proof fn lemma_not_blank(names: Seq<Seq<char>>, k: int)
    requires
        0 <= k < not_blank(names).len(),
    ensures
        trim(not_blank(names)[k]).len() > 0,
        names.contains(not_blank(names)[k]),
    decreases names.len(),
{
    if names.len() > 0 {
        let rest = not_blank(names.drop_last());
        if k < rest.len() {
            lemma_not_blank(names.drop_last(), k);
            let i = choose|i: int|
                0 <= i < names.drop_last().len() && names.drop_last()[i] == rest[k];
            assert(names[i] == rest[k]);
        } else {
            assert(names[names.len() - 1] == names.last());
        }
    }
}

/// A database is read only where it has all three tables that connections need.
pub proof fn law_sources_have_their_tables(tables: &[String], r: Result<(), String>)
    requires
        check_required_tables.ensures((tables,), r),
    ensures
        r is Ok <==> views(tables@).contains("bookmarks"@) && views(tables@).contains("settings"@)
            && views(tables@).contains("known_hosts"@),
{
}

/// A snapshot carries over all connections and host keys, up to ten thousand forwardings of those
/// connections, and the credentials of those connections alone.
pub proof fn law_snapshots_carry_over_what_belongs_together(
    s: LunaRemoteSnapshot,
    source: RemoteSource,
    id: Seq<char>,
)
    requires
        is_snapshot_of(s, source),
    ensures
        s.connections@ == source.connections@ && s.known_hosts@ == source.known_hosts@,
        s.path@ == source.path@ && s.source_modified_at@ == source.source_modified_at@,
        ({
            let kept = forwardings_of(
                source.forwarding_profiles@,
                entry_ids(source.connections@),
            );
            &&& kept.len() <= 10_000 ==> s.forwarding_profiles@ == kept
            &&& kept.len() > 10_000 ==> s.forwarding_profiles@ == kept.take(10_000)
        }),
        views(s.credential_connection_ids@).contains(id) <==> views(
            source.credential_refs@,
        ).contains(id) && entry_ids(source.connections@).contains(id),
{
    lemma_known_of(views(source.credential_refs@), entry_ids(source.connections@), id);
}

proof fn lemma_known_of(names: Seq<Seq<char>>, ids: Seq<Seq<char>>, id: Seq<char>)
    ensures
        known_of(names, ids).contains(id) <==> names.contains(id) && ids.contains(id),
    decreases names.len(),
{
    if names.len() > 0 {
        let front = names.drop_last();
        let rest = known_of(front, ids);
        let all = known_of(names, ids);
        lemma_known_of(front, ids, id);
        assert(names[names.len() - 1] == names.last());
        if names.contains(id) && id != names.last() {
            let k = choose|k: int| 0 <= k < names.len() && names[k] == id;
            assert(front[k] == id);
        }
        if front.contains(id) {
            let k = choose|k: int| 0 <= k < front.len() && front[k] == id;
            assert(names[k] == id);
        }
        if rest.contains(id) {
            let k = choose|k: int| 0 <= k < rest.len() && rest[k] == id;
            assert(all[k] == id);
        }
        if all.contains(id) && !rest.contains(id) {
            let k = choose|k: int| 0 <= k < all.len() && all[k] == id;
            if k < rest.len() {
                assert(rest[k] == id);
            }
        }
        if all.len() > rest.len() {
            assert(all[all.len() - 1] == names.last());
        }
    }
}

/// A database of another application is read exactly where its connections are sound and it holds no
/// more than a hundred thousand host keys.
pub proof fn law_sound_databases_are_read(
    source: RemoteSource,
    r: Result<LunaRemoteSnapshot, String>,
)
    requires
        read_luna_remote_snapshot.ensures((source,), r),
    ensures
        r is Ok <==> source_fault(source.connections@) is None && source.known_hosts@.len()
            <= 100_000,
        r matches Ok(s) ==> is_snapshot_of(s, source),
{
}

} // verus!
