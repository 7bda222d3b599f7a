//! Connections, transfers and tunnels as control requests see them.
use vstd::prelude::*;
use vstd::string::*;

use crate::bookmarks::Bookmark;
use crate::json::{
    fields_view, list_view, push_field, push_item, text_value, whole_value, Json, JsonNumber,
    JsonView,
};
use crate::remote_import::PortForwardProfile;
use crate::text::same;

verus! {

/// A saved connection as JSON; its secrets, its key file and its notes are left out.
pub open spec fn connection_json(bookmark: Bookmark, auth_type: Seq<char>) -> JsonView {
    JsonView::Object(
        seq![
            ("authType"@, JsonView::Text(auth_type)),
            ("favorite"@, JsonView::Bool(bookmark.favorite)),
            ("groupName"@, JsonView::Text(bookmark.group_name@)),
            ("hasSavedCredential"@, JsonView::Bool(bookmark.has_saved_credential)),
            ("host"@, JsonView::Text(bookmark.host@)),
            ("id"@, JsonView::Text(bookmark.id@)),
            ("jumpConnectionId"@, JsonView::Text(bookmark.jump_bookmark_id@)),
            ("keepaliveEnabled"@, JsonView::Bool(bookmark.keepalive_enabled)),
            ("lastConnectedAt"@, JsonView::Text(bookmark.last_connected_at@)),
            ("name"@, JsonView::Text(bookmark.name@)),
            ("port"@, JsonView::Number(JsonNumber::Whole(bookmark.port as u64))),
            ("username"@, JsonView::Text(bookmark.username@)),
        ],
    )
}

/// A saved connection as JSON, with the name of its way to sign in.
pub fn connection_value(bookmark: &Bookmark, auth_type: &str) -> (r: Json)
    ensures
        r.view() == connection_json(*bookmark, auth_type@),
{
    let mut fields: Vec<(String, Json)> = Vec::new();
    push_field(&mut fields, "authType", text_value(auth_type));
    push_field(&mut fields, "favorite", Json::Bool(bookmark.favorite));
    push_field(&mut fields, "groupName", text_value(bookmark.group_name.as_str()));
    push_field(&mut fields, "hasSavedCredential", Json::Bool(bookmark.has_saved_credential));
    push_field(&mut fields, "host", text_value(bookmark.host.as_str()));
    push_field(&mut fields, "id", text_value(bookmark.id.as_str()));
    push_field(&mut fields, "jumpConnectionId", text_value(bookmark.jump_bookmark_id.as_str()));
    push_field(&mut fields, "keepaliveEnabled", Json::Bool(bookmark.keepalive_enabled));
    push_field(&mut fields, "lastConnectedAt", text_value(bookmark.last_connected_at.as_str()));
    push_field(&mut fields, "name", text_value(bookmark.name.as_str()));
    push_field(&mut fields, "port", whole_value(bookmark.port as u64));
    push_field(&mut fields, "username", text_value(bookmark.username.as_str()));
    assert(JsonView::Object(fields_view(fields@)) == connection_json(*bookmark, auth_type@)) by {
        assert(fields_view(fields@) =~= connection_json(*bookmark, auth_type@)->Object_0);
    }
    Json::Object(fields)
}

/// The connections with the names of their ways to sign in.
#[derive(Debug)]
pub struct ListedConnection {
    pub bookmark: Bookmark,
    pub auth_type: String,
}

/// Each connection as JSON.
pub open spec fn connections_json(connections: Seq<ListedConnection>) -> Seq<JsonView>
    decreases connections.len(),
{
    if connections.len() == 0 {
        Seq::empty()
    } else {
        connections_json(connections.drop_last()).push(
            connection_json(connections.last().bookmark, connections.last().auth_type@),
        )
    }
}

/// The saved connections as JSON, in their order.
pub fn connections_list(connections: &[ListedConnection]) -> (r: Json)
    ensures
        r.view() == JsonView::List(connections_json(connections@)),
{
    let mut items: Vec<Json> = Vec::new();
    let mut i: usize = 0;
    while i < connections.len()
        invariant
            i <= connections@.len(),
            list_view(items@) == connections_json(connections@.take(i as int)),
        decreases connections@.len() - i,
    {
        assert(connections@.take(i + 1).drop_last() =~= connections@.take(i as int));
        push_item(
            &mut items,
            connection_value(&connections[i].bookmark, connections[i].auth_type.as_str()),
        );
        i = i + 1;
    }
    assert(connections@.take(i as int) =~= connections@);
    Json::List(items)
}

/// What can be seen of a connection does not depend on its key file or its notes.
pub proof fn law_connections_hide_keys_and_notes(
    bookmark: Bookmark,
    other: Bookmark,
    auth_type: Seq<char>,
)
    requires
        other == (Bookmark {
            private_key_path: other.private_key_path,
            note: other.note,
            ..bookmark
        }),
    ensures
        connection_json(bookmark, auth_type) == connection_json(other, auth_type),
{
}

/// How a transfer is doing.
#[derive(Clone, Copy, Debug, PartialEq, Eq, Structural)]
pub enum TransferStatus {
    Queued,
    Scanning,
    Running,
    Conflict,
    Completed,
    Failed,
    Cancelled,
    Interrupted,
}

/// The status with this name; a name that is not known is read as queued.
pub open spec fn status_named(name: Seq<char>) -> TransferStatus {
    if name == "scanning"@ {
        TransferStatus::Scanning
    } else if name == "running"@ {
        TransferStatus::Running
    } else if name == "conflict"@ {
        TransferStatus::Conflict
    } else if name == "completed"@ {
        TransferStatus::Completed
    } else if name == "failed"@ {
        TransferStatus::Failed
    } else if name == "cancelled"@ {
        TransferStatus::Cancelled
    } else if name == "interrupted"@ {
        TransferStatus::Interrupted
    } else {
        TransferStatus::Queued
    }
}

/// The name that stands for a status.
pub open spec fn status_name(status: TransferStatus) -> Seq<char> {
    match status {
        TransferStatus::Queued => "queued"@,
        TransferStatus::Scanning => "scanning"@,
        TransferStatus::Running => "running"@,
        TransferStatus::Conflict => "conflict"@,
        TransferStatus::Completed => "completed"@,
        TransferStatus::Failed => "failed"@,
        TransferStatus::Cancelled => "cancelled"@,
        TransferStatus::Interrupted => "interrupted"@,
    }
}

/// A stored status is read back as it was.
pub proof fn law_stored_statuses_read_back(status: TransferStatus)
    ensures
        status_named(status_name(status)) == status,
{
    reveal_strlit("queued");
    reveal_strlit("scanning");
    reveal_strlit("running");
    reveal_strlit("conflict");
    reveal_strlit("completed");
    reveal_strlit("failed");
    reveal_strlit("cancelled");
    reveal_strlit("interrupted");
    assert("cancelled"@[0] == 'c' && "cancelled"@[1] == 'a');
    assert("completed"@[0] == 'c' && "completed"@[1] == 'o' && "completed"@.len() == 9);
    assert("conflict"@[0] == 'c' && "conflict"@.len() == 8);
    assert("scanning"@[0] == 's');
    assert("running"@[0] == 'r');
    assert("failed"@[0] == 'f');
    assert("interrupted"@[0] == 'i');
    assert("queued"@[0] == 'q');
}

impl TransferStatus {
    /// The status with this name.
    pub fn parse(name: &str) -> (r: Self)
        ensures
            r == status_named(name@),
    {
        if same(name, "scanning") {
            TransferStatus::Scanning
        } else if same(name, "running") {
            TransferStatus::Running
        } else if same(name, "conflict") {
            TransferStatus::Conflict
        } else if same(name, "completed") {
            TransferStatus::Completed
        } else if same(name, "failed") {
            TransferStatus::Failed
        } else if same(name, "cancelled") {
            TransferStatus::Cancelled
        } else if same(name, "interrupted") {
            TransferStatus::Interrupted
        } else {
            TransferStatus::Queued
        }
    }

    /// The name of the status.
    pub fn as_str(self) -> (r: &'static str)
        ensures
            r@ == status_name(self),
    {
        match self {
            TransferStatus::Queued => "queued",
            TransferStatus::Scanning => "scanning",
            TransferStatus::Running => "running",
            TransferStatus::Conflict => "conflict",
            TransferStatus::Completed => "completed",
            TransferStatus::Failed => "failed",
            TransferStatus::Cancelled => "cancelled",
            TransferStatus::Interrupted => "interrupted",
        }
    }

    /// The transfer can still be stopped.
    pub open spec fn active(self) -> bool {
        self == TransferStatus::Queued || self == TransferStatus::Scanning || self
            == TransferStatus::Running || self == TransferStatus::Conflict
    }

    /// Whether the transfer can still be stopped.
    pub fn is_active(self) -> (r: bool)
        ensures
            r == self.active(),
    {
        match self {
            TransferStatus::Queued => true,
            TransferStatus::Scanning => true,
            TransferStatus::Running => true,
            TransferStatus::Conflict => true,
            _ => false,
        }
    }
}

/// A transfer, by what the control requests ask of it.
#[derive(Debug)]
pub struct TransferEntry {
    pub id: String,
    pub session_id: String,
    pub status: TransferStatus,
}

/// The first transfer with this id.
pub open spec fn transfer_named(transfers: Seq<TransferEntry>, id: Seq<char>) -> Option<TransferEntry>
    decreases transfers.len(),
{
    if transfers.len() == 0 {
        None
    } else if transfers[0].id@ == id {
        Some(transfers[0])
    } else {
        transfer_named(transfers.skip(1), id)
    }
}

/// Whether a transfer is to be stopped: only one that is still going on.
pub fn transfer_cancel(transfers: &[TransferEntry], id: &str) -> (r: Result<bool, String>)
    ensures
        match transfer_named(transfers@, id@) {
            Some(transfer) => r is Ok && r->Ok_0 == transfer.status.active(),
            None => r is Err && r->Err_0@ == "传输任务不存在"@,
        },
{
    let mut i: usize = 0;
    assert(transfers@.skip(0) =~= transfers@);
    while i < transfers.len()
        invariant
            i <= transfers@.len(),
            transfer_named(transfers@, id@) == transfer_named(transfers@.skip(i as int), id@),
        decreases transfers@.len() - i,
    {
        assert(transfers@.skip(i as int)[0] == transfers@[i as int]);
        if same(transfers[i].id.as_str(), id) {
            return Ok(transfers[i].status.is_active());
        }
        assert(transfers@.skip(i as int).skip(1) =~= transfers@.skip(i + 1));
        i = i + 1;
    }
    Err("传输任务不存在".to_owned())
}

/// The places of the transfers of a session.
pub open spec fn places_of_session(transfers: Seq<TransferEntry>, session_id: Seq<char>) -> Seq<int>
    decreases transfers.len(),
{
    if transfers.len() == 0 {
        Seq::empty()
    } else {
        let rest = places_of_session(transfers.drop_last(), session_id);
        if transfers.last().session_id@ == session_id {
            rest.push(transfers.len() - 1)
        } else {
            rest
        }
    }
}

/// The places of the transfers of a session, in their order.
pub fn transfer_list(transfers: &[TransferEntry], session_id: &str) -> (r: Vec<usize>)
    ensures
        r@.map_values(|i: usize| i as int) == places_of_session(transfers@, session_id@),
{
    let mut r: Vec<usize> = Vec::new();
    let mut i: usize = 0;
    assert(r@.map_values(|i: usize| i as int) =~= places_of_session(
        transfers@.take(0),
        session_id@,
    ));
    while i < transfers.len()
        invariant
            i <= transfers@.len(),
            r@.map_values(|i: usize| i as int) == places_of_session(
                transfers@.take(i as int),
                session_id@,
            ),
        decreases transfers@.len() - i,
    {
        assert(transfers@.take(i + 1).drop_last() =~= transfers@.take(i as int));
        if same(transfers[i].session_id.as_str(), session_id) {
            let ghost before = r@.map_values(|i: usize| i as int);
            r.push(i);
            assert(r@.map_values(|i: usize| i as int) =~= before.push(i as int));
        }
        i = i + 1;
    }
    assert(transfers@.take(i as int) =~= transfers@);
    r
}

/// The first port forward with this id.
pub open spec fn forward_named(profiles: Seq<PortForwardProfile>, id: Seq<char>) -> Option<int>
    decreases profiles.len(),
{
    if profiles.len() == 0 {
        None
    } else {
        match forward_named(profiles.drop_last(), id) {
            Some(i) => Some(i),
            None => if profiles.last().id@ == id {
                Some(profiles.len() - 1)
            } else {
                None
            },
        }
    }
}

/// The place of the port forward that a tunnel is started with.
pub fn tunnel_profile(profiles: &[PortForwardProfile], id: &str) -> (r: Result<usize, String>)
    ensures
        match forward_named(profiles@, id@) {
            Some(i) => r is Ok && r->Ok_0 == i,
            None => r is Err && r->Err_0@ == "端口转发配置不存在"@,
        },
{
    let mut i: usize = 0;
    while i < profiles.len()
        invariant
            i <= profiles@.len(),
            forward_named(profiles@.take(i as int), id@) is None,
        decreases profiles@.len() - i,
    {
        assert(profiles@.take(i + 1).drop_last() =~= profiles@.take(i as int));
        if same(profiles[i].id.as_str(), id) {
            proof {
                assert(forward_named(profiles@.take(i + 1), id@) == Some(i as int));
                lemma_forward_stays(profiles@, i + 1, id@);
            }
            return Ok(i);
        }
        i = i + 1;
    }
    assert(profiles@.take(i as int) =~= profiles@);
    Err("端口转发配置不存在".to_owned())
}

proof fn lemma_forward_stays(profiles: Seq<PortForwardProfile>, to: int, id: Seq<char>)
    requires
        0 <= to <= profiles.len(),
        forward_named(profiles.take(to), id) is Some,
    ensures
        forward_named(profiles, id) == forward_named(profiles.take(to), id),
    decreases profiles.len() - to,
{
    if to < profiles.len() {
        assert(profiles.take(to + 1).drop_last() =~= profiles.take(to));
        lemma_forward_stays(profiles, to + 1, id);
    } else {
        assert(profiles.take(to) =~= profiles);
    }
}

/// Refuses repairs that are not offered.
pub fn check_repair(action: &str) -> (r: Result<(), String>)
    ensures
        if action@ == "remoteHelper"@ {
            r is Ok
        } else {
            r is Err && r->Err_0@ == "不支持的诊断修复操作"@
        },
{
    if same(action, "remoteHelper") {
        Ok(())
    } else {
        Err("不支持的诊断修复操作".to_owned())
    }
}

/// The answer to a repair: where the helper is now, and that agents have to be started anew.
pub fn repair_value(action: &str, runtime_id: &str, path: &str) -> (r: Json)
    ensures
        r.view() == JsonView::Object(
            seq![
                ("action"@, JsonView::Text(action@)),
                ("path"@, JsonView::Text(path@)),
                ("requiresAgentRestart"@, JsonView::Bool(true)),
                ("runtimeId"@, JsonView::Text(runtime_id@)),
            ],
        ),
{
    let mut fields: Vec<(String, Json)> = Vec::new();
    push_field(&mut fields, "action", text_value(action));
    push_field(&mut fields, "path", text_value(path));
    push_field(&mut fields, "requiresAgentRestart", Json::Bool(true));
    push_field(&mut fields, "runtimeId", text_value(runtime_id));
    assert(fields_view(fields@) =~= seq![
        ("action"@, JsonView::Text(action@)),
        ("path"@, JsonView::Text(path@)),
        ("requiresAgentRestart"@, JsonView::Bool(true)),
        ("runtimeId"@, JsonView::Text(runtime_id@)),
    ]);
    Json::Object(fields)
}

/// A connection is listed with what is needed to recognize it, each under its own name.
pub proof fn law_listed_connections_say_what_they_are(bookmark: Bookmark, auth_type: Seq<char>)
    ensures
        ({
            let fields = connection_json(bookmark, auth_type)->Object_0;
            &&& fields.len() == 12
            &&& fields.contains(("id"@, JsonView::Text(bookmark.id@)))
            &&& fields.contains(("name"@, JsonView::Text(bookmark.name@)))
            &&& fields.contains(("host"@, JsonView::Text(bookmark.host@)))
            &&& fields.contains(
                ("port"@, JsonView::Number(JsonNumber::Whole(bookmark.port as u64))),
            )
            &&& fields.contains(("username"@, JsonView::Text(bookmark.username@)))
            &&& fields.contains(("authType"@, JsonView::Text(auth_type)))
            &&& fields.contains(("groupName"@, JsonView::Text(bookmark.group_name@)))
            &&& fields.contains(("favorite"@, JsonView::Bool(bookmark.favorite)))
            &&& fields.contains(
                ("hasSavedCredential"@, JsonView::Bool(bookmark.has_saved_credential)),
            )
            &&& fields.contains(("jumpConnectionId"@, JsonView::Text(bookmark.jump_bookmark_id@)))
            &&& fields.contains(("keepaliveEnabled"@, JsonView::Bool(bookmark.keepalive_enabled)))
            &&& fields.contains(("lastConnectedAt"@, JsonView::Text(bookmark.last_connected_at@)))
        }),
{
    let fields = connection_json(bookmark, auth_type)->Object_0;
    assert(fields[0].0 == "authType"@);
    assert(fields[1].0 == "favorite"@);
    assert(fields[2].0 == "groupName"@);
    assert(fields[3].0 == "hasSavedCredential"@);
    assert(fields[4].0 == "host"@);
    assert(fields[5].0 == "id"@);
    assert(fields[6].0 == "jumpConnectionId"@);
    assert(fields[7].0 == "keepaliveEnabled"@);
    assert(fields[8].0 == "lastConnectedAt"@);
    assert(fields[9].0 == "name"@);
    assert(fields[10].0 == "port"@);
    assert(fields[11].0 == "username"@);
}

/// Every connection is listed, each at its place.
pub proof fn law_every_connection_is_listed(connections: Seq<ListedConnection>, i: int)
    requires
        0 <= i < connections.len(),
    ensures
        connections_json(connections).len() == connections.len(),
        connections_json(connections)[i] == connection_json(
            connections[i].bookmark,
            connections[i].auth_type@,
        ),
    decreases connections.len(),
{
    let front = connections.drop_last();
    lemma_listed_length(front);
    if i < front.len() {
        law_every_connection_is_listed(front, i);
        assert(front[i] == connections[i]);
    }
}

proof fn lemma_listed_length(connections: Seq<ListedConnection>)
    ensures
        connections_json(connections).len() == connections.len(),
    decreases connections.len(),
{
    if connections.len() > 0 {
        lemma_listed_length(connections.drop_last());
    }
}

/// A transfer can be stopped while it waits, looks around, runs, or asks what to do; never once it
/// has ended.
pub proof fn law_ended_transfers_are_not_active(status: TransferStatus)
    ensures
        match status {
            TransferStatus::Queued
            | TransferStatus::Scanning
            | TransferStatus::Running
            | TransferStatus::Conflict => status.active(),
            TransferStatus::Completed
            | TransferStatus::Failed
            | TransferStatus::Cancelled
            | TransferStatus::Interrupted => !status.active(),
        },
{
}

/// The transfers of a session are those that belong to it, in their order.
pub proof fn law_transfers_are_listed_by_session(
    transfers: Seq<TransferEntry>,
    session_id: Seq<char>,
    place: int,
)
    ensures
        places_of_session(transfers, session_id).contains(place) <==> 0 <= place < transfers.len()
            && transfers[place].session_id@ == session_id,
        forall|i: int, j: int|
            0 <= i < j < places_of_session(transfers, session_id).len() ==> places_of_session(
                transfers,
                session_id,
            )[i] < places_of_session(transfers, session_id)[j],
    decreases transfers.len(),
{
    if transfers.len() > 0 {
        let front = transfers.drop_last();
        let rest = places_of_session(front, session_id);
        let all = places_of_session(transfers, session_id);
        law_transfers_are_listed_by_session(front, session_id, place);
        assert forall|i: int, j: int| 0 <= i < j < all.len() implies all[i] < all[j] by {
            if j < rest.len() {
                assert(rest[i] < rest[j]);
            } else {
                law_transfers_are_listed_by_session(front, session_id, rest[i]);
                assert(rest.contains(rest[i]));
            }
        }
        if 0 <= place < front.len() {
            assert(front[place] == transfers[place]);
        }
        if rest.contains(place) {
            let k = choose|k: int| 0 <= k < rest.len() && rest[k] == place;
            assert(all[k] == place);
        }
        if all.contains(place) && !rest.contains(place) {
            let k = choose|k: int| 0 <= k < all.len() && all[k] == place;
            if k < rest.len() {
                assert(rest[k] == place);
            }
        }
        if transfers.last().session_id@ == session_id {
            assert(all[all.len() - 1] == transfers.len() - 1);
        }
    }
}

/// The profile that is found is the first one with the id that was asked for.
pub proof fn law_profiles_are_found_by_their_id(profiles: Seq<PortForwardProfile>, id: Seq<char>)
    ensures
        match forward_named(profiles, id) {
            Some(i) => 0 <= i < profiles.len() && profiles[i].id@ == id && forall|k: int|
                0 <= k < i ==> (#[trigger] profiles[k]).id@ != id,
            None => forall|k: int| 0 <= k < profiles.len() ==> (#[trigger] profiles[k]).id@ != id,
        },
    decreases profiles.len(),
{
    if profiles.len() > 0 {
        let front = profiles.drop_last();
        law_profiles_are_found_by_their_id(front, id);
        assert forall|k: int| 0 <= k < front.len() implies #[trigger] profiles[k] == front[k] by {}
    }
}

/// The transfer that is found has the id that was asked for, and it is found where there is one.
pub proof fn law_transfers_are_found_by_their_id(list: Seq<TransferEntry>, id: Seq<char>)
    ensures
        match transfer_named(list, id) {
            Some(found) => list.contains(found) && found.id@ == id,
            None => forall|i: int| 0 <= i < list.len() ==> (#[trigger] list[i]).id@ != id,
        },
    decreases list.len(),
{
    if list.len() > 0 {
        let rest = list.skip(1);
        law_transfers_are_found_by_their_id(rest, id);
        assert(list.contains(list[0]));
        match transfer_named(rest, id) {
            Some(found) => {
                let k = choose|k: int| 0 <= k < rest.len() && rest[k] == found;
                assert(list[k + 1] == found);
            },
            None => {
                assert forall|i: int| 1 <= i < list.len() implies (#[trigger] list[i]).id@
                    != id by {
                    assert(rest[i - 1] == list[i]);
                }
            },
        }
    }
}

/// The helper on another machine is all that can be repaired.
pub proof fn law_only_the_helper_is_repaired(action: &str, r: Result<(), String>)
    requires
        check_repair.ensures((action,), r),
    ensures
        r is Ok <==> action@ == "remoteHelper"@,
{
}

/// A transfer that is there can be told to stop, and is stopped exactly while it is under way.
pub proof fn law_active_transfers_are_stopped(
    transfers: &[TransferEntry],
    id: &str,
    r: Result<bool, String>,
)
    requires
        transfer_cancel.ensures((transfers, id), r),
    ensures
        r is Ok <==> exists|i: int|
            0 <= i < transfers@.len() && (#[trigger] transfers@[i]).id@ == id@,
        r matches Ok(stopped) ==> exists|i: int|
            0 <= i < transfers@.len() && (#[trigger] transfers@[i]).id@ == id@ && stopped
                == transfers@[i].status.active(),
{
    law_transfers_are_found_by_their_id(transfers@, id@);
    match transfer_named(transfers@, id@) {
        Some(found) => {
            let i = choose|i: int| 0 <= i < transfers@.len() && transfers@[i] == found;
            assert(transfers@[i].id@ == id@);
        },
        None => {},
    }
}

} // verus!
