//! The stored credentials, host keys, settings and the audit of control requests.
use vstd::prelude::*;
use vstd::string::*;

use crate::bookmarks::{drop_name, names_without};
use crate::clock::{days_before, now_rfc3339, subtract_days};
use crate::control_service::ControlAuditRecord;
use crate::database::{marks_agree, same_connections, same_records, same_sessions, Database};
use crate::json::{copy_json, JsonView};
use crate::ordered_text::{before, is_before, lemma_before_total, lemma_before_transitive};
use crate::remote_import::{KnownHostImportEntry, PortForwardProfile};
use crate::rows::BookmarkView;
use crate::saved_connections::lemma_names_without;
use crate::table::{
    lemma_removed_row, lemma_row_with, lemma_with_row, row_with, with_row, without_row, Row,
};
use crate::text::{list_has, opt_view, push_text, same, views};

verus! {

/// A connection with another mark, under its id; nothing changes where there is none.
pub open spec fn is_marked(before: Database, after: Database, id: Seq<char>, mark: bool) -> bool {
    match row_with(before.bookmarks.rows@, id) {
        Some(row) => {
            let stored = row_with(after.bookmarks.rows@, id);
            &&& stored is Some
            &&& stored->0@ == (BookmarkView { has_saved_credential: mark, ..row@ })
            &&& after.bookmarks.rows@ == with_row(before.bookmarks.rows@, stored->0)
        },
        None => after.bookmarks == before.bookmarks,
    }
}

/// A secret that was found, and whether it has to be kept under the present name of the service.
#[derive(Debug)]
pub struct FoundSecret {
    pub secret: String,
    pub keep: bool,
}

/// A place holds a secret.
pub open spec fn holds_secret(place: Option<String>) -> bool {
    place is Some && place->0@.len() > 0
}

/// The secret of the own place, else that of the older one, which is then to be kept in the own
/// place.
pub open spec fn is_chosen(
    r: Option<FoundSecret>,
    own: Option<String>,
    legacy: Option<String>,
) -> bool {
    if holds_secret(own) {
        r is Some && r->0.secret@ == own->0@ && !r->0.keep
    } else if holds_secret(legacy) {
        r is Some && r->0.secret@ == legacy->0@ && r->0.keep
    } else {
        r is None
    }
}

/// The secret to use: the one under the present name of the service, else the one under its former
/// name, which is kept under the present one from then on. An empty secret is none.
pub fn choose_secret(own: Option<String>, legacy: Option<String>) -> (r: Option<FoundSecret>)
    ensures
        is_chosen(r, own, legacy),
{
    match own {
        Some(secret) => {
            if !secret.as_str().is_empty() {
                return Some(FoundSecret { secret, keep: false });
            }
        },
        None => {},
    }
    match legacy {
        Some(secret) => {
            if !secret.as_str().is_empty() {
                return Some(FoundSecret { secret, keep: true });
            }
        },
        None => {},
    }
    None
}

/// The key that is stored for a host.
pub open spec fn host_key(list: Seq<KnownHostImportEntry>, host: Seq<char>, port: u16) -> Option<
    Seq<char>,
>
    decreases list.len(),
{
    if list.len() == 0 {
        None
    } else if list[0].host@ == host && list[0].port == port {
        Some(list[0].fingerprint@)
    } else {
        host_key(list.skip(1), host, port)
    }
}

fn host_place(list: &[KnownHostImportEntry], host: &str, port: u16) -> (r: Option<usize>)
    ensures
        match r {
            Some(i) => {
                &&& i < list@.len()
                &&& list@[i as int].host@ == host@ && list@[i as int].port == port
                &&& forall|k: int|
                    0 <= k < i ==> !((#[trigger] list@[k]).host@ == host@ && list@[k].port == port)
                &&& host_key(list@, host@, port) == Some(list@[i as int].fingerprint@)
            },
            None => host_key(list@, host@, port) is None && forall|k: int|
                0 <= k < list@.len() ==> !((#[trigger] list@[k]).host@ == host@ && list@[k].port
                    == port),
        },
{
    let mut i: usize = 0;
    assert(list@.skip(0) =~= list@);
    while i < list.len()
        invariant
            i <= list@.len(),
            host_key(list@, host@, port) == host_key(list@.skip(i as int), host@, port),
            forall|k: int|
                0 <= k < i ==> !((#[trigger] list@[k]).host@ == host@ && list@[k].port == port),
        decreases list@.len() - i,
    {
        assert(list@.skip(i as int)[0] == list@[i as int]);
        if list[i].port == port && same(list[i].host.as_str(), host) {
            return Some(i);
        }
        assert(list@.skip(i as int).skip(1) =~= list@.skip(i + 1));
        i = i + 1;
    }
    None
}

/// What an entry of the audit holds.
pub ghost struct AuditView {
    pub id: Seq<char>,
    pub timestamp: Seq<char>,
    pub caller_id: Seq<char>,
    pub caller_kind: Seq<char>,
    pub operation: Seq<char>,
    pub resource_kind: Seq<char>,
    pub resource_id: Seq<char>,
    pub arguments: JsonView,
    pub result: Seq<char>,
    pub error_code: Seq<char>,
}

impl View for ControlAuditRecord {
    type V = AuditView;

    open spec fn view(&self) -> AuditView {
        AuditView {
            id: self.id@,
            timestamp: self.timestamp@,
            caller_id: self.caller_id@,
            caller_kind: self.caller_kind@,
            operation: self.operation@,
            resource_kind: self.resource_kind@,
            resource_id: self.resource_id@,
            arguments: self.arguments.view(),
            result: self.result@,
            error_code: self.error_code@,
        }
    }
}

fn copy_record(record: &ControlAuditRecord) -> (r: ControlAuditRecord)
    ensures
        r@ == record@,
{
    ControlAuditRecord {
        id: record.id.clone(),
        timestamp: record.timestamp.clone(),
        caller_id: record.caller_id.clone(),
        caller_kind: record.caller_kind.clone(),
        operation: record.operation.clone(),
        resource_kind: record.resource_kind.clone(),
        resource_id: record.resource_id.clone(),
        arguments: copy_json(&record.arguments),
        result: record.result.clone(),
        error_code: record.error_code.clone(),
    }
}

/// The views of the entries.
pub open spec fn audit_views(records: Seq<ControlAuditRecord>) -> Seq<AuditView> {
    records.map_values(|record: ControlAuditRecord| record@)
}

/// A list, newest first, with one more entry.
pub open spec fn with_entry(list: Seq<AuditView>, entry: AuditView) -> Seq<AuditView>
    decreases list.len(),
{
    if list.len() == 0 {
        seq![entry]
    } else if before(list[0].timestamp, entry.timestamp) {
        seq![entry] + list
    } else {
        seq![list[0]] + with_entry(list.skip(1), entry)
    }
}

/// The entries, newest first.
pub open spec fn newest_first(records: Seq<AuditView>) -> Seq<AuditView>
    decreases records.len(),
{
    if records.len() == 0 {
        records
    } else {
        with_entry(newest_first(records.drop_last()), records.last())
    }
}

/// How many entries are listed at most: between one and ten thousand.
pub open spec fn audit_limit(limit: usize) -> int {
    if limit < 1 {
        1
    } else if limit > 10_000 {
        10_000
    } else {
        limit as int
    }
}

/// The entries that are not older than a moment.
pub open spec fn kept_records(records: Seq<ControlAuditRecord>, cutoff: Seq<char>) -> Seq<
    ControlAuditRecord,
>
    decreases records.len(),
{
    if records.len() == 0 {
        records
    } else if before(records.last().timestamp@, cutoff) {
        kept_records(records.drop_last(), cutoff)
    } else {
        kept_records(records.drop_last(), cutoff).push(records.last())
    }
}

/// The setting is the list of the groups or that of the forwardings.
pub open spec fn is_list_key(key: Seq<char>) -> bool {
    key == "bookmarkGroups"@ || key == "portForwardProfiles"@
}

/// A value for a setting: the text that is stored, and what it reads as where a list of groups or
/// of forwardings is expected. A text that is no such list reads as an empty one.
#[derive(Debug)]
pub struct SettingValue {
    pub text: String,
    pub groups: Vec<String>,
    pub forwardings: Vec<PortForwardProfile>,
}

/// A setting as it is stored.
#[derive(Debug)]
pub enum StoredSetting<'a> {
    Text(&'a String),
    Groups(&'a Vec<String>),
    Forwardings(&'a Vec<PortForwardProfile>),
}

/// What a stored setting holds.
pub ghost enum SettingView {
    Text(String),
    Groups(Vec<String>),
    Forwardings(Vec<PortForwardProfile>),
}

impl<'a> View for StoredSetting<'a> {
    type V = SettingView;

    open spec fn view(&self) -> SettingView {
        match self {
            StoredSetting::Text(text) => SettingView::Text(**text),
            StoredSetting::Groups(groups) => SettingView::Groups(**groups),
            StoredSetting::Forwardings(profiles) => SettingView::Forwardings(**profiles),
        }
    }
}

/// The setting that is stored under a key. The two lists are always there, empty where nothing was
/// stored.
pub open spec fn setting_of(db: Database, key: Seq<char>) -> Option<SettingView> {
    if key == "bookmarkGroups"@ {
        Some(SettingView::Groups(db.groups))
    } else if key == "portForwardProfiles"@ {
        Some(SettingView::Forwardings(db.forwardings))
    } else if db.settings@.dom().contains(key) {
        Some(SettingView::Text(db.settings@[key]))
    } else {
        None
    }
}

/// What a value is stored as under a key.
pub open spec fn stored_as(key: Seq<char>, value: SettingValue) -> SettingView {
    if key == "bookmarkGroups"@ {
        SettingView::Groups(value.groups)
    } else if key == "portForwardProfiles"@ {
        SettingView::Forwardings(value.forwardings)
    } else {
        SettingView::Text(value.text)
    }
}

/// A setting was stored.
pub open spec fn setting_stored(
    before: Database,
    after: Database,
    key: Seq<char>,
    value: SettingValue,
) -> bool {
    &&& after.groups == (if key == "bookmarkGroups"@ {
        value.groups
    } else {
        before.groups
    })
    &&& after.forwardings == (if key == "portForwardProfiles"@ {
        value.forwardings
    } else {
        before.forwardings
    })
    &&& after.settings@ == (if is_list_key(key) {
        before.settings@
    } else {
        before.settings@.insert(key, value.text)
    })
    &&& after.bookmarks == before.bookmarks
    &&& after.credential_refs == before.credential_refs
    &&& same_sessions(before, after)
    &&& after.known_hosts == before.known_hosts
    &&& after.audit == before.audit
    &&& after.transfers == before.transfers
}

/// For how many days the audit is kept: one at least.
pub open spec fn at_least_one(days: i64) -> i64 {
    if days < 1 {
        1
    } else {
        days
    }
}

/// The entries that are not older than so many days at a moment; all of them where no moment lies
/// so many days before it.
pub open spec fn kept_since(
    records: Seq<ControlAuditRecord>,
    now: Seq<char>,
    days: i64,
) -> Seq<ControlAuditRecord> {
    match days_before(now, days) {
        Some(cutoff) => kept_records(records, cutoff),
        None => records,
    }
}

/// An entry of the audit has this id.
pub open spec fn audit_has(records: Seq<ControlAuditRecord>, id: Seq<char>) -> bool {
    exists|i: int| 0 <= i < records.len() && (#[trigger] records[i]).id@ == id
}

fn insert_entry(list: &mut Vec<ControlAuditRecord>, entry: ControlAuditRecord)
    ensures
        audit_views(final(list)@) == with_entry(audit_views(old(list)@), entry@),
{
    let ghost all = audit_views(list@);
    let mut i: usize = 0;
    assert(all.skip(0) =~= all);
    assert(all.take(0) + with_entry(all, entry@) =~= with_entry(all, entry@));
    while i < list.len() && !is_before(list[i].timestamp.as_str(), entry.timestamp.as_str())
        invariant
            list@ == old(list)@,
            all == audit_views(list@),
            i <= list@.len(),
            with_entry(all, entry@) == all.take(i as int) + with_entry(all.skip(i as int), entry@),
        decreases list@.len() - i,
    {
        assert(all[i as int] == list@[i as int]@);
        assert(all.skip(i as int)[0] == all[i as int]);
        assert(all.skip(i as int).skip(1) =~= all.skip(i + 1));
        assert(all.take(i as int) + (seq![all[i as int]] + with_entry(all.skip(i + 1), entry@))
            =~= all.take(i + 1) + with_entry(all.skip(i + 1), entry@));
        i = i + 1;
    }
    proof {
        if i < list@.len() {
            assert(all[i as int] == list@[i as int]@);
            assert(all.skip(i as int)[0] == all[i as int]);
            assert(with_entry(all.skip(i as int), entry@) == seq![entry@] + all.skip(i as int));
        } else {
            assert(all.skip(i as int) =~= Seq::empty());
            assert(with_entry(all.skip(i as int), entry@) =~= seq![entry@] + all.skip(i as int));
        }
        assert(with_entry(all, entry@) == all.take(i as int) + (seq![entry@] + all.skip(i as int)));
    }
    list.insert(i, entry);
    assert(audit_views(list@) =~= all.take(i as int) + (seq![entry@] + all.skip(i as int)));
}

impl Database {
    /// Notes that a credential is stored for a connection.
    pub fn save_credential(&mut self, bookmark_id: &str)
        requires
            old(self).wf(),
        ensures
            final(self).wf(),
            views(final(self).credential_refs@) == (if views(old(self).credential_refs@).contains(
                bookmark_id@,
            ) {
                views(old(self).credential_refs@)
            } else {
                views(old(self).credential_refs@).push(bookmark_id@)
            }),
            is_marked(*old(self), *final(self), bookmark_id@, true),
            final(self).groups == old(self).groups,
            final(self).forwardings == old(self).forwardings,
            same_sessions(*old(self), *final(self)),
            same_records(*old(self), *final(self)),
    {
        let ghost refs = views(self.credential_refs@);
        if !list_has(&self.credential_refs, bookmark_id) {
            push_text(&mut self.credential_refs, bookmark_id.to_owned());
            assert forall|s: Seq<char>| s != bookmark_id@ implies #[trigger] views(
                self.credential_refs@,
            ).contains(s) == refs.contains(s) by {
                lemma_push_contains(refs, bookmark_id@, s);
            }
            proof {
                lemma_push_contains(refs, bookmark_id@, bookmark_id@);
            }
        }
        self.mark(bookmark_id, true);
    }

    /// Whether a credential is stored for a connection.
    pub fn has_credential(&self, bookmark_id: &str) -> (r: bool)
        ensures
            r == views(self.credential_refs@).contains(bookmark_id@),
    {
        list_has(&self.credential_refs, bookmark_id)
    }

    /// The secret of a connection, by what its own place and the older one hold; nothing where no
    /// credential is stored for it.
    pub fn get_credential(
        &self,
        bookmark_id: &str,
        own: Option<String>,
        legacy: Option<String>,
    ) -> (r: Option<FoundSecret>)
        ensures
            if views(self.credential_refs@).contains(bookmark_id@) {
                is_chosen(r, own, legacy)
            } else {
                r is None
            },
    {
        if self.has_credential(bookmark_id) {
            choose_secret(own, legacy)
        } else {
            None
        }
    }

    /// Notes that no credential is stored for a connection any more.
    pub fn forget_credential(&mut self, bookmark_id: &str)
        requires
            old(self).wf(),
        ensures
            final(self).wf(),
            views(final(self).credential_refs@) == names_without(
                views(old(self).credential_refs@),
                bookmark_id@,
            ),
            is_marked(*old(self), *final(self), bookmark_id@, false),
            final(self).groups == old(self).groups,
            final(self).forwardings == old(self).forwardings,
            same_sessions(*old(self), *final(self)),
            same_records(*old(self), *final(self)),
    {
        proof {
            lemma_names_without(views(self.credential_refs@), bookmark_id@);
        }
        self.credential_refs = drop_name(&self.credential_refs, bookmark_id);
        self.mark(bookmark_id, false);
    }

    fn mark(&mut self, id: &str, mark: bool)
        requires
            old(self).bookmarks.wf(),
            old(self).sessions.wf(),
            old(self).panes.wf(),
            old(self).browsers.wf(),
            old(self).settings.wf(),
            mark == views(old(self).credential_refs@).contains(id@),
            forall|i: int|
                0 <= i < old(self).bookmarks.rows@.len() && (
                #[trigger] old(self).bookmarks.rows@[i]).id@ != id@
                    ==> old(self).bookmarks.rows@[i].has_saved_credential == views(
                    old(self).credential_refs@,
                ).contains(old(self).bookmarks.rows@[i].id@),
        ensures
            final(self).wf(),
            is_marked(*old(self), *final(self), id@, mark),
            final(self).credential_refs == old(self).credential_refs,
            final(self).groups == old(self).groups,
            final(self).forwardings == old(self).forwardings,
            same_sessions(*old(self), *final(self)),
            same_records(*old(self), *final(self)),
    {
        let ghost rows = self.bookmarks.rows@;
        let ghost refs = views(self.credential_refs@);
        proof {
            lemma_row_with(rows, id@);
        }
        let mut row = match self.bookmarks.get(id) {
            Some(row) => row.copy_row(),
            None => {
                assert(marks_agree(rows, refs));
                return ;
            },
        };
        let ghost found = row_with(rows, id@)->0;
        assert(row@ == found@);
        row.has_saved_credential = mark;
        proof {
            assert(row@.id == found@.id);
            lemma_with_row(rows, row);
            let after = with_row(rows, row);
            assert forall|i: int| 0 <= i < after.len() implies (
            #[trigger] after[i]).has_saved_credential == refs.contains(after[i].id@) by {
                if after[i] != row {
                    let k = choose|k: int| 0 <= k < rows.len() && rows[k] == after[i];
                    assert(rows[k].id@ != id@);
                }
            }
        }
        self.bookmarks.put(row);
    }

    /// Removes a connection and forgets its credential.
    pub fn remove_bookmark(&mut self, id: &str)
        requires
            old(self).wf(),
        ensures
            final(self).wf(),
            final(self).bookmarks.rows@ == without_row(old(self).bookmarks.rows@, id@),
            views(final(self).credential_refs@) == names_without(
                views(old(self).credential_refs@),
                id@,
            ),
            connection_removed(*old(self), *final(self), id@),
            final(self).groups == old(self).groups,
            final(self).forwardings == old(self).forwardings,
            same_sessions(*old(self), *final(self)),
            same_records(*old(self), *final(self)),
    {
        let ghost rows = self.bookmarks.rows@;
        let ghost refs = views(self.credential_refs@);
        proof {
            lemma_names_without(refs, id@);
            lemma_removed_row(rows, id@);
            let after = without_row(rows, id@);
            assert forall|i: int| 0 <= i < after.len() implies (
            #[trigger] after[i]).has_saved_credential == names_without(refs, id@).contains(
                after[i].id@,
            ) by {
                let k = choose|k: int| 0 <= k < rows.len() && rows[k] == after[i];
                assert(rows[k].has_saved_credential == refs.contains(rows[k].id@));
            }
        }
        self.credential_refs = drop_name(&self.credential_refs, id);
        self.bookmarks.remove(id);
    }

    /// Notes when a connection was used; nothing changes where there is none.
    pub fn mark_connected(&mut self, id: &str, now: &str)
        requires
            old(self).wf(),
        ensures
            final(self).wf(),
            final(self).credential_refs == old(self).credential_refs,
            final(self).groups == old(self).groups,
            final(self).forwardings == old(self).forwardings,
            same_sessions(*old(self), *final(self)),
            same_records(*old(self), *final(self)),
            match row_with(old(self).bookmarks.rows@, id@) {
                Some(row) => {
                    let stored = row_with(final(self).bookmarks.rows@, id@);
                    &&& stored is Some
                    &&& stored->0@ == (BookmarkView { last_connected_at: now@, ..row@ })
                    &&& final(self).bookmarks.rows@ == with_row(
                        old(self).bookmarks.rows@,
                        stored->0,
                    )
                },
                None => final(self).bookmarks == old(self).bookmarks,
            },
    {
        let ghost rows = self.bookmarks.rows@;
        proof {
            lemma_row_with(rows, id@);
        }
        let mut row = match self.bookmarks.get(id) {
            Some(row) => row.copy_row(),
            None => {
                return ;
            },
        };
        let ghost found = row_with(rows, id@)->0;
        assert(row@ == found@);
        row.last_connected_at = now.to_owned();
        proof {
            assert(row@.id == found@.id);
            assert(row@.has_saved_credential == found@.has_saved_credential);
            let k = choose|k: int| 0 <= k < rows.len() && rows[k] == found;
            assert(rows[k].has_saved_credential == views(self.credential_refs@).contains(
                rows[k].id@,
            ));
        }
        self.put_marked(row);
    }

    /// The key that is stored for a host.
    pub fn known_host(&self, host: &str, port: u16) -> (r: Option<String>)
        ensures
            opt_view(r) == host_key(self.known_hosts@, host@, port),
    {
        match host_place(&self.known_hosts, host, port) {
            Some(i) => Some(self.known_hosts[i].fingerprint.clone()),
            None => None,
        }
    }

    /// Stores the key of a host, in place of the one before.
    pub fn trust_host(&mut self, host: &str, port: u16, fingerprint: &str)
        requires
            old(self).wf(),
        ensures
            final(self).wf(),
            host_key(final(self).known_hosts@, host@, port) == Some(fingerprint@),
            forall|other: Seq<char>, at: u16|
                !(other == host@ && at == port) ==> #[trigger] host_key(
                    final(self).known_hosts@,
                    other,
                    at,
                ) == host_key(old(self).known_hosts@, other, at),
            same_connections(*old(self), *final(self)),
            same_sessions(*old(self), *final(self)),
            final(self).settings == old(self).settings,
            final(self).transfers == old(self).transfers,
            final(self).audit == old(self).audit,
    {
        let entry = KnownHostImportEntry {
            host: host.to_owned(),
            port,
            fingerprint: fingerprint.to_owned(),
        };
        let ghost list = self.known_hosts@;
        match host_place(&self.known_hosts, host, port) {
            Some(i) => {
                proof {
                    lemma_host_set(list, i as int, entry);
                }
                self.known_hosts.set(i, entry);
            },
            None => {
                proof {
                    lemma_host_added(list, entry);
                }
                self.known_hosts.push(entry);
            },
        }
    }

    /// A setting. Two of them are lists that the rules read.
    pub fn get_setting<'a>(&'a self, key: &str) -> (r: Option<StoredSetting<'a>>)
        requires
            self.wf(),
        ensures
            match r {
                Some(setting) => setting_of(*self, key@) == Some(setting@),
                None => setting_of(*self, key@) is None,
            },
    {
        if same(key, "bookmarkGroups") {
            return Some(StoredSetting::Groups(&self.groups));
        }
        if same(key, "portForwardProfiles") {
            return Some(StoredSetting::Forwardings(&self.forwardings));
        }
        match self.settings.get(key) {
            Some(value) => Some(StoredSetting::Text(value)),
            None => None,
        }
    }

    /// Stores a setting. The groups and the forwardings are settings too, and become what the value
    /// reads as.
    pub fn set_setting(&mut self, key: &str, value: SettingValue)
        requires
            old(self).wf(),
        ensures
            final(self).wf(),
            setting_stored(*old(self), *final(self), key@, value),
    {
        proof {
            reveal_strlit("bookmarkGroups");
            reveal_strlit("portForwardProfiles");
            assert("bookmarkGroups"@.len() != "portForwardProfiles"@.len());
        }
        if same(key, "bookmarkGroups") {
            self.groups = value.groups;
        } else if same(key, "portForwardProfiles") {
            self.forwardings = value.forwardings;
        } else {
            self.set_text(key, value.text);
        }
    }

    /// Stores the text of a setting that is no list.
    pub(crate) fn set_text(&mut self, key: &str, value: String)
        requires
            old(self).wf(),
            !is_list_key(key@),
        ensures
            final(self).wf(),
            final(self).settings@ == old(self).settings@.insert(key@, value),
            same_connections(*old(self), *final(self)),
            same_sessions(*old(self), *final(self)),
            final(self).known_hosts == old(self).known_hosts,
            final(self).audit == old(self).audit,
            final(self).transfers == old(self).transfers,
    {
        self.settings.insert(key.to_owned(), value);
    }

    /// Adds an entry to the audit. An id that is stored already is refused.
    pub fn append_control_audit(&mut self, record: ControlAuditRecord) -> (r: Result<(), String>)
        requires
            old(self).wf(),
        ensures
            final(self).wf(),
            r is Err == audit_has(old(self).audit@, record.id@),
            r is Err ==> r->Err_0@ == "UNIQUE constraint failed: control_audit.id"@
                && *final(self) == *old(self),
            r is Ok ==> final(self).audit@ == old(self).audit@.push(record),
            same_connections(*old(self), *final(self)),
            same_sessions(*old(self), *final(self)),
            final(self).known_hosts == old(self).known_hosts,
            final(self).settings == old(self).settings,
            final(self).transfers == old(self).transfers,
    {
        let mut i: usize = 0;
        while i < self.audit.len()
            invariant
                *self == *old(self),
                self.wf(),
                i <= self.audit@.len(),
                forall|k: int| 0 <= k < i ==> (#[trigger] self.audit@[k]).id@ != record.id@,
            decreases self.audit@.len() - i,
        {
            if same(self.audit[i].id.as_str(), record.id.as_str()) {
                assert(audit_has(self.audit@, record.id@));
                return Err("UNIQUE constraint failed: control_audit.id".to_owned());
            }
            i = i + 1;
        }
        self.audit.push(record);
        Ok(())
    }

    /// The newest entries of the audit.
    pub fn list_control_audit(&self, limit: usize) -> (r: Vec<ControlAuditRecord>)
        ensures
            ({
                let all = newest_first(audit_views(self.audit@));
                audit_views(r@) == (if all.len() <= audit_limit(limit) {
                    all
                } else {
                    all.take(audit_limit(limit))
                })
            }),
    {
        let mut list: Vec<ControlAuditRecord> = Vec::new();
        let ghost all = audit_views(self.audit@);
        let mut i: usize = 0;
        assert(audit_views(list@) =~= newest_first(all.take(0)));
        while i < self.audit.len()
            invariant
                i <= self.audit@.len(),
                all == audit_views(self.audit@),
                audit_views(list@) == newest_first(all.take(i as int)),
            decreases self.audit@.len() - i,
        {
            assert(all.take(i + 1).drop_last() =~= all.take(i as int));
            assert(all.take(i + 1).last() == self.audit@[i as int]@);
            insert_entry(&mut list, copy_record(&self.audit[i]));
            i = i + 1;
        }
        assert(all.take(i as int) =~= all);
        let most: usize = if limit < 1 {
            1
        } else if limit > 10_000 {
            10_000
        } else {
            limit
        };
        let ghost whole = list@;
        assert(audit_views(whole).len() == whole.len());
        if list.len() > most {
            list.truncate(most);
            assert(audit_views(list@) =~= audit_views(whole).take(most as int));
        }
        list
    }

    /// Empties the audit; says how many entries there were.
    pub fn clear_control_audit(&mut self) -> (r: usize)
        requires
            old(self).wf(),
        ensures
            final(self).wf(),
            r == old(self).audit@.len(),
            final(self).audit@.len() == 0,
            same_connections(*old(self), *final(self)),
            same_sessions(*old(self), *final(self)),
            final(self).known_hosts == old(self).known_hosts,
            final(self).settings == old(self).settings,
            final(self).transfers == old(self).transfers,
    {
        let count: usize = self.audit.len();
        self.audit = Vec::new();
        count
    }

    /// Removes the entries of the audit that are older than a moment; says how many there were.
    pub fn prune_control_audit_before(&mut self, cutoff: &str) -> (r: usize)
        requires
            old(self).wf(),
        ensures
            final(self).wf(),
            final(self).audit@ == kept_records(old(self).audit@, cutoff@),
            r == old(self).audit@.len() - final(self).audit@.len(),
            same_connections(*old(self), *final(self)),
            same_sessions(*old(self), *final(self)),
            final(self).known_hosts == old(self).known_hosts,
            final(self).settings == old(self).settings,
            final(self).transfers == old(self).transfers,
    {
        let ghost all = self.audit@;
        let ghost mut done: int = 0;
        let total: usize = self.audit.len();
        let mut removed: usize = 0;
        let mut i: usize = 0;
        assert(kept_records(all.take(0), cutoff@) + all.skip(0) =~= all);
        while i < self.audit.len()
            invariant
                all == old(self).audit@,
                old(self).wf(),
                same_connections(*old(self), *self),
                same_sessions(*old(self), *self),
                self.known_hosts == old(self).known_hosts,
                self.settings == old(self).settings,
                self.transfers == old(self).transfers,
                0 <= done <= all.len(),
                i == kept_records(all.take(done), cutoff@).len(),
                removed == done - i,
                total == all.len(),
                self.audit@ == kept_records(all.take(done), cutoff@) + all.skip(done),
            decreases all.len() - done,
        {
            let ghost kept = kept_records(all.take(done), cutoff@);
            assert(self.audit@[i as int] == all.skip(done)[0]);
            assert(all.take(done + 1).drop_last() =~= all.take(done));
            assert(all.take(done + 1).last() == all[done]);
            if is_before(self.audit[i].timestamp.as_str(), cutoff) {
                self.audit.remove(i);
                removed = removed + 1;
                assert((kept + all.skip(done)).remove(i as int) =~= kept + all.skip(done + 1));
            } else {
                assert(kept + all.skip(done) =~= kept.push(all[done]) + all.skip(done + 1));
                i = i + 1;
            }
            proof {
                done = done + 1;
            }
        }
        proof {
            assert(done == all.len());
            assert(all.take(done) =~= all);
            assert(kept_records(all, cutoff@) + all.skip(done) =~= kept_records(all, cutoff@));
        }
        removed
    }

    /// Removes the entries of the audit that are older than so many days, at least one, at a
    /// moment; says how many there were.
    pub fn prune_control_audit_at(&mut self, now: &str, retention_days: i64) -> (r: usize)
        requires
            old(self).wf(),
        ensures
            final(self).wf(),
            final(self).audit@ == kept_since(old(self).audit@, now@, at_least_one(retention_days)),
            r == old(self).audit@.len() - final(self).audit@.len(),
            same_connections(*old(self), *final(self)),
            same_sessions(*old(self), *final(self)),
            final(self).known_hosts == old(self).known_hosts,
            final(self).settings == old(self).settings,
            final(self).transfers == old(self).transfers,
    {
        let days: i64 = if retention_days < 1 {
            1
        } else {
            retention_days
        };
        match subtract_days(now, days) {
            Some(cutoff) => self.prune_control_audit_before(cutoff.as_str()),
            None => 0,
        }
    }

    /// Removes the entries of the audit that are older than so many days, at least one; says how
    /// many there were.
    pub fn prune_control_audit(&mut self, retention_days: i64) -> (r: usize)
        requires
            old(self).wf(),
        ensures
            final(self).wf(),
            exists|now: Seq<char>|
                final(self).audit@ == #[trigger] kept_since(
                    old(self).audit@,
                    now,
                    at_least_one(retention_days),
                ),
            r == old(self).audit@.len() - final(self).audit@.len(),
            same_connections(*old(self), *final(self)),
            same_sessions(*old(self), *final(self)),
            final(self).known_hosts == old(self).known_hosts,
            final(self).settings == old(self).settings,
            final(self).transfers == old(self).transfers,
    {
        let now = now_rfc3339();
        self.prune_control_audit_at(now.as_str(), retention_days)
    }
}

proof fn lemma_push_contains(list: Seq<Seq<char>>, added: Seq<char>, s: Seq<char>)
    ensures
        list.push(added).contains(s) == (list.contains(s) || s == added),
{
    let whole = list.push(added);
    if list.contains(s) {
        let k = choose|k: int| 0 <= k < list.len() && list[k] == s;
        assert(whole[k] == s);
    }
    if s == added {
        assert(whole[list.len() as int] == s);
    }
    if whole.contains(s) && s != added {
        let k = choose|k: int| 0 <= k < whole.len() && whole[k] == s;
        assert(list[k] == s);
    }
}

proof fn lemma_host_set(list: Seq<KnownHostImportEntry>, i: int, entry: KnownHostImportEntry)
    requires
        0 <= i < list.len(),
        list[i].host@ == entry.host@,
        list[i].port == entry.port,
        forall|k: int|
            0 <= k < i ==> !((#[trigger] list[k]).host@ == entry.host@ && list[k].port
                == entry.port),
    ensures
        host_key(list.update(i, entry), entry.host@, entry.port) == Some(entry.fingerprint@),
        forall|host: Seq<char>, port: u16|
            !(host == entry.host@ && port == entry.port) ==> #[trigger] host_key(
                list.update(i, entry),
                host,
                port,
            ) == host_key(list, host, port),
    decreases list.len(),
{
    let changed = list.update(i, entry);
    if i == 0 {
        assert(changed.skip(1) =~= list.skip(1));
    } else {
        assert(changed[0] == list[0]);
        assert forall|k: int| 0 <= k < i - 1 implies !((#[trigger] list.skip(1)[k]).host@
            == entry.host@ && list.skip(1)[k].port == entry.port) by {
            assert(list[k + 1] == list.skip(1)[k]);
        }
        lemma_host_set(list.skip(1), i - 1, entry);
        assert(changed.skip(1) =~= list.skip(1).update(i - 1, entry));
    }
    assert forall|host: Seq<char>, port: u16|
        !(host == entry.host@ && port == entry.port) implies #[trigger] host_key(
        changed,
        host,
        port,
    ) == host_key(list, host, port) by {
        if i > 0 {
            assert(host_key(list.skip(1).update(i - 1, entry), host, port) == host_key(
                list.skip(1),
                host,
                port,
            ));
        }
    }
}

proof fn lemma_host_added(list: Seq<KnownHostImportEntry>, entry: KnownHostImportEntry)
    requires
        forall|k: int|
            0 <= k < list.len() ==> !((#[trigger] list[k]).host@ == entry.host@ && list[k].port
                == entry.port),
    ensures
        host_key(list.push(entry), entry.host@, entry.port) == Some(entry.fingerprint@),
        forall|host: Seq<char>, port: u16|
            !(host == entry.host@ && port == entry.port) ==> #[trigger] host_key(
                list.push(entry),
                host,
                port,
            ) == host_key(list, host, port),
    decreases list.len(),
{
    let changed = list.push(entry);
    if list.len() == 0 {
        assert(changed[0] == entry);
        assert(changed.skip(1) =~= list);
    } else {
        assert(changed[0] == list[0]);
        assert forall|k: int| 0 <= k < list.len() - 1 implies !((
        #[trigger] list.skip(1)[k]).host@ == entry.host@ && list.skip(1)[k].port
            == entry.port) by {
            assert(list[k + 1] == list.skip(1)[k]);
        }
        lemma_host_added(list.skip(1), entry);
        assert(changed.skip(1) =~= list.skip(1).push(entry));
    }
    assert forall|host: Seq<char>, port: u16|
        !(host == entry.host@ && port == entry.port) implies #[trigger] host_key(
        changed,
        host,
        port,
    ) == host_key(list, host, port) by {
        if list.len() > 0 {
            assert(host_key(list.skip(1).push(entry), host, port) == host_key(
                list.skip(1),
                host,
                port,
            ));
        } else {
            assert(host_key(changed.skip(1), host, port) == host_key(list, host, port));
        }
    }
}

/// The entries of the audit have different ids.
pub open spec fn audit_ids_differ(records: Seq<ControlAuditRecord>) -> bool {
    forall|i: int, j: int|
        0 <= i < j < records.len() ==> (#[trigger] records[i]).id@ != (#[trigger] records[j]).id@
}

/// The audit never holds two entries with one id: what is added has a new one, and pruning adds
/// none.
pub proof fn law_audit_ids_stay_distinct(
    records: Seq<ControlAuditRecord>,
    record: ControlAuditRecord,
    cutoff: Seq<char>,
)
    requires
        audit_ids_differ(records),
    ensures
        !audit_has(records, record.id@) ==> audit_ids_differ(records.push(record)),
        audit_ids_differ(kept_records(records, cutoff)),
    decreases records.len(),
{
    if records.len() > 0 {
        let head = records.drop_last();
        assert forall|i: int, j: int| 0 <= i < j < head.len() implies (#[trigger] head[i]).id@ != (
        #[trigger] head[j]).id@ by {
            assert(records[i] == head[i] && records[j] == head[j]);
        }
        law_audit_ids_stay_distinct(head, record, cutoff);
        lemma_kept_are_stored(head, cutoff);
        let rest = kept_records(head, cutoff);
        let whole = kept_records(records, cutoff);
        assert forall|i: int, j: int| 0 <= i < j < whole.len() implies (#[trigger] whole[i]).id@
            != (#[trigger] whole[j]).id@ by {
            assert(whole[i] == rest[i]);
            if j < rest.len() {
                assert(whole[j] == rest[j]);
            } else {
                assert(head.contains(rest[i]));
                let m = choose|m: int| 0 <= m < head.len() && head[m] == rest[i];
                assert(records[m] == head[m]);
                assert(whole[j] == records[records.len() - 1]);
            }
        }
    }
    let more = records.push(record);
    if !audit_has(records, record.id@) {
        assert forall|i: int, j: int| 0 <= i < j < more.len() implies (#[trigger] more[i]).id@ != (
        #[trigger] more[j]).id@ by {
            assert(more[i] == records[i]);
            if j < records.len() {
                assert(more[j] == records[j]);
            }
        }
    }
}

proof fn lemma_kept_are_stored(records: Seq<ControlAuditRecord>, cutoff: Seq<char>)
    ensures
        forall|k: int|
            0 <= k < kept_records(records, cutoff).len() ==> records.contains(
                #[trigger] kept_records(records, cutoff)[k],
            ),
    decreases records.len(),
{
    if records.len() > 0 {
        let head = records.drop_last();
        let rest = kept_records(head, cutoff);
        let whole = kept_records(records, cutoff);
        lemma_kept_are_stored(head, cutoff);
        assert forall|k: int| 0 <= k < whole.len() implies records.contains(
            #[trigger] whole[k],
        ) by {
            if k < rest.len() {
                assert(whole[k] == rest[k]);
                let m = choose|m: int| 0 <= m < head.len() && head[m] == rest[k];
                assert(records[m] == rest[k]);
            } else {
                assert(records[records.len() - 1] == whole[k]);
            }
        }
    }
}

/// No entry of the audit that is young enough is lost, and none that is too old is left.
pub proof fn law_pruning_removes_only_old_entries(
    records: Seq<ControlAuditRecord>,
    cutoff: Seq<char>,
)
    ensures
        forall|k: int|
            0 <= k < records.len() && !before((#[trigger] records[k]).timestamp@, cutoff)
                ==> kept_records(records, cutoff).contains(records[k]),
        forall|k: int|
            0 <= k < kept_records(records, cutoff).len() ==> !before(
                (#[trigger] kept_records(records, cutoff)[k]).timestamp@,
                cutoff,
            ),
    decreases records.len(),
{
    if records.len() > 0 {
        let head = records.drop_last();
        let rest = kept_records(head, cutoff);
        let whole = kept_records(records, cutoff);
        law_pruning_removes_only_old_entries(head, cutoff);
        assert forall|k: int|
            0 <= k < records.len() && !before(
                (#[trigger] records[k]).timestamp@,
                cutoff,
            ) implies whole.contains(records[k]) by {
            if k < head.len() {
                assert(head[k] == records[k]);
                let m = choose|m: int| 0 <= m < rest.len() && rest[m] == records[k];
                assert(whole[m] == records[k]);
            } else {
                assert(whole[rest.len() as int] == records[k]);
            }
        }
        assert forall|k: int| 0 <= k < whole.len() implies !before(
            (#[trigger] whole[k]).timestamp@,
            cutoff,
        ) by {
            if k < rest.len() {
                assert(whole[k] == rest[k]);
            }
        }
    }
}

/// No entry comes in front of a newer one.
pub open spec fn is_newest_first(list: Seq<AuditView>) -> bool {
    forall|i: int, j: int|
        0 <= i < j < list.len() ==> !before(
            (#[trigger] list[i]).timestamp,
            (#[trigger] list[j]).timestamp,
        )
}

proof fn lemma_with_entry(list: Seq<AuditView>, entry: AuditView)
    requires
        is_newest_first(list),
    ensures
        is_newest_first(with_entry(list, entry)),
        with_entry(list, entry).to_multiset() == list.to_multiset().insert(entry),
        with_entry(list, entry).len() == list.len() + 1,
        forall|k: int|
            0 <= k < with_entry(list, entry).len() ==> (#[trigger] with_entry(list, entry)[k])
                == entry || list.contains(with_entry(list, entry)[k]),
    decreases list.len(),
{
    broadcast use vstd::seq_lib::group_to_multiset_ensures;

    let whole = with_entry(list, entry);
    if list.len() == 0 {
        assert(whole =~= list.push(entry));
        assert(whole.to_multiset() =~= list.to_multiset().insert(entry));
    } else if before(list[0].timestamp, entry.timestamp) {
        assert(whole =~= list.insert(0, entry));
        vstd::seq_lib::to_multiset_insert(list, 0, entry);
        assert forall|i: int, j: int| 0 <= i < j < whole.len() implies !before(
            (#[trigger] whole[i]).timestamp,
            (#[trigger] whole[j]).timestamp,
        ) by {
            assert(whole[j] == list[j - 1]);
            if i == 0 {
                lemma_before_total(list[0].timestamp, entry.timestamp);
                if before(entry.timestamp, list[j - 1].timestamp) {
                    lemma_before_transitive(
                        list[0].timestamp,
                        entry.timestamp,
                        list[j - 1].timestamp,
                    );
                    assert(j - 1 == 0 || !before(list[0].timestamp, list[j - 1].timestamp));
                    lemma_before_total(list[0].timestamp, list[0].timestamp);
                }
            } else {
                assert(whole[i] == list[i - 1]);
            }
        }
        assert forall|k: int| 0 <= k < whole.len() implies (#[trigger] whole[k]) == entry
            || list.contains(whole[k]) by {
            if k > 0 {
                assert(whole[k] == list[k - 1]);
            }
        }
    } else {
        let rest = list.skip(1);
        let tail = with_entry(rest, entry);
        assert forall|i: int, j: int| 0 <= i < j < rest.len() implies !before(
            (#[trigger] rest[i]).timestamp,
            (#[trigger] rest[j]).timestamp,
        ) by {
            assert(rest[i] == list[i + 1] && rest[j] == list[j + 1]);
        }
        lemma_with_entry(rest, entry);
        assert forall|i: int, j: int| 0 <= i < j < whole.len() implies !before(
            (#[trigger] whole[i]).timestamp,
            (#[trigger] whole[j]).timestamp,
        ) by {
            assert(whole[j] == tail[j - 1]);
            if i == 0 {
                if tail[j - 1] != entry {
                    let m = choose|m: int| 0 <= m < rest.len() && rest[m] == tail[j - 1];
                    assert(rest[m] == list[m + 1]);
                }
            } else {
                assert(whole[i] == tail[i - 1]);
            }
        }
        assert forall|k: int| 0 <= k < whole.len() implies (#[trigger] whole[k]) == entry
            || list.contains(whole[k]) by {
            if k == 0 {
                assert(whole[k] == list[0]);
            } else if whole[k] != entry {
                assert(whole[k] == tail[k - 1]);
                let m = choose|m: int| 0 <= m < rest.len() && rest[m] == tail[k - 1];
                assert(list[m + 1] == rest[m]);
            }
        }
        assert(whole =~= tail.insert(0, list[0]));
        assert(list =~= rest.insert(0, list[0]));
        vstd::seq_lib::to_multiset_insert(tail, 0, list[0]);
        vstd::seq_lib::to_multiset_insert(rest, 0, list[0]);
        assert(whole.to_multiset() =~= list.to_multiset().insert(entry));
    }
}

/// The list of the audit holds every entry, newest first.
pub proof fn law_audit_is_listed_newest_first(records: Seq<AuditView>)
    ensures
        is_newest_first(newest_first(records)),
        newest_first(records).to_multiset() == records.to_multiset(),
    decreases records.len(),
{
    broadcast use vstd::seq_lib::group_to_multiset_ensures;

    if records.len() > 0 {
        law_audit_is_listed_newest_first(records.drop_last());
        lemma_with_entry(newest_first(records.drop_last()), records.last());
        assert(records.drop_last().push(records.last()) =~= records);
    }
}

/// A setting is read back as it was stored, under the keys of the two lists as under any other, and
/// every other setting stays what it was.
pub proof fn law_settings_read_back(
    before: Database,
    after: Database,
    key: Seq<char>,
    value: SettingValue,
    other: Seq<char>,
)
    requires
        setting_stored(before, after, key, value),
    ensures
        setting_of(after, key) == Some(stored_as(key, value)),
        other != key ==> setting_of(after, other) == setting_of(before, other),
{
    reveal_strlit("bookmarkGroups");
    reveal_strlit("portForwardProfiles");
    assert("bookmarkGroups"@.len() != "portForwardProfiles"@.len());
}

/// The secret of a connection is taken from its own place; one from the old place stands in where
/// there is none, and is kept in the new place from then on. An empty secret is none.
pub proof fn law_own_secrets_go_first(
    r: Option<FoundSecret>,
    own: Option<String>,
    legacy: Option<String>,
)
    requires
        is_chosen(r, own, legacy),
    ensures
        own is Some && own->0@.len() > 0 ==> r is Some && r->0.secret@ == own->0@ && !r->0.keep,
        (own is None || own->0@.len() == 0) && legacy is Some && legacy->0@.len() > 0 ==> r is Some
            && r->0.secret@ == legacy->0@ && r->0.keep,
        (own is None || own->0@.len() == 0) && (legacy is None || legacy->0@.len() == 0) ==> r
            is None,
{
}

/// Marking a connection changes its mark and nothing else of it, and no other connection.
pub proof fn law_marks_change_nothing_else(
    before: Database,
    after: Database,
    id: Seq<char>,
    mark: bool,
    other: Seq<char>,
)
    requires
        before.wf(),
        is_marked(before, after, id, mark),
    ensures
        row_with(before.bookmarks.rows@, id) matches Some(row) ==> {
            let b = row_with(after.bookmarks.rows@, id)->0@;
            &&& b.has_saved_credential == mark
            &&& b.id == row.id@ && b.name == row.name@ && b.host == row.host@ && b.port == row.port
            &&& b.username == row.username@ && b.auth_type == row.auth_type
            &&& b.group_name == row.group_name@ && b.sort_order == row.sort_order
            &&& b.created_at == row.created_at@ && b.updated_at == row.updated_at@
        },
        other != id ==> row_with(after.bookmarks.rows@, other) == row_with(
            before.bookmarks.rows@,
            other,
        ),
{
    match row_with(before.bookmarks.rows@, id) {
        Some(row) => {
            let stored = row_with(after.bookmarks.rows@, id)->0;
            lemma_row_with(after.bookmarks.rows@, id);
            lemma_with_row(before.bookmarks.rows@, stored);
        },
        None => {},
    }
}

/// The audit is listed up to the number that was asked for, held within 1 and 10000; it is kept for a
/// day at least.
pub proof fn law_audit_lists_are_held_in_bounds(limit: usize, days: i64)
    ensures
        1 <= audit_limit(limit) <= 10_000,
        1 <= limit <= 10_000 ==> audit_limit(limit) == limit,
        limit > 10_000 ==> audit_limit(limit) == 10_000,
        days >= 1 ==> at_least_one(days) == days,
        days < 1 ==> at_least_one(days) == 1,
{
}

/// A connection was removed with its credential.
pub open spec fn connection_removed(before: Database, after: Database, id: Seq<char>) -> bool {
    &&& after.bookmarks.rows@ == without_row(before.bookmarks.rows@, id)
    &&& views(after.credential_refs@) == names_without(views(before.credential_refs@), id)
}

/// A removed connection is not found any more, nor its credential; every other one is, as it was.
pub proof fn law_removed_connections_are_gone(
    before: Database,
    after: Database,
    id: Seq<char>,
    other: Seq<char>,
)
    requires
        before.wf(),
        connection_removed(before, after, id),
    ensures
        row_with(after.bookmarks.rows@, id) is None,
        !views(after.credential_refs@).contains(id),
        other != id ==> row_with(after.bookmarks.rows@, other) == row_with(
            before.bookmarks.rows@,
            other,
        ),
        other != id ==> (views(after.credential_refs@).contains(other) <==> views(
            before.credential_refs@,
        ).contains(other)),
{
    lemma_removed_row(before.bookmarks.rows@, id);
    lemma_names_without(views(before.credential_refs@), id);
}

/// The host key that is found is that of the first entry for the host and the port.
pub proof fn law_host_keys_belong_to_host_and_port(
    list: Seq<KnownHostImportEntry>,
    host: Seq<char>,
    port: u16,
)
    ensures
        match host_key(list, host, port) {
            Some(key) => exists|i: int|
                0 <= i < list.len() && (#[trigger] list[i]).host@ == host && list[i].port == port
                    && list[i].fingerprint@ == key,
            None => forall|i: int|
                0 <= i < list.len() ==> (#[trigger] list[i]).host@ != host || list[i].port != port,
        },
    decreases list.len(),
{
    if list.len() > 0 {
        let rest = list.skip(1);
        law_host_keys_belong_to_host_and_port(rest, host, port);
        assert forall|i: int| 0 <= i < rest.len() implies #[trigger] rest[i] == list[i + 1] by {}
        if !(list[0].host@ == host && list[0].port == port) {
            match host_key(rest, host, port) {
                Some(key) => {
                    let i = choose|i: int|
                        0 <= i < rest.len() && (#[trigger] rest[i]).host@ == host && rest[i].port
                            == port && rest[i].fingerprint@ == key;
                    assert(list[i + 1].host@ == host);
                },
                None => {
                    assert forall|i: int| 0 <= i < list.len() implies (#[trigger] list[i]).host@
                        != host || list[i].port != port by {
                        if i > 0 {
                            assert(rest[i - 1] == list[i]);
                        }
                    }
                },
            }
        }
    }
}

/// The audit is kept from the moment on that lies as many days back as asked; where that moment cannot
/// be told, all of it is kept.
pub proof fn law_audit_is_kept_since_a_moment(
    records: Seq<ControlAuditRecord>,
    now: Seq<char>,
    days: i64,
    record: ControlAuditRecord,
)
    requires
        records.contains(record),
    ensures
        days_before(now, days) is None ==> kept_since(records, now, days) == records,
        days_before(now, days) matches Some(cutoff) ==> (kept_since(records, now, days).contains(
            record,
        ) <==> !before(record.timestamp@, cutoff)),
{
    match days_before(now, days) {
        Some(cutoff) => {
            law_pruning_removes_only_old_entries(records, cutoff);
            let k = choose|k: int| 0 <= k < records.len() && records[k] == record;
            assert(records[k] == record);
            let kept = kept_records(records, cutoff);
            if kept.contains(record) {
                let m = choose|m: int| 0 <= m < kept.len() && kept[m] == record;
                assert(!before(kept[m].timestamp@, cutoff));
            }
        },
        None => {},
    }
}

} // verus!
