//! Taking connections over into the stored ones.
use vstd::prelude::*;
use vstd::string::*;

use crate::bookmarks::Bookmark;
use crate::clock::now_rfc3339;
use crate::database::{same_connections, same_records, same_sessions, Database};
use crate::local_pty::texts;
use crate::remote_import::{
    all_uuids, are_imported_forms, copy_profile, count_new, entry_ids, forwarding_view,
    forwarding_views, is_archive_import, is_portable, is_snapshot_import, lemma_mapped, mapped,
    merged_groups, prepare_archive_import, prepare_archive_import_with, prepare_snapshot_import,
    stored_host, BookmarkArchiveEntry, BookmarkArchiveImport, KnownHostImportEntry,
    LunaRemoteImportResult, LunaRemoteSnapshot, PortForwardProfile, PortableSettingEntry,
    RemoteImportOptions, SnapshotImport,
};
use crate::rows::{BookmarkView};
use crate::saved_connections::shown_groups;
use crate::stored_records::{host_key, is_list_key};
use crate::table::{
    ids_once, in_order, lemma_row_with, lemma_with_row, next_order, row_with, with_row, Row,
};
use crate::text::{copy_list, list_has, push_text, same, trim, views};

verus! {

/// The rows once others were saved, one after the other.
pub open spec fn with_rows(rows: Seq<Bookmark>, added: Seq<Bookmark>) -> Seq<Bookmark>
    decreases added.len(),
{
    if added.len() == 0 {
        rows
    } else {
        with_row(with_rows(rows, added.drop_last()), added.last())
    }
}

/// The credential marks once the imported rows were saved: each row whose entry is one of the
/// sources has a credential.
pub open spec fn imported_refs(
    refs: Seq<Seq<char>>,
    rows: Seq<Bookmark>,
    entries: Seq<BookmarkArchiveEntry>,
    sources: Seq<Seq<char>>,
) -> Seq<Seq<char>>
    decreases rows.len(),
{
    if rows.len() == 0 {
        refs
    } else {
        let rest = imported_refs(refs, rows.drop_last(), entries, sources);
        let id = rows.last().id@;
        if sources.contains(entries[rows.len() - 1].id@) && !rest.contains(id) {
            rest.push(id)
        } else {
            rest
        }
    }
}

/// The stored rows are the imported ones, each with the mark of its credential.
pub open spec fn are_stored_as(
    stored: Seq<Bookmark>,
    rows: Seq<Bookmark>,
    refs: Seq<Seq<char>>,
    entries: Seq<BookmarkArchiveEntry>,
    sources: Seq<Seq<char>>,
) -> bool {
    &&& stored.len() == rows.len()
    &&& forall|i: int|
        0 <= i < rows.len() ==> (#[trigger] stored[i])@ == (BookmarkView {
            has_saved_credential: imported_refs(refs, rows.take(i + 1), entries, sources).contains(
                rows[i].id@,
            ),
            ..rows[i]@
        })
}

/// The imported rows were saved.
pub open spec fn rows_imported(
    before: Database,
    after: Database,
    rows: Seq<Bookmark>,
    entries: Seq<BookmarkArchiveEntry>,
    sources: Seq<Seq<char>>,
) -> bool {
    &&& views(after.credential_refs@) == imported_refs(
        views(before.credential_refs@),
        rows,
        entries,
        sources,
    )
    &&& exists|stored: Seq<Bookmark>|
        are_stored_as(stored, rows, views(before.credential_refs@), entries, sources)
            && after.bookmarks.rows@ == #[trigger] with_rows(before.bookmarks.rows@, stored)
}

/// A new connection has an id that is stored already, or one that another new one has.
pub open spec fn ids_clash(rows: Seq<Bookmark>, added: Seq<Bookmark>) -> bool {
    ||| exists|i: int|
        0 <= i < added.len() && row_with(rows, (#[trigger] added[i]).id@) is Some
    ||| exists|i: int, j: int|
        0 <= i < j < added.len() && (#[trigger] added[i]).id@ == (#[trigger] added[j]).id@
}

/// The ids are different, and none of them is stored.
pub open spec fn are_new(rows: Seq<Bookmark>, ids: Seq<Seq<char>>) -> bool {
    ids.no_duplicates() && forall|i: int|
        0 <= i < ids.len() ==> row_with(rows, #[trigger] ids[i]) is None
}

/// How much of an archive was taken over.
#[derive(Clone, Copy, Debug, PartialEq, Eq, Structural)]
pub struct BookmarkArchiveImportResult {
    pub imported_connections: usize,
    pub imported_groups: usize,
}

/// An archive was imported under the given new ids. Where these clash nothing is stored.
pub open spec fn archive_imported(
    before: Database,
    after: Database,
    import: BookmarkArchiveImport,
    entries: Seq<BookmarkArchiveEntry>,
    selected: Seq<Seq<char>>,
    fresh: Seq<Seq<char>>,
    now: Seq<char>,
    r: Result<BookmarkArchiveImportResult, String>,
) -> bool {
    &&& is_archive_import(
        import,
        entries,
        selected,
        shown_groups(before),
        fresh,
        next_order(before.bookmarks.rows@, ""@),
        now,
    )
    &&& if ids_clash(before.bookmarks.rows@, import.rows@) {
        r is Err && r->Err_0@ == "UNIQUE constraint failed: bookmarks.id"@ && after == before
    } else {
        &&& r is Ok
        &&& rows_imported(before, after, import.rows@, entries, Seq::empty())
        &&& views(after.groups@) == views(import.groups@)
        &&& r->Ok_0.imported_connections == entries.len()
        &&& r->Ok_0.imported_groups == import.imported_groups
        &&& after.forwardings == before.forwardings
        &&& same_sessions(before, after)
        &&& same_records(before, after)
    }
}

/// The key of a host once others were stored: the last one for the host counts.
pub open spec fn key_after(
    list: Seq<KnownHostImportEntry>,
    added: Seq<KnownHostImportEntry>,
    host: Seq<char>,
    port: u16,
) -> Option<Seq<char>>
    decreases added.len(),
{
    if added.len() == 0 {
        host_key(list, host, port)
    } else if trim(added.last().host@) == host && added.last().port == port {
        Some(trim(added.last().fingerprint@))
    } else {
        key_after(list, added.drop_last(), host, port)
    }
}

/// The settings once others were stored.
pub open spec fn settings_after(
    settings: Map<Seq<char>, Seq<char>>,
    added: Seq<PortableSettingEntry>,
) -> Map<Seq<char>, Seq<char>>
    decreases added.len(),
{
    if added.len() == 0 {
        settings
    } else {
        settings_after(settings, added.drop_last()).insert(added.last().key@, added.last().value@)
    }
}

/// A snapshot was imported.
pub open spec fn snapshot_imported(
    before: Database,
    after: Database,
    import: SnapshotImport,
    snapshot: LunaRemoteSnapshot,
    entries: Seq<BookmarkArchiveEntry>,
    options: RemoteImportOptions,
) -> bool {
    &&& rows_imported(before, after, import.rows@, entries, views(import.credential_sources@))
    &&& views(after.groups@) == views(import.groups@)
    &&& forall|host: Seq<char>, port: u16| #[trigger]
        host_key(after.known_hosts@, host, port) == (if options.host_keys {
            key_after(before.known_hosts@, snapshot.known_hosts@, host, port)
        } else {
            host_key(before.known_hosts@, host, port)
        })
    &&& texts(after.settings@) == (if options.settings {
        settings_after(texts(before.settings@), snapshot.settings@)
    } else {
        texts(before.settings@)
    })
    &&& forwarding_views(after.forwardings@) == forwarding_views(import.forwarding_profiles@)
        + forwarding_views(before.forwardings@)
    &&& after.audit == before.audit
    &&& after.transfers == before.transfers
    &&& same_sessions(before, after)
}

impl Database {
    fn put_imported(&mut self, row: &Bookmark, credential: bool) -> (stored: Ghost<Bookmark>)
        requires
            old(self).wf(),
        ensures
            final(self).wf(),
            views(final(self).credential_refs@) == (if credential && !views(
                old(self).credential_refs@,
            ).contains(row.id@) {
                views(old(self).credential_refs@).push(row.id@)
            } else {
                views(old(self).credential_refs@)
            }),
            final(self).bookmarks.rows@ == with_row(old(self).bookmarks.rows@, stored@),
            stored@@ == (BookmarkView {
                has_saved_credential: views(final(self).credential_refs@).contains(row.id@),
                ..row@
            }),
            final(self).groups == old(self).groups,
            final(self).forwardings == old(self).forwardings,
            same_sessions(*old(self), *final(self)),
            same_records(*old(self), *final(self)),
    {
        let ghost rows = self.bookmarks.rows@;
        let ghost refs = views(self.credential_refs@);
        if credential && !list_has(&self.credential_refs, row.id.as_str()) {
            push_text(&mut self.credential_refs, row.id.clone());
        }
        let ghost now_refs = views(self.credential_refs@);
        assert forall|s: Seq<char>| s != row.id@ implies #[trigger] now_refs.contains(s)
            == refs.contains(s) by {
            if refs.contains(s) {
                let k = choose|k: int| 0 <= k < refs.len() && refs[k] == s;
                assert(now_refs[k] == s);
            }
            if now_refs.contains(s) {
                let k = choose|k: int| 0 <= k < now_refs.len() && now_refs[k] == s;
                assert(k < refs.len() && refs[k] == s);
            }
        }
        let mut copy = row.copy_row();
        assert(copy@.id == row@.id);
        copy.has_saved_credential = list_has(&self.credential_refs, row.id.as_str());
        let ghost added = copy;
        proof {
            lemma_with_row(rows, copy);
            let after = with_row(rows, copy);
            assert forall|i: int| 0 <= i < after.len() implies (
            #[trigger] after[i]).has_saved_credential == now_refs.contains(after[i].id@) by {
                if after[i] != copy {
                    let k = choose|k: int| 0 <= k < rows.len() && rows[k] == after[i];
                    assert(rows[k].has_saved_credential == refs.contains(rows[k].id@));
                }
            }
        }
        self.bookmarks.put(copy);
        Ghost(added)
    }

    fn put_all(
        &mut self,
        rows: &[Bookmark],
        entries: &[BookmarkArchiveEntry],
        sources: &[String],
    )
        requires
            old(self).wf(),
            rows@.len() == entries@.len(),
        ensures
            final(self).wf(),
            rows_imported(*old(self), *final(self), rows@, entries@, views(sources@)),
            final(self).groups == old(self).groups,
            final(self).forwardings == old(self).forwardings,
            same_sessions(*old(self), *final(self)),
            same_records(*old(self), *final(self)),
    {
        let ghost start = self.bookmarks.rows@;
        let ghost refs = views(self.credential_refs@);
        let ghost mut stored: Seq<Bookmark> = Seq::empty();
        let mut i: usize = 0;
        assert(rows@.take(0) =~= Seq::empty());
        while i < rows.len()
            invariant
                self.wf(),
                rows@.len() == entries@.len(),
                start == old(self).bookmarks.rows@,
                refs == views(old(self).credential_refs@),
                i <= rows@.len(),
                stored.len() == i,
                self.groups == old(self).groups,
                self.forwardings == old(self).forwardings,
                same_sessions(*old(self), *self),
                same_records(*old(self), *self),
                self.bookmarks.rows@ == with_rows(start, stored),
                views(self.credential_refs@) == imported_refs(
                    refs,
                    rows@.take(i as int),
                    entries@,
                    views(sources@),
                ),
                forall|k: int|
                    0 <= k < i ==> (#[trigger] stored[k])@ == (BookmarkView {
                        has_saved_credential: imported_refs(
                            refs,
                            rows@.take(k + 1),
                            entries@,
                            views(sources@),
                        ).contains(rows@[k].id@),
                        ..rows@[k]@
                    }),
            decreases rows@.len() - i,
        {
            assert(rows@.take(i + 1).drop_last() =~= rows@.take(i as int));
            assert(rows@.take(i + 1).last() == rows@[i as int]);
            let credential = list_has(sources, entries[i].id.as_str());
            let added = self.put_imported(&rows[i], credential);
            proof {
                let grown = stored.push(added@);
                assert(grown.drop_last() =~= stored);
                stored = grown;
            }
            i = i + 1;
        }
        proof {
            assert(rows@.take(i as int) =~= rows@);
            assert(are_stored_as(stored, rows@, refs, entries@, views(sources@)));
        }
    }

    fn has_clash(&self, added: &[Bookmark]) -> (r: bool)
        requires
            self.wf(),
        ensures
            r == ids_clash(self.bookmarks.rows@, added@),
    {
        let mut i: usize = 0;
        while i < added.len()
            invariant
                self.wf(),
                i <= added@.len(),
                forall|k: int|
                    0 <= k < i ==> row_with(self.bookmarks.rows@, (#[trigger] added@[k]).id@)
                        is None,
                forall|k: int, m: int|
                    0 <= k < m < i ==> (#[trigger] added@[k]).id@ != (#[trigger] added@[m]).id@,
            decreases added@.len() - i,
        {
            if self.bookmarks.get(added[i].id.as_str()).is_some() {
                assert(row_with(self.bookmarks.rows@, added@[i as int].id@) is Some);
                return true;
            }
            let mut j: usize = 0;
            while j < i
                invariant
                    j <= i < added@.len(),
                    forall|k: int| 0 <= k < j ==> (#[trigger] added@[k]).id@ != added@[i as int].id@,
                decreases i - j,
            {
                if same(added[j].id.as_str(), added[i].id.as_str()) {
                    assert(added@[j as int].id@ == added@[i as int].id@);
                    return true;
                }
                j = j + 1;
            }
            i = i + 1;
        }
        false
    }

    /// Imports an archive under the given new ids.
    pub fn import_bookmark_archive_as(
        &mut self,
        entries: &[BookmarkArchiveEntry],
        selected_groups: &[String],
        fresh: &[String],
        now: &str,
    ) -> (r: Result<BookmarkArchiveImportResult, String>)
        requires
            old(self).wf(),
            fresh@.len() == entries@.len(),
            next_order(old(self).bookmarks.rows@, ""@) + entries@.len() <= i64::MAX,
        ensures
            final(self).wf(),
            exists|import: BookmarkArchiveImport| #[trigger]
                archive_imported(
                    *old(self),
                    *final(self),
                    import,
                    entries@,
                    views(selected_groups@),
                    views(fresh@),
                    now@,
                    r,
                ),
    {
        let shown = self.list_bookmark_groups();
        let first: i64 = match self.bookmarks.next_order("") {
            Some(order) => order,
            None => 0,
        };
        let import = prepare_archive_import_with(
            entries,
            selected_groups,
            &shown,
            fresh,
            first,
            now,
        );
        let r = self.apply_archive(&import, entries);
        assert(archive_imported(
            *old(self),
            *self,
            import,
            entries@,
            views(selected_groups@),
            views(fresh@),
            now@,
            r,
        ));
        r
    }

    /// Imports an archive under fresh ids.
    pub fn import_bookmark_archive(
        &mut self,
        entries: &[BookmarkArchiveEntry],
        selected_groups: &[String],
    ) -> (r: Result<BookmarkArchiveImportResult, String>)
        requires
            old(self).wf(),
            next_order(old(self).bookmarks.rows@, ""@) + entries@.len() <= i64::MAX,
        ensures
            final(self).wf(),
            exists|import: BookmarkArchiveImport, fresh: Seq<Seq<char>>, now: Seq<char>|
                fresh.len() == entries@.len() && all_uuids(fresh) && #[trigger] archive_imported(
                    *old(self),
                    *final(self),
                    import,
                    entries@,
                    views(selected_groups@),
                    fresh,
                    now,
                    r,
                ),
    {
        let shown = self.list_bookmark_groups();
        let first: i64 = match self.bookmarks.next_order("") {
            Some(order) => order,
            None => 0,
        };
        let now = now_rfc3339();
        let import = prepare_archive_import(
            entries,
            selected_groups,
            &shown,
            first,
            now.as_str(),
        );
        let ghost fresh = choose|fresh: Seq<Seq<char>>|
            fresh.len() == entries@.len() && all_uuids(fresh) && #[trigger] is_archive_import(
                import,
                entries@,
                views(selected_groups@),
                views(shown@),
                fresh,
                first as int,
                now@,
            );
        let r = self.apply_archive(&import, entries);
        assert(archive_imported(
            *old(self),
            *self,
            import,
            entries@,
            views(selected_groups@),
            fresh,
            now@,
            r,
        ));
        r
    }

    fn apply_archive(&mut self, import: &BookmarkArchiveImport, entries: &[BookmarkArchiveEntry]) -> (r:
        Result<BookmarkArchiveImportResult, String>)
        requires
            old(self).wf(),
            import.rows@.len() == entries@.len(),
        ensures
            final(self).wf(),
            if ids_clash(old(self).bookmarks.rows@, import.rows@) {
                &&& r is Err
                &&& r->Err_0@ == "UNIQUE constraint failed: bookmarks.id"@
                &&& *final(self) == *old(self)
            } else {
                &&& r is Ok
                &&& rows_imported(*old(self), *final(self), import.rows@, entries@, Seq::empty())
                &&& views(final(self).groups@) == views(import.groups@)
                &&& r->Ok_0.imported_connections == entries@.len()
                &&& r->Ok_0.imported_groups == import.imported_groups
                &&& final(self).forwardings == old(self).forwardings
                &&& same_sessions(*old(self), *final(self))
                &&& same_records(*old(self), *final(self))
            },
    {
        if self.has_clash(&import.rows) {
            return Err("UNIQUE constraint failed: bookmarks.id".to_owned());
        }
        let none: Vec<String> = Vec::new();
        assert(views(none@) =~= Seq::empty());
        self.put_all(&import.rows, entries, &none);
        self.groups = copy_list(&import.groups);
        Ok(
            BookmarkArchiveImportResult {
                imported_connections: entries.len(),
                imported_groups: import.imported_groups,
            },
        )
    }

    /// Prepares the import of a snapshot into the stored connections, under fresh ids: it is placed
    /// behind them, and its groups join theirs. `found` tells for each entry whether a secret for
    /// it could be read.
    pub fn prepare_luna_remote_import(
        &self,
        snapshot: &LunaRemoteSnapshot,
        entries: &[BookmarkArchiveEntry],
        selected_groups: &[String],
        options: RemoteImportOptions,
        found: &[bool],
        now: &str,
    ) -> (r: SnapshotImport)
        requires
            self.wf(),
            found@.len() == entries@.len(),
            next_order(self.bookmarks.rows@, ""@) + entries@.len() <= i64::MAX,
        ensures
            r.rows@.len() == entries@.len(),
            exists|fresh: Seq<Seq<char>>, fresh_profiles: Seq<Seq<char>>|
                fresh.len() == entries@.len() && fresh_profiles.len()
                    == snapshot.forwarding_profiles@.len() && all_uuids(fresh) && all_uuids(
                    fresh_profiles,
                ) && #[trigger] is_snapshot_import(
                    r,
                    *snapshot,
                    entries@,
                    views(selected_groups@),
                    options,
                    shown_groups(*self),
                    found@,
                    fresh,
                    fresh_profiles,
                    next_order(self.bookmarks.rows@, ""@),
                    now@,
                ),
    {
        let shown = self.list_bookmark_groups();
        let first: i64 = match self.bookmarks.next_order("") {
            Some(order) => order,
            None => 0,
        };
        prepare_snapshot_import(
            snapshot,
            entries,
            selected_groups,
            options,
            &shown,
            found,
            first,
            now,
        )
    }

    /// Stores what an import of a snapshot writes, once the secrets of its connections are kept.
    /// Where the new ids clash nothing is stored.
    pub fn import_luna_remote_snapshot(
        &mut self,
        import: &SnapshotImport,
        snapshot: &LunaRemoteSnapshot,
        entries: &[BookmarkArchiveEntry],
        options: RemoteImportOptions,
    ) -> (r: Result<LunaRemoteImportResult, String>)
        requires
            old(self).wf(),
            import.rows@.len() == entries@.len(),
            options.settings ==> is_portable(snapshot.settings@),
        ensures
            final(self).wf(),
            if ids_clash(old(self).bookmarks.rows@, import.rows@) {
                &&& r is Err
                &&& r->Err_0@ == "UNIQUE constraint failed: bookmarks.id"@
                &&& *final(self) == *old(self)
            } else {
                &&& r is Ok
                &&& r->Ok_0 == import.result
                &&& snapshot_imported(
                    *old(self),
                    *final(self),
                    *import,
                    *snapshot,
                    entries@,
                    options,
                )
            },
    {
        if self.has_clash(&import.rows) {
            return Err("UNIQUE constraint failed: bookmarks.id".to_owned());
        }
        self.put_all(&import.rows, entries, &import.credential_sources);
        self.groups = copy_list(&import.groups);
        if options.host_keys {
            self.trust_all(&snapshot.known_hosts);
        }
        if options.settings {
            self.set_all(&snapshot.settings);
        }
        self.put_forwardings(&import.forwarding_profiles);
        Ok(import.result)
    }

    fn trust_all(&mut self, added: &[KnownHostImportEntry])
        requires
            old(self).wf(),
        ensures
            final(self).wf(),
            forall|host: Seq<char>, port: u16| #[trigger]
                host_key(final(self).known_hosts@, host, port) == key_after(
                    old(self).known_hosts@,
                    added@,
                    host,
                    port,
                ),
            same_connections(*old(self), *final(self)),
            same_sessions(*old(self), *final(self)),
            final(self).settings == old(self).settings,
            final(self).audit == old(self).audit,
            final(self).transfers == old(self).transfers,
    {
        let mut i: usize = 0;
        while i < added.len()
            invariant
                self.wf(),
                i <= added@.len(),
                forall|host: Seq<char>, port: u16| #[trigger]
                    host_key(self.known_hosts@, host, port) == key_after(
                        old(self).known_hosts@,
                        added@.take(i as int),
                        host,
                        port,
                    ),
                same_connections(*old(self), *self),
                same_sessions(*old(self), *self),
                self.settings == old(self).settings,
                self.audit == old(self).audit,
                self.transfers == old(self).transfers,
            decreases added@.len() - i,
        {
            let ghost before = self.known_hosts@;
            assert(added@.take(i + 1).drop_last() =~= added@.take(i as int));
            assert(added@.take(i + 1).last() == added@[i as int]);
            let entry = stored_host(&added[i]);
            self.trust_host(entry.host.as_str(), entry.port, entry.fingerprint.as_str());
            assert forall|host: Seq<char>, port: u16| #[trigger]
                host_key(self.known_hosts@, host, port) == key_after(
                    old(self).known_hosts@,
                    added@.take(i + 1),
                    host,
                    port,
                ) by {
                assert(host_key(before, host, port) == key_after(
                    old(self).known_hosts@,
                    added@.take(i as int),
                    host,
                    port,
                ));
            }
            i = i + 1;
        }
        assert(added@.take(i as int) =~= added@);
    }

    fn set_all(&mut self, added: &[PortableSettingEntry])
        requires
            old(self).wf(),
            is_portable(added@),
        ensures
            final(self).wf(),
            texts(final(self).settings@) == settings_after(texts(old(self).settings@), added@),
            same_connections(*old(self), *final(self)),
            same_sessions(*old(self), *final(self)),
            final(self).known_hosts == old(self).known_hosts,
            final(self).audit == old(self).audit,
            final(self).transfers == old(self).transfers,
    {
        let mut i: usize = 0;
        while i < added.len()
            invariant
                self.wf(),
                is_portable(added@),
                i <= added@.len(),
                texts(self.settings@) == settings_after(
                    texts(old(self).settings@),
                    added@.take(i as int),
                ),
                same_connections(*old(self), *self),
                same_sessions(*old(self), *self),
                self.known_hosts == old(self).known_hosts,
                self.audit == old(self).audit,
                self.transfers == old(self).transfers,
            decreases added@.len() - i,
        {
            let ghost before = self.settings@;
            assert(added@.take(i + 1).drop_last() =~= added@.take(i as int));
            assert(added@.take(i + 1).last() == added@[i as int]);
            assert(!is_list_key(added@[i as int].key@));
            self.set_text(added[i].key.as_str(), added[i].value.clone());
            assert(texts(self.settings@) =~= texts(before).insert(
                added@[i as int].key@,
                added@[i as int].value@,
            ));
            i = i + 1;
        }
        assert(added@.take(i as int) =~= added@);
    }

    fn put_forwardings(&mut self, added: &[PortForwardProfile])
        requires
            old(self).wf(),
        ensures
            final(self).wf(),
            forwarding_views(final(self).forwardings@) == forwarding_views(added@)
                + forwarding_views(old(self).forwardings@),
            final(self).bookmarks == old(self).bookmarks,
            final(self).credential_refs == old(self).credential_refs,
            final(self).groups == old(self).groups,
            same_sessions(*old(self), *final(self)),
            same_records(*old(self), *final(self)),
    {
        let mut list: Vec<PortForwardProfile> = Vec::new();
        let mut i: usize = 0;
        while i < added.len()
            invariant
                i <= added@.len(),
                forwarding_views(list@) == forwarding_views(added@.take(i as int)),
            decreases added@.len() - i,
        {
            let ghost before = list@;
            list.push(copy_profile(&added[i]));
            assert(forwarding_views(list@) =~= forwarding_views(before).push(
                forwarding_view(added@[i as int]),
            ));
            assert(forwarding_views(added@.take(i + 1)) =~= forwarding_views(
                added@.take(i as int),
            ).push(forwarding_view(added@[i as int])));
            i = i + 1;
        }
        assert(added@.take(i as int) =~= added@);
        let ghost front = list@;
        let ghost own = self.forwardings@;
        list.append(&mut self.forwardings);
        assert(list@ =~= front + own);
        assert(forwarding_views(list@) =~= forwarding_views(front) + forwarding_views(own));
        self.forwardings = list;
    }
}

/// An import in which an id is repeated is refused; one without repeats is taken where the new ids
/// are different and new.
pub proof fn law_repeated_ids_are_refused(
    stored: Seq<Bookmark>,
    rows: Seq<Bookmark>,
    entries: Seq<BookmarkArchiveEntry>,
    fresh: Seq<Seq<char>>,
    first_sort_order: int,
    now: Seq<char>,
)
    requires
        are_imported_forms(rows, entries, fresh, first_sort_order, now),
        fresh.len() == entries.len(),
    ensures
        !entry_ids(entries).no_duplicates() ==> ids_clash(stored, rows),
        entry_ids(entries).no_duplicates() && are_new(stored, fresh) ==> !ids_clash(stored, rows),
{
    let ids = entry_ids(entries);
    assert forall|i: int| 0 <= i < rows.len() implies (#[trigger] rows[i]).id@ == mapped(
        ids,
        fresh,
        entries[i].id@,
    )->0 && ids[i] == entries[i].id@ by {}
    if ids.no_duplicates() {
        assert forall|i: int| 0 <= i < rows.len() implies (#[trigger] rows[i]).id@ == fresh[i] by {
            lemma_mapped(ids, fresh, i);
        }
        if are_new(stored, fresh) {
            assert forall|i: int| 0 <= i < rows.len() implies row_with(
                stored,
                (#[trigger] rows[i]).id@,
            ) is None by {
                assert(row_with(stored, fresh[i]) is None);
            }
        }
    } else {
        let (i, j) = choose|i: int, j: int|
            0 <= i < ids.len() && 0 <= j < ids.len() && i != j && #[trigger] ids[i]
                == #[trigger] ids[j];
        let a = if i < j {
            i
        } else {
            j
        };
        let b = if i < j {
            j
        } else {
            i
        };
        assert(rows[a].id@ == rows[b].id@);
    }
}

/// Of several keys for one host and port the last one counts; a host that is not among them keeps
/// the key it has.
pub proof fn law_the_last_host_key_counts(
    list: Seq<KnownHostImportEntry>,
    added: Seq<KnownHostImportEntry>,
    entry: KnownHostImportEntry,
    host: Seq<char>,
    port: u16,
)
    ensures
        key_after(list, added.push(entry), trim(entry.host@), entry.port) == Some(
            trim(entry.fingerprint@),
        ),
        host != trim(entry.host@) || port != entry.port ==> key_after(
            list,
            added.push(entry),
            host,
            port,
        ) == key_after(list, added, host, port),
        key_after(list, Seq::empty(), host, port) == host_key(list, host, port),
{
    assert(added.push(entry).drop_last() =~= added);
}

/// Of several values for one setting the last one counts; a setting that is not among them stays.
pub proof fn law_the_last_setting_counts(
    settings: Map<Seq<char>, Seq<char>>,
    added: Seq<PortableSettingEntry>,
    entry: PortableSettingEntry,
    key: Seq<char>,
)
    ensures
        settings_after(settings, added.push(entry)).dom().contains(entry.key@),
        settings_after(settings, added.push(entry))[entry.key@] == entry.value@,
        key != entry.key@ ==> (settings_after(settings, added.push(entry)).dom().contains(key)
            <==> settings_after(settings, added).dom().contains(key)),
        key != entry.key@ && settings_after(settings, added).dom().contains(key) ==> settings_after(
            settings,
            added.push(entry),
        )[key] == settings_after(settings, added)[key],
        settings_after(settings, Seq::empty()) == settings,
{
    assert(added.push(entry).drop_last() =~= added);
}

/// Host keys and settings stay as they are where they were not asked for, and so does everything
/// that has nothing to do with connections.
pub proof fn law_imports_touch_only_what_was_asked_for(
    before: Database,
    after: Database,
    import: SnapshotImport,
    snapshot: LunaRemoteSnapshot,
    entries: Seq<BookmarkArchiveEntry>,
    options: RemoteImportOptions,
    host: Seq<char>,
    port: u16,
)
    requires
        snapshot_imported(before, after, import, snapshot, entries, options),
    ensures
        !options.host_keys ==> host_key(after.known_hosts@, host, port) == host_key(
            before.known_hosts@,
            host,
            port,
        ),
        !options.settings ==> texts(after.settings@) == texts(before.settings@),
        after.audit == before.audit && after.transfers == before.transfers,
        after.sessions == before.sessions && after.panes == before.panes && after.browsers
            == before.browsers,
        views(after.groups@) == views(import.groups@),
        forwarding_views(after.forwardings@) == forwarding_views(import.forwarding_profiles@)
            + forwarding_views(before.forwardings@),
{
}

/// An import is refused exactly where an id is stored already or comes twice.
pub proof fn law_ids_clash_where_they_repeat(rows: Seq<Bookmark>, added: Seq<Bookmark>)
    requires
        ids_once(rows),
    ensures
        !ids_clash(rows, added) <==> (forall|i: int, k: int|
            0 <= i < added.len() && 0 <= k < rows.len() ==> (#[trigger] added[i]).id@ != (
            #[trigger] rows[k]).id@) && (forall|i: int, j: int|
            0 <= i < j < added.len() ==> (#[trigger] added[i]).id@ != (#[trigger] added[j]).id@),
{
    assert forall|k: int| 0 <= k < rows.len() implies (#[trigger] rows[k]).key_id()
        == rows[k].id@ by {}
    if !ids_clash(rows, added) {
        assert forall|i: int, k: int| 0 <= i < added.len() && 0 <= k < rows.len() implies (
        #[trigger] added[i]).id@ != (#[trigger] rows[k]).id@ by {
            assert(row_with(rows, added[i].id@) is None);
            lemma_row_with(rows, added[i].id@);
            assert(rows[k].key_id() != added[i].id@);
        }
    }
    if (forall|i: int, k: int|
        0 <= i < added.len() && 0 <= k < rows.len() ==> (#[trigger] added[i]).id@ != (
        #[trigger] rows[k]).id@) && (forall|i: int, j: int|
        0 <= i < j < added.len() ==> (#[trigger] added[i]).id@ != (#[trigger] added[j]).id@) {
        assert forall|i: int| 0 <= i < added.len() implies row_with(
            rows,
            (#[trigger] added[i]).id@,
        ) is None by {
            lemma_row_with(rows, added[i].id@);
            match row_with(rows, added[i].id@) {
                Some(row) => {
                    let k = choose|k: int| 0 <= k < rows.len() && rows[k] == row;
                    assert(rows[k].id@ == added[i].id@);
                },
                None => {},
            }
        }
    }
}

proof fn lemma_with_rows(rows: Seq<Bookmark>, added: Seq<Bookmark>)
    requires
        in_order(rows),
        ids_once(rows),
        forall|i: int, j: int|
            0 <= i < j < added.len() ==> (#[trigger] added[i]).id@ != (#[trigger] added[j]).id@,
    ensures
        in_order(with_rows(rows, added)),
        ids_once(with_rows(rows, added)),
        forall|i: int|
            0 <= i < added.len() ==> row_with(
                with_rows(rows, added),
                (#[trigger] added[i]).id@,
            ) == Some(added[i]),
        forall|id: Seq<char>|
            (forall|i: int| 0 <= i < added.len() ==> (#[trigger] added[i]).id@ != id) ==> (
            #[trigger] row_with(with_rows(rows, added), id)) == row_with(rows, id),
    decreases added.len(),
{
    if added.len() > 0 {
        let front = added.drop_last();
        let last = added.last();
        let rest = with_rows(rows, front);
        assert forall|i: int, j: int| 0 <= i < j < front.len() implies (#[trigger] front[i]).id@
            != (#[trigger] front[j]).id@ by {
            assert(added[i].id@ != added[j].id@);
        }
        lemma_with_rows(rows, front);
        lemma_with_row(rest, last);
        assert(last.key_id() == last.id@);
        let whole = with_rows(rows, added);
        assert forall|i: int| 0 <= i < added.len() implies row_with(
            whole,
            (#[trigger] added[i]).id@,
        ) == Some(added[i]) by {
            if i < front.len() {
                assert(front[i] == added[i]);
                assert(added[i].id@ != added[added.len() - 1].id@);
                assert(row_with(rest, front[i].id@) == Some(front[i]));
            }
        }
        assert forall|id: Seq<char>|
            (forall|i: int| 0 <= i < added.len() ==> (#[trigger] added[i]).id@ != id) implies (
        #[trigger] row_with(whole, id)) == row_with(rows, id) by {
            assert(added[added.len() - 1].id@ != id);
            assert forall|i: int| 0 <= i < front.len() implies (#[trigger] front[i]).id@ != id by {
                assert(added[i].id@ != id);
            }
            assert(row_with(rest, id) == row_with(rows, id));
        }
    }
}

/// Every connection that was imported is found under its id as it was imported, but for the mark of its
/// credential; every connection that was there before is found as it was.
pub proof fn law_imported_connections_are_found(
    before: Database,
    after: Database,
    rows: Seq<Bookmark>,
    entries: Seq<BookmarkArchiveEntry>,
    sources: Seq<Seq<char>>,
    i: int,
    id: Seq<char>,
)
    requires
        before.wf(),
        rows_imported(before, after, rows, entries, sources),
        !ids_clash(before.bookmarks.rows@, rows),
        0 <= i < rows.len(),
    ensures
        ({
            let found = row_with(after.bookmarks.rows@, rows[i].id@);
            &&& found is Some
            &&& (BookmarkView {
                has_saved_credential: rows[i]@.has_saved_credential,
                ..found->0@
            }) == rows[i]@
        }),
        (forall|k: int| 0 <= k < rows.len() ==> (#[trigger] rows[k]).id@ != id) ==> row_with(
            after.bookmarks.rows@,
            id,
        ) == row_with(before.bookmarks.rows@, id),
{
    let refs = views(before.credential_refs@);
    let stored = choose|stored: Seq<Bookmark>|
        are_stored_as(stored, rows, refs, entries, sources) && after.bookmarks.rows@
            == #[trigger] with_rows(before.bookmarks.rows@, stored);
    assert forall|k: int| 0 <= k < rows.len() implies (#[trigger] stored[k]).id@
        == rows[k].id@ by {
        assert(stored[k]@.id == stored[k].id@ && rows[k]@.id == rows[k].id@);
    }
    assert forall|a: int, b: int| 0 <= a < b < stored.len() implies (#[trigger] stored[a]).id@ != (
    #[trigger] stored[b]).id@ by {
        assert(rows[a].id@ != rows[b].id@);
    }
    lemma_with_rows(before.bookmarks.rows@, stored);
    assert(row_with(after.bookmarks.rows@, stored[i].id@) == Some(stored[i]));
    if forall|k: int| 0 <= k < rows.len() ==> (#[trigger] rows[k]).id@ != id {
        assert forall|k: int| 0 <= k < stored.len() implies (#[trigger] stored[k]).id@ != id by {
            assert(rows[k].id@ != id);
        }
    }
}

/// An archive is imported as a whole or not at all: with an id that is taken nothing changes, else all
/// of its connections are stored, its groups are shown, and both are counted.
pub proof fn law_archives_are_imported_whole(
    before: Database,
    after: Database,
    import: BookmarkArchiveImport,
    entries: Seq<BookmarkArchiveEntry>,
    selected: Seq<Seq<char>>,
    fresh: Seq<Seq<char>>,
    now: Seq<char>,
    r: Result<BookmarkArchiveImportResult, String>,
)
    requires
        archive_imported(before, after, import, entries, selected, fresh, now, r),
    ensures
        r is Ok <==> !ids_clash(before.bookmarks.rows@, import.rows@),
        r is Err ==> after == before,
        r matches Ok(done) ==> {
            &&& done.imported_connections == entries.len() && import.rows@.len() == entries.len()
            &&& views(after.groups@) == merged_groups(shown_groups(before), selected, entries)
            &&& done.imported_groups == count_new(
                merged_groups(shown_groups(before), selected, entries),
                shown_groups(before),
            )
            &&& rows_imported(before, after, import.rows@, entries, Seq::empty())
            &&& after.sessions == before.sessions && after.settings == before.settings
        },
{
}

/// A host key is stored without outer white space.
pub proof fn law_host_keys_are_stored_trimmed(e: &KnownHostImportEntry, r: KnownHostImportEntry)
    requires
        stored_host.ensures((e,), r),
    ensures
        r.host@ == trim(e.host@) && r.port == e.port && r.fingerprint@ == trim(e.fingerprint@),
{
}

/// A credential is noted for an imported connection exactly where its entry is among those whose
/// credential was found; the credentials that were there stay.
pub proof fn law_found_credentials_are_noted(
    refs: Seq<Seq<char>>,
    rows: Seq<Bookmark>,
    row: Bookmark,
    entries: Seq<BookmarkArchiveEntry>,
    sources: Seq<Seq<char>>,
    id: Seq<char>,
)
    requires
        entries.len() > rows.len(),
    ensures
        ({
            let rest = imported_refs(refs, rows, entries, sources);
            let all = imported_refs(refs, rows.push(row), entries, sources);
            let found = sources.contains(entries[rows.len() as int].id@);
            &&& found ==> all.contains(row.id@)
            &&& !found ==> all == rest
            &&& id != row.id@ ==> (all.contains(id) <==> rest.contains(id))
        }),
        imported_refs(refs, Seq::empty(), entries, sources) == refs,
{
    assert(rows.push(row).drop_last() =~= rows);
    let rest = imported_refs(refs, rows, entries, sources);
    let all = imported_refs(refs, rows.push(row), entries, sources);
    if all.len() > rest.len() {
        assert(all =~= rest.push(row.id@));
        assert(all[all.len() - 1] == row.id@);
        if rest.contains(id) {
            let k = choose|k: int| 0 <= k < rest.len() && rest[k] == id;
            assert(all[k] == id);
        }
        if all.contains(id) && id != row.id@ {
            let k = choose|k: int| 0 <= k < all.len() && all[k] == id;
            assert(rest[k] == id);
        }
    }
}

} // verus!
