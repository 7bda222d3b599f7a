//! The bridge to the controls of mounted database panes: which pane is mounted, and which request
//! waits for its reply.
use vstd::prelude::*;
use vstd::string::*;
use vstd::utf8::*;

use crate::ids::{is_uuid_text, new_id};
use crate::text::same;
use crate::text_map::TextMap;

verus! {

/// How many requests may wait at once.
pub const MAX_PENDING: usize = 64;

/// What a pane is asked to do.
#[derive(Debug)]
pub enum PaneUiAction {
    Snapshot,
    Fill { reference: String, value: String },
    Click { reference: String },
}

/// Why an action is refused.
pub open spec fn action_fault(action: PaneUiAction) -> Option<Seq<char>> {
    match action {
        PaneUiAction::Snapshot => None,
        PaneUiAction::Fill { reference, value } => if encode_utf8(value@).len() > 65536 {
            Some("Control value exceeds 65536 bytes"@)
        } else {
            reference_fault(reference@)
        },
        PaneUiAction::Click { reference } => reference_fault(reference@),
    }
}

/// Why the name of a control is refused.
pub open spec fn reference_fault(reference: Seq<char>) -> Option<Seq<char>> {
    if encode_utf8(reference).len() == 0 || encode_utf8(reference).len() > 1024 {
        Some("Invalid control ref"@)
    } else {
        None
    }
}

impl PaneUiAction {
    /// Refuses names and values that are too long, and empty names.
    pub fn validate(&self) -> (r: Result<(), String>)
        ensures
            match action_fault(*self) {
                Some(message) => r is Err && r->Err_0@ == message,
                None => r is Ok,
            },
    {
        let reference = match self {
            PaneUiAction::Snapshot => {
                return Ok(());
            },
            PaneUiAction::Fill { reference, value } => {
                if value.as_str().as_bytes().len() > 65536 {
                    return Err("Control value exceeds 65536 bytes".to_owned());
                }
                reference
            },
            PaneUiAction::Click { reference } => reference,
        };
        let length: usize = reference.as_str().as_bytes().len();
        if length == 0 || length > 1024 {
            return Err("Invalid control ref".to_owned());
        }
        Ok(())
    }
}

/// A request as it is sent to a pane.
#[derive(Debug)]
pub struct PaneUiRequest {
    pub request_id: String,
    pub pane_id: String,
    pub mount_id: String,
    pub action: PaneUiAction,
}

/// The pane and the mount that a waiting request was sent to.
#[derive(Debug)]
pub struct Pending {
    pub pane_id: String,
    pub mount_id: String,
}

/// The pane and the mount of a waiting request.
pub ghost struct PendingView {
    pub pane_id: Seq<char>,
    pub mount_id: Seq<char>,
}

/// The bridge: the mount of each mounted pane, and the waiting requests.
#[derive(Debug)]
pub struct DatabasePaneUiBridge {
    pub mounted: TextMap<String>,
    pub pending: TextMap<Pending>,
}

/// What the bridge knows.
#[verifier::ext_equal]
pub ghost struct BridgeView {
    pub mounted: Map<Seq<char>, Seq<char>>,
    pub pending: Map<Seq<char>, PendingView>,
}

impl View for DatabasePaneUiBridge {
    type V = BridgeView;

    open spec fn view(&self) -> BridgeView {
        BridgeView {
            mounted: self.mounted@.map_values(|mount: String| mount@),
            pending: self.pending@.map_values(
                |p: Pending| PendingView { pane_id: p.pane_id@, mount_id: p.mount_id@ },
            ),
        }
    }
}

/// The waiting requests of other panes.
pub open spec fn without_pane(pending: Map<Seq<char>, PendingView>, pane_id: Seq<char>) -> Map<
    Seq<char>,
    PendingView,
> {
    Map::new(
        |id: Seq<char>| pending.dom().contains(id) && pending[id].pane_id != pane_id,
        |id: Seq<char>| pending[id],
    )
}

impl BridgeView {
    /// Every waiting request was sent to a pane as it is mounted now, no pane has two of them, and
    /// there are not too many.
    pub open spec fn sound(self) -> bool {
        &&& self.pending.dom().finite()
        &&& self.pending.dom().len() <= MAX_PENDING
        &&& forall|id: Seq<char>| #[trigger]
            self.pending.dom().contains(id) ==> self.mounted.dom().contains(
                self.pending[id].pane_id,
            ) && self.mounted[self.pending[id].pane_id] == self.pending[id].mount_id
        &&& forall|a: Seq<char>, b: Seq<char>|
            #![trigger self.pending.dom().contains(a), self.pending.dom().contains(b)]
            self.pending.dom().contains(a) && self.pending.dom().contains(b) && a != b
                ==> self.pending[a].pane_id != self.pending[b].pane_id
    }

    /// A request of this pane waits.
    pub open spec fn is_waiting(self, pane_id: Seq<char>) -> bool {
        exists|id: Seq<char>| #[trigger]
            self.pending.dom().contains(id) && self.pending[id].pane_id == pane_id
    }

    /// The bridge once a pane was mounted or unmounted. Only the mount that is current can be
    /// taken away; either way the requests of the pane are let go.
    pub open spec fn mounted_as(self, pane_id: Seq<char>, mount_id: Seq<char>, mounted: bool) -> BridgeView {
        if mounted {
            BridgeView {
                mounted: self.mounted.insert(pane_id, mount_id),
                pending: without_pane(self.pending, pane_id),
            }
        } else if self.mounted.dom().contains(pane_id) && self.mounted[pane_id] == mount_id {
            BridgeView {
                mounted: self.mounted.remove(pane_id),
                pending: without_pane(self.pending, pane_id),
            }
        } else {
            self
        }
    }

    /// Why a request for a pane is refused.
    pub open spec fn request_fault(self, pane_id: Seq<char>, action: PaneUiAction) -> Option<
        Seq<char>,
    > {
        if action_fault(action) is Some {
            action_fault(action)
        } else if !self.mounted.dom().contains(pane_id) {
            Some("Database pane UI is not mounted; open its Session first"@)
        } else if self.pending.dom().len() >= MAX_PENDING || self.is_waiting(pane_id) {
            Some("Database pane UI already has a pending request"@)
        } else {
            None
        }
    }

    /// The bridge while a request waits.
    pub open spec fn waiting(self, request_id: Seq<char>, pane_id: Seq<char>) -> BridgeView {
        BridgeView {
            pending: self.pending.insert(
                request_id,
                PendingView { pane_id, mount_id: self.mounted[pane_id] },
            ),
            ..self
        }
    }

    /// The bridge once a request no longer waits.
    pub open spec fn released(self, request_id: Seq<char>) -> BridgeView {
        BridgeView { pending: self.pending.remove(request_id), ..self }
    }

    /// Why a reply of so many bytes is refused.
    pub open spec fn reply_fault(
        self,
        request_id: Seq<char>,
        pane_id: Seq<char>,
        mount_id: Seq<char>,
        bytes: nat,
    ) -> Option<Seq<char>> {
        if bytes > 524288 {
            Some("Database UI response exceeds 512 KiB"@)
        } else if !self.pending.dom().contains(request_id) {
            Some("Database UI request expired"@)
        } else if self.pending[request_id] != (PendingView { pane_id, mount_id }) {
            Some("Database UI response has the wrong pane or mount"@)
        } else {
            None
        }
    }
}

impl DatabasePaneUiBridge {
    pub open spec fn wf(&self) -> bool {
        self.mounted.wf() && self.pending.wf() && self@.sound()
    }

    /// No pane is mounted and nothing waits.
    pub fn new() -> (r: Self)
        ensures
            r.wf(),
            r@.mounted == Map::<Seq<char>, Seq<char>>::empty(),
            r@.pending == Map::<Seq<char>, PendingView>::empty(),
    {
        let r = DatabasePaneUiBridge { mounted: TextMap::new(), pending: TextMap::new() };
        proof {
            r.pending.lemma_len();
            assert(r@.mounted =~= Map::<Seq<char>, Seq<char>>::empty());
            assert(r@.pending =~= Map::<Seq<char>, PendingView>::empty());
        }
        r
    }

    fn request_of(&self, pane_id: &str) -> (r: Option<String>)
        requires
            self.pending.wf(),
        ensures
            match r {
                Some(id) => self@.pending.dom().contains(id@) && self@.pending[id@].pane_id
                    == pane_id@,
                None => !self@.is_waiting(pane_id@),
            },
    {
        let mut i: usize = 0;
        while i < self.pending.entries.len()
            invariant
                self.pending.wf(),
                i <= self.pending.entries@.len(),
                forall|j: int|
                    0 <= j < i ==> (#[trigger] self.pending.entries@[j]).1.pane_id@ != pane_id@,
            decreases self.pending.entries@.len() - i,
        {
            if same(self.pending.entries[i].1.pane_id.as_str(), pane_id) {
                proof {
                    self.pending.lemma_entry(i as int);
                }
                return Some(self.pending.entries[i].0.clone());
            }
            i = i + 1;
        }
        proof {
            if self@.is_waiting(pane_id@) {
                let id = choose|id: Seq<char>| #[trigger]
                    self@.pending.dom().contains(id) && self@.pending[id].pane_id == pane_id@;
                let k = self.pending.lemma_value(id);
                assert(self.pending.entries@[k].1.pane_id@ != pane_id@);
            }
        }
        None
    }

    fn drop_pane(&mut self, pane_id: &str)
        requires
            old(self).wf(),
        ensures
            final(self).mounted == old(self).mounted,
            final(self).wf(),
            final(self)@.pending == without_pane(old(self)@.pending, pane_id@),
    {
        match self.request_of(pane_id) {
            Some(id) => {
                self.release(id.as_str());
            },
            None => {},
        }
        assert(self@.pending =~= without_pane(old(self)@.pending, pane_id@));
    }

    /// Mounts a pane, or takes its mount away.
    pub fn mount(&mut self, pane_id: &str, mount_id: &str, mounted: bool) -> (r: Result<(), String>)
        requires
            old(self).wf(),
        ensures
            final(self).wf(),
            if pane_id@.len() == 0 || mount_id@.len() == 0 || encode_utf8(mount_id@).len() > 128 {
                &&& r is Err
                &&& r->Err_0@ == "Invalid database pane mount"@
                &&& final(self)@ == old(self)@
            } else {
                r is Ok && final(self)@ == old(self)@.mounted_as(pane_id@, mount_id@, mounted)
            },
    {
        if pane_id.is_empty() || mount_id.is_empty() || mount_id.as_bytes().len() > 128 {
            return Err("Invalid database pane mount".to_owned());
        }
        if mounted {
            self.drop_pane(pane_id);
            let ghost before = self@;
            self.mounted.insert(pane_id.to_owned(), mount_id.to_owned());
            proof {
                assert(self@.mounted =~= before.mounted.insert(pane_id@, mount_id@));
                assert(self@.pending =~= before.pending);
            }
        } else {
            let current = match self.mounted.get(pane_id) {
                Some(id) => same(id.as_str(), mount_id),
                None => false,
            };
            if current {
                self.drop_pane(pane_id);
                let ghost before = self@;
                let _ = self.mounted.remove(pane_id);
                proof {
                    assert(self@.mounted =~= before.mounted.remove(pane_id@));
                    assert(self@.pending =~= before.pending);
                }
            }
        }
        Ok(())
    }

    /// Notes that a request waits, under the given id, and gives what is sent to the pane.
    pub fn request_as(&mut self, pane_id: &str, action: PaneUiAction, request_id: String) -> (r:
        Result<PaneUiRequest, String>)
        requires
            old(self).wf(),
        ensures
            final(self).wf(),
            match old(self)@.request_fault(pane_id@, action) {
                Some(message) => {
                    &&& r is Err
                    &&& r->Err_0@ == message
                    &&& final(self)@ == old(self)@
                },
                None => {
                    &&& r is Ok
                    &&& r->Ok_0.request_id@ == request_id@
                    &&& r->Ok_0.pane_id@ == pane_id@
                    &&& r->Ok_0.mount_id@ == old(self)@.mounted[pane_id@]
                    &&& r->Ok_0.action == action
                    &&& final(self)@ == old(self)@.waiting(request_id@, pane_id@)
                },
            },
    {
        match action.validate() {
            Err(message) => {
                return Err(message);
            },
            Ok(()) => {},
        }
        let mount_id = match self.mounted.get(pane_id) {
            Some(id) => id.clone(),
            None => {
                return Err("Database pane UI is not mounted; open its Session first".to_owned());
            },
        };
        proof {
            self.pending.lemma_len();
            assert(self@.pending.dom() =~= self.pending@.dom());
        }
        if self.pending.entries.len() >= MAX_PENDING || self.request_of(pane_id).is_some() {
            return Err("Database pane UI already has a pending request".to_owned());
        }
        let pending = Pending { pane_id: pane_id.to_owned(), mount_id: mount_id.clone() };
        self.pending.insert(request_id.clone(), pending);
        proof {
            let all = old(self)@.waiting(request_id@, pane_id@);
            assert(self@.pending =~= all.pending);
            assert(self@.mounted =~= all.mounted);
            self.pending.lemma_len();
            assert(self@.pending.dom() =~= self.pending@.dom());
            assert forall|a: Seq<char>, b: Seq<char>|
                #![trigger self@.pending.dom().contains(a), self@.pending.dom().contains(b)]
                self@.pending.dom().contains(a) && self@.pending.dom().contains(b) && a
                    != b implies self@.pending[a].pane_id != self@.pending[b].pane_id by {
                if a == request_id@ {
                    assert(old(self)@.pending.dom().contains(b));
                } else if b == request_id@ {
                    assert(old(self)@.pending.dom().contains(a));
                } else {
                    assert(old(self)@.pending.dom().contains(a));
                    assert(old(self)@.pending.dom().contains(b));
                }
            }
        }
        Ok(PaneUiRequest { request_id, pane_id: pane_id.to_owned(), mount_id, action })
    }

    /// Notes that a request waits, under a fresh id, and gives what is sent to the pane.
    pub fn request(&mut self, pane_id: &str, action: PaneUiAction) -> (r: Result<
        PaneUiRequest,
        String,
    >)
        requires
            old(self).wf(),
        ensures
            final(self).wf(),
            match old(self)@.request_fault(pane_id@, action) {
                Some(message) => {
                    &&& r is Err
                    &&& r->Err_0@ == message
                    &&& final(self)@ == old(self)@
                },
                None => {
                    &&& r is Ok
                    &&& is_uuid_text(r->Ok_0.request_id@)
                    &&& r->Ok_0.pane_id@ == pane_id@
                    &&& r->Ok_0.mount_id@ == old(self)@.mounted[pane_id@]
                    &&& r->Ok_0.action == action
                    &&& final(self)@ == old(self)@.waiting(r->Ok_0.request_id@, pane_id@)
                },
            },
    {
        let request_id = new_id();
        self.request_as(pane_id, action, request_id)
    }

    /// Lets go of a request: its caller gave up, or it could not be sent.
    pub fn release(&mut self, request_id: &str)
        requires
            old(self).wf(),
        ensures
            final(self).wf(),
            final(self)@ == old(self)@.released(request_id@),
            final(self).mounted == old(self).mounted,
    {
        let _ = self.pending.remove(request_id);
        proof {
            let left = old(self)@.released(request_id@);
            assert(self@.pending =~= left.pending);
            self.pending.lemma_len();
            assert(self@.pending.dom() =~= self.pending@.dom());
            old(self).pending.lemma_len();
            assert(old(self)@.pending.dom() =~= old(self).pending@.dom());
            assert forall|id: Seq<char>| #[trigger] self@.pending.dom().contains(id) implies self@.mounted.dom().contains(
                self@.pending[id].pane_id,
            ) && self@.mounted[self@.pending[id].pane_id] == self@.pending[id].mount_id by {
                assert(old(self)@.pending.dom().contains(id));
            }
            assert forall|a: Seq<char>, b: Seq<char>|
                #![trigger self@.pending.dom().contains(a), self@.pending.dom().contains(b)]
                self@.pending.dom().contains(a) && self@.pending.dom().contains(b) && a
                    != b implies self@.pending[a].pane_id != self@.pending[b].pane_id by {
                assert(old(self)@.pending.dom().contains(a));
                assert(old(self)@.pending.dom().contains(b));
            }
        }
    }

    /// Takes a reply of so many bytes: it has to come from the pane and the mount that the request
    /// was sent to. The request then no longer waits.
    pub fn respond(&mut self, request_id: &str, pane_id: &str, mount_id: &str, bytes: usize) -> (r:
        Result<(), String>)
        requires
            old(self).wf(),
        ensures
            final(self).wf(),
            match old(self)@.reply_fault(request_id@, pane_id@, mount_id@, bytes as nat) {
                Some(message) => {
                    &&& r is Err
                    &&& r->Err_0@ == message
                    &&& final(self)@ == old(self)@
                },
                None => r is Ok && final(self)@ == old(self)@.released(request_id@),
            },
    {
        if bytes > 524288 {
            return Err("Database UI response exceeds 512 KiB".to_owned());
        }
        match self.pending.get(request_id) {
            None => {
                return Err("Database UI request expired".to_owned());
            },
            Some(pending) => {
                if !same(pending.pane_id.as_str(), pane_id) || !same(
                    pending.mount_id.as_str(),
                    mount_id,
                ) {
                    return Err("Database UI response has the wrong pane or mount".to_owned());
                }
            },
        }
        self.release(request_id);
        Ok(())
    }
}

impl Default for DatabasePaneUiBridge {
    fn default() -> (r: Self)
        ensures
            r.wf(),
            r@.mounted == Map::<Seq<char>, Seq<char>>::empty(),
            r@.pending == Map::<Seq<char>, PendingView>::empty(),
    {
        DatabasePaneUiBridge::new()
    }
}

/// How the wait for a reply ended without one.
#[derive(Clone, Copy, Debug, PartialEq, Eq, Structural)]
pub enum LostReply {
    TimedOut,
    Unmounted,
    CallerGone,
}

/// What is told of a reply that did not come.
pub fn lost_reply(lost: LostReply) -> (r: String)
    ensures
        r@ == (match lost {
            LostReply::TimedOut => "Database pane UI did not respond; inspect before retrying a click"@,
            LostReply::Unmounted => "Database pane UI was unmounted"@,
            LostReply::CallerGone => "Database UI caller disconnected"@,
        }),
{
    match lost {
        LostReply::TimedOut => "Database pane UI did not respond; inspect before retrying a click".to_owned(),
        LostReply::Unmounted => "Database pane UI was unmounted".to_owned(),
        LostReply::CallerGone => "Database UI caller disconnected".to_owned(),
    }
}

/// A reply is taken only for a waiting request, from the pane and the mount that it was sent to;
/// once taken, or once the pane was mounted anew or unmounted, no reply to it is taken any more.
pub proof fn law_replies_are_bound_to_their_request(
    bridge: BridgeView,
    request_id: Seq<char>,
    pane_id: Seq<char>,
    mount_id: Seq<char>,
    bytes: nat,
)
    requires
        bridge.sound(),
        bridge.reply_fault(request_id, pane_id, mount_id, bytes) is None,
    ensures
        bridge.mounted.dom().contains(pane_id),
        bridge.mounted[pane_id] == mount_id,
        bridge.released(request_id).reply_fault(request_id, pane_id, mount_id, bytes) is Some,
        bridge.mounted_as(pane_id, mount_id, false).reply_fault(
            request_id,
            pane_id,
            mount_id,
            bytes,
        ) is Some,
        forall|other: Seq<char>| #[trigger]
            bridge.mounted_as(pane_id, other, true).reply_fault(
                request_id,
                pane_id,
                mount_id,
                bytes,
            ) is Some,
{
}

/// An old mount cannot take a newer one away.
pub proof fn law_old_mounts_cannot_unmount(
    bridge: BridgeView,
    pane_id: Seq<char>,
    newer: Seq<char>,
    older: Seq<char>,
)
    requires
        newer != older,
    ensures
        ({
            let now = bridge.mounted_as(pane_id, newer, true);
            now.mounted_as(pane_id, older, false) == now
        }),
{
}

/// A request that was let go leaves the bridge as it was before it was made.
pub proof fn law_released_requests_leave_no_trace(
    bridge: BridgeView,
    request_id: Seq<char>,
    pane_id: Seq<char>,
)
    requires
        !bridge.pending.dom().contains(request_id),
    ensures
        bridge.waiting(request_id, pane_id).released(request_id) == bridge,
{
    assert(bridge.waiting(request_id, pane_id).released(request_id) =~= bridge);
}

/// An action is taken exactly where its control is named, with 1024 bytes at most, and the value that
/// is filled in has 65536 bytes at most; a look at the pane is always taken.
pub proof fn law_actions_are_held_in_bounds(reference: String, value: String)
    ensures
        action_fault(PaneUiAction::Snapshot) is None,
        action_fault(PaneUiAction::Click { reference }) is None <==> 1 <= encode_utf8(
            reference@,
        ).len() <= 1024,
        action_fault(PaneUiAction::Fill { reference, value }) is None <==> 1 <= encode_utf8(
            reference@,
        ).len() <= 1024 && encode_utf8(value@).len() <= 65536,
{
}

/// A pane is asked exactly where the action is sound, the pane is shown, it is not asked already, and
/// no more than 63 others are.
pub proof fn law_panes_are_asked_one_thing_at_a_time(
    bridge: BridgeView,
    pane_id: Seq<char>,
    action: PaneUiAction,
)
    ensures
        bridge.request_fault(pane_id, action) is None <==> action_fault(action) is None
            && bridge.mounted.dom().contains(pane_id) && bridge.pending.dom().len() < 64 && (forall|
            id: Seq<char>,
        |
            #[trigger] bridge.pending.dom().contains(id) ==> bridge.pending[id].pane_id != pane_id),
        ({
            let after = bridge.waiting(Seq::empty(), pane_id);
            after.mounted == bridge.mounted
        }),
{
}

/// A reply is taken exactly where it has 512 KiB at most and comes from the pane, and from the showing
/// of it, that was asked; the request is settled then, and no other.
pub proof fn law_replies_come_from_the_asked_pane(
    bridge: BridgeView,
    request_id: Seq<char>,
    pane_id: Seq<char>,
    mount_id: Seq<char>,
    bytes: nat,
    other: Seq<char>,
)
    ensures
        bridge.reply_fault(request_id, pane_id, mount_id, bytes) is None <==> bytes <= 524288
            && bridge.pending.dom().contains(request_id) && bridge.pending[request_id].pane_id
            == pane_id && bridge.pending[request_id].mount_id == mount_id,
        !bridge.released(request_id).pending.dom().contains(request_id),
        other != request_id ==> (bridge.released(request_id).pending.dom().contains(other)
            <==> bridge.pending.dom().contains(other)),
        bridge.released(request_id).mounted == bridge.mounted,
{
}

/// A pane that is shown anew, or no longer, loses what it was asked; all other panes keep what they
/// were asked, and stay as they are.
pub proof fn law_showing_a_pane_anew_drops_its_requests(
    bridge: BridgeView,
    pane_id: Seq<char>,
    mount_id: Seq<char>,
    id: Seq<char>,
    other: Seq<char>,
)
    ensures
        ({
            let after = bridge.mounted_as(pane_id, mount_id, true);
            &&& after.mounted.dom().contains(pane_id) && after.mounted[pane_id] == mount_id
            &&& after.pending.dom().contains(id) <==> bridge.pending.dom().contains(id)
                && bridge.pending[id].pane_id != pane_id
            &&& after.pending.dom().contains(id) ==> after.pending[id] == bridge.pending[id]
            &&& other != pane_id ==> (after.mounted.dom().contains(other)
                <==> bridge.mounted.dom().contains(other))
            &&& other != pane_id && bridge.mounted.dom().contains(other) ==> after.mounted[other]
                == bridge.mounted[other]
        }),
        bridge.mounted.dom().contains(pane_id) && bridge.mounted[pane_id] == mount_id ==> {
            let after = bridge.mounted_as(pane_id, mount_id, false);
            &&& !after.mounted.dom().contains(pane_id)
            &&& after.pending.dom().contains(id) <==> bridge.pending.dom().contains(id)
                && bridge.pending[id].pane_id != pane_id
        },
{
}

} // verus!
