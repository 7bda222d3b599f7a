//! The table that lets a repeated request be answered without being carried out again.
use vstd::prelude::*;
use vstd::string::*;

use crate::control_contract::{
    control_error, copy_resource, copy_response, plain_error, resource_view, response_view,
    ControlError, ControlErrorCode, ControlResourceKind, ControlResourceRef, ControlResponse,
    ControlResult,
};
use crate::json::{
    alike, copy_json, fields_view, law_equality_is_an_equivalence, lemma_alike_reflexive,
    push_field, same_json, text_value, Json, JsonView,
};
use crate::text::same;

verus! {

/// The caller, the operation and the key that the caller chose.
#[derive(Debug)]
pub struct IdempotencyKey {
    pub caller_id: String,
    pub operation: String,
    pub key: String,
}

/// What a key is bound to: the resource and the arguments of the first request.
#[derive(Debug)]
pub struct IdempotencySignature {
    pub resource: Option<ControlResourceRef>,
    pub arguments: Json,
}

enum EntryState {
    InFlight,
    Complete(ControlResponse),
}

struct Entry {
    key: IdempotencyKey,
    signature: IdempotencySignature,
    state: EntryState,
}

/// What an idempotency key holds.
pub ghost struct KeyView {
    pub caller_id: Seq<char>,
    pub operation: Seq<char>,
    pub key: Seq<char>,
}

/// What a signature holds.
pub ghost struct SignatureView {
    pub resource: Option<(ControlResourceKind, Seq<char>)>,
    pub arguments: JsonView,
}

/// What the table knows of a key; the answer is there once the request was carried out.
pub ghost struct EntryView {
    pub signature: SignatureView,
    pub response: Option<(Seq<char>, JsonView)>,
}

pub open spec fn key_view(k: IdempotencyKey) -> KeyView {
    KeyView { caller_id: k.caller_id@, operation: k.operation@, key: k.key@ }
}

pub open spec fn signature_view(s: IdempotencySignature) -> SignatureView {
    SignatureView { resource: resource_view(s.resource), arguments: s.arguments.view() }
}

/// The two signatures are those of one request: they name the same resource, and their arguments
/// are equal as JSON.
pub open spec fn same_request(a: SignatureView, b: SignatureView) -> bool {
    a.resource == b.resource && alike(a.arguments, b.arguments)
}

spec fn entry_view(e: Entry) -> EntryView {
    EntryView {
        signature: signature_view(e.signature),
        response: match e.state {
            EntryState::InFlight => None,
            EntryState::Complete(r) => Some(response_view(r)),
        },
    }
}

/// What the table says of a request.
pub ghost enum Standing {
    /// The key is not in use.
    Fresh,
    /// The same request was carried out, with this answer.
    Done((Seq<char>, JsonView)),
    /// The same request is being carried out.
    InFlight,
    /// The key belongs to a request for another resource or with other arguments.
    Bound,
}

/// What the table says of a request with this key and signature.
pub open spec fn standing(
    table: Map<KeyView, EntryView>,
    key: KeyView,
    signature: SignatureView,
) -> Standing {
    if !table.dom().contains(key) {
        Standing::Fresh
    } else if !same_request(table[key].signature, signature) {
        Standing::Bound
    } else {
        match table[key].response {
            Some(response) => Standing::Done(response),
            None => Standing::InFlight,
        }
    }
}

/// The details of the error for a request that is being carried out.
pub open spec fn in_flight_details() -> JsonView {
    JsonView::Object(seq![("status"@, JsonView::Text("inFlight"@))])
}

/// The error for a request that is being carried out.
pub open spec fn is_in_flight_error(e: ControlError) -> bool {
    &&& e.code == ControlErrorCode::Conflict
    &&& e.message@ == "相同幂等请求正在执行"@
    &&& e.retryable
    &&& e.details is Some
    &&& e.details->0.view() == in_flight_details()
}

/// The reply that goes with a standing: nothing for a fresh key, the first answer for a request
/// that was carried out, and a conflict otherwise.
pub open spec fn reply_matches(
    reply: ControlResult<Option<ControlResponse>>,
    standing: Standing,
) -> bool {
    match standing {
        Standing::Fresh => reply matches Ok(None),
        Standing::Done(response) => reply matches Ok(Some(r)) && response_view(r) == response,
        Standing::InFlight => reply matches Err(e) && is_in_flight_error(e),
        Standing::Bound => reply matches Err(e) && plain_error(
            e,
            ControlErrorCode::Conflict,
            "幂等键已绑定到不同的资源或参数"@,
        ),
    }
}

/// The requests with an idempotency key, by caller, operation and key.
pub struct IdempotencyTable {
    entries: Vec<Entry>,
}

spec fn find(entries: Seq<Entry>, key: KeyView) -> Option<EntryView>
    decreases entries.len(),
{
    if entries.len() == 0 {
        None
    } else if key_view(entries.last().key) == key {
        Some(entry_view(entries.last()))
    } else {
        find(entries.drop_last(), key)
    }
}

spec fn distinct(entries: Seq<Entry>) -> bool {
    forall|i: int, j: int|
        0 <= i < j < entries.len() ==> key_view((#[trigger] entries[i]).key) != key_view(
            (#[trigger] entries[j]).key,
        )
}

proof fn lemma_find(entries: Seq<Entry>, i: int)
    requires
        distinct(entries),
        0 <= i < entries.len(),
    ensures
        find(entries, key_view(entries[i].key)) == Some(entry_view(entries[i])),
    decreases entries.len(),
{
    if i < entries.len() - 1 {
        assert(entries.drop_last()[i] == entries[i]);
        assert(distinct(entries.drop_last()));
        lemma_find(entries.drop_last(), i);
    }
}

proof fn lemma_find_none(entries: Seq<Entry>, key: KeyView)
    ensures
        (forall|i: int| 0 <= i < entries.len() ==> key_view((#[trigger] entries[i]).key) != key)
            <==> find(entries, key) is None,
    decreases entries.len(),
{
    if entries.len() > 0 {
        let rest = entries.drop_last();
        lemma_find_none(rest, key);
        assert(forall|i: int| 0 <= i < rest.len() ==> #[trigger] rest[i] == entries[i]);
        if key_view(entries.last().key) == key {
            assert(key_view(entries[entries.len() - 1].key) == key);
        } else if find(rest, key) is Some {
            let i = choose|i: int|
                0 <= i < rest.len() && key_view((#[trigger] rest[i]).key) == key;
            assert(key_view(entries[i].key) == key);
        } else {
            assert forall|i: int| 0 <= i < entries.len() implies key_view(
                (#[trigger] entries[i]).key,
            ) != key by {
                if i < rest.len() {
                    assert(rest[i] == entries[i]);
                }
            }
        }
    }
}

impl View for IdempotencyTable {
    type V = Map<KeyView, EntryView>;

    closed spec fn view(&self) -> Map<KeyView, EntryView> {
        Map::new(
            |k: KeyView| find(self.entries@, k) is Some,
            |k: KeyView| find(self.entries@, k)->0,
        )
    }
}

fn same_key(a: &IdempotencyKey, b: &IdempotencyKey) -> (r: bool)
    ensures
        r == (key_view(*a) == key_view(*b)),
{
    same(a.caller_id.as_str(), b.caller_id.as_str()) && same(
        a.operation.as_str(),
        b.operation.as_str(),
    ) && same(a.key.as_str(), b.key.as_str())
}

fn same_resource(a: &Option<ControlResourceRef>, b: &Option<ControlResourceRef>) -> (r: bool)
    ensures
        r == (resource_view(*a) == resource_view(*b)),
{
    match (a, b) {
        (None, None) => true,
        (Some(x), Some(y)) => x.kind == y.kind && same(x.id.as_str(), y.id.as_str()),
        _ => false,
    }
}

fn same_signature(a: &IdempotencySignature, b: &IdempotencySignature) -> (r: bool)
    ensures
        r == same_request(signature_view(*a), signature_view(*b)),
{
    same_resource(&a.resource, &b.resource) && same_json(&a.arguments, &b.arguments)
}

/// A copy of a key.
pub fn copy_key(k: &IdempotencyKey) -> (r: IdempotencyKey)
    ensures
        key_view(r) == key_view(*k),
{
    IdempotencyKey {
        caller_id: k.caller_id.clone(),
        operation: k.operation.clone(),
        key: k.key.clone(),
    }
}

/// A copy of a signature.
pub fn copy_signature(s: &IdempotencySignature) -> (r: IdempotencySignature)
    ensures
        signature_view(r) == signature_view(*s),
{
    IdempotencySignature {
        resource: copy_resource(&s.resource),
        arguments: copy_json(&s.arguments),
    }
}

fn in_flight_error() -> (r: ControlError)
    ensures
        is_in_flight_error(r),
{
    let mut fields: Vec<(String, Json)> = Vec::new();
    push_field(&mut fields, "status", text_value("inFlight"));
    assert(fields_view(fields@) =~= seq![("status"@, JsonView::Text("inFlight"@))]);
    ControlError {
        code: ControlErrorCode::Conflict,
        message: "相同幂等请求正在执行".to_owned(),
        retryable: true,
        details: Some(Json::Object(fields)),
    }
}

impl IdempotencyTable {
    /// No key stands twice.
    pub closed spec fn wf(self) -> bool {
        distinct(self.entries@)
    }

    /// An empty table.
    pub fn new() -> (r: Self)
        ensures
            r.wf(),
            r@ == Map::<KeyView, EntryView>::empty(),
    {
        let r = IdempotencyTable { entries: Vec::new() };
        assert(r@ =~= Map::<KeyView, EntryView>::empty());
        r
    }

    fn position(&self, key: &IdempotencyKey) -> (r: Option<usize>)
        requires
            self.wf(),
        ensures
            match r {
                Some(i) => i < self.entries@.len() && key_view(self.entries@[i as int].key)
                    == key_view(*key) && self@.dom().contains(key_view(*key))
                    && self@[key_view(*key)] == entry_view(self.entries@[i as int]),
                None => !self@.dom().contains(key_view(*key)) && forall|i: int|
                    0 <= i < self.entries@.len() ==> key_view(
                        (#[trigger] self.entries@[i]).key,
                    ) != key_view(*key),
            },
    {
        let mut i: usize = 0;
        while i < self.entries.len()
            invariant
                i <= self.entries@.len(),
                self.wf(),
                forall|j: int|
                    0 <= j < i ==> key_view((#[trigger] self.entries@[j]).key) != key_view(*key),
            decreases self.entries@.len() - i,
        {
            if same_key(&self.entries[i].key, key) {
                proof {
                    lemma_find(self.entries@, i as int);
                }
                return Some(i);
            }
            i = i + 1;
        }
        proof {
            lemma_find_none(self.entries@, key_view(*key));
        }
        None
    }

    /// What the table says of a request.
    pub fn lookup(
        &self,
        key: &IdempotencyKey,
        signature: &IdempotencySignature,
    ) -> (r: ControlResult<Option<ControlResponse>>)
        requires
            self.wf(),
        ensures
            reply_matches(r, standing(self@, key_view(*key), signature_view(*signature))),
    {
        match self.position(key) {
            None => Ok(None),
            Some(i) => {
                let entry = &self.entries[i];
                if !same_signature(&entry.signature, signature) {
                    return Err(
                        control_error(
                            ControlErrorCode::Conflict,
                            "幂等键已绑定到不同的资源或参数",
                        ),
                    );
                }
                match &entry.state {
                    EntryState::Complete(response) => Ok(Some(copy_response(response))),
                    EntryState::InFlight => Err(in_flight_error()),
                }
            },
        }
    }

    fn put(&mut self, entry: Entry)
        requires
            old(self).wf(),
        ensures
            final(self).wf(),
            final(self)@ == old(self)@.insert(key_view(entry.key), entry_view(entry)),
    {
        self.forget(&entry.key);
        let ghost before = self.entries@;
        let ghost kept = self@;
        let ghost k = key_view(entry.key);
        let ghost e = entry_view(entry);
        proof {
            lemma_find_none(before, k);
            assert(!kept.dom().contains(k));
        }
        self.entries.push(entry);
        proof {
            assert(self.entries@.drop_last() =~= before);
            assert forall|i: int, j: int| 0 <= i < j < self.entries@.len() implies key_view(
                (#[trigger] self.entries@[i]).key,
            ) != key_view((#[trigger] self.entries@[j]).key) by {
                assert(self.entries@[i] == before[i]);
                if j < before.len() {
                    assert(self.entries@[j] == before[j]);
                }
            }
            assert forall|other: KeyView| #[trigger]
                find(self.entries@, other) == (if other == k {
                    Some(e)
                } else {
                    find(before, other)
                }) by {}
            assert(kept =~= old(self)@.remove(k));
            assert(self@ =~= kept.insert(k, e));
            assert(self@ =~= old(self)@.insert(k, e));
        }
    }

    /// What the table says of a request; a fresh key becomes one that is being carried out.
    pub fn reserve(
        &mut self,
        key: &IdempotencyKey,
        signature: &IdempotencySignature,
    ) -> (r: ControlResult<Option<ControlResponse>>)
        requires
            old(self).wf(),
        ensures
            final(self).wf(),
            reply_matches(r, standing(old(self)@, key_view(*key), signature_view(*signature))),
            final(self)@ == (if standing(old(self)@, key_view(*key), signature_view(*signature))
                is Fresh {
                old(self)@.insert(
                    key_view(*key),
                    EntryView { signature: signature_view(*signature), response: None },
                )
            } else {
                old(self)@
            }),
    {
        let found = self.lookup(key, signature)?;
        match found {
            Some(response) => Ok(Some(response)),
            None => {
                self.put(
                    Entry {
                        key: copy_key(key),
                        signature: copy_signature(signature),
                        state: EntryState::InFlight,
                    },
                );
                Ok(None)
            },
        }
    }

    /// Notes the answer to a request that was carried out.
    pub fn complete(
        &mut self,
        key: IdempotencyKey,
        signature: IdempotencySignature,
        response: ControlResponse,
    )
        requires
            old(self).wf(),
        ensures
            final(self).wf(),
            final(self)@ == old(self)@.insert(
                key_view(key),
                EntryView {
                    signature: signature_view(signature),
                    response: Some(response_view(response)),
                },
            ),
    {
        self.put(Entry { key, signature, state: EntryState::Complete(response) });
    }

    /// Frees a key.
    pub fn forget(&mut self, key: &IdempotencyKey)
        requires
            old(self).wf(),
        ensures
            final(self).wf(),
            final(self)@ == old(self)@.remove(key_view(*key)),
    {
        let ghost k = key_view(*key);
        match self.position(key) {
            None => {
                assert(self@ =~= old(self)@.remove(k));
            },
            Some(i) => {
                let ghost before = self.entries@;
                let _ = self.entries.remove(i);
                proof {
                    let after = self.entries@;
                    assert(after =~= before.remove(i as int));
                    assert(distinct(after)) by {
                        assert forall|a: int, b: int| 0 <= a < b < after.len() implies key_view(
                            (#[trigger] after[a]).key,
                        ) != key_view((#[trigger] after[b]).key) by {
                            let a0 = if a < i { a } else { a + 1 };
                            let b0 = if b < i { b } else { b + 1 };
                            assert(after[a] == before[a0]);
                            assert(after[b] == before[b0]);
                        }
                    }
                    assert forall|other: KeyView| find(after, other) == (if other == k {
                        None
                    } else {
                        find(before, other)
                    }) by {
                        lemma_find_none(after, other);
                        lemma_find_none(before, other);
                        if other == k {
                            assert forall|a: int| 0 <= a < after.len() implies key_view(
                                (#[trigger] after[a]).key,
                            ) != k by {
                                let a0 = if a < i { a } else { a + 1 };
                                assert(after[a] == before[a0]);
                                assert(key_view(before[i as int].key) == k);
                            }
                        } else if find(before, other) is Some {
                            let b = choose|b: int|
                                0 <= b < before.len() && key_view((#[trigger] before[b]).key)
                                    == other;
                            let a = if b < i { b } else { b - 1 };
                            assert(after[a] == before[b]);
                            lemma_find(before, b);
                            lemma_find(after, a);
                        } else {
                            assert forall|a: int| 0 <= a < after.len() implies key_view(
                                (#[trigger] after[a]).key,
                            ) != other by {
                                let a0 = if a < i { a } else { a + 1 };
                                assert(after[a] == before[a0]);
                            }
                        }
                    }
                    assert(self@ =~= old(self)@.remove(k));
                }
            },
        }
    }
}

/// A request that is repeated after it was carried out is answered with the first answer.
pub proof fn law_retry_returns_the_first_response(
    table: Map<KeyView, EntryView>,
    key: KeyView,
    signature: SignatureView,
    again: SignatureView,
    response: (Seq<char>, JsonView),
)
    requires
        same_request(again, signature),
    ensures
        standing(
            table.insert(key, EntryView { signature, response: Some(response) }),
            key,
            again,
        ) == Standing::Done(response),
{
    law_equality_is_an_equivalence(again.arguments, signature.arguments, again.arguments);
}

/// A key that is in use refuses a request for another resource or with other arguments.
pub proof fn law_key_stays_bound_to_its_request(
    table: Map<KeyView, EntryView>,
    key: KeyView,
    signature: SignatureView,
    other: SignatureView,
    response: Option<(Seq<char>, JsonView)>,
)
    requires
        !same_request(other, signature),
    ensures
        standing(table.insert(key, EntryView { signature, response }), key, other)
            == Standing::Bound,
{
    law_equality_is_an_equivalence(signature.arguments, other.arguments, signature.arguments);
}

/// While a request is being carried out the same request is refused, and once it failed and its
/// key was freed it can be tried again.
pub proof fn law_reserved_until_finished(
    table: Map<KeyView, EntryView>,
    key: KeyView,
    signature: SignatureView,
)
    ensures
        standing(table.insert(key, EntryView { signature, response: None }), key, signature)
            == Standing::InFlight,
        standing(table.remove(key), key, signature) == Standing::Fresh,
{
    lemma_alike_reflexive(signature.arguments);
}

/// What is noted for one key leaves the others alone.
pub proof fn law_keys_are_independent(
    table: Map<KeyView, EntryView>,
    key: KeyView,
    entry: EntryView,
    other: KeyView,
    signature: SignatureView,
)
    requires
        other != key,
    ensures
        standing(table.insert(key, entry), other, signature) == standing(table, other, signature),
        standing(table.remove(key), other, signature) == standing(table, other, signature),
{
}

/// A request that is still carried out may be tried again later; one under a key of another request
/// may not.
pub proof fn law_only_requests_in_flight_may_be_retried(
    reply: ControlResult<Option<ControlResponse>>,
)
    ensures
        reply_matches(reply, Standing::InFlight) ==> reply is Err && reply->Err_0.retryable
            && reply->Err_0.code == ControlErrorCode::Conflict,
        reply_matches(reply, Standing::Bound) ==> reply is Err && !reply->Err_0.retryable
            && reply->Err_0.code == ControlErrorCode::Conflict,
        reply_matches(reply, Standing::Fresh) ==> reply == Ok::<
            Option<ControlResponse>,
            ControlError,
        >(None),
        forall|response: (Seq<char>, JsonView)|
            #[trigger] reply_matches(reply, Standing::Done(response)) ==> reply is Ok && reply->Ok_0
                is Some && response_view(reply->Ok_0->0) == response,
{
}

} // verus!
