//! Removes hooks that the application once wrote into the configuration of Codex.
use vstd::prelude::*;
use vstd::string::*;

use crate::json::{
    copy_json, field_of, fields_view, get, get_text, lemma_fields_view, lemma_list_view, list_view,
    push_field, push_item, Json, JsonView,
};
use crate::text::{from_range, same, split_words, to_chars, views, words};

verus! {

/// The key of the application.
pub const PRODUCT_KEY: &'static str = "luna-mux";

/// The argument behind which the owner of a hook stands.
pub const OWNER_ARGUMENT: &'static str = "--adapter-owner";

/// A quotation mark.
pub open spec fn is_quote(c: char) -> bool {
    c == '\'' || c == '"'
}

/// What is left without the quotation marks at the front.
pub open spec fn unquoted_start(s: Seq<char>) -> Seq<char>
    decreases s.len(),
{
    if s.len() > 0 && is_quote(s[0]) {
        unquoted_start(s.skip(1))
    } else {
        s
    }
}

/// What is left without the quotation marks at the end.
pub open spec fn unquoted_end(s: Seq<char>) -> Seq<char>
    decreases s.len(),
{
    if s.len() > 0 && is_quote(s.last()) {
        unquoted_end(s.drop_last())
    } else {
        s
    }
}

/// What is left without the quotation marks on both sides.
pub open spec fn unquoted(s: Seq<char>) -> Seq<char> {
    unquoted_end(unquoted_start(s))
}

fn without_quotes(s: &str) -> (r: String)
    ensures
        r@ == unquoted(s@),
{
    let chars = to_chars(s);
    let ghost all = s@;
    let end: usize = chars.len();
    let mut from: usize = 0;
    assert(all.skip(0) =~= all);
    while from < end && (chars[from] == '\'' || chars[from] == '"')
        invariant
            chars@ == all,
            from <= end,
            end == all.len(),
            unquoted_start(all) == unquoted_start(all.skip(from as int)),
        decreases end - from,
    {
        assert(all.skip(from as int)[0] == all[from as int]);
        assert(all.skip(from as int).skip(1) =~= all.skip(from + 1));
        from = from + 1;
    }
    assert(from < end ==> all.skip(from as int)[0] == all[from as int]);
    let ghost rest = all.skip(from as int);
    assert(unquoted_start(all) == rest);
    let mut to: usize = end;
    assert(rest.take(rest.len() as int) =~= rest);
    while to > from && (chars[to - 1] == '\'' || chars[to - 1] == '"')
        invariant
            chars@ == all,
            from <= to <= end,
            end == all.len(),
            rest == all.skip(from as int),
            unquoted_end(rest) == unquoted_end(rest.take(to - from)),
        decreases to,
    {
        assert(rest.take(to - from).last() == all[to - 1]);
        assert(rest.take(to - from).drop_last() =~= rest.take(to - from - 1));
        to = to - 1;
    }
    assert(to > from ==> rest.take(to - from).last() == all[to - 1]);
    assert(unquoted_end(rest) == rest.take(to - from));
    let r = from_range(&chars, from, to);
    assert(r@ =~= rest.take(to - from));
    r
}

/// The command says that the application owns it.
pub open spec fn is_owned(command: Seq<char>) -> bool {
    exists|i: int| #[trigger] names_owner(words(command), i)
}

/// The owner stands behind the word at this place, and it is the application.
pub open spec fn names_owner(list: Seq<Seq<char>>, i: int) -> bool {
    0 <= i && i + 1 < list.len() && list[i] == OWNER_ARGUMENT@ && unquoted(list[i + 1])
        == PRODUCT_KEY@
}

/// Whether the command says that the application owns it.
pub fn is_owned_command(command: &str) -> (r: bool)
    ensures
        r == is_owned(command@),
{
    let list = split_words(command);
    let ghost all = words(command@);
    let end: usize = list.len();
    let mut i: usize = 0;
    while i < end
        invariant
            i <= end,
            end == list@.len(),
            views(list@) == all,
            all == words(command@),
            forall|k: int| 0 <= k < i ==> !#[trigger] names_owner(all, k),
        decreases end - i,
    {
        assert(all[i as int] == list@[i as int]@);
        if i + 1 < end {
            assert(all[i + 1] == list@[i + 1]@);
            let owner = without_quotes(list[i + 1].as_str());
            if same(list[i].as_str(), OWNER_ARGUMENT) && same(owner.as_str(), PRODUCT_KEY) {
                assert(names_owner(all, i as int));
                return true;
            }
        }
        i = i + 1;
    }
    false
}

/// The handler runs a command that the application owns.
pub open spec fn is_owned_handler(handler: JsonView) -> bool {
    handler.get_text("command"@) is Some && is_owned(handler.get_text("command"@)->0)
}

/// The handlers that the application does not own.
pub open spec fn other_handlers(handlers: Seq<JsonView>) -> Seq<JsonView>
    decreases handlers.len(),
{
    if handlers.len() == 0 {
        Seq::empty()
    } else if is_owned_handler(handlers.last()) {
        other_handlers(handlers.drop_last())
    } else {
        other_handlers(handlers.drop_last()).push(handlers.last())
    }
}

/// The fields with another value for a name.
pub open spec fn set_field(
    fields: Seq<(Seq<char>, JsonView)>,
    name: Seq<char>,
    value: JsonView,
) -> Seq<(Seq<char>, JsonView)>
    decreases fields.len(),
{
    if fields.len() == 0 {
        fields
    } else if fields[0].0 == name {
        seq![(name, value)] + fields.skip(1)
    } else {
        seq![fields[0]] + set_field(fields.skip(1), name, value)
    }
}

/// The fields without a name.
pub open spec fn drop_field(fields: Seq<(Seq<char>, JsonView)>, name: Seq<char>) -> Seq<
    (Seq<char>, JsonView),
>
    decreases fields.len(),
{
    if fields.len() == 0 {
        fields
    } else if fields[0].0 == name {
        fields.skip(1)
    } else {
        seq![fields[0]] + drop_field(fields.skip(1), name)
    }
}

/// A group of handlers without those that the application owns.
pub open spec fn cleaned_group(group: JsonView) -> JsonView {
    match group {
        JsonView::Object(fields) => match field_of(fields, "hooks"@) {
            Some(JsonView::List(handlers)) => JsonView::Object(
                set_field(fields, "hooks"@, JsonView::List(other_handlers(handlers))),
            ),
            _ => group,
        },
        _ => group,
    }
}

/// The application owns a handler of the group.
pub open spec fn group_changes(group: JsonView) -> bool {
    match group.get("hooks"@) {
        Some(JsonView::List(handlers)) => other_handlers(handlers).len() != handlers.len(),
        _ => false,
    }
}

/// The list of the handlers of the group is there, but empty.
pub open spec fn is_bare_group(group: JsonView) -> bool {
    match group.get("hooks"@) {
        Some(JsonView::List(handlers)) => handlers.len() == 0,
        _ => false,
    }
}

/// The cleaned groups that still have a handler, and what was never a list of handlers.
pub open spec fn cleaned_groups(groups: Seq<JsonView>) -> Seq<JsonView>
    decreases groups.len(),
{
    if groups.len() == 0 {
        Seq::empty()
    } else {
        let group = cleaned_group(groups.last());
        if is_bare_group(group) {
            cleaned_groups(groups.drop_last())
        } else {
            cleaned_groups(groups.drop_last()).push(group)
        }
    }
}

/// The application owns a handler of one of the groups.
pub open spec fn groups_change(groups: Seq<JsonView>) -> bool
    decreases groups.len(),
{
    groups.len() > 0 && (group_changes(groups.last()) || groups_change(groups.drop_last()))
}

/// The groups of every event, cleaned.
pub open spec fn cleaned_events(events: Seq<(Seq<char>, JsonView)>) -> Seq<(Seq<char>, JsonView)>
    decreases events.len(),
{
    if events.len() == 0 {
        Seq::empty()
    } else {
        cleaned_events(events.drop_last()).push(
            (
                events.last().0,
                match events.last().1 {
                    JsonView::List(groups) => JsonView::List(cleaned_groups(groups)),
                    other => other,
                },
            ),
        )
    }
}

/// The events that still have a group.
pub open spec fn used_events(events: Seq<(Seq<char>, JsonView)>) -> Seq<(Seq<char>, JsonView)>
    decreases events.len(),
{
    if events.len() == 0 {
        Seq::empty()
    } else if events.last().1 == JsonView::List(Seq::empty()) {
        used_events(events.drop_last())
    } else {
        used_events(events.drop_last()).push(events.last())
    }
}

/// The application owns a handler of one of the events.
pub open spec fn events_change(events: Seq<(Seq<char>, JsonView)>) -> bool
    decreases events.len(),
{
    events.len() > 0 && (events_change(events.drop_last()) || match events.last().1 {
        JsonView::List(groups) => groups_change(groups),
        _ => false,
    })
}

/// How many events come before the first that is not a list of groups.
pub open spec fn good_events(events: Seq<(Seq<char>, JsonView)>) -> nat
    decreases events.len(),
{
    if events.len() == 0 || !(events[0].1 is List) {
        0
    } else {
        1 + good_events(events.skip(1))
    }
}

/// What is wrong with a configuration.
pub open spec fn fault_of(root: JsonView) -> Option<Seq<char>> {
    match root {
        JsonView::Object(fields) => match field_of(fields, "hooks"@) {
            None => None,
            Some(JsonView::Object(events)) => if good_events(events) < events.len() {
                Some(
                    "Codex hooks.json 中 hooks."@ + events[good_events(events) as int].0
                        + " 必须是数组"@,
                )
            } else {
                None
            },
            Some(_) => Some("Codex hooks.json 中的 hooks 必须是对象"@),
        },
        _ => Some("Codex hooks.json 顶层必须是对象"@),
    }
}

/// The configuration without the handlers that the application owns, without groups and events
/// that have no handler, and without its list of hooks where nothing is left of it. A
/// configuration that has a fault is cleaned up to the fault.
pub open spec fn cleaned(root: JsonView) -> JsonView {
    match root {
        JsonView::Object(fields) => match field_of(fields, "hooks"@) {
            Some(JsonView::Object(events)) => {
                let good = good_events(events) as int;
                if good < events.len() {
                    JsonView::Object(
                        set_field(
                            fields,
                            "hooks"@,
                            JsonView::Object(cleaned_events(events.take(good)) + events.skip(good)),
                        ),
                    )
                } else {
                    let left = used_events(cleaned_events(events));
                    if left.len() == 0 {
                        JsonView::Object(drop_field(fields, "hooks"@))
                    } else {
                        JsonView::Object(set_field(fields, "hooks"@, JsonView::Object(left)))
                    }
                }
            },
            _ => root,
        },
        _ => root,
    }
}

/// The application owns a handler of the configuration.
pub open spec fn changes(root: JsonView) -> bool {
    match root.get("hooks"@) {
        Some(JsonView::Object(events)) => events_change(events),
        _ => false,
    }
}

fn handlers_of_others(handlers: &Vec<Json>) -> (r: Vec<Json>)
    ensures
        list_view(r@) == other_handlers(list_view(handlers@)),
        list_view(r@).len() == r@.len(),
        list_view(handlers@).len() == handlers@.len(),
{
    let ghost all = list_view(handlers@);
    proof {
        lemma_list_view(handlers@);
    }
    let mut r: Vec<Json> = Vec::new();
    let mut i: usize = 0;
    assert(all.take(0) =~= Seq::empty());
    while i < handlers.len()
        invariant
            i <= handlers@.len(),
            all == list_view(handlers@),
            all.len() == handlers@.len(),
            forall|k: int| 0 <= k < handlers@.len() ==> all[k] == #[trigger] handlers@[k].view(),
            list_view(r@) == other_handlers(all.take(i as int)),
        decreases handlers@.len() - i,
    {
        assert(all.take(i + 1).drop_last() =~= all.take(i as int));
        assert(all.take(i + 1).last() == handlers@[i as int].view());
        let owned = match get_text(&handlers[i], "command") {
            Some(command) => is_owned_command(command.as_str()),
            None => false,
        };
        if !owned {
            push_item(&mut r, copy_json(&handlers[i]));
        }
        i = i + 1;
    }
    assert(all.take(i as int) =~= all);
    proof {
        lemma_list_view(r@);
    }
    r
}

fn with_field(fields: &Vec<(String, Json)>, name: &str, value: &Json) -> (r: Vec<(String, Json)>)
    ensures
        fields_view(r@) == set_field(fields_view(fields@), name@, value.view()),
{
    let ghost all = fields_view(fields@);
    proof {
        lemma_fields_view(fields@);
        assert(all.skip(0) =~= all);
    }
    let mut r: Vec<(String, Json)> = Vec::new();
    let mut found = false;
    let mut i: usize = 0;
    assert(fields_view(r@) + set_field(all, name@, value.view()) =~= set_field(
        all,
        name@,
        value.view(),
    ));
    while i < fields.len()
        invariant
            i <= fields@.len(),
            all == fields_view(fields@),
            all.len() == fields@.len(),
            forall|k: int|
                #![trigger fields@[k]]
                0 <= k < fields@.len() ==> all[k] == (fields@[k].0@, fields@[k].1.view()),
            set_field(all, name@, value.view()) == fields_view(r@) + (if found {
                all.skip(i as int)
            } else {
                set_field(all.skip(i as int), name@, value.view())
            }),
        decreases fields@.len() - i,
    {
        let ghost before = fields_view(r@);
        assert(all.skip(i as int)[0] == all[i as int]);
        assert(all.skip(i as int).skip(1) =~= all.skip(i + 1));
        assert(all.skip(i as int) =~= seq![all[i as int]] + all.skip(i + 1));
        if !found && same(fields[i].0.as_str(), name) {
            found = true;
            push_field(&mut r, name, copy_json(value));
            assert(before + (seq![(name@, value.view())] + all.skip(i + 1)) =~= fields_view(r@)
                + all.skip(i + 1));
        } else {
            push_field(&mut r, fields[i].0.as_str(), copy_json(&fields[i].1));
            let ghost rest = if found {
                all.skip(i + 1)
            } else {
                set_field(all.skip(i + 1), name@, value.view())
            };
            assert(before + (seq![all[i as int]] + rest) =~= fields_view(r@) + rest);
        }
        i = i + 1;
    }
    assert(all.skip(i as int) =~= Seq::empty());
    assert(fields_view(r@) + all.skip(i as int) =~= fields_view(r@));
    r
}

fn without_field(fields: &Vec<(String, Json)>, name: &str) -> (r: Vec<(String, Json)>)
    ensures
        fields_view(r@) == drop_field(fields_view(fields@), name@),
{
    let ghost all = fields_view(fields@);
    proof {
        lemma_fields_view(fields@);
        assert(all.skip(0) =~= all);
    }
    let mut r: Vec<(String, Json)> = Vec::new();
    let mut found = false;
    let mut i: usize = 0;
    assert(fields_view(r@) + drop_field(all, name@) =~= drop_field(all, name@));
    while i < fields.len()
        invariant
            i <= fields@.len(),
            all == fields_view(fields@),
            all.len() == fields@.len(),
            forall|k: int|
                #![trigger fields@[k]]
                0 <= k < fields@.len() ==> all[k] == (fields@[k].0@, fields@[k].1.view()),
            drop_field(all, name@) == fields_view(r@) + (if found {
                all.skip(i as int)
            } else {
                drop_field(all.skip(i as int), name@)
            }),
        decreases fields@.len() - i,
    {
        let ghost before = fields_view(r@);
        assert(all.skip(i as int)[0] == all[i as int]);
        assert(all.skip(i as int).skip(1) =~= all.skip(i + 1));
        assert(all.skip(i as int) =~= seq![all[i as int]] + all.skip(i + 1));
        if !found && same(fields[i].0.as_str(), name) {
            found = true;
        } else {
            push_field(&mut r, fields[i].0.as_str(), copy_json(&fields[i].1));
            let ghost rest = if found {
                all.skip(i + 1)
            } else {
                drop_field(all.skip(i + 1), name@)
            };
            assert(before + (seq![all[i as int]] + rest) =~= fields_view(r@) + rest);
        }
        i = i + 1;
    }
    assert(all.skip(i as int) =~= Seq::empty());
    assert(fields_view(r@) + all.skip(i as int) =~= fields_view(r@));
    r
}

fn clean_group(group: &Json) -> (r: (Json, bool))
    ensures
        r.0.view() == cleaned_group(group.view()),
        r.1 == group_changes(group.view()),
{
    match group {
        Json::Object(fields) => match get(group, "hooks") {
            Some(Json::List(handlers)) => {
                let left = handlers_of_others(handlers);
                let changed = left.len() != handlers.len();
                let value = Json::List(left);
                (Json::Object(with_field(fields, "hooks", &value)), changed)
            },
            _ => (copy_json(group), false),
        },
        _ => (copy_json(group), false),
    }
}

fn is_bare(group: &Json) -> (r: bool)
    ensures
        r == is_bare_group(group.view()),
{
    match get(group, "hooks") {
        Some(Json::List(handlers)) => {
            proof {
                lemma_list_view(handlers@);
            }
            handlers.len() == 0
        },
        _ => false,
    }
}

fn clean_groups(groups: &Vec<Json>) -> (r: (Vec<Json>, bool))
    ensures
        list_view(r.0@) == cleaned_groups(list_view(groups@)),
        r.1 == groups_change(list_view(groups@)),
{
    let ghost all = list_view(groups@);
    proof {
        lemma_list_view(groups@);
    }
    let mut r: Vec<Json> = Vec::new();
    let mut changed = false;
    let mut i: usize = 0;
    while i < groups.len()
        invariant
            i <= groups@.len(),
            all == list_view(groups@),
            all.len() == groups@.len(),
            forall|k: int| 0 <= k < groups@.len() ==> all[k] == #[trigger] groups@[k].view(),
            list_view(r@) == cleaned_groups(all.take(i as int)),
            changed == groups_change(all.take(i as int)),
        decreases groups@.len() - i,
    {
        assert(all.take(i + 1).drop_last() =~= all.take(i as int));
        assert(all.take(i + 1).last() == groups@[i as int].view());
        let (group, group_changed) = clean_group(&groups[i]);
        changed = changed || group_changed;
        if !is_bare(&group) {
            push_item(&mut r, group);
        }
        i = i + 1;
    }
    assert(all.take(i as int) =~= all);
    (r, changed)
}

fn copy_rest(fields: &Vec<(String, Json)>, from: usize, r: &mut Vec<(String, Json)>)
    requires
        from <= fields@.len(),
    ensures
        fields_view(final(r)@) == fields_view(old(r)@) + fields_view(fields@).skip(from as int),
{
    let ghost all = fields_view(fields@);
    let ghost start = fields_view(r@);
    proof {
        lemma_fields_view(fields@);
    }
    let mut i: usize = from;
    assert(start + all.subrange(from as int, from as int) =~= start);
    while i < fields.len()
        invariant
            from <= i <= fields@.len(),
            all == fields_view(fields@),
            all.len() == fields@.len(),
            forall|k: int|
                #![trigger fields@[k]]
                0 <= k < fields@.len() ==> all[k] == (fields@[k].0@, fields@[k].1.view()),
            fields_view(r@) == start + all.subrange(from as int, i as int),
        decreases fields@.len() - i,
    {
        push_field(r, fields[i].0.as_str(), copy_json(&fields[i].1));
        assert((start + all.subrange(from as int, i as int)).push(all[i as int]) =~= start
            + all.subrange(from as int, i + 1));
        i = i + 1;
    }
    assert(all.subrange(from as int, i as int) =~= all.skip(from as int));
}

proof fn lemma_good_events(events: Seq<(Seq<char>, JsonView)>, i: int)
    requires
        0 <= i <= events.len(),
        forall|k: int| 0 <= k < i ==> (#[trigger] events[k]).1 is List,
        i == events.len() || !(events[i].1 is List),
    ensures
        good_events(events) == i,
    decreases i,
{
    if i > 0 {
        assert(events[0].1 is List);
        assert forall|k: int| 0 <= k < i - 1 implies (#[trigger] events.skip(1)[k]).1 is List by {
            assert(events[k + 1].1 is List);
        }
        lemma_good_events(events.skip(1), i - 1);
    }
}

fn only_used(events: &Vec<(String, Json)>) -> (r: Vec<(String, Json)>)
    ensures
        fields_view(r@) == used_events(fields_view(events@)),
        r@.len() == fields_view(r@).len(),
{
    let ghost all = fields_view(events@);
    proof {
        lemma_fields_view(events@);
    }
    let mut r: Vec<(String, Json)> = Vec::new();
    let mut i: usize = 0;
    while i < events.len()
        invariant
            i <= events@.len(),
            all == fields_view(events@),
            all.len() == events@.len(),
            forall|k: int|
                #![trigger events@[k]]
                0 <= k < events@.len() ==> all[k] == (events@[k].0@, events@[k].1.view()),
            fields_view(r@) == used_events(all.take(i as int)),
        decreases events@.len() - i,
    {
        assert(all.take(i + 1).drop_last() =~= all.take(i as int));
        assert(all.take(i + 1).last() == all[i as int]);
        let used = match &events[i].1 {
            Json::List(groups) => {
                proof {
                    lemma_list_view(groups@);
                    assert(groups@.len() == 0 ==> list_view(groups@) =~= Seq::empty());
                }
                groups.len() != 0
            },
            _ => true,
        };
        if used {
            push_field(&mut r, events[i].0.as_str(), copy_json(&events[i].1));
        }
        i = i + 1;
    }
    assert(all.take(i as int) =~= all);
    proof {
        lemma_fields_view(r@);
    }
    r
}

/// Takes the handlers that the application owns out of a configuration of Codex; says whether
/// there were any.
pub fn remove_owned_hooks(root: &mut Json) -> (r: Result<bool, String>)
    ensures
        final(root).view() == cleaned(old(root).view()),
        match fault_of(old(root).view()) {
            Some(fault) => r is Err && r->Err_0@ == fault,
            None => r is Ok && r->Ok_0 == changes(old(root).view()),
        },
{
    let fields = match &*root {
        Json::Object(fields) => fields,
        _ => {
            return Err("Codex hooks.json 顶层必须是对象".to_owned());
        },
    };
    let events = match get(&*root, "hooks") {
        None => {
            return Ok(false);
        },
        Some(Json::Object(events)) => events,
        Some(_) => {
            return Err("Codex hooks.json 中的 hooks 必须是对象".to_owned());
        },
    };
    let ghost all = fields_view(events@);
    proof {
        lemma_fields_view(events@);
    }
    let mut cleaned_list: Vec<(String, Json)> = Vec::new();
    let mut changed = false;
    let mut i: usize = 0;
    while i < events.len()
        invariant
            *root == *old(root),
            i <= events@.len(),
            all == fields_view(events@),
            all.len() == events@.len(),
            forall|k: int|
                #![trigger events@[k]]
                0 <= k < events@.len() ==> all[k] == (events@[k].0@, events@[k].1.view()),
            forall|k: int| 0 <= k < i ==> (#[trigger] all[k]).1 is List,
            fields_view(cleaned_list@) == cleaned_events(all.take(i as int)),
            changed == events_change(all.take(i as int)),
            old(root).view() is Object,
            old(root).view() == JsonView::Object(fields_view(fields@)),
            old(root).view().get("hooks"@) == Some(JsonView::Object(all)),
        decreases events@.len() - i,
    {
        assert(all.take(i + 1).drop_last() =~= all.take(i as int));
        assert(all.take(i + 1).last() == all[i as int]);
        match &events[i].1 {
            Json::List(groups) => {
                let (left, groups_changed) = clean_groups(groups);
                changed = changed || groups_changed;
                push_field(&mut cleaned_list, events[i].0.as_str(), Json::List(left));
            },
            _ => {
                proof {
                    lemma_good_events(all, i as int);
                }
                let mut message: String = "Codex hooks.json 中 hooks.".to_owned();
                message.append(events[i].0.as_str());
                message.append(" 必须是数组");
                copy_rest(events, i, &mut cleaned_list);
                let value = Json::Object(cleaned_list);
                let updated = Json::Object(with_field(fields, "hooks", &value));
                *root = updated;
                return Err(message);
            },
        }
        i = i + 1;
    }
    proof {
        lemma_good_events(all, i as int);
        assert(all.take(i as int) =~= all);
    }
    let left = only_used(&cleaned_list);
    let updated = if left.len() == 0 {
        Json::Object(without_field(fields, "hooks"))
    } else {
        let value = Json::Object(left);
        Json::Object(with_field(fields, "hooks", &value))
    };
    *root = updated;
    Ok(changed)
}

proof fn lemma_other_handlers(handlers: Seq<JsonView>)
    ensures
        other_handlers(handlers).len() <= handlers.len(),
        other_handlers(other_handlers(handlers)) == other_handlers(handlers),
        other_handlers(handlers).len() == handlers.len() ==> other_handlers(handlers) == handlers,
    decreases handlers.len(),
{
    if handlers.len() > 0 {
        let rest = other_handlers(handlers.drop_last());
        lemma_other_handlers(handlers.drop_last());
        if !is_owned_handler(handlers.last()) {
            assert(rest.push(handlers.last()).drop_last() =~= rest);
            if rest.len() == handlers.len() - 1 {
                assert(handlers.drop_last().push(handlers.last()) =~= handlers);
            }
        }
    }
}

/// The handlers of others stay as they are and keep their order.
pub proof fn law_handlers_of_others_are_kept(handlers: Seq<JsonView>)
    ensures
        other_handlers(handlers) == handlers.filter(|handler: JsonView| !is_owned_handler(handler)),
    decreases handlers.len(),
{
    reveal(Seq::filter);
    if handlers.len() > 0 {
        law_handlers_of_others_are_kept(handlers.drop_last());
    }
}

proof fn lemma_set_field(
    fields: Seq<(Seq<char>, JsonView)>,
    name: Seq<char>,
    value: JsonView,
)
    requires
        field_of(fields, name) is Some,
    ensures
        field_of(set_field(fields, name, value), name) == Some(value),
        field_of(fields, name) == Some(value) ==> set_field(fields, name, value) == fields,
    decreases fields.len(),
{
    if fields[0].0 == name {
        assert((seq![(name, value)] + fields.skip(1))[0] == (name, value));
        if fields[0].1 == value {
            assert(seq![(name, value)] + fields.skip(1) =~= fields);
        }
    } else {
        lemma_set_field(fields.skip(1), name, value);
        let changed = set_field(fields, name, value);
        assert(changed[0] == fields[0]);
        assert(changed.skip(1) =~= set_field(fields.skip(1), name, value));
        if field_of(fields, name) == Some(value) {
            assert(seq![fields[0]] + fields.skip(1) =~= fields);
        }
    }
}

proof fn lemma_cleaned_group(group: JsonView)
    ensures
        !group_changes(cleaned_group(group)),
        !group_changes(group) ==> cleaned_group(group) == group,
{
    match group {
        JsonView::Object(fields) => match field_of(fields, "hooks"@) {
            Some(JsonView::List(handlers)) => {
                lemma_other_handlers(handlers);
                lemma_set_field(fields, "hooks"@, JsonView::List(other_handlers(handlers)));
            },
            _ => {},
        },
        _ => {},
    }
}

proof fn lemma_cleaned_groups(groups: Seq<JsonView>)
    ensures
        !groups_change(cleaned_groups(groups)),
    decreases groups.len(),
{
    if groups.len() > 0 {
        let rest = cleaned_groups(groups.drop_last());
        let group = cleaned_group(groups.last());
        lemma_cleaned_groups(groups.drop_last());
        lemma_cleaned_group(groups.last());
        assert(rest.push(group).drop_last() =~= rest);
    }
}

proof fn lemma_cleaned_events(events: Seq<(Seq<char>, JsonView)>)
    ensures
        !events_change(used_events(cleaned_events(events))),
    decreases events.len(),
{
    if events.len() > 0 {
        let rest = cleaned_events(events.drop_last());
        let whole = cleaned_events(events);
        lemma_cleaned_events(events.drop_last());
        assert(whole.drop_last() =~= rest);
        assert(used_events(rest).push(whole.last()).drop_last() =~= used_events(rest));
        match events.last().1 {
            JsonView::List(groups) => {
                lemma_cleaned_groups(groups);
            },
            _ => {},
        }
    }
}

/// No name stands twice.
pub open spec fn names_once(fields: Seq<(Seq<char>, JsonView)>) -> bool {
    forall|i: int, j: int|
        0 <= i < j < fields.len() ==> (#[trigger] fields[i]).0 != (#[trigger] fields[j]).0
}

proof fn lemma_drop_field(fields: Seq<(Seq<char>, JsonView)>, name: Seq<char>)
    requires
        names_once(fields),
    ensures
        field_of(drop_field(fields, name), name) is None,
    decreases fields.len(),
{
    if fields.len() > 0 {
        assert(names_once(fields.skip(1)));
        if fields[0].0 == name {
            lemma_absent(fields.skip(1), name);
        } else {
            lemma_drop_field(fields.skip(1), name);
            let changed = drop_field(fields, name);
            assert(changed[0] == fields[0]);
            assert(changed.skip(1) =~= drop_field(fields.skip(1), name));
        }
    }
}

proof fn lemma_absent(fields: Seq<(Seq<char>, JsonView)>, name: Seq<char>)
    requires
        forall|i: int| 0 <= i < fields.len() ==> (#[trigger] fields[i]).0 != name,
    ensures
        field_of(fields, name) is None,
    decreases fields.len(),
{
    if fields.len() > 0 {
        assert(fields[0].0 != name);
        assert forall|i: int| 0 <= i < fields.len() - 1 implies (#[trigger] fields.skip(1)[i]).0
            != name by {
            assert(fields[i + 1].0 != name);
        }
        lemma_absent(fields.skip(1), name);
    }
}

/// Nothing that the application owns is left behind: a second clean-up finds nothing.
pub proof fn law_nothing_owned_is_left(root: JsonView)
    requires
        fault_of(root) is None,
        root is Object ==> names_once(root->Object_0),
    ensures
        !changes(cleaned(root)),
{
    match root {
        JsonView::Object(fields) => match field_of(fields, "hooks"@) {
            Some(JsonView::Object(events)) => {
                lemma_cleaned_events(events);
                let left = used_events(cleaned_events(events));
                lemma_set_field(fields, "hooks"@, JsonView::Object(left));
                lemma_drop_field(fields, "hooks"@);
            },
            _ => {},
        },
        _ => {},
    }
}

/// The event has a group, and every group has a handler, where it has a list of handlers.
pub open spec fn is_tidy_event(event: JsonView) -> bool {
    match event {
        JsonView::List(groups) => groups.len() > 0 && forall|k: int|
            0 <= k < groups.len() ==> !is_bare_group(#[trigger] groups[k]),
        _ => true,
    }
}

/// There are events, and no empty ones.
pub open spec fn is_tidy(events: Seq<(Seq<char>, JsonView)>) -> bool {
    events.len() > 0 && forall|i: int|
        0 <= i < events.len() ==> is_tidy_event((#[trigger] events[i]).1)
}

proof fn lemma_unrelated_groups(groups: Seq<JsonView>)
    requires
        !groups_change(groups),
        forall|k: int| 0 <= k < groups.len() ==> !is_bare_group(#[trigger] groups[k]),
    ensures
        cleaned_groups(groups) == groups,
    decreases groups.len(),
{
    if groups.len() > 0 {
        assert forall|k: int| 0 <= k < groups.len() - 1 implies !is_bare_group(
            #[trigger] groups.drop_last()[k],
        ) by {
            assert(!is_bare_group(groups[k]));
        }
        assert(!is_bare_group(groups[groups.len() - 1]));
        lemma_unrelated_groups(groups.drop_last());
        lemma_cleaned_group(groups.last());
        assert(groups.drop_last().push(groups.last()) =~= groups);
    }
}

proof fn lemma_unrelated_events(events: Seq<(Seq<char>, JsonView)>)
    requires
        !events_change(events),
        events.len() > 0 ==> is_tidy(events),
    ensures
        cleaned_events(events) == events,
        used_events(events) == events,
    decreases events.len(),
{
    if events.len() > 0 {
        let rest = events.drop_last();
        assert(rest.len() > 0 ==> is_tidy(rest)) by {
            assert forall|i: int| 0 <= i < rest.len() implies is_tidy_event((#[trigger] rest[i]).1) by {
                assert(rest[i] == events[i]);
            }
        }
        lemma_unrelated_events(rest);
        assert(events[events.len() - 1] == events.last());
        match events.last().1 {
            JsonView::List(groups) => {
                lemma_unrelated_groups(groups);
            },
            _ => {},
        }
        assert(rest.push(events.last()) =~= events);
    }
}

/// A configuration without a handler of the application, and without empty groups, stays as it is.
pub proof fn law_unrelated_configuration_stays(root: JsonView)
    requires
        fault_of(root) is None,
        !changes(root),
        root.get("hooks"@) is Some ==> is_tidy(root.get("hooks"@)->0->Object_0),
    ensures
        cleaned(root) == root,
{
    match root {
        JsonView::Object(fields) => match field_of(fields, "hooks"@) {
            Some(JsonView::Object(events)) => {
                lemma_unrelated_events(events);
                lemma_set_field(fields, "hooks"@, JsonView::Object(events));
            },
            _ => {},
        },
        _ => {},
    }
}

proof fn lemma_all_lists(events: Seq<(Seq<char>, JsonView)>)
    requires
        good_events(events) >= events.len(),
    ensures
        forall|i: int| 0 <= i < events.len() ==> (#[trigger] events[i]).1 is List,
    decreases events.len(),
{
    if events.len() > 0 {
        lemma_all_lists(events.skip(1));
        assert forall|i: int| 0 <= i < events.len() implies (#[trigger] events[i]).1 is List by {
            if i > 0 {
                assert(events.skip(1)[i - 1] == events[i]);
            }
        }
    }
}

proof fn lemma_tidy_groups(groups: Seq<JsonView>)
    ensures
        forall|k: int|
            0 <= k < cleaned_groups(groups).len() ==> !is_bare_group(
                #[trigger] cleaned_groups(groups)[k],
            ),
    decreases groups.len(),
{
    if groups.len() > 0 {
        let rest = cleaned_groups(groups.drop_last());
        lemma_tidy_groups(groups.drop_last());
        assert forall|k: int| 0 <= k < cleaned_groups(groups).len() implies !is_bare_group(
            #[trigger] cleaned_groups(groups)[k],
        ) by {
            if k < rest.len() {
                assert(cleaned_groups(groups)[k] == rest[k]);
            }
        }
    }
}

proof fn lemma_tidy_events(events: Seq<(Seq<char>, JsonView)>)
    requires
        forall|i: int| 0 <= i < events.len() ==> (#[trigger] events[i]).1 is List,
    ensures
        forall|i: int|
            0 <= i < used_events(cleaned_events(events)).len() ==> (
            #[trigger] used_events(cleaned_events(events))[i]).1 is List && is_tidy_event(
                used_events(cleaned_events(events))[i].1,
            ),
    decreases events.len(),
{
    if events.len() > 0 {
        let rest = events.drop_last();
        assert forall|i: int| 0 <= i < rest.len() implies (#[trigger] rest[i]).1 is List by {
            assert(rest[i] == events[i]);
        }
        lemma_tidy_events(rest);
        let whole = cleaned_events(events);
        assert(whole.drop_last() =~= cleaned_events(rest));
        let last = events[events.len() - 1].1;
        assert(last is List);
        lemma_tidy_groups(last->List_0);
        let groups = cleaned_groups(last->List_0);
        if groups.len() == 0 {
            assert(groups =~= Seq::empty());
        }
    }
}

proof fn lemma_other_fields(
    fields: Seq<(Seq<char>, JsonView)>,
    name: Seq<char>,
    value: JsonView,
    other: Seq<char>,
)
    requires
        other != name,
    ensures
        field_of(set_field(fields, name, value), other) == field_of(fields, other),
        field_of(drop_field(fields, name), other) == field_of(fields, other),
    decreases fields.len(),
{
    if fields.len() > 0 {
        let set = set_field(fields, name, value);
        let dropped = drop_field(fields, name);
        if fields[0].0 == name {
            assert(set[0] == (name, value));
            assert(set.skip(1) =~= fields.skip(1));
        } else {
            lemma_other_fields(fields.skip(1), name, value, other);
            assert(set[0] == fields[0] && dropped[0] == fields[0]);
            assert(set.skip(1) =~= set_field(fields.skip(1), name, value));
            assert(dropped.skip(1) =~= drop_field(fields.skip(1), name));
        }
    }
}

/// What is left has no empty group, event or list of hooks.
pub proof fn law_nothing_empty_is_left(root: JsonView)
    requires
        fault_of(root) is None,
        root is Object ==> names_once(root->Object_0),
    ensures
        cleaned(root).get("hooks"@) is Some ==> cleaned(root).get("hooks"@)->0 is Object && is_tidy(
            cleaned(root).get("hooks"@)->0->Object_0,
        ),
{
    match root {
        JsonView::Object(fields) => match field_of(fields, "hooks"@) {
            Some(JsonView::Object(events)) => {
                lemma_all_lists(events);
                lemma_tidy_events(events);
                let left = used_events(cleaned_events(events));
                lemma_set_field(fields, "hooks"@, JsonView::Object(left));
                lemma_drop_field(fields, "hooks"@);
            },
            _ => {},
        },
        _ => {},
    }
}

/// What is not a hook stays as it is.
pub proof fn law_other_settings_stay(root: JsonView, name: Seq<char>)
    requires
        name != "hooks"@,
    ensures
        cleaned(root).get(name) == root.get(name),
{
    match root {
        JsonView::Object(fields) => match field_of(fields, "hooks"@) {
            Some(JsonView::Object(events)) => {
                let good = good_events(events) as int;
                let left = used_events(cleaned_events(events));
                lemma_other_fields(fields, "hooks"@, JsonView::Object(left), name);
                lemma_other_fields(
                    fields,
                    "hooks"@,
                    JsonView::Object(cleaned_events(events.take(good)) + events.skip(good)),
                    name,
                );
            },
            _ => {},
        },
        _ => {},
    }
}

/// A second clean-up succeeds, finds nothing and leaves the configuration as it is.
pub proof fn law_a_second_cleanup_changes_nothing(root: JsonView)
    requires
        fault_of(root) is None,
        root is Object ==> names_once(root->Object_0),
    ensures
        fault_of(cleaned(root)) is None,
        !changes(cleaned(root)),
        cleaned(cleaned(root)) == cleaned(root),
{
    law_nothing_owned_is_left(root);
    law_nothing_empty_is_left(root);
    match root {
        JsonView::Object(fields) => match field_of(fields, "hooks"@) {
            Some(JsonView::Object(events)) => {
                lemma_all_lists(events);
                lemma_tidy_events(events);
                let left = used_events(cleaned_events(events));
                lemma_set_field(fields, "hooks"@, JsonView::Object(left));
                lemma_drop_field(fields, "hooks"@);
                lemma_good_events(left, left.len() as int);
                law_unrelated_configuration_stays(cleaned(root));
            },
            _ => {},
        },
        _ => {},
    }
}

/// The handlers of a group.
pub open spec fn handlers_of(group: JsonView) -> Seq<JsonView> {
    match group.get("hooks"@) {
        Some(JsonView::List(handlers)) => handlers,
        _ => Seq::empty(),
    }
}

/// The groups of an event.
pub open spec fn groups_of(event: JsonView) -> Seq<JsonView> {
    match event {
        JsonView::List(groups) => groups,
        _ => Seq::empty(),
    }
}

/// The events of a configuration.
pub open spec fn events_of(root: JsonView) -> Seq<(Seq<char>, JsonView)> {
    match root.get("hooks"@) {
        Some(JsonView::Object(events)) => events,
        _ => Seq::empty(),
    }
}

/// The application owns one of the handlers.
pub open spec fn owns_handler(handlers: Seq<JsonView>) -> bool {
    exists|h: int| 0 <= h < handlers.len() && is_owned_handler(#[trigger] handlers[h])
}

/// The application owns a handler of one of the groups.
pub open spec fn owns_in_groups(groups: Seq<JsonView>) -> bool {
    exists|k: int| 0 <= k < groups.len() && owns_handler(handlers_of(#[trigger] groups[k]))
}

/// The application owns a handler of the configuration.
pub open spec fn owns_in(root: JsonView) -> bool {
    exists|i: int|
        0 <= i < events_of(root).len() && owns_in_groups(
            groups_of((#[trigger] events_of(root)[i]).1),
        )
}

proof fn lemma_owned_handlers(handlers: Seq<JsonView>)
    ensures
        owns_handler(handlers) == (other_handlers(handlers).len() != handlers.len()),
    decreases handlers.len(),
{
    if handlers.len() > 0 {
        let rest = handlers.drop_last();
        lemma_owned_handlers(rest);
        lemma_other_handlers(rest);
        assert(handlers[handlers.len() - 1] == handlers.last());
        if owns_handler(rest) {
            let h = choose|h: int| 0 <= h < rest.len() && is_owned_handler(#[trigger] rest[h]);
            assert(handlers[h] == rest[h]);
        }
        if owns_handler(handlers) && !is_owned_handler(handlers.last()) {
            let h = choose|h: int|
                0 <= h < handlers.len() && is_owned_handler(#[trigger] handlers[h]);
            assert(rest[h] == handlers[h]);
        }
    }
}

proof fn lemma_owned_groups(groups: Seq<JsonView>)
    ensures
        owns_in_groups(groups) == groups_change(groups),
    decreases groups.len(),
{
    if groups.len() > 0 {
        let rest = groups.drop_last();
        lemma_owned_groups(rest);
        lemma_owned_handlers(handlers_of(groups.last()));
        assert(groups[groups.len() - 1] == groups.last());
        if owns_in_groups(rest) {
            let k = choose|k: int|
                0 <= k < rest.len() && owns_handler(handlers_of(#[trigger] rest[k]));
            assert(groups[k] == rest[k]);
        }
        if owns_in_groups(groups) && !owns_handler(handlers_of(groups.last())) {
            let k = choose|k: int|
                0 <= k < groups.len() && owns_handler(handlers_of(#[trigger] groups[k]));
            assert(rest[k] == groups[k]);
        }
    }
}

proof fn lemma_owned_events(events: Seq<(Seq<char>, JsonView)>)
    ensures
        events_change(events) == exists|i: int|
            0 <= i < events.len() && owns_in_groups(groups_of((#[trigger] events[i]).1)),
    decreases events.len(),
{
    if events.len() > 0 {
        let rest = events.drop_last();
        lemma_owned_events(rest);
        lemma_owned_groups(groups_of(events.last().1));
        assert(events[events.len() - 1] == events.last());
        if events_change(rest) {
            let i = choose|i: int|
                0 <= i < rest.len() && owns_in_groups(groups_of((#[trigger] rest[i]).1));
            assert(events[i] == rest[i]);
        }
        if exists|i: int|
            0 <= i < events.len() && owns_in_groups(groups_of((#[trigger] events[i]).1)) {
            let i = choose|i: int|
                0 <= i < events.len() && owns_in_groups(groups_of((#[trigger] events[i]).1));
            if i < rest.len() {
                assert(rest[i] == events[i]);
            }
        }
    }
}

/// A clean-up says that it changed something exactly where the application owned a handler, and
/// leaves none that it owns.
pub proof fn law_owned_handlers_are_told_and_removed(root: JsonView)
    requires
        fault_of(root) is None,
        root is Object ==> names_once(root->Object_0),
    ensures
        changes(root) == owns_in(root),
        !owns_in(cleaned(root)),
{
    law_nothing_owned_is_left(root);
    lemma_owned_events(events_of(root));
    lemma_owned_events(events_of(cleaned(root)));
}

/// A command is ours exactly where it says so: the word for the owner is followed by the name of this
/// product, with or without quotes.
pub proof fn law_commands_say_whose_they_are(command: Seq<char>)
    ensures
        is_owned(command) <==> exists|i: int|
            0 <= i && i + 1 < words(command).len() && (#[trigger] words(command)[i])
                == "--adapter-owner"@ && unquoted(words(command)[i + 1]) == "luna-mux"@,
{
    let list = words(command);
    if is_owned(command) {
        let i = choose|i: int| #[trigger] names_owner(list, i);
        assert(list[i] == "--adapter-owner"@);
    }
    if exists|i: int|
        0 <= i && i + 1 < list.len() && (#[trigger] list[i]) == "--adapter-owner"@ && unquoted(
            list[i + 1],
        ) == "luna-mux"@ {
        let i = choose|i: int|
            0 <= i && i + 1 < list.len() && (#[trigger] list[i]) == "--adapter-owner"@ && unquoted(
                list[i + 1],
            ) == "luna-mux"@;
        assert(names_owner(list, i));
    }
}

/// A handler is ours exactly where it has a command and the command is.
pub proof fn law_handlers_are_judged_by_their_command(handler: JsonView)
    ensures
        is_owned_handler(handler) <==> (handler.get("command"@) matches Some(JsonView::Text(command))
            && is_owned(command)),
{
}

/// Quotes are taken off both ends, and nothing else.
pub proof fn law_quotes_are_taken_off_the_ends(s: Seq<char>)
    ensures
        unquoted(s).len() > 0 ==> !is_quote(unquoted(s)[0]) && !is_quote(unquoted(s).last()),
        s.len() > 0 && !is_quote(s[0]) && !is_quote(s.last()) ==> unquoted(s) == s,
        unquoted(seq!['"'] + s) == unquoted(s),
        unquoted(seq!['\''] + s) == unquoted(s),
{
    lemma_unquoted_start(s);
    lemma_unquoted_end(unquoted_start(s));
    let a = seq!['"'] + s;
    let b = seq!['\''] + s;
    assert(a.skip(1) =~= s);
    assert(b.skip(1) =~= s);
}

proof fn lemma_unquoted_start(s: Seq<char>)
    ensures
        unquoted_start(s).len() > 0 ==> !is_quote(unquoted_start(s)[0]),
    decreases s.len(),
{
    if s.len() > 0 && is_quote(s[0]) {
        lemma_unquoted_start(s.skip(1));
    }
}

proof fn lemma_unquoted_end(s: Seq<char>)
    ensures
        unquoted_end(s).len() <= s.len(),
        unquoted_end(s).len() > 0 ==> !is_quote(unquoted_end(s).last()) && unquoted_end(s)[0]
            == s[0],
    decreases s.len(),
{
    if s.len() > 0 && is_quote(s.last()) {
        lemma_unquoted_end(s.drop_last());
    }
}

/// A file of hooks can be read exactly where it is an object, where its hooks are one, and where each
/// event among them is a list; a file without hooks can be read.
pub proof fn law_hooks_can_be_read(root: JsonView)
    ensures
        fault_of(root) is None <==> root is Object && match root.get("hooks"@) {
            None => true,
            Some(JsonView::Object(events)) => forall|i: int|
                0 <= i < events.len() ==> (#[trigger] events[i]).1 is List,
            Some(_) => false,
        },
{
    match root.get("hooks"@) {
        Some(JsonView::Object(events)) => {
            lemma_all_good(events);
        },
        _ => {},
    }
}

proof fn lemma_all_good(events: Seq<(Seq<char>, JsonView)>)
    ensures
        good_events(events) <= events.len(),
        good_events(events) == events.len() <==> forall|i: int|
            0 <= i < events.len() ==> (#[trigger] events[i]).1 is List,
    decreases events.len(),
{
    if events.len() > 0 && events[0].1 is List {
        let rest = events.skip(1);
        lemma_all_good(rest);
        assert forall|i: int| 0 <= i < rest.len() implies #[trigger] rest[i] == events[i + 1] by {}
        if good_events(events) == events.len() {
            assert forall|i: int| 0 <= i < events.len() implies (#[trigger] events[i]).1
                is List by {
                if i > 0 {
                    assert(rest[i - 1].1 is List);
                }
            }
        }
        if forall|i: int| 0 <= i < events.len() ==> (#[trigger] events[i]).1 is List {
            assert forall|i: int| 0 <= i < rest.len() implies (#[trigger] rest[i]).1 is List by {
                assert(events[i + 1].1 is List);
            }
        }
    }
}

} // verus!
