//! JSON values as plain data.
use vstd::prelude::*;
use vstd::string::*;

use crate::ordered_text::{
    before, is_before, lemma_before_total, lemma_before_transitive, lemma_sorted_unique,
    strictly_sorted,
};
use crate::text::same;

verus! {

/// A JSON number. A real number is finite and carried by the bits of its double.
#[derive(Clone, Copy, Debug, PartialEq, Eq, Structural)]
pub enum JsonNumber {
    Whole(u64),
    Negative(i64),
    Real(u64),
}

/// A JSON value. The fields of an object stand in the order of their names, each name once, as
/// `names_in_order` says.
#[derive(Debug)]
pub enum Json {
    Null,
    Bool(bool),
    Number(JsonNumber),
    Text(String),
    List(Vec<Json>),
    Object(Vec<(String, Json)>),
}

/// What a JSON value holds.
pub ghost enum JsonView {
    Null,
    Bool(bool),
    Number(JsonNumber),
    Text(Seq<char>),
    List(Seq<JsonView>),
    Object(Seq<(Seq<char>, JsonView)>),
}

/// The view of each value of a list.
pub open spec fn list_view(items: Seq<Json>) -> Seq<JsonView>
    decreases items,
{
    if items.len() == 0 {
        Seq::empty()
    } else {
        list_view(items.drop_last()).push(items.last().view())
    }
}

/// The view of each field of an object.
pub open spec fn fields_view(fields: Seq<(String, Json)>) -> Seq<(Seq<char>, JsonView)>
    decreases fields,
{
    if fields.len() == 0 {
        Seq::empty()
    } else {
        fields_view(fields.drop_last()).push((fields.last().0@, fields.last().1.view()))
    }
}

impl Json {
    pub open spec fn view(&self) -> JsonView
        decreases self,
    {
        match self {
            Json::Null => JsonView::Null,
            Json::Bool(b) => JsonView::Bool(*b),
            Json::Number(n) => JsonView::Number(*n),
            Json::Text(s) => JsonView::Text(s@),
            Json::List(items) => JsonView::List(list_view(items@)),
            Json::Object(fields) => JsonView::Object(fields_view(fields@)),
        }
    }
}

pub proof fn lemma_list_view(items: Seq<Json>)
    ensures
        list_view(items).len() == items.len(),
        forall|i: int| 0 <= i < items.len() ==> list_view(items)[i] == #[trigger] items[i].view(),
    decreases items.len(),
{
    if items.len() > 0 {
        lemma_list_view(items.drop_last());
        assert forall|i: int| 0 <= i < items.len() implies list_view(items)[i]
            == #[trigger] items[i].view() by {
            if i < items.len() - 1 {
                assert(items.drop_last()[i] == items[i]);
            }
        }
    }
}

pub proof fn lemma_fields_view(fields: Seq<(String, Json)>)
    ensures
        fields_view(fields).len() == fields.len(),
        forall|i: int|
            #![trigger fields[i]]
            0 <= i < fields.len() ==> fields_view(fields)[i] == (
                fields[i].0@,
                fields[i].1.view(),
            ),
    decreases fields.len(),
{
    if fields.len() > 0 {
        lemma_fields_view(fields.drop_last());
        assert forall|i: int|
            #![trigger fields[i]]
            0 <= i < fields.len() implies fields_view(fields)[i] == (
            fields[i].0@,
            fields[i].1.view(),
        ) by {
            if i < fields.len() - 1 {
                assert(fields.drop_last()[i] == fields[i]);
            }
        }
    }
}

/// The value of the field with this name; the first where the name stands more than once.
pub open spec fn field_of(fields: Seq<(Seq<char>, JsonView)>, name: Seq<char>) -> Option<JsonView>
    decreases fields.len(),
{
    if fields.len() == 0 {
        None
    } else if fields[0].0 == name {
        Some(fields[0].1)
    } else {
        field_of(fields.skip(1), name)
    }
}

impl JsonView {
    /// The value of a field; nothing for what is not an object.
    pub open spec fn get(self, name: Seq<char>) -> Option<JsonView> {
        match self {
            JsonView::Object(fields) => field_of(fields, name),
            _ => None,
        }
    }

    /// The text of a field that is a string.
    pub open spec fn get_text(self, name: Seq<char>) -> Option<Seq<char>> {
        match self.get(name) {
            Some(JsonView::Text(s)) => Some(s),
            _ => None,
        }
    }

    /// An object without fields.
    pub open spec fn is_empty_object(self) -> bool {
        self matches JsonView::Object(fields) && fields.len() == 0
    }
}

fn clone_fields(fields: &Vec<(String, Json)>) -> (r: Vec<(String, Json)>)
    ensures
        fields_view(r@) == fields_view(fields@),
    decreases fields,
{
    let mut r: Vec<(String, Json)> = Vec::new();
    let mut i: usize = 0;
    while i < fields.len()
        invariant
            i <= fields@.len(),
            fields_view(r@) == fields_view(fields@.take(i as int)),
        decreases fields@.len() - i,
    {
        let name = fields[i].0.clone();
        let value = copy_json(&fields[i].1);
        let ghost before = r@;
        r.push((name, value));
        proof {
            assert(r@.drop_last() =~= before);
            assert(fields@.take(i + 1).drop_last() =~= fields@.take(i as int));
        }
        i = i + 1;
    }
    assert(fields@.take(i as int) =~= fields@);
    r
}

fn clone_list(items: &Vec<Json>) -> (r: Vec<Json>)
    ensures
        list_view(r@) == list_view(items@),
    decreases items,
{
    let mut r: Vec<Json> = Vec::new();
    let mut i: usize = 0;
    while i < items.len()
        invariant
            i <= items@.len(),
            list_view(r@) == list_view(items@.take(i as int)),
        decreases items@.len() - i,
    {
        let value = copy_json(&items[i]);
        let ghost before = r@;
        r.push(value);
        proof {
            assert(r@.drop_last() =~= before);
            assert(items@.take(i + 1).drop_last() =~= items@.take(i as int));
        }
        i = i + 1;
    }
    assert(items@.take(i as int) =~= items@);
    r
}

/// A copy of a value.
pub fn copy_json(value: &Json) -> (r: Json)
    ensures
        r.view() == value.view(),
    decreases value,
{
    match value {
        Json::Null => Json::Null,
        Json::Bool(b) => Json::Bool(*b),
        Json::Number(n) => Json::Number(*n),
        Json::Text(s) => Json::Text(s.clone()),
        Json::List(items) => Json::List(clone_list(items)),
        Json::Object(fields) => Json::Object(clone_fields(fields)),
    }
}

/// The bits are those of a zero, with or without a sign.
pub open spec fn is_zero_real(bits: u64) -> bool {
    bits == 0 || bits == 0x8000_0000_0000_0000
}

/// The two numbers are equal: real numbers as doubles, where both zeros are the same.
pub open spec fn numbers_alike(a: JsonNumber, b: JsonNumber) -> bool {
    a == b || (a matches JsonNumber::Real(x) && b matches JsonNumber::Real(y) && is_zero_real(x)
        && is_zero_real(y))
}

/// The values of the two lists are alike one by one.
pub open spec fn lists_alike(a: Seq<JsonView>, b: Seq<JsonView>) -> bool
    decreases a,
{
    a.len() == b.len() && (a.len() == 0 || (lists_alike(a.drop_last(), b.drop_last()) && alike(
        a.last(),
        b.last(),
    )))
}

/// The two lists of fields have the same names, with values that are alike.
pub open spec fn fields_alike(
    a: Seq<(Seq<char>, JsonView)>,
    b: Seq<(Seq<char>, JsonView)>,
) -> bool
    decreases a,
{
    a.len() == b.len() && (a.len() == 0 || (fields_alike(a.drop_last(), b.drop_last())
        && a.last().0 == b.last().0 && alike(a.last().1, b.last().1)))
}

/// The two values are equal as JSON: what differs at most is the sign of a zero.
pub open spec fn alike(a: JsonView, b: JsonView) -> bool
    decreases a,
{
    match a {
        JsonView::Null => b is Null,
        JsonView::Bool(x) => b matches JsonView::Bool(y) && x == y,
        JsonView::Number(x) => b matches JsonView::Number(y) && numbers_alike(x, y),
        JsonView::Text(x) => b matches JsonView::Text(y) && x == y,
        JsonView::List(x) => b matches JsonView::List(y) && lists_alike(x, y),
        JsonView::Object(x) => b matches JsonView::Object(y) && fields_alike(x, y),
    }
}

proof fn lemma_lists_alike(a: Seq<JsonView>, b: Seq<JsonView>)
    ensures
        lists_alike(a, b) == (a.len() == b.len() && forall|i: int|
            0 <= i < a.len() ==> alike(#[trigger] a[i], b[i])),
    decreases a.len(),
{
    if a.len() == b.len() && a.len() > 0 {
        let x = a.drop_last();
        let y = b.drop_last();
        lemma_lists_alike(x, y);
        assert forall|i: int| 0 <= i < x.len() implies x[i] == #[trigger] a[i] && y[i] == b[i] by {}
        if lists_alike(a, b) {
            assert forall|i: int| 0 <= i < a.len() implies alike(#[trigger] a[i], b[i]) by {
                if i < x.len() {
                    assert(alike(x[i], y[i]));
                }
            }
        }
        if forall|i: int| 0 <= i < a.len() ==> alike(#[trigger] a[i], b[i]) {
            assert forall|i: int| 0 <= i < x.len() implies alike(#[trigger] x[i], y[i]) by {
                assert(alike(a[i], b[i]));
            }
            assert(alike(a[a.len() - 1], b[a.len() - 1]));
        }
    }
}

proof fn lemma_fields_alike(a: Seq<(Seq<char>, JsonView)>, b: Seq<(Seq<char>, JsonView)>)
    ensures
        fields_alike(a, b) == (a.len() == b.len() && forall|i: int|
            0 <= i < a.len() ==> (#[trigger] a[i]).0 == b[i].0 && alike(a[i].1, b[i].1)),
    decreases a.len(),
{
    if a.len() == b.len() && a.len() > 0 {
        let x = a.drop_last();
        let y = b.drop_last();
        lemma_fields_alike(x, y);
        assert forall|i: int| 0 <= i < x.len() implies x[i] == #[trigger] a[i] && y[i] == b[i] by {}
        if fields_alike(a, b) {
            assert forall|i: int| 0 <= i < a.len() implies (#[trigger] a[i]).0 == b[i].0 && alike(
                a[i].1,
                b[i].1,
            ) by {
                if i < x.len() {
                    assert(x[i].0 == y[i].0);
                }
            }
        }
        if forall|i: int|
            0 <= i < a.len() ==> (#[trigger] a[i]).0 == b[i].0 && alike(a[i].1, b[i].1) {
            assert forall|i: int| 0 <= i < x.len() implies (#[trigger] x[i]).0 == y[i].0 && alike(
                x[i].1,
                y[i].1,
            ) by {
                assert(a[i].0 == b[i].0);
            }
            assert(a[a.len() - 1].0 == b[a.len() - 1].0);
        }
    }
}

/// A value is equal to itself.
pub proof fn lemma_alike_reflexive(a: JsonView)
    ensures
        alike(a, a),
    decreases a,
{
    match a {
        JsonView::List(x) => {
            assert forall|i: int| 0 <= i < x.len() implies alike(#[trigger] x[i], x[i]) by {
                lemma_alike_reflexive(x[i]);
            }
            lemma_lists_alike(x, x);
        },
        JsonView::Object(x) => {
            assert forall|i: int| 0 <= i < x.len() implies (#[trigger] x[i]).0 == x[i].0 && alike(
                x[i].1,
                x[i].1,
            ) by {
                lemma_alike_reflexive(x[i].1);
            }
            lemma_fields_alike(x, x);
        },
        _ => {},
    }
}

/// Equality of values can be turned round and passed on.
pub proof fn law_equality_is_an_equivalence(a: JsonView, b: JsonView, c: JsonView)
    ensures
        alike(a, a),
        alike(a, b) ==> alike(b, a),
        alike(a, b) && alike(b, c) ==> alike(a, c),
    decreases a,
{
    lemma_alike_reflexive(a);
    match (a, b, c) {
        (JsonView::List(x), JsonView::List(y), _) => {
            let z = match c {
                JsonView::List(z) => z,
                _ => y,
            };
            lemma_lists_alike(x, y);
            lemma_lists_alike(y, x);
            lemma_lists_alike(y, z);
            lemma_lists_alike(x, z);
            if lists_alike(x, y) {
                assert forall|i: int| 0 <= i < x.len() implies alike(#[trigger] y[i], x[i]) && (
                alike(y[i], z[i]) ==> alike(x[i], z[i])) by {
                    law_equality_is_an_equivalence(x[i], y[i], z[i]);
                    assert(alike(x[i], y[i]));
                }
                if lists_alike(y, z) {
                    assert forall|i: int| 0 <= i < x.len() implies alike(#[trigger] x[i], z[i]) by {
                        assert(alike(y[i], z[i]));
                    }
                }
            }
        },
        (JsonView::Object(x), JsonView::Object(y), _) => {
            let z = match c {
                JsonView::Object(z) => z,
                _ => y,
            };
            lemma_fields_alike(x, y);
            lemma_fields_alike(y, x);
            lemma_fields_alike(y, z);
            lemma_fields_alike(x, z);
            if fields_alike(x, y) {
                assert forall|i: int| 0 <= i < x.len() implies (#[trigger] y[i]).0 == x[i].0
                    && alike(y[i].1, x[i].1) && (alike(y[i].1, z[i].1) ==> alike(
                    x[i].1,
                    z[i].1,
                )) by {
                    law_equality_is_an_equivalence(x[i].1, y[i].1, z[i].1);
                    assert(x[i].0 == y[i].0);
                }
                if fields_alike(y, z) {
                    assert forall|i: int| 0 <= i < x.len() implies (#[trigger] x[i]).0 == z[i].0
                        && alike(x[i].1, z[i].1) by {
                        assert(y[i].0 == z[i].0);
                    }
                }
            }
        },
        _ => {},
    }
}

/// The names of the fields stand in their order, each once.
pub open spec fn names_in_order(fields: Seq<(Seq<char>, JsonView)>) -> bool {
    forall|i: int, j: int|
        0 <= i < j < fields.len() ==> before((#[trigger] fields[i]).0, (#[trigger] fields[j]).0)
}

/// The two fields are both missing, or both there with values that are alike.
pub open spec fn values_alike(a: Option<JsonView>, b: Option<JsonView>) -> bool {
    match (a, b) {
        (Some(x), Some(y)) => alike(x, y),
        (None, None) => true,
        _ => false,
    }
}

proof fn lemma_field_at(fields: Seq<(Seq<char>, JsonView)>, i: int)
    requires
        names_in_order(fields),
        0 <= i < fields.len(),
    ensures
        field_of(fields, fields[i].0) == Some(fields[i].1),
    decreases i,
{
    if i > 0 {
        let rest = fields.skip(1);
        lemma_before_total(fields[0].0, fields[i].0);
        assert(before(fields[0].0, fields[i].0));
        assert forall|k: int, m: int| 0 <= k < m < rest.len() implies before(
            (#[trigger] rest[k]).0,
            (#[trigger] rest[m]).0,
        ) by {
            assert(rest[k] == fields[k + 1] && rest[m] == fields[m + 1]);
        }
        assert(rest[i - 1] == fields[i]);
        lemma_field_at(rest, i - 1);
    }
}

proof fn lemma_field_found(fields: Seq<(Seq<char>, JsonView)>, name: Seq<char>)
    ensures
        field_of(fields, name) is Some == exists|i: int|
            0 <= i < fields.len() && (#[trigger] fields[i]).0 == name,
        field_of(fields, name) is Some ==> exists|i: int|
            0 <= i < fields.len() && #[trigger] fields[i] == (name, field_of(fields, name)->0),
    decreases fields.len(),
{
    if fields.len() > 0 {
        let rest = fields.skip(1);
        lemma_field_found(rest, name);
        if fields[0].0 == name {
            assert(fields[0] == (name, fields[0].1));
        } else {
            if field_of(rest, name) is Some {
                let i = choose|i: int|
                    0 <= i < rest.len() && #[trigger] rest[i] == (name, field_of(rest, name)->0);
                assert(fields[i + 1] == rest[i]);
            }
            if exists|i: int| 0 <= i < fields.len() && (#[trigger] fields[i]).0 == name {
                let i = choose|i: int| 0 <= i < fields.len() && (#[trigger] fields[i]).0 == name;
                assert(rest[i - 1] == fields[i]);
            }
        }
    }
}

proof fn lemma_same_names(a: Seq<(Seq<char>, JsonView)>, b: Seq<(Seq<char>, JsonView)>)
    requires
        names_in_order(a),
        names_in_order(b),
        forall|name: Seq<char>|
            field_of(a, name) is Some == #[trigger] field_of(b, name) is Some,
    ensures
        a.len() == b.len(),
        forall|i: int| 0 <= i < a.len() ==> (#[trigger] a[i]).0 == b[i].0,
{
    let v = a.map_values(|f: (Seq<char>, JsonView)| f.0);
    let w = b.map_values(|f: (Seq<char>, JsonView)| f.0);
    assert(strictly_sorted(v));
    assert(strictly_sorted(w));
    assert forall|s: Seq<char>| v.contains(s) <==> w.contains(s) by {
        lemma_field_found(a, s);
        lemma_field_found(b, s);
        assert(field_of(a, s) is Some == field_of(b, s) is Some);
        if v.contains(s) {
            let i = choose|i: int| 0 <= i < v.len() && v[i] == s;
            assert(a[i].0 == s);
            let j = choose|j: int| 0 <= j < b.len() && (#[trigger] b[j]).0 == s;
            assert(w[j] == s);
        }
        if w.contains(s) {
            let i = choose|i: int| 0 <= i < w.len() && w[i] == s;
            assert(b[i].0 == s);
            let j = choose|j: int| 0 <= j < a.len() && (#[trigger] a[j]).0 == s;
            assert(v[j] == s);
        }
    }
    lemma_sorted_unique(v, w);
    assert(v.len() == a.len() && w.len() == b.len());
    assert forall|i: int| 0 <= i < a.len() implies (#[trigger] a[i]).0 == b[i].0 by {
        assert(v[i] == w[i]);
    }
}

/// Objects whose fields are in order are equal exactly where each name has the same value in both:
/// the order of the fields decides nothing.
pub proof fn law_objects_are_compared_by_name(
    a: Seq<(Seq<char>, JsonView)>,
    b: Seq<(Seq<char>, JsonView)>,
)
    requires
        names_in_order(a),
        names_in_order(b),
    ensures
        alike(JsonView::Object(a), JsonView::Object(b)) == forall|name: Seq<char>|
            values_alike(#[trigger] field_of(a, name), field_of(b, name)),
{
    lemma_fields_alike(a, b);
    if fields_alike(a, b) {
        assert forall|name: Seq<char>| values_alike(
            #[trigger] field_of(a, name),
            field_of(b, name),
        ) by {
            lemma_field_found(a, name);
            lemma_field_found(b, name);
            if field_of(a, name) is Some {
                let i = choose|i: int| 0 <= i < a.len() && (#[trigger] a[i]).0 == name;
                assert(b[i].0 == name);
                lemma_field_at(a, i);
                lemma_field_at(b, i);
            } else if field_of(b, name) is Some {
                let i = choose|i: int| 0 <= i < b.len() && (#[trigger] b[i]).0 == name;
                assert(a[i].0 == name);
            }
        }
    }
    if forall|name: Seq<char>| values_alike(#[trigger] field_of(a, name), field_of(b, name)) {
        assert forall|name: Seq<char>| field_of(a, name) is Some == #[trigger] field_of(
            b,
            name,
        ) is Some by {
            assert(values_alike(field_of(a, name), field_of(b, name)));
        }
        lemma_same_names(a, b);
        assert forall|i: int| 0 <= i < a.len() implies (#[trigger] a[i]).0 == b[i].0 && alike(
            a[i].1,
            b[i].1,
        ) by {
            lemma_field_at(a, i);
            lemma_field_at(b, i);
            assert(values_alike(field_of(a, a[i].0), field_of(b, a[i].0)));
        }
    }
}

fn same_number(a: JsonNumber, b: JsonNumber) -> (r: bool)
    ensures
        r == numbers_alike(a, b),
{
    match (a, b) {
        (JsonNumber::Real(x), JsonNumber::Real(y)) => x == y || ((x == 0 || x
            == 0x8000_0000_0000_0000) && (y == 0 || y == 0x8000_0000_0000_0000)),
        _ => a == b,
    }
}

fn same_list(a: &Vec<Json>, b: &Vec<Json>) -> (r: bool)
    ensures
        r == lists_alike(list_view(a@), list_view(b@)),
    decreases a,
{
    proof {
        lemma_list_view(a@);
        lemma_list_view(b@);
        lemma_lists_alike(list_view(a@), list_view(b@));
    }
    if a.len() != b.len() {
        return false;
    }
    let mut i: usize = 0;
    while i < a.len()
        invariant
            i <= a@.len(),
            a@.len() == b@.len(),
            list_view(a@).len() == a@.len(),
            list_view(b@).len() == b@.len(),
            lists_alike(list_view(a@), list_view(b@)) == forall|k: int|
                0 <= k < a@.len() ==> alike(#[trigger] list_view(a@)[k], list_view(b@)[k]),
            forall|k: int| 0 <= k < a@.len() ==> list_view(a@)[k] == #[trigger] a@[k].view(),
            forall|k: int| 0 <= k < b@.len() ==> list_view(b@)[k] == #[trigger] b@[k].view(),
            forall|k: int|
                0 <= k < i ==> alike(#[trigger] list_view(a@)[k], list_view(b@)[k]),
        decreases a@.len() - i,
    {
        if !same_json(&a[i], &b[i]) {
            assert(!alike(list_view(a@)[i as int], list_view(b@)[i as int]));
            return false;
        }
        i = i + 1;
    }
    true
}

fn same_fields(a: &Vec<(String, Json)>, b: &Vec<(String, Json)>) -> (r: bool)
    ensures
        r == fields_alike(fields_view(a@), fields_view(b@)),
    decreases a,
{
    let ghost x = fields_view(a@);
    let ghost y = fields_view(b@);
    proof {
        lemma_fields_view(a@);
        lemma_fields_view(b@);
        lemma_fields_alike(x, y);
    }
    if a.len() != b.len() {
        return false;
    }
    let mut i: usize = 0;
    while i < a.len()
        invariant
            i <= a@.len(),
            a@.len() == b@.len(),
            x == fields_view(a@),
            y == fields_view(b@),
            x.len() == a@.len(),
            y.len() == b@.len(),
            fields_alike(x, y) == forall|k: int|
                0 <= k < a@.len() ==> (#[trigger] x[k]).0 == y[k].0 && alike(x[k].1, y[k].1),
            forall|k: int|
                #![trigger a@[k]]
                0 <= k < a@.len() ==> x[k] == (a@[k].0@, a@[k].1.view()),
            forall|k: int|
                #![trigger b@[k]]
                0 <= k < b@.len() ==> y[k] == (b@[k].0@, b@[k].1.view()),
            forall|k: int|
                0 <= k < i ==> (#[trigger] x[k]).0 == y[k].0 && alike(x[k].1, y[k].1),
        decreases a@.len() - i,
    {
        if !same(a[i].0.as_str(), b[i].0.as_str()) || !same_json(&a[i].1, &b[i].1) {
            assert(!(x[i as int].0 == y[i as int].0 && alike(x[i as int].1, y[i as int].1)));
            return false;
        }
        i = i + 1;
    }
    true
}

/// The two values are equal.
pub fn same_json(a: &Json, b: &Json) -> (r: bool)
    ensures
        r == alike(a.view(), b.view()),
    decreases a,
{
    match (a, b) {
        (Json::Null, Json::Null) => true,
        (Json::Bool(x), Json::Bool(y)) => *x == *y,
        (Json::Number(x), Json::Number(y)) => same_number(*x, *y),
        (Json::Text(x), Json::Text(y)) => same(x.as_str(), y.as_str()),
        (Json::List(x), Json::List(y)) => same_list(x, y),
        (Json::Object(x), Json::Object(y)) => same_fields(x, y),
        _ => false,
    }
}

/// The value of a field.
pub fn get<'a>(value: &'a Json, name: &str) -> (r: Option<&'a Json>)
    ensures
        r is Some == value.view().get(name@) is Some,
        r is Some ==> r->0.view() == value.view().get(name@)->0,
{
    match value {
        Json::Object(fields) => {
            let ghost all = fields_view(fields@);
            proof {
                lemma_fields_view(fields@);
                assert(all.skip(0) =~= all);
            }
            let mut i: usize = 0;
            while i < fields.len()
                invariant
                    i <= fields@.len(),
                    all.len() == fields@.len(),
                    forall|k: int|
                        #![trigger fields@[k]]
                        0 <= k < fields@.len() ==> all[k] == (
                            fields@[k].0@,
                            fields@[k].1.view(),
                        ),
                    field_of(all, name@) == field_of(all.skip(i as int), name@),
                    value.view() == JsonView::Object(all),
                decreases fields@.len() - i,
            {
                assert(all.skip(i as int)[0] == all[i as int]);
                if same(fields[i].0.as_str(), name) {
                    return Some(&fields[i].1);
                }
                proof {
                    assert(all.skip(i as int).skip(1) =~= all.skip(i + 1));
                }
                i = i + 1;
            }
            None
        },
        _ => None,
    }
}

/// The text of a field that is a string.
pub fn get_text<'a>(value: &'a Json, name: &str) -> (r: Option<&'a String>)
    ensures
        r is Some == value.view().get_text(name@) is Some,
        r is Some ==> r->0@ == value.view().get_text(name@)->0,
{
    match get(value, name) {
        Some(Json::Text(s)) => Some(s),
        _ => None,
    }
}

/// An object.
pub fn is_object(value: &Json) -> (r: bool)
    ensures
        r == (value.view() is Object),
{
    match value {
        Json::Object(_) => true,
        _ => false,
    }
}

/// An object without fields.
pub fn is_empty_object(value: &Json) -> (r: bool)
    ensures
        r == value.view().is_empty_object(),
{
    match value {
        Json::Object(fields) => {
            proof {
                lemma_fields_view(fields@);
            }
            fields.len() == 0
        },
        _ => false,
    }
}

/// A string value.
pub fn text_value(s: &str) -> (r: Json)
    ensures
        r.view() == JsonView::Text(s@),
{
    Json::Text(s.to_owned())
}

/// A whole number.
pub fn whole_value(n: u64) -> (r: Json)
    ensures
        r.view() == JsonView::Number(JsonNumber::Whole(n)),
{
    Json::Number(JsonNumber::Whole(n))
}

/// Adds a field behind the others.
pub fn push_field(fields: &mut Vec<(String, Json)>, name: &str, value: Json)
    ensures
        fields_view(final(fields)@) == fields_view(old(fields)@).push((name@, value.view())),
{
    let ghost before = fields@;
    fields.push((name.to_owned(), value));
    assert(fields@.drop_last() =~= before);
}

/// Adds a value behind the others.
pub fn push_item(items: &mut Vec<Json>, value: Json)
    ensures
        list_view(final(items)@) == list_view(old(items)@).push(value.view()),
{
    let ghost before = items@;
    items.push(value);
    assert(items@.drop_last() =~= before);
}

/// The fields of an object once a name has a value: it stands at its place in the order of the
/// names, or takes the place of the value before.
pub open spec fn put(
    fields: Seq<(Seq<char>, JsonView)>,
    name: Seq<char>,
    value: JsonView,
) -> Seq<(Seq<char>, JsonView)>
    decreases fields.len(),
{
    if fields.len() == 0 {
        seq![(name, value)]
    } else if fields[0].0 == name {
        seq![(name, value)] + fields.skip(1)
    } else if before(name, fields[0].0) {
        seq![(name, value)] + fields
    } else {
        seq![fields[0]] + put(fields.skip(1), name, value)
    }
}

/// Giving a name a value keeps the fields in order, and changes the value of that name alone.
pub proof fn law_put_changes_one_field(
    fields: Seq<(Seq<char>, JsonView)>,
    name: Seq<char>,
    value: JsonView,
)
    requires
        names_in_order(fields),
    ensures
        names_in_order(put(fields, name, value)),
        forall|n: Seq<char>| #[trigger]
            field_of(put(fields, name, value), n) == (if n == name {
                Some(value)
            } else {
                field_of(fields, n)
            }),
        forall|i: int|
            0 <= i < put(fields, name, value).len() ==> (#[trigger] put(fields, name, value)[i]).0
                == name || field_of(fields, put(fields, name, value)[i].0) is Some,
    decreases fields.len(),
{
    let whole = put(fields, name, value);
    if fields.len() == 0 {
        assert(whole.skip(1) =~= fields);
    } else {
        let rest = fields.skip(1);
        assert forall|k: int, m: int| 0 <= k < m < rest.len() implies before(
            (#[trigger] rest[k]).0,
            (#[trigger] rest[m]).0,
        ) by {
            assert(rest[k] == fields[k + 1] && rest[m] == fields[m + 1]);
        }
        assert forall|i: int| 0 <= i < fields.len() implies field_of(
            fields,
            (#[trigger] fields[i]).0,
        ) is Some by {
            lemma_field_at(fields, i);
        }
        if fields[0].0 == name {
            assert(whole.skip(1) =~= rest);
            assert forall|i: int| 1 <= i < whole.len() implies whole[i] == #[trigger] fields[i] by {}
        } else if before(name, fields[0].0) {
            assert(whole.skip(1) =~= fields);
            assert forall|i: int, j: int| 0 <= i < j < whole.len() implies before(
                (#[trigger] whole[i]).0,
                (#[trigger] whole[j]).0,
            ) by {
                assert(whole[j] == fields[j - 1]);
                if i > 0 {
                    assert(whole[i] == fields[i - 1]);
                } else if j > 1 {
                    lemma_before_transitive(name, fields[0].0, fields[j - 1].0);
                }
            }
            assert forall|i: int| 0 <= i < whole.len() implies (#[trigger] whole[i]).0 == name
                || field_of(fields, whole[i].0) is Some by {
                if i > 0 {
                    assert(whole[i] == fields[i - 1]);
                }
            }
        } else {
            let tail = put(rest, name, value);
            law_put_changes_one_field(rest, name, value);
            lemma_before_total(name, fields[0].0);
            assert(whole.skip(1) =~= tail);
            assert forall|i: int| 0 <= i < tail.len() implies before(
                fields[0].0,
                (#[trigger] tail[i]).0,
            ) by {
                if tail[i].0 != name {
                    lemma_field_found(rest, tail[i].0);
                    let k = choose|k: int|
                        0 <= k < rest.len() && (#[trigger] rest[k]).0 == tail[i].0;
                    assert(rest[k] == fields[k + 1]);
                }
            }
            assert forall|i: int, j: int| 0 <= i < j < whole.len() implies before(
                (#[trigger] whole[i]).0,
                (#[trigger] whole[j]).0,
            ) by {
                assert(whole[j] == tail[j - 1]);
                if i > 0 {
                    assert(whole[i] == tail[i - 1]);
                }
            }
            assert forall|i: int| 0 <= i < whole.len() implies (#[trigger] whole[i]).0 == name
                || field_of(fields, whole[i].0) is Some by {
                if i > 0 {
                    assert(whole[i] == tail[i - 1]);
                    if whole[i].0 != name {
                        lemma_before_total(fields[0].0, whole[i].0);
                        assert(field_of(rest, whole[i].0) is Some);
                    }
                }
            }
        }
    }
    assert forall|n: Seq<char>| #[trigger] field_of(whole, n) == (if n == name {
        Some(value)
    } else {
        field_of(fields, n)
    }) by {
        assert(whole[0].0 == n || field_of(whole, n) == field_of(whole.skip(1), n));
        if fields.len() > 0 {
            assert(fields[0].0 == n || field_of(fields, n) == field_of(fields.skip(1), n));
        }
    }
}

pub proof fn lemma_put_is_found(
    fields: Seq<(Seq<char>, JsonView)>,
    name: Seq<char>,
    value: JsonView,
)
    ensures
        field_of(put(fields, name, value), name) == Some(value),
    decreases fields.len(),
{
    let whole = put(fields, name, value);
    if fields.len() > 0 && fields[0].0 != name && !before(name, fields[0].0) {
        lemma_put_is_found(fields.skip(1), name, value);
        assert(whole.skip(1) =~= put(fields.skip(1), name, value));
        assert(whole[0] == fields[0]);
    } else {
        assert(whole[0] == (name, value));
    }
}

/// Gives a name a value in the fields of an object.
pub fn put_field(fields: &mut Vec<(String, Json)>, name: &str, value: Json)
    ensures
        fields_view(final(fields)@) == put(fields_view(old(fields)@), name@, value.view()),
{
    let ghost all = fields_view(fields@);
    let ghost added = (name@, value.view());
    proof {
        lemma_fields_view(fields@);
        assert(all.skip(0) =~= all);
        assert(all.take(0) + put(all.skip(0), name@, value.view()) =~= put(
            all,
            name@,
            value.view(),
        ));
    }
    let mut i: usize = 0;
    while i < fields.len() && is_before(fields[i].0.as_str(), name)
        invariant
            fields@ == old(fields)@,
            all == fields_view(fields@),
            all.len() == fields@.len(),
            forall|k: int|
                #![trigger fields@[k]]
                0 <= k < fields@.len() ==> all[k] == (fields@[k].0@, fields@[k].1.view()),
            i <= fields@.len(),
            put(all, name@, value.view()) == all.take(i as int) + put(
                all.skip(i as int),
                name@,
                value.view(),
            ),
        decreases fields@.len() - i,
    {
        proof {
            let rest = all.skip(i as int);
            assert(rest[0] == all[i as int]);
            lemma_before_total(rest[0].0, name@);
            assert(rest.skip(1) =~= all.skip(i + 1));
            assert(all.take(i as int) + (seq![rest[0]] + put(all.skip(i + 1), name@, value.view()))
                =~= all.take(i + 1) + put(all.skip(i + 1), name@, value.view()));
        }
        i = i + 1;
    }
    let ghost rest = all.skip(i as int);
    let ghost old_fields = fields@;
    if i < fields.len() && same(fields[i].0.as_str(), name) {
        assert(rest[0] == all[i as int]);
        fields.set(i, (name.to_owned(), value));
        proof {
            lemma_fields_view(fields@);
            assert(fields_view(fields@) =~= all.take(i as int) + (seq![added] + rest.skip(1))) by {
                assert forall|k: int| 0 <= k < fields@.len() implies #[trigger] fields_view(
                    fields@,
                )[k] == (all.take(i as int) + (seq![added] + rest.skip(1)))[k] by {
                    assert(fields@[k] == (if k == i {
                        fields@[i as int]
                    } else {
                        old_fields[k]
                    }));
                }
            }
        }
    } else {
        proof {
            if i < fields.len() {
                assert(rest[0] == all[i as int]);
                lemma_before_total(rest[0].0, name@);
            }
        }
        fields.insert(i, (name.to_owned(), value));
        proof {
            lemma_fields_view(fields@);
            assert(fields_view(fields@) =~= all.take(i as int) + (seq![added] + rest)) by {
                assert forall|k: int| 0 <= k < fields@.len() implies #[trigger] fields_view(
                    fields@,
                )[k] == (all.take(i as int) + (seq![added] + rest))[k] by {
                    assert(fields@[k] == (if k < i {
                        old_fields[k]
                    } else if k == i {
                        fields@[i as int]
                    } else {
                        old_fields[k - 1]
                    }));
                }
            }
            assert(seq![added] + rest =~= put(rest, name@, value.view()));
        }
    }
}

/// Values that are alike are the same but for the sign of a zero: texts, truth values and numbers are
/// compared by what they are, lists one by one, and objects by their fields; what is of another kind
/// is never alike.
pub proof fn law_values_are_compared_by_what_they_are(a: JsonView, b: JsonView)
    ensures
        a == b ==> alike(a, b),
        alike(a, b) ==> match (a, b) {
            (JsonView::Null, JsonView::Null) => true,
            (JsonView::Bool(x), JsonView::Bool(y)) => x == y,
            (JsonView::Text(x), JsonView::Text(y)) => x == y,
            (JsonView::Number(x), JsonView::Number(y)) => x == y || (x matches JsonNumber::Real(v)
                && y matches JsonNumber::Real(w) && (v == 0 || v == 0x8000_0000_0000_0000) && (w
                == 0 || w == 0x8000_0000_0000_0000)),
            (JsonView::List(x), JsonView::List(y)) => x.len() == y.len() && forall|i: int|
                0 <= i < x.len() ==> alike(#[trigger] x[i], y[i]),
            (JsonView::Object(x), JsonView::Object(y)) => x.len() == y.len() && forall|i: int|
                0 <= i < x.len() ==> (#[trigger] x[i]).0 == y[i].0 && alike(x[i].1, y[i].1),
            _ => false,
        },
{
    lemma_alike_reflexive(a);
    match (a, b) {
        (JsonView::List(x), JsonView::List(y)) => {
            lemma_lists_alike(x, y);
        },
        (JsonView::Object(x), JsonView::Object(y)) => {
            lemma_fields_alike(x, y);
        },
        _ => {},
    }
}

/// A field is found under its name: the first one that has it.
pub proof fn law_fields_are_found_by_name(fields: Seq<(Seq<char>, JsonView)>, i: int)
    requires
        0 <= i < fields.len(),
        forall|k: int| 0 <= k < i ==> (#[trigger] fields[k]).0 != fields[i].0,
    ensures
        JsonView::Object(fields).get(fields[i].0) == Some(fields[i].1),
    decreases fields.len(),
{
    if i > 0 {
        assert(fields[0].0 != fields[i].0);
        let rest = fields.skip(1);
        assert(rest[i - 1] == fields[i]);
        assert forall|k: int| 0 <= k < i - 1 implies (#[trigger] rest[k]).0 != rest[i - 1].0 by {
            assert(rest[k] == fields[k + 1]);
        }
        law_fields_are_found_by_name(rest, i - 1);
    }
}

} // verus!
