//! Tables of rows that have an id and keep an order.
use vstd::prelude::*;
use vstd::string::*;

use crate::ordered_text::{before, is_before, lemma_before_total, lemma_before_transitive};
use crate::text::same;

verus! {

/// A row: its id, the group that it belongs to, its place in the group, and when it was made.
pub trait Row: View + Sized {
    spec fn key_id(&self) -> Seq<char>;

    spec fn key_group(&self) -> Seq<char>;

    spec fn key_order(&self) -> int;

    spec fn key_time(&self) -> Seq<char>;

    fn row_id(&self) -> (r: &str)
        ensures
            r@ == self.key_id(),
    ;

    fn row_group(&self) -> (r: &str)
        ensures
            r@ == self.key_group(),
    ;

    fn row_order(&self) -> (r: i64)
        ensures
            r == self.key_order(),
    ;

    fn row_time(&self) -> (r: &str)
        ensures
            r@ == self.key_time(),
    ;

    fn copy_row(&self) -> (r: Self)
        ensures
            r@ == self@,
    ;
}

/// One row does not come behind another: by group, place and age.
pub open spec fn key_le<R: Row>(a: R, b: R) -> bool {
    before(a.key_group(), b.key_group()) || a.key_group() == b.key_group() && (a.key_order()
        < b.key_order() || a.key_order() == b.key_order() && !before(b.key_time(), a.key_time()))
}

/// The rows stand in their order.
pub open spec fn in_order<R: Row>(rows: Seq<R>) -> bool {
    forall|i: int, j: int| 0 <= i < j < rows.len() ==> key_le(#[trigger] rows[i], #[trigger] rows[j])
}

/// No id stands twice.
pub open spec fn ids_once<R: Row>(rows: Seq<R>) -> bool {
    forall|i: int, j: int|
        0 <= i < j < rows.len() ==> (#[trigger] rows[i]).key_id() != (#[trigger] rows[j]).key_id()
}

/// The row with this id; the first where more than one has it.
pub open spec fn row_with<R: Row>(rows: Seq<R>, id: Seq<char>) -> Option<R>
    decreases rows.len(),
{
    if rows.len() == 0 {
        None
    } else if rows[0].key_id() == id {
        Some(rows[0])
    } else {
        row_with(rows.skip(1), id)
    }
}

/// The rows without the one that has this id.
pub open spec fn without_row<R: Row>(rows: Seq<R>, id: Seq<char>) -> Seq<R>
    decreases rows.len(),
{
    if rows.len() == 0 {
        rows
    } else if rows.last().key_id() == id {
        without_row(rows.drop_last(), id)
    } else {
        without_row(rows.drop_last(), id).push(rows.last())
    }
}

/// The rows of a group; all of them where no group is named.
pub open spec fn rows_of<R: Row>(rows: Seq<R>, group: Option<Seq<char>>) -> Seq<R>
    decreases rows.len(),
{
    if rows.len() == 0 {
        rows
    } else if group is None || rows.last().key_group() == group->0 {
        rows_of(rows.drop_last(), group).push(rows.last())
    } else {
        rows_of(rows.drop_last(), group)
    }
}

/// The rows that do not belong to a group.
pub open spec fn rows_outside<R: Row>(rows: Seq<R>, group: Seq<char>) -> Seq<R>
    decreases rows.len(),
{
    if rows.len() == 0 {
        rows
    } else if rows.last().key_group() == group {
        rows_outside(rows.drop_last(), group)
    } else {
        rows_outside(rows.drop_last(), group).push(rows.last())
    }
}

/// How many rows stand in front of a row that is put in its place.
pub open spec fn spot<R: Row>(rows: Seq<R>, row: R) -> nat
    decreases rows.len(),
{
    if rows.len() == 0 || !key_le(rows[0], row) {
        0
    } else {
        1 + spot(rows.skip(1), row)
    }
}

/// The rows with one more, at its place.
pub open spec fn placed<R: Row>(rows: Seq<R>, row: R) -> Seq<R> {
    rows.insert(spot(rows, row) as int, row)
}

/// The rows once a row was saved: it takes the place of the one with its id.
pub open spec fn with_row<R: Row>(rows: Seq<R>, row: R) -> Seq<R> {
    placed(without_row(rows, row.key_id()), row)
}

/// The highest place in a group.
pub open spec fn top_order<R: Row>(rows: Seq<R>, group: Seq<char>) -> Option<int>
    decreases rows.len(),
{
    if rows.len() == 0 {
        None
    } else {
        let rest = top_order(rows.drop_last(), group);
        let last = rows.last();
        if last.key_group() == group && (rest is None || rest->0 < last.key_order()) {
            Some(last.key_order())
        } else {
            rest
        }
    }
}

/// The place behind all others of a group.
pub open spec fn next_order<R: Row>(rows: Seq<R>, group: Seq<char>) -> int {
    match top_order(rows, group) {
        Some(top) => top + 1,
        None => 0,
    }
}

/// The views of rows.
pub open spec fn row_views<R: Row>(rows: Seq<R>) -> Seq<R::V> {
    rows.map_values(|row: R| row@)
}

proof fn lemma_key_order<R: Row>(a: R, b: R, c: R)
    ensures
        key_le(a, b) || key_le(b, a),
        key_le(a, b) && key_le(b, c) ==> key_le(a, c),
{
    lemma_before_total(a.key_group(), b.key_group());
    lemma_before_total(b.key_group(), c.key_group());
    lemma_before_total(a.key_group(), c.key_group());
    lemma_before_total(a.key_time(), b.key_time());
    lemma_before_total(b.key_time(), c.key_time());
    lemma_before_total(a.key_time(), c.key_time());
    if before(a.key_group(), b.key_group()) && before(b.key_group(), c.key_group()) {
        lemma_before_transitive(a.key_group(), b.key_group(), c.key_group());
    }
    if key_le(a, b) && key_le(b, c) && before(c.key_time(), a.key_time()) && a.key_group()
        == b.key_group() && b.key_group() == c.key_group() && a.key_order() == b.key_order()
        && b.key_order() == c.key_order() {
        if b.key_time() != a.key_time() {
            lemma_before_transitive(c.key_time(), a.key_time(), b.key_time());
        }
    }
}

/// What is looked up is one of the rows.
pub proof fn lemma_row_with<R: Row>(rows: Seq<R>, id: Seq<char>)
    ensures
        match row_with(rows, id) {
            Some(row) => row.key_id() == id && rows.contains(row),
            None => forall|i: int| 0 <= i < rows.len() ==> (#[trigger] rows[i]).key_id() != id,
        },
    decreases rows.len(),
{
    if rows.len() > 0 {
        if rows[0].key_id() == id {
            assert(rows.contains(rows[0]));
        } else {
            lemma_row_with(rows.skip(1), id);
            match row_with(rows.skip(1), id) {
                Some(row) => {
                    let k = choose|k: int| 0 <= k < rows.len() - 1 && rows.skip(1)[k] == row;
                    assert(rows[k + 1] == row);
                },
                None => {
                    assert forall|i: int| 0 <= i < rows.len() implies (#[trigger] rows[i]).key_id()
                        != id by {
                        if i > 0 {
                            assert(rows.skip(1)[i - 1] == rows[i]);
                        }
                    }
                },
            }
        }
    }
}

proof fn lemma_found<R: Row>(rows: Seq<R>, i: int)
    requires
        ids_once(rows),
        0 <= i < rows.len(),
    ensures
        row_with(rows, rows[i].key_id()) == Some(rows[i]),
{
    let id = rows[i].key_id();
    lemma_row_with(rows, id);
    match row_with(rows, id) {
        Some(row) => {
            let k = choose|k: int| 0 <= k < rows.len() && rows[k] == row;
            if k < i {
                assert(rows[k].key_id() != rows[i].key_id());
            } else if i < k {
                assert(rows[i].key_id() != rows[k].key_id());
            }
        },
        None => {
            assert(rows[i].key_id() != id);
        },
    }
}

proof fn lemma_without_row<R: Row>(rows: Seq<R>, id: Seq<char>)
    ensures
        forall|k: int|
            0 <= k < without_row(rows, id).len() ==> rows.contains(
                #[trigger] without_row(rows, id)[k],
            ) && without_row(rows, id)[k].key_id() != id,
        forall|k: int|
            0 <= k < rows.len() && (#[trigger] rows[k]).key_id() != id ==> without_row(
                rows,
                id,
            ).contains(rows[k]),
        in_order(rows) ==> in_order(without_row(rows, id)),
        ids_once(rows) ==> ids_once(without_row(rows, id)),
    decreases rows.len(),
{
    if rows.len() > 0 {
        let head = rows.drop_last();
        let rest = without_row(head, id);
        let whole = without_row(rows, id);
        lemma_without_row(head, id);
        assert forall|k: int| 0 <= k < whole.len() implies rows.contains(#[trigger] whole[k])
            && whole[k].key_id() != id by {
            if k < rest.len() {
                assert(rest[k] == whole[k]);
                let m = choose|m: int| 0 <= m < head.len() && head[m] == rest[k];
                assert(rows[m] == rest[k]);
            } else {
                assert(rows[rows.len() - 1] == whole[k]);
            }
        }
        assert forall|k: int| 0 <= k < rows.len() && (#[trigger] rows[k]).key_id() != id implies whole.contains(
            rows[k],
        ) by {
            if k < head.len() {
                assert(head[k] == rows[k]);
                let m = choose|m: int| 0 <= m < rest.len() && rest[m] == rows[k];
                assert(whole[m] == rows[k]);
            } else {
                assert(whole[rest.len() as int] == rows[k]);
            }
        }
        if in_order(rows) {
            assert(in_order(head));
            assert forall|i: int, j: int| 0 <= i < j < whole.len() implies key_le(
                #[trigger] whole[i],
                #[trigger] whole[j],
            ) by {
                assert(whole[i] == rest[i]);
                if j < rest.len() {
                    assert(whole[j] == rest[j]);
                } else {
                    let m = choose|m: int| 0 <= m < head.len() && head[m] == rest[i];
                    assert(rows[m] == whole[i]);
                    assert(rows[rows.len() - 1] == whole[j]);
                }
            }
        }
        if ids_once(rows) {
            assert(ids_once(head));
            assert forall|i: int, j: int| 0 <= i < j < whole.len() implies (
            #[trigger] whole[i]).key_id() != (#[trigger] whole[j]).key_id() by {
                assert(whole[i] == rest[i]);
                if j < rest.len() {
                    assert(whole[j] == rest[j]);
                } else {
                    let m = choose|m: int| 0 <= m < head.len() && head[m] == rest[i];
                    assert(rows[m] == whole[i]);
                    assert(rows[rows.len() - 1] == whole[j]);
                }
            }
        }
    }
}

proof fn lemma_spot<R: Row>(rows: Seq<R>, row: R)
    ensures
        spot(rows, row) <= rows.len(),
        forall|k: int| 0 <= k < spot(rows, row) ==> key_le(#[trigger] rows[k], row),
        spot(rows, row) < rows.len() ==> !key_le(rows[spot(rows, row) as int], row),
    decreases rows.len(),
{
    if rows.len() > 0 && key_le(rows[0], row) {
        lemma_spot(rows.skip(1), row);
        assert forall|k: int| 0 <= k < spot(rows, row) implies key_le(#[trigger] rows[k], row) by {
            if k > 0 {
                assert(rows.skip(1)[k - 1] == rows[k]);
            }
        }
    }
}

proof fn lemma_placed<R: Row>(rows: Seq<R>, row: R)
    requires
        in_order(rows),
        ids_once(rows),
        forall|k: int| 0 <= k < rows.len() ==> (#[trigger] rows[k]).key_id() != row.key_id(),
    ensures
        in_order(placed(rows, row)),
        ids_once(placed(rows, row)),
        placed(rows, row).contains(row),
        forall|k: int| 0 <= k < rows.len() ==> placed(rows, row).contains(#[trigger] rows[k]),
        forall|k: int|
            0 <= k < placed(rows, row).len() ==> (#[trigger] placed(rows, row)[k]) == row
                || rows.contains(placed(rows, row)[k]),
{
    lemma_spot(rows, row);
    let at = spot(rows, row) as int;
    let whole = placed(rows, row);
    assert(whole[at] == row);
    assert forall|k: int| 0 <= k < rows.len() implies whole.contains(#[trigger] rows[k]) by {
        if k < at {
            assert(whole[k] == rows[k]);
        } else {
            assert(whole[k + 1] == rows[k]);
        }
    }
    assert forall|i: int, j: int| 0 <= i < j < whole.len() implies key_le(
        #[trigger] whole[i],
        #[trigger] whole[j],
    ) by {
        let x = if i < at {
            rows[i]
        } else if i == at {
            row
        } else {
            rows[i - 1]
        };
        let y = if j < at {
            rows[j]
        } else if j == at {
            row
        } else {
            rows[j - 1]
        };
        assert(whole[i] == x && whole[j] == y);
        if i == at {
            lemma_key_order(row, rows[at], rows[j - 1]);
            if at < j - 1 {
                assert(key_le(rows[at], rows[j - 1]));
            } else {
                lemma_key_order(row, rows[at], row);
            }
        }
    }
    assert forall|i: int, j: int| 0 <= i < j < whole.len() implies (#[trigger] whole[i]).key_id()
        != (#[trigger] whole[j]).key_id() by {
        if i < at {
            assert(whole[i] == rows[i]);
        } else if i > at {
            assert(whole[i] == rows[i - 1]);
        }
        if j < at {
            assert(whole[j] == rows[j]);
        } else if j > at {
            assert(whole[j] == rows[j - 1]);
        }
    }
    assert forall|k: int| 0 <= k < whole.len() implies (#[trigger] whole[k]) == row
        || rows.contains(whole[k]) by {
        if k < at {
            assert(whole[k] == rows[k]);
        } else if k > at {
            assert(whole[k] == rows[k - 1]);
        }
    }
}

/// A saved row is found under its id, the other rows are found as before, and the order is kept.
pub proof fn lemma_with_row<R: Row>(rows: Seq<R>, row: R)
    requires
        in_order(rows),
        ids_once(rows),
    ensures
        in_order(with_row(rows, row)),
        ids_once(with_row(rows, row)),
        row_with(with_row(rows, row), row.key_id()) == Some(row),
        forall|id: Seq<char>|
            id != row.key_id() ==> #[trigger] row_with(with_row(rows, row), id) == row_with(
                rows,
                id,
            ),
        forall|k: int|
            0 <= k < with_row(rows, row).len() ==> (#[trigger] with_row(rows, row)[k]) == row || (
            rows.contains(with_row(rows, row)[k]) && with_row(rows, row)[k].key_id()
                != row.key_id()),
{
    let rest = without_row(rows, row.key_id());
    let whole = with_row(rows, row);
    lemma_without_row(rows, row.key_id());
    lemma_placed(rest, row);
    let at = choose|k: int| 0 <= k < whole.len() && whole[k] == row;
    lemma_found(whole, at);
    assert forall|k: int| 0 <= k < whole.len() implies (#[trigger] whole[k]) == row || (
    rows.contains(whole[k]) && whole[k].key_id() != row.key_id()) by {
        if whole[k] != row {
            assert(rest.contains(whole[k]));
            let n = choose|n: int| 0 <= n < rest.len() && rest[n] == whole[k];
            assert(rows.contains(rest[n]));
        }
    }
    assert forall|id: Seq<char>| id != row.key_id() implies #[trigger] row_with(whole, id)
        == row_with(rows, id) by {
        lemma_row_with(rows, id);
        lemma_row_with(whole, id);
        match row_with(rows, id) {
            Some(other) => {
                let m = choose|m: int| 0 <= m < rows.len() && rows[m] == other;
                assert(rest.contains(rows[m]));
                let n = choose|n: int| 0 <= n < rest.len() && rest[n] == rows[m];
                assert(whole.contains(rest[n]));
                let k = choose|k: int| 0 <= k < whole.len() && whole[k] == rest[n];
                lemma_found(whole, k);
            },
            None => {
                match row_with(whole, id) {
                    Some(other) => {
                        let k = choose|k: int| 0 <= k < whole.len() && whole[k] == other;
                        assert(rest.contains(whole[k]));
                        let n = choose|n: int| 0 <= n < rest.len() && rest[n] == whole[k];
                        assert(rows.contains(rest[n]));
                        let m = choose|m: int| 0 <= m < rows.len() && rows[m] == rest[n];
                        assert(rows[m].key_id() != id);
                    },
                    None => {},
                }
            },
        }
    }
}

/// A removed row is not found again, and the other rows are found as before.
pub proof fn lemma_removed_row<R: Row>(rows: Seq<R>, id: Seq<char>)
    requires
        in_order(rows),
        ids_once(rows),
    ensures
        in_order(without_row(rows, id)),
        ids_once(without_row(rows, id)),
        row_with(without_row(rows, id), id) is None,
        forall|k: int|
            0 <= k < without_row(rows, id).len() ==> rows.contains(
                #[trigger] without_row(rows, id)[k],
            ) && without_row(rows, id)[k].key_id() != id,
        forall|other: Seq<char>|
            other != id ==> #[trigger] row_with(without_row(rows, id), other) == row_with(
                rows,
                other,
            ),
{
    let rest = without_row(rows, id);
    lemma_without_row(rows, id);
    lemma_row_with(rest, id);
    assert forall|other: Seq<char>| other != id implies #[trigger] row_with(rest, other)
        == row_with(rows, other) by {
        lemma_row_with(rows, other);
        lemma_row_with(rest, other);
        match row_with(rows, other) {
            Some(row) => {
                let m = choose|m: int| 0 <= m < rows.len() && rows[m] == row;
                assert(rest.contains(rows[m]));
                let n = choose|n: int| 0 <= n < rest.len() && rest[n] == rows[m];
                lemma_found(rest, n);
            },
            None => {
                match row_with(rest, other) {
                    Some(row) => {
                        let n = choose|n: int| 0 <= n < rest.len() && rest[n] == row;
                        assert(rows.contains(rest[n]));
                        let m = choose|m: int| 0 <= m < rows.len() && rows[m] == rest[n];
                        assert(rows[m].key_id() != other);
                    },
                    None => {},
                }
            },
        }
    }
}

/// Removing a group keeps the order and leaves exactly the rows of other groups.
pub proof fn lemma_rows_outside<R: Row>(rows: Seq<R>, group: Seq<char>)
    ensures
        forall|k: int|
            0 <= k < rows_outside(rows, group).len() ==> rows.contains(
                #[trigger] rows_outside(rows, group)[k],
            ) && rows_outside(rows, group)[k].key_group() != group,
        forall|k: int|
            0 <= k < rows.len() && (#[trigger] rows[k]).key_group() != group ==> rows_outside(
                rows,
                group,
            ).contains(rows[k]),
        in_order(rows) ==> in_order(rows_outside(rows, group)),
        ids_once(rows) ==> ids_once(rows_outside(rows, group)),
    decreases rows.len(),
{
    if rows.len() > 0 {
        let head = rows.drop_last();
        let rest = rows_outside(head, group);
        let whole = rows_outside(rows, group);
        lemma_rows_outside(head, group);
        assert forall|k: int| 0 <= k < whole.len() implies rows.contains(#[trigger] whole[k])
            && whole[k].key_group() != group by {
            if k < rest.len() {
                assert(rest[k] == whole[k]);
                let m = choose|m: int| 0 <= m < head.len() && head[m] == rest[k];
                assert(rows[m] == rest[k]);
            } else {
                assert(rows[rows.len() - 1] == whole[k]);
            }
        }
        assert forall|k: int|
            0 <= k < rows.len() && (#[trigger] rows[k]).key_group() != group implies whole.contains(
            rows[k],
        ) by {
            if k < head.len() {
                assert(head[k] == rows[k]);
                let m = choose|m: int| 0 <= m < rest.len() && rest[m] == rows[k];
                assert(whole[m] == rows[k]);
            } else {
                assert(whole[rest.len() as int] == rows[k]);
            }
        }
        if in_order(rows) {
            assert(in_order(head));
            assert forall|i: int, j: int| 0 <= i < j < whole.len() implies key_le(
                #[trigger] whole[i],
                #[trigger] whole[j],
            ) by {
                assert(whole[i] == rest[i]);
                if j < rest.len() {
                    assert(whole[j] == rest[j]);
                } else {
                    let m = choose|m: int| 0 <= m < head.len() && head[m] == rest[i];
                    assert(rows[m] == whole[i]);
                    assert(rows[rows.len() - 1] == whole[j]);
                }
            }
        }
        if ids_once(rows) {
            assert(ids_once(head));
            assert forall|i: int, j: int| 0 <= i < j < whole.len() implies (
            #[trigger] whole[i]).key_id() != (#[trigger] whole[j]).key_id() by {
                assert(whole[i] == rest[i]);
                if j < rest.len() {
                    assert(whole[j] == rest[j]);
                } else {
                    let m = choose|m: int| 0 <= m < head.len() && head[m] == rest[i];
                    assert(rows[m] == whole[i]);
                    assert(rows[rows.len() - 1] == whole[j]);
                }
            }
        }
    }
}

proof fn lemma_without_absent<R: Row>(rows: Seq<R>, id: Seq<char>)
    requires
        forall|k: int| 0 <= k < rows.len() ==> (#[trigger] rows[k]).key_id() != id,
    ensures
        without_row(rows, id) == rows,
    decreases rows.len(),
{
    if rows.len() > 0 {
        assert(rows[rows.len() - 1].key_id() != id);
        lemma_without_absent(rows.drop_last(), id);
        assert(rows.drop_last().push(rows.last()) =~= rows);
    }
}

proof fn lemma_without_at<R: Row>(rows: Seq<R>, i: int)
    requires
        ids_once(rows),
        0 <= i < rows.len(),
    ensures
        without_row(rows, rows[i].key_id()) == rows.remove(i),
    decreases rows.len(),
{
    let id = rows[i].key_id();
    let head = rows.drop_last();
    if i == rows.len() - 1 {
        lemma_without_absent(head, id);
        assert(rows.remove(i) =~= head);
    } else {
        lemma_without_at(head, i);
        assert(rows[i].key_id() != rows[rows.len() - 1].key_id());
        assert(head.remove(i).push(rows.last()) =~= rows.remove(i));
    }
}

fn is_key_le<R: Row>(a: &R, b: &R) -> (r: bool)
    ensures
        r == key_le(*a, *b),
{
    if is_before(a.row_group(), b.row_group()) {
        return true;
    }
    if !same(a.row_group(), b.row_group()) {
        return false;
    }
    a.row_order() < b.row_order() || a.row_order() == b.row_order() && !is_before(
        b.row_time(),
        a.row_time(),
    )
}

/// The rows of a table, each id once, in their order.
#[derive(Debug)]
pub struct Table<R> {
    pub rows: Vec<R>,
}

impl<R: Row> Table<R> {
    pub open spec fn wf(&self) -> bool {
        in_order(self.rows@) && ids_once(self.rows@)
    }

    /// A table without rows.
    pub fn new() -> (r: Self)
        ensures
            r.wf(),
            r.rows@.len() == 0,
    {
        Table { rows: Vec::new() }
    }

    /// The row with this id.
    pub fn get(&self, id: &str) -> (r: Option<&R>)
        ensures
            match r {
                Some(row) => row_with(self.rows@, id@) == Some(*row),
                None => row_with(self.rows@, id@) is None,
            },
    {
        let mut i: usize = 0;
        assert(self.rows@.skip(0) =~= self.rows@);
        while i < self.rows.len()
            invariant
                i <= self.rows@.len(),
                row_with(self.rows@, id@) == row_with(self.rows@.skip(i as int), id@),
            decreases self.rows@.len() - i,
        {
            assert(self.rows@.skip(i as int)[0] == self.rows@[i as int]);
            if same(self.rows[i].row_id(), id) {
                return Some(&self.rows[i]);
            }
            assert(self.rows@.skip(i as int).skip(1) =~= self.rows@.skip(i + 1));
            i = i + 1;
        }
        None
    }

    /// Removes the row with this id; says whether there was one.
    pub fn remove(&mut self, id: &str) -> (r: bool)
        requires
            old(self).wf(),
        ensures
            final(self).wf(),
            final(self).rows@ == without_row(old(self).rows@, id@),
            r == row_with(old(self).rows@, id@) is Some,
    {
        proof {
            lemma_removed_row(self.rows@, id@);
            lemma_row_with(self.rows@, id@);
        }
        let mut i: usize = 0;
        while i < self.rows.len()
            invariant
                self.rows@ == old(self).rows@,
                old(self).wf(),
                i <= self.rows@.len(),
                in_order(without_row(self.rows@, id@)),
                ids_once(without_row(self.rows@, id@)),
                forall|k: int| 0 <= k < i ==> (#[trigger] self.rows@[k]).key_id() != id@,
                row_with(self.rows@, id@) is None ==> forall|k: int|
                    0 <= k < self.rows@.len() ==> (#[trigger] self.rows@[k]).key_id() != id@,
            decreases self.rows@.len() - i,
        {
            if same(self.rows[i].row_id(), id) {
                proof {
                    lemma_without_at(self.rows@, i as int);
                    assert(self.rows@[i as int].key_id() == id@);
                }
                self.rows.remove(i);
                return true;
            }
            i = i + 1;
        }
        proof {
            lemma_without_absent(self.rows@, id@);
            lemma_row_with(self.rows@, id@);
        }
        false
    }

    /// Saves a row: it takes the place of the one with its id.
    pub fn put(&mut self, row: R)
        requires
            old(self).wf(),
        ensures
            final(self).wf(),
            final(self).rows@ == with_row(old(self).rows@, row),
    {
        proof {
            lemma_with_row(self.rows@, row);
        }
        self.remove(row.row_id());
        let ghost rest = self.rows@;
        let mut i: usize = 0;
        assert(rest.skip(0) =~= rest);
        while i < self.rows.len() && is_key_le(&self.rows[i], &row)
            invariant
                self.rows@ == rest,
                i <= rest.len(),
                spot(rest, row) == i + spot(rest.skip(i as int), row),
            decreases rest.len() - i,
        {
            assert(rest.skip(i as int)[0] == rest[i as int]);
            assert(rest.skip(i as int).skip(1) =~= rest.skip(i + 1));
            i = i + 1;
        }
        assert(i < rest.len() ==> rest.skip(i as int)[0] == rest[i as int]);
        assert(spot(rest, row) == i);
        self.rows.insert(i, row);
    }

    /// Removes the rows of a group.
    pub fn remove_group(&mut self, group: &str)
        requires
            old(self).wf(),
        ensures
            final(self).wf(),
            final(self).rows@ == rows_outside(old(self).rows@, group@),
    {
        let ghost all = self.rows@;
        let ghost mut done: int = 0;
        let mut i: usize = 0;
        proof {
            lemma_rows_outside(all, group@);
            assert(rows_outside(all.take(0), group@) + all.skip(0) =~= all);
        }
        while i < self.rows.len()
            invariant
                0 <= done <= all.len(),
                i == rows_outside(all.take(done), group@).len(),
                self.rows@ == rows_outside(all.take(done), group@) + all.skip(done),
            decreases all.len() - done,
        {
            let ghost kept = rows_outside(all.take(done), group@);
            assert(self.rows@[i as int] == all.skip(done)[0]);
            assert(all.take(done + 1).drop_last() =~= all.take(done));
            assert(all.take(done + 1).last() == all[done]);
            if same(self.rows[i].row_group(), group) {
                self.rows.remove(i);
                assert((kept + all.skip(done)).remove(i as int) =~= kept + all.skip(done + 1));
            } else {
                assert(kept + all.skip(done) =~= kept.push(all[done]) + all.skip(done + 1));
                i = i + 1;
            }
            proof {
                done = done + 1;
            }
        }
        proof {
            assert(done == all.len());
            assert(all.take(done) =~= all);
            assert(rows_outside(all, group@) + all.skip(done) =~= rows_outside(all, group@));
        }
    }

    /// The place behind all others of a group, where it can be counted to.
    pub fn next_order(&self, group: &str) -> (r: Option<i64>)
        ensures
            match r {
                Some(order) => order == next_order(self.rows@, group@),
                None => next_order(self.rows@, group@) > i64::MAX,
            },
    {
        let mut top: Option<i64> = None;
        let mut i: usize = 0;
        while i < self.rows.len()
            invariant
                i <= self.rows@.len(),
                match top {
                    Some(order) => top_order(self.rows@.take(i as int), group@) == Some(
                        order as int,
                    ),
                    None => top_order(self.rows@.take(i as int), group@) is None,
                },
            decreases self.rows@.len() - i,
        {
            assert(self.rows@.take(i + 1).drop_last() =~= self.rows@.take(i as int));
            if same(self.rows[i].row_group(), group) {
                let order = self.rows[i].row_order();
                match top {
                    Some(highest) => {
                        if highest < order {
                            top = Some(order);
                        }
                    },
                    None => {
                        top = Some(order);
                    },
                }
            }
            i = i + 1;
        }
        assert(self.rows@.take(i as int) =~= self.rows@);
        match top {
            Some(highest) => highest.checked_add(1),
            None => Some(0),
        }
    }

    /// The rows of a group, or all of them, in their order.
    pub fn list(&self, group: Option<&str>) -> (r: Vec<R>)
        ensures
            row_views(r@) == row_views(
                rows_of(
                    self.rows@,
                    match group {
                        Some(name) => Some(name@),
                        None => None,
                    },
                ),
            ),
    {
        let ghost wanted = match group {
            Some(name) => Some(name@),
            None => None,
        };
        let mut r: Vec<R> = Vec::new();
        let mut i: usize = 0;
        assert(row_views(r@) =~= row_views(rows_of(self.rows@.take(0), wanted)));
        while i < self.rows.len()
            invariant
                i <= self.rows@.len(),
                wanted == (match group {
                    Some(name) => Some(name@),
                    None => None,
                }),
                row_views(r@) == row_views(rows_of(self.rows@.take(i as int), wanted)),
            decreases self.rows@.len() - i,
        {
            assert(self.rows@.take(i + 1).drop_last() =~= self.rows@.take(i as int));
            let belongs = match group {
                Some(name) => same(self.rows[i].row_group(), name),
                None => true,
            };
            if belongs {
                let ghost before = r@;
                let ghost listed = rows_of(self.rows@.take(i as int), wanted);
                r.push(self.rows[i].copy_row());
                assert(row_views(r@) =~= row_views(before).push(self.rows@[i as int]@));
                assert(row_views(listed.push(self.rows@[i as int])) =~= row_views(listed).push(
                    self.rows@[i as int]@,
                ));
            }
            i = i + 1;
        }
        assert(self.rows@.take(i as int) =~= self.rows@);
        r
    }
}

/// The next place of a group is behind every row of it, and right behind the last one; the first
/// row of a group comes to the place 0.
pub proof fn law_the_next_place_is_right_behind_the_last<R: Row>(rows: Seq<R>, group: Seq<char>)
    ensures
        forall|k: int|
            0 <= k < rows.len() && (#[trigger] rows[k]).key_group() == group ==> rows[k].key_order()
                < next_order(rows, group),
        (exists|k: int|
            0 <= k < rows.len() && (#[trigger] rows[k]).key_group() == group && rows[k].key_order()
                + 1 == next_order(rows, group)) || (next_order(rows, group) == 0 && forall|k: int|
            0 <= k < rows.len() ==> (#[trigger] rows[k]).key_group() != group),
    decreases rows.len(),
{
    if rows.len() > 0 {
        let front = rows.drop_last();
        let last = rows.last();
        law_the_next_place_is_right_behind_the_last(front, group);
        assert(rows[rows.len() - 1] == last);
        assert forall|k: int| 0 <= k < front.len() implies #[trigger] rows[k] == front[k] by {}
        if exists|k: int|
            0 <= k < front.len() && (#[trigger] front[k]).key_group() == group
                && front[k].key_order() + 1 == next_order(front, group) {
            let k = choose|k: int|
                0 <= k < front.len() && (#[trigger] front[k]).key_group() == group
                    && front[k].key_order() + 1 == next_order(front, group);
            assert(rows[k] == front[k]);
            lemma_top_of_member(front, group, k);
        } else {
            lemma_top_of_none(front, group);
        }
    }
}

proof fn lemma_top_of_member<R: Row>(rows: Seq<R>, group: Seq<char>, k: int)
    requires
        0 <= k < rows.len(),
        rows[k].key_group() == group,
    ensures
        top_order(rows, group) is Some,
    decreases rows.len(),
{
    if k < rows.len() - 1 {
        assert(rows.drop_last()[k] == rows[k]);
        lemma_top_of_member(rows.drop_last(), group, k);
    }
}

proof fn lemma_top_of_none<R: Row>(rows: Seq<R>, group: Seq<char>)
    requires
        forall|k: int| 0 <= k < rows.len() ==> (#[trigger] rows[k]).key_group() != group,
    ensures
        top_order(rows, group) is None,
    decreases rows.len(),
{
    if rows.len() > 0 {
        assert(rows[rows.len() - 1].key_group() != group);
        assert forall|k: int| 0 <= k < rows.len() - 1 implies (
        #[trigger] rows.drop_last()[k]).key_group() != group by {
            assert(rows[k].key_group() != group);
        }
        lemma_top_of_none(rows.drop_last(), group);
    }
}

/// Rows of one group stand by their place, and those at one place by their age; groups stand apart.
pub proof fn law_rows_stand_by_place_and_age<R: Row>(a: R, b: R)
    ensures
        a.key_group() == b.key_group() && a.key_order() < b.key_order() ==> key_le(a, b) && !key_le(
            b,
            a,
        ),
        a.key_group() == b.key_group() && a.key_order() == b.key_order() && before(
            a.key_time(),
            b.key_time(),
        ) ==> key_le(a, b) && !key_le(b, a),
        before(a.key_group(), b.key_group()) ==> key_le(a, b) && !key_le(b, a),
{
    lemma_before_total(a.key_group(), b.key_group());
    lemma_before_total(a.key_group(), a.key_group());
    lemma_before_total(a.key_time(), b.key_time());
}

/// The rows of a group are those that belong to it, in their order; without a group all are meant.
pub proof fn law_rows_belong_to_their_group<R: Row>(rows: Seq<R>, row: R, group: Seq<char>)
    ensures
        row.key_group() == group ==> rows_of(rows.push(row), Some(group)) == rows_of(
            rows,
            Some(group),
        ).push(row),
        row.key_group() != group ==> rows_of(rows.push(row), Some(group)) == rows_of(
            rows,
            Some(group),
        ),
        rows_of(rows.push(row), None) == rows_of(rows, None).push(row),
{
    assert(rows.push(row).drop_last() =~= rows);
}

} // verus!
