//! Duplicate detection: rows are sorted by identity key, and the rows of
//! every key that occurs twice or more share a group number.

use crate::order::{key_le, key_order, lemma_key_order, lemma_key_order_transitive, order_keys};
use crate::row::{
    lemma_row_is_with_its_key, lemma_rows_with_key_concat, lemma_rows_with_key_empty,
    lemma_rows_with_key_members, lemma_ungrouped_with_key, occurrences, row_views, rows_with_key,
    same_key, ungrouped, ConvertedRow, IdentityKey, RowModel,
};
use vstd::prelude::*;

verus! {

/// What a conversion hands back: the rows, how many there are, and how many
/// of them belong to a duplicate group.
#[derive(Debug, Clone, PartialEq, Eq)]
pub struct ConversionResult {
    pub rows: Vec<ConvertedRow>,
    pub total_rows: usize,
    pub has_duplicates: bool,
    pub duplicate_count: usize,
}

/// The identity keys of `rows`, in order.
pub open spec fn keys_of(rows: Seq<RowModel>) -> Seq<IdentityKey> {
    Seq::new(rows.len(), |i: int| rows[i].key())
}

/// No row comes before a row with a smaller key.
pub open spec fn sorted_by_key(rows: Seq<RowModel>) -> bool {
    forall|i: int, j: int|
        #![trigger rows[i], rows[j]]
        0 <= i <= j < rows.len() ==> key_le(rows[i].key(), rows[j].key())
}

/// `out` holds the rows of `inp` sorted by identity key, and the rows of one
/// key stand in `out` in the order they have in `inp`.
pub open spec fn stably_sorted(out: Seq<RowModel>, inp: Seq<RowModel>) -> bool {
    &&& out.len() == inp.len()
    &&& sorted_by_key(out)
    &&& forall|key: IdentityKey| #[trigger] rows_with_key(out, key) == rows_with_key(inp, key)
}

/// Whether the key at `i` is also the key of a neighbour. In sorted rows
/// equal keys are adjacent, so this is where a key occurs twice or more.
pub open spec fn in_group(keys: Seq<IdentityKey>, i: int) -> bool {
    ||| (0 < i < keys.len() && keys[i - 1] == keys[i])
    ||| (0 <= i < keys.len() - 1 && keys[i + 1] == keys[i])
}

/// Whether `i` is the first position of a run of two or more equal keys.
pub open spec fn opens_group(keys: Seq<IdentityKey>, i: int) -> bool {
    &&& 0 <= i < keys.len() - 1
    &&& keys[i + 1] == keys[i]
    &&& (i > 0 ==> keys[i - 1] != keys[i])
}

/// How many groups open among the first `n` positions.
pub open spec fn groups_opened(keys: Seq<IdentityKey>, n: int) -> nat
    decreases n,
{
    if n <= 0 {
        0
    } else {
        groups_opened(keys, n - 1) + if opens_group(keys, n - 1) {
            1nat
        } else {
            0nat
        }
    }
}

/// How many of the first `n` positions are in a group.
pub open spec fn rows_in_groups(keys: Seq<IdentityKey>, n: int) -> nat
    decreases n,
{
    if n <= 0 {
        0
    } else {
        rows_in_groups(keys, n - 1) + if in_group(keys, n - 1) {
            1nat
        } else {
            0nat
        }
    }
}

/// The group number of position `i`: groups are numbered from 1 in the order
/// in which they open; a position outside any group has number 0.
pub open spec fn group_number(keys: Seq<IdentityKey>, i: int) -> nat {
    if in_group(keys, i) {
        groups_opened(keys, i + 1)
    } else {
        0
    }
}

/// What grouping makes of `rows`: the same orders sorted by identity key,
/// the rows of one key in the order they had; every row numbered by
/// `group_number`; and the counts that go with them. `duplicate_count` is the
/// number of rows that are in a group, not the number of groups.
pub open spec fn grouping_of(res: ConversionResult, rows: Seq<RowModel>) -> bool {
    &&& stably_sorted(ungrouped(row_views(res.rows@)), ungrouped(rows))
    &&& forall|i: int|
        0 <= i < res.rows@.len() ==> (#[trigger] res.rows@[i]).group_id == group_number(
            keys_of(row_views(res.rows@)),
            i,
        )
    &&& res.total_rows == rows.len()
    &&& res.duplicate_count == rows_in_groups(
        keys_of(row_views(res.rows@)),
        res.rows@.len() as int,
    )
    &&& res.has_duplicates == (res.duplicate_count > 0)
}

/// Every row of a sorted list is, but for its group number, a row of the
/// list that was sorted.
pub proof fn lemma_sorted_row_is_input_row(out: Seq<RowModel>, inp: Seq<RowModel>, i: int) -> (j:
    int)
    requires
        stably_sorted(ungrouped(out), ungrouped(inp)),
        0 <= i < out.len(),
    ensures
        0 <= j < inp.len(),
        out[i].with_group(0) == inp[j].with_group(0),
{
    let from = ungrouped(inp);
    let to = ungrouped(out);
    let key = to[i].key();
    lemma_row_is_with_its_key(to, i);
    lemma_rows_with_key_members(from, key);
    assert(rows_with_key(to, key) == rows_with_key(from, key));
    let at = choose|at: int|
        0 <= at < rows_with_key(from, key).len() && rows_with_key(from, key)[at] == to[i];
    assert(from.contains(rows_with_key(from, key)[at]));
    let j = choose|j: int| 0 <= j < from.len() && from[j] == to[i];
    j
}

proof fn lemma_between_equal(rows: Seq<RowModel>, i: int, p: int, j: int)
    requires
        sorted_by_key(rows),
        0 <= i <= p <= j < rows.len(),
        rows[i].key() == rows[j].key(),
    ensures
        rows[p].key() == rows[i].key(),
{
    assert(key_le(rows[i].key(), rows[p].key()));
    assert(key_le(rows[p].key(), rows[j].key()));
    lemma_key_order(rows[i].key(), rows[p].key());
    lemma_key_order(rows[p].key(), rows[j].key());
}

proof fn lemma_groups_opened_monotonic(keys: Seq<IdentityKey>, n: int, m: int)
    requires
        n <= m,
    ensures
        groups_opened(keys, n) <= groups_opened(keys, m),
    decreases m - n,
{
    if n < m {
        lemma_groups_opened_monotonic(keys, n, m - 1);
    }
}

proof fn lemma_group_start(keys: Seq<IdentityKey>, i: int) -> (p: int)
    requires
        in_group(keys, i),
    ensures
        0 <= p <= i,
        opens_group(keys, p),
        keys[p] == keys[i],
    decreases i,
{
    if i > 0 && keys[i - 1] == keys[i] {
        lemma_group_start(keys, i - 1)
    } else {
        i
    }
}

proof fn lemma_no_opening_within_run(rows: Seq<RowModel>, i: int, j: int)
    requires
        sorted_by_key(rows),
        0 <= i <= j < rows.len(),
        rows[i].key() == rows[j].key(),
    ensures
        groups_opened(keys_of(rows), j + 1) == groups_opened(keys_of(rows), i + 1),
    decreases j - i,
{
    if i < j {
        lemma_between_equal(rows, i, j - 1, j);
        lemma_no_opening_within_run(rows, i, j - 1);
        assert(keys_of(rows)[j - 1] == keys_of(rows)[j]);
    }
}

/// In sorted rows, a row has a neighbour with its key exactly when its key
/// occurs twice or more among all rows.
pub proof fn lemma_in_group_by_occurrences(rows: Seq<RowModel>, i: int)
    requires
        sorted_by_key(rows),
        0 <= i < rows.len(),
    ensures
        in_group(keys_of(rows), i) <==> occurrences(rows, rows[i].key()) >= 2,
{
    let keys = keys_of(rows);
    let key = rows[i].key();
    if in_group(keys, i) {
        let b = if i > 0 && keys[i - 1] == keys[i] {
            i
        } else {
            i + 1
        };
        let head = rows.take(b);
        let tail = rows.skip(b);
        assert(rows =~= head + tail);
        lemma_rows_with_key_concat(head, tail, key);
        assert(head[b - 1].key() == key);
        assert(tail[0].key() == key);
        lemma_rows_with_key_empty(head, key);
        lemma_rows_with_key_empty(tail, key);
    } else {
        let head = rows.take(i);
        let tail = rows.skip(i + 1);
        assert(rows =~= head + seq![rows[i]] + tail);
        lemma_rows_with_key_concat(head + seq![rows[i]], tail, key);
        lemma_rows_with_key_concat(head, seq![rows[i]], key);
        assert forall|k: int| 0 <= k < head.len() implies (#[trigger] head[k]).key() != key by {
            if head[k].key() == key {
                lemma_between_equal(rows, k, i - 1, i);
                assert(keys[i - 1] == keys[i]);
            }
        }
        assert forall|k: int| 0 <= k < tail.len() implies (#[trigger] tail[k]).key() != key by {
            if tail[k].key() == key {
                lemma_between_equal(rows, i, i + 1, i + 1 + k);
                assert(keys[i + 1] == keys[i]);
            }
        }
        lemma_rows_with_key_empty(head, key);
        lemma_rows_with_key_empty(tail, key);
        assert(seq![rows[i]].drop_last() =~= Seq::<RowModel>::empty());
        assert(rows_with_key(seq![rows[i]].drop_last(), key) =~= Seq::empty());
        assert(rows_with_key(seq![rows[i]], key).len() == 1);
    }
}

/// In sorted rows, every row of a group has a number of 1 or more, and two
/// rows of groups have the same number exactly when they have the same key.
pub proof fn lemma_group_numbers(rows: Seq<RowModel>, i: int, j: int)
    requires
        sorted_by_key(rows),
        0 <= i < rows.len(),
        0 <= j < rows.len(),
        in_group(keys_of(rows), i),
        in_group(keys_of(rows), j),
    ensures
        group_number(keys_of(rows), i) >= 1,
        group_number(keys_of(rows), i) == group_number(keys_of(rows), j) <==> rows[i].key()
            == rows[j].key(),
    decreases
            if i <= j {
                0int
            } else {
                1int
            },
{
    let keys = keys_of(rows);
    let p = lemma_group_start(keys, i);
    lemma_groups_opened_monotonic(keys, p + 1, i + 1);
    if i > j {
        lemma_group_numbers(rows, j, i);
    } else if rows[i].key() == rows[j].key() {
        lemma_no_opening_within_run(rows, i, j);
    } else {
        let q = lemma_group_start(keys, j);
        if q <= i {
            lemma_between_equal(rows, q, i, j);
        }
        lemma_groups_opened_monotonic(keys, i + 1, q);
        lemma_groups_opened_monotonic(keys, q + 1, j + 1);
    }
}

/// How many of the first `n` rows of `rows` have a key that occurs twice or
/// more in `rows`.
pub open spec fn duplicated_rows(rows: Seq<RowModel>, n: int) -> nat
    decreases n,
{
    if n <= 0 {
        0
    } else {
        duplicated_rows(rows, n - 1) + if occurrences(rows, rows[n - 1].key()) >= 2 {
            1nat
        } else {
            0nat
        }
    }
}

proof fn lemma_rows_in_groups(rows: Seq<RowModel>, n: int)
    requires
        sorted_by_key(rows),
        0 <= n <= rows.len(),
    ensures
        rows_in_groups(keys_of(rows), n) == duplicated_rows(rows, n),
    decreases n,
{
    if n > 0 {
        lemma_rows_in_groups(rows, n - 1);
        lemma_in_group_by_occurrences(rows, n - 1);
    }
}

proof fn lemma_duplicated_rows_ungrouped(rows: Seq<RowModel>, n: int)
    requires
        0 <= n <= rows.len(),
    ensures
        duplicated_rows(ungrouped(rows), n) == duplicated_rows(rows, n),
    decreases n,
{
    if n > 0 {
        lemma_duplicated_rows_ungrouped(rows, n - 1);
        lemma_ungrouped_with_key(rows, rows[n - 1].key());
    }
}

/// What the group numbers of a grouping tell: a row has a number above 0
/// exactly when its key occurs twice or more among the rows; two such rows
/// have the same number exactly when they have the same key; and
/// `duplicate_count` is the number of such rows.
pub proof fn lemma_grouping(res: ConversionResult, rows: Seq<RowModel>)
    requires
        grouping_of(res, rows),
    ensures
        forall|i: int|
            0 <= i < res.rows@.len() ==> ((#[trigger] res.rows@[i]).group_id > 0) == (occurrences(
                rows,
                res.rows@[i]@.key(),
            ) >= 2),
        forall|i: int, j: int|
            #![trigger res.rows@[i], res.rows@[j]]
            0 <= i < res.rows@.len() && 0 <= j < res.rows@.len() && res.rows@[i].group_id > 0
                && res.rows@[j].group_id > 0 ==> (res.rows@[i].group_id == res.rows@[j].group_id
                <==> res.rows@[i]@.key() == res.rows@[j]@.key()),
        res.duplicate_count == duplicated_rows(row_views(res.rows@), res.rows@.len() as int),
{
    let out = row_views(res.rows@);
    let sorted = ungrouped(out);
    let keys = keys_of(out);
    assert(keys_of(sorted) =~= keys);
    assert forall|i: int| 0 <= i < out.len() implies (in_group(keys, i) <==> occurrences(
        rows,
        out[i].key(),
    ) >= 2) && (in_group(keys, i) ==> group_number(keys, i) >= 1) by {
        let key = out[i].key();
        lemma_in_group_by_occurrences(sorted, i);
        lemma_ungrouped_with_key(rows, key);
        assert(rows_with_key(sorted, key) == rows_with_key(ungrouped(rows), key));
        if in_group(keys, i) {
            lemma_group_numbers(sorted, i, i);
        }
    }
    assert forall|i: int| 0 <= i < res.rows@.len() implies ((#[trigger] res.rows@[i]).group_id > 0)
        == (occurrences(rows, res.rows@[i]@.key()) >= 2) by {
        assert(out[i] == res.rows@[i]@);
    }
    assert forall|i: int, j: int|
        #![trigger res.rows@[i], res.rows@[j]]
        0 <= i < res.rows@.len() && 0 <= j < res.rows@.len() && res.rows@[i].group_id > 0
            && res.rows@[j].group_id > 0 implies (res.rows@[i].group_id == res.rows@[j].group_id
        <==> res.rows@[i]@.key() == res.rows@[j]@.key()) by {
        assert(out[i] == res.rows@[i]@ && out[j] == res.rows@[j]@);
        lemma_group_numbers(sorted, i, j);
    }
    lemma_rows_in_groups(sorted, out.len() as int);
    lemma_duplicated_rows_ungrouped(out, out.len() as int);
}

proof fn lemma_push_sorted(rows: Seq<RowModel>, x: RowModel)
    requires
        sorted_by_key(rows),
        forall|k: int| 0 <= k < rows.len() ==> key_le((#[trigger] rows[k]).key(), x.key()),
    ensures
        sorted_by_key(rows.push(x)),
{
    let t = rows.push(x);
    lemma_key_order(x.key(), x.key());
    assert forall|a: int, b: int| #![trigger t[a], t[b]] 0 <= a <= b < t.len() implies key_le(
        t[a].key(),
        t[b].key(),
    ) by {
        if b < rows.len() {
            assert(t[a] == rows[a] && t[b] == rows[b]);
        } else if a < rows.len() {
            assert(t[a] == rows[a]);
        }
    }
}

/// The order whose seven texts are all empty and that belongs to no group.
pub open spec fn blank_order() -> RowModel {
    RowModel {
        recipient_name: Seq::empty(),
        recipient_phone: Seq::empty(),
        delivery_address: Seq::empty(),
        product_name: Seq::empty(),
        product_spec: Seq::empty(),
        quantity: Seq::empty(),
        remarks: Seq::empty(),
        group_id: 0,
    }
}

/// An order without any text, to stand in a list where a row is taken out.
fn blank_row() -> (row: ConvertedRow)
    ensures
        row@ == blank_order(),
{
    ConvertedRow {
        recipient_name: String::new(),
        recipient_phone: String::new(),
        delivery_address: String::new(),
        product_name: String::new(),
        product_spec: String::new(),
        quantity: String::new(),
        remarks: String::new(),
        group_id: 0,
    }
}

/// Merges two sorted lists into one. Of rows with the same key, those of
/// `left` come first.
fn merge_sorted(left: Vec<ConvertedRow>, right: Vec<ConvertedRow>) -> (out: Vec<ConvertedRow>)
    requires
        sorted_by_key(row_views(left@)),
        sorted_by_key(row_views(right@)),
    ensures
        out@.len() == left@.len() + right@.len(),
        sorted_by_key(row_views(out@)),
        forall|key: IdentityKey| #[trigger]
            rows_with_key(row_views(out@), key) == rows_with_key(row_views(left@), key)
                + rows_with_key(row_views(right@), key),
{
    let ghost first = row_views(left@);
    let ghost second = row_views(right@);
    let mut left = left;
    let mut right = right;
    let mut out: Vec<ConvertedRow> = Vec::new();
    let mut i: usize = 0;
    let mut j: usize = 0;
    proof {
        assert forall|key: IdentityKey| #[trigger]
            rows_with_key(row_views(out@), key) == rows_with_key(first.take(0), key)
                + rows_with_key(second.take(0), key) by {
            assert(row_views(out@) =~= Seq::<RowModel>::empty());
            assert(first.take(0) =~= Seq::<RowModel>::empty());
            assert(second.take(0) =~= Seq::<RowModel>::empty());
            assert(rows_with_key(first.take(0), key) + rows_with_key(second.take(0), key)
                =~= Seq::<RowModel>::empty());
        }
    }
    while i < left.len() || j < right.len()
        invariant
            i <= first.len(),
            j <= second.len(),
            left@.len() == first.len(),
            right@.len() == second.len(),
            forall|k: int| i <= k < first.len() ==> (#[trigger] left@[k])@ == first[k],
            forall|k: int| j <= k < second.len() ==> (#[trigger] right@[k])@ == second[k],
            sorted_by_key(first),
            sorted_by_key(second),
            out@.len() == i + j,
            sorted_by_key(row_views(out@)),
            forall|key: IdentityKey| #[trigger]
                rows_with_key(row_views(out@), key) == rows_with_key(first.take(i as int), key)
                    + rows_with_key(second.take(j as int), key),
            forall|k: int|
                0 <= k < out@.len() && i < first.len() ==> key_le(
                    (#[trigger] out@[k])@.key(),
                    first[i as int].key(),
                ),
            forall|k: int|
                0 <= k < out@.len() && j < second.len() ==> key_le(
                    (#[trigger] out@[k])@.key(),
                    second[j as int].key(),
                ),
            forall|k: int|
                0 <= k < j && i < first.len() ==> key_order(
                    (#[trigger] second[k]).key(),
                    first[i as int].key(),
                ) < 0,
        decreases (first.len() - i) + (second.len() - j),
    {
        let from_left = if j >= right.len() {
            true
        } else if i >= left.len() {
            false
        } else {
            order_keys(&left[i], &right[j]) <= 0
        };
        let ghost before = row_views(out@);
        let mut row = blank_row();
        if from_left {
            left.set_and_swap(i, &mut row);
            out.push(row);
            proof {
                let x = first[i as int];
                assert(row_views(out@) =~= before.push(x));
                lemma_push_sorted(before, x);
                assert forall|key: IdentityKey| #[trigger]
                    rows_with_key(row_views(out@), key) == rows_with_key(first.take(i + 1), key)
                        + rows_with_key(second.take(j as int), key) by {
                    assert(first.take(i + 1).drop_last() =~= first.take(i as int));
                    assert(first.take(i + 1).last() == x);
                    assert(before.push(x).drop_last() =~= before);
                    assert(before.push(x).last() == x);
                    assert(rows_with_key(before, key) == rows_with_key(first.take(i as int), key)
                        + rows_with_key(second.take(j as int), key));
                    if key == x.key() {
                        assert forall|k: int| 0 <= k < j implies (#[trigger] second.take(
                            j as int,
                        )[k]).key() != key by {
                            lemma_key_order(second[k].key(), x.key());
                        }
                        lemma_rows_with_key_empty(second.take(j as int), key);
                        assert(rows_with_key(second.take(j as int), key) =~= Seq::empty());
                    }
                    assert(rows_with_key(before.push(x), key) =~= rows_with_key(
                        first.take(i + 1),
                        key,
                    ) + rows_with_key(second.take(j as int), key));
                }
                assert forall|k: int| 0 <= k < out@.len() && i + 1 < first.len() implies key_le(
                    (#[trigger] out@[k])@.key(),
                    first[i + 1].key(),
                ) by {
                    assert(key_le(first[i as int].key(), first[i + 1].key()));
                    if k < before.len() {
                        assert(out@[k]@ == before[k]);
                        lemma_key_order_transitive(out@[k]@.key(), x.key(), first[i + 1].key());
                    }
                }
                assert forall|k: int| 0 <= k < j && i + 1 < first.len() implies key_order(
                    (#[trigger] second[k]).key(),
                    first[i + 1].key(),
                ) < 0 by {
                    assert(key_le(first[i as int].key(), first[i + 1].key()));
                    lemma_key_order_transitive(second[k].key(), x.key(), first[i + 1].key());
                }
                assert forall|k: int| 0 <= k < out@.len() && j < second.len() implies key_le(
                    (#[trigger] out@[k])@.key(),
                    second[j as int].key(),
                ) by {
                    if k < before.len() {
                        assert(out@[k]@ == before[k]);
                    }
                }
            }
            i += 1;
        } else {
            right.set_and_swap(j, &mut row);
            out.push(row);
            proof {
                let y = second[j as int];
                assert(row_views(out@) =~= before.push(y));
                lemma_push_sorted(before, y);
                if i < first.len() {
                    lemma_key_order(first[i as int].key(), y.key());
                }
                assert forall|key: IdentityKey| #[trigger]
                    rows_with_key(row_views(out@), key) == rows_with_key(first.take(i as int), key)
                        + rows_with_key(second.take(j + 1), key) by {
                    assert(second.take(j + 1).drop_last() =~= second.take(j as int));
                    assert(second.take(j + 1).last() == y);
                    assert(before.push(y).drop_last() =~= before);
                    assert(before.push(y).last() == y);
                    assert(rows_with_key(before, key) == rows_with_key(first.take(i as int), key)
                        + rows_with_key(second.take(j as int), key));
                    assert(rows_with_key(before.push(y), key) =~= rows_with_key(
                        first.take(i as int),
                        key,
                    ) + rows_with_key(second.take(j + 1), key));
                }
                assert forall|k: int| 0 <= k < out@.len() && j + 1 < second.len() implies key_le(
                    (#[trigger] out@[k])@.key(),
                    second[j + 1].key(),
                ) by {
                    assert(key_le(second[j as int].key(), second[j + 1].key()));
                    if k < before.len() {
                        assert(out@[k]@ == before[k]);
                        lemma_key_order_transitive(out@[k]@.key(), y.key(), second[j + 1].key());
                    }
                }
                assert forall|k: int| 0 <= k < out@.len() && i < first.len() implies key_le(
                    (#[trigger] out@[k])@.key(),
                    first[i as int].key(),
                ) by {
                    if k < before.len() {
                        assert(out@[k]@ == before[k]);
                    }
                }
            }
            j += 1;
        }
    }
    proof {
        assert(first.take(i as int) =~= first);
        assert(second.take(j as int) =~= second);
    }
    out
}

/// Sorts rows by identity key. Rows with the same key keep their order.
pub fn sort_rows(rows: Vec<ConvertedRow>) -> (out: Vec<ConvertedRow>)
    ensures
        stably_sorted(row_views(out@), row_views(rows@)),
    decreases rows@.len(),
{
    if rows.len() <= 1 {
        proof {
            if rows@.len() == 1 {
                lemma_key_order(rows@[0]@.key(), rows@[0]@.key());
            }
        }
        return rows;
    }
    let ghost all = row_views(rows@);
    let mut left = rows;
    let middle = left.len() / 2;
    let right = left.split_off(middle);
    let ghost first = row_views(left@);
    let ghost second = row_views(right@);
    let left = sort_rows(left);
    let right = sort_rows(right);
    let out = merge_sorted(left, right);
    proof {
        assert(all =~= first + second);
        assert forall|key: IdentityKey| #[trigger]
            rows_with_key(row_views(out@), key) == rows_with_key(all, key) by {
            lemma_rows_with_key_concat(first, second, key);
            assert(rows_with_key(row_views(left@), key) == rows_with_key(first, key));
            assert(rows_with_key(row_views(right@), key) == rows_with_key(second, key));
        }
    }
    out
}

/// Numbers the groups of rows whose equal keys are adjacent, and counts the
/// rows that are in a group.
fn assign_groups(rows: Vec<ConvertedRow>) -> (res: ConversionResult)
    ensures
        res.rows@.len() == rows@.len(),
        ungrouped(row_views(res.rows@)) == ungrouped(row_views(rows@)),
        forall|i: int|
            0 <= i < rows@.len() ==> (#[trigger] res.rows@[i]).group_id == group_number(
                keys_of(row_views(rows@)),
                i,
            ),
        res.total_rows == rows@.len(),
        res.duplicate_count == rows_in_groups(keys_of(row_views(rows@)), rows@.len() as int),
        res.has_duplicates == (res.duplicate_count > 0),
{
    let ghost inp = row_views(rows@);
    let ghost keys = keys_of(inp);
    let mut rows = rows;
    let total = rows.len();
    let mut opened: usize = 0;
    let mut counted: usize = 0;
    let mut i: usize = 0;
    while i < total
        invariant
            i <= total,
            total == rows@.len(),
            total == inp.len(),
            keys == keys_of(inp),
            keys_of(row_views(rows@)) == keys,
            ungrouped(row_views(rows@)) == ungrouped(inp),
            forall|j: int| 0 <= j < i ==> (#[trigger] rows@[j]).group_id == group_number(keys, j),
            opened == groups_opened(keys, i as int),
            counted == rows_in_groups(keys, i as int),
            opened <= i,
            counted <= i,
        decreases total - i,
    {
        let ghost before = row_views(rows@);
        proof {
            assert(keys[i as int] == before[i as int].key());
            if i > 0 {
                assert(keys[i - 1] == before[i - 1].key());
            }
            if i + 1 < total {
                assert(keys[i + 1] == before[i + 1].key());
            }
        }
        let after_same = i + 1 < total && same_key(&rows[i + 1], &rows[i]);
        let before_same = i > 0 && same_key(&rows[i - 1], &rows[i]);
        if after_same && !before_same {
            opened += 1;
        }
        let number: usize = if after_same || before_same {
            counted += 1;
            opened
        } else {
            0
        };
        rows[i].group_id = number;
        proof {
            let now = row_views(rows@);
            assert(keys_of(now) =~= keys);
            assert(ungrouped(now) =~= ungrouped(before));
        }
        i += 1;
    }
    ConversionResult { rows, total_rows: total, has_duplicates: counted > 0, duplicate_count: counted }
}

/// Sorts the rows by identity key, gives the rows of every key that occurs
/// twice or more a shared group number, counted from 1 in sorted order, and
/// gives every other row the number 0.
pub fn group_duplicates(rows: Vec<ConvertedRow>) -> (res: ConversionResult)
    ensures
        grouping_of(res, row_views(rows@)),
{
    let sorted = sort_rows(rows);
    let res = assign_groups(sorted);
    proof {
        let inp = row_views(rows@);
        let mid = row_views(sorted@);
        let out = row_views(res.rows@);
        assert(keys_of(out) =~= keys_of(ungrouped(out)));
        assert(keys_of(mid) =~= keys_of(ungrouped(mid)));
        assert forall|i: int, j: int|
            #![trigger ungrouped(out)[i], ungrouped(out)[j]]
            0 <= i <= j < out.len() implies key_le(
            ungrouped(out)[i].key(),
            ungrouped(out)[j].key(),
        ) by {
            assert(ungrouped(mid)[i].key() == mid[i].key());
            assert(ungrouped(mid)[j].key() == mid[j].key());
        }
        assert forall|key: IdentityKey| #[trigger]
            rows_with_key(ungrouped(out), key) == rows_with_key(ungrouped(inp), key) by {
            lemma_ungrouped_with_key(mid, key);
            lemma_ungrouped_with_key(inp, key);
            assert(rows_with_key(mid, key) == rows_with_key(inp, key));
        }
    }
    res
}

} // verus!
