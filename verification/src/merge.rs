//! Merging duplicates: the rows of one recipient become one order.

use crate::group::keys_of;
use crate::row::{
    copy_row, lemma_rows_with_key_concat, lemma_rows_with_key_empty, lemma_rows_with_key_members,
    row_views, rows_with_key, same_key, ungrouped, ConvertedRow, IdentityKey, RowModel,
};
use crate::text::{
    contains_text, decimal, decimal_string, join_strings, join_with, lemma_views_push, parse_usize,
    parsed_usize, repeated, views,
};
use vstd::prelude::*;
use vstd::string::*;

verus! {

/// What stands between the parts of a merged field: one full-width semicolon.
pub open spec fn separator_text() -> Seq<char> {
    seq!['；']
}

/// The separator of merged fields.
pub fn separator() -> (s: &'static str)
    ensures
        s@ == separator_text(),
{
    proof {
        reveal_strlit("；");
    }
    let s = "；";
    assert(s@ =~= separator_text());
    s
}

/// The distinct identity keys of `rows`, each at the place of its first row.
pub open spec fn first_keys(rows: Seq<RowModel>) -> Seq<IdentityKey>
    decreases rows.len(),
{
    if rows.len() == 0 {
        Seq::empty()
    } else if first_keys(rows.drop_last()).contains(rows.last().key()) {
        first_keys(rows.drop_last())
    } else {
        first_keys(rows.drop_last()).push(rows.last().key())
    }
}

/// The distinct non-empty texts of `values`, each at the place where it is
/// first seen.
pub open spec fn distinct_filled(values: Seq<Seq<char>>) -> Seq<Seq<char>>
    decreases values.len(),
{
    if values.len() == 0 {
        Seq::empty()
    } else if values.last().len() > 0 && !distinct_filled(values.drop_last()).contains(
        values.last(),
    ) {
        distinct_filled(values.drop_last()).push(values.last())
    } else {
        distinct_filled(values.drop_last())
    }
}

/// The product names of the rows of `group`, in order.
pub open spec fn product_names(group: Seq<RowModel>) -> Seq<Seq<char>> {
    Seq::new(group.len(), |i: int| group[i].product_name)
}

/// The product specs of the rows of `group`, in order.
pub open spec fn product_specs(group: Seq<RowModel>) -> Seq<Seq<char>> {
    Seq::new(group.len(), |i: int| group[i].product_spec)
}

/// The remarks of the rows of `group`, in order.
pub open spec fn remarks_of(group: Seq<RowModel>) -> Seq<Seq<char>> {
    Seq::new(group.len(), |i: int| group[i].remarks)
}

/// The quantity that a quantity field stands for: its number when it is an
/// unsigned decimal literal that a `usize` holds, and 1 otherwise.
pub open spec fn quantity_value(text: Seq<char>) -> nat {
    match parsed_usize(text) {
        Some(n) => n as nat,
        None => 1,
    }
}

/// The sum of the quantities of all rows of `group`.
pub open spec fn total_quantity(group: Seq<RowModel>) -> nat
    decreases group.len(),
{
    if group.len() == 0 {
        0
    } else {
        total_quantity(group.drop_last()) + quantity_value(group.last().quantity)
    }
}

/// The one order that stands for the rows of `group`, which share a key.
///
/// A single row stays as it is. Of several rows, the product names, the
/// product specs and the remarks are each reduced to their distinct
/// non-empty values and joined. The quantity is one `1` per product name
/// when there are several names, and the sum of the rows' quantities
/// otherwise. The group number is 0 in both cases.
pub open spec fn merged_row(group: Seq<RowModel>) -> RowModel {
    if group.len() == 1 {
        group[0].with_group(0)
    } else {
        let names = distinct_filled(product_names(group));
        RowModel {
            recipient_name: group[0].recipient_name,
            recipient_phone: group[0].recipient_phone,
            delivery_address: group[0].delivery_address,
            product_name: join_with(names, separator_text()),
            product_spec: join_with(distinct_filled(product_specs(group)), separator_text()),
            quantity: if names.len() > 1 {
                join_with(repeated(seq!['1'], names.len()), separator_text())
            } else {
                decimal(total_quantity(group))
            },
            remarks: join_with(distinct_filled(remarks_of(group)), separator_text()),
            group_id: 0,
        }
    }
}

/// One merged order per distinct identity key of `rows`, in the order in
/// which the keys first occur.
pub open spec fn merged(rows: Seq<RowModel>) -> Seq<RowModel> {
    Seq::new(
        first_keys(rows).len(),
        |i: int| merged_row(rows_with_key(rows, first_keys(rows)[i])),
    )
}

/// A key is among `first_keys` exactly when some row has it.
pub proof fn lemma_first_keys_contains(rows: Seq<RowModel>, key: IdentityKey)
    ensures
        first_keys(rows).contains(key) <==> exists|i: int|
            0 <= i < rows.len() && (#[trigger] rows[i]).key() == key,
    decreases rows.len(),
{
    if rows.len() > 0 {
        let init = rows.drop_last();
        lemma_first_keys_contains(init, key);
        lemma_first_keys_contains(init, rows.last().key());
        if first_keys(rows).contains(key) {
            if first_keys(init).contains(key) {
                let i = choose|i: int| 0 <= i < init.len() && (#[trigger] init[i]).key() == key;
                assert(rows[i].key() == key);
            } else {
                let at = choose|at: int|
                    0 <= at < first_keys(rows).len() && first_keys(rows)[at] == key;
                assert(at == first_keys(init).len()) by {
                    if at < first_keys(init).len() {
                        assert(first_keys(init)[at] == key);
                    }
                }
                assert(rows[rows.len() - 1].key() == key);
            }
        }
        if exists|i: int| 0 <= i < rows.len() && (#[trigger] rows[i]).key() == key {
            let i = choose|i: int| 0 <= i < rows.len() && (#[trigger] rows[i]).key() == key;
            if i < rows.len() - 1 {
                assert(init[i].key() == key);
                let at = choose|at: int|
                    0 <= at < first_keys(init).len() && first_keys(init)[at] == key;
                assert(first_keys(rows)[at] == key);
            } else if first_keys(init).contains(key) {
            } else {
                assert(first_keys(rows)[first_keys(init).len() as int] == key);
            }
        }
    }
}

/// Whether no two rows of `rows` have the same identity key.
pub open spec fn keys_distinct(rows: Seq<RowModel>) -> bool {
    forall|i: int, j: int|
        #![trigger rows[i], rows[j]]
        0 <= i < j < rows.len() ==> rows[i].key() != rows[j].key()
}

proof fn lemma_first_keys_of_distinct(rows: Seq<RowModel>)
    requires
        keys_distinct(rows),
    ensures
        first_keys(rows) == keys_of(rows),
    decreases rows.len(),
{
    if rows.len() == 0 {
        assert(first_keys(rows) =~= keys_of(rows));
    } else {
        let init = rows.drop_last();
        assert forall|i: int, j: int| #![trigger init[i], init[j]] 0 <= i < j < init.len() implies init[i].key()
            != init[j].key() by {
            assert(init[i] == rows[i] && init[j] == rows[j]);
        }
        lemma_first_keys_of_distinct(init);
        lemma_first_keys_contains(init, rows.last().key());
        if first_keys(init).contains(rows.last().key()) {
            let i = choose|i: int| 0 <= i < init.len() && (#[trigger] init[i]).key() == rows.last().key();
            assert(rows[i].key() == rows[rows.len() - 1].key());
        }
        assert(first_keys(rows) =~= keys_of(rows));
    }
}

proof fn lemma_only_row_with_key(rows: Seq<RowModel>, i: int)
    requires
        keys_distinct(rows),
        0 <= i < rows.len(),
    ensures
        rows_with_key(rows, rows[i].key()) == seq![rows[i]],
{
    let key = rows[i].key();
    let head = rows.take(i);
    let tail = rows.skip(i + 1);
    assert(rows =~= head + seq![rows[i]] + tail);
    lemma_rows_with_key_concat(head + seq![rows[i]], tail, key);
    lemma_rows_with_key_concat(head, seq![rows[i]], key);
    assert forall|k: int| 0 <= k < head.len() implies (#[trigger] head[k]).key() != key by {
        assert(head[k] == rows[k]);
    }
    assert forall|k: int| 0 <= k < tail.len() implies (#[trigger] tail[k]).key() != key by {
        assert(tail[k] == rows[i + 1 + k]);
    }
    lemma_rows_with_key_empty(head, key);
    lemma_rows_with_key_empty(tail, key);
    assert(seq![rows[i]].drop_last() =~= Seq::<RowModel>::empty());
    assert(rows_with_key(seq![rows[i]].drop_last(), key) =~= Seq::empty());
    assert(rows_with_key(seq![rows[i]], key) =~= seq![rows[i]]);
    assert(rows_with_key(rows, key) =~= seq![rows[i]]);
}

/// Merging rows whose identity keys are all different gives the same rows
/// back, in the same order, each with group number 0 and otherwise unchanged.
pub proof fn lemma_merge_of_distinct(rows: Seq<RowModel>)
    requires
        keys_distinct(rows),
    ensures
        merged(rows) == ungrouped(rows),
{
    lemma_first_keys_of_distinct(rows);
    assert forall|i: int| 0 <= i < rows.len() implies #[trigger] merged(rows)[i] == ungrouped(
        rows,
    )[i] by {
        lemma_only_row_with_key(rows, i);
    }
    assert(merged(rows) =~= ungrouped(rows));
}

proof fn lemma_first_keys_distinct(rows: Seq<RowModel>)
    ensures
        forall|i: int, j: int|
            0 <= i < j < first_keys(rows).len() ==> first_keys(rows)[i] != first_keys(rows)[j],
    decreases rows.len(),
{
    if rows.len() > 0 {
        let init = first_keys(rows.drop_last());
        lemma_first_keys_distinct(rows.drop_last());
        assert forall|i: int, j: int| 0 <= i < j < first_keys(rows).len() implies first_keys(
            rows,
        )[i] != first_keys(rows)[j] by {
            if j == init.len() {
                assert(init.contains(init[i]));
            }
        }
    }
}

/// After merging, every order has group number 0, the orders stand in the
/// order in which their keys first occur, and no two orders share a key.
pub proof fn lemma_merged_rows(rows: Seq<RowModel>)
    ensures
        keys_of(merged(rows)) == first_keys(rows),
        keys_distinct(merged(rows)),
        forall|i: int| 0 <= i < merged(rows).len() ==> (#[trigger] merged(rows)[i]).group_id == 0,
{
    let keys = first_keys(rows);
    assert forall|i: int| 0 <= i < keys.len() implies (#[trigger] merged(rows)[i]).key() == keys[i]
        && merged(rows)[i].group_id == 0 by {
        let key = keys[i];
        let group = rows_with_key(rows, key);
        lemma_first_keys_contains(rows, key);
        lemma_rows_with_key_empty(rows, key);
        lemma_rows_with_key_members(rows, key);
        assert(keys.contains(key));
        assert(group[0].key() == key);
    }
    assert(keys_of(merged(rows)) =~= keys);
    lemma_first_keys_distinct(rows);
    assert forall|i: int, j: int|
        #![trigger merged(rows)[i], merged(rows)[j]]
        0 <= i < j < merged(rows).len() implies merged(rows)[i].key() != merged(rows)[j].key() by {
        assert(merged(rows)[i].key() == keys[i]);
        assert(merged(rows)[j].key() == keys[j]);
    }
}

/// Merging is idempotent: merging merged rows changes nothing.
pub proof fn lemma_merge_idempotent(rows: Seq<RowModel>)
    ensures
        merged(merged(rows)) == merged(rows),
{
    lemma_merged_rows(rows);
    lemma_merge_of_distinct(merged(rows));
    assert(ungrouped(merged(rows)) =~= merged(rows));
}

fn quantity_of(text: &str) -> (n: usize)
    ensures
        n == quantity_value(text@),
{
    match parse_usize(text) {
        Some(n) => n,
        None => 1,
    }
}

fn ones(count: usize) -> (list: Vec<String>)
    ensures
        views(list@) == repeated(seq!['1'], count as nat),
{
    let mut list: Vec<String> = Vec::new();
    let mut i: usize = 0;
    while i < count
        invariant
            i <= count,
            list@.len() == i,
            forall|j: int| 0 <= j < i ==> (#[trigger] list@[j])@ == seq!['1'],
        decreases count - i,
    {
        proof {
            reveal_strlit("1");
        }
        let one = String::from_str("1");
        assert(one@ =~= seq!['1']);
        list.push(one);
        i += 1;
    }
    assert(views(list@) =~= repeated(seq!['1'], count as nat));
    list
}

fn note_distinct(list: &mut Vec<String>, value: &String, Ghost(seen): Ghost<Seq<Seq<char>>>)
    requires
        views(old(list)@) == distinct_filled(seen),
    ensures
        views(final(list)@) == distinct_filled(seen.push(value@)),
{
    proof {
        assert(seen.push(value@).drop_last() =~= seen);
    }
    if !value.as_str().is_empty() && !contains_text(list, value) {
        proof {
            lemma_views_push(list@, *value);
        }
        list.push(value.clone());
    }
}

/// The merged order of the rows of `rows` that share the key of `rows[first]`,
/// none of which stands before `first`.
fn merge_group(rows: &[ConvertedRow], first: usize) -> (out: ConvertedRow)
    requires
        first < rows@.len(),
        forall|j: int| 0 <= j < first ==> (#[trigger] rows@[j])@.key() != rows@[first as int]@.key(),
    ensures
        out@ == merged_row(rows_with_key(row_views(rows@), rows@[first as int]@.key())),
{
    let ghost all = row_views(rows@);
    let ghost key = rows@[first as int]@.key();
    let mut names: Vec<String> = Vec::new();
    let mut specs: Vec<String> = Vec::new();
    let mut remarks: Vec<String> = Vec::new();
    let mut total: u128 = 0;
    let mut members: usize = 0;
    let mut j: usize = first;
    proof {
        assert(all.subrange(first as int, first as int) =~= Seq::<RowModel>::empty());
        assert(product_names(Seq::<RowModel>::empty()) =~= Seq::<Seq<char>>::empty());
        assert(product_specs(Seq::<RowModel>::empty()) =~= Seq::<Seq<char>>::empty());
        assert(remarks_of(Seq::<RowModel>::empty()) =~= Seq::<Seq<char>>::empty());
        assert(views(names@) =~= Seq::<Seq<char>>::empty());
    }
    while j < rows.len()
        invariant
            first <= j <= rows@.len(),
            all == row_views(rows@),
            key == rows@[first as int]@.key(),
            members == rows_with_key(all.subrange(first as int, j as int), key).len(),
            members <= j - first,
            j > first ==> members >= 1 && rows_with_key(all.subrange(first as int, j as int), key)[0]
                == all[first as int],
            views(names@) == distinct_filled(
                product_names(rows_with_key(all.subrange(first as int, j as int), key)),
            ),
            views(specs@) == distinct_filled(
                product_specs(rows_with_key(all.subrange(first as int, j as int), key)),
            ),
            views(remarks@) == distinct_filled(
                remarks_of(rows_with_key(all.subrange(first as int, j as int), key)),
            ),
            total == total_quantity(rows_with_key(all.subrange(first as int, j as int), key)),
            total <= members * 0xffff_ffff_ffff_ffff,
        decreases rows@.len() - j,
    {
        let ghost group = rows_with_key(all.subrange(first as int, j as int), key);
        proof {
            assert(all.subrange(first as int, j + 1).drop_last() =~= all.subrange(
                first as int,
                j as int,
            ));
            assert(all.subrange(first as int, j + 1).last() == all[j as int]);
        }
        if same_key(&rows[j], &rows[first]) {
            let row = &rows[j];
            proof {
                let next = group.push(row@);
                assert(next.drop_last() =~= group);
                assert(product_names(next) =~= product_names(group).push(row@.product_name));
                assert(product_specs(next) =~= product_specs(group).push(row@.product_spec));
                assert(remarks_of(next) =~= remarks_of(group).push(row@.remarks));
            }
            note_distinct(&mut names, &row.product_name, Ghost(product_names(group)));
            note_distinct(&mut specs, &row.product_spec, Ghost(product_specs(group)));
            note_distinct(&mut remarks, &row.remarks, Ghost(remarks_of(group)));
            let quantity = quantity_of(row.quantity.as_str());
            assert(total + quantity <= (members + 1) * 0xffff_ffff_ffff_ffff) by (nonlinear_arith)
                requires
                    total <= members * 0xffff_ffff_ffff_ffff,
                    quantity <= 0xffff_ffff_ffff_ffff,
            ;
            assert((members + 1) * 0xffff_ffff_ffff_ffff <= u128::MAX) by (nonlinear_arith)
                requires
                    members <= 0xffff_ffff_ffff_ffff,
            ;
            total = total + quantity as u128;
            members += 1;
        }
        j += 1;
    }
    proof {
        let tail = all.subrange(first as int, rows@.len() as int);
        let head = all.take(first as int);
        assert(all =~= head + tail);
        lemma_rows_with_key_concat(head, tail, key);
        assert forall|i: int| 0 <= i < head.len() implies (#[trigger] head[i]).key() != key by {
            assert(head[i] == rows@[i]@);
        }
        lemma_rows_with_key_empty(head, key);
        assert(rows_with_key(head, key) =~= Seq::empty());
        assert(rows_with_key(all, key) =~= rows_with_key(tail, key));
    }
    if members == 1 {
        let mut out = copy_row(&rows[first]);
        out.group_id = 0;
        out
    } else {
        let quantity = if names.len() > 1 {
            join_strings(&ones(names.len()), separator())
        } else {
            decimal_string(total)
        };
        ConvertedRow {
            recipient_name: rows[first].recipient_name.clone(),
            recipient_phone: rows[first].recipient_phone.clone(),
            delivery_address: rows[first].delivery_address.clone(),
            product_name: join_strings(&names, separator()),
            product_spec: join_strings(&specs, separator()),
            quantity,
            remarks: join_strings(&remarks, separator()),
            group_id: 0,
        }
    }
}

/// Collapses the rows of every identity key into one order.
///
/// The result holds one order per distinct key, in the order in which the
/// keys first occur in `rows`; see `merged_row` for what each order holds.
pub fn merge_duplicates(rows: &[ConvertedRow]) -> (out: Vec<ConvertedRow>)
    ensures
        row_views(out@) == merged(row_views(rows@)),
{
    let ghost all = row_views(rows@);
    let mut out: Vec<ConvertedRow> = Vec::new();
    let mut i: usize = 0;
    proof {
        assert(all.take(0) =~= Seq::<RowModel>::empty());
    }
    while i < rows.len()
        invariant
            i <= rows@.len(),
            all == row_views(rows@),
            out@.len() == first_keys(all.take(i as int)).len(),
            forall|j: int|
                0 <= j < out@.len() ==> (#[trigger] out@[j])@ == merged_row(
                    rows_with_key(all, first_keys(all.take(i as int))[j]),
                ),
        decreases rows@.len() - i,
    {
        let ghost key = all[i as int].key();
        let ghost known = first_keys(all.take(i as int));
        proof {
            assert(all.take(i + 1).drop_last() =~= all.take(i as int));
            assert(all.take(i + 1).last() == all[i as int]);
            lemma_first_keys_contains(all.take(i as int), key);
        }
        let mut seen = false;
        let mut j: usize = 0;
        while j < i && !seen
            invariant
                j <= i < rows@.len(),
                all == row_views(rows@),
                key == all[i as int].key(),
                seen ==> exists|k: int| 0 <= k < i && (#[trigger] all[k]).key() == key,
                !seen ==> forall|k: int| 0 <= k < j ==> (#[trigger] all[k]).key() != key,
            decreases i - j + if seen { 0int } else { 1int },
        {
            if same_key(&rows[j], &rows[i]) {
                assert(all[j as int].key() == key);
                seen = true;
            } else {
                j += 1;
            }
        }
        proof {
            if seen {
                let k = choose|k: int| 0 <= k < i && (#[trigger] all[k]).key() == key;
                assert(all.take(i as int)[k].key() == key);
            } else {
                assert forall|k: int| 0 <= k < all.take(i as int).len() implies (
                #[trigger] all.take(i as int)[k]).key() != key by {
                    assert(all.take(i as int)[k] == all[k]);
                }
            }
            assert(seen == known.contains(key));
        }
        if !seen {
            assert forall|k: int| 0 <= k < i implies (#[trigger] rows@[k])@.key() != rows@[i as int]@.key() by {
                assert(all[k] == rows@[k]@);
            }
            let row = merge_group(rows, i);
            out.push(row);
        }
        i += 1;
    }
    proof {
        assert(all.take(rows@.len() as int) =~= all);
        assert(row_views(out@) =~= merged(all));
    }
    out
}

} // verus!
