//! The order record that a conversion produces, and its mathematical model.

use vstd::prelude::*;

verus! {

/// One shipping order: seven text fields and the number of its duplicate
/// group (0 when it belongs to none).
#[derive(Debug, Clone, PartialEq, Eq)]
pub struct ConvertedRow {
    pub recipient_name: String,
    pub recipient_phone: String,
    pub delivery_address: String,
    pub product_name: String,
    pub product_spec: String,
    pub quantity: String,
    pub remarks: String,
    pub group_id: usize,
}

/// What identifies a recipient: name, phone and address.
pub struct IdentityKey {
    pub name: Seq<char>,
    pub phone: Seq<char>,
    pub address: Seq<char>,
}

/// The model of a `ConvertedRow`: its fields as character sequences.
pub struct RowModel {
    pub recipient_name: Seq<char>,
    pub recipient_phone: Seq<char>,
    pub delivery_address: Seq<char>,
    pub product_name: Seq<char>,
    pub product_spec: Seq<char>,
    pub quantity: Seq<char>,
    pub remarks: Seq<char>,
    pub group_id: nat,
}

impl RowModel {
    /// The identity key of the order.
    pub open spec fn key(self) -> IdentityKey {
        IdentityKey {
            name: self.recipient_name,
            phone: self.recipient_phone,
            address: self.delivery_address,
        }
    }

    /// The same order with another group number.
    pub open spec fn with_group(self, group_id: nat) -> RowModel {
        RowModel { group_id, ..self }
    }

    /// Whether at least one part of the identity key is filled in.
    pub open spec fn has_identity(self) -> bool {
        self.recipient_name.len() > 0 || self.recipient_phone.len() > 0
            || self.delivery_address.len() > 0
    }
}

impl View for ConvertedRow {
    type V = RowModel;

    open spec fn view(&self) -> RowModel {
        RowModel {
            recipient_name: self.recipient_name@,
            recipient_phone: self.recipient_phone@,
            delivery_address: self.delivery_address@,
            product_name: self.product_name@,
            product_spec: self.product_spec@,
            quantity: self.quantity@,
            remarks: self.remarks@,
            group_id: self.group_id as nat,
        }
    }
}

/// The models of a list of rows, in order.
pub open spec fn row_views(rows: Seq<ConvertedRow>) -> Seq<RowModel> {
    Seq::new(rows.len(), |i: int| rows[i]@)
}

/// The same orders, each with group number 0.
pub open spec fn ungrouped(rows: Seq<RowModel>) -> Seq<RowModel> {
    Seq::new(rows.len(), |i: int| rows[i].with_group(0))
}

/// The rows of `rows` whose identity key is `key`, in their order in `rows`.
pub open spec fn rows_with_key(rows: Seq<RowModel>, key: IdentityKey) -> Seq<RowModel>
    decreases rows.len(),
{
    if rows.len() == 0 {
        Seq::empty()
    } else if rows.last().key() == key {
        rows_with_key(rows.drop_last(), key).push(rows.last())
    } else {
        rows_with_key(rows.drop_last(), key)
    }
}

/// How many rows of `rows` have the identity key `key`.
pub open spec fn occurrences(rows: Seq<RowModel>, key: IdentityKey) -> nat {
    rows_with_key(rows, key).len()
}

/// The rows with a key in two lists joined are those in the first list,
/// then those in the second.
pub proof fn lemma_rows_with_key_concat(a: Seq<RowModel>, b: Seq<RowModel>, key: IdentityKey)
    ensures
        rows_with_key(a + b, key) == rows_with_key(a, key) + rows_with_key(b, key),
    decreases b.len(),
{
    if b.len() == 0 {
        assert(a + b =~= a);
        assert(rows_with_key(a, key) + rows_with_key(b, key) =~= rows_with_key(a, key));
    } else {
        assert((a + b).drop_last() =~= a + b.drop_last());
        assert((a + b).last() == b.last());
        lemma_rows_with_key_concat(a, b.drop_last(), key);
        if b.last().key() == key {
            assert(rows_with_key(a, key) + rows_with_key(b.drop_last(), key).push(b.last())
                =~= (rows_with_key(a, key) + rows_with_key(b.drop_last(), key)).push(b.last()));
        }
    }
}

/// Every row of `rows_with_key(rows, key)` is a row of `rows` with that key.
pub proof fn lemma_rows_with_key_members(rows: Seq<RowModel>, key: IdentityKey)
    ensures
        forall|i: int|
            0 <= i < rows_with_key(rows, key).len() ==> {
                &&& (#[trigger] rows_with_key(rows, key)[i]).key() == key
                &&& rows.contains(rows_with_key(rows, key)[i])
            },
        rows_with_key(rows, key).len() <= rows.len(),
    decreases rows.len(),
{
    if rows.len() > 0 {
        lemma_rows_with_key_members(rows.drop_last(), key);
        let init = rows_with_key(rows.drop_last(), key);
        assert forall|i: int| 0 <= i < rows_with_key(rows, key).len() implies {
            &&& (#[trigger] rows_with_key(rows, key)[i]).key() == key
            &&& rows.contains(rows_with_key(rows, key)[i])
        } by {
            if i < init.len() {
                let j = choose|j: int| 0 <= j < rows.drop_last().len() && rows.drop_last()[j] == init[i];
                assert(rows[j] == init[i]);
            } else {
                assert(rows[rows.len() - 1] == rows.last());
            }
        }
    }
}

/// No row of `rows` has the key `key` exactly when `rows_with_key` is empty.
pub proof fn lemma_rows_with_key_empty(rows: Seq<RowModel>, key: IdentityKey)
    ensures
        (forall|i: int| 0 <= i < rows.len() ==> (#[trigger] rows[i]).key() != key) <==> occurrences(
            rows,
            key,
        ) == 0,
    decreases rows.len(),
{
    if rows.len() > 0 {
        lemma_rows_with_key_empty(rows.drop_last(), key);
        if occurrences(rows, key) == 0 {
            assert forall|i: int| 0 <= i < rows.len() implies (#[trigger] rows[i]).key() != key by {
                if i < rows.len() - 1 {
                    assert(rows.drop_last()[i] == rows[i]);
                }
            }
        } else if rows.last().key() != key {
            let i = choose|i: int| 0 <= i < rows.len() - 1 && (#[trigger] rows.drop_last()[i]).key() == key;
            assert(rows[i].key() == key);
        } else {
            assert(rows[rows.len() - 1].key() == key);
        }
    }
}

/// Picking the rows of a key and clearing the group numbers can be done in
/// either order.
pub proof fn lemma_ungrouped_with_key(rows: Seq<RowModel>, key: IdentityKey)
    ensures
        rows_with_key(ungrouped(rows), key) == ungrouped(rows_with_key(rows, key)),
    decreases rows.len(),
{
    if rows.len() == 0 {
        assert(rows_with_key(ungrouped(rows), key) =~= ungrouped(rows_with_key(rows, key)));
    } else {
        lemma_ungrouped_with_key(rows.drop_last(), key);
        assert(ungrouped(rows).drop_last() =~= ungrouped(rows.drop_last()));
        assert(rows_with_key(ungrouped(rows), key) =~= ungrouped(rows_with_key(rows, key)));
    }
}

/// Every row of `rows` is among the rows with its key.
pub proof fn lemma_row_is_with_its_key(rows: Seq<RowModel>, i: int)
    requires
        0 <= i < rows.len(),
    ensures
        rows_with_key(rows, rows[i].key()).contains(rows[i]),
    decreases rows.len(),
{
    let key = rows[i].key();
    let init = rows_with_key(rows.drop_last(), key);
    if i == rows.len() - 1 {
        assert(rows_with_key(rows, key)[init.len() as int] == rows[i]);
    } else {
        lemma_row_is_with_its_key(rows.drop_last(), i);
        let at = choose|at: int| 0 <= at < init.len() && init[at] == rows.drop_last()[i];
        assert(rows_with_key(rows, key)[at] == rows[i]);
    }
}

/// Copies a row.
pub fn copy_row(row: &ConvertedRow) -> (out: ConvertedRow)
    ensures
        out@ == row@,
{
    ConvertedRow {
        recipient_name: row.recipient_name.clone(),
        recipient_phone: row.recipient_phone.clone(),
        delivery_address: row.delivery_address.clone(),
        product_name: row.product_name.clone(),
        product_spec: row.product_spec.clone(),
        quantity: row.quantity.clone(),
        remarks: row.remarks.clone(),
        group_id: row.group_id,
    }
}

/// Copies a list of rows.
pub fn copy_rows(rows: &[ConvertedRow]) -> (out: Vec<ConvertedRow>)
    ensures
        row_views(out@) == row_views(rows@),
{
    let mut out: Vec<ConvertedRow> = Vec::new();
    let mut i: usize = 0;
    while i < rows.len()
        invariant
            i <= rows@.len(),
            out@.len() == i,
            forall|j: int| 0 <= j < i ==> (#[trigger] out@[j])@ == rows@[j]@,
        decreases rows@.len() - i,
    {
        out.push(copy_row(&rows[i]));
        i += 1;
    }
    assert(row_views(out@) =~= row_views(rows@));
    out
}

/// Whether two rows have the same identity key.
pub fn same_key(a: &ConvertedRow, b: &ConvertedRow) -> (same: bool)
    ensures
        same == (a@.key() == b@.key()),
{
    a.recipient_name == b.recipient_name && a.recipient_phone == b.recipient_phone
        && a.delivery_address == b.delivery_address
}

} // verus!
