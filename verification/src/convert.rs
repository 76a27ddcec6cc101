//! The conversion of a sheet: one order per data row, built as the mapping
//! table says, then sorted and grouped.

use crate::cell::{cell_at, cell_views, get_cell, sheet_view, Cell, CellModel, FloatValue};
use crate::group::{
    group_duplicates, grouping_of, lemma_sorted_row_is_input_row, ConversionResult,
};
use crate::mapping::{
    applied, apply_operation, works_on_numbers, ColumnMapping, MappingModel, MappingTable,
    Operation, TableModel,
};
use crate::row::{row_views, ConvertedRow, RowModel};
use crate::text::{concat_all, views};
use vstd::prelude::*;
use vstd::string::*;

verus! {

/// The texts of the cells of `cells` at `indices`, in the order of `indices`.
pub open spec fn gathered(cells: Seq<CellModel>, indices: Seq<usize>) -> Seq<Seq<char>> {
    Seq::new(indices.len(), |i: int| cell_at(cells, indices[i] as int))
}

/// Whether `out` is the value of a field with the source `mapping` in the
/// row `cells`: the field's default where it has no source, and else what the
/// mapping's operation makes of the cells it names.
pub open spec fn field_resolved<F: Fn(Operation, &Vec<String>) -> Option<FloatValue>>(
    numeric: &F,
    cells: Seq<CellModel>,
    mapping: Option<MappingModel>,
    default: Seq<char>,
    out: Seq<char>,
) -> bool {
    match mapping {
        Some(m) => applied(numeric, m.operation, gathered(cells, m.source_indices), out),
        None => out == default,
    }
}

/// Whether `row` is the order that `table` makes of the row `cells`. The
/// quantity defaults to `1`, every other field to the empty text.
pub open spec fn row_converted<F: Fn(Operation, &Vec<String>) -> Option<FloatValue>>(
    numeric: &F,
    cells: Seq<CellModel>,
    table: TableModel,
    row: RowModel,
) -> bool {
    &&& field_resolved(numeric, cells, table.recipient_name, Seq::empty(), row.recipient_name)
    &&& field_resolved(numeric, cells, table.recipient_phone, Seq::empty(), row.recipient_phone)
    &&& field_resolved(numeric, cells, table.delivery_address, Seq::empty(), row.delivery_address)
    &&& field_resolved(numeric, cells, table.product_name, Seq::empty(), row.product_name)
    &&& field_resolved(numeric, cells, table.product_spec, Seq::empty(), row.product_spec)
    &&& field_resolved(numeric, cells, table.quantity, seq!['1'], row.quantity)
    &&& field_resolved(numeric, cells, table.remarks, Seq::empty(), row.remarks)
    &&& row.group_id == 0
}

/// The rows of a sheet below its header row.
pub open spec fn data_rows(sheet: Seq<Seq<CellModel>>) -> Seq<Seq<CellModel>> {
    if sheet.len() == 0 {
        sheet
    } else {
        sheet.skip(1)
    }
}

/// The rows of `rows` that have an identity, in their order.
pub open spec fn identified(rows: Seq<RowModel>) -> Seq<RowModel>
    decreases rows.len(),
{
    if rows.len() == 0 {
        Seq::empty()
    } else if rows.last().has_identity() {
        identified(rows.drop_last()).push(rows.last())
    } else {
        identified(rows.drop_last())
    }
}

/// Whether `all` holds, row for row, the orders that `table` makes of the
/// data rows of `sheet`.
pub open spec fn all_converted<F: Fn(Operation, &Vec<String>) -> Option<FloatValue>>(
    numeric: &F,
    sheet: Seq<Seq<CellModel>>,
    table: TableModel,
    all: Seq<RowModel>,
) -> bool {
    &&& all.len() == data_rows(sheet).len()
    &&& forall|i: int|
        0 <= i < all.len() ==> row_converted(numeric, data_rows(sheet)[i], table, #[trigger] all[i])
}

/// Whether `kept` holds the orders that `table` makes of the data rows of
/// `sheet`, in the order of the rows and without those that have no identity.
pub open spec fn rows_converted<F: Fn(Operation, &Vec<String>) -> Option<FloatValue>>(
    numeric: &F,
    sheet: Seq<Seq<CellModel>>,
    table: TableModel,
    kept: Seq<RowModel>,
) -> bool {
    exists|all: Seq<RowModel>| #[trigger]
        all_converted(numeric, sheet, table, all) && kept == identified(all)
}

/// Every row of `identified(rows)` has an identity.
pub proof fn lemma_identified(rows: Seq<RowModel>)
    ensures
        forall|i: int|
            0 <= i < identified(rows).len() ==> (#[trigger] identified(rows)[i]).has_identity(),
    decreases rows.len(),
{
    if rows.len() > 0 {
        let init = identified(rows.drop_last());
        lemma_identified(rows.drop_last());
        assert forall|i: int| 0 <= i < identified(rows).len() implies (#[trigger] identified(
            rows,
        )[i]).has_identity() by {
            if i < init.len() {
                assert(init[i].has_identity());
            }
        }
    }
}

fn gather(row: &[Cell], indices: &Vec<usize>) -> (values: Vec<String>)
    ensures
        views(values@) == gathered(cell_views(row@), indices@),
{
    let mut values: Vec<String> = Vec::new();
    let mut i: usize = 0;
    while i < indices.len()
        invariant
            i <= indices@.len(),
            values@.len() == i,
            forall|j: int|
                0 <= j < i ==> (#[trigger] values@[j])@ == cell_at(
                    cell_views(row@),
                    indices@[j] as int,
                ),
        decreases indices@.len() - i,
    {
        values.push(get_cell(row, indices[i]));
        i += 1;
    }
    assert(views(values@) =~= gathered(cell_views(row@), indices@));
    values
}

fn resolve_field<F: Fn(Operation, &Vec<String>) -> Option<FloatValue>>(
    row: &[Cell],
    mapping: &Option<ColumnMapping>,
    default: &str,
    numeric: &F,
) -> (out: String)
    requires
        works_on_numbers(numeric),
    ensures
        field_resolved(
            numeric,
            cell_views(row@),
            crate::mapping::mapping_view(*mapping),
            default@,
            out@,
        ),
{
    match mapping {
        Some(m) => apply_operation(gather(row, &m.source_indices), m.operation.as_str(), numeric),
        None => String::from_str(default),
    }
}

/// Builds the order of one row: every field from its mapping, or its default
/// where it has none.
pub fn convert_row<F: Fn(Operation, &Vec<String>) -> Option<FloatValue>>(
    row: &[Cell],
    table: &MappingTable,
    numeric: &F,
) -> (out: ConvertedRow)
    requires
        works_on_numbers(numeric),
    ensures
        row_converted(numeric, cell_views(row@), table@, out@),
{
    proof {
        reveal_strlit("");
        reveal_strlit("1");
        assert(""@ =~= Seq::<char>::empty());
        assert("1"@ =~= seq!['1']);
    }
    ConvertedRow {
        recipient_name: resolve_field(row, &table.recipient_name, "", numeric),
        recipient_phone: resolve_field(row, &table.recipient_phone, "", numeric),
        delivery_address: resolve_field(row, &table.delivery_address, "", numeric),
        product_name: resolve_field(row, &table.product_name, "", numeric),
        product_spec: resolve_field(row, &table.product_spec, "", numeric),
        quantity: resolve_field(row, &table.quantity, "1", numeric),
        remarks: resolve_field(row, &table.remarks, "", numeric),
        group_id: 0,
    }
}

/// Builds the orders of all data rows of `sheet`, in the order of the rows,
/// and leaves out every order whose name, phone and address are all empty.
/// The first row of the sheet is its header and gives no order.
pub fn convert_rows<F: Fn(Operation, &Vec<String>) -> Option<FloatValue>>(
    sheet: &[Vec<Cell>],
    table: &MappingTable,
    numeric: &F,
) -> (kept: Vec<ConvertedRow>)
    requires
        works_on_numbers(numeric),
    ensures
        rows_converted(numeric, sheet_view(sheet@), table@, row_views(kept@)),
{
    let mut kept: Vec<ConvertedRow> = Vec::new();
    let ghost all: Seq<RowModel> = Seq::empty();
    let ghost rows = data_rows(sheet_view(sheet@));
    let mut i: usize = 1;
    proof {
        assert(row_views(kept@) =~= identified(all));
    }
    while i < sheet.len()
        invariant
            1 <= i,
            i <= sheet@.len() || i == 1,
            works_on_numbers(numeric),
            rows == data_rows(sheet_view(sheet@)),
            all.len() == i - 1,
            forall|j: int|
                0 <= j < all.len() ==> row_converted(numeric, rows[j], table@, #[trigger] all[j]),
            row_views(kept@) == identified(all),
        decreases sheet@.len() - i,
    {
        let row = convert_row(sheet[i].as_slice(), table, numeric);
        proof {
            assert(rows[i - 1] == cell_views(sheet@[i as int]@));
            assert(all.push(row@).drop_last() =~= all);
        }
        let ghost before = row_views(kept@);
        if !(row.recipient_name.as_str().is_empty() && row.recipient_phone.as_str().is_empty()
            && row.delivery_address.as_str().is_empty()) {
            kept.push(row);
            proof {
                assert(row_views(kept@) =~= before.push(row@));
            }
        }
        proof {
            all = all.push(row@);
        }
        i += 1;
    }
    proof {
        assert(sheet_view(sheet@).len() == sheet@.len());
        assert(all.len() == rows.len());
        assert(all_converted(numeric, sheet_view(sheet@), table@, all));
    }
    kept
}

/// Converts a sheet: builds the orders of its data rows as `convert_rows`
/// does, sorts them by identity key and numbers the duplicate groups as
/// `group_duplicates` does. No order of the result lacks an identity.
pub fn read_and_convert_with_mapping<F: Fn(Operation, &Vec<String>) -> Option<FloatValue>>(
    sheet: &[Vec<Cell>],
    mappings: &MappingTable,
    numeric: &F,
) -> (res: ConversionResult)
    requires
        works_on_numbers(numeric),
    ensures
        exists|kept: Seq<RowModel>| #[trigger]
            rows_converted(numeric, sheet_view(sheet@), mappings@, kept) && grouping_of(res, kept),
        forall|i: int| 0 <= i < res.rows@.len() ==> (#[trigger] res.rows@[i])@.has_identity(),
{
    let kept = convert_rows(sheet, mappings, numeric);
    let ghost rows = row_views(kept@);
    let res = group_duplicates(kept);
    proof {
        let all = choose|all: Seq<RowModel>| #[trigger]
            all_converted(numeric, sheet_view(sheet@), mappings@, all) && rows == identified(all);
        lemma_identified(all);
        assert forall|i: int| 0 <= i < res.rows@.len() implies (#[trigger] res.rows@[i])@.has_identity() by {
            let out = row_views(res.rows@);
            let j = lemma_sorted_row_is_input_row(out, rows, i);
            assert(out[i] == res.rows@[i]@);
            assert(rows[j].has_identity());
        }
    }
    res
}

/// The mapping table of the legacy layout: the name comes from column 64,
/// the phone from 65, the address from 69, the product name from 82 and the
/// remarks from column 0, each taken as it is.
pub open spec fn legacy_table() -> TableModel {
    TableModel {
        recipient_name: Some(MappingModel { source_indices: seq![64usize], operation: "concat"@ }),
        recipient_phone: Some(MappingModel { source_indices: seq![65usize], operation: "concat"@ }),
        delivery_address: Some(
            MappingModel { source_indices: seq![69usize], operation: "concat"@ },
        ),
        product_name: Some(MappingModel { source_indices: seq![82usize], operation: "concat"@ }),
        product_spec: None,
        quantity: None,
        remarks: Some(MappingModel { source_indices: seq![0usize], operation: "concat"@ }),
    }
}

/// The order that the legacy layout makes of the row `cells`.
pub open spec fn legacy_row(cells: Seq<CellModel>) -> RowModel {
    RowModel {
        recipient_name: cell_at(cells, 64),
        recipient_phone: cell_at(cells, 65),
        delivery_address: cell_at(cells, 69),
        product_name: cell_at(cells, 82),
        product_spec: Seq::empty(),
        quantity: seq!['1'],
        remarks: cell_at(cells, 0),
        group_id: 0,
    }
}

/// The orders that the legacy layout makes of `rows`, row for row.
pub open spec fn legacy_rows(rows: Seq<Seq<CellModel>>) -> Seq<RowModel> {
    Seq::new(rows.len(), |i: int| legacy_row(rows[i]))
}

fn take_column(index: usize) -> (mapping: ColumnMapping)
    ensures
        mapping@ == (MappingModel { source_indices: seq![index], operation: "concat"@ }),
{
    let mut source_indices: Vec<usize> = Vec::new();
    source_indices.push(index);
    assert(source_indices@ =~= seq![index]);
    ColumnMapping { source_indices, operation: String::from_str("concat") }
}

/// The mapping table of the legacy layout.
pub fn legacy_mappings() -> (table: MappingTable)
    ensures
        table@ == legacy_table(),
{
    MappingTable {
        recipient_name: Some(take_column(64)),
        recipient_phone: Some(take_column(65)),
        delivery_address: Some(take_column(69)),
        product_name: Some(take_column(82)),
        product_spec: None,
        quantity: None,
        remarks: Some(take_column(0)),
    }
}

fn no_number(op: Operation, operands: &Vec<String>) -> (result: Option<FloatValue>)
    ensures
        result.is_none(),
{
    None
}

proof fn lemma_taken_as_it_is<F: Fn(Operation, &Vec<String>) -> Option<FloatValue>>(
    numeric: &F,
    cells: Seq<CellModel>,
    index: usize,
    out: Seq<char>,
)
    requires
        applied(numeric, "concat"@, gathered(cells, seq![index]), out),
    ensures
        out == cell_at(cells, index as int),
{
    reveal_strlit("concat");
    reveal_strlit("add");
    reveal_strlit("subtract");
    reveal_strlit("multiply");
    reveal_strlit("divide");
    let values = gathered(cells, seq![index]);
    assert(values.len() == 1);
    assert("concat"@.len() == 6 && "concat"@[0] == 'c');
    assert("add"@.len() == 3);
    assert("subtract"@.len() == 8);
    assert("multiply"@.len() == 8);
    assert("divide"@.len() == 6 && "divide"@[0] == 'd');
    assert(Operation::named("concat"@) == Operation::Concat);
    assert(values.drop_last() =~= Seq::<Seq<char>>::empty());
    assert(concat_all(values.drop_last()) =~= Seq::<char>::empty());
    assert(concat_all(values) =~= values[0]);
}

/// Converts a sheet in the legacy layout, which needs no arithmetic: the
/// orders are those of `legacy_rows` that have an identity, sorted and
/// grouped.
pub fn read_and_convert(sheet: &[Vec<Cell>]) -> (res: ConversionResult)
    ensures
        grouping_of(res, identified(legacy_rows(data_rows(sheet_view(sheet@))))),
{
    let table = legacy_mappings();
    let res = read_and_convert_with_mapping(sheet, &table, &no_number);
    proof {
        let numeric = &no_number;
        let rows = data_rows(sheet_view(sheet@));
        let kept = choose|kept: Seq<RowModel>| #[trigger]
            rows_converted(numeric, sheet_view(sheet@), table@, kept) && grouping_of(res, kept);
        let all = choose|all: Seq<RowModel>| #[trigger]
            all_converted(numeric, sheet_view(sheet@), table@, all) && kept == identified(all);
        assert forall|i: int| 0 <= i < all.len() implies all[i] == legacy_row(rows[i]) by {
            assert(row_converted(numeric, rows[i], table@, all[i]));
            lemma_taken_as_it_is(numeric, rows[i], 64, all[i].recipient_name);
            lemma_taken_as_it_is(numeric, rows[i], 65, all[i].recipient_phone);
            lemma_taken_as_it_is(numeric, rows[i], 69, all[i].delivery_address);
            lemma_taken_as_it_is(numeric, rows[i], 82, all[i].product_name);
            lemma_taken_as_it_is(numeric, rows[i], 0, all[i].remarks);
        }
        assert(all =~= legacy_rows(rows));
    }
    res
}

} // verus!
