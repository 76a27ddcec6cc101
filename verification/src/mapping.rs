//! Column mappings: which source columns feed an output field, and how
//! their values are combined.

use crate::cell::{number_text, number_to_string, FloatValue};
use crate::number::{
    float_literal, float_literals, lemma_float_literals_hold, lemma_no_float_literals,
    lemma_one_float_literal, numeric_operands,
};
use crate::order::same_text;
use crate::text::{concat_all, concat_strings, views};
use vstd::prelude::*;
use vstd::string::*;

verus! {

/// How the values of the source columns become one value.
#[derive(Debug, Clone, Copy, PartialEq, Eq)]
pub enum Operation {
    Concat,
    Add,
    Subtract,
    Multiply,
    Divide,
}

/// The seven fields of an order.
#[derive(Debug, Clone, Copy, PartialEq, Eq)]
pub enum Field {
    RecipientName,
    RecipientPhone,
    DeliveryAddress,
    ProductName,
    ProductSpec,
    Quantity,
    Remarks,
}

impl Operation {
    /// The operation that a name selects. A name that is none of `add`,
    /// `subtract`, `multiply` and `divide` selects concatenation.
    pub open spec fn named(name: Seq<char>) -> Operation {
        if name == "add"@ {
            Operation::Add
        } else if name == "subtract"@ {
            Operation::Subtract
        } else if name == "multiply"@ {
            Operation::Multiply
        } else if name == "divide"@ {
            Operation::Divide
        } else {
            Operation::Concat
        }
    }

    /// The operation that `name` selects.
    pub fn from_name(name: &str) -> (op: Operation)
        ensures
            op == Operation::named(name@),
    {
        if same_text(name, "add") {
            Operation::Add
        } else if same_text(name, "subtract") {
            Operation::Subtract
        } else if same_text(name, "multiply") {
            Operation::Multiply
        } else if same_text(name, "divide") {
            Operation::Divide
        } else {
            Operation::Concat
        }
    }
}

impl Field {
    /// The field that a name selects, if it is the name of a field.
    pub open spec fn named(name: Seq<char>) -> Option<Field> {
        if name == "recipient_name"@ {
            Some(Field::RecipientName)
        } else if name == "recipient_phone"@ {
            Some(Field::RecipientPhone)
        } else if name == "delivery_address"@ {
            Some(Field::DeliveryAddress)
        } else if name == "product_name"@ {
            Some(Field::ProductName)
        } else if name == "product_spec"@ {
            Some(Field::ProductSpec)
        } else if name == "quantity"@ {
            Some(Field::Quantity)
        } else if name == "remarks"@ {
            Some(Field::Remarks)
        } else {
            None
        }
    }

    /// The field that `name` selects, if it is the name of a field.
    pub fn from_name(name: &str) -> (field: Option<Field>)
        ensures
            field == Field::named(name@),
    {
        if same_text(name, "recipient_name") {
            Some(Field::RecipientName)
        } else if same_text(name, "recipient_phone") {
            Some(Field::RecipientPhone)
        } else if same_text(name, "delivery_address") {
            Some(Field::DeliveryAddress)
        } else if same_text(name, "product_name") {
            Some(Field::ProductName)
        } else if same_text(name, "product_spec") {
            Some(Field::ProductSpec)
        } else if same_text(name, "quantity") {
            Some(Field::Quantity)
        } else if same_text(name, "remarks") {
            Some(Field::Remarks)
        } else {
            None
        }
    }
}

/// The source of one output field: the columns to read, in this order, and
/// the name of the operation that combines their values.
#[derive(Debug, Clone, PartialEq, Eq)]
pub struct ColumnMapping {
    pub source_indices: Vec<usize>,
    pub operation: String,
}

/// The model of a `ColumnMapping`.
pub struct MappingModel {
    pub source_indices: Seq<usize>,
    pub operation: Seq<char>,
}

impl View for ColumnMapping {
    type V = MappingModel;

    open spec fn view(&self) -> MappingModel {
        MappingModel { source_indices: self.source_indices@, operation: self.operation@ }
    }
}

/// The mappings of a conversion: at most one for each field of an order.
#[derive(Debug, Clone, PartialEq, Eq)]
pub struct MappingTable {
    pub recipient_name: Option<ColumnMapping>,
    pub recipient_phone: Option<ColumnMapping>,
    pub delivery_address: Option<ColumnMapping>,
    pub product_name: Option<ColumnMapping>,
    pub product_spec: Option<ColumnMapping>,
    pub quantity: Option<ColumnMapping>,
    pub remarks: Option<ColumnMapping>,
}

/// The model of a `MappingTable`.
pub struct TableModel {
    pub recipient_name: Option<MappingModel>,
    pub recipient_phone: Option<MappingModel>,
    pub delivery_address: Option<MappingModel>,
    pub product_name: Option<MappingModel>,
    pub product_spec: Option<MappingModel>,
    pub quantity: Option<MappingModel>,
    pub remarks: Option<MappingModel>,
}

/// The model of a mapping that may be missing.
pub open spec fn mapping_view(mapping: Option<ColumnMapping>) -> Option<MappingModel> {
    match mapping {
        Some(m) => Some(m@),
        None => None,
    }
}

impl TableModel {
    /// The table without any mapping.
    pub open spec fn empty() -> TableModel {
        TableModel {
            recipient_name: None,
            recipient_phone: None,
            delivery_address: None,
            product_name: None,
            product_spec: None,
            quantity: None,
            remarks: None,
        }
    }

    /// The same table with `mapping` as the source of `field`.
    pub open spec fn with(self, field: Field, mapping: MappingModel) -> TableModel {
        match field {
            Field::RecipientName => TableModel { recipient_name: Some(mapping), ..self },
            Field::RecipientPhone => TableModel { recipient_phone: Some(mapping), ..self },
            Field::DeliveryAddress => TableModel { delivery_address: Some(mapping), ..self },
            Field::ProductName => TableModel { product_name: Some(mapping), ..self },
            Field::ProductSpec => TableModel { product_spec: Some(mapping), ..self },
            Field::Quantity => TableModel { quantity: Some(mapping), ..self },
            Field::Remarks => TableModel { remarks: Some(mapping), ..self },
        }
    }
}

impl View for MappingTable {
    type V = TableModel;

    open spec fn view(&self) -> TableModel {
        TableModel {
            recipient_name: mapping_view(self.recipient_name),
            recipient_phone: mapping_view(self.recipient_phone),
            delivery_address: mapping_view(self.delivery_address),
            product_name: mapping_view(self.product_name),
            product_spec: mapping_view(self.product_spec),
            quantity: mapping_view(self.quantity),
            remarks: mapping_view(self.remarks),
        }
    }
}

impl MappingTable {
    /// A table without any mapping: every field keeps its default.
    pub fn new() -> (table: MappingTable)
        ensures
            table@ == TableModel::empty(),
    {
        MappingTable {
            recipient_name: None,
            recipient_phone: None,
            delivery_address: None,
            product_name: None,
            product_spec: None,
            quantity: None,
            remarks: None,
        }
    }

    /// Makes `mapping` the source of the field called `field_name`, in place
    /// of any earlier one. A name that is not the name of a field changes
    /// nothing and gives `false`.
    pub fn insert(&mut self, field_name: &str, mapping: ColumnMapping) -> (known: bool)
        ensures
            known == Field::named(field_name@).is_some(),
            final(self)@ == match Field::named(field_name@) {
                Some(field) => old(self)@.with(field, mapping@),
                None => old(self)@,
            },
    {
        match Field::from_name(field_name) {
            Some(Field::RecipientName) => {
                self.recipient_name = Some(mapping);
                true
            },
            Some(Field::RecipientPhone) => {
                self.recipient_phone = Some(mapping);
                true
            },
            Some(Field::DeliveryAddress) => {
                self.delivery_address = Some(mapping);
                true
            },
            Some(Field::ProductName) => {
                self.product_name = Some(mapping);
                true
            },
            Some(Field::ProductSpec) => {
                self.product_spec = Some(mapping);
                true
            },
            Some(Field::Quantity) => {
                self.quantity = Some(mapping);
                true
            },
            Some(Field::Remarks) => {
                self.remarks = Some(mapping);
                true
            },
            None => false,
        }
    }
}

/// The text of a numeric result: that of the number, or the empty text
/// where there is no number.
pub open spec fn numeric_text(result: Option<FloatValue>) -> Seq<char> {
    match result {
        Some(number) => number_text(number@),
        None => Seq::empty(),
    }
}

/// Whether `out` is the text of a result that `numeric` may give for `op` on
/// operands that read `values`.
pub open spec fn evaluated<F: Fn(Operation, &Vec<String>) -> Option<FloatValue>>(
    numeric: &F,
    op: Operation,
    values: Seq<Seq<char>>,
    out: Seq<char>,
) -> bool {
    exists|operands: Vec<String>, result: Option<FloatValue>|
        {
            &&& views(operands@) == values
            &&& #[trigger] call_ensures(numeric, (op, &operands), result)
            &&& out == numeric_text(result)
        }
}

/// Whether `numeric` can be called for every arithmetic operation on every
/// list of one or more operands that are all spelled as numbers.
pub open spec fn works_on_numbers<F: Fn(Operation, &Vec<String>) -> Option<FloatValue>>(
    numeric: &F,
) -> bool {
    forall|op: Operation, operands: &Vec<String>|
        op != Operation::Concat && operands@.len() > 0 && (forall|i: int|
            0 <= i < operands@.len() ==> float_literal(#[trigger] views(operands@)[i]))
            ==> call_requires(numeric, (op, operands))
}

/// Whether `out` is what the operation called `operation` makes of `values`.
///
/// No values give the empty text. Concatenation writes the values one after
/// another. The four arithmetic operations keep the values that are spelled
/// as numbers and drop the others; where none is left the result is the
/// empty text, and else `numeric` works the operation out on what is left
/// and its result is written as `numeric_text` says.
pub open spec fn applied<F: Fn(Operation, &Vec<String>) -> Option<FloatValue>>(
    numeric: &F,
    operation: Seq<char>,
    values: Seq<Seq<char>>,
    out: Seq<char>,
) -> bool {
    if values.len() == 0 {
        out =~= Seq::empty()
    } else if Operation::named(operation) == Operation::Concat {
        out == concat_all(values)
    } else if float_literals(values).len() == 0 {
        out =~= Seq::empty()
    } else {
        evaluated(numeric, Operation::named(operation), float_literals(values), out)
    }
}

/// An arithmetic operation on values none of which is spelled as a number
/// gives the empty text.
pub proof fn lemma_nothing_to_work_out<F: Fn(Operation, &Vec<String>) -> Option<FloatValue>>(
    numeric: &F,
    operation: Seq<char>,
    values: Seq<Seq<char>>,
    out: Seq<char>,
)
    requires
        Operation::named(operation) != Operation::Concat,
        forall|i: int| 0 <= i < values.len() ==> !float_literal(#[trigger] values[i]),
        applied(numeric, operation, values, out),
    ensures
        out.len() == 0,
{
    lemma_no_float_literals(values);
}

/// An arithmetic operation on values of which exactly one is spelled as a
/// number gives what `numeric` makes of that one value alone.
pub proof fn lemma_one_number<F: Fn(Operation, &Vec<String>) -> Option<FloatValue>>(
    numeric: &F,
    operation: Seq<char>,
    values: Seq<Seq<char>>,
    at: int,
    out: Seq<char>,
)
    requires
        Operation::named(operation) != Operation::Concat,
        0 <= at < values.len(),
        float_literal(values[at]),
        forall|i: int| 0 <= i < values.len() && i != at ==> !float_literal(#[trigger] values[i]),
        applied(numeric, operation, values, out),
    ensures
        evaluated(numeric, Operation::named(operation), seq![values[at]], out),
{
    lemma_one_float_literal(values, at);
}

/// Combines `values` by the operation called `operation`.
///
/// Arithmetic runs on machine floating point and is the caller's part: for
/// `add`, `subtract`, `multiply` and `divide` this function hands the
/// operation and the values that are spelled as numbers, of which there is
/// at least one, to `numeric` and writes out the number that comes back, or
/// the empty text where none comes back.
pub fn apply_operation<F: Fn(Operation, &Vec<String>) -> Option<FloatValue>>(
    values: Vec<String>,
    operation: &str,
    numeric: &F,
) -> (out: String)
    requires
        works_on_numbers(numeric),
    ensures
        applied(numeric, operation@, views(values@), out@),
{
    if values.len() == 0 {
        return String::new();
    }
    match Operation::from_name(operation) {
        Operation::Concat => concat_strings(&values),
        op => {
            let operands = numeric_operands(&values);
            if operands.len() == 0 {
                return String::new();
            }
            proof {
                lemma_float_literals_hold(views(values@));
            }
            match numeric(op, &operands) {
                Some(number) => number_to_string(&number),
                None => String::new(),
            }
        },
    }
}

} // verus!
