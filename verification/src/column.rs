//! The columns of a sheet: position, letter code and header title.

use crate::cell::{cell_at, cell_to_string, cell_views, Cell};
use vstd::prelude::*;
use vstd::string::*;

verus! {

/// One column of a sheet, as its header row shows it.
#[derive(Debug, Clone, PartialEq, Eq)]
pub struct ColumnInfo {
    pub index: usize,
    pub code: String,
    pub title: String,
}

/// The capital letter at place `d` of the alphabet, counted from 0.
pub open spec fn letter(d: int) -> char {
    ((d + 65) as u8) as char
}

/// Whether `c` is a capital letter from `A` to `Z`.
pub open spec fn is_letter(c: char) -> bool {
    'A' <= c <= 'Z'
}

/// The place of the capital letter `c` in the alphabet, counted from 0.
pub open spec fn letter_place(c: char) -> int {
    c as u32 - 65
}

/// The letter code of the column at `index`, as spreadsheets write it:
/// `A` to `Z`, then `AA`, `AB` and so on. This is bijective base 26: every
/// place holds one of 26 letters and none of them stands for zero.
pub open spec fn column_code(index: nat) -> Seq<char>
    decreases index,
{
    if index < 26 {
        seq![letter(index as int)]
    } else {
        column_code((index / 26 - 1) as nat).push(letter((index % 26) as int))
    }
}

/// The number that a letter code stands for in bijective base 26, where `A`
/// is 1 and `Z` is 26. The empty code stands for 0.
pub open spec fn code_value(code: Seq<char>) -> nat
    decreases code.len(),
{
    if code.len() == 0 {
        0
    } else {
        (code_value(code.drop_last()) * 26 + letter_place(code.last()) + 1) as nat
    }
}

/// Whether `code` is one letter or more, each from `A` to `Z`.
pub open spec fn is_column_code(code: Seq<char>) -> bool {
    code.len() > 0 && forall|i: int| 0 <= i < code.len() ==> is_letter(#[trigger] code[i])
}

/// Every column has a code of capital letters, and the code tells the column:
/// its value in bijective base 26 is the column's index plus one. So no two
/// columns share a code.
pub proof fn lemma_column_code_value(index: nat)
    ensures
        is_column_code(column_code(index)),
        code_value(column_code(index)) == index + 1,
    decreases index,
{
    let code = column_code(index);
    let place = (index % 26) as int;
    assert(letter_place(letter(place)) == place);
    assert(is_letter(letter(place)));
    assert(code.last() == letter(place));
    if index < 26 {
        assert(code.drop_last() =~= Seq::<char>::empty());
        assert(code_value(code.drop_last()) == 0);
    } else {
        let rest = (index / 26 - 1) as nat;
        lemma_column_code_value(rest);
        assert(code.drop_last() =~= column_code(rest));
        assert(code_value(code) == (rest + 1) * 26 + place + 1);
    }
}

/// Two columns with the same code are the same column.
pub proof fn lemma_column_code_injective(a: nat, b: nat)
    requires
        column_code(a) == column_code(b),
    ensures
        a == b,
{
    lemma_column_code_value(a);
    lemma_column_code_value(b);
}

/// Every code of capital letters is the code of a column: that of the column
/// whose index is the code's value minus one.
pub proof fn lemma_code_of_value(code: Seq<char>)
    requires
        is_column_code(code),
    ensures
        code_value(code) >= 1,
        column_code((code_value(code) - 1) as nat) == code,
    decreases code.len(),
{
    let init = code.drop_last();
    let place = letter_place(code.last());
    assert(is_letter(code[code.len() - 1]));
    assert(0 <= place < 26);
    assert(letter(place) == code.last());
    if init.len() == 0 {
        assert(column_code(place as nat) =~= code);
    } else {
        assert forall|i: int| 0 <= i < init.len() implies is_letter(#[trigger] init[i]) by {
            assert(init[i] == code[i]);
        }
        lemma_code_of_value(init);
        let high = code_value(init);
        let index = high * 26 + place;
        assert(index / 26 == high && index % 26 == place) by (nonlinear_arith)
            requires
                index == high * 26 + place,
                0 <= place < 26,
                high >= 0,
        ;
        assert(column_code(index as nat) =~= column_code((high - 1) as nat).push(letter(place)));
        assert(init.push(code.last()) =~= code);
    }
}

fn letter_text(d: usize) -> (s: &'static str)
    requires
        d < 26,
    ensures
        s@ == seq![letter(d as int)],
{
    proof {
        reveal_strlit("ABCDEFGHIJKLMNOPQRSTUVWXYZ");
    }
    let all = "ABCDEFGHIJKLMNOPQRSTUVWXYZ";
    let s = all.substring_ascii(d, d + 1);
    assert(s@ =~= seq![letter(d as int)]);
    s
}

/// The letter code of the column at `index`.
pub fn index_to_column_code(index: usize) -> (code: String)
    ensures
        code@ == column_code(index as nat),
    decreases index,
{
    if index < 26 {
        String::from_str(letter_text(index))
    } else {
        let mut code = index_to_column_code(index / 26 - 1);
        code.append(letter_text(index % 26));
        assert(code@ =~= column_code(index as nat));
        code
    }
}

/// The columns of a sheet: one for every cell of its first row, with the
/// cell's position, the letter code of that position and the cell's text as
/// title. A sheet without rows has no columns.
pub fn read_columns(sheet: &[Vec<Cell>]) -> (columns: Vec<ColumnInfo>)
    ensures
        sheet@.len() == 0 ==> columns@.len() == 0,
        sheet@.len() > 0 ==> columns@.len() == sheet@[0]@.len(),
        forall|i: int|
            0 <= i < columns@.len() ==> {
                &&& (#[trigger] columns@[i]).index == i
                &&& columns@[i].code@ == column_code(i as nat)
                &&& columns@[i].title@ == cell_at(cell_views(sheet@[0]@), i)
            },
{
    let mut columns: Vec<ColumnInfo> = Vec::new();
    if sheet.len() > 0 {
        let header = &sheet[0];
        let mut i: usize = 0;
        while i < header.len()
            invariant
                i <= header@.len(),
                sheet@.len() > 0,
                header@ == sheet@[0]@,
                columns@.len() == i,
                forall|j: int|
                    0 <= j < i ==> {
                        &&& (#[trigger] columns@[j]).index == j
                        &&& columns@[j].code@ == column_code(j as nat)
                        &&& columns@[j].title@ == cell_at(cell_views(header@), j)
                    },
            decreases header@.len() - i,
        {
            columns.push(
                ColumnInfo {
                    index: i,
                    code: index_to_column_code(i),
                    title: cell_to_string(&header[i]),
                },
            );
            i += 1;
        }
    }
    columns
}

} // verus!
