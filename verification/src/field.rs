//! The values that operations carry: field definitions and cells.

use crate::error::DecodeError;
use crate::wire::{
    lemma_parse_number_bytes, lemma_parse_text_bytes, number_bytes, parse_number, parse_text,
    put_number, put_text, tail_from, take_number, take_text, text_bytes, text_fits,
};
use vstd::prelude::*;

verus! {

/// What the cells of a field hold.
#[derive(Clone, Copy, Debug, PartialEq, Eq, Structural)]
pub enum FieldKind {
    Text,
    Number,
    Date,
    Checkbox,
}

impl FieldKind {
    /// The byte that stands for this kind in the operation format.
    pub open spec fn spec_code(self) -> u8 {
        match self {
            FieldKind::Text => 0,
            FieldKind::Number => 1,
            FieldKind::Date => 2,
            FieldKind::Checkbox => 3,
        }
    }

    /// The kind that `code` stands for, if any.
    pub open spec fn spec_from_code(code: u8) -> Option<FieldKind> {
        if code == 0 {
            Some(FieldKind::Text)
        } else if code == 1 {
            Some(FieldKind::Number)
        } else if code == 2 {
            Some(FieldKind::Date)
        } else if code == 3 {
            Some(FieldKind::Checkbox)
        } else {
            None
        }
    }

    /// The word that stands for this kind in a rendering.
    pub open spec fn spec_label(self) -> Seq<char> {
        match self {
            FieldKind::Text => "text"@,
            FieldKind::Number => "number"@,
            FieldKind::Date => "date"@,
            FieldKind::Checkbox => "checkbox"@,
        }
    }

    pub fn code(&self) -> (r: u8)
        ensures
            r == self.spec_code(),
            Self::spec_from_code(r) == Some(*self),
    {
        match self {
            FieldKind::Text => 0,
            FieldKind::Number => 1,
            FieldKind::Date => 2,
            FieldKind::Checkbox => 3,
        }
    }

    pub fn from_code(code: u8) -> (r: Option<FieldKind>)
        ensures
            r == Self::spec_from_code(code),
            r matches Some(kind) ==> kind.spec_code() == code,
    {
        if code == 0 {
            Some(FieldKind::Text)
        } else if code == 1 {
            Some(FieldKind::Number)
        } else if code == 2 {
            Some(FieldKind::Date)
        } else if code == 3 {
            Some(FieldKind::Checkbox)
        } else {
            None
        }
    }

    pub fn label(&self) -> (r: &'static str)
        ensures
            r@ == self.spec_label(),
    {
        match self {
            FieldKind::Text => "text",
            FieldKind::Number => "number",
            FieldKind::Date => "date",
            FieldKind::Checkbox => "checkbox",
        }
    }
}

/// A field definition: one column of the grid.
#[derive(Debug, PartialEq, Eq)]
pub struct Field {
    pub id: u64,
    pub name: String,
    pub kind: FieldKind,
}

/// What a [`Field`] is to the contracts.
pub struct FieldView {
    pub id: u64,
    pub name: Seq<char>,
    pub kind: FieldKind,
}

impl View for Field {
    type V = FieldView;

    open spec fn view(&self) -> FieldView {
        FieldView { id: self.id, name: self.name@, kind: self.kind }
    }
}

impl Clone for Field {
    fn clone(&self) -> (r: Self)
        ensures
            r@ == self@,
    {
        Field { id: self.id, name: self.name.clone(), kind: self.kind }
    }
}

/// One cell of the grid: the value that a row holds for a field.
#[derive(Debug, PartialEq, Eq)]
pub struct Cell {
    pub row_id: u64,
    pub field_id: u64,
    pub value: String,
}

/// What a [`Cell`] is to the contracts.
pub struct CellView {
    pub row_id: u64,
    pub field_id: u64,
    pub value: Seq<char>,
}

impl View for Cell {
    type V = CellView;

    open spec fn view(&self) -> CellView {
        CellView { row_id: self.row_id, field_id: self.field_id, value: self.value@ }
    }
}

impl Clone for Cell {
    fn clone(&self) -> (r: Self)
        ensures
            r@ == self@,
    {
        Cell { row_id: self.row_id, field_id: self.field_id, value: self.value.clone() }
    }
}

/// The bytes that stand for a field: id, kind, name.
pub open spec fn field_bytes(field: FieldView) -> Seq<u8> {
    number_bytes(field.id) + seq![field.kind.spec_code()] + text_bytes(field.name)
}

/// The bytes that stand for a cell: row, field, value.
pub open spec fn cell_bytes(cell: CellView) -> Seq<u8> {
    number_bytes(cell.row_id) + number_bytes(cell.field_id) + text_bytes(cell.value)
}

/// Reads a field from the front of `input`.
pub open spec fn parse_field(input: Seq<u8>) -> Result<(FieldView, Seq<u8>), DecodeError> {
    match parse_number(input) {
        Err(e) => Err(e),
        Ok((id, after_id)) => {
            if after_id.len() == 0 {
                Err(DecodeError::Truncated)
            } else {
                match FieldKind::spec_from_code(after_id[0]) {
                    None => Err(DecodeError::UnknownFieldKind(after_id[0])),
                    Some(kind) => match parse_text(after_id.skip(1)) {
                        Err(e) => Err(e),
                        Ok((name, rest)) => Ok((FieldView { id, name, kind }, rest)),
                    },
                }
            }
        },
    }
}

/// Reads a cell from the front of `input`.
pub open spec fn parse_cell(input: Seq<u8>) -> Result<(CellView, Seq<u8>), DecodeError> {
    match parse_number(input) {
        Err(e) => Err(e),
        Ok((row_id, after_row)) => match parse_number(after_row) {
            Err(e) => Err(e),
            Ok((field_id, after_field)) => match parse_text(after_field) {
                Err(e) => Err(e),
                Ok((value, rest)) => Ok((CellView { row_id, field_id, value }, rest)),
            },
        },
    }
}

/// A field that was written is read back, and reading stops right behind it.
pub proof fn lemma_parse_field_bytes(field: FieldView, tail: Seq<u8>)
    requires
        text_fits(field.name),
    ensures
        parse_field(field_bytes(field) + tail) == Ok::<(FieldView, Seq<u8>), DecodeError>(
            (field, tail),
        ),
{
    let after_id = seq![field.kind.spec_code()] + text_bytes(field.name) + tail;
    lemma_parse_number_bytes(field.id, after_id);
    assert(field_bytes(field) + tail =~= number_bytes(field.id) + after_id);
    assert(after_id.skip(1) =~= text_bytes(field.name) + tail);
    assert(after_id[0] == field.kind.spec_code());
    lemma_parse_text_bytes(field.name, tail);
}

/// A cell that was written is read back, and reading stops right behind it.
pub proof fn lemma_parse_cell_bytes(cell: CellView, tail: Seq<u8>)
    requires
        text_fits(cell.value),
    ensures
        parse_cell(cell_bytes(cell) + tail) == Ok::<(CellView, Seq<u8>), DecodeError>(
            (cell, tail),
        ),
{
    let after_field = text_bytes(cell.value) + tail;
    let after_row = number_bytes(cell.field_id) + after_field;
    lemma_parse_number_bytes(cell.row_id, after_row);
    lemma_parse_number_bytes(cell.field_id, after_field);
    assert(cell_bytes(cell) + tail =~= number_bytes(cell.row_id) + after_row);
    lemma_parse_text_bytes(cell.value, tail);
}

impl Field {
    /// Appends the bytes of this field to `out`.
    pub fn put(&self, out: &mut Vec<u8>)
        ensures
            final(out)@ == old(out)@ + field_bytes(self@),
            text_fits(self@.name),
    {
        put_number(out, self.id);
        out.push(self.kind.code());
        put_text(out, &self.name);
        assert(final(out)@ =~= old(out)@ + field_bytes(self@));
    }

    /// Reads a field at offset `at` of `input`. Returns it with the offset
    /// behind it.
    pub fn take(input: &[u8], at: usize) -> (r: Result<(Field, usize), DecodeError>)
        ensures
            match parse_field(tail_from(input@, at as int)) {
                Ok((field, rest)) => r matches Ok((f, next)) && f@ == field && at <= next
                    <= input@.len() && rest == input@.skip(next as int),
                Err(e) => r matches Err(f) && f == e,
            },
    {
        let (id, after_id) = match take_number(input, at) {
            Ok(pair) => pair,
            Err(e) => { return Err(e); },
        };
        if after_id >= input.len() {
            return Err(DecodeError::Truncated);
        }
        let code = input[after_id];
        proof {
            let rest = input@.skip(after_id as int);
            assert(rest[0] == input@[after_id as int]);
            assert(rest.skip(1) =~= input@.skip(after_id + 1));
        }
        let kind = match FieldKind::from_code(code) {
            Some(kind) => kind,
            None => { return Err(DecodeError::UnknownFieldKind(code)); },
        };
        match take_text(input, after_id + 1) {
            Ok((name, next)) => Ok((Field { id, name, kind }, next)),
            Err(e) => Err(e),
        }
    }
}

impl Cell {
    /// Appends the bytes of this cell to `out`.
    pub fn put(&self, out: &mut Vec<u8>)
        ensures
            final(out)@ == old(out)@ + cell_bytes(self@),
            text_fits(self@.value),
    {
        put_number(out, self.row_id);
        put_number(out, self.field_id);
        put_text(out, &self.value);
        assert(final(out)@ =~= old(out)@ + cell_bytes(self@));
    }

    /// Reads a cell at offset `at` of `input`. Returns it with the offset
    /// behind it.
    pub fn take(input: &[u8], at: usize) -> (r: Result<(Cell, usize), DecodeError>)
        ensures
            match parse_cell(tail_from(input@, at as int)) {
                Ok((cell, rest)) => r matches Ok((c, next)) && c@ == cell && at <= next
                    <= input@.len() && rest == input@.skip(next as int),
                Err(e) => r matches Err(f) && f == e,
            },
    {
        let (row_id, after_row) = match take_number(input, at) {
            Ok(pair) => pair,
            Err(e) => { return Err(e); },
        };
        let (field_id, after_field) = match take_number(input, after_row) {
            Ok(pair) => pair,
            Err(e) => { return Err(e); },
        };
        match take_text(input, after_field) {
            Ok((value, next)) => Ok((Cell { row_id, field_id, value }, next)),
            Err(e) => Err(e),
        }
    }
}

} // verus!
