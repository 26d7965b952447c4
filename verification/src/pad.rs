//! The pad: the materialised document that operations are applied to.

use crate::error::{ApplyError, DecodeError};
use crate::field::{Cell, CellView, Field, FieldView};
use crate::operation::{all_fit, operation_views, Operation, OperationSet, OperationView};
use crate::pad_view::{
    cell_settings, cells_with, cells_without_field, cells_without_row, decode_pad, encode_pad,
    field_additions, fields_with, fields_without, has_cell, has_field, has_row,
    lemma_apply_all_concat, lemma_apply_all_wf, row_insertions, rows_without, PadView,
};
use crate::render::{display, field_lines, push_decimal, push_field_line};
use vstd::prelude::*;
use vstd::string::*;

verus! {

/// The views of a sequence of fields, in order.
pub open spec fn field_views(fields: Seq<Field>) -> Seq<FieldView> {
    Seq::new(fields.len(), |i: int| fields[i]@)
}

/// The views of a sequence of cells, in order.
pub open spec fn cell_views(cells: Seq<Cell>) -> Seq<CellView> {
    Seq::new(cells.len(), |i: int| cells[i]@)
}

/// The document that these fields, rows and cells make up.
pub open spec fn pad_of(fields: Seq<Field>, rows: Seq<u64>, cells: Seq<Cell>) -> PadView {
    PadView { fields: field_views(fields), rows, cells: cell_views(cells) }
}

proof fn lemma_field_views_push(fields: Seq<Field>, field: Field)
    ensures
        field_views(fields.push(field)) == field_views(fields).push(field@),
{
    assert(field_views(fields.push(field)) =~= field_views(fields).push(field@));
}

proof fn lemma_cell_views_push(cells: Seq<Cell>, cell: Cell)
    ensures
        cell_views(cells.push(cell)) == cell_views(cells).push(cell@),
{
    assert(cell_views(cells.push(cell)) =~= cell_views(cells).push(cell@));
}

fn contains_field(fields: &Vec<Field>, id: u64) -> (r: bool)
    ensures
        r == has_field(field_views(fields@), id),
{
    let mut i: usize = 0;
    while i < fields.len()
        invariant
            i <= fields@.len(),
            forall|k: int| 0 <= k < i ==> (#[trigger] field_views(fields@)[k]).id != id,
        decreases fields@.len() - i,
    {
        if fields[i].id == id {
            assert(field_views(fields@)[i as int].id == id);
            return true;
        }
        i += 1;
    }
    false
}

fn contains_row(rows: &Vec<u64>, id: u64) -> (r: bool)
    ensures
        r == has_row(rows@, id),
{
    let mut i: usize = 0;
    while i < rows.len()
        invariant
            i <= rows@.len(),
            forall|k: int| 0 <= k < i ==> #[trigger] rows@[k] != id,
        decreases rows@.len() - i,
    {
        if rows[i] == id {
            return true;
        }
        i += 1;
    }
    false
}

fn contains_cell(cells: &Vec<Cell>, row_id: u64, field_id: u64) -> (r: bool)
    ensures
        r == has_cell(cell_views(cells@), row_id, field_id),
{
    let mut i: usize = 0;
    while i < cells.len()
        invariant
            i <= cells@.len(),
            forall|k: int|
                0 <= k < i ==> !((#[trigger] cell_views(cells@)[k]).row_id == row_id && cell_views(
                    cells@,
                )[k].field_id == field_id),
        decreases cells@.len() - i,
    {
        if cells[i].row_id == row_id && cells[i].field_id == field_id {
            assert(cell_views(cells@)[i as int].row_id == row_id);
            return true;
        }
        i += 1;
    }
    false
}

fn copy_fields(fields: &Vec<Field>) -> (r: Vec<Field>)
    ensures
        field_views(r@) == field_views(fields@),
{
    let mut out: Vec<Field> = Vec::new();
    let mut i: usize = 0;
    while i < fields.len()
        invariant
            i <= fields@.len(),
            field_views(out@) == field_views(fields@).take(i as int),
        decreases fields@.len() - i,
    {
        let field = fields[i].clone();
        proof {
            lemma_field_views_push(out@, field);
        }
        out.push(field);
        i += 1;
        assert(field_views(out@) =~= field_views(fields@).take(i as int));
    }
    assert(field_views(fields@).take(i as int) =~= field_views(fields@));
    out
}

fn copy_cells(cells: &Vec<Cell>) -> (r: Vec<Cell>)
    ensures
        cell_views(r@) == cell_views(cells@),
{
    let mut out: Vec<Cell> = Vec::new();
    let mut i: usize = 0;
    while i < cells.len()
        invariant
            i <= cells@.len(),
            cell_views(out@) == cell_views(cells@).take(i as int),
        decreases cells@.len() - i,
    {
        let cell = cells[i].clone();
        proof {
            lemma_cell_views_push(out@, cell);
        }
        out.push(cell);
        i += 1;
        assert(cell_views(out@) =~= cell_views(cells@).take(i as int));
    }
    assert(cell_views(cells@).take(i as int) =~= cell_views(cells@));
    out
}

fn copy_rows(rows: &Vec<u64>) -> (r: Vec<u64>)
    ensures
        r@ == rows@,
{
    let mut out: Vec<u64> = Vec::new();
    let mut i: usize = 0;
    while i < rows.len()
        invariant
            i <= rows@.len(),
            out@ == rows@.take(i as int),
        decreases rows@.len() - i,
    {
        out.push(rows[i]);
        i += 1;
        assert(out@ =~= rows@.take(i as int));
    }
    assert(rows@.take(i as int) =~= rows@);
    out
}

fn remove_field(fields: &Vec<Field>, id: u64) -> (r: Vec<Field>)
    ensures
        field_views(r@) == fields_without(field_views(fields@), id),
{
    let mut out: Vec<Field> = Vec::new();
    let mut i: usize = 0;
    assert(field_views(out@) =~= field_views(fields@).take(0));
    while i < fields.len()
        invariant
            i <= fields@.len(),
            field_views(out@) == fields_without(field_views(fields@).take(i as int), id),
        decreases fields@.len() - i,
    {
        let ghost before = field_views(out@);
        if fields[i].id != id {
            let field = fields[i].clone();
            out.push(field);
            assert(field_views(out@) =~= before.push(fields@[i as int]@));
        }
        i += 1;
        proof {
            let done = field_views(fields@).take(i as int);
            assert(done.drop_last() =~= field_views(fields@).take(i - 1));
            assert(done.last() == fields@[i - 1]@);
        }
    }
    assert(field_views(fields@).take(i as int) =~= field_views(fields@));
    out
}

fn remove_row(rows: &Vec<u64>, id: u64) -> (r: Vec<u64>)
    ensures
        r@ == rows_without(rows@, id),
{
    let mut out: Vec<u64> = Vec::new();
    let mut i: usize = 0;
    assert(out@ =~= rows@.take(0));
    while i < rows.len()
        invariant
            i <= rows@.len(),
            out@ == rows_without(rows@.take(i as int), id),
        decreases rows@.len() - i,
    {
        if rows[i] != id {
            out.push(rows[i]);
        }
        i += 1;
        proof {
            let done = rows@.take(i as int);
            assert(done.drop_last() =~= rows@.take(i - 1));
            assert(done.last() == rows@[i - 1]);
        }
    }
    assert(rows@.take(i as int) =~= rows@);
    out
}

fn remove_cells_of_field(cells: &Vec<Cell>, field_id: u64) -> (r: Vec<Cell>)
    ensures
        cell_views(r@) == cells_without_field(cell_views(cells@), field_id),
{
    let mut out: Vec<Cell> = Vec::new();
    let mut i: usize = 0;
    assert(cell_views(out@) =~= cell_views(cells@).take(0));
    while i < cells.len()
        invariant
            i <= cells@.len(),
            cell_views(out@) == cells_without_field(cell_views(cells@).take(i as int), field_id),
        decreases cells@.len() - i,
    {
        let ghost before = cell_views(out@);
        if cells[i].field_id != field_id {
            let cell = cells[i].clone();
            out.push(cell);
            assert(cell_views(out@) =~= before.push(cells@[i as int]@));
        }
        i += 1;
        proof {
            let done = cell_views(cells@).take(i as int);
            assert(done.drop_last() =~= cell_views(cells@).take(i - 1));
            assert(done.last() == cells@[i - 1]@);
        }
    }
    assert(cell_views(cells@).take(i as int) =~= cell_views(cells@));
    out
}

fn remove_cells_of_row(cells: &Vec<Cell>, row_id: u64) -> (r: Vec<Cell>)
    ensures
        cell_views(r@) == cells_without_row(cell_views(cells@), row_id),
{
    let mut out: Vec<Cell> = Vec::new();
    let mut i: usize = 0;
    assert(cell_views(out@) =~= cell_views(cells@).take(0));
    while i < cells.len()
        invariant
            i <= cells@.len(),
            cell_views(out@) == cells_without_row(cell_views(cells@).take(i as int), row_id),
        decreases cells@.len() - i,
    {
        let ghost before = cell_views(out@);
        if cells[i].row_id != row_id {
            let cell = cells[i].clone();
            out.push(cell);
            assert(cell_views(out@) =~= before.push(cells@[i as int]@));
        }
        i += 1;
        proof {
            let done = cell_views(cells@).take(i as int);
            assert(done.drop_last() =~= cell_views(cells@).take(i - 1));
            assert(done.last() == cells@[i - 1]@);
        }
    }
    assert(cell_views(cells@).take(i as int) =~= cell_views(cells@));
    out
}

fn replace_field(fields: &Vec<Field>, field: &Field) -> (r: Vec<Field>)
    ensures
        field_views(r@) == fields_with(field_views(fields@), field@),
{
    let mut out: Vec<Field> = Vec::new();
    let mut i: usize = 0;
    while i < fields.len()
        invariant
            i <= fields@.len(),
            field_views(out@) == fields_with(field_views(fields@), field@).take(i as int),
        decreases fields@.len() - i,
    {
        let next = if fields[i].id == field.id {
            field.clone()
        } else {
            fields[i].clone()
        };
        proof {
            lemma_field_views_push(out@, next);
        }
        out.push(next);
        i += 1;
        assert(field_views(out@) =~= fields_with(field_views(fields@), field@).take(i as int));
    }
    assert(fields_with(field_views(fields@), field@).take(i as int) =~= fields_with(
        field_views(fields@),
        field@,
    ));
    out
}

fn replace_cell(cells: &Vec<Cell>, cell: &Cell) -> (r: Vec<Cell>)
    ensures
        cell_views(r@) == cells_with(cell_views(cells@), cell@),
{
    let mut out: Vec<Cell> = Vec::new();
    if !contains_cell(cells, cell.row_id, cell.field_id) {
        out = copy_cells(cells);
        let ghost before = cell_views(out@);
        out.push(cell.clone());
        assert(cell_views(out@) =~= before.push(cell@));
        return out;
    }
    let ghost target = cells_with(cell_views(cells@), cell@);
    let mut i: usize = 0;
    while i < cells.len()
        invariant
            i <= cells@.len(),
            target == cells_with(cell_views(cells@), cell@),
            target.len() == cells@.len(),
            has_cell(cell_views(cells@), cell.row_id, cell.field_id),
            cell_views(out@) == target.take(i as int),
        decreases cells@.len() - i,
    {
        let next = if cells[i].row_id == cell.row_id && cells[i].field_id == cell.field_id {
            cell.clone()
        } else {
            cells[i].clone()
        };
        proof {
            lemma_cell_views_push(out@, next);
        }
        out.push(next);
        i += 1;
        assert(cell_views(out@) =~= target.take(i as int));
    }
    assert(target.take(i as int) =~= target);
    out
}

/// Applies one operation to the document that the three vectors make up.
fn apply_operation(
    fields: &mut Vec<Field>,
    rows: &mut Vec<u64>,
    cells: &mut Vec<Cell>,
    op: &Operation,
) -> (r: Result<(), ApplyError>)
    ensures
        match pad_of(old(fields)@, old(rows)@, old(cells)@).apply(op@) {
            Ok(next) => r is Ok && pad_of(final(fields)@, final(rows)@, final(cells)@) == next,
            Err(e) => r == Err::<(), ApplyError>(e),
        },
{
    match op {
        Operation::AddField(field) => {
            if contains_field(fields, field.id) {
                return Err(ApplyError::DuplicateField(field.id));
            }
            fields.push(field.clone());
            assert(field_views(final(fields)@) =~= field_views(old(fields)@).push(field@));
        },
        Operation::RemoveField(id) => {
            if !contains_field(fields, *id) {
                return Err(ApplyError::UnknownField(*id));
            }
            *fields = remove_field(fields, *id);
            *cells = remove_cells_of_field(cells, *id);
        },
        Operation::UpdateField(field) => {
            if !contains_field(fields, field.id) {
                return Err(ApplyError::UnknownField(field.id));
            }
            *fields = replace_field(fields, field);
        },
        Operation::InsertRow(id) => {
            if contains_row(rows, *id) {
                return Err(ApplyError::DuplicateRow(*id));
            }
            rows.push(*id);
        },
        Operation::RemoveRow(id) => {
            if !contains_row(rows, *id) {
                return Err(ApplyError::UnknownRow(*id));
            }
            *rows = remove_row(rows, *id);
            *cells = remove_cells_of_row(cells, *id);
        },
        Operation::SetCell(cell) => {
            if !contains_row(rows, cell.row_id) {
                return Err(ApplyError::UnknownRow(cell.row_id));
            }
            if !contains_field(fields, cell.field_id) {
                return Err(ApplyError::UnknownField(cell.field_id));
            }
            *cells = replace_cell(cells, cell);
        },
    }
    Ok(())
}

/// The materialised state of a document.
///
/// A pad is always well-formed: it is built from the empty document by
/// operations that applied.
#[derive(Debug, PartialEq, Eq)]
pub struct Pad {
    fields: Vec<Field>,
    rows: Vec<u64>,
    cells: Vec<Cell>,
}

impl View for Pad {
    type V = PadView;

    closed spec fn view(&self) -> PadView {
        pad_of(self.fields@, self.rows@, self.cells@)
    }
}

impl Clone for Pad {
    fn clone(&self) -> (r: Self)
        ensures
            r@ == self@,
    {
        proof {
            use_type_invariant(self);
        }
        Pad {
            fields: copy_fields(&self.fields),
            rows: copy_rows(&self.rows),
            cells: copy_cells(&self.cells),
        }
    }
}

impl Pad {
    /// What holds of every pad: its document is well-formed.
    #[verifier::type_invariant]
    pub open spec fn well_formed(&self) -> bool {
        self@.wf()
    }

    /// The pad of the empty document.
    pub fn new() -> (r: Pad)
        ensures
            r@ == PadView::empty(),
    {
        let fields: Vec<Field> = Vec::new();
        let cells: Vec<Cell> = Vec::new();
        assert(pad_of(fields@, Seq::<u64>::empty(), cells@) =~= PadView::empty()) by {
            assert(field_views(fields@) =~= Seq::<FieldView>::empty());
            assert(cell_views(cells@) =~= Seq::<CellView>::empty());
        }
        Pad { fields, rows: Vec::new(), cells }
    }

    /// The fields, in the order in which they were added.
    pub fn fields(&self) -> (r: &Vec<Field>)
        ensures
            field_views(r@) == self@.fields,
            self@.wf(),
    {
        proof {
            use_type_invariant(self);
        }
        &self.fields
    }

    /// The ids of the rows, in the order in which they were inserted.
    pub fn rows(&self) -> (r: &Vec<u64>)
        ensures
            r@ == self@.rows,
            self@.wf(),
    {
        proof {
            use_type_invariant(self);
        }
        &self.rows
    }

    /// The cells that hold a value, in the order in which they were first
    /// set.
    pub fn cells(&self) -> (r: &Vec<Cell>)
        ensures
            cell_views(r@) == self@.cells,
            self@.wf(),
    {
        proof {
            use_type_invariant(self);
        }
        &self.cells
    }

    /// The pad that `ops`, applied first to last, make of this one. This pad
    /// stays as it is. Where an operation does not apply, no pad comes out
    /// and the error says why the first such operation did not.
    pub fn apply(&self, ops: &OperationSet) -> (r: Result<Pad, ApplyError>)
        ensures
            self@.wf(),
            match self@.apply_all(ops@) {
                Ok(next) => r matches Ok(pad) && pad@ == next && next.wf(),
                Err(e) => r matches Err(f) && f == e,
            },
    {
        proof {
            use_type_invariant(self);
        }
        let mut fields = copy_fields(&self.fields);
        let mut rows = copy_rows(&self.rows);
        let mut cells = copy_cells(&self.cells);
        let list = ops.operations();
        let mut i: usize = 0;
        assert(ops@.take(0) =~= Seq::<OperationView>::empty());
        while i < list.len()
            invariant
                i <= list@.len(),
                self@.wf(),
                operation_views(list@) == ops@,
                self@.apply_all(ops@.take(i as int)) == Ok::<PadView, ApplyError>(
                    pad_of(fields@, rows@, cells@),
                ),
            decreases list@.len() - i,
        {
            let step = apply_operation(&mut fields, &mut rows, &mut cells, &list[i]);
            proof {
                let done = ops@.take(i + 1);
                assert(done.drop_last() =~= ops@.take(i as int));
                assert(done.last() == list@[i as int]@);
            }
            match step {
                Ok(()) => {},
                Err(e) => {
                    proof {
                        assert(ops@ =~= ops@.take(i + 1) + ops@.skip(i + 1));
                        lemma_apply_all_concat(self@, ops@.take(i + 1), ops@.skip(i + 1));
                    }
                    return Err(e);
                },
            }
            i += 1;
        }
        proof {
            assert(ops@.take(i as int) =~= ops@);
            lemma_apply_all_wf(self@, ops@);
        }
        Ok(Pad { fields, rows, cells })
    }

    /// The pad that `ops` build from the empty document.
    pub fn from_operations(ops: &OperationSet) -> (r: Result<Pad, DecodeError>)
        ensures
            match PadView::from_operations(ops@) {
                Ok(next) => r matches Ok(pad) && pad@ == next && next.wf(),
                Err(e) => r matches Err(f) && f == e,
            },
    {
        match Pad::new().apply(ops) {
            Ok(pad) => Ok(pad),
            Err(e) => Err(DecodeError::Invalid(e)),
        }
    }

    /// The rendering of the document as text: the number of fields, one
    /// line per field in the order in which the fields were added, the
    /// number of rows and the number of cells.
    pub fn to_display_string(&self) -> (r: String)
        ensures
            r@ == display(self@),
    {
        let mut out = String::new();
        out.append("fields: ");
        push_decimal(&mut out, self.fields.len() as u64);
        out.append("\n");
        let ghost head = out@;
        let mut i: usize = 0;
        assert(field_lines(self@.fields.take(0)) =~= Seq::<char>::empty());
        assert(head + Seq::<char>::empty() =~= head);
        while i < self.fields.len()
            invariant
                i <= self.fields@.len(),
                out@ == head + field_lines(self@.fields.take(i as int)),
            decreases self.fields@.len() - i,
        {
            push_field_line(&mut out, &self.fields[i]);
            i += 1;
            proof {
                let done = self@.fields.take(i as int);
                assert(done.drop_last() =~= self@.fields.take(i - 1));
                assert(done.last() == self.fields@[i - 1]@);
                assert(out@ =~= head + field_lines(done));
            }
        }
        assert(self@.fields.take(i as int) =~= self@.fields);
        out.append("rows: ");
        push_decimal(&mut out, self.rows.len() as u64);
        out.append("\n");
        out.append("cells: ");
        push_decimal(&mut out, self.cells.len() as u64);
        out.append("\n");
        assert(out@ =~= display(self@));
        out
    }

    /// The pad that `bytes` stand for.
    pub fn from_bytes(bytes: &[u8]) -> (r: Result<Pad, DecodeError>)
        ensures
            match decode_pad(bytes@) {
                Ok(next) => r matches Ok(pad) && pad@ == next && next.wf(),
                Err(e) => r matches Err(f) && f == e,
            },
    {
        match OperationSet::from_bytes(bytes) {
            Ok(ops) => Pad::from_operations(&ops),
            Err(e) => Err(e),
        }
    }

    /// The bytes that this pad is written as: those of the operations that
    /// build it.
    pub fn to_bytes(&self) -> (r: Vec<u8>)
        ensures
            r@ == encode_pad(self@),
            self@.wf(),
            all_fit(self@.to_operations()),
    {
        self.to_operations().to_bytes()
    }

    /// The operations that build this pad from the empty document: one
    /// `AddField` per field, one `InsertRow` per row, one `SetCell` per cell.
    pub fn to_operations(&self) -> (r: OperationSet)
        ensures
            r@ == self@.to_operations(),
            self@.wf(),
    {
        proof {
            use_type_invariant(self);
        }
        let mut ops = OperationSet::new();
        let mut i: usize = 0;
        while i < self.fields.len()
            invariant
                i <= self.fields@.len(),
                ops@ == field_additions(self@.fields).take(i as int),
            decreases self.fields@.len() - i,
        {
            ops.push(Operation::AddField(self.fields[i].clone()));
            i += 1;
            assert(ops@ =~= field_additions(self@.fields).take(i as int));
        }
        assert(field_additions(self@.fields).take(i as int) =~= field_additions(self@.fields));
        let mut j: usize = 0;
        while j < self.rows.len()
            invariant
                j <= self.rows@.len(),
                ops@ == field_additions(self@.fields) + row_insertions(self@.rows).take(j as int),
            decreases self.rows@.len() - j,
        {
            ops.push(Operation::InsertRow(self.rows[j]));
            j += 1;
            assert(ops@ =~= field_additions(self@.fields) + row_insertions(self@.rows).take(
                j as int,
            ));
        }
        assert(row_insertions(self@.rows).take(j as int) =~= row_insertions(self@.rows));
        let mut k: usize = 0;
        while k < self.cells.len()
            invariant
                k <= self.cells@.len(),
                ops@ == field_additions(self@.fields) + row_insertions(self@.rows)
                    + cell_settings(self@.cells).take(k as int),
            decreases self.cells@.len() - k,
        {
            ops.push(Operation::SetCell(self.cells[k].clone()));
            k += 1;
            assert(ops@ =~= field_additions(self@.fields) + row_insertions(self@.rows)
                + cell_settings(self@.cells).take(k as int));
        }
        assert(cell_settings(self@.cells).take(k as int) =~= cell_settings(self@.cells));
        ops
    }
}

} // verus!
