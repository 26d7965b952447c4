//! The mathematical model of a pad: what a document is, what each operation
//! does to it, and the laws that hold of both.

use crate::error::{ApplyError, DecodeError};
use crate::field::{CellView, FieldView};
use crate::operation::{
    all_fit, lemma_parse_operations_bytes, operations_bytes, parse_operations, OperationView,
};
use vstd::prelude::*;

verus! {

/// The items of `items` that `keep` accepts, in their order.
pub open spec fn retain<A>(items: Seq<A>, keep: spec_fn(A) -> bool) -> Seq<A>
    decreases items.len(),
{
    if items.len() == 0 {
        items
    } else {
        let kept = retain(items.drop_last(), keep);
        if keep(items.last()) {
            kept.push(items.last())
        } else {
            kept
        }
    }
}

/// Whether a field of `fields` has the id `id`.
pub open spec fn has_field(fields: Seq<FieldView>, id: u64) -> bool {
    exists|i: int| 0 <= i < fields.len() && (#[trigger] fields[i]).id == id
}

/// Whether `id` is one of `rows`.
pub open spec fn has_row(rows: Seq<u64>, id: u64) -> bool {
    exists|i: int| 0 <= i < rows.len() && #[trigger] rows[i] == id
}

/// Whether `cells` holds a value for this row and field.
pub open spec fn has_cell(cells: Seq<CellView>, row_id: u64, field_id: u64) -> bool {
    exists|i: int|
        0 <= i < cells.len() && (#[trigger] cells[i]).row_id == row_id && cells[i].field_id
            == field_id
}

/// Accepts the fields whose id is not `id`.
pub open spec fn other_field(id: u64) -> spec_fn(FieldView) -> bool {
    |f: FieldView| f.id != id
}

/// Accepts the rows other than `id`.
pub open spec fn other_row(id: u64) -> spec_fn(u64) -> bool {
    |r: u64| r != id
}

/// Accepts the cells that do not belong to the field `field_id`.
pub open spec fn off_field(field_id: u64) -> spec_fn(CellView) -> bool {
    |c: CellView| c.field_id != field_id
}

/// Accepts the cells that do not belong to the row `row_id`.
pub open spec fn off_row(row_id: u64) -> spec_fn(CellView) -> bool {
    |c: CellView| c.row_id != row_id
}

/// The fields other than the one with id `id`.
pub open spec fn fields_without(fields: Seq<FieldView>, id: u64) -> Seq<FieldView> {
    retain(fields, other_field(id))
}

/// The rows other than `id`.
pub open spec fn rows_without(rows: Seq<u64>, id: u64) -> Seq<u64> {
    retain(rows, other_row(id))
}

/// The cells that do not belong to the field `field_id`.
pub open spec fn cells_without_field(cells: Seq<CellView>, field_id: u64) -> Seq<CellView> {
    retain(cells, off_field(field_id))
}

/// The cells that do not belong to the row `row_id`.
pub open spec fn cells_without_row(cells: Seq<CellView>, row_id: u64) -> Seq<CellView> {
    retain(cells, off_row(row_id))
}

/// The fields with `field` in place of the one that has its id.
pub open spec fn fields_with(fields: Seq<FieldView>, field: FieldView) -> Seq<FieldView> {
    Seq::new(
        fields.len(),
        |i: int|
            if fields[i].id == field.id {
                field
            } else {
                fields[i]
            },
    )
}

/// The cells with `cell` in place of the one for its row and field, or
/// behind the others if there is none.
pub open spec fn cells_with(cells: Seq<CellView>, cell: CellView) -> Seq<CellView> {
    if has_cell(cells, cell.row_id, cell.field_id) {
        Seq::new(
            cells.len(),
            |i: int|
                if cells[i].row_id == cell.row_id && cells[i].field_id == cell.field_id {
                    cell
                } else {
                    cells[i]
                },
        )
    } else {
        cells.push(cell)
    }
}

/// One `AddField` for each field, in order.
pub open spec fn field_additions(fields: Seq<FieldView>) -> Seq<OperationView> {
    Seq::new(fields.len(), |i: int| OperationView::AddField(fields[i]))
}

/// One `InsertRow` for each row, in order.
pub open spec fn row_insertions(rows: Seq<u64>) -> Seq<OperationView> {
    Seq::new(rows.len(), |i: int| OperationView::InsertRow(rows[i]))
}

/// One `SetCell` for each cell, in order.
pub open spec fn cell_settings(cells: Seq<CellView>) -> Seq<OperationView> {
    Seq::new(cells.len(), |i: int| OperationView::SetCell(cells[i]))
}

/// A document: its fields in the order in which they were added, its rows
/// likewise, and the cells that hold a value.
pub struct PadView {
    pub fields: Seq<FieldView>,
    pub rows: Seq<u64>,
    pub cells: Seq<CellView>,
}

impl PadView {
    /// The document without fields and rows.
    pub open spec fn empty() -> PadView {
        PadView { fields: Seq::empty(), rows: Seq::empty(), cells: Seq::empty() }
    }

    /// No two fields share an id, no two rows do, no two cells share row and
    /// field, and every cell belongs to a field and a row that are there.
    pub open spec fn wf(self) -> bool {
        &&& forall|i: int, j: int|
            0 <= i < j < self.fields.len() ==> (#[trigger] self.fields[i]).id != (
            #[trigger] self.fields[j]).id
        &&& forall|i: int, j: int|
            0 <= i < j < self.rows.len() ==> #[trigger] self.rows[i] != #[trigger] self.rows[j]
        &&& forall|i: int, j: int|
            0 <= i < j < self.cells.len() ==> !((#[trigger] self.cells[i]).row_id == (
            #[trigger] self.cells[j]).row_id && self.cells[i].field_id == self.cells[j].field_id)
        &&& forall|i: int|
            0 <= i < self.cells.len() ==> has_field(self.fields, (#[trigger] self.cells[i]).field_id)
                && has_row(self.rows, self.cells[i].row_id)
    }

    /// What one operation makes of the document, or why it does not apply.
    pub open spec fn apply(self, op: OperationView) -> Result<PadView, ApplyError> {
        match op {
            OperationView::AddField(field) => {
                if has_field(self.fields, field.id) {
                    Err(ApplyError::DuplicateField(field.id))
                } else {
                    Ok(PadView { fields: self.fields.push(field), ..self })
                }
            },
            OperationView::RemoveField(id) => {
                if !has_field(self.fields, id) {
                    Err(ApplyError::UnknownField(id))
                } else {
                    Ok(
                        PadView {
                            fields: fields_without(self.fields, id),
                            rows: self.rows,
                            cells: cells_without_field(self.cells, id),
                        },
                    )
                }
            },
            OperationView::UpdateField(field) => {
                if !has_field(self.fields, field.id) {
                    Err(ApplyError::UnknownField(field.id))
                } else {
                    Ok(PadView { fields: fields_with(self.fields, field), ..self })
                }
            },
            OperationView::InsertRow(id) => {
                if has_row(self.rows, id) {
                    Err(ApplyError::DuplicateRow(id))
                } else {
                    Ok(PadView { rows: self.rows.push(id), ..self })
                }
            },
            OperationView::RemoveRow(id) => {
                if !has_row(self.rows, id) {
                    Err(ApplyError::UnknownRow(id))
                } else {
                    Ok(
                        PadView {
                            fields: self.fields,
                            rows: rows_without(self.rows, id),
                            cells: cells_without_row(self.cells, id),
                        },
                    )
                }
            },
            OperationView::SetCell(cell) => {
                if !has_row(self.rows, cell.row_id) {
                    Err(ApplyError::UnknownRow(cell.row_id))
                } else if !has_field(self.fields, cell.field_id) {
                    Err(ApplyError::UnknownField(cell.field_id))
                } else {
                    Ok(PadView { cells: cells_with(self.cells, cell), ..self })
                }
            },
        }
    }

    /// What the operations of `ops`, applied first to last, make of the
    /// document, or why the first one that does not apply does not.
    pub open spec fn apply_all(self, ops: Seq<OperationView>) -> Result<PadView, ApplyError>
        decreases ops.len(),
    {
        if ops.len() == 0 {
            Ok(self)
        } else {
            match self.apply_all(ops.drop_last()) {
                Ok(pad) => pad.apply(ops.last()),
                Err(e) => Err(e),
            }
        }
    }

    /// The operations that build the document from nothing: its fields, then
    /// its rows, then its cells, each in order.
    pub open spec fn to_operations(self) -> Seq<OperationView> {
        field_additions(self.fields) + row_insertions(self.rows) + cell_settings(self.cells)
    }

    /// The document that `ops` build from nothing.
    pub open spec fn from_operations(ops: Seq<OperationView>) -> Result<PadView, DecodeError> {
        match PadView::empty().apply_all(ops) {
            Ok(pad) => Ok(pad),
            Err(e) => Err(DecodeError::Invalid(e)),
        }
    }
}

/// What `retain` keeps was there and is accepted, and what was there and is
/// accepted is kept.
pub proof fn lemma_retain<A>(items: Seq<A>, keep: spec_fn(A) -> bool)
    ensures
        retain(items, keep).len() <= items.len(),
        forall|k: int|
            0 <= k < retain(items, keep).len() ==> keep(#[trigger] retain(items, keep)[k])
                && items.contains(retain(items, keep)[k]),
        forall|i: int|
            0 <= i < items.len() && keep(items[i]) ==> retain(items, keep).contains(
                #[trigger] items[i],
            ),
    decreases items.len(),
{
    let out = retain(items, keep);
    if items.len() > 0 {
        let front = items.drop_last();
        let kept = retain(front, keep);
        lemma_retain(front, keep);
        assert forall|k: int| 0 <= k < out.len() implies keep(#[trigger] out[k]) && items.contains(
            out[k],
        ) by {
            if k < kept.len() {
                assert(out[k] == kept[k]);
                assert(front.contains(kept[k]));
                let m = choose|m: int| 0 <= m < front.len() && front[m] == kept[k];
                assert(items[m] == out[k]);
            } else {
                assert(out[k] == items[items.len() - 1]);
            }
        }
        assert forall|i: int| 0 <= i < items.len() && keep(items[i]) implies out.contains(
            #[trigger] items[i],
        ) by {
            if i < front.len() {
                assert(front[i] == items[i]);
                assert(kept.contains(front[i]));
                let m = choose|m: int| 0 <= m < kept.len() && kept[m] == front[i];
                assert(out[m] == items[i]);
            } else {
                assert(out[out.len() - 1] == items[i]);
            }
        }
    }
}

/// Where no two items are alike, no two of those that `retain` keeps are.
pub proof fn lemma_retain_distinct<A>(
    items: Seq<A>,
    keep: spec_fn(A) -> bool,
    alike: spec_fn(A, A) -> bool,
)
    requires
        forall|i: int, j: int|
            0 <= i < j < items.len() ==> !alike(#[trigger] items[i], #[trigger] items[j]),
    ensures
        forall|i: int, j: int|
            0 <= i < j < retain(items, keep).len() ==> !alike(
                #[trigger] retain(items, keep)[i],
                #[trigger] retain(items, keep)[j],
            ),
    decreases items.len(),
{
    let out = retain(items, keep);
    if items.len() > 0 {
        let front = items.drop_last();
        let kept = retain(front, keep);
        assert forall|i: int, j: int| 0 <= i < j < front.len() implies !alike(
            #[trigger] front[i],
            #[trigger] front[j],
        ) by {
            assert(front[i] == items[i] && front[j] == items[j]);
        }
        lemma_retain_distinct(front, keep, alike);
        lemma_retain(front, keep);
        assert forall|i: int, j: int| 0 <= i < j < out.len() implies !alike(
            #[trigger] out[i],
            #[trigger] out[j],
        ) by {
            if j < kept.len() {
                assert(out[i] == kept[i] && out[j] == kept[j]);
            } else {
                assert(out[i] == kept[i]);
                assert(front.contains(kept[i]));
                let m = choose|m: int| 0 <= m < front.len() && front[m] == kept[i];
                assert(items[m] == out[i]);
                assert(out[j] == items[items.len() - 1]);
            }
        }
    }
}

/// An operation that applies to a well-formed document leaves it well-formed.
pub proof fn lemma_apply_wf(pad: PadView, op: OperationView)
    requires
        pad.wf(),
    ensures
        pad.apply(op) matches Ok(next) ==> next.wf(),
{
    if let Ok(next) = pad.apply(op) {
        match op {
            OperationView::AddField(field) => {
                assert forall|i: int| 0 <= i < next.cells.len() implies has_field(
                    next.fields,
                    (#[trigger] next.cells[i]).field_id,
                ) by {
                    let m = choose|m: int|
                        0 <= m < pad.fields.len() && (#[trigger] pad.fields[m]).id
                            == pad.cells[i].field_id;
                    assert(next.fields[m] == pad.fields[m]);
                }
            },
            OperationView::RemoveField(id) => {
                let keep_field = other_field(id);
                let keep_cell = off_field(id);
                lemma_retain(pad.fields, keep_field);
                lemma_retain(pad.cells, keep_cell);
                lemma_retain_distinct(
                    pad.fields,
                    keep_field,
                    |a: FieldView, b: FieldView| a.id == b.id,
                );
                lemma_retain_distinct(
                    pad.cells,
                    keep_cell,
                    |a: CellView, b: CellView| a.row_id == b.row_id && a.field_id == b.field_id,
                );
                assert forall|i: int| 0 <= i < next.cells.len() implies has_field(
                    next.fields,
                    (#[trigger] next.cells[i]).field_id,
                ) && has_row(next.rows, next.cells[i].row_id) by {
                    let cell = next.cells[i];
                    assert(keep_cell(cell) && pad.cells.contains(cell));
                    let c = choose|c: int| 0 <= c < pad.cells.len() && pad.cells[c] == cell;
                    let m = choose|m: int|
                        0 <= m < pad.fields.len() && (#[trigger] pad.fields[m]).id
                            == pad.cells[c].field_id;
                    assert(keep_field(pad.fields[m]));
                    assert(next.fields.contains(pad.fields[m]));
                    let n = choose|n: int| 0 <= n < next.fields.len() && next.fields[n] == pad.fields[m];
                    assert(next.fields[n].id == cell.field_id);
                }
            },
            OperationView::UpdateField(field) => {
                assert forall|i: int| 0 <= i < next.cells.len() implies has_field(
                    next.fields,
                    (#[trigger] next.cells[i]).field_id,
                ) by {
                    let m = choose|m: int|
                        0 <= m < pad.fields.len() && (#[trigger] pad.fields[m]).id
                            == pad.cells[i].field_id;
                    assert(next.fields[m].id == pad.fields[m].id);
                }
            },
            OperationView::InsertRow(id) => {
                assert forall|i: int| 0 <= i < next.cells.len() implies has_row(
                    next.rows,
                    (#[trigger] next.cells[i]).row_id,
                ) by {
                    let m = choose|m: int|
                        0 <= m < pad.rows.len() && #[trigger] pad.rows[m] == pad.cells[i].row_id;
                    assert(next.rows[m] == pad.rows[m]);
                }
            },
            OperationView::RemoveRow(id) => {
                let keep_row = other_row(id);
                let keep_cell = off_row(id);
                lemma_retain(pad.rows, keep_row);
                lemma_retain(pad.cells, keep_cell);
                lemma_retain_distinct(pad.rows, keep_row, |a: u64, b: u64| a == b);
                lemma_retain_distinct(
                    pad.cells,
                    keep_cell,
                    |a: CellView, b: CellView| a.row_id == b.row_id && a.field_id == b.field_id,
                );
                assert forall|i: int| 0 <= i < next.cells.len() implies has_field(
                    next.fields,
                    (#[trigger] next.cells[i]).field_id,
                ) && has_row(next.rows, next.cells[i].row_id) by {
                    let cell = next.cells[i];
                    assert(keep_cell(cell) && pad.cells.contains(cell));
                    let c = choose|c: int| 0 <= c < pad.cells.len() && pad.cells[c] == cell;
                    let m = choose|m: int|
                        0 <= m < pad.rows.len() && #[trigger] pad.rows[m] == pad.cells[c].row_id;
                    assert(keep_row(pad.rows[m]));
                    assert(next.rows.contains(pad.rows[m]));
                    let n = choose|n: int| 0 <= n < next.rows.len() && next.rows[n] == pad.rows[m];
                    assert(next.rows[n] == cell.row_id);
                }
            },
            OperationView::SetCell(cell) => {
                if has_cell(pad.cells, cell.row_id, cell.field_id) {
                    assert forall|i: int| 0 <= i < next.cells.len() implies (
                    #[trigger] next.cells[i]).row_id == pad.cells[i].row_id
                        && next.cells[i].field_id == pad.cells[i].field_id by {}
                } else {
                    assert forall|i: int| 0 <= i < next.cells.len() implies has_field(
                        next.fields,
                        (#[trigger] next.cells[i]).field_id,
                    ) && has_row(next.rows, next.cells[i].row_id) by {
                        if i < pad.cells.len() {
                            assert(next.cells[i] == pad.cells[i]);
                        }
                    }
                }
            },
        }
    }
}

/// Operations that apply to a well-formed document leave it well-formed.
pub proof fn lemma_apply_all_wf(pad: PadView, ops: Seq<OperationView>)
    requires
        pad.wf(),
    ensures
        pad.apply_all(ops) matches Ok(next) ==> next.wf(),
    decreases ops.len(),
{
    if ops.len() > 0 {
        lemma_apply_all_wf(pad, ops.drop_last());
        if let Ok(middle) = pad.apply_all(ops.drop_last()) {
            lemma_apply_wf(middle, ops.last());
        }
    }
}

/// Applying two sequences one after the other is applying them joined.
pub proof fn lemma_apply_all_concat(pad: PadView, first: Seq<OperationView>, second: Seq<OperationView>)
    ensures
        pad.apply_all(first + second) == match pad.apply_all(first) {
            Ok(middle) => middle.apply_all(second),
            Err(e) => Err(e),
        },
    decreases second.len(),
{
    if second.len() == 0 {
        assert(first + second =~= first);
    } else {
        assert((first + second).drop_last() =~= first + second.drop_last());
        assert((first + second).last() == second.last());
        lemma_apply_all_concat(pad, first, second.drop_last());
    }
}

/// The first `count` additions build the first `count` fields.
proof fn lemma_build_fields(fields: Seq<FieldView>, count: int)
    requires
        0 <= count <= fields.len(),
        forall|i: int, j: int|
            0 <= i < j < fields.len() ==> (#[trigger] fields[i]).id != (#[trigger] fields[j]).id,
    ensures
        PadView::empty().apply_all(field_additions(fields).take(count)) == Ok::<
            PadView,
            ApplyError,
        >((PadView { fields: fields.take(count), rows: Seq::empty(), cells: Seq::empty() })),
    decreases count,
{
    let ops = field_additions(fields).take(count);
    if count == 0 {
        assert(fields.take(0) =~= Seq::empty());
    } else {
        lemma_build_fields(fields, count - 1);
        assert(ops.drop_last() =~= field_additions(fields).take(count - 1));
        assert(ops.last() == OperationView::AddField(fields[count - 1]));
        let before = fields.take(count - 1);
        assert(!has_field(before, fields[count - 1].id)) by {
            assert forall|i: int| 0 <= i < before.len() implies (#[trigger] before[i]).id
                != fields[count - 1].id by {
                assert(before[i] == fields[i]);
            }
        }
        assert(before.push(fields[count - 1]) =~= fields.take(count));
    }
}

/// The first `count` insertions build the first `count` rows.
proof fn lemma_build_rows(fields: Seq<FieldView>, rows: Seq<u64>, count: int)
    requires
        0 <= count <= rows.len(),
        forall|i: int, j: int| 0 <= i < j < rows.len() ==> #[trigger] rows[i] != #[trigger] rows[j],
    ensures
        (PadView { fields, rows: Seq::empty(), cells: Seq::empty() }).apply_all(
            row_insertions(rows).take(count),
        ) == Ok::<PadView, ApplyError>(
            (PadView { fields, rows: rows.take(count), cells: Seq::empty() }),
        ),
    decreases count,
{
    let ops = row_insertions(rows).take(count);
    if count == 0 {
        assert(rows.take(0) =~= Seq::empty());
    } else {
        lemma_build_rows(fields, rows, count - 1);
        assert(ops.drop_last() =~= row_insertions(rows).take(count - 1));
        assert(ops.last() == OperationView::InsertRow(rows[count - 1]));
        let before = rows.take(count - 1);
        assert(!has_row(before, rows[count - 1])) by {
            assert forall|i: int| 0 <= i < before.len() implies #[trigger] before[i] != rows[count
                - 1] by {
                assert(before[i] == rows[i]);
            }
        }
        assert(before.push(rows[count - 1]) =~= rows.take(count));
    }
}

/// The first `count` settings build the first `count` cells.
proof fn lemma_build_cells(pad: PadView, count: int)
    requires
        0 <= count <= pad.cells.len(),
        pad.wf(),
    ensures
        (PadView { fields: pad.fields, rows: pad.rows, cells: Seq::empty() }).apply_all(
            cell_settings(pad.cells).take(count),
        ) == Ok::<PadView, ApplyError>(
            (PadView { fields: pad.fields, rows: pad.rows, cells: pad.cells.take(count) }),
        ),
    decreases count,
{
    let ops = cell_settings(pad.cells).take(count);
    if count == 0 {
        assert(pad.cells.take(0) =~= Seq::empty());
    } else {
        lemma_build_cells(pad, count - 1);
        assert(ops.drop_last() =~= cell_settings(pad.cells).take(count - 1));
        let cell = pad.cells[count - 1];
        assert(ops.last() == OperationView::SetCell(cell));
        let before = pad.cells.take(count - 1);
        assert(!has_cell(before, cell.row_id, cell.field_id)) by {
            assert forall|i: int| 0 <= i < before.len() implies !((#[trigger] before[i]).row_id
                == cell.row_id && before[i].field_id == cell.field_id) by {
                assert(before[i] == pad.cells[i]);
            }
        }
        assert(before.push(cell) =~= pad.cells.take(count));
    }
}

/// The operations that a well-formed document is written as build that
/// document again.
pub proof fn lemma_round_trip(pad: PadView)
    requires
        pad.wf(),
    ensures
        PadView::from_operations(pad.to_operations()) == Ok::<PadView, DecodeError>(pad),
{
    let additions = field_additions(pad.fields);
    let insertions = row_insertions(pad.rows);
    let settings = cell_settings(pad.cells);
    lemma_build_fields(pad.fields, pad.fields.len() as int);
    lemma_build_rows(pad.fields, pad.rows, pad.rows.len() as int);
    lemma_build_cells(pad, pad.cells.len() as int);
    assert(additions.take(pad.fields.len() as int) =~= additions);
    assert(insertions.take(pad.rows.len() as int) =~= insertions);
    assert(settings.take(pad.cells.len() as int) =~= settings);
    assert(pad.fields.take(pad.fields.len() as int) =~= pad.fields);
    assert(pad.rows.take(pad.rows.len() as int) =~= pad.rows);
    assert(pad.cells.take(pad.cells.len() as int) =~= pad.cells);
    lemma_apply_all_concat(PadView::empty(), additions, insertions);
    lemma_apply_all_concat(PadView::empty(), additions + insertions, settings);
}

/// The bytes that a document is written as.
pub open spec fn encode_pad(pad: PadView) -> Seq<u8> {
    operations_bytes(pad.to_operations())
}

/// The document that `data` stands for.
pub open spec fn decode_pad(data: Seq<u8>) -> Result<PadView, DecodeError> {
    match parse_operations(data) {
        Err(e) => Err(e),
        Ok(ops) => PadView::from_operations(ops),
    }
}


/// A well-formed document that was written is read back as it was.
pub proof fn lemma_decode_encode(pad: PadView)
    requires
        pad.wf(),
        all_fit(pad.to_operations()),
    ensures
        decode_pad(encode_pad(pad)) == Ok::<PadView, DecodeError>(pad),
{
    lemma_parse_operations_bytes(pad.to_operations());
    lemma_round_trip(pad);
}

} // verus!
