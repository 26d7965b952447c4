//! Operations on a document, sets of them, and their byte form.
//!
//! An operation set is written as its operations one after the other, in
//! order, with nothing before, between or behind them. One operation is a tag
//! byte followed by what the operation carries.

use crate::error::DecodeError;
use crate::field::{
    cell_bytes, field_bytes, lemma_parse_cell_bytes, lemma_parse_field_bytes, parse_cell,
    parse_field, Cell, CellView, Field, FieldView,
};
use crate::wire::{
    lemma_parse_number_bytes, number_bytes, parse_number, put_number, tail_from, take_number,
    text_fits,
};
use vstd::prelude::*;

verus! {

pub const TAG_ADD_FIELD: u8 = 0;

pub const TAG_REMOVE_FIELD: u8 = 1;

pub const TAG_UPDATE_FIELD: u8 = 2;

pub const TAG_INSERT_ROW: u8 = 3;

pub const TAG_REMOVE_ROW: u8 = 4;

pub const TAG_SET_CELL: u8 = 5;

/// One change to a document.
#[derive(Debug, PartialEq, Eq)]
pub enum Operation {
    /// Adds a field behind the fields that are there.
    AddField(Field),
    /// Removes the field with this id, and the cells that belong to it.
    RemoveField(u64),
    /// Gives the field with the same id this name and kind.
    UpdateField(Field),
    /// Adds an empty row with this id behind the rows that are there.
    InsertRow(u64),
    /// Removes the row with this id, and its cells.
    RemoveRow(u64),
    /// Sets the value that a row holds for a field.
    SetCell(Cell),
}

/// What an [`Operation`] is to the contracts.
pub enum OperationView {
    AddField(FieldView),
    RemoveField(u64),
    UpdateField(FieldView),
    InsertRow(u64),
    RemoveRow(u64),
    SetCell(CellView),
}

impl View for Operation {
    type V = OperationView;

    open spec fn view(&self) -> OperationView {
        match self {
            Operation::AddField(field) => OperationView::AddField(field@),
            Operation::RemoveField(id) => OperationView::RemoveField(*id),
            Operation::UpdateField(field) => OperationView::UpdateField(field@),
            Operation::InsertRow(id) => OperationView::InsertRow(*id),
            Operation::RemoveRow(id) => OperationView::RemoveRow(*id),
            Operation::SetCell(cell) => OperationView::SetCell(cell@),
        }
    }
}

impl Clone for Operation {
    fn clone(&self) -> (r: Self)
        ensures
            r@ == self@,
    {
        match self {
            Operation::AddField(field) => Operation::AddField(field.clone()),
            Operation::RemoveField(id) => Operation::RemoveField(*id),
            Operation::UpdateField(field) => Operation::UpdateField(field.clone()),
            Operation::InsertRow(id) => Operation::InsertRow(*id),
            Operation::RemoveRow(id) => Operation::RemoveRow(*id),
            Operation::SetCell(cell) => Operation::SetCell(cell.clone()),
        }
    }
}

impl OperationView {
    /// Whether the texts of this operation are short enough to be written.
    /// Those of every [`Operation`] in memory are.
    pub open spec fn fits(self) -> bool {
        match self {
            OperationView::AddField(field) => text_fits(field.name),
            OperationView::UpdateField(field) => text_fits(field.name),
            OperationView::SetCell(cell) => text_fits(cell.value),
            _ => true,
        }
    }
}

/// The bytes that stand for one operation.
pub open spec fn operation_bytes(op: OperationView) -> Seq<u8> {
    match op {
        OperationView::AddField(field) => seq![TAG_ADD_FIELD] + field_bytes(field),
        OperationView::RemoveField(id) => seq![TAG_REMOVE_FIELD] + number_bytes(id),
        OperationView::UpdateField(field) => seq![TAG_UPDATE_FIELD] + field_bytes(field),
        OperationView::InsertRow(id) => seq![TAG_INSERT_ROW] + number_bytes(id),
        OperationView::RemoveRow(id) => seq![TAG_REMOVE_ROW] + number_bytes(id),
        OperationView::SetCell(cell) => seq![TAG_SET_CELL] + cell_bytes(cell),
    }
}

/// Reads one operation from the front of `input`.
pub open spec fn parse_operation(input: Seq<u8>) -> Result<(OperationView, Seq<u8>), DecodeError> {
    if input.len() == 0 {
        Err(DecodeError::Truncated)
    } else {
        let tag = input[0];
        let body = input.skip(1);
        if tag == TAG_ADD_FIELD {
            match parse_field(body) {
                Ok((field, rest)) => Ok((OperationView::AddField(field), rest)),
                Err(e) => Err(e),
            }
        } else if tag == TAG_REMOVE_FIELD {
            match parse_number(body) {
                Ok((id, rest)) => Ok((OperationView::RemoveField(id), rest)),
                Err(e) => Err(e),
            }
        } else if tag == TAG_UPDATE_FIELD {
            match parse_field(body) {
                Ok((field, rest)) => Ok((OperationView::UpdateField(field), rest)),
                Err(e) => Err(e),
            }
        } else if tag == TAG_INSERT_ROW {
            match parse_number(body) {
                Ok((id, rest)) => Ok((OperationView::InsertRow(id), rest)),
                Err(e) => Err(e),
            }
        } else if tag == TAG_REMOVE_ROW {
            match parse_number(body) {
                Ok((id, rest)) => Ok((OperationView::RemoveRow(id), rest)),
                Err(e) => Err(e),
            }
        } else if tag == TAG_SET_CELL {
            match parse_cell(body) {
                Ok((cell, rest)) => Ok((OperationView::SetCell(cell), rest)),
                Err(e) => Err(e),
            }
        } else {
            Err(DecodeError::UnknownOperation(tag))
        }
    }
}

/// The bytes that stand for a sequence of operations.
pub open spec fn operations_bytes(ops: Seq<OperationView>) -> Seq<u8>
    decreases ops.len(),
{
    if ops.len() == 0 {
        Seq::empty()
    } else {
        operations_bytes(ops.drop_last()) + operation_bytes(ops.last())
    }
}

/// Reads operations from `input` until it is used up.
pub open spec fn parse_operations(input: Seq<u8>) -> Result<Seq<OperationView>, DecodeError>
    decreases input.len(),
{
    if input.len() == 0 {
        Ok(Seq::empty())
    } else {
        match parse_operation(input) {
            Err(e) => Err(e),
            Ok((op, rest)) => match parse_operations(rest) {
                Err(e) => Err(e),
                Ok(ops) => Ok(seq![op] + ops),
            },
        }
    }
}

/// Whether every operation of `ops` can be written.
pub open spec fn all_fit(ops: Seq<OperationView>) -> bool {
    forall|i: int| 0 <= i < ops.len() ==> (#[trigger] ops[i]).fits()
}

/// An operation that was written is read back, and reading stops right
/// behind it.
pub proof fn lemma_parse_operation_bytes(op: OperationView, tail: Seq<u8>)
    requires
        op.fits(),
    ensures
        operation_bytes(op).len() >= 1,
        parse_operation(operation_bytes(op) + tail) == Ok::<(OperationView, Seq<u8>), DecodeError>(
            (op, tail),
        ),
{
    let input = operation_bytes(op) + tail;
    match op {
        OperationView::AddField(field) => {
            assert(input.skip(1) =~= field_bytes(field) + tail);
            lemma_parse_field_bytes(field, tail);
        },
        OperationView::RemoveField(id) => {
            assert(input.skip(1) =~= number_bytes(id) + tail);
            lemma_parse_number_bytes(id, tail);
        },
        OperationView::UpdateField(field) => {
            assert(input.skip(1) =~= field_bytes(field) + tail);
            lemma_parse_field_bytes(field, tail);
        },
        OperationView::InsertRow(id) => {
            assert(input.skip(1) =~= number_bytes(id) + tail);
            lemma_parse_number_bytes(id, tail);
        },
        OperationView::RemoveRow(id) => {
            assert(input.skip(1) =~= number_bytes(id) + tail);
            lemma_parse_number_bytes(id, tail);
        },
        OperationView::SetCell(cell) => {
            assert(input.skip(1) =~= cell_bytes(cell) + tail);
            lemma_parse_cell_bytes(cell, tail);
        },
    }
}

/// The bytes of a sequence are the bytes of its first operation followed by
/// the bytes of the others.
pub proof fn lemma_operations_bytes_first(op: OperationView, rest: Seq<OperationView>)
    ensures
        operations_bytes(seq![op] + rest) == operation_bytes(op) + operations_bytes(rest),
    decreases rest.len(),
{
    let all = seq![op] + rest;
    if rest.len() == 0 {
        assert(all.drop_last() =~= rest);
        assert(all.last() == op);
        assert(operations_bytes(rest) =~= Seq::<u8>::empty());
        assert(operations_bytes(all) =~= operation_bytes(op) + operations_bytes(rest));
    } else {
        assert(all.last() == rest.last());
        assert(all.drop_last() =~= seq![op] + rest.drop_last());
        lemma_operations_bytes_first(op, rest.drop_last());
        assert(operations_bytes(all) =~= operation_bytes(op) + operations_bytes(rest));
    }
}

/// Decoding undoes encoding: the bytes written for a sequence of operations
/// are read back as that sequence.
pub proof fn lemma_parse_operations_bytes(ops: Seq<OperationView>)
    requires
        all_fit(ops),
    ensures
        parse_operations(operations_bytes(ops)) == Ok::<Seq<OperationView>, DecodeError>(ops),
    decreases ops.len(),
{
    if ops.len() == 0 {
        assert(ops =~= Seq::empty());
    } else {
        let first = ops[0];
        let rest = ops.drop_first();
        assert(ops =~= seq![first] + rest);
        lemma_operations_bytes_first(first, rest);
        lemma_parse_operation_bytes(first, operations_bytes(rest));
        lemma_parse_operations_bytes(rest);
    }
}

/// The views of a sequence of operations, in order.
pub open spec fn operation_views(ops: Seq<Operation>) -> Seq<OperationView> {
    Seq::new(ops.len(), |i: int| ops[i]@)
}

impl Operation {
    /// Appends the bytes of this operation to `out`.
    pub fn put(&self, out: &mut Vec<u8>)
        ensures
            final(out)@ == old(out)@ + operation_bytes(self@),
            self@.fits(),
    {
        match self {
            Operation::AddField(field) => {
                out.push(TAG_ADD_FIELD);
                field.put(out);
            },
            Operation::RemoveField(id) => {
                out.push(TAG_REMOVE_FIELD);
                put_number(out, *id);
            },
            Operation::UpdateField(field) => {
                out.push(TAG_UPDATE_FIELD);
                field.put(out);
            },
            Operation::InsertRow(id) => {
                out.push(TAG_INSERT_ROW);
                put_number(out, *id);
            },
            Operation::RemoveRow(id) => {
                out.push(TAG_REMOVE_ROW);
                put_number(out, *id);
            },
            Operation::SetCell(cell) => {
                out.push(TAG_SET_CELL);
                cell.put(out);
            },
        }
        assert(final(out)@ =~= old(out)@ + operation_bytes(self@));
    }

    /// Reads an operation at offset `at` of `input`. Returns it with the
    /// offset behind it.
    pub fn take(input: &[u8], at: usize) -> (r: Result<(Operation, usize), DecodeError>)
        ensures
            match parse_operation(tail_from(input@, at as int)) {
                Ok((op, rest)) => r matches Ok((o, next)) && o@ == op && at < next
                    <= input@.len() && rest == input@.skip(next as int),
                Err(e) => r matches Err(f) && f == e,
            },
    {
        if at >= input.len() {
            return Err(DecodeError::Truncated);
        }
        let tag = input[at];
        proof {
            let rest = input@.skip(at as int);
            assert(rest[0] == input@[at as int]);
            assert(rest.skip(1) =~= input@.skip(at + 1));
        }
        let body = at + 1;
        if tag == TAG_ADD_FIELD {
            match Field::take(input, body) {
                Ok((field, next)) => Ok((Operation::AddField(field), next)),
                Err(e) => Err(e),
            }
        } else if tag == TAG_REMOVE_FIELD {
            match take_number(input, body) {
                Ok((id, next)) => Ok((Operation::RemoveField(id), next)),
                Err(e) => Err(e),
            }
        } else if tag == TAG_UPDATE_FIELD {
            match Field::take(input, body) {
                Ok((field, next)) => Ok((Operation::UpdateField(field), next)),
                Err(e) => Err(e),
            }
        } else if tag == TAG_INSERT_ROW {
            match take_number(input, body) {
                Ok((id, next)) => Ok((Operation::InsertRow(id), next)),
                Err(e) => Err(e),
            }
        } else if tag == TAG_REMOVE_ROW {
            match take_number(input, body) {
                Ok((id, next)) => Ok((Operation::RemoveRow(id), next)),
                Err(e) => Err(e),
            }
        } else if tag == TAG_SET_CELL {
            match Cell::take(input, body) {
                Ok((cell, next)) => Ok((Operation::SetCell(cell), next)),
                Err(e) => Err(e),
            }
        } else {
            Err(DecodeError::UnknownOperation(tag))
        }
    }
}

/// An ordered sequence of operations, applied first to last.
#[derive(Debug, PartialEq, Eq)]
pub struct OperationSet {
    ops: Vec<Operation>,
}

impl View for OperationSet {
    type V = Seq<OperationView>;

    closed spec fn view(&self) -> Seq<OperationView> {
        operation_views(self.ops@)
    }
}

impl Clone for OperationSet {
    fn clone(&self) -> (r: Self)
        ensures
            r@ == self@,
    {
        let mut ops: Vec<Operation> = Vec::new();
        let mut i: usize = 0;
        while i < self.ops.len()
            invariant
                i <= self.ops@.len(),
                operation_views(ops@) == self@.take(i as int),
            decreases self.ops@.len() - i,
        {
            let ghost before = operation_views(ops@);
            let op = self.ops[i].clone();
            ops.push(op);
            i += 1;
            assert(operation_views(ops@) =~= before.push(op@));
            assert(before.push(op@) =~= self@.take(i as int));
        }
        assert(self@.take(i as int) =~= self@);
        OperationSet { ops }
    }
}

impl OperationSet {
    /// The set that changes nothing.
    pub fn new() -> (r: Self)
        ensures
            r@ == Seq::<OperationView>::empty(),
    {
        let r = OperationSet { ops: Vec::new() };
        assert(r@ =~= Seq::<OperationView>::empty());
        r
    }

    /// The number of operations.
    pub fn len(&self) -> (r: usize)
        ensures
            r == self@.len(),
    {
        self.ops.len()
    }

    /// The operations, in order.
    pub fn operations(&self) -> (r: &Vec<Operation>)
        ensures
            operation_views(r@) == self@,
    {
        &self.ops
    }

    /// The operation at position `index`, if there is one.
    pub fn get(&self, index: usize) -> (r: Option<&Operation>)
        ensures
            index < self@.len() ==> (r matches Some(op) && op@ == self@[index as int]),
            index >= self@.len() ==> r is None,
    {
        if index < self.ops.len() {
            Some(&self.ops[index])
        } else {
            None
        }
    }

    /// Adds `op` behind the operations that are there.
    pub fn push(&mut self, op: Operation)
        ensures
            final(self)@ == old(self)@.push(op@),
    {
        self.ops.push(op);
        assert(final(self)@ =~= old(self)@.push(op@));
    }

    /// The set that does what `self` does and then what `other` does.
    pub fn compose(&self, other: &OperationSet) -> (r: OperationSet)
        ensures
            r@ == self@ + other@,
    {
        let mut merged = self.clone();
        let mut i: usize = 0;
        while i < other.ops.len()
            invariant
                i <= other.ops@.len(),
                merged@ == self@ + other@.take(i as int),
            decreases other.ops@.len() - i,
        {
            merged.push(other.ops[i].clone());
            i += 1;
            assert(merged@ =~= self@ + other@.take(i as int));
        }
        assert(other@.take(i as int) =~= other@);
        merged
    }

    /// The byte form of the set.
    pub fn to_bytes(&self) -> (r: Vec<u8>)
        ensures
            r@ == operations_bytes(self@),
            all_fit(self@),
    {
        let mut out: Vec<u8> = Vec::new();
        let mut i: usize = 0;
        while i < self.ops.len()
            invariant
                i <= self.ops@.len(),
                out@ == operations_bytes(self@.take(i as int)),
                all_fit(self@.take(i as int)),
            decreases self.ops@.len() - i,
        {
            self.ops[i].put(&mut out);
            i += 1;
            proof {
                let done = self@.take(i as int);
                assert(done.drop_last() =~= self@.take(i - 1));
                assert(done.last() == self.ops@[i - 1]@);
                assert forall|k: int| 0 <= k < done.len() implies (#[trigger] done[k]).fits() by {
                    if k < i - 1 {
                        assert(done[k] == self@.take(i - 1)[k]);
                    }
                }
            }
        }
        assert(self@.take(i as int) =~= self@);
        out
    }

    /// Reads a set from its byte form. Every byte has to belong to an
    /// operation.
    pub fn from_bytes(bytes: &[u8]) -> (r: Result<OperationSet, DecodeError>)
        ensures
            match parse_operations(bytes@) {
                Ok(ops) => r matches Ok(set) && set@ == ops,
                Err(e) => r matches Err(f) && f == e,
            },
    {
        let mut ops: Vec<Operation> = Vec::new();
        let mut at: usize = 0;
        assert(bytes@.skip(0) =~= bytes@);
        assert(operation_views(ops@) + Seq::<OperationView>::empty() =~= Seq::empty());
        while at < bytes.len()
            invariant
                at <= bytes@.len(),
                match parse_operations(bytes@.skip(at as int)) {
                    Ok(rest) => parse_operations(bytes@) == Ok::<Seq<OperationView>, DecodeError>(
                        operation_views(ops@) + rest,
                    ),
                    Err(e) => parse_operations(bytes@) == Err::<Seq<OperationView>, DecodeError>(e),
                },
            decreases bytes@.len() - at,
        {
            let ghost before = operation_views(ops@);
            match Operation::take(bytes, at) {
                Ok((op, next)) => {
                    ops.push(op);
                    at = next;
                    proof {
                        assert(operation_views(ops@) =~= before.push(op@));
                        match parse_operations(bytes@.skip(at as int)) {
                            Ok(rest) => {
                                assert(before + (seq![op@] + rest) =~= before.push(op@) + rest);
                            },
                            Err(_) => {},
                        }
                    }
                },
                Err(e) => {
                    return Err(e);
                },
            }
        }
        assert(operation_views(ops@) + Seq::<OperationView>::empty() =~= operation_views(ops@));
        Ok(OperationSet { ops })
    }
}

/// Composing is associative, and the empty set is its neutral element.
pub proof fn lemma_compose_laws(a: Seq<OperationView>, b: Seq<OperationView>, c: Seq<OperationView>)
    ensures
        (a + b) + c == a + (b + c),
        Seq::<OperationView>::empty() + a == a,
        a + Seq::<OperationView>::empty() == a,
{
    assert((a + b) + c =~= a + (b + c));
    assert(Seq::<OperationView>::empty() + a =~= a);
    assert(a + Seq::<OperationView>::empty() =~= a);
}

} // verus!
