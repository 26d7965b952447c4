use flowy_revision::error::{ApplyError, DecodeError};
use flowy_revision::field::{Cell, Field, FieldKind};
use flowy_revision::operation::{Operation, OperationSet};
use flowy_revision::wire::{put_number, put_text, take_number, take_text};

fn field(id: u64, name: &str, kind: FieldKind) -> Field {
    Field { id, name: name.to_string(), kind }
}

fn cell(row_id: u64, field_id: u64, value: &str) -> Cell {
    Cell { row_id, field_id, value: value.to_string() }
}

fn every_kind_of_operation() -> OperationSet {
    let mut ops = OperationSet::new();
    ops.push(Operation::AddField(field(1, "Name", FieldKind::Text)));
    ops.push(Operation::AddField(field(2, "Ärger ✓", FieldKind::Checkbox)));
    ops.push(Operation::InsertRow(10));
    ops.push(Operation::InsertRow(u64::MAX));
    ops.push(Operation::SetCell(cell(10, 1, "hello")));
    ops.push(Operation::UpdateField(field(2, "", FieldKind::Date)));
    ops.push(Operation::RemoveRow(u64::MAX));
    ops.push(Operation::RemoveField(1));
    ops
}

#[test]
fn number_is_eight_bytes_least_significant_first() {
    let mut out = vec![0xaa];
    put_number(&mut out, 0x0102030405060708);
    assert_eq!(out, vec![0xaa, 8, 7, 6, 5, 4, 3, 2, 1]);
}

#[test]
fn number_is_read_at_an_offset() {
    let bytes = vec![9, 9, 1, 0, 0, 0, 0, 0, 0, 0, 7];
    assert_eq!(take_number(&bytes, 2), Ok((1, 10)));
    assert_eq!(take_number(&bytes, 0), Ok((0x0000_0000_0001_0909, 8)));
}

#[test]
fn number_needs_eight_bytes() {
    let bytes = vec![1, 2, 3, 4, 5, 6, 7];
    assert_eq!(take_number(&bytes, 0), Err(DecodeError::Truncated));
    assert_eq!(take_number(&bytes, 7), Err(DecodeError::Truncated));
}

#[test]
fn text_is_length_then_utf8() {
    let mut out = Vec::new();
    put_text(&mut out, &"é1".to_string());
    assert_eq!(out, vec![3, 0, 0, 0, 0, 0, 0, 0, 0xc3, 0xa9, b'1']);
}

#[test]
fn empty_text_is_a_zero_length() {
    let mut out = Vec::new();
    put_text(&mut out, &String::new());
    assert_eq!(out, vec![0; 8]);
    assert_eq!(take_text(&out, 0), Ok((String::new(), 8)));
}

#[test]
fn text_is_read_back_and_reading_stops_behind_it() {
    let mut out = vec![1, 2];
    put_text(&mut out, &"grid ✓".to_string());
    out.push(0xff);
    let end = out.len() - 1;
    assert_eq!(take_text(&out, 2), Ok(("grid ✓".to_string(), end)));
}

#[test]
fn text_shorter_than_its_length_is_truncated() {
    let bytes = vec![3, 0, 0, 0, 0, 0, 0, 0, b'a', b'b'];
    assert_eq!(take_text(&bytes, 0), Err(DecodeError::Truncated));
}

#[test]
fn text_with_a_huge_length_is_truncated() {
    let bytes = vec![0xff, 0xff, 0xff, 0xff, 0xff, 0xff, 0xff, 0xff, b'a'];
    assert_eq!(take_text(&bytes, 0), Err(DecodeError::Truncated));
}

#[test]
fn text_that_is_not_utf8_is_invalid() {
    let bytes = vec![2, 0, 0, 0, 0, 0, 0, 0, 0xc3, 0x28];
    assert_eq!(take_text(&bytes, 0), Err(DecodeError::InvalidText));
}

#[test]
fn add_field_bytes_are_tag_id_kind_name() {
    let mut ops = OperationSet::new();
    ops.push(Operation::AddField(field(1, "F1", FieldKind::Number)));
    assert_eq!(
        ops.to_bytes(),
        vec![0, 1, 0, 0, 0, 0, 0, 0, 0, 1, 2, 0, 0, 0, 0, 0, 0, 0, b'F', b'1']
    );
}

#[test]
fn set_cell_bytes_are_tag_row_field_value() {
    let mut ops = OperationSet::new();
    ops.push(Operation::SetCell(cell(2, 3, "x")));
    assert_eq!(
        ops.to_bytes(),
        vec![
            5, 2, 0, 0, 0, 0, 0, 0, 0, 3, 0, 0, 0, 0, 0, 0, 0, 1, 0, 0, 0, 0, 0, 0, 0, b'x'
        ]
    );
}

#[test]
fn id_only_operations_are_tag_and_id() {
    let mut ops = OperationSet::new();
    ops.push(Operation::RemoveField(7));
    ops.push(Operation::InsertRow(8));
    ops.push(Operation::RemoveRow(9));
    assert_eq!(
        ops.to_bytes(),
        vec![
            1, 7, 0, 0, 0, 0, 0, 0, 0, 3, 8, 0, 0, 0, 0, 0, 0, 0, 4, 9, 0, 0, 0, 0, 0, 0, 0
        ]
    );
}

#[test]
fn update_field_has_its_own_tag() {
    let mut ops = OperationSet::new();
    ops.push(Operation::UpdateField(field(1, "", FieldKind::Checkbox)));
    assert_eq!(ops.to_bytes(), vec![2, 1, 0, 0, 0, 0, 0, 0, 0, 3, 0, 0, 0, 0, 0, 0, 0, 0]);
}

#[test]
fn the_empty_set_is_no_bytes() {
    assert_eq!(OperationSet::new().to_bytes(), Vec::<u8>::new());
    assert_eq!(OperationSet::from_bytes(&[]), Ok(OperationSet::new()));
}

#[test]
fn operation_sets_survive_encoding() {
    let ops = every_kind_of_operation();
    assert_eq!(OperationSet::from_bytes(&ops.to_bytes()), Ok(ops));
}

#[test]
fn every_field_kind_survives_encoding() {
    for kind in [FieldKind::Text, FieldKind::Number, FieldKind::Date, FieldKind::Checkbox] {
        let mut ops = OperationSet::new();
        ops.push(Operation::AddField(field(5, "k", kind)));
        assert_eq!(OperationSet::from_bytes(&ops.to_bytes()), Ok(ops));
    }
}

#[test]
fn field_kind_codes() {
    assert_eq!(FieldKind::Text.code(), 0);
    assert_eq!(FieldKind::Number.code(), 1);
    assert_eq!(FieldKind::Date.code(), 2);
    assert_eq!(FieldKind::Checkbox.code(), 3);
    assert_eq!(FieldKind::from_code(2), Some(FieldKind::Date));
    assert_eq!(FieldKind::from_code(4), None);
    assert_eq!(FieldKind::Checkbox.label(), "checkbox");
}

#[test]
fn unknown_tag_is_rejected() {
    assert_eq!(OperationSet::from_bytes(&[6]), Err(DecodeError::UnknownOperation(6)));
    assert_eq!(OperationSet::from_bytes(&[0xff, 0, 0]), Err(DecodeError::UnknownOperation(0xff)));
}

#[test]
fn unknown_field_kind_is_rejected() {
    let bytes = vec![0, 1, 0, 0, 0, 0, 0, 0, 0, 9, 0, 0, 0, 0, 0, 0, 0, 0];
    assert_eq!(OperationSet::from_bytes(&bytes), Err(DecodeError::UnknownFieldKind(9)));
}

#[test]
fn bytes_that_end_inside_an_operation_are_truncated() {
    let mut ops = OperationSet::new();
    ops.push(Operation::AddField(field(1, "F1", FieldKind::Text)));
    let bytes = ops.to_bytes();
    for cut in 1..bytes.len() {
        assert_eq!(OperationSet::from_bytes(&bytes[..cut]), Err(DecodeError::Truncated));
    }
}

#[test]
fn bytes_behind_the_last_operation_are_an_operation_too() {
    let mut ops = OperationSet::new();
    ops.push(Operation::InsertRow(1));
    let mut bytes = ops.to_bytes();
    bytes.push(9);
    assert_eq!(OperationSet::from_bytes(&bytes), Err(DecodeError::UnknownOperation(9)));
}

#[test]
fn invalid_name_is_rejected() {
    let bytes = vec![0, 1, 0, 0, 0, 0, 0, 0, 0, 0, 1, 0, 0, 0, 0, 0, 0, 0, 0x80];
    assert_eq!(OperationSet::from_bytes(&bytes), Err(DecodeError::InvalidText));
}

#[test]
fn the_first_error_wins() {
    // A good operation, then an unknown tag, then a truncated operation.
    let mut ops = OperationSet::new();
    ops.push(Operation::InsertRow(1));
    let mut bytes = ops.to_bytes();
    bytes.extend_from_slice(&[77, 0, 1]);
    assert_eq!(OperationSet::from_bytes(&bytes), Err(DecodeError::UnknownOperation(77)));
}

#[test]
fn compose_joins_in_order() {
    let mut first = OperationSet::new();
    first.push(Operation::InsertRow(1));
    let mut second = OperationSet::new();
    second.push(Operation::InsertRow(2));
    second.push(Operation::RemoveRow(1));
    let joined = first.compose(&second);
    assert_eq!(joined.len(), 3);
    assert_eq!(joined.get(0), Some(&Operation::InsertRow(1)));
    assert_eq!(joined.get(1), Some(&Operation::InsertRow(2)));
    assert_eq!(joined.get(2), Some(&Operation::RemoveRow(1)));
    assert_eq!(joined.get(3), None);
    assert_eq!(first.len(), 1);
}

#[test]
fn compose_is_associative() {
    let mut a = OperationSet::new();
    a.push(Operation::InsertRow(1));
    let mut b = OperationSet::new();
    b.push(Operation::AddField(field(1, "n", FieldKind::Text)));
    let mut c = OperationSet::new();
    c.push(Operation::SetCell(cell(1, 1, "v")));
    assert_eq!(a.compose(&b).compose(&c), a.compose(&b.compose(&c)));
}

#[test]
fn composing_with_the_empty_set_changes_nothing() {
    let ops = every_kind_of_operation();
    assert_eq!(OperationSet::new().compose(&ops), ops);
    assert_eq!(ops.compose(&OperationSet::new()), ops);
}

#[test]
fn composed_bytes_are_the_bytes_joined() {
    let mut a = OperationSet::new();
    a.push(Operation::InsertRow(1));
    let b = every_kind_of_operation();
    let mut bytes = a.to_bytes();
    bytes.extend_from_slice(&b.to_bytes());
    assert_eq!(a.compose(&b).to_bytes(), bytes);
}

#[test]
fn clone_of_a_set_is_equal() {
    let ops = every_kind_of_operation();
    assert_eq!(ops.clone(), ops);
    assert_eq!(ops.operations().len(), 8);
}

#[test]
fn invalid_document_error_carries_the_reason() {
    assert_ne!(
        DecodeError::Invalid(ApplyError::UnknownField(1)),
        DecodeError::Invalid(ApplyError::UnknownRow(1))
    );
}
