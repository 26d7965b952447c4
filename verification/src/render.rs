//! The rendering of a document as text, for diagnostics.
//!
//! ```text
//! fields: 2
//! 1 Name (text)
//! 2 Done (checkbox)
//! rows: 3
//! cells: 4
//! ```
//!
//! The fields stand in the order in which they were added.

use crate::field::{Field, FieldView};
use crate::pad_view::PadView;
use vstd::prelude::*;
use vstd::string::*;

verus! {

/// The character that stands for the digit `d`.
pub open spec fn digit(d: int) -> char {
    if d == 0 {
        '0'
    } else if d == 1 {
        '1'
    } else if d == 2 {
        '2'
    } else if d == 3 {
        '3'
    } else if d == 4 {
        '4'
    } else if d == 5 {
        '5'
    } else if d == 6 {
        '6'
    } else if d == 7 {
        '7'
    } else if d == 8 {
        '8'
    } else {
        '9'
    }
}

/// The decimal digits of `n`, without leading zeros.
pub open spec fn decimal(n: nat) -> Seq<char>
    decreases n,
{
    if n < 10 {
        seq![digit(n as int)]
    } else {
        decimal(n / 10).push(digit((n % 10) as int))
    }
}

/// The line that stands for one field: id, name, and the kind in brackets.
pub open spec fn field_line(field: FieldView) -> Seq<char> {
    decimal(field.id as nat) + " "@ + field.name + " ("@ + field.kind.spec_label() + ")\n"@
}

/// The lines of the fields, in order.
pub open spec fn field_lines(fields: Seq<FieldView>) -> Seq<char>
    decreases fields.len(),
{
    if fields.len() == 0 {
        Seq::empty()
    } else {
        field_lines(fields.drop_last()) + field_line(fields.last())
    }
}

/// The rendering of a document: the number of fields, one line per field,
/// the number of rows, the number of cells.
pub open spec fn display(pad: PadView) -> Seq<char> {
    "fields: "@ + decimal(pad.fields.len()) + "\n"@ + field_lines(pad.fields) + "rows: "@
        + decimal(pad.rows.len()) + "\n"@ + "cells: "@ + decimal(pad.cells.len()) + "\n"@
}

fn digit_text(d: u64) -> (r: &'static str)
    requires
        d < 10,
    ensures
        r@ == seq![digit(d as int)],
{
    proof {
        reveal_strlit("0");
        reveal_strlit("1");
        reveal_strlit("2");
        reveal_strlit("3");
        reveal_strlit("4");
        reveal_strlit("5");
        reveal_strlit("6");
        reveal_strlit("7");
        reveal_strlit("8");
        reveal_strlit("9");
    }
    let r = if d == 0 {
        "0"
    } else if d == 1 {
        "1"
    } else if d == 2 {
        "2"
    } else if d == 3 {
        "3"
    } else if d == 4 {
        "4"
    } else if d == 5 {
        "5"
    } else if d == 6 {
        "6"
    } else if d == 7 {
        "7"
    } else if d == 8 {
        "8"
    } else {
        "9"
    };
    assert(r@ =~= seq![digit(d as int)]);
    r
}

/// Appends the decimal digits of `n` to `out`.
pub fn push_decimal(out: &mut String, n: u64)
    ensures
        final(out)@ == old(out)@ + decimal(n as nat),
    decreases n,
{
    if n >= 10 {
        push_decimal(out, n / 10);
    }
    out.append(digit_text(n % 10));
    assert(final(out)@ =~= old(out)@ + decimal(n as nat));
}

/// Appends the line of `field` to `out`.
pub fn push_field_line(out: &mut String, field: &Field)
    ensures
        final(out)@ == old(out)@ + field_line(field@),
{
    push_decimal(out, field.id);
    out.append(" ");
    out.append(field.name.as_str());
    out.append(" (");
    out.append(field.kind.label());
    out.append(")\n");
    assert(final(out)@ =~= old(out)@ + field_line(field@));
}

} // verus!
