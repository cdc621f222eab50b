//! What can cross the wire: the values that can be framed, sent and found
//! again unchanged, and the checks that tell so before a message is sent.

use super::wire_lemmas::{field_safe, is_field_safe};
use crate::common_types::{padded_to_width, symbol_text, Symbol};
use crate::decimal::{Decimal, DecimalView};
use crate::protocol_defs::fix_messages::{
    optional_decimal, optional_text, FixExecutionReport, FixExecutionReportView,
    FixNewOrderSingle, FixNewOrderSingleView,
};
use vstd::prelude::*;
use vstd::utf8::*;

verus! {

/// Whether a decimal can cross the wire: its text holds neither SOH nor
/// `10=`, and reads back as the same number.
pub open spec fn decimal_wire_safe(d: DecimalView) -> bool {
    field_safe(encode_utf8(d.text())) && d.reads_back()
}

/// Whether a symbol can cross the wire: its 16 bytes are its printable form
/// padded with zero bytes, and that form holds neither SOH nor `10=`.
pub open spec fn symbol_wire_safe(raw: Seq<u8>) -> bool {
    padded_to_width(symbol_text(raw)) == raw && field_safe(symbol_text(raw))
}

/// Whether a NewOrderSingle can cross the wire: its identifier, its symbol
/// and its numbers can.
pub open spec fn order_wire_safe(m: FixNewOrderSingleView) -> bool {
    &&& field_safe(encode_utf8(m.cl_ord_id))
    &&& symbol_wire_safe(m.symbol)
    &&& decimal_wire_safe(m.order_qty)
    &&& (m.price matches Some(price) ==> decimal_wire_safe(price))
}

/// Whether an ExecutionReport can cross the wire: its texts, its symbol
/// and its numbers can.
pub open spec fn report_wire_safe(m: FixExecutionReportView) -> bool {
    &&& (m.cl_ord_id matches Some(id) ==> field_safe(encode_utf8(id)))
    &&& field_safe(encode_utf8(m.exec_id))
    &&& symbol_wire_safe(m.symbol)
    &&& decimal_wire_safe(m.leaves_qty)
    &&& decimal_wire_safe(m.cum_qty)
    &&& decimal_wire_safe(m.avg_px)
    &&& (m.last_qty matches Some(qty) ==> decimal_wire_safe(qty))
    &&& (m.last_px matches Some(px) ==> decimal_wire_safe(px))
    &&& (m.text matches Some(text) ==> field_safe(encode_utf8(text)))
}

/// Tells whether `d` can cross the wire, by writing it and reading it back.
pub fn decimal_is_wire_safe(d: &Decimal) -> (safe: bool)
    ensures
        safe == decimal_wire_safe(d@),
{
    let text = d.to_text();
    let clean = is_field_safe(text.as_str().as_bytes());
    let same = match Decimal::parse(text.as_str()) {
        Some(back) => back.mantissa() == d.mantissa() && back.scale() == d.scale(),
        None => false,
    };
    clean && same
}

/// Tells whether an optional decimal is absent or can cross the wire.
pub fn optional_decimal_is_wire_safe(d: &Option<Decimal>) -> (safe: bool)
    ensures
        safe == (optional_decimal(*d) matches Some(number) ==> decimal_wire_safe(number)),
{
    match d {
        Some(number) => decimal_is_wire_safe(number),
        None => true,
    }
}

/// Tells whether an optional text is absent or safe as a field value.
pub fn optional_text_is_field_safe(text: &Option<String>) -> (safe: bool)
    ensures
        safe == (optional_text(*text) matches Some(t) ==> field_safe(encode_utf8(t))),
{
    match text {
        Some(t) => is_field_safe(t.as_str().as_bytes()),
        None => true,
    }
}

/// Tells whether `symbol` can cross the wire.
pub fn symbol_is_wire_safe(symbol: &Symbol) -> (safe: bool)
    ensures
        safe == symbol_wire_safe(symbol.0@),
{
    let text = symbol.as_str();
    let clean = is_field_safe(text.as_bytes());
    let back = Symbol::new(text);
    let mut same = true;
    let mut i: usize = 0;
    while i < 16
        invariant
            i <= 16,
            same == (forall|j: int| 0 <= j < i ==> back.0@[j] == symbol.0@[j]),
        decreases 16 - i,
    {
        if back.0[i] != symbol.0[i] {
            same = false;
        }
        i = i + 1;
    }
    proof {
        assert(same == (back.0@ =~= symbol.0@));
    }
    clean && same
}

/// Tells whether `order` can cross the wire.
pub fn order_is_wire_safe(order: &FixNewOrderSingle) -> (safe: bool)
    ensures
        safe == order_wire_safe(order@),
{
    is_field_safe(order.cl_ord_id.as_str().as_bytes()) && symbol_is_wire_safe(&order.symbol)
        && decimal_is_wire_safe(&order.order_qty) && optional_decimal_is_wire_safe(&order.price)
}

/// Tells whether `report` can cross the wire.
pub fn report_is_wire_safe(report: &FixExecutionReport) -> (safe: bool)
    ensures
        safe == report_wire_safe(report@),
{
    optional_text_is_field_safe(&report.cl_ord_id) && is_field_safe(
        report.exec_id.as_str().as_bytes(),
    ) && symbol_is_wire_safe(&report.symbol) && decimal_is_wire_safe(&report.leaves_qty)
        && decimal_is_wire_safe(&report.cum_qty) && decimal_is_wire_safe(&report.avg_px)
        && optional_decimal_is_wire_safe(&report.last_qty) && optional_decimal_is_wire_safe(
        &report.last_px,
    ) && optional_text_is_field_safe(&report.text)
}

} // verus!
