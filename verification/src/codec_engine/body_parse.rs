//! What the fields of a message mean: the header and each body as they are
//! read from a list of fields, with the error that each defect gives.

use super::body_fields::{ord_type_of, side_of, status_of, tif_of};
use super::error::CodecErrorView;
use super::field_map::{field_decimal, field_str, field_u32, field_u64, lookup, scan_outcome};
use super::framing::checksum_check;
use super::wire::{scan_fields, WireField};
use crate::common_types::{padded_to_width, OrderStatus, OrderType, Side, TimeInForce};
use crate::protocol_defs::fix_messages::{
    FixExecutionReportView, FixHeaderView, FixLogon, FixMessageBodyView, FixMessageView,
    FixNewOrderSingleView,
};
use vstd::prelude::*;
use vstd::utf8::*;

verus! {

/// A field that must be there: its absence is the error `MissingField`.
pub open spec fn required<T>(r: Result<Option<T>, CodecErrorView>, tag: u32) -> Result<
    T,
    CodecErrorView,
> {
    match r {
        Ok(Some(v)) => Ok(v),
        Ok(None) => Err(CodecErrorView::MissingField(tag)),
        Err(e) => Err(e),
    }
}

/// The single byte of the first field with the tag `tag`. A value of
/// another length is an `InvalidValue` with the text `length_error`.
pub open spec fn field_byte(fields: Seq<WireField>, tag: u32, length_error: Seq<char>) -> Result<
    Option<u8>,
    CodecErrorView,
> {
    match lookup(fields, tag) {
        None => Ok(None),
        Some(bytes) => if bytes.len() != 1 {
            Err(CodecErrorView::InvalidValue { tag, value: length_error })
        } else {
            Ok(Some(bytes[0]))
        },
    }
}

/// The error for a byte that stands for no value of its field: the text is
/// `prefix`, the byte as a character, and a closing quote.
pub open spec fn unknown_value(tag: u32, prefix: Seq<char>, byte: u8) -> CodecErrorView {
    CodecErrorView::InvalidValue { tag, value: prefix.push(byte as char).push('\'') }
}

/// The side in tag 54.
pub open spec fn side_field(fields: Seq<WireField>) -> Result<Side, CodecErrorView> {
    match required(field_byte(fields, 54, "Invalid side value length"@), 54) {
        Err(e) => Err(e),
        Ok(byte) => match side_of(byte) {
            Some(side) => Ok(side),
            None => Err(unknown_value(54, "Unknown side '"@, byte)),
        },
    }
}

/// The order type in tag 40.
pub open spec fn ord_type_field(fields: Seq<WireField>) -> Result<OrderType, CodecErrorView> {
    match required(field_byte(fields, 40, "Invalid order type value length"@), 40) {
        Err(e) => Err(e),
        Ok(byte) => match ord_type_of(byte) {
            Some(ord_type) => Ok(ord_type),
            None => Err(unknown_value(40, "Unknown order type '"@, byte)),
        },
    }
}

/// The order status in tag 39.
pub open spec fn status_field(fields: Seq<WireField>) -> Result<OrderStatus, CodecErrorView> {
    match required(field_byte(fields, 39, "Invalid order status value length"@), 39) {
        Err(e) => Err(e),
        Ok(byte) => match status_of(byte) {
            Some(status) => Ok(status),
            None => Err(unknown_value(39, "Unknown order status '"@, byte)),
        },
    }
}

/// The time in force in tag 59, where there is one.
pub open spec fn tif_field(fields: Seq<WireField>) -> Result<Option<TimeInForce>, CodecErrorView> {
    match field_byte(fields, 59, "Invalid TIF value length"@) {
        Err(e) => Err(e),
        Ok(None) => Ok(None),
        Ok(Some(byte)) => match tif_of(byte) {
            Some(tif) => Ok(Some(tif)),
            None => Err(unknown_value(59, "Unknown TIF '"@, byte)),
        },
    }
}

/// The flag in tag 141, where there is one: set exactly by the byte `Y`.
pub open spec fn reset_flag_field(fields: Seq<WireField>) -> Result<Option<bool>, CodecErrorView> {
    match field_byte(fields, 141, "Invalid flag value length"@) {
        Err(e) => Err(e),
        Ok(None) => Ok(None),
        Ok(Some(byte)) => Ok(Some(byte == 89)),
    }
}

/// The symbol in tag 55, as the 16 bytes that it holds.
pub open spec fn symbol_field(fields: Seq<WireField>) -> Result<Seq<u8>, CodecErrorView> {
    match required(field_str(fields, 55), 55) {
        Err(e) => Err(e),
        Ok(text) => Ok(padded_to_width(encode_utf8(text))),
    }
}

/// The Logon that `fields` hold. The fields are read in the order 98, 108,
/// 141, and the first defect decides the error.
pub open spec fn logon_of_fields(fields: Seq<WireField>) -> Result<FixLogon, CodecErrorView> {
    let encrypt_method = required(field_u32(fields, 98), 98);
    let heart_bt_int = required(field_u32(fields, 108), 108);
    let reset_seq_num_flag = reset_flag_field(fields);
    if encrypt_method is Err {
        Err(encrypt_method->Err_0)
    } else if heart_bt_int is Err {
        Err(heart_bt_int->Err_0)
    } else if reset_seq_num_flag is Err {
        Err(reset_seq_num_flag->Err_0)
    } else {
        Ok(
            FixLogon {
                encrypt_method: encrypt_method->Ok_0,
                heart_bt_int: heart_bt_int->Ok_0,
                reset_seq_num_flag: reset_seq_num_flag->Ok_0,
            },
        )
    }
}

/// The NewOrderSingle that `fields` hold. The fields are read in the order
/// 11, 55, 54, 60, 38, 40, 44, 59, and the first defect decides the error.
pub open spec fn new_order_single_of_fields(fields: Seq<WireField>) -> Result<
    FixNewOrderSingleView,
    CodecErrorView,
> {
    let cl_ord_id = required(field_str(fields, 11), 11);
    let symbol = symbol_field(fields);
    let side = side_field(fields);
    let transact_time = required(field_u64(fields, 60), 60);
    let order_qty = required(field_decimal(fields, 38), 38);
    let ord_type = ord_type_field(fields);
    let price = field_decimal(fields, 44);
    let tif = tif_field(fields);
    if cl_ord_id is Err {
        Err(cl_ord_id->Err_0)
    } else if symbol is Err {
        Err(symbol->Err_0)
    } else if side is Err {
        Err(side->Err_0)
    } else if transact_time is Err {
        Err(transact_time->Err_0)
    } else if order_qty is Err {
        Err(order_qty->Err_0)
    } else if ord_type is Err {
        Err(ord_type->Err_0)
    } else if price is Err {
        Err(price->Err_0)
    } else if tif is Err {
        Err(tif->Err_0)
    } else {
        Ok(
            FixNewOrderSingleView {
                cl_ord_id: cl_ord_id->Ok_0,
                symbol: symbol->Ok_0,
                side: side->Ok_0,
                transact_time: transact_time->Ok_0,
                order_qty: order_qty->Ok_0,
                ord_type: ord_type->Ok_0,
                price: price->Ok_0,
                tif: tif->Ok_0,
            },
        )
    }
}

/// The ExecutionReport that `fields` hold. The fields are read in the order
/// 37, 11, 17, 39, 55, 54, 151, 14, 6, 32, 31, 60, 58, and the first defect
/// decides the error.
pub open spec fn execution_report_of_fields(fields: Seq<WireField>) -> Result<
    FixExecutionReportView,
    CodecErrorView,
> {
    let order_id = required(field_u64(fields, 37), 37);
    let cl_ord_id = field_str(fields, 11);
    let exec_id = required(field_str(fields, 17), 17);
    let ord_status = status_field(fields);
    let symbol = symbol_field(fields);
    let side = side_field(fields);
    let leaves_qty = required(field_decimal(fields, 151), 151);
    let cum_qty = required(field_decimal(fields, 14), 14);
    let avg_px = required(field_decimal(fields, 6), 6);
    let last_qty = field_decimal(fields, 32);
    let last_px = field_decimal(fields, 31);
    let transact_time = required(field_u64(fields, 60), 60);
    let text = field_str(fields, 58);
    if order_id is Err {
        Err(order_id->Err_0)
    } else if cl_ord_id is Err {
        Err(cl_ord_id->Err_0)
    } else if exec_id is Err {
        Err(exec_id->Err_0)
    } else if ord_status is Err {
        Err(ord_status->Err_0)
    } else if symbol is Err {
        Err(symbol->Err_0)
    } else if side is Err {
        Err(side->Err_0)
    } else if leaves_qty is Err {
        Err(leaves_qty->Err_0)
    } else if cum_qty is Err {
        Err(cum_qty->Err_0)
    } else if avg_px is Err {
        Err(avg_px->Err_0)
    } else if last_qty is Err {
        Err(last_qty->Err_0)
    } else if last_px is Err {
        Err(last_px->Err_0)
    } else if transact_time is Err {
        Err(transact_time->Err_0)
    } else if text is Err {
        Err(text->Err_0)
    } else {
        Ok(
            FixExecutionReportView {
                order_id: order_id->Ok_0,
                cl_ord_id: cl_ord_id->Ok_0,
                exec_id: exec_id->Ok_0,
                ord_status: ord_status->Ok_0,
                symbol: symbol->Ok_0,
                side: side->Ok_0,
                leaves_qty: leaves_qty->Ok_0,
                cum_qty: cum_qty->Ok_0,
                avg_px: avg_px->Ok_0,
                last_qty: last_qty->Ok_0,
                last_px: last_px->Ok_0,
                transact_time: transact_time->Ok_0,
                text: text->Ok_0,
            },
        )
    }
}

/// The header that `fields` hold. The fields are read in the order 8, 9, 35,
/// 49, 56, 34, 52, and the first defect decides the error.
pub open spec fn header_of_fields(fields: Seq<WireField>) -> Result<FixHeaderView, CodecErrorView> {
    let begin_string = required(field_str(fields, 8), 8);
    let body_length = required(field_u32(fields, 9), 9);
    let msg_type = required(field_str(fields, 35), 35);
    let sender_comp_id = required(field_str(fields, 49), 49);
    let target_comp_id = required(field_str(fields, 56), 56);
    let msg_seq_num = required(field_u32(fields, 34), 34);
    let sending_time = required(field_u64(fields, 52), 52);
    if begin_string is Err {
        Err(begin_string->Err_0)
    } else if body_length is Err {
        Err(body_length->Err_0)
    } else if msg_type is Err {
        Err(msg_type->Err_0)
    } else if sender_comp_id is Err {
        Err(sender_comp_id->Err_0)
    } else if target_comp_id is Err {
        Err(target_comp_id->Err_0)
    } else if msg_seq_num is Err {
        Err(msg_seq_num->Err_0)
    } else if sending_time is Err {
        Err(sending_time->Err_0)
    } else {
        Ok(
            FixHeaderView {
                begin_string: begin_string->Ok_0,
                body_length: body_length->Ok_0,
                msg_type: msg_type->Ok_0,
                sender_comp_id: sender_comp_id->Ok_0,
                target_comp_id: target_comp_id->Ok_0,
                msg_seq_num: msg_seq_num->Ok_0,
                sending_time: sending_time->Ok_0,
            },
        )
    }
}

/// The body that `fields` hold, by the value of tag 35: `D` is a
/// NewOrderSingle, `A` a Logon, `8` an ExecutionReport, and any other value
/// is unsupported.
pub open spec fn body_of_fields(fields: Seq<WireField>) -> Result<
    FixMessageBodyView,
    CodecErrorView,
> {
    let msg_type = lookup(fields, 35);
    if msg_type == Some(seq![68u8]) {
        match new_order_single_of_fields(fields) {
            Ok(m) => Ok(FixMessageBodyView::NewOrderSingle(m)),
            Err(e) => Err(e),
        }
    } else if msg_type == Some(seq![65u8]) {
        match logon_of_fields(fields) {
            Ok(m) => Ok(FixMessageBodyView::Logon(m)),
            Err(e) => Err(e),
        }
    } else if msg_type == Some(seq![56u8]) {
        match execution_report_of_fields(fields) {
            Ok(m) => Ok(FixMessageBodyView::ExecutionReport(m)),
            Err(e) => Err(e),
        }
    } else {
        match field_str(fields, 35) {
            Ok(Some(text)) => Err(CodecErrorView::UnsupportedMessageType(text)),
            Ok(None) => Err(CodecErrorView::MissingField(35)),
            Err(e) => Err(e),
        }
    }
}

/// The message that `fields` hold: the header first, then the body.
pub open spec fn message_of_fields(fields: Seq<WireField>) -> Result<
    FixMessageView,
    CodecErrorView,
> {
    match header_of_fields(fields) {
        Err(e) => Err(e),
        Ok(header) => match body_of_fields(fields) {
            Err(e) => Err(e),
            Ok(body) => Ok(FixMessageView { header, body }),
        },
    }
}

/// What one frame decodes to. A frame of fewer than 7 or more than 4096
/// bytes is refused. Then the fields are scanned: a field without `=` or
/// without SOH makes the frame no message at all, any other defect of the
/// scan is an error. Then the checksum is checked, and last the header and
/// the body are read.
pub open spec fn message_of_frame(frame: Seq<u8>) -> Result<
    Option<FixMessageView>,
    CodecErrorView,
> {
    let scan = scan_fields(frame, 64);
    if frame.len() < 7 {
        Err(CodecErrorView::InvalidFormat("Message too short"@))
    } else if frame.len() > 4096 {
        Err(CodecErrorView::InvalidFormat("Message too large"@))
    } else if scan.end is MissingEquals || scan.end is MissingSoh {
        Ok(None)
    } else if scan_outcome(scan.end) is Err {
        Err(scan_outcome(scan.end)->Err_0)
    } else if checksum_check(frame) is Err {
        Err(checksum_check(frame)->Err_0)
    } else {
        match message_of_fields(scan.fields) {
            Ok(message) => Ok(Some(message)),
            Err(e) => Err(e),
        }
    }
}

} // verus!
