//! The domain types that orders and messages are built of.

use crate::codec_engine::wire::{find_byte, find_byte_from, lemma_find_byte};
use vstd::prelude::*;

pub use crate::decimal::Decimal;
use vstd::string::StringSliceAdditionalSpecFns;
use vstd::utf8::*;

verus! {

/// A price.
pub type Price = Decimal;

/// A quantity.
pub type Quantity = Decimal;

/// Identifier of an order.
pub type OrderID = u64;

/// A point in time, counted from the epoch.
pub type Timestamp = u64;

/// The width of a symbol in bytes.
pub const SYMBOL_WIDTH: usize = 16;

/// The first 16 bytes of `text`, padded with zero bytes to that width.
pub open spec fn padded_to_width(text: Seq<u8>) -> Seq<u8> {
    Seq::new(
        16,
        |i: int|
            if i < text.len() {
                text[i]
            } else {
                0u8
            },
    )
}

/// The bytes of `raw` before its first zero byte.
pub open spec fn symbol_name(raw: Seq<u8>) -> Seq<u8> {
    raw.subrange(0, find_byte(raw, 0, 0))
}

/// The bytes of the printable form of the symbol that holds `raw`: the name
/// where it is UTF-8, and nothing where it is not.
pub open spec fn symbol_text(raw: Seq<u8>) -> Seq<u8> {
    if valid_utf8(symbol_name(raw)) {
        symbol_name(raw)
    } else {
        Seq::empty()
    }
}

/// An instrument's identifier: 16 bytes, the name first and zero bytes after it.
#[derive(Debug, Clone, Copy, PartialEq, Eq, PartialOrd, Ord, Hash)]
pub struct Symbol(pub [u8; 16]);

impl Symbol {
    /// The bytes before the first zero byte.
    pub open spec fn name_bytes(&self) -> Seq<u8> {
        symbol_name(self.0@)
    }

    /// The bytes of the printable form: the name where it is UTF-8, and
    /// nothing where it is not.
    pub open spec fn text_bytes(&self) -> Seq<u8> {
        symbol_text(self.0@)
    }

    /// Makes a symbol of the UTF-8 bytes of `s`, cut after 16 bytes.
    pub fn new(s: &str) -> (sym: Symbol)
        ensures
            sym.0@ == padded_to_width(s.spec_bytes()),
    {
        let bytes = s.as_bytes();
        let mut arr: [u8; 16] = [0u8; 16];
        let mut i: usize = 0;
        while i < SYMBOL_WIDTH && i < bytes.len()
            invariant
                i <= 16,
                i <= bytes.len(),
                forall|j: int| 0 <= j < i ==> arr@[j] == bytes@[j],
                forall|j: int| i <= j < 16 ==> arr@[j] == 0u8,
            decreases 16 - i,
        {
            arr[i] = bytes[i];
            i = i + 1;
        }
        proof {
            assert(arr@ =~= padded_to_width(s.spec_bytes()));
        }
        Symbol(arr)
    }

    /// The printable form: the name up to the first zero byte, or the empty
    /// string where that name is not UTF-8.
    pub fn as_str(&self) -> (s: &str)
        ensures
            s.spec_bytes() == self.text_bytes(),
            s@ == decode_utf8(self.text_bytes()),
    {
        let end = find_byte_from(self.0.as_slice(), 0, 0);
        proof {
            lemma_find_byte(self.0@, 0, 0);
        }
        let name = vstd::slice::slice_subrange(self.0.as_slice(), 0, end);
        match std::str::from_utf8(name) {
            Ok(text) => {
                proof {
                    decode_utf8_encode_utf8(self.name_bytes());
                }
                text
            },
            Err(_) => {
                proof {
                    reveal_strlit("");
                    assert(""@ =~= Seq::<char>::empty());
                    assert(encode_utf8(Seq::<char>::empty()) =~= Seq::<u8>::empty());
                    assert(decode_utf8(Seq::<u8>::empty()) =~= Seq::<char>::empty());
                }
                ""
            },
        }
    }
}

/// The side of an order.
#[derive(Debug, Clone, Copy, PartialEq, Eq, PartialOrd, Ord, Hash)]
pub enum Side {
    Buy,
    Sell,
}

/// How an order is priced.
#[derive(Debug, Clone, Copy, PartialEq, Eq, PartialOrd, Ord, Hash)]
pub enum OrderType {
    Market,
    Limit,
}

/// Where an order stands in its life.
#[derive(Debug, Clone, Copy, PartialEq, Eq, PartialOrd, Ord, Hash)]
pub enum OrderStatus {
    New,
    PartiallyFilled,
    Filled,
    Cancelled,
    Rejected,
    PendingCancel,
    PendingReplace,
    Expired,
}

/// How long an order stays in force.
#[derive(Debug, Clone, Copy, PartialEq, Eq, PartialOrd, Ord, Hash)]
pub enum TimeInForce {
    Day,
    GTC,
    IOC,
    FOK,
    GTD,
}

/// An order as the system holds it.
#[derive(Debug, Clone, PartialEq)]
pub struct Order {
    pub id: OrderID,
    pub symbol: Symbol,
    pub side: Side,
    pub order_type: OrderType,
    pub quantity: Quantity,
    /// Absent on market orders.
    pub price: Option<Price>,
    pub status: OrderStatus,
    pub tif: TimeInForce,
    /// When the order was made or last changed.
    pub timestamp: Timestamp,
    /// The identifier that the client gave.
    pub client_order_id: String,
}

impl Order {
    /// A new order: it holds what is given, and its status is `New`.
    pub fn new(
        id: OrderID,
        symbol: Symbol,
        side: Side,
        order_type: OrderType,
        quantity: Quantity,
        price: Option<Price>,
        tif: TimeInForce,
        timestamp: Timestamp,
        client_order_id: String,
    ) -> (order: Order)
        ensures
            order == (Order {
                id,
                symbol,
                side,
                order_type,
                quantity,
                price,
                status: OrderStatus::New,
                tif,
                timestamp,
                client_order_id,
            }),
    {
        Order {
            id,
            symbol,
            side,
            order_type,
            quantity,
            price,
            status: OrderStatus::New,
            tif,
            timestamp,
            client_order_id,
        }
    }
}

} // verus!
