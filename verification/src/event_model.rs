//! The events that flow through the system: market data, the life of
//! orders, and the state of sessions.

use crate::common_types::{Order, OrderID, Price, Quantity, Symbol, Timestamp};
use vstd::prelude::*;

verus! {

/// An event of the market.
#[derive(Debug, Clone, PartialEq)]
pub enum MarketEvent {
    /// A trade was done.
    Trade { symbol: Symbol, price: Price, quantity: Quantity, timestamp: Timestamp },
    /// The best bid or the best ask changed.
    TopOfBookUpdate {
        symbol: Symbol,
        bid_price: Option<Price>,
        bid_quantity: Option<Quantity>,
        ask_price: Option<Price>,
        ask_quantity: Option<Quantity>,
        timestamp: Timestamp,
    },
    /// The book changed in depth: price and quantity of each level.
    DepthUpdate {
        symbol: Symbol,
        bids: Vec<(Price, Quantity)>,
        asks: Vec<(Price, Quantity)>,
        timestamp: Timestamp,
        /// Whether the levels are the whole book, or a change to it.
        is_snapshot: bool,
    },
}

/// An event in the life of an order.
#[allow(inconsistent_fields)]
#[derive(Debug, Clone, PartialEq)]
pub enum OrderEvent {
    OrderAccepted {
        order_id: OrderID,
        client_order_id: String,
        symbol: Symbol,
        timestamp: Timestamp,
    },
    OrderRejected {
        client_order_id: Option<String>,
        order_id: Option<OrderID>,
        symbol: Symbol,
        reason: String,
        timestamp: Timestamp,
    },
    OrderCancelled { order_id: OrderID, timestamp: Timestamp },
    CancelRejected { order_id: OrderID, reason: String, timestamp: Timestamp },
    OrderReplaced {
        original_order_id: OrderID,
        new_order_id: OrderID,
        new_order_details: Box<Order>,
        timestamp: Timestamp,
    },
    ReplaceRejected { order_id: OrderID, reason: String, timestamp: Timestamp },
    OrderExpired { order_id: OrderID, timestamp: Timestamp },
    OrderPartiallyFilled {
        order_id: OrderID,
        fill_price: Price,
        fill_quantity: Quantity,
        leaves_quantity: Quantity,
        trade_id: String,
        timestamp: Timestamp,
    },
    OrderFilled {
        order_id: OrderID,
        fill_price: Price,
        fill_quantity: Quantity,
        trade_id: Option<String>,
        timestamp: Timestamp,
    },
}

/// An event of a session or of the system itself.
#[derive(Debug, Clone, PartialEq)]
pub enum SystemEvent {
    Connected { session_id: String, timestamp: Timestamp },
    Disconnected { session_id: String, reason: Option<String>, timestamp: Timestamp },
    Heartbeat { session_id: String, timestamp: Timestamp },
    Error { message: String, details: Option<String>, timestamp: Timestamp },
}

/// Any event, for a bus that carries them all.
#[derive(Debug, Clone, PartialEq)]
pub enum AppEvent {
    Market(MarketEvent),
    Order(OrderEvent),
    System(SystemEvent),
}

} // verus!
