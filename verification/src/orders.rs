//! The order types of the `pricelevel` crate, as the verifier sees them.
//!
//! Orders, their sides and their price-level snapshots are declared with their
//! fields, so that contracts can speak of what an order holds. An order id is
//! declared without its contents: it is only carried and compared.

use pricelevel::{
    Hash32, OrderId, OrderType, PegReferenceType, PriceLevelSnapshot, Side, TimeInForce,
};
use vstd::prelude::*;

verus! {

/// `pricelevel::OrderId`, carried as an opaque value.
#[verifier::external_type_specification]
#[verifier::external_body]
pub struct ExOrderId(OrderId);

/// `pricelevel::Side`, with its two variants.
#[verifier::external_type_specification]
pub struct ExSide(Side);

/// `pricelevel::TimeInForce`, with its variants.
#[verifier::external_type_specification]
pub struct ExTimeInForce(TimeInForce);

/// `pricelevel::PegReferenceType`, with its variants.
#[verifier::external_type_specification]
pub struct ExPegReferenceType(PegReferenceType);

/// `pricelevel::Hash32`, a wrapper of 32 bytes.
#[verifier::external_type_specification]
pub struct ExHash32(Hash32);

/// `pricelevel::OrderType`, with its variants and their fields.
#[verifier::external_type_specification]
#[verifier::reject_recursive_types(T)]
pub struct ExOrderType<T>(OrderType<T>);

/// `pricelevel::PriceLevelSnapshot`, with its public fields.
#[verifier::external_type_specification]
pub struct ExPriceLevelSnapshot(PriceLevelSnapshot);

/// The id that an order carries, whatever its variant.
pub open spec fn order_id<T>(order: OrderType<T>) -> OrderId {
    match order {
        OrderType::Standard { id, .. } => id,
        OrderType::IcebergOrder { id, .. } => id,
        OrderType::PostOnly { id, .. } => id,
        OrderType::TrailingStop { id, .. } => id,
        OrderType::PeggedOrder { id, .. } => id,
        OrderType::MarketToLimit { id, .. } => id,
        OrderType::ReserveOrder { id, .. } => id,
    }
}

/// `OrderType::id` returns the `id` field of whichever variant the order is.
pub assume_specification<T: Clone>[ OrderType::<T>::id ](order: &OrderType<T>) -> (id: OrderId)
    ensures
        id == order_id(*order),
;

/// The side that an order is on, whatever its variant.
pub open spec fn order_side<T>(order: OrderType<T>) -> Side {
    match order {
        OrderType::Standard { side, .. } => side,
        OrderType::IcebergOrder { side, .. } => side,
        OrderType::PostOnly { side, .. } => side,
        OrderType::TrailingStop { side, .. } => side,
        OrderType::PeggedOrder { side, .. } => side,
        OrderType::MarketToLimit { side, .. } => side,
        OrderType::ReserveOrder { side, .. } => side,
    }
}

/// The price of an order, whatever its variant.
pub open spec fn order_price<T>(order: OrderType<T>) -> u128 {
    match order {
        OrderType::Standard { price, .. } => price,
        OrderType::IcebergOrder { price, .. } => price,
        OrderType::PostOnly { price, .. } => price,
        OrderType::TrailingStop { price, .. } => price,
        OrderType::PeggedOrder { price, .. } => price,
        OrderType::MarketToLimit { price, .. } => price,
        OrderType::ReserveOrder { price, .. } => price,
    }
}

/// The quantity of an order that the book shows: the visible part of an
/// iceberg or reserve order, the whole quantity of any other.
pub open spec fn order_visible_quantity<T>(order: OrderType<T>) -> u64 {
    match order {
        OrderType::Standard { quantity, .. } => quantity,
        OrderType::IcebergOrder { visible_quantity, .. } => visible_quantity,
        OrderType::PostOnly { quantity, .. } => quantity,
        OrderType::TrailingStop { quantity, .. } => quantity,
        OrderType::PeggedOrder { quantity, .. } => quantity,
        OrderType::MarketToLimit { quantity, .. } => quantity,
        OrderType::ReserveOrder { visible_quantity, .. } => visible_quantity,
    }
}

/// The quantity of an order that the book hides: the hidden part of an
/// iceberg or reserve order, 0 for any other.
pub open spec fn order_hidden_quantity<T>(order: OrderType<T>) -> u64 {
    match order {
        OrderType::IcebergOrder { hidden_quantity, .. } => hidden_quantity,
        OrderType::ReserveOrder { hidden_quantity, .. } => hidden_quantity,
        _ => 0,
    }
}

/// `OrderType::side` returns the `side` field of whichever variant the order
/// is.
pub assume_specification<T: Clone>[ OrderType::<T>::side ](order: &OrderType<T>) -> (side: Side)
    ensures
        side == order_side(*order),
;

/// `OrderType::price` returns the `price` field of whichever variant the
/// order is.
pub assume_specification<T: Clone>[ OrderType::<T>::price ](order: &OrderType<T>) -> (price: u128)
    ensures
        price == order_price(*order),
;

/// `OrderType::visible_quantity` returns `visible_quantity` of an iceberg or
/// reserve order and `quantity` of any other.
pub assume_specification<T: Clone>[ OrderType::<T>::visible_quantity ](order: &OrderType<T>) -> (quantity:
    u64)
    ensures
        quantity == order_visible_quantity(*order),
;

/// `OrderType::hidden_quantity` returns `hidden_quantity` of an iceberg or
/// reserve order and 0 for any other.
pub assume_specification<T: Clone>[ OrderType::<T>::hidden_quantity ](order: &OrderType<T>) -> (quantity:
    u64)
    ensures
        quantity == order_hidden_quantity(*order),
;

/// The derived `==` of `OrderId` holds of two ids exactly when they are the
/// same id.
pub assume_specification[ <OrderId as PartialEq>::eq ](a: &OrderId, b: &OrderId) -> (same: bool)
    ensures
        same == (*a == *b),
;

/// The payload that an order carries, whatever its variant.
pub open spec fn order_payload<T>(order: OrderType<T>) -> T {
    match order {
        OrderType::Standard { extra_fields, .. } => extra_fields,
        OrderType::IcebergOrder { extra_fields, .. } => extra_fields,
        OrderType::PostOnly { extra_fields, .. } => extra_fields,
        OrderType::TrailingStop { extra_fields, .. } => extra_fields,
        OrderType::PeggedOrder { extra_fields, .. } => extra_fields,
        OrderType::MarketToLimit { extra_fields, .. } => extra_fields,
        OrderType::ReserveOrder { extra_fields, .. } => extra_fields,
    }
}

/// The order with `payload` in place of its own payload and every other field
/// as it is.
pub open spec fn with_payload<T>(order: OrderType<T>, payload: T) -> OrderType<T> {
    match order {
        OrderType::Standard {
            id,
            price,
            quantity,
            side,
            user_id,
            timestamp,
            time_in_force,
            ..
        } => OrderType::Standard {
            id,
            price,
            quantity,
            side,
            user_id,
            timestamp,
            time_in_force,
            extra_fields: payload,
        },
        OrderType::IcebergOrder {
            id,
            price,
            visible_quantity,
            hidden_quantity,
            side,
            user_id,
            timestamp,
            time_in_force,
            ..
        } => OrderType::IcebergOrder {
            id,
            price,
            visible_quantity,
            hidden_quantity,
            side,
            user_id,
            timestamp,
            time_in_force,
            extra_fields: payload,
        },
        OrderType::PostOnly {
            id,
            price,
            quantity,
            side,
            user_id,
            timestamp,
            time_in_force,
            ..
        } => OrderType::PostOnly {
            id,
            price,
            quantity,
            side,
            user_id,
            timestamp,
            time_in_force,
            extra_fields: payload,
        },
        OrderType::TrailingStop {
            id,
            price,
            quantity,
            side,
            user_id,
            timestamp,
            time_in_force,
            trail_amount,
            last_reference_price,
            ..
        } => OrderType::TrailingStop {
            id,
            price,
            quantity,
            side,
            user_id,
            timestamp,
            time_in_force,
            trail_amount,
            last_reference_price,
            extra_fields: payload,
        },
        OrderType::PeggedOrder {
            id,
            price,
            quantity,
            side,
            user_id,
            timestamp,
            time_in_force,
            reference_price_offset,
            reference_price_type,
            ..
        } => OrderType::PeggedOrder {
            id,
            price,
            quantity,
            side,
            user_id,
            timestamp,
            time_in_force,
            reference_price_offset,
            reference_price_type,
            extra_fields: payload,
        },
        OrderType::MarketToLimit {
            id,
            price,
            quantity,
            side,
            user_id,
            timestamp,
            time_in_force,
            ..
        } => OrderType::MarketToLimit {
            id,
            price,
            quantity,
            side,
            user_id,
            timestamp,
            time_in_force,
            extra_fields: payload,
        },
        OrderType::ReserveOrder {
            id,
            price,
            visible_quantity,
            hidden_quantity,
            side,
            user_id,
            timestamp,
            time_in_force,
            replenish_threshold,
            replenish_amount,
            auto_replenish,
            ..
        } => OrderType::ReserveOrder {
            id,
            price,
            visible_quantity,
            hidden_quantity,
            side,
            user_id,
            timestamp,
            time_in_force,
            replenish_threshold,
            replenish_amount,
            auto_replenish,
            extra_fields: payload,
        },
    }
}

/// The derived `Clone` of `OrderId` copies the id.
pub assume_specification[ <OrderId as Clone>::clone ](id: &OrderId) -> (copy: OrderId)
    ensures
        copy == *id,
;

/// The derived `Clone` of `OrderType` clones the payload and copies every
/// other field.
pub assume_specification<T: Clone>[ <OrderType<T> as Clone>::clone ](order: &OrderType<T>) -> (copy:
    OrderType<T>)
    ensures
        cloned(order_payload(*order), order_payload(copy)),
        copy == with_payload(*order, order_payload(copy)),
;

} // verus!
