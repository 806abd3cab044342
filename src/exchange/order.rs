use vstd::prelude::*;

verus! {

/// An account or token contract on the ledger, by the number under which
/// the host's address is registered.
pub type Address = u64;

/// The side of an order.
#[derive(Debug, Clone, Copy, PartialEq, Eq, Structural)]
pub enum OrderSide {
    BUY,
    SELL,
}

/// How an incoming order treats the price it carries.
#[derive(Debug, Clone, Copy, PartialEq, Eq, Structural)]
pub enum OrderType {
    Limit,
    Market,
}

/// An order resting in the book. Only `quantity` changes after placement.
#[derive(Debug, Clone, Copy, PartialEq, Eq, Structural)]
pub struct Order {
    pub order_id: u64,
    pub account: Address,
    pub quantity: u128,
    pub price: u128,
    pub fee_amount: u128,
    pub fee_token_asset: Address,
}

/// An order as a client submits it.
#[derive(Debug, Clone, Copy, PartialEq, Eq, Structural)]
pub struct NewOrder {
    pub quantity: u128,
    pub price: u128,
    pub fee_amount: u128,
    pub fee_token_asset: Address,
}

/// A submitted order together with the account that placed it.
#[derive(Debug, Clone, Copy, PartialEq, Eq, Structural)]
pub struct NewAccountOrder {
    pub quantity: u128,
    pub price: u128,
    pub fee_amount: u128,
    pub fee_token_asset: Address,
    pub account: Address,
}

/// Completes an intake shape with the one field it lacks.
pub trait AddField<F, T>: Sized {
    spec fn spec_into_order(self, field: F) -> T;

    fn into_order(self, field: F) -> (r: T)
        ensures
            r == self.spec_into_order(field),
    ;
}

impl AddField<Address, NewAccountOrder> for NewOrder {
    open spec fn spec_into_order(self, field: Address) -> NewAccountOrder {
        NewAccountOrder {
            quantity: self.quantity,
            price: self.price,
            fee_amount: self.fee_amount,
            fee_token_asset: self.fee_token_asset,
            account: field,
        }
    }

    fn into_order(self, field: Address) -> (r: NewAccountOrder) {
        NewAccountOrder {
            quantity: self.quantity,
            price: self.price,
            fee_amount: self.fee_amount,
            fee_token_asset: self.fee_token_asset,
            account: field,
        }
    }
}

impl AddField<u64, Order> for NewAccountOrder {
    open spec fn spec_into_order(self, field: u64) -> Order {
        Order {
            order_id: field,
            account: self.account,
            quantity: self.quantity,
            price: self.price,
            fee_amount: self.fee_amount,
            fee_token_asset: self.fee_token_asset,
        }
    }

    fn into_order(self, field: u64) -> (r: Order) {
        Order {
            order_id: field,
            account: self.account,
            quantity: self.quantity,
            price: self.price,
            fee_amount: self.fee_amount,
            fee_token_asset: self.fee_token_asset,
        }
    }
}

} // verus!
