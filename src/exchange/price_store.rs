use vstd::prelude::*;

use crate::exchange::error::Error;
use crate::exchange::order::{AddField, NewAccountOrder, Order};

verus! {

/// The orders of `slots` that are still present, in slot order.
pub open spec fn live_orders(slots: Seq<Option<Order>>) -> Seq<Order>
    decreases slots.len(),
{
    if slots.len() == 0 {
        Seq::empty()
    } else {
        let rest = live_orders(slots.drop_last());
        match slots.last() {
            Some(o) => rest.push(o),
            None => rest,
        }
    }
}

/// The orders at one price, first come first served.
///
/// Slot `i` holds the order whose id is `i + 1`; ids are handed out in
/// sequence, and a removed order leaves an empty slot so that the ids of
/// the others keep pointing at them.
#[derive(Debug)]
pub struct PriceStore {
    pub price: u128,
    pub orders: Vec<Option<Order>>,
}

impl PriceStore {
    /// Every present order sits in the slot of its id and carries the
    /// level's price.
    pub open spec fn wf(&self) -> bool {
        forall|i: int|
            0 <= i < self.orders@.len() && (#[trigger] self.orders@[i]) is Some ==> {
                &&& self.orders@[i]->Some_0.order_id == i + 1
                &&& self.orders@[i]->Some_0.price == self.price
            }
    }

    /// The order with id `id`, if it is still here.
    pub open spec fn slot(&self, id: u64) -> Option<Order> {
        if 1 <= id <= self.orders@.len() {
            self.orders@[id - 1]
        } else {
            None
        }
    }

    /// The id that the next order added here receives.
    pub open spec fn next_id(&self) -> int {
        self.orders@.len() as int + 1
    }

    /// No order is left at this price.
    pub open spec fn spec_is_empty(&self) -> bool {
        forall|i: int| 0 <= i < self.orders@.len() ==> (#[trigger] self.orders@[i]) is None
    }

    pub fn new(price: u128) -> (r: Self)
        ensures
            r.wf(),
            r.price == price,
            r.orders@.len() == 0,
    {
        PriceStore { price, orders: Vec::new() }
    }

    pub fn is_empty(&self) -> (r: bool)
        ensures
            r == self.spec_is_empty(),
    {
        let mut i: usize = 0;
        while i < self.orders.len()
            invariant
                0 <= i <= self.orders@.len(),
                forall|k: int| 0 <= k < i ==> (#[trigger] self.orders@[k]) is None,
            decreases self.orders@.len() - i,
        {
            if self.orders[i].is_some() {
                return false;
            }
            i += 1;
        }
        true
    }

    /// Takes the order with id `order_id` out, leaving its slot empty.
    pub fn remove_order(&mut self, order_id: u64) -> (r: Option<Order>)
        requires
            old(self).wf(),
        ensures
            final(self).wf(),
            final(self).price == old(self).price,
            r == old(self).slot(order_id),
            r is Some ==> final(self).orders@ == old(self).orders@.update(order_id - 1, None),
            r is None ==> *final(self) == *old(self),
    {
        let len = self.orders.len() as u64;
        if order_id == 0 || order_id > len {
            return None;
        }
        let index = (order_id - 1) as usize;
        let removed = self.orders[index];
        if removed.is_some() {
            self.orders.set(index, None);
        }
        removed
    }

    /// Appends `order` with the next id and returns that id.
    pub fn add_order(&mut self, order: NewAccountOrder) -> (id: u64)
        requires
            old(self).wf(),
            order.price == old(self).price,
            old(self).orders@.len() < u64::MAX,
        ensures
            final(self).wf(),
            final(self).price == old(self).price,
            id == old(self).next_id(),
            final(self).orders@ == old(self).orders@.push(Some(order.spec_into_order(id))),
    {
        let id = self.orders.len() as u64 + 1;
        self.orders.push(Some(order.into_order(id)));
        id
    }

    /// Replaces the order with id `key`, if it is still here.
    pub fn update_order(&mut self, key: u64, order: Order) -> (r: Option<()>)
        requires
            old(self).wf(),
            order.order_id == key,
            order.price == old(self).price,
        ensures
            final(self).wf(),
            final(self).price == old(self).price,
            r is Some <==> old(self).slot(key) is Some,
            r is Some ==> final(self).orders@ == old(self).orders@.update(key - 1, Some(order)),
            r is None ==> *final(self) == *old(self),
    {
        let len = self.orders.len() as u64;
        if key == 0 || key > len {
            return None;
        }
        let index = (key - 1) as usize;
        if self.orders[index].is_none() {
            return None;
        }
        self.orders.set(index, Some(order));
        Some(())
    }

    pub fn try_get(&self, order_id: u64) -> (r: Result<Order, Error>)
        ensures
            r matches Ok(o) ==> self.slot(order_id) == Some(o),
            r matches Err(e) ==> self.slot(order_id) is None && e == Error::PriceStoreInvalidIndex,
    {
        let len = self.orders.len() as u64;
        if order_id == 0 || order_id > len {
            return Err(Error::PriceStoreInvalidIndex);
        }
        match self.orders[(order_id - 1) as usize] {
            Some(o) => Ok(o),
            None => Err(Error::PriceStoreInvalidIndex),
        }
    }

    /// The orders still here, in the order they arrived.
    pub fn iter(&self) -> (r: Vec<Order>)
        ensures
            r@ == live_orders(self.orders@),
    {
        let mut r: Vec<Order> = Vec::new();
        let mut i: usize = 0;
        while i < self.orders.len()
            invariant
                0 <= i <= self.orders@.len(),
                r@ == live_orders(self.orders@.take(i as int)),
            decreases self.orders@.len() - i,
        {
            proof {
                assert(self.orders@.take(i as int + 1).drop_last() == self.orders@.take(i as int));
            }
            if let Some(o) = self.orders[i] {
                r.push(o);
            }
            i += 1;
        }
        proof {
            assert(self.orders@.take(i as int) == self.orders@);
        }
        r
    }
}

} // verus!
