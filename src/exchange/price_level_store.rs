use vstd::prelude::*;

use crate::exchange::error::Error;
use crate::exchange::order::{AddField, NewAccountOrder, Order};
use crate::exchange::orderbook::PriceLevelId;
use crate::exchange::price_store::PriceStore;

verus! {

/// The price levels of one side of the book, ascending by price, with
/// their prices kept alongside for binary search.
#[derive(Debug)]
pub struct PriceLevelStore {
    pub levels: Vec<PriceStore>,
    pub levels_price: Vec<u128>,
}

impl PriceLevelStore {
    /// Levels and prices line up, prices strictly increase, and no level is
    /// empty.
    pub open spec fn wf(&self) -> bool {
        &&& self.levels@.len() == self.levels_price@.len()
        &&& forall|i: int|
            0 <= i < self.levels@.len() ==> {
                &&& (#[trigger] self.levels@[i]).price == self.levels_price@[i]
                &&& self.levels@[i].wf()
                &&& !self.levels@[i].spec_is_empty()
            }
        &&& forall|i: int, j: int|
            0 <= i < j < self.levels_price@.len() ==> self.levels_price@[i]
                < self.levels_price@[j]
    }

    pub open spec fn has_level(&self, price: u128) -> bool {
        exists|k: int| 0 <= k < self.levels@.len() && (#[trigger] self.levels@[k]).price == price
    }

    /// Where the level at `price` stands.
    pub open spec fn level_index(&self, price: u128) -> int {
        choose|k: int| 0 <= k < self.levels@.len() && (#[trigger] self.levels@[k]).price == price
    }

    /// The order with id `id` at `price`, if it rests here.
    pub open spec fn lookup(&self, price: u128, id: u64) -> Option<Order> {
        if self.has_level(price) {
            self.levels@[self.level_index(price)].slot(id)
        } else {
            None
        }
    }

    /// The id that an order added at `price` receives.
    pub open spec fn next_id_at(&self, price: u128) -> int {
        if self.has_level(price) {
            self.levels@[self.level_index(price)].next_id()
        } else {
            1
        }
    }

    /// An order at `price` can still be given an id.
    pub open spec fn room_for(&self, price: u128) -> bool {
        self.next_id_at(price) <= u64::MAX
    }

    pub fn new() -> (r: Self)
        ensures
            r.wf(),
            r.levels@.len() == 0,
    {
        PriceLevelStore { levels: Vec::new(), levels_price: Vec::new() }
    }

    /// Whether an order at `price` can still be given an id.
    pub fn room_for_exec(&self, price: u128) -> (r: bool)
        requires
            self.wf(),
        ensures
            r == self.room_for(price),
    {
        match self.search(price) {
            Ok(index) => {
                proof {
                    self.lemma_index_of(index as int);
                }
                (self.levels[index].orders.len() as u64) < u64::MAX
            },
            Err(index) => {
                proof {
                    self.lemma_no_level(price, index as int);
                }
                true
            },
        }
    }

    /// Binary search for `price`: its index, or where it would be inserted.
    fn search(&self, price: u128) -> (r: Result<usize, usize>)
        requires
            self.wf(),
        ensures
            r matches Ok(k) ==> k < self.levels@.len() && self.levels_price@[k as int] == price,
            r matches Err(k) ==> {
                &&& k <= self.levels@.len()
                &&& forall|i: int| 0 <= i < k ==> self.levels_price@[i] < price
                &&& forall|i: int| k <= i < self.levels@.len() ==> self.levels_price@[i] > price
            },
    {
        let mut lo: usize = 0;
        let mut hi: usize = self.levels_price.len();
        while lo < hi
            invariant
                self.wf(),
                0 <= lo <= hi <= self.levels_price@.len(),
                forall|i: int| 0 <= i < lo ==> self.levels_price@[i] < price,
                forall|i: int| hi <= i < self.levels_price@.len() ==> self.levels_price@[i] > price,
            decreases hi - lo,
        {
            let mid = lo + (hi - lo) / 2;
            let p = self.levels_price[mid];
            if p == price {
                return Ok(mid);
            } else if p < price {
                lo = mid + 1;
            } else {
                hi = mid;
            }
        }
        Err(lo)
    }

    pub proof fn lemma_index_of(&self, k: int)
        requires
            self.wf(),
            0 <= k < self.levels@.len(),
        ensures
            self.has_level(self.levels_price@[k]),
            self.level_index(self.levels_price@[k]) == k,
    {
        let p = self.levels_price@[k];
        assert(self.levels@[k].price == p);
        let j = self.level_index(p);
        if j != k {
            assert(self.levels@[j].price == self.levels_price@[j]);
            if j < k {
                assert(self.levels_price@[j] < self.levels_price@[k]);
            } else {
                assert(self.levels_price@[k] < self.levels_price@[j]);
            }
        }
    }

    proof fn lemma_no_level(&self, price: u128, k: int)
        requires
            self.wf(),
            0 <= k <= self.levels@.len(),
            forall|i: int| 0 <= i < k ==> self.levels_price@[i] < price,
            forall|i: int| k <= i < self.levels@.len() ==> self.levels_price@[i] > price,
        ensures
            !self.has_level(price),
    {
        if self.has_level(price) {
            let j = self.level_index(price);
            assert(self.levels@[j].price == self.levels_price@[j]);
        }
    }

    /// Adds `order` at its price, opening a level there if there is none,
    /// and returns the id it received.
    pub fn push_order(&mut self, order: NewAccountOrder) -> (id: u64)
        requires
            old(self).wf(),
            old(self).room_for(order.price),
        ensures
            final(self).wf(),
            id == old(self).next_id_at(order.price),
            final(self).lookup(order.price, id) == Some(order.spec_into_order(id)),
            forall|p: u128, i: u64|
                !(p == order.price && i == id) ==> #[trigger] final(self).lookup(p, i) == old(
                    self,
                ).lookup(p, i),
            forall|p: u128| #[trigger]
                final(self).next_id_at(p) == if p == order.price {
                    id + 1
                } else {
                    old(self).next_id_at(p)
                },
    {
        let price = order.price;
        match self.search(price) {
            Ok(index) => {
                proof {
                    self.lemma_index_of(index as int);
                }
                let mut level = self.levels.remove(index);
                let id = level.add_order(order);
                self.levels.insert(index, level);
                proof {
                    assert forall|i: int| 0 <= i < self.levels@.len() implies {
                        &&& (#[trigger] self.levels@[i]).price == self.levels_price@[i]
                        &&& self.levels@[i].wf()
                        &&& !self.levels@[i].spec_is_empty()
                    } by {
                        if i == index {
                            assert(self.levels@[i].orders@[self.levels@[i].orders@.len() - 1]
                                is Some);
                        }
                    }
                    self.lemma_index_of(index as int);
                    assert forall|p: u128, i: u64|
                        !(p == price && i == id) implies #[trigger] self.lookup(p, i) == old(
                            self,
                        ).lookup(p, i) by {
                        if old(self).has_level(p) {
                            old(self).lemma_index_of(old(self).level_index(p));
                            self.lemma_index_of(old(self).level_index(p));
                        } else if self.has_level(p) {
                            let j = self.level_index(p);
                            old(self).lemma_index_of(j);
                        }
                    }
                    assert forall|p: u128| #[trigger]
                        self.next_id_at(p) == if p == price {
                            id + 1
                        } else {
                            old(self).next_id_at(p)
                        } by {
                        if old(self).has_level(p) {
                            old(self).lemma_index_of(old(self).level_index(p));
                            self.lemma_index_of(old(self).level_index(p));
                        } else if self.has_level(p) {
                            let j = self.level_index(p);
                            old(self).lemma_index_of(j);
                        }
                    }
                }
                id
            },
            Err(index) => {
                proof {
                    self.lemma_no_level(price, index as int);
                }
                let mut level = PriceStore::new(price);
                let id = level.add_order(order);
                self.levels_price.insert(index, price);
                self.levels.insert(index, level);
                proof {
                    assert(self.levels@[index as int].orders@[0] is Some);
                    assert forall|i: int, j: int|
                        0 <= i < j < self.levels_price@.len() implies self.levels_price@[i]
                        < self.levels_price@[j] by {
                        if i < index && j > index {
                            assert(old(self).levels_price@[i] < price);
                            assert(old(self).levels_price@[j - 1] > price);
                        } else if i == index {
                            assert(old(self).levels_price@[j - 1] > price);
                        } else if j == index {
                            assert(old(self).levels_price@[i] < price);
                        }
                    }
                    self.lemma_index_of(index as int);
                    assert forall|p: u128, i: u64|
                        !(p == price && i == id) implies #[trigger] self.lookup(p, i) == old(
                            self,
                        ).lookup(p, i) by {
                        if p == price {
                        } else if old(self).has_level(p) {
                            let j = old(self).level_index(p);
                            old(self).lemma_index_of(j);
                            if j < index {
                                self.lemma_index_of(j);
                            } else {
                                self.lemma_index_of(j + 1);
                            }
                        } else if self.has_level(p) {
                            let j = self.level_index(p);
                            if j < index {
                                old(self).lemma_index_of(j);
                            } else if j > index {
                                old(self).lemma_index_of(j - 1);
                            }
                        }
                    }
                    assert forall|p: u128| #[trigger]
                        self.next_id_at(p) == if p == price {
                            id + 1
                        } else {
                            old(self).next_id_at(p)
                        } by {
                        if p == price {
                        } else if old(self).has_level(p) {
                            let j = old(self).level_index(p);
                            old(self).lemma_index_of(j);
                            if j < index {
                                self.lemma_index_of(j);
                            } else {
                                self.lemma_index_of(j + 1);
                            }
                        } else if self.has_level(p) {
                            let j = self.level_index(p);
                            if j < index {
                                old(self).lemma_index_of(j);
                            } else if j > index {
                                old(self).lemma_index_of(j - 1);
                            }
                        }
                    }
                }
                id
            },
        }
    }
    /// Replaces the order `price_id` names. Answers `None` only when there
    /// is no level at that price; an id no longer present is left alone.
    pub fn update_order(&mut self, price_id: PriceLevelId, order: Order) -> (r: Option<()>)
        requires
            old(self).wf(),
            order.order_id == price_id.id,
            order.price == price_id.price,
        ensures
            final(self).wf(),
            r is Some <==> old(self).has_level(price_id.price),
            forall|p: u128, i: u64| #[trigger]
                final(self).lookup(p, i) == if p == price_id.price && i == price_id.id
                    && old(self).lookup(p, i) is Some {
                    Some(order)
                } else {
                    old(self).lookup(p, i)
                },
            forall|p: u128| #[trigger] final(self).next_id_at(p) == old(self).next_id_at(p),
    {
        let PriceLevelId { id, price } = price_id;
        match self.search(price) {
            Ok(index) => {
                proof {
                    self.lemma_index_of(index as int);
                }
                let mut level = self.levels.remove(index);
                let _ = level.update_order(id, order);
                self.levels.insert(index, level);
                proof {
                    assert forall|i: int| 0 <= i < self.levels@.len() implies {
                        &&& (#[trigger] self.levels@[i]).price == self.levels_price@[i]
                        &&& self.levels@[i].wf()
                        &&& !self.levels@[i].spec_is_empty()
                    } by {
                        if i == index {
                            let lv = old(self).levels@[i];
                            assert(!lv.spec_is_empty());
                            let w = choose|w: int| 0 <= w < lv.orders@.len() && lv.orders@[w] is Some;
                            assert(self.levels@[i].orders@[w] is Some);
                        }
                    }
                    self.lemma_index_of(index as int);
                    assert forall|p: u128, i: u64| #[trigger]
                        self.lookup(p, i) == if p == price && i == id && old(self).lookup(p, i) is Some {
                            Some(order)
                        } else {
                            old(self).lookup(p, i)
                        } by {
                        if old(self).has_level(p) {
                            old(self).lemma_index_of(old(self).level_index(p));
                            self.lemma_index_of(old(self).level_index(p));
                        } else if self.has_level(p) {
                            old(self).lemma_index_of(self.level_index(p));
                        }
                    }
                    assert forall|p: u128| #[trigger] self.next_id_at(p) == old(self).next_id_at(p) by {
                        if old(self).has_level(p) {
                            old(self).lemma_index_of(old(self).level_index(p));
                            self.lemma_index_of(old(self).level_index(p));
                        } else if self.has_level(p) {
                            old(self).lemma_index_of(self.level_index(p));
                        }
                    }
                }
                Some(())
            },
            Err(index) => {
                proof {
                    self.lemma_no_level(price, index as int);
                }
                None
            },
        }
    }

    /// Takes the order `order_id` at `price` out, and the level with it if
    /// it was the last one there.
    #[verifier::rlimit(60)]
    pub fn remove_order(&mut self, price: u128, order_id: u64) -> (r: Result<Order, Error>)
        requires
            old(self).wf(),
        ensures
            final(self).wf(),
            r matches Ok(o) ==> old(self).lookup(price, order_id) == Some(o),
            r is Ok ==> forall|p: u128, i: u64| #[trigger]
                final(self).lookup(p, i) == if p == price && i == order_id {
                    None
                } else {
                    old(self).lookup(p, i)
                },
            r is Ok ==> forall|p: u128| p != price ==> #[trigger] final(self).next_id_at(p)
                == old(self).next_id_at(p),
            r matches Err(e) ==> final(self).levels@ == old(self).levels@
                && final(self).levels_price@ == old(self).levels_price@ && old(self).lookup(
                price,
                order_id,
            ) is None && e == if old(self).has_level(price) {
                Error::LevelsStoreRemoveFailed
            } else {
                Error::LevelsStorePriceNotFound
            },
    {
        let index = match self.search(price) {
            Ok(index) => index,
            Err(index) => {
                proof {
                    self.lemma_no_level(price, index as int);
                }
                return Err(Error::LevelsStorePriceNotFound);
            },
        };
        proof {
            self.lemma_index_of(index as int);
        }
        let mut level = self.levels.remove(index);
        let removed = level.remove_order(order_id);
        match removed {
            None => {
                self.levels.insert(index, level);
                proof {
                    assert(self.levels@ =~= old(self).levels@);
                }
                Err(Error::LevelsStoreRemoveFailed)
            },
            Some(order) => {
                if level.is_empty() {
                    self.levels_price.remove(index);
                    proof {
                        assert forall|i: int, j: int|
                            0 <= i < j < self.levels_price@.len() implies self.levels_price@[i]
                            < self.levels_price@[j] by {
                            if j >= index {
                                if i >= index {
                                    assert(old(self).levels_price@[i + 1] < old(self).levels_price@[j + 1]);
                                } else {
                                    assert(old(self).levels_price@[i] < old(self).levels_price@[j + 1]);
                                }
                            }
                        }
                        assert forall|p: u128, i: u64| #[trigger]
                            self.lookup(p, i) == if p == price && i == order_id {
                                None
                            } else {
                                old(self).lookup(p, i)
                            } by {
                            if p == price {
                                if self.has_level(p) {
                                    let j = self.level_index(p);
                                    if j < index {
                                        old(self).lemma_index_of(j);
                                    } else {
                                        old(self).lemma_index_of(j + 1);
                                    }
                                }
                                if i != order_id {
                                    let lv = old(self).levels@[index as int];
                                    if 1 <= i <= lv.orders@.len() {
                                        assert(level.orders@[i - 1] is None);
                                    }
                                }
                            } else if old(self).has_level(p) {
                                let j = old(self).level_index(p);
                                old(self).lemma_index_of(j);
                                if j < index {
                                    self.lemma_index_of(j);
                                } else {
                                    self.lemma_index_of(j - 1);
                                }
                            } else if self.has_level(p) {
                                let j = self.level_index(p);
                                if j < index {
                                    old(self).lemma_index_of(j);
                                } else {
                                    old(self).lemma_index_of(j + 1);
                                }
                            }
                        }
                        assert forall|p: u128| p != price implies #[trigger] self.next_id_at(p)
                            == old(self).next_id_at(p) by {
                            if old(self).has_level(p) {
                                let j = old(self).level_index(p);
                                old(self).lemma_index_of(j);
                                if j < index {
                                    self.lemma_index_of(j);
                                } else {
                                    self.lemma_index_of(j - 1);
                                }
                            } else if self.has_level(p) {
                                let j = self.level_index(p);
                                if j < index {
                                    old(self).lemma_index_of(j);
                                } else {
                                    old(self).lemma_index_of(j + 1);
                                }
                            }
                        }
                    }
                } else {
                    self.levels.insert(index, level);
                    proof {
                        self.lemma_index_of(index as int);
                        assert forall|p: u128, i: u64| #[trigger]
                            self.lookup(p, i) == if p == price && i == order_id {
                                None
                            } else {
                                old(self).lookup(p, i)
                            } by {
                            if old(self).has_level(p) {
                                old(self).lemma_index_of(old(self).level_index(p));
                                self.lemma_index_of(old(self).level_index(p));
                            } else if self.has_level(p) {
                                old(self).lemma_index_of(self.level_index(p));
                            }
                        }
                        assert forall|p: u128| p != price implies #[trigger] self.next_id_at(p)
                            == old(self).next_id_at(p) by {
                            if old(self).has_level(p) {
                                old(self).lemma_index_of(old(self).level_index(p));
                                self.lemma_index_of(old(self).level_index(p));
                            } else if self.has_level(p) {
                                old(self).lemma_index_of(self.level_index(p));
                            }
                        }
                    }
                }
                Ok(order)
            },
        }
    }

    pub fn try_get(&self, price: u128, order_id: u64) -> (r: Result<Order, Error>)
        requires
            self.wf(),
        ensures
            r matches Ok(o) ==> self.lookup(price, order_id) == Some(o),
            r matches Err(e) ==> self.lookup(price, order_id) is None && e == if self.has_level(
                price,
            ) {
                Error::PriceStoreInvalidIndex
            } else {
                Error::LevelsStorePriceNotFound
            },
    {
        match self.search(price) {
            Ok(index) => {
                proof {
                    self.lemma_index_of(index as int);
                }
                self.levels[index].try_get(order_id)
            },
            Err(index) => {
                proof {
                    self.lemma_no_level(price, index as int);
                }
                Err(Error::LevelsStorePriceNotFound)
            },
        }
    }

    /// The orders resting at `price`, in the order they arrived.
    pub fn get_orders(&self, price: u128) -> (r: Vec<Order>)
        requires
            self.wf(),
            self.has_level(price),
        ensures
            r@ == crate::exchange::price_store::live_orders(
                self.levels@[self.level_index(price)].orders@,
            ),
    {
        match self.search(price) {
            Ok(index) => {
                proof {
                    self.lemma_index_of(index as int);
                }
                self.levels[index].iter()
            },
            Err(index) => {
                proof {
                    self.lemma_no_level(price, index as int);
                }
                Vec::new()
            },
        }
    }
}

} // verus!
