use vstd::prelude::*;

use crate::exchange::error::Error;
use crate::exchange::order::{AddField, NewAccountOrder, Order, OrderSide};
use crate::exchange::price_level_store::PriceLevelStore;
use crate::exchange::price_store::{live_orders, PriceStore};

verus! {

/// Names an order within the book: its side, price level and id.
#[derive(Debug, Clone, Copy, PartialEq, Eq, Structural)]
pub enum OrderBookId {
    BuyId(PriceLevelId),
    SellId(PriceLevelId),
}

/// An order's place within one side: its price level and its id there.
#[derive(Debug, Clone, Copy, PartialEq, Eq, Structural)]
pub struct PriceLevelId {
    pub id: u64,
    pub price: u128,
}

impl OrderBookId {
    pub fn buy_id(price: u128, id: u64) -> (r: Self)
        ensures
            r == OrderBookId::BuyId(PriceLevelId { id, price }),
    {
        Self::BuyId(PriceLevelId { id, price })
    }

    pub fn sell_id(price: u128, id: u64) -> (r: Self)
        ensures
            r == OrderBookId::SellId(PriceLevelId { id, price }),
    {
        Self::SellId(PriceLevelId { id, price })
    }

    pub open spec fn level_id(self) -> PriceLevelId {
        match self {
            OrderBookId::BuyId(l) => l,
            OrderBookId::SellId(l) => l,
        }
    }

    pub open spec fn side(self) -> OrderSide {
        match self {
            OrderBookId::BuyId(_) => OrderSide::BUY,
            OrderBookId::SellId(_) => OrderSide::SELL,
        }
    }
}

/// The id of the order `id` at `price` on `side`.
pub open spec fn book_id(side: OrderSide, price: u128, id: u64) -> OrderBookId {
    match side {
        OrderSide::BUY => OrderBookId::BuyId(PriceLevelId { id, price }),
        OrderSide::SELL => OrderBookId::SellId(PriceLevelId { id, price }),
    }
}

/// The orders of one level with their book ids, oldest first.
pub open spec fn level_entries(side: OrderSide, level: PriceStore) -> Seq<(OrderBookId, Order)> {
    live_orders(level.orders@).map_values(|o: Order| (book_id(side, level.price, o.order_id), o))
}

/// The orders of `levels` from the lowest price up.
pub open spec fn entries_asc(side: OrderSide, levels: Seq<PriceStore>) -> Seq<(OrderBookId, Order)>
    decreases levels.len(),
{
    if levels.len() == 0 {
        Seq::empty()
    } else {
        entries_asc(side, levels.drop_last()) + level_entries(side, levels.last())
    }
}

/// The orders of `levels` from the highest price down.
pub open spec fn entries_desc(side: OrderSide, levels: Seq<PriceStore>) -> Seq<
    (OrderBookId, Order),
>
    decreases levels.len(),
{
    if levels.len() == 0 {
        Seq::empty()
    } else {
        entries_desc(side, levels.drop_first()) + level_entries(side, levels[0])
    }
}

pub open spec fn opposite(side: OrderSide) -> OrderSide {
    match side {
        OrderSide::BUY => OrderSide::SELL,
        OrderSide::SELL => OrderSide::BUY,
    }
}

/// The bids and asks of one trading pair.
#[derive(Debug)]
pub struct OrderBook {
    pub buy_orders: PriceLevelStore,
    pub sell_orders: PriceLevelStore,
}

impl OrderBook {
    pub open spec fn wf(&self) -> bool {
        self.buy_orders.wf() && self.sell_orders.wf()
    }

    pub open spec fn orders_of(&self, side: OrderSide) -> PriceLevelStore {
        match side {
            OrderSide::BUY => self.buy_orders,
            OrderSide::SELL => self.sell_orders,
        }
    }

    /// The order that `oix` names, if it rests in the book.
    pub open spec fn lookup(&self, oix: OrderBookId) -> Option<Order> {
        self.orders_of(oix.side()).lookup(oix.level_id().price, oix.level_id().id)
    }

    /// The resting orders of `maker_side` in the order a taker meets them:
    /// best price first, and oldest first within a price.
    pub open spec fn maker_entries(&self, maker_side: OrderSide) -> Seq<(OrderBookId, Order)> {
        match maker_side {
            OrderSide::BUY => entries_desc(OrderSide::BUY, self.buy_orders.levels@),
            OrderSide::SELL => entries_asc(OrderSide::SELL, self.sell_orders.levels@),
        }
    }

    pub fn new() -> (r: Self)
        ensures
            r.wf(),
            r.buy_orders.levels@.len() == 0,
            r.sell_orders.levels@.len() == 0,
    {
        OrderBook { buy_orders: PriceLevelStore::new(), sell_orders: PriceLevelStore::new() }
    }

    /// Whether an order on `side` at `price` can still be given an id.
    pub fn has_room(&self, side: OrderSide, price: u128) -> (r: bool)
        requires
            self.wf(),
        ensures
            r == self.orders_of(side).room_for(price),
    {
        let store = match side {
            OrderSide::BUY => &self.buy_orders,
            OrderSide::SELL => &self.sell_orders,
        };
        store.room_for_exec(price)
    }

    pub fn add_buy_order(&mut self, order: NewAccountOrder) -> (r: OrderBookId)
        requires
            old(self).wf(),
            old(self).buy_orders.room_for(order.price),
        ensures
            final(self).wf(),
            final(self).sell_orders == old(self).sell_orders,
            r == book_id(OrderSide::BUY, order.price, r.level_id().id),
            r.level_id().id == old(self).buy_orders.next_id_at(order.price),
            final(self).lookup(r) == Some(order.spec_into_order(r.level_id().id)),
            forall|o: OrderBookId| o != r ==> #[trigger] final(self).lookup(o) == old(self).lookup(o),
            forall|p: u128| #[trigger]
                final(self).buy_orders.next_id_at(p) == if p == order.price {
                    r.level_id().id + 1
                } else {
                    old(self).buy_orders.next_id_at(p)
                },
    {
        let price = order.price;
        let key = self.buy_orders.push_order(order);
        let r = OrderBookId::buy_id(price, key);
        proof {
            assert forall|o: OrderBookId| o != r implies #[trigger] self.lookup(o) == old(self).lookup(o) by {
                let l = o.level_id();
                if o.side() == OrderSide::BUY {
                    assert(self.buy_orders.lookup(l.price, l.id) == old(self).buy_orders.lookup(l.price, l.id));
                }
            }
        }
        r
    }

    pub fn add_sell_order(&mut self, order: NewAccountOrder) -> (r: OrderBookId)
        requires
            old(self).wf(),
            old(self).sell_orders.room_for(order.price),
        ensures
            final(self).wf(),
            final(self).buy_orders == old(self).buy_orders,
            r == book_id(OrderSide::SELL, order.price, r.level_id().id),
            r.level_id().id == old(self).sell_orders.next_id_at(order.price),
            final(self).lookup(r) == Some(order.spec_into_order(r.level_id().id)),
            forall|o: OrderBookId| o != r ==> #[trigger] final(self).lookup(o) == old(self).lookup(o),
            forall|p: u128| #[trigger]
                final(self).sell_orders.next_id_at(p) == if p == order.price {
                    r.level_id().id + 1
                } else {
                    old(self).sell_orders.next_id_at(p)
                },
    {
        let price = order.price;
        let key = self.sell_orders.push_order(order);
        let r = OrderBookId::sell_id(price, key);
        proof {
            assert forall|o: OrderBookId| o != r implies #[trigger] self.lookup(o) == old(self).lookup(o) by {
                let l = o.level_id();
                if o.side() == OrderSide::SELL {
                    assert(self.sell_orders.lookup(l.price, l.id) == old(self).sell_orders.lookup(l.price, l.id));
                }
            }
        }
        r
    }

    pub fn try_get(&self, order_book_id: OrderBookId) -> (r: Result<Order, Error>)
        requires
            self.wf(),
        ensures
            r matches Ok(o) ==> self.lookup(order_book_id) == Some(o),
            r is Err ==> self.lookup(order_book_id) is None,
    {
        match order_book_id {
            OrderBookId::BuyId(PriceLevelId { id, price }) => self.buy_orders.try_get(price, id),
            OrderBookId::SellId(PriceLevelId { id, price }) => self.sell_orders.try_get(price, id),
        }
    }

    pub fn remove_order(&mut self, order_book_id: OrderBookId) -> (r: Result<Order, Error>)
        requires
            old(self).wf(),
        ensures
            final(self).wf(),
            r matches Ok(o) ==> old(self).lookup(order_book_id) == Some(o),
            r is Err ==> old(self).lookup(order_book_id) is None,
            r is Ok ==> forall|o: OrderBookId| #[trigger]
                final(self).lookup(o) == if o == order_book_id {
                    None
                } else {
                    old(self).lookup(o)
                },
            r is Ok ==> forall|p: u128|
                p != order_book_id.level_id().price ==> #[trigger] final(self).orders_of(
                    order_book_id.side(),
                ).next_id_at(p) == old(self).orders_of(order_book_id.side()).next_id_at(p),
            final(self).orders_of(opposite(order_book_id.side())) == old(self).orders_of(
                opposite(order_book_id.side()),
            ),
    {
        match order_book_id {
            OrderBookId::BuyId(PriceLevelId { id, price }) => {
                let r = self.buy_orders.remove_order(price, id);
                proof {
                    if r is Ok {
                        assert forall|o: OrderBookId| #[trigger]
                            self.lookup(o) == if o == order_book_id {
                                None
                            } else {
                                old(self).lookup(o)
                            } by {
                            let l = o.level_id();
                            if o.side() == OrderSide::BUY {
                                assert(self.buy_orders.lookup(l.price, l.id) == if l.price == price
                                    && l.id == id {
                                    None
                                } else {
                                    old(self).buy_orders.lookup(l.price, l.id)
                                });
                            }
                        }
                    }
                }
                r
            },
            OrderBookId::SellId(PriceLevelId { id, price }) => {
                let r = self.sell_orders.remove_order(price, id);
                proof {
                    if r is Ok {
                        assert forall|o: OrderBookId| #[trigger]
                            self.lookup(o) == if o == order_book_id {
                                None
                            } else {
                                old(self).lookup(o)
                            } by {
                            let l = o.level_id();
                            if o.side() == OrderSide::SELL {
                                assert(self.sell_orders.lookup(l.price, l.id) == if l.price == price
                                    && l.id == id {
                                    None
                                } else {
                                    old(self).sell_orders.lookup(l.price, l.id)
                                });
                            }
                        }
                    }
                }
                r
            },
        }
    }

    /// Replaces the order `order_id` names; `None` when its side has no
    /// level at that price.
    pub fn update_order(&mut self, order_id: OrderBookId, order: Order) -> (r: Option<()>)
        requires
            old(self).wf(),
            order.order_id == order_id.level_id().id,
            order.price == order_id.level_id().price,
        ensures
            final(self).wf(),
            r is Some <==> old(self).orders_of(order_id.side()).has_level(
                order_id.level_id().price,
            ),
            forall|o: OrderBookId| #[trigger]
                final(self).lookup(o) == if o == order_id && old(self).lookup(o) is Some {
                    Some(order)
                } else {
                    old(self).lookup(o)
                },
            forall|p: u128| #[trigger]
                final(self).orders_of(order_id.side()).next_id_at(p) == old(self).orders_of(
                    order_id.side(),
                ).next_id_at(p),
            final(self).orders_of(opposite(order_id.side())) == old(self).orders_of(
                opposite(order_id.side()),
            ),
    {
        match order_id {
            OrderBookId::BuyId(price_level_id) => {
                let r = self.buy_orders.update_order(price_level_id, order);
                proof {
                    assert forall|o: OrderBookId| #[trigger]
                        self.lookup(o) == if o == order_id && old(self).lookup(o) is Some {
                            Some(order)
                        } else {
                            old(self).lookup(o)
                        } by {
                        let l = o.level_id();
                        if o.side() == OrderSide::BUY {
                            assert(self.buy_orders.lookup(l.price, l.id) == old(self).buy_orders.lookup(l.price, l.id) || (l == price_level_id));
                        }
                    }
                }
                r
            },
            OrderBookId::SellId(price_level_id) => {
                let r = self.sell_orders.update_order(price_level_id, order);
                proof {
                    assert forall|o: OrderBookId| #[trigger]
                        self.lookup(o) == if o == order_id && old(self).lookup(o) is Some {
                            Some(order)
                        } else {
                            old(self).lookup(o)
                        } by {
                        let l = o.level_id();
                        if o.side() == OrderSide::SELL {
                            assert(self.sell_orders.lookup(l.price, l.id) == old(self).sell_orders.lookup(l.price, l.id) || (l == price_level_id));
                        }
                    }
                }
                r
            },
        }
    }

    /// The highest bid.
    pub fn best_buy_price(&self) -> (r: Option<u128>)
        requires
            self.wf(),
        ensures
            r == if self.buy_orders.levels@.len() == 0 {
                None
            } else {
                Some(self.buy_orders.levels_price@.last())
            },
    {
        let n = self.buy_orders.levels_price.len();
        if n == 0 {
            None
        } else {
            Some(self.buy_orders.levels_price[n - 1])
        }
    }

    /// The lowest ask.
    pub fn best_sell_price(&self) -> (r: Option<u128>)
        requires
            self.wf(),
        ensures
            r == if self.sell_orders.levels@.len() == 0 {
                None
            } else {
                Some(self.sell_orders.levels_price@[0])
            },
    {
        if self.sell_orders.levels_price.len() == 0 {
            None
        } else {
            Some(self.sell_orders.levels_price[0])
        }
    }

    /// The resting orders of `maker_side` with their ids, in matching order:
    /// bids from the highest price down, asks from the lowest up, and the
    /// oldest first within a price.
    pub fn maker_orders_iter(&self, maker_side: OrderSide) -> (r: Vec<(OrderBookId, Order)>)
        ensures
            r@ == self.maker_entries(maker_side),
    {
        let mut r: Vec<(OrderBookId, Order)> = Vec::new();
        match maker_side {
            OrderSide::BUY => {
                let levels = &self.buy_orders.levels;
                let mut i: usize = levels.len();
                while i > 0
                    invariant
                        0 <= i <= levels@.len(),
                        r@ == entries_desc(OrderSide::BUY, levels@.subrange(i as int, levels@.len() as int)),
                    decreases i,
                {
                    let ghost before = r@;
                    append_level(&mut r, OrderSide::BUY, &levels[i - 1]);
                    proof {
                        let s = levels@.subrange(i - 1, levels@.len() as int);
                        assert(s.drop_first() == levels@.subrange(i as int, levels@.len() as int));
                        assert(s[0] == levels@[i - 1]);
                    }
                    i -= 1;
                }
                proof {
                    assert(levels@.subrange(0, levels@.len() as int) == levels@);
                }
            },
            OrderSide::SELL => {
                let levels = &self.sell_orders.levels;
                let mut i: usize = 0;
                while i < levels.len()
                    invariant
                        0 <= i <= levels@.len(),
                        r@ == entries_asc(OrderSide::SELL, levels@.take(i as int)),
                    decreases levels@.len() - i,
                {
                    append_level(&mut r, OrderSide::SELL, &levels[i]);
                    proof {
                        let s = levels@.take(i as int + 1);
                        assert(s.drop_last() == levels@.take(i as int));
                        assert(s.last() == levels@[i as int]);
                    }
                    i += 1;
                }
                proof {
                    assert(levels@.take(levels@.len() as int) == levels@);
                }
            },
        }
        r
    }
}

/// Appends the orders of `level`, with their ids on `side`, to `out`.
fn append_level(out: &mut Vec<(OrderBookId, Order)>, side: OrderSide, level: &PriceStore)
    ensures
        final(out)@ == old(out)@ + level_entries(side, *level),
{
    let orders = level.iter();
    let ghost start = out@;
    let mut j: usize = 0;
    while j < orders.len()
        invariant
            0 <= j <= orders@.len(),
            orders@ == live_orders(level.orders@),
            out@ == start + orders@.take(j as int).map_values(
                |o: Order| (book_id(side, level.price, o.order_id), o),
            ),
        decreases orders@.len() - j,
    {
        let o = orders[j];
        let oix = match side {
            OrderSide::BUY => OrderBookId::buy_id(level.price, o.order_id),
            OrderSide::SELL => OrderBookId::sell_id(level.price, o.order_id),
        };
        out.push((oix, o));
        proof {
            assert(orders@.take(j as int + 1) == orders@.take(j as int).push(o));
            assert(orders@.take(j as int + 1).map_values(
                |o: Order| (book_id(side, level.price, o.order_id), o),
            ) == orders@.take(j as int).map_values(
                |o: Order| (book_id(side, level.price, o.order_id), o),
            ).push((oix, o)));
        }
        j += 1;
    }
    proof {
        assert(orders@.take(j as int) == orders@);
    }
}

/// `o` rests in one of `levels`, at its own price and under its own id.
pub open spec fn in_levels(levels: Seq<PriceStore>, o: Order) -> bool {
    exists|k: int|
        0 <= k < levels.len() && (#[trigger] levels[k]).price == o.price && levels[k].slot(o.order_id)
            == Some(o)
}

/// Entry `a` comes before entry `b` in the order a taker meets orders of
/// `side`: a better price, or the same price and an earlier id.
pub open spec fn precedes(side: OrderSide, a: Order, b: Order) -> bool {
    match side {
        OrderSide::BUY => a.price > b.price || (a.price == b.price && a.order_id < b.order_id),
        OrderSide::SELL => a.price < b.price || (a.price == b.price && a.order_id < b.order_id),
    }
}

/// Each entry of `entries` precedes every later one.
pub open spec fn in_matching_order(side: OrderSide, entries: Seq<(OrderBookId, Order)>) -> bool {
    forall|i: int, j: int| 0 <= i < j < entries.len() ==> precedes(side, entries[i].1, entries[j].1)
}

/// The present orders of a level, under the level's invariant, sit at the
/// level's price in the slot of their id, with ids rising.
pub proof fn lemma_live_orders(slots: Seq<Option<Order>>, price: u128)
    requires
        forall|i: int|
            0 <= i < slots.len() && (#[trigger] slots[i]) is Some ==> slots[i]->Some_0.order_id == i
                + 1 && slots[i]->Some_0.price == price,
    ensures
        forall|k: int|
            0 <= k < live_orders(slots).len() ==> {
                let o = #[trigger] live_orders(slots)[k];
                &&& 1 <= o.order_id <= slots.len()
                &&& slots[o.order_id - 1] == Some(o)
                &&& o.price == price
            },
        forall|a: int, b: int|
            0 <= a < b < live_orders(slots).len() ==> live_orders(slots)[a].order_id < live_orders(
                slots,
            )[b].order_id,
    decreases slots.len(),
{
    if slots.len() > 0 {
        let rest = slots.drop_last();
        lemma_live_orders(rest, price);
        let live = live_orders(slots);
        let lr = live_orders(rest);
        assert forall|k: int| 0 <= k < live.len() implies {
            let o = #[trigger] live[k];
            &&& 1 <= o.order_id <= slots.len()
            &&& slots[o.order_id - 1] == Some(o)
            &&& o.price == price
        } by {
            if k < lr.len() {
                assert(live[k] == lr[k]);
            } else {
                assert(slots[slots.len() - 1] is Some);
            }
        }
        assert forall|a: int, b: int| 0 <= a < b < live.len() implies live[a].order_id
            < live[b].order_id by {
            if b < lr.len() {
                assert(live[a] == lr[a] && live[b] == lr[b]);
            } else {
                assert(live[a] == lr[a]);
                assert(slots[slots.len() - 1] is Some);
            }
        }
    }
}

/// The entries of one level carry its price, their own ids, and rest in it.
pub proof fn lemma_level_entries(side: OrderSide, level: PriceStore)
    requires
        level.wf(),
    ensures
        forall|k: int|
            0 <= k < level_entries(side, level).len() ==> {
                let e = #[trigger] level_entries(side, level)[k];
                &&& e.1.price == level.price
                &&& e.0 == book_id(side, e.1.price, e.1.order_id)
                &&& level.slot(e.1.order_id) == Some(e.1)
            },
        in_matching_order(side, level_entries(side, level)),
{
    lemma_live_orders(level.orders@, level.price);
    let live = live_orders(level.orders@);
    assert forall|k: int| 0 <= k < level_entries(side, level).len() implies {
        let e = #[trigger] level_entries(side, level)[k];
        &&& e.1.price == level.price
        &&& e.0 == book_id(side, e.1.price, e.1.order_id)
        &&& level.slot(e.1.order_id) == Some(e.1)
    } by {
        assert(live[k] == live[k]);
    }
    assert forall|i: int, j: int|
        0 <= i < j < level_entries(side, level).len() implies precedes(
        side,
        level_entries(side, level)[i].1,
        level_entries(side, level)[j].1,
    ) by {
        assert(live[i].order_id < live[j].order_id);
    }
}

/// Ascending traversal of strictly rising levels meets orders in matching
/// order for sellers, and each entry rests in one of the levels.
pub proof fn lemma_entries_asc(side: OrderSide, levels: Seq<PriceStore>)
    requires
        side == OrderSide::SELL,
        forall|k: int| 0 <= k < levels.len() ==> (#[trigger] levels[k]).wf(),
        forall|i: int, j: int| 0 <= i < j < levels.len() ==> levels[i].price < levels[j].price,
    ensures
        forall|k: int|
            0 <= k < entries_asc(side, levels).len() ==> {
                let e = #[trigger] entries_asc(side, levels)[k];
                &&& in_levels(levels, e.1)
                &&& e.0 == book_id(side, e.1.price, e.1.order_id)
            },
        in_matching_order(side, entries_asc(side, levels)),
    decreases levels.len(),
{
    if levels.len() > 0 {
        let init = levels.drop_last();
        let last = levels.last();
        lemma_entries_asc(side, init);
        lemma_level_entries(side, last);
        let a = entries_asc(side, init);
        let b = level_entries(side, last);
        let all = entries_asc(side, levels);
        assert(all == a + b);
        assert forall|k: int| 0 <= k < all.len() implies {
            let e = #[trigger] all[k];
            &&& in_levels(levels, e.1)
            &&& e.0 == book_id(side, e.1.price, e.1.order_id)
        } by {
            if k < a.len() {
                assert(all[k] == a[k]);
                let w = choose|w: int|
                    0 <= w < init.len() && (#[trigger] init[w]).price == a[k].1.price && init[w].slot(
                        a[k].1.order_id,
                    ) == Some(a[k].1);
                assert(levels[w] == init[w]);
            } else {
                assert(all[k] == b[k - a.len()]);
                assert(levels[levels.len() - 1] == last);
            }
        }
        assert forall|i: int, j: int| 0 <= i < j < all.len() implies precedes(
            side,
            all[i].1,
            all[j].1,
        ) by {
            if j < a.len() {
                assert(all[i] == a[i] && all[j] == a[j]);
            } else if i >= a.len() {
                assert(all[i] == b[i - a.len()] && all[j] == b[j - a.len()]);
            } else {
                assert(all[i] == a[i] && all[j] == b[j - a.len()]);
                let w = choose|w: int|
                    0 <= w < init.len() && (#[trigger] init[w]).price == a[i].1.price && init[w].slot(
                        a[i].1.order_id,
                    ) == Some(a[i].1);
                assert(levels[w] == init[w]);
                assert(levels[levels.len() - 1] == last);
            }
        }
    }
}

/// Descending traversal of strictly rising levels meets orders in matching
/// order for buyers, and each entry rests in one of the levels.
pub proof fn lemma_entries_desc(side: OrderSide, levels: Seq<PriceStore>)
    requires
        side == OrderSide::BUY,
        forall|k: int| 0 <= k < levels.len() ==> (#[trigger] levels[k]).wf(),
        forall|i: int, j: int| 0 <= i < j < levels.len() ==> levels[i].price < levels[j].price,
    ensures
        forall|k: int|
            0 <= k < entries_desc(side, levels).len() ==> {
                let e = #[trigger] entries_desc(side, levels)[k];
                &&& in_levels(levels, e.1)
                &&& e.0 == book_id(side, e.1.price, e.1.order_id)
            },
        in_matching_order(side, entries_desc(side, levels)),
    decreases levels.len(),
{
    if levels.len() > 0 {
        let rest = levels.drop_first();
        let first = levels[0];
        lemma_entries_desc(side, rest);
        lemma_level_entries(side, first);
        let a = entries_desc(side, rest);
        let b = level_entries(side, first);
        let all = entries_desc(side, levels);
        assert(all == a + b);
        assert forall|k: int| 0 <= k < all.len() implies {
            let e = #[trigger] all[k];
            &&& in_levels(levels, e.1)
            &&& e.0 == book_id(side, e.1.price, e.1.order_id)
        } by {
            if k < a.len() {
                assert(all[k] == a[k]);
                let w = choose|w: int|
                    0 <= w < rest.len() && (#[trigger] rest[w]).price == a[k].1.price && rest[w].slot(
                        a[k].1.order_id,
                    ) == Some(a[k].1);
                assert(levels[w + 1] == rest[w]);
            } else {
                assert(all[k] == b[k - a.len()]);
            }
        }
        assert forall|i: int, j: int| 0 <= i < j < all.len() implies precedes(
            side,
            all[i].1,
            all[j].1,
        ) by {
            if j < a.len() {
                assert(all[i] == a[i] && all[j] == a[j]);
            } else if i >= a.len() {
                assert(all[i] == b[i - a.len()] && all[j] == b[j - a.len()]);
            } else {
                assert(all[i] == a[i] && all[j] == b[j - a.len()]);
                let w = choose|w: int|
                    0 <= w < rest.len() && (#[trigger] rest[w]).price == a[i].1.price && rest[w].slot(
                        a[i].1.order_id,
                    ) == Some(a[i].1);
                assert(levels[w + 1] == rest[w]);
            }
        }
    }
}

/// Book ordering: the resting orders a taker meets on either side come
/// best price first, and within a price in the order they were placed
/// (by strictly rising id); each is in the book under the id it is listed
/// with.
pub proof fn lemma_maker_entries(book: OrderBook, maker_side: OrderSide)
    requires
        book.wf(),
    ensures
        in_matching_order(maker_side, book.maker_entries(maker_side)),
        forall|k: int|
            0 <= k < book.maker_entries(maker_side).len() ==> {
                let e = #[trigger] book.maker_entries(maker_side)[k];
                &&& e.0 == book_id(maker_side, e.1.price, e.1.order_id)
                &&& book.lookup(e.0) == Some(e.1)
            },
        forall|i: int, j: int|
            0 <= i < j < book.maker_entries(maker_side).len() ==> book.maker_entries(maker_side)[i].0
                != book.maker_entries(maker_side)[j].0,
{
    let store = book.orders_of(maker_side);
    let levels = store.levels@;
    assert forall|i: int, j: int| 0 <= i < j < levels.len() implies levels[i].price
        < levels[j].price by {
        assert(levels[i].price == store.levels_price@[i]);
        assert(levels[j].price == store.levels_price@[j]);
    }
    assert forall|k: int| 0 <= k < levels.len() implies (#[trigger] levels[k]).wf() by {
        assert(levels[k].price == store.levels_price@[k]);
    }
    match maker_side {
        OrderSide::BUY => lemma_entries_desc(maker_side, levels),
        OrderSide::SELL => lemma_entries_asc(maker_side, levels),
    }
    let es = book.maker_entries(maker_side);
    assert forall|k: int| 0 <= k < es.len() implies {
        let e = #[trigger] es[k];
        &&& e.0 == book_id(maker_side, e.1.price, e.1.order_id)
        &&& book.lookup(e.0) == Some(e.1)
    } by {
        let e = es[k];
        let w = choose|w: int|
            0 <= w < levels.len() && (#[trigger] levels[w]).price == e.1.price && levels[w].slot(
                e.1.order_id,
            ) == Some(e.1);
        store.lemma_index_of(w);
        assert(store.levels_price@[w] == e.1.price);
    }
    assert forall|i: int, j: int| 0 <= i < j < es.len() implies es[i].0 != es[j].0 by {
        assert(precedes(maker_side, es[i].1, es[j].1));
        let ei = es[i];
        let ej = es[j];
        assert(ei.0 == book_id(maker_side, ei.1.price, ei.1.order_id));
        assert(ej.0 == book_id(maker_side, ej.1.price, ej.1.order_id));
    }
}

} // verus!
