use vstd::prelude::*;

use crate::exchange::error::Error;
use crate::exchange::order::{AddField, NewOrder, Order, OrderSide, OrderType};
use crate::exchange::order::Address;
use crate::exchange::orderbook::{book_id, lemma_maker_entries, opposite, OrderBook, OrderBookId};

verus! {

/// How much of an order a match consumed.
#[derive(Debug, Clone, Copy, PartialEq, Eq, Structural)]
pub enum FillStatus {
    Complete,
    Partial,
    Unfilled,
}

/// One resting order that a taker consumes, as planned.
#[derive(Debug, Clone, Copy, PartialEq, Eq, Structural)]
pub struct MakerFill {
    pub oix: OrderBookId,
    pub maker_order: Order,
    pub fill_type: FillStatus,
    pub fill_amount: u128,
}

/// A matching plan: what a taker would consume, not yet applied.
#[derive(Debug)]
pub struct PendingFill {
    pub taker_order: NewOrder,
    pub maker_fills: Vec<MakerFill>,
    pub taker_fill_status: FillStatus,
}

impl PendingFill {
    pub fn new(taker_order: NewOrder, maker_fills: Vec<MakerFill>, taker_fill_status: FillStatus) -> (r: Self)
        ensures
            r.taker_order == taker_order,
            r.maker_fills == maker_fills,
            r.taker_fill_status == taker_fill_status,
    {
        Self { taker_order, maker_fills, taker_fill_status }
    }
}

/// A limit taker accepts this maker's price: a buyer pays at most its
/// price, a seller takes at least its price. Market takers accept any.
pub open spec fn price_acceptable(
    maker: Order,
    taker: NewOrder,
    side: OrderSide,
    order_type: OrderType,
) -> bool {
    !(order_type == OrderType::Limit && ((side == OrderSide::BUY && maker.price > taker.price) || (
    side == OrderSide::SELL && maker.price < taker.price)))
}

/// The fills a taker with `rem` left to trade makes against `entries`, in
/// that order, and what it has left afterwards.
pub open spec fn plan_fills(
    entries: Seq<(OrderBookId, Order)>,
    rem: u128,
    taker: NewOrder,
    side: OrderSide,
    order_type: OrderType,
) -> (Seq<MakerFill>, u128)
    decreases entries.len(),
{
    if entries.len() == 0 {
        (Seq::empty(), rem)
    } else {
        let (oix, o) = entries[0];
        if !price_acceptable(o, taker, side, order_type) {
            plan_fills(entries.drop_first(), rem, taker, side, order_type)
        } else {
            let amount = if o.quantity <= rem {
                o.quantity
            } else {
                rem
            };
            let fill = MakerFill {
                oix,
                maker_order: o,
                fill_type: if amount == o.quantity {
                    FillStatus::Complete
                } else {
                    FillStatus::Partial
                },
                fill_amount: amount,
            };
            if rem == amount {
                (seq![fill], 0)
            } else {
                let rest = plan_fills(
                    entries.drop_first(),
                    (rem - amount) as u128,
                    taker,
                    side,
                    order_type,
                );
                (seq![fill] + rest.0, rest.1)
            }
        }
    }
}

/// The taker's status once `rem` of its `quantity` is left.
pub open spec fn taker_status(rem: u128, quantity: u128) -> FillStatus {
    if rem == quantity {
        FillStatus::Unfilled
    } else if rem == 0 {
        FillStatus::Complete
    } else {
        FillStatus::Partial
    }
}

/// The plan for `taker` on `side` against the resting orders of `book`.
pub open spec fn book_plan(
    book: OrderBook,
    taker: NewOrder,
    side: OrderSide,
    order_type: OrderType,
) -> (Seq<MakerFill>, u128) {
    plan_fills(book.maker_entries(opposite(side)), taker.quantity, taker, side, order_type)
}

/// Sum of the planned amounts.
pub open spec fn fills_total(fills: Seq<MakerFill>) -> int
    decreases fills.len(),
{
    if fills.len() == 0 {
        0
    } else {
        fills_total(fills.drop_last()) + fills.last().fill_amount
    }
}

/// The part of a maker order that a fill consumed.
pub open spec fn filled_portion(f: MakerFill) -> Order {
    Order { quantity: f.fill_amount, ..f.maker_order }
}

/// The filled part of each planned maker order, in plan order.
pub open spec fn filled_portions(fills: Seq<MakerFill>) -> Seq<Order> {
    fills.map_values(|f: MakerFill| filled_portion(f))
}

/// What the book holds under `oix` once `fills` are applied, given that it
/// held `cur` before.
pub open spec fn settled(fills: Seq<MakerFill>, oix: OrderBookId, cur: Option<Order>) -> Option<
    Order,
>
    decreases fills.len(),
{
    if fills.len() == 0 {
        cur
    } else {
        let f = fills.last();
        if f.oix == oix {
            match f.fill_type {
                FillStatus::Complete => None,
                _ => Some(
                    Order {
                        quantity: (f.maker_order.quantity - f.fill_amount) as u128,
                        ..f.maker_order
                    },
                ),
            }
        } else {
            settled(fills.drop_last(), oix, cur)
        }
    }
}

/// `fills` can be applied to `book` by a taker with `rem` to trade: they
/// name distinct resting orders as the book holds them, a complete fill
/// takes the whole order, a partial one takes what the taker has left and
/// less than the order, and together they take at most `rem`.
pub open spec fn plan_applicable(book: OrderBook, fills: Seq<MakerFill>, rem: u128) -> bool {
    &&& forall|i: int, j: int| 0 <= i < j < fills.len() ==> fills[i].oix != fills[j].oix
    &&& forall|i: int|
        0 <= i < fills.len() ==> book.lookup((#[trigger] fills[i]).oix) == Some(fills[i].maker_order)
    &&& forall|i: int|
        0 <= i < fills.len() ==> match (#[trigger] fills[i]).fill_type {
            FillStatus::Complete => fills[i].fill_amount == fills[i].maker_order.quantity,
            FillStatus::Partial => fills[i].fill_amount == rem - fills_total(fills.take(i))
                && fills[i].fill_amount < fills[i].maker_order.quantity,
            FillStatus::Unfilled => false,
        }
    &&& fills_total(fills) <= rem
}

/// The plan is internally sound for a taker with `rem` to trade: its fills
/// name distinct orders, each as the book holds it where the book still
/// holds it, with amounts as a plan makes them.
pub open spec fn plan_consistent(book: OrderBook, fills: Seq<MakerFill>, rem: u128) -> bool {
    &&& forall|i: int, j: int| 0 <= i < j < fills.len() ==> fills[i].oix != fills[j].oix
    &&& forall|i: int|
        0 <= i < fills.len() && book.lookup((#[trigger] fills[i]).oix) is Some ==> book.lookup(
            fills[i].oix,
        ) == Some(fills[i].maker_order)
    &&& forall|i: int|
        0 <= i < fills.len() ==> match (#[trigger] fills[i]).fill_type {
            FillStatus::Complete => fills[i].fill_amount == fills[i].maker_order.quantity,
            FillStatus::Partial => fills[i].fill_amount == rem - fills_total(fills.take(i))
                && fills[i].fill_amount < fills[i].maker_order.quantity,
            FillStatus::Unfilled => false,
        }
    &&& fills_total(fills) <= rem
}

/// Every order the plan names still rests in the book.
pub open spec fn plan_present(book: OrderBook, fills: Seq<MakerFill>) -> bool {
    forall|i: int| 0 <= i < fills.len() ==> (#[trigger] book.lookup(fills[i].oix)) is Some
}

/// Plans how `taker` on `side` would match against `orderbook`, without
/// changing anything.
pub fn fill_order(
    orderbook: &OrderBook,
    taker: NewOrder,
    side: OrderSide,
    order_type: OrderType,
) -> (r: Result<PendingFill, Error>)
    ensures
        r matches Ok(p) && p.taker_order == taker && p.maker_fills@ == book_plan(
            *orderbook,
            taker,
            side,
            order_type,
        ).0 && p.taker_fill_status == taker_status(
            book_plan(*orderbook, taker, side, order_type).1,
            taker.quantity,
        ),
{
    let mut maker_fills: Vec<MakerFill> = Vec::new();
    let mut taker_rem_q = taker.quantity;
    let maker_side = match side {
        OrderSide::BUY => OrderSide::SELL,
        OrderSide::SELL => OrderSide::BUY,
    };
    let makers = orderbook.maker_orders_iter(maker_side);
    let ghost entries = makers@;
    let ghost full = plan_fills(entries, taker.quantity, taker, side, order_type);
    let mut i: usize = 0;
    proof {
        assert(entries.subrange(0, entries.len() as int) == entries);
        assert(maker_fills@ + full.0 == full.0);
    }
    while i < makers.len()
        invariant
            entries == makers@,
            0 <= i <= makers@.len(),
            full == (
                maker_fills@ + plan_fills(
                    entries.subrange(i as int, entries.len() as int),
                    taker_rem_q,
                    taker,
                    side,
                    order_type,
                ).0,
                plan_fills(
                    entries.subrange(i as int, entries.len() as int),
                    taker_rem_q,
                    taker,
                    side,
                    order_type,
                ).1,
            ),
        decreases makers@.len() - i,
    {
        let (oix, order) = makers[i];
        proof {
            let s = entries.subrange(i as int, entries.len() as int);
            assert(s[0] == entries[i as int]);
            assert(s.drop_first() == entries.subrange(i + 1, entries.len() as int));
        }
        let acceptable = match order_type {
            OrderType::Market => true,
            OrderType::Limit => match side {
                OrderSide::BUY => order.price <= taker.price,
                OrderSide::SELL => order.price >= taker.price,
            },
        };
        if !acceptable {
            i += 1;
            continue;
        }
        let fill_amount = if order.quantity <= taker_rem_q {
            order.quantity
        } else {
            taker_rem_q
        };
        let fill_type = if fill_amount == order.quantity {
            FillStatus::Complete
        } else {
            FillStatus::Partial
        };
        let ghost before = maker_fills@;
        maker_fills.push(MakerFill { oix, maker_order: order, fill_type, fill_amount });
        if taker_rem_q == fill_amount {
            taker_rem_q = 0;
            proof {
                assert(maker_fills@ == before + seq![maker_fills@.last()]);
                assert(maker_fills@ + Seq::<MakerFill>::empty() == maker_fills@);
            }
            i = makers.len();
            proof {
                assert(entries.subrange(i as int, entries.len() as int).len() == 0);
            }
        } else {
            proof {
                let rest = plan_fills(
                    entries.subrange(i + 1, entries.len() as int),
                    (taker_rem_q - fill_amount) as u128,
                    taker,
                    side,
                    order_type,
                );
                assert(before + (seq![maker_fills@.last()] + rest.0) == maker_fills@ + rest.0);
            }
            taker_rem_q -= fill_amount;
            i += 1;
        }
    }
    proof {
        assert(entries.subrange(i as int, entries.len() as int).len() == 0);
        assert(maker_fills@ + Seq::<MakerFill>::empty() == maker_fills@);
    }
    let taker_fill_status = if taker_rem_q == taker.quantity {
        FillStatus::Unfilled
    } else if taker_rem_q == 0 {
        FillStatus::Complete
    } else {
        FillStatus::Partial
    };
    Ok(PendingFill::new(taker, maker_fills, taker_fill_status))
}

/// Applies a plan whose orders all still rest in the book: complete fills
/// leave it, a partial fill is reduced in place. Returns the taker's status,
/// what is left of it, and the filled part of each maker order.
fn commit_fills(
    order_book: &mut OrderBook,
    pending_fill: PendingFill,
    Ghost(maker_side): Ghost<OrderSide>,
) -> (r: (
    FillStatus,
    Option<NewOrder>,
    Vec<Order>,
))
    requires
        old(order_book).wf(),
        plan_applicable(*old(order_book), pending_fill.maker_fills@, pending_fill.taker_order.quantity),
        forall|k: int|
            0 <= k < pending_fill.maker_fills@.len() ==> (#[trigger] pending_fill.maker_fills@[k]).oix.side()
                == maker_side,
        pending_fill.taker_fill_status == taker_status(
            (pending_fill.taker_order.quantity - fills_total(pending_fill.maker_fills@)) as u128,
            pending_fill.taker_order.quantity,
        ),
    ensures
        final(order_book).wf(),
        final(order_book).orders_of(opposite(maker_side)) == old(order_book).orders_of(
            opposite(maker_side),
        ),
        r.0 == pending_fill.taker_fill_status,
        r.1 == if fills_total(pending_fill.maker_fills@) < pending_fill.taker_order.quantity {
            Some(
                NewOrder {
                    quantity: (pending_fill.taker_order.quantity - fills_total(
                        pending_fill.maker_fills@,
                    )) as u128,
                    ..pending_fill.taker_order
                },
            )
        } else {
            None
        },
        r.2@ == filled_portions(pending_fill.maker_fills@),
        forall|oix: OrderBookId| #[trigger]
            final(order_book).lookup(oix) == settled(
                pending_fill.maker_fills@,
                oix,
                old(order_book).lookup(oix),
            ),
{
    let ghost q = pending_fill.taker_order.quantity;
    let ghost fills = pending_fill.maker_fills@;
    let ghost start = *order_book;
    let mut taker_order_remaining_quantity = pending_fill.taker_order.quantity;
    let mut maker_orders: Vec<Order> = Vec::new();
    let mut i: usize = 0;
    proof {
        assert(fills.take(0) == Seq::<MakerFill>::empty());
        assert(maker_orders@ == filled_portions(fills.take(0)));
    }
    while i < pending_fill.maker_fills.len()
        invariant
            fills == pending_fill.maker_fills@,
            q == pending_fill.taker_order.quantity,
            start.wf(),
            plan_applicable(start, fills, q),
            forall|k: int| 0 <= k < fills.len() ==> (#[trigger] fills[k]).oix.side() == maker_side,
            order_book.wf(),
            order_book.orders_of(opposite(maker_side)) == start.orders_of(opposite(maker_side)),
            0 <= i <= fills.len(),
            taker_order_remaining_quantity == q - fills_total(fills.take(i as int)),
            forall|oix: OrderBookId| #[trigger]
                order_book.lookup(oix) == settled(fills.take(i as int), oix, start.lookup(oix)),
            maker_orders@ == filled_portions(fills.take(i as int)),
        decreases fills.len() - i,
    {
        let fill = pending_fill.maker_fills[i];
        let MakerFill { oix, maker_order: order, fill_type, fill_amount } = fill;
        proof {
            lemma_fills_total_prefix(fills, i as int);
            assert(fills.take(i + 1).drop_last() == fills.take(i as int));
            assert(fills.take(i + 1).last() == fill);
            lemma_settled_untouched(fills.take(i as int), oix, start.lookup(oix));
            assert(order_book.lookup(oix) == Some(order));
            if i + 1 < fills.len() {
                lemma_fills_total_prefix(fills, i + 1);
            } else {
                assert(fills.take(i + 1) == fills);
            }
        }
        match fill_type {
            FillStatus::Complete => {
                let removed = order_book.remove_order(oix);
                let maker_order = match removed {
                    Ok(o) => o,
                    Err(_) => {
                        proof {
                            assert(false);
                        }
                        order
                    },
                };
                taker_order_remaining_quantity -= maker_order.quantity;
                maker_orders.push(maker_order);
            },
            FillStatus::Partial => {
                let mut maker_order = order;
                maker_order.quantity -= taker_order_remaining_quantity;
                let _ = order_book.update_order(oix, maker_order);
                let mut maker_order_fill = order;
                maker_order_fill.quantity -= maker_order.quantity;
                maker_orders.push(maker_order_fill);
                taker_order_remaining_quantity = 0;
            },
            FillStatus::Unfilled => {
                proof {
                    assert(false);
                }
            },
        }
        proof {
            assert(maker_orders@ == filled_portions(fills.take(i + 1)));
            assert forall|o: OrderBookId| #[trigger]
                order_book.lookup(o) == settled(fills.take(i + 1), o, start.lookup(o)) by {
            }
        }
        i += 1;
    }
    proof {
        assert(fills.take(i as int) == fills);
    }
    let taker_order = if taker_order_remaining_quantity > 0 {
        let mut taker_order = pending_fill.taker_order;
        taker_order.quantity = taker_order_remaining_quantity;
        Some(taker_order)
    } else {
        None
    };
    (pending_fill.taker_fill_status, taker_order, maker_orders)
}

proof fn lemma_fills_total_prefix(fills: Seq<MakerFill>, i: int)
    requires
        0 <= i < fills.len(),
    ensures
        fills_total(fills.take(i + 1)) == fills_total(fills.take(i)) + fills[i].fill_amount,
        fills_total(fills.take(i)) <= fills_total(fills),
        fills_total(fills.take(i)) >= 0,
    decreases fills.len() - i,
{
    assert(fills.take(i + 1).drop_last() == fills.take(i));
    lemma_fills_total_nonneg(fills.take(i));
    if i + 1 < fills.len() {
        lemma_fills_total_prefix(fills, i + 1);
    } else {
        assert(fills.take(i + 1) == fills);
    }
}

proof fn lemma_fills_total_nonneg(fills: Seq<MakerFill>)
    ensures
        fills_total(fills) >= 0,
    decreases fills.len(),
{
    if fills.len() > 0 {
        lemma_fills_total_nonneg(fills.drop_last());
    }
}

/// A resting order that no fill names is left as it was.
proof fn lemma_settled_untouched(fills: Seq<MakerFill>, oix: OrderBookId, cur: Option<Order>)
    requires
        forall|k: int| 0 <= k < fills.len() ==> (#[trigger] fills[k]).oix != oix,
    ensures
        settled(fills, oix, cur) == cur,
    decreases fills.len(),
{
    if fills.len() > 0 {
        assert(fills.last() == fills[fills.len() - 1]);
        lemma_settled_untouched(fills.drop_last(), oix, cur);
    }
}

proof fn lemma_fills_total_single(f: MakerFill)
    ensures
        fills_total(seq![f]) == f.fill_amount,
{
    assert(seq![f].drop_last() == Seq::<MakerFill>::empty());
    assert(fills_total(Seq::<MakerFill>::empty()) == 0);
    assert(seq![f].last() == f);
}

proof fn lemma_fills_total_cons(f: MakerFill, s: Seq<MakerFill>)
    ensures
        fills_total(seq![f] + s) == f.fill_amount + fills_total(s),
    decreases s.len(),
{
    if s.len() > 0 {
        assert((seq![f] + s).drop_last() == seq![f] + s.drop_last());
        assert((seq![f] + s).last() == s.last());
        lemma_fills_total_cons(f, s.drop_last());
    } else {
        assert(seq![f] + s == seq![f]);
        lemma_fills_total_single(f);
    }
}

/// A plan made against entries that name distinct orders, each as the book
/// holds it, can be applied to the book, and leaves the taker with what
/// its fills did not take.
proof fn lemma_plan_applicable(
    book: OrderBook,
    entries: Seq<(OrderBookId, Order)>,
    rem: u128,
    taker: NewOrder,
    side: OrderSide,
    order_type: OrderType,
)
    requires
        forall|i: int, j: int| 0 <= i < j < entries.len() ==> entries[i].0 != entries[j].0,
        forall|k: int| 0 <= k < entries.len() ==> book.lookup((#[trigger] entries[k]).0) == Some(entries[k].1),
    ensures
        plan_applicable(book, plan_fills(entries, rem, taker, side, order_type).0, rem),
        plan_fills(entries, rem, taker, side, order_type).1 == rem - fills_total(
            plan_fills(entries, rem, taker, side, order_type).0,
        ),
        forall|i: int|
            0 <= i < plan_fills(entries, rem, taker, side, order_type).0.len() ==> exists|k: int|
                0 <= k < entries.len() && (#[trigger] plan_fills(
                    entries,
                    rem,
                    taker,
                    side,
                    order_type,
                ).0[i]).oix == entries[k].0,
    decreases entries.len(),
{
    let p = plan_fills(entries, rem, taker, side, order_type);
    if entries.len() == 0 {
        return;
    }
    let rest_e = entries.drop_first();
    assert forall|i: int, j: int| 0 <= i < j < rest_e.len() implies rest_e[i].0 != rest_e[j].0 by {
        assert(rest_e[i] == entries[i + 1] && rest_e[j] == entries[j + 1]);
    }
    assert forall|k: int| 0 <= k < rest_e.len() implies book.lookup((#[trigger] rest_e[k]).0) == Some(
        rest_e[k].1,
    ) by {
        assert(rest_e[k] == entries[k + 1]);
    }
    let (oix, o) = entries[0];
    if !price_acceptable(o, taker, side, order_type) {
        lemma_plan_applicable(book, rest_e, rem, taker, side, order_type);
        let q = plan_fills(rest_e, rem, taker, side, order_type);
        assert forall|i: int| 0 <= i < p.0.len() implies exists|k: int|
            0 <= k < entries.len() && (#[trigger] p.0[i]).oix == entries[k].0 by {
            let k = choose|k: int| 0 <= k < rest_e.len() && (#[trigger] q.0[i]).oix == rest_e[k].0;
            assert(entries[k + 1] == rest_e[k]);
        }
        return;
    }
    let amount = if o.quantity <= rem {
        o.quantity
    } else {
        rem
    };
    let fill = p.0[0];
    assert(book.lookup(entries[0].0) == Some(entries[0].1));
    if rem == amount {
        assert(p.0 == seq![fill]);
        assert(seq![fill].take(0) == Seq::<MakerFill>::empty());
        assert(seq![fill].drop_last() == Seq::<MakerFill>::empty());
        lemma_fills_total_single(fill);
        assert(p.0[0].oix == entries[0].0);
    } else {
        let r2 = (rem - amount) as u128;
        lemma_plan_applicable(book, rest_e, r2, taker, side, order_type);
        let q = plan_fills(rest_e, r2, taker, side, order_type);
        assert(p.0 == seq![fill] + q.0);
        lemma_fills_total_cons(fill, q.0);
        assert forall|i: int| 0 <= i < p.0.len() implies exists|k: int|
            0 <= k < entries.len() && (#[trigger] p.0[i]).oix == entries[k].0 by {
            if i == 0 {
                assert(p.0[0].oix == entries[0].0);
            } else {
                assert(p.0[i] == q.0[i - 1]);
                let k = choose|k: int| 0 <= k < rest_e.len() && (#[trigger] q.0[i - 1]).oix == rest_e[k].0;
                assert(entries[k + 1] == rest_e[k]);
            }
        }
        assert forall|i: int, j: int| 0 <= i < j < p.0.len() implies p.0[i].oix != p.0[j].oix by {
            assert(p.0[j] == q.0[j - 1]);
            if i == 0 {
                let k = choose|k: int| 0 <= k < rest_e.len() && (#[trigger] q.0[j - 1]).oix == rest_e[k].0;
                assert(entries[k + 1] == rest_e[k]);
            } else {
                assert(p.0[i] == q.0[i - 1]);
            }
        }
        assert forall|i: int| 0 <= i < p.0.len() implies book.lookup((#[trigger] p.0[i]).oix) == Some(
            p.0[i].maker_order,
        ) by {
            if i > 0 {
                assert(p.0[i] == q.0[i - 1]);
            }
        }
        assert forall|i: int| 0 <= i < p.0.len() implies match (#[trigger] p.0[i]).fill_type {
            FillStatus::Complete => p.0[i].fill_amount == p.0[i].maker_order.quantity,
            FillStatus::Partial => p.0[i].fill_amount == rem - fills_total(p.0.take(i))
                && p.0[i].fill_amount < p.0[i].maker_order.quantity,
            FillStatus::Unfilled => false,
        } by {
            if i == 0 {
                assert(p.0.take(0) == Seq::<MakerFill>::empty());
            } else {
                assert(p.0[i] == q.0[i - 1]);
                assert(p.0.take(i) == seq![fill] + q.0.take(i - 1));
                lemma_fills_total_cons(fill, q.0.take(i - 1));
            }
        }
    }
}

/// What `book` holds under `oix` once `order` of `account` has been placed:
/// the planned fills applied, and a limit order's unfilled rest resting
/// under the next id at its price.
pub open spec fn book_after_placement(
    book: OrderBook,
    order: NewOrder,
    side: OrderSide,
    order_type: OrderType,
    account: Address,
    oix: OrderBookId,
) -> Option<Order> {
    let plan = book_plan(book, order, side, order_type);
    let placed_id = book_id(side, order.price, book.orders_of(side).next_id_at(order.price) as u64);
    if order_type == OrderType::Limit && plan.1 > 0 && oix == placed_id {
        Some(
            NewOrder { quantity: plan.1, ..order }.spec_into_order(account).spec_into_order(
                oix.level_id().id,
            ),
        )
    } else {
        settled(plan.0, oix, book.lookup(oix))
    }
}

/// Applies a plan to the book after checking that every order it names
/// still rests there; if one does not, fails with `InvalidOrderId` before
/// any change. Complete fills leave the book, a partial one is reduced in
/// place. Returns the taker's status, what is left of it, and the filled
/// part of each maker order.
fn finalize_matching(
    order_book: &mut OrderBook,
    pending_fill: PendingFill,
    Ghost(maker_side): Ghost<OrderSide>,
) -> (r: Result<(FillStatus, Option<NewOrder>, Vec<Order>), Error>)
    requires
        old(order_book).wf(),
        plan_consistent(*old(order_book), pending_fill.maker_fills@, pending_fill.taker_order.quantity),
        forall|k: int|
            0 <= k < pending_fill.maker_fills@.len() ==> (#[trigger] pending_fill.maker_fills@[k]).oix.side()
                == maker_side,
        pending_fill.taker_fill_status == taker_status(
            (pending_fill.taker_order.quantity - fills_total(pending_fill.maker_fills@)) as u128,
            pending_fill.taker_order.quantity,
        ),
    ensures
        final(order_book).wf(),
        r is Err <==> !plan_present(*old(order_book), pending_fill.maker_fills@),
        r is Err ==> r == Err::<(FillStatus, Option<NewOrder>, Vec<Order>), Error>(Error::InvalidOrderId)
            && *final(order_book) == *old(order_book),
        r matches Ok(x) ==> {
            &&& final(order_book).orders_of(opposite(maker_side)) == old(order_book).orders_of(
                opposite(maker_side),
            )
            &&& x.0 == pending_fill.taker_fill_status
            &&& x.1 == if fills_total(pending_fill.maker_fills@) < pending_fill.taker_order.quantity {
                Some(
                    NewOrder {
                        quantity: (pending_fill.taker_order.quantity - fills_total(
                            pending_fill.maker_fills@,
                        )) as u128,
                        ..pending_fill.taker_order
                    },
                )
            } else {
                None
            }
            &&& x.2@ == filled_portions(pending_fill.maker_fills@)
            &&& forall|oix: OrderBookId| #[trigger]
                final(order_book).lookup(oix) == settled(
                    pending_fill.maker_fills@,
                    oix,
                    old(order_book).lookup(oix),
                )
        },
{
    let mut i: usize = 0;
    while i < pending_fill.maker_fills.len()
        invariant
            order_book.wf(),
            *order_book == *old(order_book),
            0 <= i <= pending_fill.maker_fills@.len(),
            forall|k: int| 0 <= k < i ==> (#[trigger] order_book.lookup(pending_fill.maker_fills@[k].oix)) is Some,
        decreases pending_fill.maker_fills@.len() - i,
    {
        if order_book.try_get(pending_fill.maker_fills[i].oix).is_err() {
            return Err(Error::InvalidOrderId);
        }
        i += 1;
    }
    Ok(commit_fills(order_book, pending_fill, Ghost(maker_side)))
}

/// Matches `order` against the book and commits the result. What a limit
/// order does not fill rests on its own side under the next id at its
/// price; what a market order does not fill is dropped. Returns the resting
/// id with the unfilled remainder, and the filled part of each maker order
/// in matching order.
pub fn place_order(
    order_book: &mut OrderBook,
    order_type: OrderType,
    side: OrderSide,
    order: NewOrder,
    account: Address,
) -> (r: Result<(Option<(OrderBookId, NewOrder)>, Vec<Order>), Error>)
    requires
        old(order_book).wf(),
        old(order_book).orders_of(side).room_for(order.price),
    ensures
        final(order_book).wf(),
        r is Ok,
        r matches Ok((placed, filled)) && {
            let plan = book_plan(*old(order_book), order, side, order_type);
            &&& filled@ == filled_portions(plan.0)
            &&& placed == if order_type == OrderType::Limit && plan.1 > 0 {
                Some(
                    (
                        book_id(
                            side,
                            order.price,
                            old(order_book).orders_of(side).next_id_at(order.price) as u64,
                        ),
                        NewOrder { quantity: plan.1, ..order },
                    ),
                )
            } else {
                None
            }
            &&& forall|oix: OrderBookId| #[trigger]
                final(order_book).lookup(oix) == book_after_placement(
                    *old(order_book),
                    order,
                    side,
                    order_type,
                    account,
                    oix,
                )
        },
{
    let ghost start = *order_book;
    let pending_fill = match fill_order(order_book, order, side, order_type) {
        Ok(p) => p,
        Err(e) => {
            proof {
                assert(false);
            }
            return Err(e);
        },
    };
    let ghost plan = book_plan(start, order, side, order_type);
    proof {
        let ms = opposite(side);
        lemma_maker_entries(start, ms);
        lemma_plan_applicable(start, start.maker_entries(ms), order.quantity, order, side, order_type);
        lemma_fills_total_nonneg(plan.0);
    }
    proof {
        let es = start.maker_entries(opposite(side));
        assert forall|k: int| 0 <= k < plan.0.len() implies (#[trigger] plan.0[k]).oix.side() == opposite(
            side,
        ) by {
            let w = choose|w: int| 0 <= w < es.len() && (#[trigger] plan.0[k]).oix == es[w].0;
            assert(es[w].0 == book_id(opposite(side), es[w].1.price, es[w].1.order_id));
        }
        assert(opposite(opposite(side)) == side);
    }
    let (_, taker_order, maker_orders) = match finalize_matching(
        order_book,
        pending_fill,
        Ghost(opposite(side)),
    ) {
        Ok(x) => x,
        Err(e) => {
            proof {
                assert(plan_present(start, plan.0));
            }
            return Err(e);
        },
    };
    let ghost mid = *order_book;
    proof {
        // No fill names an order of the taker's own side.
        assert forall|p: u128, i: u64| #[trigger] mid.orders_of(side).lookup(p, i) == start.orders_of(
            side,
        ).lookup(p, i) by {
            let oix = book_id(side, p, i);
            assert(oix.side() == side && oix.level_id().price == p && oix.level_id().id == i);
            if exists|k: int| 0 <= k < plan.0.len() && (#[trigger] plan.0[k]).oix == oix {
                let k = choose|k: int| 0 <= k < plan.0.len() && (#[trigger] plan.0[k]).oix == oix;
                let es = start.maker_entries(opposite(side));
                let w = choose|w: int| 0 <= w < es.len() && (#[trigger] plan.0[k]).oix == es[w].0;
                assert(es[w].0 == book_id(opposite(side), es[w].1.price, es[w].1.order_id));
            }
            lemma_settled_untouched(plan.0, oix, start.lookup(oix));
        }
    }
    match taker_order {
        Some(rest) => {
            match order_type {
                OrderType::Limit => {
                    let new_account_order = rest.into_order(account);
                    let order_id = match side {
                        OrderSide::BUY => order_book.add_buy_order(new_account_order),
                        OrderSide::SELL => order_book.add_sell_order(new_account_order),
                    };
                    proof {
                        assert forall|oix: OrderBookId| #[trigger] order_book.lookup(oix) == if oix == order_id {
                            Some(new_account_order.spec_into_order(oix.level_id().id))
                        } else {
                            settled(plan.0, oix, start.lookup(oix))
                        } by {
                            if oix != order_id {
                                assert(order_book.lookup(oix) == mid.lookup(oix));
                            }
                        }
                    }
                    Ok((Some((order_id, rest)), maker_orders))
                },
                OrderType::Market => Ok((None, maker_orders)),
            }
        },
        None => Ok((None, maker_orders)),
    }
}

} // verus!
