use vstd::prelude::*;

use crate::exchange::error::Error;
use crate::exchange::order::{Address, NewOrder, Order, OrderSide};
use crate::exchange::user_balance_manager::{
    balances_in, BalanceLedger, UserBalanceManager, UserBalances,
};
use crate::table::AccountToken;

verus! {

pub open spec fn pow10(n: nat) -> nat
    decreases n,
{
    if n == 0 {
        1
    } else {
        10 * pow10((n - 1) as nat)
    }
}

/// The quote amount of `quantity` base units at `price`: the product over
/// `10^decimals`, rounded toward zero; `None` when the product or the
/// divisor exceed `u128`, or the amount exceeds `i128`.
pub open spec fn quote_amount(price: u128, quantity: u128, decimals: u32) -> Option<int> {
    if price * quantity > u128::MAX || pow10(decimals as nat) > u128::MAX {
        None
    } else if (price * quantity) / (pow10(decimals as nat) as int) > i128::MAX {
        None
    } else {
        Some((price * quantity) / (pow10(decimals as nat) as int))
    }
}

/// The base amount of `quantity`, as a signed amount.
pub open spec fn base_amount(quantity: u128) -> Option<int> {
    if quantity > i128::MAX {
        None
    } else {
        Some(quantity as int)
    }
}

pub open spec fn amount_result(a: Option<int>) -> Result<i128, Error> {
    match a {
        Some(v) => Ok(v as i128),
        None => Err(Error::IncorrectPrecisionCalculation),
    }
}

/// Quote amount of `quantity` at `price` for a base token with `decimals`.
pub fn multiply_price_and_quantity(price: u128, quantity: u128, decimals: u32) -> (r: Result<
    i128,
    Error,
>)
    ensures
        r == amount_result(quote_amount(price, quantity, decimals)),
{
    let product = match price.checked_mul(quantity) {
        Some(p) => p,
        None => return Err(Error::IncorrectPrecisionCalculation),
    };
    let mut divisor: u128 = 1;
    let mut i: u32 = 0;
    while i < decimals
        invariant
            0 <= i <= decimals,
            divisor == pow10(i as nat),
        decreases decimals - i,
    {
        proof {
            lemma_pow10_grows(i as nat, decimals as nat);
        }
        divisor = match divisor.checked_mul(10) {
            Some(d) => d,
            None => return Err(Error::IncorrectPrecisionCalculation),
        };
        i += 1;
    }
    proof {
        lemma_pow10_positive(decimals as nat);
    }
    let amount = product / divisor;
    if amount > i128::MAX as u128 {
        return Err(Error::IncorrectPrecisionCalculation);
    }
    Ok(amount as i128)
}

proof fn lemma_pow10_positive(n: nat)
    ensures
        pow10(n) >= 1,
    decreases n,
{
    if n > 0 {
        lemma_pow10_positive((n - 1) as nat);
    }
}

proof fn lemma_pow10_grows(i: nat, n: nat)
    requires
        i < n,
    ensures
        pow10(n) >= 10 * pow10(i),
    decreases n - i,
{
    lemma_pow10_positive(i);
    if i + 1 < n {
        lemma_pow10_grows(i + 1, n);
        lemma_pow10_positive(i + 1);
    }
}

/// The base amount of `quantity`; price and decimals play no part.
pub fn return_quantity(_price: u128, quantity: u128, _decimals: u32) -> (r: Result<i128, Error>)
    ensures
        r == amount_result(base_amount(quantity)),
{
    if quantity > i128::MAX as u128 {
        Err(Error::IncorrectPrecisionCalculation)
    } else {
        Ok(quantity as i128)
    }
}

/// `v` reduced by `amount`: fails when it would fall below zero.
pub open spec fn spec_debit(v: i128, amount: i128) -> Result<i128, Error> {
    if v - amount < 0 {
        Err(Error::BalanceNotEnough)
    } else if v - amount > i128::MAX {
        Err(Error::IncorrectPrecisionCalculation)
    } else {
        Ok((v - amount) as i128)
    }
}

/// `v` increased by `amount`: fails when it would leave `i128` or fall
/// below zero.
pub open spec fn spec_credit(v: i128, amount: i128) -> Result<i128, Error> {
    if v + amount > i128::MAX {
        Err(Error::IncorrectPrecisionCalculation)
    } else if v + amount < 0 {
        Err(Error::BalanceNotEnough)
    } else {
        Ok((v + amount) as i128)
    }
}

pub fn debit(v: i128, amount: i128) -> (r: Result<i128, Error>)
    ensures
        r == spec_debit(v, amount),
{
    match v.checked_sub(amount) {
        Some(x) => if x < 0 {
            Err(Error::BalanceNotEnough)
        } else {
            Ok(x)
        },
        None => if amount > 0 {
            Err(Error::BalanceNotEnough)
        } else {
            Err(Error::IncorrectPrecisionCalculation)
        },
    }
}

pub fn credit(v: i128, amount: i128) -> (r: Result<i128, Error>)
    ensures
        r == spec_credit(v, amount),
{
    match v.checked_add(amount) {
        Some(x) => if x < 0 {
            Err(Error::BalanceNotEnough)
        } else {
            Ok(x)
        },
        None => if amount > 0 {
            Err(Error::IncorrectPrecisionCalculation)
        } else {
            Err(Error::BalanceNotEnough)
        },
    }
}

/// The token roles and amount rules of one taker side on a trading pair
/// `(base, quote)`: a buyer pays quote and receives base, a seller the
/// reverse, and each maker mirrors the taker.
#[derive(Debug, Clone, Copy)]
pub struct PayOffWithSides {
    pub token_to_withdraw: Address,
    pub token_to_receive: Address,
    pub side: OrderSide,
    pub base_token_decimals: u32,
}

impl PayOffWithSides {
    pub proof fn lemma_calc_nonneg(&self, price: u128, quantity: u128)
        ensures
            self.withdraw_calc(price, quantity) matches Some(v) ==> 0 <= v <= i128::MAX,
            self.receive_calc(price, quantity) matches Some(v) ==> 0 <= v <= i128::MAX,
    {
        lemma_pow10_positive(self.base_token_decimals as nat);
        let d = pow10(self.base_token_decimals as nat) as int;
        assert((price * quantity) >= 0) by (nonlinear_arith);
        assert((price * quantity) / d >= 0) by (nonlinear_arith)
            requires
                d >= 1,
                price * quantity >= 0,
        ;
    }

    /// What the taker pays for `quantity` at `price`.
    pub open spec fn withdraw_calc(&self, price: u128, quantity: u128) -> Option<int> {
        match self.side {
            OrderSide::BUY => quote_amount(price, quantity, self.base_token_decimals),
            OrderSide::SELL => base_amount(quantity),
        }
    }

    /// What the taker receives for `quantity` at `price`.
    pub open spec fn receive_calc(&self, price: u128, quantity: u128) -> Option<int> {
        match self.side {
            OrderSide::BUY => base_amount(quantity),
            OrderSide::SELL => quote_amount(price, quantity, self.base_token_decimals),
        }
    }

    pub open spec fn new_spec(side: OrderSide, trading_pair: (Address, Address), base_token_decimals: u32) -> Self {
        match side {
            OrderSide::BUY => PayOffWithSides {
                token_to_withdraw: trading_pair.1,
                token_to_receive: trading_pair.0,
                side,
                base_token_decimals,
            },
            OrderSide::SELL => PayOffWithSides {
                token_to_withdraw: trading_pair.0,
                token_to_receive: trading_pair.1,
                side,
                base_token_decimals,
            },
        }
    }

    pub fn new(side: OrderSide, trading_pair: &(Address, Address), base_token_decimals: u32) -> (r: Self)
        ensures
            r == Self::new_spec(side, *trading_pair, base_token_decimals),
            r.side == side,
            r.base_token_decimals == base_token_decimals,
            r.token_to_withdraw == match side {
                OrderSide::BUY => trading_pair.1,
                OrderSide::SELL => trading_pair.0,
            },
            r.token_to_receive == match side {
                OrderSide::BUY => trading_pair.0,
                OrderSide::SELL => trading_pair.1,
            },
    {
        match side {
            OrderSide::BUY => Self {
                token_to_withdraw: trading_pair.1,
                token_to_receive: trading_pair.0,
                side,
                base_token_decimals,
            },
            OrderSide::SELL => Self {
                token_to_withdraw: trading_pair.0,
                token_to_receive: trading_pair.1,
                side,
                base_token_decimals,
            },
        }
    }

    pub fn taker_withdraw_token(&self) -> (r: Address)
        ensures
            r == self.token_to_withdraw,
    {
        self.token_to_withdraw
    }

    pub fn taker_receive_token(&self) -> (r: Address)
        ensures
            r == self.token_to_receive,
    {
        self.token_to_receive
    }

    pub fn maker_withdraw_token(&self) -> (r: Address)
        ensures
            r == self.token_to_receive,
    {
        self.token_to_receive
    }

    pub fn maker_receive_token(&self) -> (r: Address)
        ensures
            r == self.token_to_withdraw,
    {
        self.token_to_withdraw
    }

    fn withdraw_calculation(&self, price: u128, quantity: u128) -> (r: Result<i128, Error>)
        ensures
            r == amount_result(self.withdraw_calc(price, quantity)),
    {
        match self.side {
            OrderSide::BUY => multiply_price_and_quantity(price, quantity, self.base_token_decimals),
            OrderSide::SELL => return_quantity(price, quantity, self.base_token_decimals),
        }
    }

    fn receive_calculation(&self, price: u128, quantity: u128) -> (r: Result<i128, Error>)
        ensures
            r == amount_result(self.receive_calc(price, quantity)),
    {
        match self.side {
            OrderSide::BUY => return_quantity(price, quantity, self.base_token_decimals),
            OrderSide::SELL => multiply_price_and_quantity(price, quantity, self.base_token_decimals),
        }
    }

    pub fn taker_withdraw_amount(&self, price: u128, quantity: u128) -> (r: Result<i128, Error>)
        ensures
            r == amount_result(self.withdraw_calc(price, quantity)),
    {
        self.withdraw_calculation(price, quantity)
    }

    pub fn maker_withdraw_amount(&self, price: u128, quantity: u128) -> (r: Result<i128, Error>)
        ensures
            r == amount_result(self.receive_calc(price, quantity)),
    {
        self.receive_calculation(price, quantity)
    }

    pub fn taker_receive_amount(&self, price: u128, quantity: u128) -> (r: Result<i128, Error>)
        ensures
            r == amount_result(self.receive_calc(price, quantity)),
    {
        self.receive_calculation(price, quantity)
    }

    pub fn maker_receive_amount(&self, price: u128, quantity: u128) -> (r: Result<i128, Error>)
        ensures
            r == amount_result(self.withdraw_calc(price, quantity)),
    {
        self.withdraw_calculation(price, quantity)
    }

    /// Settles one maker: the filled part leaves its reserve in the token
    /// it gives, and what it gets lands in its spendable balance.
    pub open spec fn maker_step(&self, m: Map<AccountToken, UserBalances>, o: Order) -> Result<
        Map<AccountToken, UserBalances>,
        Error,
    > {
        let wk = AccountToken { user: o.account, token: self.token_to_receive };
        let rk = AccountToken { user: o.account, token: self.token_to_withdraw };
        let wb = balances_in(m, o.account, self.token_to_receive);
        match amount_result(self.receive_calc(o.price, o.quantity)) {
            Err(e) => Err(e),
            Ok(w) => match spec_debit(wb.balance_in_trading, w) {
                Err(e) => Err(e),
                Ok(t) => {
                    let m1 = m.insert(wk, UserBalances { balance_in_trading: t, ..wb });
                    let rb = balances_in(m1, o.account, self.token_to_withdraw);
                    match amount_result(self.withdraw_calc(o.price, o.quantity)) {
                        Err(e) => Err(e),
                        Ok(g) => match spec_credit(rb.balance, g) {
                            Err(e) => Err(e),
                            Ok(b) => Ok(m1.insert(rk, UserBalances { balance: b, ..rb })),
                        },
                    }
                },
            },
        }
    }

    /// Settles `orders` one after another, stopping at the first failure.
    pub open spec fn makers_settled(
        &self,
        m: Map<AccountToken, UserBalances>,
        orders: Seq<Order>,
    ) -> Result<Map<AccountToken, UserBalances>, Error>
        decreases orders.len(),
    {
        if orders.len() == 0 {
            Ok(m)
        } else {
            match self.makers_settled(m, orders.drop_last()) {
                Ok(m2) => self.maker_step(m2, orders.last()),
                Err(e) => Err(e),
            }
        }
    }

    pub fn pay_off_with_makers(&self, ledger: &mut BalanceLedger, maker_orders: &Vec<Order>) -> (r:
        Result<(), Error>)
        requires
            old(ledger).wf(),
        ensures
            final(ledger).wf(),
            match self.makers_settled(old(ledger)@, maker_orders@) {
                Ok(m) => r is Ok && final(ledger)@ == m,
                Err(e) => r == Err::<(), Error>(e),
            },
    {
        let ghost start = ledger@;
        let mut i: usize = 0;
        while i < maker_orders.len()
            invariant
                0 <= i <= maker_orders@.len(),
                start == old(ledger)@,
                ledger.wf(),
                self.makers_settled(start, maker_orders@.take(i as int)) == Ok::<
                    Map<AccountToken, UserBalances>,
                    Error,
                >(ledger@),
            decreases maker_orders@.len() - i,
        {
            let order = maker_orders[i];
            proof {
                assert(maker_orders@.take(i + 1).drop_last() == maker_orders@.take(i as int));
                assert(maker_orders@.take(i + 1).last() == order);
                assert(self.makers_settled(start, maker_orders@.take(i + 1)) == self.maker_step(
                    ledger@,
                    order,
                ));
                lemma_settled_prefix_fails(*self, start, maker_orders@, i + 1);
            }
            let withdraw_manager = UserBalanceManager::new(order.account, self.maker_withdraw_token());
            let mut withdraw_balances = withdraw_manager.read_user_balance(ledger);
            let withdraw_amount = match self.maker_withdraw_amount(order.price, order.quantity) {
                Ok(a) => a,
                Err(e) => return Err(e),
            };
            withdraw_balances.balance_in_trading = match debit(withdraw_balances.balance_in_trading, withdraw_amount) {
                Ok(v) => v,
                Err(e) => return Err(e),
            };
            withdraw_manager.write_user_balance(ledger, &withdraw_balances);
            let receive_manager = UserBalanceManager::new(order.account, self.maker_receive_token());
            let mut receiving_balances = receive_manager.read_user_balance(ledger);
            let receive_amount = match self.maker_receive_amount(order.price, order.quantity) {
                Ok(a) => a,
                Err(e) => return Err(e),
            };
            receiving_balances.balance = match credit(receiving_balances.balance, receive_amount) {
                Ok(v) => v,
                Err(e) => return Err(e),
            };
            receive_manager.write_user_balance(ledger, &receiving_balances);
            i += 1;
        }
        proof {
            assert(maker_orders@.take(i as int) == maker_orders@);
        }
        Ok(())
    }

    /// The taker's settlement: it pays `withdraw_amount`, receives
    /// `receive_amount`, and, when `filled_quantity` falls short of the
    /// order, moves the price of the rest from its balance into its
    /// reserve.
    pub open spec fn taker_settled(
        &self,
        m: Map<AccountToken, UserBalances>,
        order: NewOrder,
        user: Address,
        filled_quantity: u128,
        withdraw_amount: i128,
        receive_amount: i128,
    ) -> Result<Map<AccountToken, UserBalances>, Error> {
        let wk = AccountToken { user, token: self.token_to_withdraw };
        let rk = AccountToken { user, token: self.token_to_receive };
        let wb = balances_in(m, user, self.token_to_withdraw);
        let rb = balances_in(m, user, self.token_to_receive);
        match spec_debit(wb.balance, withdraw_amount) {
            Err(e) => Err(e),
            Ok(b1) => match spec_credit(rb.balance, receive_amount) {
                Err(e) => Err(e),
                Ok(rbal) => {
                    let m1 = m.insert(rk, UserBalances { balance: rbal, ..rb });
                    if filled_quantity < order.quantity {
                        match amount_result(
                            self.withdraw_calc(order.price, (order.quantity - filled_quantity) as u128),
                        ) {
                            Err(e) => Err(e),
                            Ok(nf) => match spec_debit(b1, nf) {
                                Err(e) => Err(e),
                                Ok(b2) => match spec_credit(wb.balance_in_trading, nf) {
                                    Err(e) => Err(e),
                                    Ok(t) => Ok(
                                        m1.insert(
                                            wk,
                                            UserBalances { balance: b2, balance_in_trading: t },
                                        ),
                                    ),
                                },
                            },
                        }
                    } else {
                        Ok(m1.insert(wk, UserBalances { balance: b1, ..wb }))
                    }
                },
            },
        }
    }

    pub fn pay_of_with_taker(
        &self,
        ledger: &mut BalanceLedger,
        order: &NewOrder,
        user: Address,
        filled_quantity: u128,
        withdraw_amount: i128,
        receive_amount: i128,
    ) -> (r: Result<(), Error>)
        requires
            old(ledger).wf(),
        ensures
            final(ledger).wf(),
            match self.taker_settled(
                old(ledger)@,
                *order,
                user,
                filled_quantity,
                withdraw_amount,
                receive_amount,
            ) {
                Ok(m) => r is Ok && final(ledger)@ == m,
                Err(e) => r == Err::<(), Error>(e),
            },
    {
        let withdraw_manager = UserBalanceManager::new(user, self.taker_withdraw_token());
        let mut withdraw_balances = withdraw_manager.read_user_balance(ledger);
        withdraw_balances.balance = match debit(withdraw_balances.balance, withdraw_amount) {
            Ok(v) => v,
            Err(e) => return Err(e),
        };
        let receive_manager = UserBalanceManager::new(user, self.taker_receive_token());
        let mut receiving_balances = receive_manager.read_user_balance(ledger);
        receiving_balances.balance = match credit(receiving_balances.balance, receive_amount) {
            Ok(v) => v,
            Err(e) => return Err(e),
        };
        receive_manager.write_user_balance(ledger, &receiving_balances);
        if filled_quantity < order.quantity {
            let not_filled = match self.taker_withdraw_amount(
                order.price,
                order.quantity - filled_quantity,
            ) {
                Ok(a) => a,
                Err(e) => return Err(e),
            };
            withdraw_balances.balance = match debit(withdraw_balances.balance, not_filled) {
                Ok(v) => v,
                Err(e) => return Err(e),
            };
            withdraw_balances.balance_in_trading = match credit(
                withdraw_balances.balance_in_trading,
                not_filled,
            ) {
                Ok(v) => v,
                Err(e) => return Err(e),
            };
        }
        withdraw_manager.write_user_balance(ledger, &withdraw_balances);
        Ok(())
    }

    /// A cancelled order's reserve returns to its owner's balance.
    pub open spec fn cancellation_settled(
        &self,
        m: Map<AccountToken, UserBalances>,
        user: Address,
        order: Order,
    ) -> Result<Map<AccountToken, UserBalances>, Error> {
        let k = AccountToken { user, token: self.token_to_withdraw };
        let b = balances_in(m, user, self.token_to_withdraw);
        match amount_result(self.withdraw_calc(order.price, order.quantity)) {
            Err(e) => Err(e),
            Ok(a) => match spec_credit(b.balance, a) {
                Err(e) => Err(e),
                Ok(nb) => match spec_debit(b.balance_in_trading, a) {
                    Err(e) => Err(e),
                    Ok(t) => Ok(m.insert(k, UserBalances { balance: nb, balance_in_trading: t })),
                },
            },
        }
    }

    pub fn pay_off_for_cancellation(&self, ledger: &mut BalanceLedger, user: Address, order: &Order) -> (r:
        Result<(), Error>)
        requires
            old(ledger).wf(),
        ensures
            final(ledger).wf(),
            match self.cancellation_settled(old(ledger)@, user, *order) {
                Ok(m) => r is Ok && final(ledger)@ == m,
                Err(e) => r == Err::<(), Error>(e),
            },
    {
        let manager = UserBalanceManager::new(user, self.token_to_withdraw);
        let mut balances = manager.read_user_balance(ledger);
        let amount = match self.withdraw_calculation(order.price, order.quantity) {
            Ok(a) => a,
            Err(e) => return Err(e),
        };
        balances.balance = match credit(balances.balance, amount) {
            Ok(v) => v,
            Err(e) => return Err(e),
        };
        balances.balance_in_trading = match debit(balances.balance_in_trading, amount) {
            Ok(v) => v,
            Err(e) => return Err(e),
        };
        manager.write_user_balance(ledger, &balances);
        Ok(())
    }
}

/// Once a prefix of the makers fails to settle, so does every longer one.
proof fn lemma_settled_prefix_fails(
    p: PayOffWithSides,
    m: Map<AccountToken, UserBalances>,
    orders: Seq<Order>,
    n: int,
)
    requires
        0 <= n <= orders.len(),
    ensures
        p.makers_settled(m, orders.take(n)) is Err ==> p.makers_settled(m, orders) == p.makers_settled(
            m,
            orders.take(n),
        ),
    decreases orders.len() - n,
{
    if n < orders.len() {
        lemma_settled_prefix_fails(p, m, orders, n + 1);
        assert(orders.take(n + 1).drop_last() == orders.take(n));
    } else {
        assert(orders.take(n) == orders);
    }
}

} // verus!
