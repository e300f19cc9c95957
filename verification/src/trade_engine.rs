//! The order engine: validation, the balance check at admission, market
//! execution, the order store with its per-owner history, cancellation, and
//! the periodic scan of pending limit orders.
//!
//! Amounts and prices count hundredths of a unit. The price of the oracle is
//! handed in by the caller as an observation: `Some(price)`, or `None` when
//! the oracle gave none.
//!
//! The balance check at admission holds nothing back. A market order is
//! checked and carried out within one call, at one price, so nothing can come
//! between its check and its payment. A limit order is checked at admission
//! and again when the scan carries it out: if its owner can no longer pay, it
//! stays pending.

use vstd::prelude::*;
use candid::Nat;
use candid::Principal;
use crate::common_types::{TradeError, TradeRequest, TradeRequestView, TradeResponse, TradeStatus, TradeType};
use crate::outside::{nat_from_u128, nat_lt, nat_value, principal_eq};
use crate::pair::{
    base_symbol,
    is_pair,
    lowercase,
    parse_trading_pair,
    quote_symbol,
    to_lowercase,
};
use crate::wallet::{
    balance_in,
    balance_of,
    credit,
    credited,
    debit,
    debited,
    refused,
    Ledger,
    LedgerView,
};

verus! {

/// How many hundredths make one unit.
pub const SCALE: u64 = 100;

/// Why a request cannot be admitted, if anything is wrong with it: the pair
/// first, then the amount, then the limit price of a limit order.
pub open spec fn validation_error(request: TradeRequestView) -> Option<TradeError> {
    if !is_pair(request.pair) {
        Some(TradeError::InvalidTradePair)
    } else if request.amount == 0 {
        Some(TradeError::InvalidTradeAmount)
    } else if request.trade_type.is_limit() && request.limit_price is None {
        Some(TradeError::InvalidOrderType)
    } else if request.trade_type.is_limit() && request.limit_price == Some(0u64) {
        Some(TradeError::InvalidTradePrice)
    } else {
        None
    }
}

/// Checks a request before it is admitted. It reads nothing but the request.
pub fn validate_trade_request(request: &TradeRequest) -> (r: Result<(), TradeError>)
    ensures
        match validation_error(request@) {
            Some(e) => r == Err::<(), TradeError>(e),
            None => r is Ok,
        },
{
    match parse_trading_pair(request.pair.as_str()) {
        Err(e) => {
            return Err(e);
        },
        Ok(_) => {},
    }
    if request.amount == 0 {
        return Err(TradeError::InvalidTradeAmount);
    }
    if request.trade_type.is_limit() {
        match request.limit_price {
            None => {
                return Err(TradeError::InvalidOrderType);
            },
            Some(price) => {
                if price == 0 {
                    return Err(TradeError::InvalidTradePrice);
                }
            },
        }
    }
    Ok(())
}

/// The value of `amount` at `price`, in hundredths, rounded down.
pub open spec fn notional(amount: u64, price: u64) -> nat {
    ((amount as nat) * (price as nat)) / (SCALE as nat)
}

/// The value of `amount` at `price`.
pub fn notional_of(amount: u64, price: u64) -> (value: u128)
    ensures
        value == notional(amount, price),
{
    assert((amount as nat) * (price as nat) <= 0xffff_ffff_ffff_ffff * 0xffff_ffff_ffff_ffff)
        by (nonlinear_arith)
        requires
            amount <= 0xffff_ffff_ffff_ffff,
            price <= 0xffff_ffff_ffff_ffff,
    ;
    let product: u128 = (amount as u128) * (price as u128);
    product / (SCALE as u128)
}

/// The `Nat` that holds an amount given in hundredths.
fn amount_to_nat(amount: u64) -> (r: Nat)
    ensures
        nat_value(r) == amount,
{
    nat_from_u128(amount as u128)
}

/// Whether a limit order of this type with target `limit` fires at the
/// observed `price`: a buy at or below its target, a sell at or above it.
pub open spec fn limit_triggered(trade_type: TradeType, limit: u64, price: u64) -> bool {
    match trade_type {
        TradeType::LimitBuy => price <= limit,
        TradeType::LimitSell => price >= limit,
        _ => false,
    }
}

/// Whether a limit order fires at the observed price.
pub fn is_limit_triggered(trade_type: TradeType, limit: u64, price: u64) -> (fires: bool)
    ensures
        fires == limit_triggered(trade_type, limit, price),
{
    match trade_type {
        TradeType::LimitBuy => price <= limit,
        TradeType::LimitSell => price >= limit,
        _ => false,
    }
}

/// The ledger key of the token that an order pays with: the quote token for a
/// buy, the base token for a sell.
pub open spec fn pay_key(request: TradeRequestView) -> Seq<char> {
    if request.trade_type.is_buy() {
        lowercase(quote_symbol(request.pair))
    } else {
        lowercase(base_symbol(request.pair))
    }
}

/// The ledger key of the token that an order receives.
pub open spec fn receive_key(request: TradeRequestView) -> Seq<char> {
    if request.trade_type.is_buy() {
        lowercase(base_symbol(request.pair))
    } else {
        lowercase(quote_symbol(request.pair))
    }
}

/// What an order pays when it fills at `price`: its value for a buy, its
/// amount for a sell.
pub open spec fn pay_amount(request: TradeRequestView, price: u64) -> nat {
    if request.trade_type.is_buy() {
        notional(request.amount, price)
    } else {
        request.amount as nat
    }
}

/// What an order receives when it fills at `price`.
pub open spec fn receive_amount(request: TradeRequestView, price: u64) -> nat {
    if request.trade_type.is_buy() {
        request.amount as nat
    } else {
        notional(request.amount, price)
    }
}

/// The ledger after `owner` has paid `paid` of one token and then received
/// `received` of another.
pub open spec fn settled(
    ledger: LedgerView,
    owner: Principal,
    paid_key: Seq<char>,
    paid: nat,
    received_key: Seq<char>,
    received: nat,
    now: u64,
) -> LedgerView {
    credited(debited(ledger, owner, paid_key, paid, now), owner, received_key, received, now)
}

/// Moves the two legs of a fill: first takes `paid` from the balance under
/// `paid_key`, then adds `received` to the balance under `received_key`. When
/// the balance does not cover `paid`, nothing is taken and nothing is added.
pub fn settle(
    ledger: &mut Ledger,
    user: Principal,
    paid_key: String,
    paid: &Nat,
    received_key: String,
    received: &Nat,
    now: u64,
) -> (r: Result<(), TradeError>)
    requires
        old(ledger).wf(),
    ensures
        final(ledger).wf(),
        nat_value(*paid) > balance_in(old(ledger)@, user, paid_key@) ==> r == Err::<(), TradeError>(
            TradeError::ExecutionFailed,
        ) && final(ledger)@ == refused(old(ledger)@, user, paid_key@, now),
        nat_value(*paid) <= balance_in(old(ledger)@, user, paid_key@) ==> r is Ok && final(ledger)@
            == settled(
            old(ledger)@,
            user,
            paid_key@,
            nat_value(*paid),
            received_key@,
            nat_value(*received),
            now,
        ),
{
    match debit(ledger, user, paid_key, paid, now) {
        Err(_) => Err(TradeError::ExecutionFailed),
        Ok(_) => {
            let _ = credit(ledger, user, received_key, received, now);
            Ok(())
        },
    }
}

/// Whether the balance of `owner` covers what the order pays at `price`.
pub open spec fn can_fill(
    ledger: LedgerView,
    owner: Principal,
    request: TradeRequestView,
    price: u64,
) -> bool {
    pay_amount(request, price) <= balance_in(ledger, owner, pay_key(request))
}

/// The ledger after the order of `owner` was carried out at `price`: filled
/// when the balance covers it, refused otherwise.
pub open spec fn ledger_after_execution(
    ledger: LedgerView,
    owner: Principal,
    request: TradeRequestView,
    price: u64,
    now: u64,
) -> LedgerView {
    if !is_pair(request.pair) {
        ledger
    } else if can_fill(ledger, owner, request, price) {
        settled(
            ledger,
            owner,
            pay_key(request),
            pay_amount(request, price),
            receive_key(request),
            receive_amount(request, price),
            now,
        )
    } else {
        refused(ledger, owner, pay_key(request), now)
    }
}

/// Carries out an order at `price`: a buy pays its value in the quote token
/// and receives its amount in the base token, a sell pays its amount in the
/// base token and receives its value in the quote token. The payment is taken
/// first; when the balance does not cover it, the order is not filled and
/// nothing is received.
pub fn execute_market_order(
    ledger: &mut Ledger,
    user: Principal,
    request: &TradeRequest,
    price: u64,
    now: u64,
) -> (r: Result<(TradeStatus, Option<u64>), TradeError>)
    requires
        old(ledger).wf(),
    ensures
        final(ledger).wf(),
        final(ledger)@ == ledger_after_execution(old(ledger)@, user, request@, price, now),
        !is_pair(request@.pair) ==> r == Err::<(TradeStatus, Option<u64>), TradeError>(
            TradeError::InvalidTradePair,
        ),
        is_pair(request@.pair) && !can_fill(old(ledger)@, user, request@, price) ==> r == Err::<
            (TradeStatus, Option<u64>),
            TradeError,
        >(TradeError::ExecutionFailed),
        is_pair(request@.pair) && can_fill(old(ledger)@, user, request@, price) ==> r == Ok::<
            (TradeStatus, Option<u64>),
            TradeError,
        >((TradeStatus::Filled, Some(price))),
{
    let (base_token, quote_token) = match parse_trading_pair(request.pair.as_str()) {
        Err(e) => {
            return Err(e);
        },
        Ok(symbols) => symbols,
    };
    let base_key = to_lowercase(base_token);
    let quote_key = to_lowercase(quote_token);
    let value = nat_from_u128(notional_of(request.amount, price));
    let amount = amount_to_nat(request.amount);
    let moved = if request.trade_type.is_buy() {
        settle(ledger, user, quote_key, &value, base_key, &amount, now)
    } else {
        settle(ledger, user, base_key, &amount, quote_key, &value, now)
    };
    match moved {
        Err(e) => Err(e),
        Ok(_) => Ok((TradeStatus::Filled, Some(price))),
    }
}

/// An admitted order with its id.
#[derive(Debug)]
pub struct ActiveTrade {
    pub trade_id: u64,
    pub request: TradeRequest,
}

/// One entry of the history: an outcome and the owner of its order.
#[derive(Clone, Copy, Debug)]
pub struct HistoryEntry {
    pub owner: Principal,
    pub response: TradeResponse,
}

/// The order store: the active orders by rising id, the history of all owners
/// in the order in which the entries were appended, and the last id given out.
pub struct OrderStore {
    active: Vec<ActiveTrade>,
    history: Vec<HistoryEntry>,
    counter: u64,
}

/// What an order store holds.
pub struct OrderStoreView {
    pub active: Seq<(u64, TradeRequestView)>,
    pub history: Seq<HistoryEntry>,
    pub counter: u64,
}

/// The active orders of a list, each with its id.
pub open spec fn active_view(active: Seq<ActiveTrade>) -> Seq<(u64, TradeRequestView)> {
    Seq::new(active.len(), |i: int| (active[i].trade_id, active[i].request@))
}

/// The ids of the active orders rise, and none is zero or above `counter`.
pub open spec fn ids_rise(active: Seq<(u64, TradeRequestView)>, counter: u64) -> bool {
    &&& forall|i: int, j: int| 0 <= i < j < active.len() ==> (#[trigger] active[i]).0 < (
    #[trigger] active[j]).0
    &&& forall|i: int| 0 <= i < active.len() ==> 1 <= (#[trigger] active[i]).0 <= counter
}

/// No entry of the history bears an id that is zero or above `counter`.
pub open spec fn ids_given(history: Seq<HistoryEntry>, counter: u64) -> bool {
    forall|i: int| 0 <= i < history.len() ==> 1 <= (#[trigger] history[i]).response.trade_id <= counter
}

/// Every active order has passed validation.
pub open spec fn all_valid(active: Seq<(u64, TradeRequestView)>) -> bool {
    forall|i: int| 0 <= i < active.len() ==> validation_error((#[trigger] active[i]).1) is None
}

impl OrderStoreView {
    /// Every id in the store was given out by the counter, no two active
    /// orders share one, and every active order has passed validation.
    pub open spec fn wf(self) -> bool {
        &&& ids_rise(self.active, self.counter)
        &&& ids_given(self.history, self.counter)
        &&& all_valid(self.active)
    }
}

impl View for OrderStore {
    type V = OrderStoreView;

    closed spec fn view(&self) -> OrderStoreView {
        OrderStoreView {
            active: active_view(self.active@),
            history: self.history@,
            counter: self.counter,
        }
    }
}

impl OrderStore {
    /// An empty store that has given out no id.
    pub fn new() -> (store: OrderStore)
        ensures
            store@.wf(),
            store@.active == Seq::<(u64, TradeRequestView)>::empty(),
            store@.history == Seq::<HistoryEntry>::empty(),
            store@.counter == 0,
    {
        let store = OrderStore { active: Vec::new(), history: Vec::new(), counter: 0 };
        assert(store@.active =~= Seq::<(u64, TradeRequestView)>::empty());
        store
    }

    /// The last id that was given out; zero before the first.
    pub fn trade_counter(&self) -> (counter: u64)
        ensures
            counter == self@.counter,
    {
        self.counter
    }
}

/// The place of the active order with id `trade_id`, if there is one.
pub open spec fn active_index(active: Seq<(u64, TradeRequestView)>, trade_id: u64) -> Option<int> {
    if exists|i: int| 0 <= i < active.len() && (#[trigger] active[i]).0 == trade_id {
        Some(choose|i: int| 0 <= i < active.len() && (#[trigger] active[i]).0 == trade_id)
    } else {
        None
    }
}

/// Among rising ids, the place of an id is the one place where it stands.
pub proof fn lemma_active_index(active: Seq<(u64, TradeRequestView)>, counter: u64, i: int)
    requires
        ids_rise(active, counter),
        0 <= i < active.len(),
    ensures
        active_index(active, active[i].0) == Some(i),
{
    let found = choose|k: int| 0 <= k < active.len() && (#[trigger] active[k]).0 == active[i].0;
    if found < i {
        assert(active[found].0 < active[i].0);
    } else if i < found {
        assert(active[i].0 < active[found].0);
    }
}

/// The place of the active order with id `trade_id`, if there is one.
fn find_active(store: &OrderStore, trade_id: u64) -> (r: Option<usize>)
    requires
        store@.wf(),
    ensures
        match r {
            Some(i) => i < store.active.len() && active_index(store@.active, trade_id) == Some(
                i as int,
            ) && store.active[i as int].trade_id == trade_id,
            None => active_index(store@.active, trade_id) is None,
        },
{
    let mut i: usize = 0;
    while i < store.active.len()
        invariant
            store@.wf(),
            i <= store.active.len(),
            forall|k: int| 0 <= k < i ==> (#[trigger] store.active[k]).trade_id != trade_id,
        decreases store.active.len() - i,
    {
        if store.active[i].trade_id == trade_id {
            proof {
                assert(store@.active[i as int].0 == trade_id);
                lemma_active_index(store@.active, store@.counter, i as int);
            }
            return Some(i);
        }
        i += 1;
    }
    proof {
        assert forall|k: int| 0 <= k < store@.active.len() implies (#[trigger] store@.active[k]).0
            != trade_id by {
            assert(store.active[k].trade_id != trade_id);
        }
    }
    None
}

/// The price at which the balance check values an order: the limit price of
/// a limit order, the observed price of a market order.
pub open spec fn reference_price(request: TradeRequestView, quote: Option<u64>) -> u64 {
    if request.trade_type.is_limit() {
        match request.limit_price {
            Some(price) => price,
            None => 0,
        }
    } else {
        match quote {
            Some(price) => price,
            None => 0,
        }
    }
}

/// Why an order is not admitted, if it is not: what validation finds; then,
/// for a market buy, a missing price; then a balance that does not cover what
/// the order pays at its reference price.
pub open spec fn admission_error(
    ledger: LedgerView,
    request: TradeRequestView,
    quote: Option<u64>,
) -> Option<TradeError> {
    if validation_error(request) is Some {
        validation_error(request)
    } else if request.trade_type == TradeType::MarketBuy && quote is None {
        Some(TradeError::PriceDataUnavailable)
    } else if !can_fill(ledger, request.user_id, request, reference_price(request, quote)) {
        Some(TradeError::InsufficientBalance)
    } else {
        None
    }
}

/// Compares the balance under `key` with what is required. It holds nothing
/// back: the balance is only read.
fn check_balance(ledger: &Ledger, user: Principal, key: &String, required: &Nat) -> (r: Result<
    (),
    TradeError,
>)
    requires
        ledger.wf(),
    ensures
        nat_value(*required) > balance_in(ledger@, user, key@) ==> r == Err::<(), TradeError>(
            TradeError::InsufficientBalance,
        ),
        nat_value(*required) <= balance_in(ledger@, user, key@) ==> r is Ok,
{
    let balance = balance_of(ledger, user, key);
    if nat_lt(&balance, required) {
        Err(TradeError::InsufficientBalance)
    } else {
        Ok(())
    }
}

/// The balance check at admission, for a request that validation has passed.
fn reserve_balances(ledger: &Ledger, request: &TradeRequest, quote: Option<u64>) -> (r: Result<
    (),
    TradeError,
>)
    requires
        ledger.wf(),
        validation_error(request@) is None,
    ensures
        match admission_error(ledger@, request@, quote) {
            Some(e) => r == Err::<(), TradeError>(e),
            None => r is Ok,
        },
{
    let (base_token, quote_token) = match parse_trading_pair(request.pair.as_str()) {
        Err(e) => {
            return Err(e);
        },
        Ok(symbols) => symbols,
    };
    if request.trade_type.is_buy() {
        let price = if request.trade_type.is_limit() {
            match request.limit_price {
                Some(price) => price,
                None => 0,
            }
        } else {
            match quote {
                Some(price) => price,
                None => {
                    return Err(TradeError::PriceDataUnavailable);
                },
            }
        };
        let required = nat_from_u128(notional_of(request.amount, price));
        let key = to_lowercase(quote_token);
        check_balance(ledger, request.user_id, &key, &required)
    } else {
        let required = amount_to_nat(request.amount);
        let key = to_lowercase(base_token);
        check_balance(ledger, request.user_id, &key, &required)
    }
}

/// What a submission leaves behind and returns.
pub struct Submission {
    pub store: OrderStoreView,
    pub ledger: LedgerView,
    pub result: Result<TradeResponse, TradeError>,
}

/// The outcome with which an order enters the history.
pub open spec fn first_outcome(
    trade_id: u64,
    request: TradeRequestView,
    quote: Option<u64>,
    now: u64,
) -> TradeResponse {
    TradeResponse {
        trade_id,
        status: if request.trade_type.is_limit() {
            TradeStatus::Pending
        } else {
            TradeStatus::Filled
        },
        executed_price: if request.trade_type.is_limit() {
            None
        } else {
            quote
        },
        timestamp: now,
        amount: request.amount,
        limit_price: request.limit_price,
    }
}

/// The store after the order was admitted under the next id.
pub open spec fn admitted(
    store: OrderStoreView,
    request: TradeRequestView,
    quote: Option<u64>,
    now: u64,
) -> OrderStoreView {
    let trade_id = (store.counter + 1) as u64;
    OrderStoreView {
        active: store.active.push((trade_id, request)),
        history: store.history.push(
            HistoryEntry {
                owner: request.user_id,
                response: first_outcome(trade_id, request, quote, now),
            },
        ),
        counter: trade_id,
    }
}

/// What the submission of `request` does to a store and a ledger, given the
/// price observed for its pair.
///
/// A request that is not admitted changes nothing. An admitted request takes
/// the next id. A limit order is parked as pending and moves no balance. A
/// market order is carried out at the observed price; one that finds no price
/// after it took its id fails, and the id is spent.
pub open spec fn submitted(
    store: OrderStoreView,
    ledger: LedgerView,
    request: TradeRequestView,
    quote: Option<u64>,
    now: u64,
) -> Submission {
    let trade_id = (store.counter + 1) as u64;
    if admission_error(ledger, request, quote) is Some {
        Submission { store, ledger, result: Err(admission_error(ledger, request, quote)->0) }
    } else if request.trade_type.is_limit() {
        Submission {
            store: admitted(store, request, quote, now),
            ledger,
            result: Ok(first_outcome(trade_id, request, quote, now)),
        }
    } else if quote is None {
        Submission {
            store: OrderStoreView { counter: trade_id, ..store },
            ledger,
            result: Err(TradeError::PriceDataUnavailable),
        }
    } else {
        Submission {
            store: admitted(store, request, quote, now),
            ledger: ledger_after_execution(ledger, request.user_id, request, quote->0, now),
            result: Ok(first_outcome(trade_id, request, quote, now)),
        }
    }
}

/// Submits an order: validates it, checks the balance, gives it the next id,
/// carries it out at once if it is a market order or parks it as pending if
/// it is a limit order, and records it in the active set and in the history
/// of its owner.
///
/// `quote` is the price observed for the pair of the order, `None` when the
/// oracle gave none; a limit order does not read it.
pub fn execute_trade(
    store: &mut OrderStore,
    ledger: &mut Ledger,
    request: TradeRequest,
    quote: Option<u64>,
    now: u64,
) -> (r: Result<TradeResponse, TradeError>)
    requires
        old(store)@.wf(),
        old(ledger).wf(),
        old(store)@.counter < u64::MAX,
    ensures
        final(store)@.wf(),
        final(ledger).wf(),
        final(store)@ == submitted(old(store)@, old(ledger)@, request@, quote, now).store,
        final(ledger)@ == submitted(old(store)@, old(ledger)@, request@, quote, now).ledger,
        r == submitted(old(store)@, old(ledger)@, request@, quote, now).result,
{
    match validate_trade_request(&request) {
        Err(e) => {
            return Err(e);
        },
        Ok(_) => {},
    }
    match reserve_balances(ledger, &request, quote) {
        Err(e) => {
            return Err(e);
        },
        Ok(_) => {},
    }
    store.counter = store.counter + 1;
    let trade_id = store.counter;
    let (status, executed_price) = if request.trade_type.is_limit() {
        (TradeStatus::Pending, None)
    } else {
        let price = match quote {
            Some(price) => price,
            None => {
                proof {
                    assert(store@.active =~= old(store)@.active);
                }
                return Err(TradeError::PriceDataUnavailable);
            },
        };
        match execute_market_order(ledger, request.user_id, &request, price, now) {
            Err(e) => {
                return Err(e);
            },
            Ok(outcome) => outcome,
        }
    };
    let response = TradeResponse {
        trade_id,
        status,
        executed_price,
        timestamp: now,
        amount: request.amount,
        limit_price: request.limit_price,
    };
    let ghost before = store.active@;
    let ghost view = request@;
    store.history.push(HistoryEntry { owner: request.user_id, response });
    store.active.push(ActiveTrade { trade_id, request });
    proof {
        assert(store@.active =~= old(store)@.active.push((trade_id, view)));
    }
    Ok(response)
}

/// What a cancellation leaves behind and returns.
pub struct Cancellation {
    pub store: OrderStoreView,
    pub result: Result<TradeResponse, TradeError>,
}

/// The outcome that a cancellation appends to the history.
pub open spec fn cancel_outcome(trade_id: u64, request: TradeRequestView, now: u64) -> TradeResponse {
    TradeResponse {
        trade_id,
        status: TradeStatus::Cancelled,
        executed_price: None,
        timestamp: now,
        amount: request.amount,
        limit_price: request.limit_price,
    }
}

/// What the cancellation of order `trade_id` by `user` does to a store: an id
/// that is not active is not found, the order of another owner is not the
/// caller's to cancel, and the caller's own order leaves the active set while
/// a cancelled outcome joins the history.
pub open spec fn cancelled(store: OrderStoreView, user: Principal, trade_id: u64, now: u64) -> Cancellation {
    match active_index(store.active, trade_id) {
        None => Cancellation { store, result: Err(TradeError::NotFound) },
        Some(i) => {
            if store.active[i].1.user_id != user {
                Cancellation { store, result: Err(TradeError::NotAuthorized) }
            } else {
                let response = cancel_outcome(trade_id, store.active[i].1, now);
                Cancellation {
                    store: OrderStoreView {
                        active: store.active.remove(i),
                        history: store.history.push(HistoryEntry { owner: user, response }),
                        counter: store.counter,
                    },
                    result: Ok(response),
                }
            }
        },
    }
}

/// Cancels an active order of `user`. No balance moves: none was held back
/// when the order was admitted.
pub fn cancel_trade(store: &mut OrderStore, user: Principal, trade_id: u64, now: u64) -> (r: Result<
    TradeResponse,
    TradeError,
>)
    requires
        old(store)@.wf(),
    ensures
        final(store)@.wf(),
        final(store)@ == cancelled(old(store)@, user, trade_id, now).store,
        r == cancelled(old(store)@, user, trade_id, now).result,
{
    let i = match find_active(store, trade_id) {
        None => {
            return Err(TradeError::NotFound);
        },
        Some(i) => i,
    };
    if !principal_eq(&store.active[i].request.user_id, &user) {
        return Err(TradeError::NotAuthorized);
    }
    let response = TradeResponse {
        trade_id,
        status: TradeStatus::Cancelled,
        executed_price: None,
        timestamp: now,
        amount: store.active[i].request.amount,
        limit_price: store.active[i].request.limit_price,
    };
    store.history.push(HistoryEntry { owner: user, response });
    let _ = store.active.remove(i);
    proof {
        assert(store@.active =~= old(store)@.active.remove(i as int));
    }
    Ok(response)
}

/// The active orders of `owner`, in the order of the store.
pub open spec fn orders_of(active: Seq<(u64, TradeRequestView)>, owner: Principal) -> Seq<
    (u64, TradeRequestView),
>
    decreases active.len(),
{
    if active.len() == 0 {
        Seq::empty()
    } else if active.last().1.user_id == owner {
        orders_of(active.drop_last(), owner).push(active.last())
    } else {
        orders_of(active.drop_last(), owner)
    }
}

/// The active limit orders, in the order of the store.
pub open spec fn limit_orders(active: Seq<(u64, TradeRequestView)>) -> Seq<(u64, TradeRequestView)>
    decreases active.len(),
{
    if active.len() == 0 {
        Seq::empty()
    } else if active.last().1.trade_type.is_limit() {
        limit_orders(active.drop_last()).push(active.last())
    } else {
        limit_orders(active.drop_last())
    }
}

/// The outcomes recorded for `owner`, in the order in which they were
/// appended.
pub open spec fn history_of(history: Seq<HistoryEntry>, owner: Principal) -> Seq<TradeResponse>
    decreases history.len(),
{
    if history.len() == 0 {
        Seq::empty()
    } else if history.last().owner == owner {
        history_of(history.drop_last(), owner).push(history.last().response)
    } else {
        history_of(history.drop_last(), owner)
    }
}

/// What a list of orders holds, each with its id.
pub open spec fn orders_view(orders: Seq<(u64, TradeRequest)>) -> Seq<(u64, TradeRequestView)> {
    Seq::new(orders.len(), |i: int| (orders[i].0, orders[i].1@))
}

/// The history of `user`: every outcome recorded for that owner, oldest first.
pub fn get_trade_history(store: &OrderStore, user: Principal) -> (entries: Vec<TradeResponse>)
    ensures
        entries@ == history_of(store@.history, user),
{
    let mut entries: Vec<TradeResponse> = Vec::new();
    let mut i: usize = 0;
    while i < store.history.len()
        invariant
            i <= store.history.len(),
            entries@ == history_of(store.history@.take(i as int), user),
        decreases store.history.len() - i,
    {
        proof {
            assert(store.history@.take(i + 1).drop_last() =~= store.history@.take(i as int));
        }
        if principal_eq(&store.history[i].owner, &user) {
            entries.push(store.history[i].response);
        }
        i += 1;
    }
    proof {
        assert(store.history@.take(i as int) =~= store.history@);
    }
    entries
}

/// The active orders of `user`, each with its id, by rising id.
pub fn get_active_trades(store: &OrderStore, user: Principal) -> (orders: Vec<(u64, TradeRequest)>)
    ensures
        orders_view(orders@) == orders_of(store@.active, user),
{
    let mut orders: Vec<(u64, TradeRequest)> = Vec::new();
    let mut i: usize = 0;
    while i < store.active.len()
        invariant
            i <= store.active.len(),
            orders_view(orders@) == orders_of(store@.active.take(i as int), user),
        decreases store.active.len() - i,
    {
        proof {
            assert(store@.active.take(i + 1).drop_last() =~= store@.active.take(i as int));
        }
        if principal_eq(&store.active[i].request.user_id, &user) {
            let ghost before = orders@;
            let copy = store.active[i].request.clone();
            orders.push((store.active[i].trade_id, copy));
            proof {
                assert(orders_view(orders@) =~= orders_view(before).push(store@.active[i as int]));
            }
        }
        i += 1;
    }
    proof {
        assert(store@.active.take(i as int) =~= store@.active);
    }
    orders
}

/// The active limit orders, each with its id: what one scan has to look at.
pub fn pending_limit_orders(store: &OrderStore) -> (orders: Vec<(u64, TradeRequest)>)
    ensures
        orders_view(orders@) == limit_orders(store@.active),
{
    let mut orders: Vec<(u64, TradeRequest)> = Vec::new();
    let mut i: usize = 0;
    while i < store.active.len()
        invariant
            i <= store.active.len(),
            orders_view(orders@) == limit_orders(store@.active.take(i as int)),
        decreases store.active.len() - i,
    {
        proof {
            assert(store@.active.take(i + 1).drop_last() =~= store@.active.take(i as int));
        }
        if store.active[i].request.trade_type.is_limit() {
            let ghost before = orders@;
            let copy = store.active[i].request.clone();
            orders.push((store.active[i].trade_id, copy));
            proof {
                assert(orders_view(orders@) =~= orders_view(before).push(store@.active[i as int]));
            }
        }
        i += 1;
    }
    proof {
        assert(store@.active.take(i as int) =~= store@.active);
    }
    orders
}

/// Whether entry `k` of the history is the oldest entry of `owner` that bears
/// the id `trade_id`.
pub open spec fn is_first_entry(history: Seq<HistoryEntry>, owner: Principal, trade_id: u64, k: int) -> bool {
    &&& 0 <= k < history.len()
    &&& history[k].owner == owner
    &&& history[k].response.trade_id == trade_id
    &&& forall|j: int|
        0 <= j < k ==> !((#[trigger] history[j]).owner == owner && history[j].response.trade_id
            == trade_id)
}

/// The history after the oldest entry of `owner` with id `trade_id` was set to
/// filled at `price`, with the limit price of the order; the same history when
/// there is no such entry. The time of the entry stays.
pub open spec fn mark_filled(
    history: Seq<HistoryEntry>,
    owner: Principal,
    trade_id: u64,
    price: u64,
    limit_price: Option<u64>,
) -> Seq<HistoryEntry> {
    if exists|k: int| is_first_entry(history, owner, trade_id, k) {
        let k = choose|k: int| is_first_entry(history, owner, trade_id, k);
        history.update(
            k,
            HistoryEntry {
                owner,
                response: TradeResponse {
                    trade_id,
                    status: TradeStatus::Filled,
                    executed_price: Some(price),
                    timestamp: history[k].response.timestamp,
                    amount: history[k].response.amount,
                    limit_price,
                },
            },
        )
    } else {
        history
    }
}

/// Sets the oldest entry of `owner` with id `trade_id` to filled.
fn record_fill(store: &mut OrderStore, owner: Principal, trade_id: u64, price: u64, limit_price: Option<u64>)
    ensures
        final(store).active == old(store).active,
        final(store).counter == old(store).counter,
        final(store).history@ == mark_filled(old(store).history@, owner, trade_id, price, limit_price),
{
    let mut k: usize = 0;
    while k < store.history.len()
        invariant
            k <= store.history.len(),
            store.history == old(store).history,
            store.active == old(store).active,
            store.counter == old(store).counter,
            forall|j: int|
                0 <= j < k ==> !((#[trigger] store.history[j]).owner == owner
                    && store.history[j].response.trade_id == trade_id),
        decreases store.history.len() - k,
    {
        if principal_eq(&store.history[k].owner, &owner) && store.history[k].response.trade_id
            == trade_id {
            proof {
                let history = store.history@;
                assert(is_first_entry(history, owner, trade_id, k as int));
                let found = choose|f: int| is_first_entry(history, owner, trade_id, f);
                if found < k {
                    assert(!(history[found].owner == owner && history[found].response.trade_id
                        == trade_id));
                } else if k < found {
                    assert(!(history[k as int].owner == owner && history[k as int].response.trade_id
                        == trade_id));
                }
            }
            let entry = HistoryEntry {
                owner,
                response: TradeResponse {
                    trade_id,
                    status: TradeStatus::Filled,
                    executed_price: Some(price),
                    timestamp: store.history[k].response.timestamp,
                    amount: store.history[k].response.amount,
                    limit_price,
                },
            };
            store.history.set(k, entry);
            return ;
        }
        k += 1;
    }
}

/// Whether the scan has to try order `trade_id` at the observed price: the
/// order is active, it is a limit order, a price was observed, and the price
/// has crossed the target of the order.
pub open spec fn due(store: OrderStoreView, trade_id: u64, quote: Option<u64>) -> bool {
    match active_index(store.active, trade_id) {
        None => false,
        Some(i) => {
            let request = store.active[i].1;
            &&& quote is Some
            &&& request.limit_price is Some
            &&& limit_triggered(request.trade_type, request.limit_price->0, quote->0)
        },
    }
}

/// What one step of the scan leaves behind, and whether it filled the order.
pub struct ScanStep {
    pub store: OrderStoreView,
    pub ledger: LedgerView,
    pub filled: bool,
}

/// What the scan does with order `trade_id` at the observed price.
///
/// An order that is not due stays as it is, and so does every balance. A due
/// order is carried out at the observed price: when the balance covers it, the
/// order leaves the active set and its history entry becomes filled at that
/// price; when it does not, the order stays pending and no balance changes.
pub open spec fn scanned(
    store: OrderStoreView,
    ledger: LedgerView,
    trade_id: u64,
    quote: Option<u64>,
    now: u64,
) -> ScanStep {
    if !due(store, trade_id, quote) {
        ScanStep { store, ledger, filled: false }
    } else {
        let i = active_index(store.active, trade_id)->0;
        let request = store.active[i].1;
        let after = ledger_after_execution(ledger, request.user_id, request, quote->0, now);
        if is_pair(request.pair) && can_fill(ledger, request.user_id, request, quote->0) {
            ScanStep {
                store: OrderStoreView {
                    active: store.active.remove(i),
                    history: mark_filled(
                        store.history,
                        request.user_id,
                        trade_id,
                        quote->0,
                        request.limit_price,
                    ),
                    counter: store.counter,
                },
                ledger: after,
                filled: true,
            }
        } else {
            ScanStep { store, ledger: after, filled: false }
        }
    }
}

/// One step of the scan: looks at the active order `trade_id` with the price
/// observed for its pair, `None` when the oracle gave none, and fills the
/// order if it is due and its owner's balance covers it. Returns whether the
/// order was filled.
pub fn process_pending_order(
    store: &mut OrderStore,
    ledger: &mut Ledger,
    trade_id: u64,
    quote: Option<u64>,
    now: u64,
) -> (filled: bool)
    requires
        old(store)@.wf(),
        old(ledger).wf(),
    ensures
        final(store)@.wf(),
        final(ledger).wf(),
        final(store)@ == scanned(old(store)@, old(ledger)@, trade_id, quote, now).store,
        final(ledger)@ == scanned(old(store)@, old(ledger)@, trade_id, quote, now).ledger,
        filled == scanned(old(store)@, old(ledger)@, trade_id, quote, now).filled,
{
    let i = match find_active(store, trade_id) {
        None => {
            return false;
        },
        Some(i) => i,
    };
    let price = match quote {
        None => {
            return false;
        },
        Some(price) => price,
    };
    let limit_price = store.active[i].request.limit_price;
    let limit = match limit_price {
        None => {
            return false;
        },
        Some(limit) => limit,
    };
    if !is_limit_triggered(store.active[i].request.trade_type, limit, price) {
        return false;
    }
    let owner = store.active[i].request.user_id;
    match execute_market_order(ledger, owner, &store.active[i].request, price, now) {
        Err(_) => false,
        Ok(_) => {
            record_fill(store, owner, trade_id, price, limit_price);
            let _ = store.active.remove(i);
            proof {
                assert(store@.active =~= old(store)@.active.remove(i as int));
                lemma_mark_filled_keeps_ids(
                    old(store)@.history,
                    old(store)@.counter,
                    owner,
                    trade_id,
                    price,
                    limit_price,
                );
            }
            true
        },
    }
}

/// Marking an entry as filled changes no id of the history.
pub proof fn lemma_mark_filled_keeps_ids(
    history: Seq<HistoryEntry>,
    counter: u64,
    owner: Principal,
    trade_id: u64,
    price: u64,
    limit_price: Option<u64>,
)
    requires
        ids_given(history, counter),
    ensures
        ids_given(mark_filled(history, owner, trade_id, price, limit_price), counter),
        mark_filled(history, owner, trade_id, price, limit_price).len() == history.len(),
{
    let after = mark_filled(history, owner, trade_id, price, limit_price);
    if exists|k: int| is_first_entry(history, owner, trade_id, k) {
        let k = choose|k: int| is_first_entry(history, owner, trade_id, k);
        assert forall|i: int| 0 <= i < after.len() implies 1 <= (#[trigger] after[i]).response.trade_id
            <= counter by {
            if i == k {
                assert(history[k].response.trade_id == trade_id);
            } else {
                assert(after[i] == history[i]);
            }
        }
    }
}

/// What a whole scan leaves behind, and how many orders it filled.
pub struct ScanCycle {
    pub store: OrderStoreView,
    pub ledger: LedgerView,
    pub filled: nat,
}

/// What a whole scan does: the steps for the observations, taken in their
/// order, each on what the one before left.
pub open spec fn scanned_all(
    store: OrderStoreView,
    ledger: LedgerView,
    observations: Seq<(u64, Option<u64>)>,
    now: u64,
) -> ScanCycle
    decreases observations.len(),
{
    if observations.len() == 0 {
        ScanCycle { store, ledger, filled: 0 }
    } else {
        let before = scanned_all(store, ledger, observations.drop_last(), now);
        let step = scanned(
            before.store,
            before.ledger,
            observations.last().0,
            observations.last().1,
            now,
        );
        ScanCycle {
            store: step.store,
            ledger: step.ledger,
            filled: if step.filled {
                before.filled + 1
            } else {
                before.filled
            },
        }
    }
}

/// One cycle of the scan. Each observation names an order and gives the price
/// observed for its pair, `None` where the oracle gave none. The orders are
/// looked at one by one, each on its own: one that cannot be filled stays
/// pending for the next cycle and does not stop the others. Returns how many
/// orders were filled.
pub fn check_pending_orders(
    store: &mut OrderStore,
    ledger: &mut Ledger,
    observations: &Vec<(u64, Option<u64>)>,
    now: u64,
) -> (filled: usize)
    requires
        old(store)@.wf(),
        old(ledger).wf(),
    ensures
        final(store)@.wf(),
        final(ledger).wf(),
        final(store)@ == scanned_all(old(store)@, old(ledger)@, observations@, now).store,
        final(ledger)@ == scanned_all(old(store)@, old(ledger)@, observations@, now).ledger,
        filled == scanned_all(old(store)@, old(ledger)@, observations@, now).filled,
{
    let mut filled: usize = 0;
    let mut n: usize = 0;
    while n < observations.len()
        invariant
            n <= observations.len(),
            filled <= n,
            store@.wf(),
            ledger.wf(),
            store@ == scanned_all(old(store)@, old(ledger)@, observations@.take(n as int), now).store,
            ledger@ == scanned_all(
                old(store)@,
                old(ledger)@,
                observations@.take(n as int),
                now,
            ).ledger,
            filled == scanned_all(
                old(store)@,
                old(ledger)@,
                observations@.take(n as int),
                now,
            ).filled,
        decreases observations.len() - n,
    {
        proof {
            assert(observations@.take(n + 1).drop_last() =~= observations@.take(n as int));
        }
        let (trade_id, quote) = observations[n];
        if process_pending_order(store, ledger, trade_id, quote, now) {
            filled += 1;
        }
        n += 1;
    }
    proof {
        assert(observations@.take(n as int) =~= observations@);
    }
    filled
}

/// A pending limit order is filled only by a scan step that observes a price
/// across its target: at or below the target of a buy, at or above the target
/// of a sell. A step fills no order but the one it looks at, and every order
/// that a step removes from the active set was filled by it.
pub proof fn lemma_fill_only_when_crossed(
    store: OrderStoreView,
    ledger: LedgerView,
    trade_id: u64,
    quote: Option<u64>,
    now: u64,
    other_id: u64,
)
    requires
        store.wf(),
    ensures
        scanned(store, ledger, trade_id, quote, now).filled ==> {
            let i = active_index(store.active, trade_id)->0;
            let request = store.active[i].1;
            &&& active_index(store.active, trade_id) is Some
            &&& quote is Some
            &&& request.limit_price is Some
            &&& request.trade_type == TradeType::LimitBuy ==> quote->0 <= request.limit_price->0
            &&& request.trade_type == TradeType::LimitSell ==> quote->0 >= request.limit_price->0
            &&& request.trade_type.is_limit()
        },
        active_index(store.active, other_id) is Some && active_index(
            scanned(store, ledger, trade_id, quote, now).store.active,
            other_id,
        ) is None ==> other_id == trade_id && scanned(store, ledger, trade_id, quote, now).filled,
{
    let step = scanned(store, ledger, trade_id, quote, now);
    if active_index(store.active, other_id) is Some && step.filled {
        let i = active_index(store.active, trade_id)->0;
        let k = active_index(store.active, other_id)->0;
        if other_id != trade_id {
            let after = store.active.remove(i);
            if k < i {
                assert(after[k].0 == other_id);
            } else {
                assert(after[k - 1].0 == other_id);
            }
        }
    }
}

/// Cancelling an id that is not active fails as not found; cancelling the
/// order of another owner fails as not authorized; and after an order was
/// cancelled, cancelling its id again, by anyone, fails as not found.
pub proof fn lemma_cancel_outcomes(
    store: OrderStoreView,
    user: Principal,
    trade_id: u64,
    now: u64,
    again_user: Principal,
    again_now: u64,
)
    requires
        store.wf(),
    ensures
        active_index(store.active, trade_id) is None ==> cancelled(store, user, trade_id, now).result
            == Err::<TradeResponse, TradeError>(TradeError::NotFound),
        active_index(store.active, trade_id) is Some && store.active[active_index(
            store.active,
            trade_id,
        )->0].1.user_id != user ==> cancelled(store, user, trade_id, now).result == Err::<
            TradeResponse,
            TradeError,
        >(TradeError::NotAuthorized),
        cancelled(store, user, trade_id, now).result is Ok ==> cancelled(
            cancelled(store, user, trade_id, now).store,
            again_user,
            trade_id,
            again_now,
        ).result == Err::<TradeResponse, TradeError>(TradeError::NotFound),
        cancelled(store, user, trade_id, now).result is Err ==> cancelled(
            store,
            user,
            trade_id,
            now,
        ).store == store,
{
    let first = cancelled(store, user, trade_id, now);
    if first.result is Ok {
        let i = active_index(store.active, trade_id)->0;
        let after = store.active.remove(i);
        assert forall|k: int| 0 <= k < after.len() implies (#[trigger] after[k]).0 != trade_id by {
            if k < i {
                assert(after[k] == store.active[k]);
                assert(store.active[k].0 < store.active[i].0);
            } else {
                assert(after[k] == store.active[k + 1]);
                assert(store.active[i].0 < store.active[k + 1].0);
            }
        }
    }
}

/// The id of an admitted order is one above the last id given out, so it is
/// above every id in the active set and in the history; and no operation ever
/// lowers the counter, so an id that was given out, to an order that was later
/// cancelled or filled too, is never given out again.
pub proof fn lemma_trade_ids_rise(
    store: OrderStoreView,
    ledger: LedgerView,
    request: TradeRequestView,
    quote: Option<u64>,
    now: u64,
    user: Principal,
    trade_id: u64,
)
    requires
        store.wf(),
        store.counter < u64::MAX,
    ensures
        submitted(store, ledger, request, quote, now).result is Ok ==> {
            let id = submitted(store, ledger, request, quote, now).result->Ok_0.trade_id;
            &&& id == store.counter + 1
            &&& id == submitted(store, ledger, request, quote, now).store.counter
            &&& forall|i: int| 0 <= i < store.active.len() ==> (#[trigger] store.active[i]).0 < id
            &&& forall|i: int|
                0 <= i < store.history.len() ==> (#[trigger] store.history[i]).response.trade_id < id
        },
        submitted(store, ledger, request, quote, now).store.counter >= store.counter,
        cancelled(store, user, trade_id, now).store.counter == store.counter,
        scanned(store, ledger, trade_id, quote, now).store.counter == store.counter,
{
}

} // verus!