//! What holds of the order engine over many operations: ids over any run of
//! submissions, cancellations and scan steps, and fills over a whole scan.

use vstd::prelude::*;
use candid::Principal;
use crate::common_types::{TradeRequestView, TradeResponse, TradeStatus};
use crate::trade_engine::{
    active_index,
    is_first_entry,
    HistoryEntry,
    cancelled,
    lemma_active_index,
    lemma_fill_only_when_crossed,
    lemma_mark_filled_keeps_ids,
    limit_triggered,
    scanned,
    scanned_all,
    submitted,
    validation_error,
    OrderStoreView,
};
use crate::wallet::LedgerView;

verus! {

/// One operation on the order store and the ledger.
pub enum Operation {
    Submit { request: TradeRequestView, quote: Option<u64>, now: u64 },
    Cancel { user: Principal, trade_id: u64, now: u64 },
    Scan { trade_id: u64, quote: Option<u64>, now: u64 },
}

/// A store together with a ledger.
pub struct Engine {
    pub store: OrderStoreView,
    pub ledger: LedgerView,
}

/// What one operation leaves behind.
pub open spec fn performed(engine: Engine, operation: Operation) -> Engine {
    match operation {
        Operation::Submit { request, quote, now } => Engine {
            store: submitted(engine.store, engine.ledger, request, quote, now).store,
            ledger: submitted(engine.store, engine.ledger, request, quote, now).ledger,
        },
        Operation::Cancel { user, trade_id, now } => Engine {
            store: cancelled(engine.store, user, trade_id, now).store,
            ledger: engine.ledger,
        },
        Operation::Scan { trade_id, quote, now } => Engine {
            store: scanned(engine.store, engine.ledger, trade_id, quote, now).store,
            ledger: scanned(engine.store, engine.ledger, trade_id, quote, now).ledger,
        },
    }
}

/// What a run of operations leaves behind, each taken on what the one before
/// left.
pub open spec fn performed_all(engine: Engine, operations: Seq<Operation>) -> Engine
    decreases operations.len(),
{
    if operations.len() == 0 {
        engine
    } else {
        performed(performed_all(engine, operations.drop_last()), operations.last())
    }
}

/// The id that an operation gives out: that of the order, when the operation
/// is a submission that succeeds.
pub open spec fn issued_id(engine: Engine, operation: Operation) -> Option<u64> {
    match operation {
        Operation::Submit { request, quote, now } => match submitted(
            engine.store,
            engine.ledger,
            request,
            quote,
            now,
        ).result {
            Ok(response) => Some(response.trade_id),
            Err(_) => None,
        },
        _ => None,
    }
}

/// The id that operation `i` of a run gives out, on what the operations before
/// it left.
pub open spec fn issued_at(engine: Engine, operations: Seq<Operation>, i: int) -> Option<u64> {
    issued_id(performed_all(engine, operations.take(i)), operations[i])
}

/// Over a run of operations the counter never falls, and it rises by at most
/// one with each operation.
pub proof fn lemma_counter_never_falls(engine: Engine, operations: Seq<Operation>, a: int, b: int)
    requires
        engine.store.counter + operations.len() <= u64::MAX,
        0 <= a <= b <= operations.len(),
    ensures
        performed_all(engine, operations.take(a)).store.counter <= performed_all(
            engine,
            operations.take(b),
        ).store.counter,
        performed_all(engine, operations.take(b)).store.counter <= engine.store.counter + b,
    decreases b,
{
    if b == 0 {
        assert(operations.take(0).len() == 0);
    } else {
        assert(operations.take(b).drop_last() =~= operations.take(b - 1));
        assert(operations.take(b).last() == operations[b - 1]);
        if a == b {
            lemma_counter_never_falls(engine, operations, b - 1, b - 1);
        } else {
            lemma_counter_never_falls(engine, operations, a, b - 1);
        }
    }
}

/// Trade ids rise strictly and are never given out twice: of two successful
/// submissions in a run of operations, the later gets the higher id, whatever
/// was submitted, cancelled or filled in between. The run must leave room in
/// the counter for its ids.
pub proof fn lemma_ids_never_reused(engine: Engine, operations: Seq<Operation>, i: int, j: int)
    requires
        engine.store.counter + operations.len() <= u64::MAX,
        0 <= i < j < operations.len(),
        issued_at(engine, operations, i) is Some,
        issued_at(engine, operations, j) is Some,
    ensures
        issued_at(engine, operations, i)->0 < issued_at(engine, operations, j)->0,
        engine.store.counter < issued_at(engine, operations, i)->0,
{
    lemma_counter_never_falls(engine, operations, i, i);
    lemma_counter_never_falls(engine, operations, i + 1, j);
    assert(operations.take(i + 1).drop_last() =~= operations.take(i));
    assert(operations.take(i + 1).last() == operations[i]);
    lemma_counter_never_falls(engine, operations, 0, i);
    assert(operations.take(0).len() == 0);
}

/// A scan step keeps the store well formed, and every order that is active
/// after it was active before it, as the same request.
pub proof fn lemma_scan_step_keeps(
    store: OrderStoreView,
    ledger: LedgerView,
    trade_id: u64,
    quote: Option<u64>,
    now: u64,
    id: u64,
)
    requires
        store.wf(),
    ensures
        scanned(store, ledger, trade_id, quote, now).store.wf(),
        scanned(store, ledger, trade_id, quote, now).store.counter == store.counter,
        active_index(scanned(store, ledger, trade_id, quote, now).store.active, id) is Some ==> {
            let after = scanned(store, ledger, trade_id, quote, now).store.active;
            &&& active_index(store.active, id) is Some
            &&& after[active_index(after, id)->0].1 == store.active[active_index(
                store.active,
                id,
            )->0].1
        },
{
    let step = scanned(store, ledger, trade_id, quote, now);
    let after = step.store.active;
    if step.filled {
        let i = active_index(store.active, trade_id)->0;
        let request = store.active[i].1;
        assert(after == store.active.remove(i));
        assert forall|a: int, b: int| 0 <= a < b < after.len() implies (#[trigger] after[a]).0 < (
        #[trigger] after[b]).0 by {
            let aa = if a < i {
                a
            } else {
                a + 1
            };
            let bb = if b < i {
                b
            } else {
                b + 1
            };
            assert(after[a] == store.active[aa] && after[b] == store.active[bb]);
        }
        assert forall|a: int| 0 <= a < after.len() implies 1 <= (#[trigger] after[a]).0
            <= store.counter && validation_error((#[trigger] after[a]).1) is None by {
            let aa = if a < i {
                a
            } else {
                a + 1
            };
            assert(after[a] == store.active[aa]);
        }
        lemma_mark_filled_keeps_ids(
            store.history,
            store.counter,
            request.user_id,
            trade_id,
            quote->0,
            request.limit_price,
        );
        if active_index(after, id) is Some {
            let k = active_index(after, id)->0;
            let kk = if k < i {
                k
            } else {
                k + 1
            };
            assert(after[k] == store.active[kk]);
            lemma_active_index(store.active, store.counter, kk);
        }
    }
}

/// A submission keeps the store well formed, while the counter has room for
/// one more id.
pub proof fn lemma_submission_keeps(
    store: OrderStoreView,
    ledger: LedgerView,
    request: TradeRequestView,
    quote: Option<u64>,
    now: u64,
)
    requires
        store.wf(),
        store.counter < u64::MAX,
    ensures
        submitted(store, ledger, request, quote, now).store.wf(),
{
}

/// A cancellation keeps the store well formed.
pub proof fn lemma_cancellation_keeps(store: OrderStoreView, user: Principal, trade_id: u64, now: u64)
    requires
        store.wf(),
    ensures
        cancelled(store, user, trade_id, now).store.wf(),
{
    let after = cancelled(store, user, trade_id, now).store;
    if cancelled(store, user, trade_id, now).result is Ok {
        let i = active_index(store.active, trade_id)->0;
        assert(after.active == store.active.remove(i));
        assert forall|a: int, b: int| 0 <= a < b < after.active.len() implies (
        #[trigger] after.active[a]).0 < (#[trigger] after.active[b]).0 by {
            let aa = if a < i {
                a
            } else {
                a + 1
            };
            let bb = if b < i {
                b
            } else {
                b + 1
            };
            assert(after.active[a] == store.active[aa] && after.active[b] == store.active[bb]);
        }
        assert forall|a: int| 0 <= a < after.active.len() implies 1 <= (
        #[trigger] after.active[a]).0 <= store.counter && validation_error(
            (#[trigger] after.active[a]).1,
        ) is None by {
            let aa = if a < i {
                a
            } else {
                a + 1
            };
            assert(after.active[a] == store.active[aa]);
        }
    }
}

/// A run of operations keeps the store well formed, while the counter has room
/// for its ids.
pub proof fn lemma_run_keeps(engine: Engine, operations: Seq<Operation>)
    requires
        engine.store.wf(),
        engine.store.counter + operations.len() <= u64::MAX,
    ensures
        performed_all(engine, operations).store.wf(),
    decreases operations.len(),
{
    if operations.len() > 0 {
        let front = operations.drop_last();
        let before = performed_all(engine, front);
        lemma_run_keeps(engine, front);
        assert(operations.take(operations.len() - 1) =~= front);
        lemma_counter_never_falls(engine, operations, 0, operations.len() - 1);
        match operations.last() {
            Operation::Submit { request, quote, now } => {
                lemma_submission_keeps(before.store, before.ledger, request, quote, now);
            },
            Operation::Cancel { user, trade_id, now } => {
                lemma_cancellation_keeps(before.store, user, trade_id, now);
            },
            Operation::Scan { trade_id, quote, now } => {
                lemma_scan_step_keeps(before.store, before.ledger, trade_id, quote, now, trade_id);
            },
        }
    }
}

/// The id that a submission gives out is new: when the submission is made, no
/// active order bears it and no entry of the history, whatever the run of
/// operations before it has submitted, cancelled or filled.
pub proof fn lemma_issued_id_is_new(engine: Engine, operations: Seq<Operation>, j: int)
    requires
        engine.store.wf(),
        engine.store.counter + operations.len() <= u64::MAX,
        0 <= j < operations.len(),
        issued_at(engine, operations, j) is Some,
    ensures
        forall|a: int|
            0 <= a < performed_all(engine, operations.take(j)).store.active.len() ==> (
            #[trigger] performed_all(engine, operations.take(j)).store.active[a]).0 < issued_at(
                engine,
                operations,
                j,
            )->0,
        forall|h: int|
            0 <= h < performed_all(engine, operations.take(j)).store.history.len() ==> (
            #[trigger] performed_all(
                engine,
                operations.take(j),
            ).store.history[h]).response.trade_id < issued_at(engine, operations, j)->0,
{
    lemma_run_keeps(engine, operations.take(j));
    lemma_counter_never_falls(engine, operations, 0, j);
}

/// A whole scan keeps the store well formed, and every order that is active
/// after it was active before it, as the same request.
pub proof fn lemma_scan_keeps(
    store: OrderStoreView,
    ledger: LedgerView,
    observations: Seq<(u64, Option<u64>)>,
    now: u64,
    id: u64,
)
    requires
        store.wf(),
    ensures
        scanned_all(store, ledger, observations, now).store.wf(),
        scanned_all(store, ledger, observations, now).store.counter == store.counter,
        active_index(scanned_all(store, ledger, observations, now).store.active, id) is Some ==> {
            let after = scanned_all(store, ledger, observations, now).store.active;
            &&& active_index(store.active, id) is Some
            &&& after[active_index(after, id)->0].1 == store.active[active_index(
                store.active,
                id,
            )->0].1
        },
    decreases observations.len(),
{
    if observations.len() > 0 {
        let before = scanned_all(store, ledger, observations.drop_last(), now);
        lemma_scan_keeps(store, ledger, observations.drop_last(), now, id);
        lemma_scan_step_keeps(
            before.store,
            before.ledger,
            observations.last().0,
            observations.last().1,
            now,
            id,
        );
    }
}

/// Whether an observation is one for order `trade_id` at a price across the
/// target of `request`: at or below the target of a limit buy, at or above
/// the target of a limit sell.
pub open spec fn crosses(
    request: TradeRequestView,
    trade_id: u64,
    observation: (u64, Option<u64>),
) -> bool {
    &&& observation.0 == trade_id
    &&& observation.1 is Some
    &&& request.limit_price is Some
    &&& limit_triggered(request.trade_type, request.limit_price->0, observation.1->0)
}

/// The entry that the fill of an order at `price` leaves in place of `entry`:
/// filled at that price, with the limit price of the order; the owner, the id,
/// the time and the amount stay.
pub open spec fn filled_entry(entry: HistoryEntry, request: TradeRequestView, price: u64) -> HistoryEntry {
    HistoryEntry {
        owner: entry.owner,
        response: TradeResponse {
            trade_id: entry.response.trade_id,
            status: TradeStatus::Filled,
            executed_price: Some(price),
            timestamp: entry.response.timestamp,
            amount: entry.response.amount,
            limit_price: request.limit_price,
        },
    }
}

/// Whether `observation` accounts for the change of entry `h` of the history
/// into `after`: the entry belongs to an active order and its owner, the
/// observation is one for that order at a price across its target, and
/// `after` is the entry filled at that price.
pub open spec fn filled_by(
    store: OrderStoreView,
    h: int,
    observation: (u64, Option<u64>),
    after: HistoryEntry,
) -> bool {
    let trade_id = store.history[h].response.trade_id;
    let request = store.active[active_index(store.active, trade_id)->0].1;
    &&& active_index(store.active, trade_id) is Some
    &&& request.user_id == store.history[h].owner
    &&& crosses(request, trade_id, observation)
    &&& after == filled_entry(store.history[h], request, observation.1->0)
}

/// A scan step keeps the length of the history and the owner and id of each
/// entry. It changes an entry only by filling the order that it looks at, and
/// an order that it fills is no longer active.
pub proof fn lemma_scan_step_history(
    store: OrderStoreView,
    ledger: LedgerView,
    trade_id: u64,
    quote: Option<u64>,
    now: u64,
)
    requires
        store.wf(),
    ensures
        scanned(store, ledger, trade_id, quote, now).store.history.len() == store.history.len(),
        forall|h: int|
            0 <= h < store.history.len() ==> {
                let after = #[trigger] scanned(store, ledger, trade_id, quote, now).store.history[h];
                &&& after.owner == store.history[h].owner
                &&& after.response.trade_id == store.history[h].response.trade_id
                &&& after != store.history[h] ==> scanned(store, ledger, trade_id, quote, now).filled
                    && store.history[h].response.trade_id == trade_id && filled_by(
                    store,
                    h,
                    (trade_id, quote),
                    after,
                )
            },
        scanned(store, ledger, trade_id, quote, now).filled ==> active_index(
            scanned(store, ledger, trade_id, quote, now).store.active,
            trade_id,
        ) is None && is_marked(store, trade_id, quote, scanned(store, ledger, trade_id, quote, now).store.history),
{
    let step = scanned(store, ledger, trade_id, quote, now);
    if step.filled {
        let i = active_index(store.active, trade_id)->0;
        let request = store.active[i].1;
        let after_active = store.active.remove(i);
        lemma_fill_only_when_crossed(store, ledger, trade_id, quote, now, trade_id);
        assert forall|k: int| 0 <= k < after_active.len() implies (#[trigger] after_active[k]).0
            != trade_id by {
            if k < i {
                assert(after_active[k] == store.active[k]);
                assert(store.active[k].0 < store.active[i].0);
            } else {
                assert(after_active[k] == store.active[k + 1]);
                assert(store.active[i].0 < store.active[k + 1].0);
            }
        }
        let history = store.history;
        let owner = request.user_id;
        if exists|k: int| is_first_entry(history, owner, trade_id, k) {
            let k = choose|k: int| is_first_entry(history, owner, trade_id, k);
            assert forall|h: int| 0 <= h < history.len() implies {
                let after = #[trigger] step.store.history[h];
                &&& after.owner == history[h].owner
                &&& after.response.trade_id == history[h].response.trade_id
                &&& after != history[h] ==> history[h].response.trade_id == trade_id && filled_by(
                    store,
                    h,
                    (trade_id, quote),
                    after,
                )
            } by {
                if h != k {
                    assert(step.store.history[h] == history[h]);
                }
            }
        }
    }
}

/// Whether `history` is the history of `store` with the oldest entry of the
/// order `trade_id`, if its owner has one, filled at the observed price.
pub open spec fn is_marked(
    store: OrderStoreView,
    trade_id: u64,
    quote: Option<u64>,
    history: Seq<HistoryEntry>,
) -> bool {
    let request = store.active[active_index(store.active, trade_id)->0].1;
    forall|h: int|
        is_first_entry(store.history, request.user_id, trade_id, h) ==> #[trigger] history[h]
            == filled_entry(store.history[h], request, quote->0)
}

/// A whole scan keeps the length of the history and the owner and id of each
/// entry.
pub proof fn lemma_scan_history_keys(
    store: OrderStoreView,
    ledger: LedgerView,
    observations: Seq<(u64, Option<u64>)>,
    now: u64,
)
    requires
        store.wf(),
    ensures
        scanned_all(store, ledger, observations, now).store.history.len() == store.history.len(),
        forall|h: int|
            0 <= h < store.history.len() ==> {
                let after = #[trigger] scanned_all(store, ledger, observations, now).store.history[h];
                &&& after.owner == store.history[h].owner
                &&& after.response.trade_id == store.history[h].response.trade_id
            },
    decreases observations.len(),
{
    if observations.len() > 0 {
        let front = observations.drop_last();
        let before = scanned_all(store, ledger, front, now);
        lemma_scan_history_keys(store, ledger, front, now);
        lemma_scan_keeps(store, ledger, front, now, 0);
        lemma_scan_step_history(
            before.store,
            before.ledger,
            observations.last().0,
            observations.last().1,
            now,
        );
        let last = scanned(
            before.store,
            before.ledger,
            observations.last().0,
            observations.last().1,
            now,
        ).store.history;
        assert forall|h: int| 0 <= h < store.history.len() implies {
            let after = #[trigger] scanned_all(store, ledger, observations, now).store.history[h];
            &&& after.owner == store.history[h].owner
            &&& after.response.trade_id == store.history[h].response.trade_id
        } by {
            assert(last[h].owner == before.store.history[h].owner);
        }
    }
}

/// A scan changes an entry of the history only by filling its order: there is
/// an observation for that order at a price across its target, the entry is
/// the one filled at that price, and the order is no longer active.
pub proof fn lemma_scan_changes_by_fill(
    store: OrderStoreView,
    ledger: LedgerView,
    observations: Seq<(u64, Option<u64>)>,
    now: u64,
    h: int,
)
    requires
        store.wf(),
        0 <= h < store.history.len(),
        scanned_all(store, ledger, observations, now).store.history[h] != store.history[h],
    ensures
        exists|n: int|
            0 <= n < observations.len() && filled_by(
                store,
                h,
                #[trigger] observations[n],
                scanned_all(store, ledger, observations, now).store.history[h],
            ),
        active_index(
            scanned_all(store, ledger, observations, now).store.active,
            store.history[h].response.trade_id,
        ) is None,
    decreases observations.len(),
{
    let trade_id = store.history[h].response.trade_id;
    let after = scanned_all(store, ledger, observations, now).store;
    if observations.len() > 0 {
        let front = observations.drop_last();
        let before = scanned_all(store, ledger, front, now);
        let last = observations.last();
        lemma_scan_keeps(store, ledger, front, now, trade_id);
        lemma_scan_history_keys(store, ledger, front, now);
        lemma_scan_step_history(before.store, before.ledger, last.0, last.1, now);
        lemma_scan_step_keeps(before.store, before.ledger, last.0, last.1, now, trade_id);
        assert(after.history == scanned(before.store, before.ledger, last.0, last.1, now).store.history);
        assert(before.store.history[h].response.trade_id == trade_id);
        if after.history[h] == before.store.history[h] {
            lemma_scan_changes_by_fill(store, ledger, front, now, h);
            let n = choose|n: int|
                0 <= n < front.len() && filled_by(store, h, #[trigger] front[n], before.store.history[h]);
            assert(observations[n] == front[n]);
        } else {
            assert(filled_by(before.store, h, (last.0, last.1), after.history[h]));
            if before.store.history[h] != store.history[h] {
                lemma_scan_changes_by_fill(store, ledger, front, now, h);
                assert(false);
            }
            assert(last == (last.0, last.1));
            assert(filled_by(store, h, observations[observations.len() - 1], after.history[h]));
        }
    }
}

/// An order that leaves the active set in a scan was filled by it: the scan
/// holds an observation for the order at a price across its target, now the
/// executed price of the oldest entry that the owner's history has for the
/// order, which is filled.
pub proof fn lemma_scan_fill_is_recorded(
    store: OrderStoreView,
    ledger: LedgerView,
    observations: Seq<(u64, Option<u64>)>,
    now: u64,
    trade_id: u64,
    h: int,
)
    requires
        store.wf(),
        active_index(store.active, trade_id) is Some,
        active_index(scanned_all(store, ledger, observations, now).store.active, trade_id) is None,
        is_first_entry(
            store.history,
            store.active[active_index(store.active, trade_id)->0].1.user_id,
            trade_id,
            h,
        ),
    ensures
        exists|n: int|
            0 <= n < observations.len() && crosses(
                store.active[active_index(store.active, trade_id)->0].1,
                trade_id,
                #[trigger] observations[n],
            ) && scanned_all(store, ledger, observations, now).store.history[h] == filled_entry(
                store.history[h],
                store.active[active_index(store.active, trade_id)->0].1,
                observations[n].1->0,
            ),
    decreases observations.len(),
{
    let request = store.active[active_index(store.active, trade_id)->0].1;
    let after = scanned_all(store, ledger, observations, now).store;
    if observations.len() > 0 {
        let front = observations.drop_last();
        let before = scanned_all(store, ledger, front, now);
        let last = observations.last();
        lemma_scan_keeps(store, ledger, front, now, trade_id);
        lemma_scan_history_keys(store, ledger, front, now);
        lemma_scan_step_history(before.store, before.ledger, last.0, last.1, now);
        assert(after.history == scanned(before.store, before.ledger, last.0, last.1, now).store.history);
        assert(before.store.history[h].response.trade_id == trade_id);
        if active_index(before.store.active, trade_id) is None {
            lemma_scan_fill_is_recorded(store, ledger, front, now, trade_id, h);
            let n = choose|n: int|
                0 <= n < front.len() && crosses(request, trade_id, #[trigger] front[n])
                    && before.store.history[h] == filled_entry(
                    store.history[h],
                    request,
                    front[n].1->0,
                );
            assert(observations[n] == front[n]);
            if after.history[h] != before.store.history[h] {
                assert(filled_by(before.store, h, (last.0, last.1), after.history[h]));
                assert(false);
            }
        } else {
            lemma_fill_only_when_crossed(before.store, before.ledger, last.0, last.1, now, trade_id);
            if before.store.history[h] != store.history[h] {
                lemma_scan_changes_by_fill(store, ledger, front, now, h);
                assert(false);
            }
            assert(is_first_entry(before.store.history, request.user_id, trade_id, h)) by {
                assert forall|j: int| 0 <= j < h implies !((#[trigger] before.store.history[j]).owner
                    == request.user_id && before.store.history[j].response.trade_id == trade_id) by {
                    assert(before.store.history[j].owner == store.history[j].owner);
                    assert(!(store.history[j].owner == request.user_id
                        && store.history[j].response.trade_id == trade_id));
                }
            }
            assert(is_marked(before.store, trade_id, last.1, after.history));
            assert(crosses(request, trade_id, observations[observations.len() - 1]));
        }
    }
}

/// An order leaves the active set in a scan only when the scan holds an
/// observation for it at a price across its target. So a limit buy that sees
/// only prices above its target, or none, is still active after the scan, and
/// so is a limit sell that sees only prices below its target, or none.
pub proof fn lemma_scan_fills_only_when_crossed(
    store: OrderStoreView,
    ledger: LedgerView,
    observations: Seq<(u64, Option<u64>)>,
    now: u64,
    trade_id: u64,
)
    requires
        store.wf(),
        active_index(store.active, trade_id) is Some,
        active_index(scanned_all(store, ledger, observations, now).store.active, trade_id) is None,
    ensures
        exists|n: int|
            0 <= n < observations.len() && crosses(
                store.active[active_index(store.active, trade_id)->0].1,
                trade_id,
                #[trigger] observations[n],
            ),
    decreases observations.len(),
{
    let request = store.active[active_index(store.active, trade_id)->0].1;
    if observations.len() > 0 {
        let front = observations.drop_last();
        let before = scanned_all(store, ledger, front, now);
        lemma_scan_keeps(store, ledger, front, now, trade_id);
        if active_index(before.store.active, trade_id) is None {
            lemma_scan_fills_only_when_crossed(store, ledger, front, now, trade_id);
            let n = choose|n: int|
                0 <= n < front.len() && crosses(request, trade_id, #[trigger] front[n]);
            assert(observations[n] == front[n]);
        } else {
            lemma_fill_only_when_crossed(
                before.store,
                before.ledger,
                observations.last().0,
                observations.last().1,
                now,
                trade_id,
            );
            assert(crosses(request, trade_id, observations[observations.len() - 1]));
        }
    }
}

} // verus!
