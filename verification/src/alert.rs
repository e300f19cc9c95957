//! Price alerts: the registered alerts and the rule by which one fires.
//!
//! An alert fires once. Its `triggered` flag goes from false to true when the
//! observed price crosses the threshold, and nothing in this library sets it
//! back.

use vstd::prelude::*;
use crate::state::State;

verus! {

/// The side from which a price crosses the threshold of an alert.
#[derive(Clone, Copy, Debug, PartialEq, Eq, Structural)]
pub enum ThresholdType {
    Above,
    Below,
}

/// A registered alert. `threshold` counts hundredths of a unit.
#[derive(Debug)]
pub struct PriceAlert {
    pub chat_id: String,
    pub coin: String,
    pub threshold: u64,
    pub threshold_type: ThresholdType,
    pub triggered: bool,
}

/// What a `PriceAlert` holds, with its strings as sequences of characters.
pub struct PriceAlertView {
    pub chat_id: Seq<char>,
    pub coin: Seq<char>,
    pub threshold: u64,
    pub threshold_type: ThresholdType,
    pub triggered: bool,
}

impl View for PriceAlert {
    type V = PriceAlertView;

    open spec fn view(&self) -> PriceAlertView {
        PriceAlertView {
            chat_id: self.chat_id@,
            coin: self.coin@,
            threshold: self.threshold,
            threshold_type: self.threshold_type,
            triggered: self.triggered,
        }
    }
}

impl Clone for PriceAlert {
    fn clone(&self) -> (r: Self)
        ensures
            r@ == self@,
    {
        PriceAlert {
            chat_id: self.chat_id.clone(),
            coin: self.coin.clone(),
            threshold: self.threshold,
            threshold_type: self.threshold_type,
            triggered: self.triggered,
        }
    }
}

/// What a list of alerts holds.
pub open spec fn alerts_view(alerts: Seq<PriceAlert>) -> Seq<PriceAlertView> {
    Seq::new(alerts.len(), |i: int| alerts[i]@)
}

/// Whether `price` has crossed `threshold`: at or above it for `Above`, at or
/// below it for `Below`.
pub open spec fn crossed(threshold_type: ThresholdType, threshold: u64, price: u64) -> bool {
    match threshold_type {
        ThresholdType::Above => price >= threshold,
        ThresholdType::Below => price <= threshold,
    }
}

/// Whether `price` has crossed `threshold`.
pub fn threshold_crossed(threshold_type: ThresholdType, threshold: u64, price: u64) -> (r: bool)
    ensures
        r == crossed(threshold_type, threshold, price),
{
    match threshold_type {
        ThresholdType::Above => price >= threshold,
        ThresholdType::Below => price <= threshold,
    }
}

/// Whether the monitor has to act on `alert` at the observed price: the alert
/// has not fired yet, a price was observed, and it has crossed the threshold.
pub open spec fn fires(alert: PriceAlertView, quote: Option<u64>) -> bool {
    !alert.triggered && quote is Some && crossed(alert.threshold_type, alert.threshold, quote->0)
}

/// Whether the monitor has to act on `alert` at the observed price, `None`
/// when the oracle gave none.
pub fn alert_fires(alert: &PriceAlert, quote: Option<u64>) -> (r: bool)
    ensures
        r == fires(alert@, quote),
{
    if alert.triggered {
        return false;
    }
    match quote {
        None => false,
        Some(price) => threshold_crossed(alert.threshold_type, alert.threshold, price),
    }
}

/// The alerts after every alert of chat `chat_id` for `coin` was marked as
/// triggered.
pub open spec fn marked(alerts: Seq<PriceAlertView>, chat_id: Seq<char>, coin: Seq<char>) -> Seq<
    PriceAlertView,
> {
    Seq::new(
        alerts.len(),
        |i: int|
            if alerts[i].chat_id == chat_id && alerts[i].coin == coin {
                PriceAlertView { triggered: true, ..alerts[i] }
            } else {
                alerts[i]
            },
    )
}

/// The alerts without those of chat `chat_id` for `coin`, the others in their
/// order.
pub open spec fn without(alerts: Seq<PriceAlertView>, chat_id: Seq<char>, coin: Seq<char>) -> Seq<
    PriceAlertView,
>
    decreases alerts.len(),
{
    if alerts.len() == 0 {
        Seq::empty()
    } else if alerts.last().chat_id == chat_id && alerts.last().coin == coin {
        without(alerts.drop_last(), chat_id, coin)
    } else {
        without(alerts.drop_last(), chat_id, coin).push(alerts.last())
    }
}

/// The registry with which alert monitoring starts: no alert is registered.
pub fn init_alert_monitoring() -> (registry: Vec<PriceAlert>)
    ensures
        registry@ == Seq::<PriceAlert>::empty(),
{
    Vec::new()
}

/// Out of how many heartbeats one checks the alerts.
pub const HEARTBEATS_PER_CHECK: u8 = 60;

/// Whether a heartbeat checks the alerts, given the random byte drawn for it:
/// the checks of many bots are spread out by drawing one heartbeat in
/// `HEARTBEATS_PER_CHECK`.
pub fn is_check_due(random_value: u8) -> (due: bool)
    ensures
        due == (random_value % HEARTBEATS_PER_CHECK == 0),
{
    random_value % HEARTBEATS_PER_CHECK == 0
}

/// The alerts after the one at `place` was marked as triggered; the same
/// alerts when there is none at `place`.
pub open spec fn triggered_at(alerts: Seq<PriceAlertView>, place: int) -> Seq<PriceAlertView> {
    if 0 <= place < alerts.len() {
        alerts.update(place, PriceAlertView { triggered: true, ..alerts[place] })
    } else {
        alerts
    }
}

/// The observation for the alert at place `i`: none where the list of
/// observations ends before it.
pub open spec fn quote_at(quotes: Seq<Option<u64>>, i: int) -> Option<u64> {
    if 0 <= i < quotes.len() {
        quotes[i]
    } else {
        None
    }
}

/// The alerts after one cycle of the monitor: each alert is judged on its own
/// threshold, direction and observation, and an alert that fires is marked as
/// triggered. Nothing else of any alert changes.
pub open spec fn checked(alerts: Seq<PriceAlertView>, quotes: Seq<Option<u64>>) -> Seq<
    PriceAlertView,
> {
    Seq::new(
        alerts.len(),
        |i: int|
            if fires(alerts[i], quote_at(quotes, i)) {
                PriceAlertView { triggered: true, ..alerts[i] }
            } else {
                alerts[i]
            },
    )
}

/// The places of the first `n` alerts that fire, in rising order.
pub open spec fn fired(alerts: Seq<PriceAlertView>, quotes: Seq<Option<u64>>, n: int) -> Seq<usize>
    decreases n,
{
    if n <= 0 {
        Seq::empty()
    } else if fires(alerts[n - 1], quote_at(quotes, n - 1)) {
        fired(alerts, quotes, n - 1).push((n - 1) as usize)
    } else {
        fired(alerts, quotes, n - 1)
    }
}

/// Whether the monitor marks the alert at `place`: the alert registered there
/// is still `alert`, the one that the observation was made for, and it fires.
pub open spec fn marks(
    alerts: Seq<PriceAlertView>,
    place: int,
    alert: PriceAlertView,
    quote: Option<u64>,
) -> bool {
    0 <= place < alerts.len() && alerts[place] == alert && fires(alert, quote)
}

/// One step of the monitor: judges `alert`, which was registered at `place`
/// when its price was observed, on its own threshold and direction, with the
/// price observed for its coin, `None` when the oracle gave none. When the
/// alert fires and is still registered at `place`, that alert is marked as
/// triggered, and no other. Returns whether it was marked, that is whether a
/// notification is due.
pub fn process_alert(state: &mut State, place: usize, alert: &PriceAlert, quote: Option<u64>) -> (notify:
    bool)
    ensures
        notify == marks(old(state)@.price_alerts, place as int, alert@, quote),
        final(state)@.oc_public_key == old(state)@.oc_public_key,
        final(state)@.price_alerts == if notify {
            triggered_at(old(state)@.price_alerts, place as int)
        } else {
            old(state)@.price_alerts
        },
{
    if alert_fires(alert, quote) && state.holds_alert_at(place, alert) {
        state.mark_triggered_at(place);
        true
    } else {
        false
    }
}

/// One cycle of the monitor. `quotes[i]` is the price observed for the coin of
/// the alert registered at place `i`, `None` where the oracle gave none; an
/// alert beyond the end of `quotes` has no observation. Each alert is judged
/// on its own: after the cycle it is triggered exactly when it was triggered
/// before or its own threshold is crossed by its own observation. Returns the
/// places of the alerts that fired in this cycle, for which a notification is
/// due.
pub fn check_alerts(state: &mut State, quotes: &Vec<Option<u64>>) -> (notify: Vec<usize>)
    ensures
        final(state)@.oc_public_key == old(state)@.oc_public_key,
        final(state)@.price_alerts == checked(old(state)@.price_alerts, quotes@),
        notify@ == fired(old(state)@.price_alerts, quotes@, old(state)@.price_alerts.len() as int),
        final(state)@.price_alerts.len() == old(state)@.price_alerts.len(),
        forall|i: int|
            0 <= i < old(state)@.price_alerts.len() ==> (#[trigger] final(state)@.price_alerts[i]).triggered
                == (old(state)@.price_alerts[i].triggered || fires(
                old(state)@.price_alerts[i],
                quote_at(quotes@, i),
            )),
{
    let snapshot = state.get_price_alerts();
    let mut notify: Vec<usize> = Vec::new();
    let mut i: usize = 0;
    while i < snapshot.len()
        invariant
            i <= snapshot.len(),
            alerts_view(snapshot@) == old(state)@.price_alerts,
            state@.oc_public_key == old(state)@.oc_public_key,
            state@.price_alerts.len() == old(state)@.price_alerts.len(),
            forall|k: int|
                0 <= k < i ==> (#[trigger] state@.price_alerts[k]) == checked(
                    old(state)@.price_alerts,
                    quotes@,
                )[k],
            forall|k: int|
                i <= k < snapshot.len() ==> (#[trigger] state@.price_alerts[k]) == old(
                    state,
                )@.price_alerts[k],
            notify@ == fired(old(state)@.price_alerts, quotes@, i as int),
        decreases snapshot.len() - i,
    {
        let quote = if i < quotes.len() {
            quotes[i]
        } else {
            None
        };
        assert(alerts_view(snapshot@).len() == snapshot.len());
        assert(snapshot[i as int]@ == alerts_view(snapshot@)[i as int]);
        if process_alert(state, i, &snapshot[i], quote) {
            notify.push(i);
        }
        i += 1;
    }
    proof {
        assert(alerts_view(snapshot@).len() == snapshot.len());
        assert(state@.price_alerts =~= checked(old(state)@.price_alerts, quotes@));
    }
    notify
}

/// Whatever the monitor observes, it changes nothing of an alert but its
/// flag, and a flag that is set stays set.
pub proof fn lemma_triggered_stays(alerts: Seq<PriceAlertView>, quotes: Seq<Option<u64>>)
    ensures
        checked(alerts, quotes).len() == alerts.len(),
        forall|i: int|
            0 <= i < alerts.len() ==> {
                let before = #[trigger] alerts[i];
                let after = checked(alerts, quotes)[i];
                &&& before.triggered ==> after.triggered
                &&& after.chat_id == before.chat_id
                &&& after.coin == before.coin
                &&& after.threshold == before.threshold
                &&& after.threshold_type == before.threshold_type
            },
{
}

/// An alert that has not fired ends a cycle as triggered exactly when its own
/// observation crosses its own threshold: an alert without an observation
/// stays as it is, whatever the other alerts of its chat and coin do.
pub proof fn lemma_alert_judged_on_its_own(
    alerts: Seq<PriceAlertView>,
    quotes: Seq<Option<u64>>,
    i: int,
)
    requires
        0 <= i < alerts.len(),
        !alerts[i].triggered,
    ensures
        checked(alerts, quotes)[i].triggered == (quote_at(quotes, i) is Some && crossed(
            alerts[i].threshold_type,
            alerts[i].threshold,
            quote_at(quotes, i)->0,
        )),
{
}

} // verus!
