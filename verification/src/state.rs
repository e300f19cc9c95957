//! The state of the bot that outlives a command: its public key and the
//! registered price alerts.

use vstd::prelude::*;
use crate::alert::{
    alerts_view,
    init_alert_monitoring,
    marked,
    triggered_at,
    without,
    PriceAlert,
    PriceAlertView,
};

verus! {

/// What the bot is started or upgraded with.
#[derive(Debug)]
pub struct InitOrUpgradeArgs {
    pub oc_public_key: String,
}

/// The state of the bot.
pub struct State {
    oc_public_key: String,
    price_alerts: Vec<PriceAlert>,
}

/// What a `State` holds.
pub struct StateView {
    pub oc_public_key: Seq<char>,
    pub price_alerts: Seq<PriceAlertView>,
}

impl View for State {
    type V = StateView;

    closed spec fn view(&self) -> StateView {
        StateView {
            oc_public_key: self.oc_public_key@,
            price_alerts: alerts_view(self.price_alerts@),
        }
    }
}

impl State {
    /// A state with the given key and no alert.
    pub fn new(oc_public_key: String) -> (state: State)
        ensures
            state@.oc_public_key == oc_public_key@,
            state@.price_alerts == Seq::<PriceAlertView>::empty(),
    {
        let state = State { oc_public_key, price_alerts: init_alert_monitoring() };
        assert(state@.price_alerts =~= Seq::<PriceAlertView>::empty());
        state
    }

    /// Replaces the key and keeps the alerts.
    pub fn update(&mut self, oc_public_key: String)
        ensures
            final(self)@.oc_public_key == oc_public_key@,
            final(self)@.price_alerts == old(self)@.price_alerts,
    {
        self.oc_public_key = oc_public_key;
    }

    /// The key.
    pub fn oc_public_key(&self) -> (key: &str)
        ensures
            key@ == self@.oc_public_key,
    {
        self.oc_public_key.as_str()
    }

    /// Registers an alert behind those already registered.
    pub fn add_price_alert(&mut self, alert: PriceAlert)
        ensures
            final(self)@.oc_public_key == old(self)@.oc_public_key,
            final(self)@.price_alerts == old(self)@.price_alerts.push(alert@),
    {
        self.price_alerts.push(alert);
        assert(self@.price_alerts =~= old(self)@.price_alerts.push(alert@));
    }

    /// A copy of the registered alerts, in the order of their registration.
    pub fn get_price_alerts(&self) -> (alerts: Vec<PriceAlert>)
        ensures
            alerts_view(alerts@) == self@.price_alerts,
    {
        let mut alerts: Vec<PriceAlert> = Vec::new();
        let mut i: usize = 0;
        while i < self.price_alerts.len()
            invariant
                i <= self.price_alerts.len(),
                alerts.len() == i,
                forall|k: int| 0 <= k < i ==> (#[trigger] alerts[k])@ == self.price_alerts[k]@,
            decreases self.price_alerts.len() - i,
        {
            alerts.push(self.price_alerts[i].clone());
            i += 1;
        }
        assert(alerts_view(alerts@) =~= self@.price_alerts);
        alerts
    }

    /// Whether the alert registered at `place` is `alert`, field by field.
    pub fn holds_alert_at(&self, place: usize, alert: &PriceAlert) -> (held: bool)
        ensures
            held == (place < self@.price_alerts.len() && self@.price_alerts[place as int]
                == alert@),
    {
        if place >= self.price_alerts.len() {
            return false;
        }
        assert(self@.price_alerts[place as int] == self.price_alerts[place as int]@);
        let registered = &self.price_alerts[place];
        let same = registered.chat_id == alert.chat_id && registered.coin == alert.coin
            && registered.threshold == alert.threshold && registered.threshold_type
            == alert.threshold_type && registered.triggered == alert.triggered;
        same
    }

    /// Marks the alert registered at `place` as triggered, and no other. A
    /// place beyond the last alert marks nothing.
    pub fn mark_triggered_at(&mut self, place: usize)
        ensures
            final(self)@.oc_public_key == old(self)@.oc_public_key,
            final(self)@.price_alerts == triggered_at(old(self)@.price_alerts, place as int),
    {
        if place < self.price_alerts.len() {
            self.price_alerts[place].triggered = true;
        }
        assert(self@.price_alerts =~= triggered_at(old(self)@.price_alerts, place as int));
    }

    /// Marks every alert of chat `chat_id` for `coin` as triggered. No alert
    /// is ever marked as not triggered.
    pub fn mark_alert_triggered(&mut self, chat_id: &String, coin: &String)
        ensures
            final(self)@.oc_public_key == old(self)@.oc_public_key,
            final(self)@.price_alerts == marked(old(self)@.price_alerts, chat_id@, coin@),
    {
        let mut i: usize = 0;
        while i < self.price_alerts.len()
            invariant
                i <= self.price_alerts.len(),
                self.oc_public_key == old(self).oc_public_key,
                self.price_alerts.len() == old(self).price_alerts.len(),
                forall|k: int|
                    0 <= k < i ==> (#[trigger] self.price_alerts[k])@ == marked(
                        old(self)@.price_alerts,
                        chat_id@,
                        coin@,
                    )[k],
                forall|k: int|
                    i <= k < self.price_alerts.len() ==> (#[trigger] self.price_alerts[k])@ == old(
                        self,
                    ).price_alerts[k]@,
            decreases self.price_alerts.len() - i,
        {
            if self.price_alerts[i].chat_id == *chat_id && self.price_alerts[i].coin == *coin {
                self.price_alerts[i].triggered = true;
            }
            i += 1;
        }
        assert(self@.price_alerts =~= marked(old(self)@.price_alerts, chat_id@, coin@));
    }

    /// Removes every alert of chat `chat_id` for `coin`, and says whether
    /// there was one.
    pub fn remove_alert(&mut self, chat_id: &String, coin: &String) -> (removed: bool)
        ensures
            final(self)@.oc_public_key == old(self)@.oc_public_key,
            final(self)@.price_alerts == without(old(self)@.price_alerts, chat_id@, coin@),
            removed == (final(self)@.price_alerts.len() < old(self)@.price_alerts.len()),
    {
        let mut kept: Vec<PriceAlert> = Vec::new();
        let mut i: usize = 0;
        while i < self.price_alerts.len()
            invariant
                i <= self.price_alerts.len(),
                *self == *old(self),
                kept.len() <= i,
                alerts_view(kept@) == without(self@.price_alerts.take(i as int), chat_id@, coin@),
            decreases self.price_alerts.len() - i,
        {
            proof {
                assert(self@.price_alerts.take(i + 1).drop_last() =~= self@.price_alerts.take(
                    i as int,
                ));
            }
            if !(self.price_alerts[i].chat_id == *chat_id && self.price_alerts[i].coin == *coin) {
                let ghost before = kept@;
                kept.push(self.price_alerts[i].clone());
                proof {
                    assert(alerts_view(kept@) =~= alerts_view(before).push(
                        self.price_alerts[i as int]@,
                    ));
                }
            }
            i += 1;
        }
        proof {
            assert(self@.price_alerts.take(i as int) =~= self@.price_alerts);
            assert(alerts_view(kept@).len() == kept.len());
        }
        let removed = kept.len() < self.price_alerts.len();
        self.price_alerts = kept;
        removed
    }
}

} // verus!
