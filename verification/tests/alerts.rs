use kongbot::alert::{
    alert_fires, check_alerts, init_alert_monitoring, is_check_due, process_alert,
    threshold_crossed, PriceAlert, ThresholdType,
};
use kongbot::price::{calculate_cycles, price_url};
use kongbot::state::{InitOrUpgradeArgs, State};

fn alert(chat: &str, coin: &str, threshold: u64, threshold_type: ThresholdType) -> PriceAlert {
    PriceAlert {
        chat_id: chat.to_string(),
        coin: coin.to_string(),
        threshold,
        threshold_type,
        triggered: false,
    }
}

fn flags(state: &State) -> Vec<bool> {
    state.get_price_alerts().iter().map(|a| a.triggered).collect()
}

#[test]
fn state_keeps_its_key() {
    let args = InitOrUpgradeArgs { oc_public_key: "key one".to_string() };
    let mut state = State::new(args.oc_public_key);
    assert_eq!(state.oc_public_key(), "key one");
    assert!(state.get_price_alerts().is_empty());
    state.add_price_alert(alert("chat", "bitcoin", 1, ThresholdType::Above));
    state.update("key two".to_string());
    assert_eq!(state.oc_public_key(), "key two");
    assert_eq!(state.get_price_alerts().len(), 1);
}

#[test]
fn monitoring_starts_without_alerts() {
    assert!(init_alert_monitoring().is_empty());
}

#[test]
fn alerts_are_listed_in_the_order_of_registration() {
    let mut state = State::new("k".to_string());
    state.add_price_alert(alert("chat", "bitcoin", 2_000_000, ThresholdType::Above));
    state.add_price_alert(alert("chat", "ethereum", 300_000, ThresholdType::Below));
    let alerts = state.get_price_alerts();
    assert_eq!(alerts.len(), 2);
    assert_eq!(alerts[0].coin, "bitcoin");
    assert_eq!(alerts[0].threshold, 2_000_000);
    assert_eq!(alerts[0].threshold_type, ThresholdType::Above);
    assert_eq!(alerts[1].chat_id, "chat");
    assert_eq!(alerts[1].coin, "ethereum");
    assert_eq!(alerts[1].threshold_type, ThresholdType::Below);
    assert!(!alerts[0].triggered && !alerts[1].triggered);
}

#[test]
fn threshold_is_crossed_from_its_side() {
    assert!(threshold_crossed(ThresholdType::Above, 300_000, 310_000));
    assert!(threshold_crossed(ThresholdType::Above, 300_000, 300_000));
    assert!(!threshold_crossed(ThresholdType::Above, 300_000, 299_999));
    assert!(threshold_crossed(ThresholdType::Below, 300_000, 299_999));
    assert!(threshold_crossed(ThresholdType::Below, 300_000, 300_000));
    assert!(!threshold_crossed(ThresholdType::Below, 300_000, 300_001));
}

#[test]
fn alert_above_fires_on_the_first_scan() {
    let mut state = State::new("k".to_string());
    state.add_price_alert(alert("chat", "ethereum", 300_000, ThresholdType::Above));
    assert_eq!(check_alerts(&mut state, &vec![Some(310_000)]), vec![0]);
    assert_eq!(flags(&state), vec![true]);
}

#[test]
fn triggered_alert_never_goes_back() {
    let mut state = State::new("k".to_string());
    state.add_price_alert(alert("chat", "ethereum", 300_000, ThresholdType::Above));
    check_alerts(&mut state, &vec![Some(310_000)]);
    assert!(check_alerts(&mut state, &vec![Some(100)]).is_empty());
    assert_eq!(flags(&state), vec![true]);
    assert!(check_alerts(&mut state, &vec![None]).is_empty());
    assert_eq!(flags(&state), vec![true]);
    assert!(check_alerts(&mut state, &vec![Some(400_000)]).is_empty());
    assert_eq!(flags(&state), vec![true]);
}

#[test]
fn alert_waits_until_the_price_crosses() {
    let mut state = State::new("k".to_string());
    state.add_price_alert(alert("chat", "ethereum", 300_000, ThresholdType::Below));
    assert!(check_alerts(&mut state, &vec![Some(300_001)]).is_empty());
    assert_eq!(flags(&state), vec![false]);
    assert!(check_alerts(&mut state, &vec![None]).is_empty());
    assert!(check_alerts(&mut state, &vec![]).is_empty());
    assert_eq!(flags(&state), vec![false]);
    assert_eq!(check_alerts(&mut state, &vec![Some(299_000)]), vec![0]);
    assert_eq!(flags(&state), vec![true]);
}

#[test]
fn each_alert_is_checked_with_its_own_price() {
    let mut state = State::new("k".to_string());
    state.add_price_alert(alert("one", "bitcoin", 2_000_000, ThresholdType::Above));
    state.add_price_alert(alert("one", "ethereum", 300_000, ThresholdType::Above));
    state.add_price_alert(alert("two", "bitcoin", 1_000_000, ThresholdType::Below));
    let fired = check_alerts(&mut state, &vec![Some(1_500_000), Some(300_000), Some(1_500_000)]);
    assert_eq!(fired, vec![1]);
    assert_eq!(flags(&state), vec![false, true, false]);
    let fired = check_alerts(&mut state, &vec![Some(2_500_000), Some(1), None, Some(9)]);
    assert_eq!(fired, vec![0]);
    assert_eq!(flags(&state), vec![true, true, false]);
}

#[test]
fn alerts_of_one_chat_and_coin_are_judged_one_by_one() {
    let mut state = State::new("k".to_string());
    state.add_price_alert(alert("one", "ethereum", 300_000, ThresholdType::Above));
    state.add_price_alert(alert("one", "ethereum", 500_000, ThresholdType::Above));
    state.add_price_alert(alert("two", "ethereum", 500_000, ThresholdType::Above));
    let fired = check_alerts(&mut state, &vec![Some(310_000), Some(310_000), Some(310_000)]);
    assert_eq!(fired, vec![0]);
    assert_eq!(flags(&state), vec![true, false, false]);
    let fired = check_alerts(&mut state, &vec![Some(600_000), Some(600_000), Some(100)]);
    assert_eq!(fired, vec![1]);
    assert_eq!(flags(&state), vec![true, true, false]);
}

#[test]
fn alert_without_a_price_stays_while_its_twin_fires() {
    let mut state = State::new("k".to_string());
    state.add_price_alert(alert("one", "bitcoin", 2_000_000, ThresholdType::Above));
    state.add_price_alert(alert("one", "bitcoin", 2_000_000, ThresholdType::Above));
    let fired = check_alerts(&mut state, &vec![None, Some(2_000_000)]);
    assert_eq!(fired, vec![1]);
    assert_eq!(flags(&state), vec![false, true]);
    let fired = check_alerts(&mut state, &vec![Some(2_000_000)]);
    assert_eq!(fired, vec![0]);
    assert_eq!(flags(&state), vec![true, true]);
}

#[test]
fn one_step_of_the_monitor() {
    let mut state = State::new("k".to_string());
    let registered = alert("chat", "ethereum", 300_000, ThresholdType::Above);
    state.add_price_alert(alert("chat", "ethereum", 900_000, ThresholdType::Above));
    state.add_price_alert(registered.clone());
    assert!(!alert_fires(&registered, None));
    assert!(!alert_fires(&registered, Some(299_999)));
    assert!(alert_fires(&registered, Some(300_000)));
    assert!(!process_alert(&mut state, 1, &registered, Some(299_999)));
    assert!(!process_alert(&mut state, 1, &registered, None));
    assert_eq!(flags(&state), vec![false, false]);
    assert!(process_alert(&mut state, 1, &registered, Some(300_000)));
    assert_eq!(flags(&state), vec![false, true]);
    assert!(!process_alert(&mut state, 1, &registered, Some(300_000)));
    let mut fired = registered.clone();
    fired.triggered = true;
    assert!(!alert_fires(&fired, Some(300_000)));
    assert!(!process_alert(&mut state, 1, &fired, Some(300_000)));
    assert_eq!(flags(&state), vec![false, true]);
}

#[test]
fn step_acts_only_on_the_alert_that_was_priced() {
    let mut state = State::new("k".to_string());
    let first = alert("chat", "bitcoin", 2_000_000, ThresholdType::Above);
    let second = alert("chat", "ethereum", 300_000, ThresholdType::Above);
    state.add_price_alert(first.clone());
    state.add_price_alert(second.clone());
    assert!(state.holds_alert_at(0, &first));
    assert!(state.holds_alert_at(1, &second));
    assert!(!state.holds_alert_at(0, &second));
    assert!(!state.holds_alert_at(2, &second));
    assert!(state.remove_alert(&"chat".to_string(), &"bitcoin".to_string()));
    assert!(!process_alert(&mut state, 1, &second, Some(300_000)));
    assert!(!process_alert(&mut state, 0, &first, Some(2_000_000)));
    assert_eq!(flags(&state), vec![false]);
    assert!(process_alert(&mut state, 0, &second, Some(300_000)));
    assert_eq!(flags(&state), vec![true]);
}

#[test]
fn marking_by_place_touches_one_alert() {
    let mut state = State::new("k".to_string());
    state.add_price_alert(alert("one", "bitcoin", 1, ThresholdType::Above));
    state.add_price_alert(alert("one", "bitcoin", 1, ThresholdType::Above));
    state.mark_triggered_at(1);
    assert_eq!(flags(&state), vec![false, true]);
    state.mark_triggered_at(2);
    assert_eq!(flags(&state), vec![false, true]);
    state.mark_triggered_at(1);
    assert_eq!(flags(&state), vec![false, true]);
    let listed = state.get_price_alerts();
    assert_eq!((listed[1].chat_id.as_str(), listed[1].coin.as_str(), listed[1].threshold), ("one", "bitcoin", 1));
}

#[test]
fn mark_and_remove_go_by_chat_and_coin() {
    let mut state = State::new("k".to_string());
    state.add_price_alert(alert("one", "bitcoin", 1, ThresholdType::Above));
    state.add_price_alert(alert("two", "bitcoin", 2, ThresholdType::Above));
    state.add_price_alert(alert("one", "ethereum", 3, ThresholdType::Above));
    state.add_price_alert(alert("one", "bitcoin", 4, ThresholdType::Below));
    state.mark_alert_triggered(&"one".to_string(), &"bitcoin".to_string());
    assert_eq!(flags(&state), vec![true, false, false, true]);
    state.mark_alert_triggered(&"three".to_string(), &"bitcoin".to_string());
    assert_eq!(flags(&state), vec![true, false, false, true]);
    assert!(!state.remove_alert(&"one".to_string(), &"dogecoin".to_string()));
    assert_eq!(state.get_price_alerts().len(), 4);
    assert!(state.remove_alert(&"one".to_string(), &"bitcoin".to_string()));
    let left = state.get_price_alerts();
    assert_eq!(left.len(), 2);
    assert_eq!((left[0].chat_id.as_str(), left[0].threshold), ("two", 2));
    assert_eq!((left[1].coin.as_str(), left[1].threshold), ("ethereum", 3));
    assert!(!state.remove_alert(&"one".to_string(), &"bitcoin".to_string()));
}

#[test]
fn one_heartbeat_in_sixty_checks() {
    assert!(is_check_due(0));
    assert!(is_check_due(60));
    assert!(is_check_due(240));
    assert!(!is_check_due(1));
    assert!(!is_check_due(59));
    assert!(!is_check_due(255));
}

#[test]
fn cycles_for_a_price_request() {
    assert_eq!(calculate_cycles(0, 0), 480_000_000);
    assert_eq!(calculate_cycles(300, 100_000), 96_516_000_000);
    assert_eq!(calculate_cycles(1, 0), 480_120_000);
    assert_eq!(
        calculate_cycles(usize::MAX, usize::MAX),
        (400_000_000u128 + (usize::MAX as u128) * 900_000) * 120 / 100
    );
}

#[test]
fn address_of_a_price_request() {
    assert_eq!(
        price_url("bitcoin"),
        "https://api.coingecko.com/api/v3/simple/price?ids=bitcoin&vs_currencies=usd"
    );
    assert_eq!(
        price_url(""),
        "https://api.coingecko.com/api/v3/simple/price?ids=&vs_currencies=usd"
    );
}
