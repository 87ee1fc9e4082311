use yaad::sui::{
    decide_trigger, process_metadata_trigger, IntentState, TriggerDecision, WindowMetadata, CONFIRMATION_NANOS,
    COOLDOWN_NANOS,
};

fn meta(app: &str, title: &str, url: &str) -> WindowMetadata {
    WindowMetadata {
        app_name: app.to_string(),
        title: title.to_string(),
        url: url.to_string(),
        error: None,
    }
}

const SEC: u64 = 1_000_000_000;

#[test]
fn default_state_is_empty() {
    let s = IntentState::default();
    assert!(s.last_triggered.is_none());
    assert!(s.confirmation_start.is_none());
    assert_eq!(s.current_context_hash, 0);
}

#[test]
fn matching_context_activates_after_three_seconds() {
    let mut s = IntentState::default();
    let m = meta("Safari", "Your Cart", "https://shop.example/cart");
    assert_eq!(process_metadata_trigger(&m, &mut s, 10 * SEC), TriggerDecision::Monitoring);
    assert_eq!(s.confirmation_start, Some(10 * SEC));
    assert_eq!(process_metadata_trigger(&m, &mut s, 12 * SEC), TriggerDecision::Monitoring);
    assert_eq!(process_metadata_trigger(&m, &mut s, 13 * SEC), TriggerDecision::Activate);
    assert_eq!(s.last_triggered, Some(13 * SEC));
    assert_eq!(s.confirmation_start, None);
}

#[test]
fn cooldown_ignores_everything_for_fifteen_minutes() {
    let mut s = IntentState::default();
    let m = meta("Safari", "Checkout", "");
    process_metadata_trigger(&m, &mut s, 0);
    assert_eq!(process_metadata_trigger(&m, &mut s, CONFIRMATION_NANOS), TriggerDecision::Activate);
    let before = s;
    let t = CONFIRMATION_NANOS + COOLDOWN_NANOS - 1;
    assert_eq!(process_metadata_trigger(&m, &mut s, t), TriggerDecision::Ignore);
    assert_eq!(s.last_triggered, before.last_triggered);
    assert_eq!(s.confirmation_start, before.confirmation_start);
    let t = CONFIRMATION_NANOS + COOLDOWN_NANOS;
    assert_eq!(process_metadata_trigger(&m, &mut s, t), TriggerDecision::Monitoring);
}

#[test]
fn a_non_matching_reading_resets_confirmation() {
    let mut s = IntentState::default();
    let buy = meta("Store", "Buy now", "");
    let other = meta("Notes", "Groceries list", "file:///notes");
    assert_eq!(process_metadata_trigger(&buy, &mut s, 0), TriggerDecision::Monitoring);
    assert_eq!(process_metadata_trigger(&other, &mut s, 2 * SEC), TriggerDecision::Ignore);
    assert_eq!(s.confirmation_start, None);
    assert_eq!(process_metadata_trigger(&buy, &mut s, 4 * SEC), TriggerDecision::Monitoring);
    assert_eq!(process_metadata_trigger(&buy, &mut s, 6 * SEC), TriggerDecision::Monitoring);
    assert_eq!(process_metadata_trigger(&buy, &mut s, 7 * SEC), TriggerDecision::Activate);
}

#[test]
fn matching_is_case_insensitive_and_covers_every_field() {
    for m in [
        meta("", "PAYMENT DETAILS", ""),
        meta("", "", "https://x.example/Subscribe"),
        meta("Receipt Viewer", "", ""),
        meta("", "Order #12", ""),
        meta("", "Billing", ""),
        meta("", "Pricing plans", ""),
    ] {
        let mut s = IntentState::default();
        assert_eq!(process_metadata_trigger(&m, &mut s, 0), TriggerDecision::Monitoring);
    }
    let mut s = IntentState::default();
    assert_eq!(
        process_metadata_trigger(&meta("Terminal", "cargo test", "about:blank"), &mut s, 0),
        TriggerDecision::Ignore
    );
}

#[test]
fn a_clock_reading_before_the_last_trigger_counts_as_cooldown() {
    let mut s = IntentState { last_triggered: Some(100 * SEC), confirmation_start: None, current_context_hash: 0 };
    let m = meta("", "cart", "");
    assert_eq!(process_metadata_trigger(&m, &mut s, 50 * SEC), TriggerDecision::Ignore);
}

#[test]
fn decisions_from_the_match_alone() {
    let mut s = IntentState::default();
    assert_eq!(decide_trigger(&mut s, true, 0), TriggerDecision::Monitoring);
    assert_eq!(decide_trigger(&mut s, true, CONFIRMATION_NANOS - 1), TriggerDecision::Monitoring);
    assert_eq!(decide_trigger(&mut s, true, CONFIRMATION_NANOS), TriggerDecision::Activate);
    // the next activation needs the cooldown and a fresh confirmation: 903 s
    let t = CONFIRMATION_NANOS + COOLDOWN_NANOS;
    assert_eq!(decide_trigger(&mut s, true, t), TriggerDecision::Monitoring);
    assert_eq!(decide_trigger(&mut s, true, t + CONFIRMATION_NANOS - 1), TriggerDecision::Monitoring);
    assert_eq!(decide_trigger(&mut s, true, t + CONFIRMATION_NANOS), TriggerDecision::Activate);
    assert_eq!(s.current_context_hash, 0);
    assert_eq!(decide_trigger(&mut s, false, t + CONFIRMATION_NANOS + COOLDOWN_NANOS), TriggerDecision::Ignore);
    assert_eq!(s.confirmation_start, None);
}
