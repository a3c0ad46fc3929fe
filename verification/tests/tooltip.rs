use slate_framework::elements::tooltip::{due_state, DEFAULT_DELAY};
use slate_framework::time::Timestamp;

const MS: u64 = 1_000_000;
const NOW: u64 = 50_000 * MS;

#[test]
fn not_hovering_is_hidden_and_unarmed() {
    let (show, due) = due_state(None, Timestamp::from_nanos(NOW), 500 * MS);
    assert!(!show);
    assert!(due.is_none());
}

#[test]
fn hovering_before_delay_is_hidden_but_armed() {
    let now = Timestamp::from_nanos(NOW);
    let since = Timestamp::from_nanos(NOW - 100 * MS);
    let (show, due) = due_state(Some(since), now, 500 * MS);
    assert!(!show, "100ms < 500ms delay -> not shown yet");
    assert_eq!(due, Some(since.plus(500 * MS)), "armed at due instant");
}

#[test]
fn hovering_past_delay_is_shown_and_unarmed() {
    let now = Timestamp::from_nanos(NOW);
    let since = Timestamp::from_nanos(NOW - 600 * MS);
    let (show, due) = due_state(Some(since), now, 500 * MS);
    assert!(show, "600ms >= 500ms delay -> shown");
    assert!(due.is_none(), "no redraw to arm once shown");
}

#[test]
fn hovering_exactly_the_delay_is_shown() {
    let now = Timestamp::from_nanos(NOW);
    let since = Timestamp::from_nanos(NOW - DEFAULT_DELAY);
    assert_eq!(due_state(Some(since), now, DEFAULT_DELAY), (true, None));
}

#[test]
fn hover_starting_after_now_counts_as_no_elapsed_time() {
    let now = Timestamp::from_nanos(NOW);
    let since = Timestamp::from_nanos(NOW + 10 * MS);
    assert_eq!(due_state(Some(since), now, 500 * MS), (false, Some(Timestamp::from_nanos(NOW + 510 * MS))));
}
