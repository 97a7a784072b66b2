use beckon::action::RepeatPressConfirm;

const MS: u128 = 1_000_000;

#[test]
fn confirms_only_the_same_focused_pane_within_the_window() {
    let now: u128 = 5_000 * MS;
    let mut confirm = RepeatPressConfirm::default();
    confirm.arm("f1", "w:p1", 750 * MS, now);

    assert!(!confirm.take_if_ready("f1", "w:p1", false, now + MS));
    assert!(confirm.take_if_ready("f1", "w:p1", true, now + 2 * MS));
    assert!(!confirm.take_if_ready("f1", "w:p1", true, now + 3 * MS));
}

#[test]
fn expires_and_rejects_other_keys_or_panes() {
    let now: u128 = 5_000 * MS;
    let mut confirm = RepeatPressConfirm::default();
    confirm.arm("f1", "w:p1", 10 * MS, now);

    assert!(!confirm.take_if_ready("f2", "w:p1", true, now));
    assert!(!confirm.take_if_ready("f1", "w:p2", true, now));
    assert!(!confirm.take_if_ready("f1", "w:p1", true, now + 11 * MS));
}

#[test]
fn a_press_at_the_end_of_the_window_confirms() {
    let mut confirm = RepeatPressConfirm::default();
    confirm.arm("f1", "w:p1", 10 * MS, 100);
    assert!(!confirm.take_if_ready("f1", "w:p1", true, 101 + 10 * MS));
    assert!(confirm.take_if_ready("f1", "w:p1", true, 100 + 10 * MS));
}

#[test]
fn nothing_is_armed_at_first_and_a_later_press_replaces_what_is_armed() {
    let mut confirm = RepeatPressConfirm::default();
    assert!(!confirm.take_if_ready("f1", "w:p1", true, 0));
    confirm.arm("f1", "w:p1", MS, 0);
    confirm.arm("f2", "w:p2", MS, 0);
    assert!(!confirm.take_if_ready("f1", "w:p1", true, 1));
    assert!(confirm.take_if_ready("f2", "w:p2", true, 1));
}
