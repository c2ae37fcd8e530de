use panel800::alarms::{AlarmStack, AlarmTracker};

#[test]
fn new_stack_reports_no_changes() {
    let stack = AlarmStack::new();
    assert!(!stack.has_changes());
}

#[test]
fn export_code_is_exact() {
    let mut stack = AlarmStack::new();
    stack.push(&[true, false, false]);
    stack.push(&[false, true, false]);
    stack.push(&[true, true, true]);
    let code = stack.export_bits();
    // channel 0: rows 0 and 2 -> 1 + 4 = 5; channel 1: rows 1 and 2 -> 6;
    // channel 2: row 2 only -> 4.
    assert_eq!(code, ['5', '6', '4']);
}

#[test]
fn empty_window_exports_zeros() {
    let mut stack = AlarmStack::new();
    let code = stack.export_bits();
    assert_eq!(code, ['0', '0', '0']);
}

#[test]
fn round_trip_restores_full_window() {
    let rows = [[true, false, false], [false, true, false], [true, true, true]];
    let mut stack = AlarmStack::new();
    for row in rows.iter() {
        stack.push(row);
    }
    let code = stack.export_bits();
    let mut decoded = AlarmStack::new();
    decoded.import_bits(code);
    assert_eq!(decoded.get_stack_view(), rows);
}

#[test]
fn round_trip_all_bits_set() {
    let rows = [[true, true, true], [true, true, true], [true, true, true]];
    let mut stack = AlarmStack::new();
    for row in rows.iter() {
        stack.push(row);
    }
    let code = stack.export_bits();
    assert_eq!(code, ['7', '7', '7']);
    let mut decoded = AlarmStack::new();
    decoded.import_bits(code);
    assert_eq!(decoded.get_stack_view(), rows);
}

#[test]
fn fifo_eviction_keeps_last_three_in_push_order() {
    let mut stack = AlarmStack::new();
    stack.push(&[true, true, true]);
    stack.push(&[true, false, false]);
    stack.push(&[false, true, false]);
    stack.push(&[false, false, true]);
    // The first snapshot must be gone, whatever its value was.
    assert_eq!(
        stack.get_stack_view(),
        [[true, false, false], [false, true, false], [false, false, true]]
    );
}

#[test]
fn fifo_eviction_ignores_snapshot_values() {
    // Equal rows 0 and 1 must not change how eviction shifts.
    let mut stack = AlarmStack::new();
    stack.push(&[true, false, true]);
    stack.push(&[true, false, true]);
    stack.push(&[false, false, false]);
    stack.push(&[false, true, false]);
    assert_eq!(
        stack.get_stack_view(),
        [[true, false, true], [false, false, false], [false, true, false]]
    );
}

#[test]
fn no_change_right_after_export() {
    let mut stack = AlarmStack::new();
    stack.push(&[true, false, true]);
    stack.push(&[false, true, false]);
    let _ = stack.export_bits();
    assert!(!stack.has_changes());
}

#[test]
fn change_appears_iff_push_differs_from_baseline() {
    let mut stack = AlarmStack::new();
    stack.push(&[true, false, false]);
    let _ = stack.export_bits();
    // Same value as the baseline: still unchanged.
    stack.push(&[true, false, false]);
    assert!(!stack.has_changes());
    // A differing value on one channel: changed.
    stack.push(&[true, false, true]);
    assert!(stack.has_changes());
}

#[test]
fn import_bits_decodes_each_digit() {
    let mut stack = AlarmStack::new();
    stack.import_bits(['1', '2', '4']);
    assert_eq!(
        stack.get_stack_view(),
        [[true, false, false], [false, true, false], [false, false, true]]
    );
}

#[test]
fn import_bits_saturates_below_zero_digit() {
    let mut stack = AlarmStack::new();
    // A character below '0' decodes as digit zero.
    stack.import_bits([' ', '0', '0']);
    assert_eq!(stack.get_stack_view(), [[false; 3]; 3]);
}

#[test]
fn tracker_trait_matches_inherent_behaviour() {
    fn drive<T: AlarmTracker>(t: &mut T) -> [char; 3] {
        t.push(&[true, true, false]);
        t.export_bits()
    }
    let mut stack = AlarmStack::new();
    let code = drive(&mut stack);
    assert_eq!(code, ['1', '1', '0']);
    assert!(!stack.has_changes());
}

#[test]
fn default_stack_is_empty() {
    let stack: AlarmStack = Default::default();
    assert!(!stack.has_changes());
}
