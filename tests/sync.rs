use forgery::sync::SyncCursor;

#[test]
fn sync_rolls_to_new_height() {
    let mut c = SyncCursor::new(100, vec![5u8; 20]);
    let h = c.plan(Some(103));
    assert_eq!(h, Some(103));
    c.record(103, true);
    assert_eq!(c.height, 103);
    assert_eq!(c.program, vec![5u8; 20]);
}

#[test]
fn sync_ignores_same_or_lower_height() {
    let c = SyncCursor::new(100, vec![5u8; 20]);
    assert_eq!(c.plan(Some(100)), None);
    assert_eq!(c.plan(Some(99)), None);
    assert_eq!(c.plan(None), None);
}

#[test]
fn sync_failed_roll_keeps_height() {
    let mut c = SyncCursor::new(100, vec![5u8; 20]);
    c.record(110, false);
    assert_eq!(c.height, 100);
    c.record(90, true);
    assert_eq!(c.height, 100);
    assert_eq!(c.program, vec![5u8; 20]);
}
