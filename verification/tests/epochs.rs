use std::time::Duration;
use zeph::epoch::{epoch_at, epochs_in, epochs_spanning, EPOCH_MILLIS};

#[test]
fn epoch_index_is_the_shared_derivation() {
    assert_eq!(epoch_at(0), 0);
    assert_eq!(epoch_at(EPOCH_MILLIS - 1), 0);
    assert_eq!(epoch_at(EPOCH_MILLIS), 1);
    assert_eq!(epoch_at(EPOCH_MILLIS * 7 + 5), 7);
}

#[test]
fn a_window_is_expressed_in_time_and_survives_retuning() {
    let thirty_days = Duration::from_secs(30 * 24 * 3600);
    assert_eq!(
        epochs_in(thirty_days),
        thirty_days.as_millis() as u64 / EPOCH_MILLIS
    );
    // Sub-epoch windows still last one epoch.
    assert_eq!(epochs_in(Duration::from_millis(1)), 1);
    assert_eq!(epochs_in(Duration::ZERO), 1);
    // A window that overhangs a boundary keeps the whole final epoch.
    assert_eq!(epochs_in(Duration::from_millis(EPOCH_MILLIS + 1)), 2);
}

#[test]
fn a_window_keeps_the_epoch_that_it_overhangs_by_a_nanosecond() {
    assert_eq!(epochs_in(Duration::new(300, 0)), 1);
    assert_eq!(epochs_in(Duration::new(300, 1)), 2);
    assert_eq!(epochs_in(Duration::new(0, 1)), 1);
    assert_eq!(epochs_in(Duration::from_secs(u64::MAX)), u64::MAX / 300 + 1);
    assert_eq!(epochs_spanning(600, 1), 3);
}
