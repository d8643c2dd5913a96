//! The epoch: the one period on which the network rotates and closes.
//!
//! Every node derives the epoch from its clock alone, so all agree on it without
//! talking. Policy windows are kept as durations and turned into epoch counts here,
//! so that changing the period does not rescale them.

use std::time::Duration;
use vstd::prelude::*;

verus! {

/// The epoch period in milliseconds: five minutes.
pub const EPOCH_MILLIS: u64 = 300_000;

/// The whole seconds in a duration.
pub uninterp spec fn duration_secs(d: Duration) -> u64;

/// The nanoseconds of a duration beyond its whole seconds.
pub uninterp spec fn duration_subsec_nanos(d: Duration) -> u32;

/// `Duration::as_secs` names the whole seconds in a duration.
pub assume_specification[ Duration::as_secs ](d: &Duration) -> (secs: u64)
    ensures
        secs == duration_secs(*d),
;

/// `Duration::subsec_nanos` names the part of a duration beyond its whole seconds, which is
/// less than a second.
pub assume_specification[ Duration::subsec_nanos ](d: &Duration) -> (nanos: u32)
    ensures
        nanos == duration_subsec_nanos(*d),
        nanos < 1_000_000_000,
;

/// The epoch that holds the instant `now_millis`.
pub fn epoch_at(now_millis: u64) -> (epoch: u64)
    ensures
        epoch as int == now_millis as int / EPOCH_MILLIS as int,
{
    now_millis / EPOCH_MILLIS
}

/// The epoch period in nanoseconds.
pub open spec fn epoch_nanos() -> int {
    EPOCH_MILLIS * 1_000_000
}

/// So many seconds and nanoseconds, in nanoseconds.
pub open spec fn in_nanos(secs: u64, nanos: u32) -> int {
    secs * 1_000_000_000 + nanos
}

/// The least number of whole epochs that covers `nanos` nanoseconds, and at least one.
pub open spec fn epochs_covering(nanos: int) -> int {
    if nanos == 0 {
        1
    } else {
        (nanos + epoch_nanos() - 1) / epoch_nanos()
    }
}

/// How many epochs span so many seconds and nanoseconds: rounded up, never zero.
pub fn epochs_spanning(secs: u64, nanos: u32) -> (epochs: u64)
    ensures
        epochs == epochs_covering(in_nanos(secs, nanos)),
{
    let total: u128 = secs as u128 * 1_000_000_000 + nanos as u128;
    let period: u128 = EPOCH_MILLIS as u128 * 1_000_000;
    let whole: u128 = total / period;
    let n: u128 = if total % period == 0 {
        whole
    } else {
        whole + 1
    };
    assert(period == 300_000_000_000);
    assert(whole == total / 300_000_000_000);
    assert(total % period == total % 300_000_000_000);
    assert(epochs_covering(total as int) == if total == 0 {
        1
    } else {
        (total + 299_999_999_999) / 300_000_000_000
    });
    if n == 0 {
        1
    } else {
        n as u64
    }
}

/// How many epochs span `d`: rounded up, never zero.
pub fn epochs_in(d: Duration) -> (epochs: u64)
    ensures
        epochs == epochs_covering(in_nanos(duration_secs(d), duration_subsec_nanos(d))),
{
    epochs_spanning(d.as_secs(), d.subsec_nanos())
}

/// A window never lasts zero epochs, covers the whole duration, and would not cover it
/// with one epoch less.
pub proof fn law_window_covers_the_duration(nanos: int)
    requires
        nanos >= 0,
    ensures
        epochs_covering(nanos) >= 1,
        epochs_covering(nanos) * epoch_nanos() >= nanos,
        epochs_covering(nanos) > 1 ==> (epochs_covering(nanos) - 1) * epoch_nanos() < nanos,
{
    let n = epochs_covering(nanos);
    assert(n == if nanos == 0 {
        1
    } else {
        (nanos + 299_999_999_999) / 300_000_000_000
    });
    assert(n * epoch_nanos() == n * 300_000_000_000);
    assert((n - 1) * epoch_nanos() == (n - 1) * 300_000_000_000);
}

/// Time inside one epoch names that epoch, and the next epoch starts right after it.
pub proof fn law_epochs_tile_time(epoch: u64, offset: u64)
    requires
        offset < EPOCH_MILLIS,
        epoch * EPOCH_MILLIS + offset <= u64::MAX,
    ensures
        (epoch * EPOCH_MILLIS + offset) / EPOCH_MILLIS as int == epoch,
{
}

/// A window of so many epochs of five minutes each lasts at least as long as was asked for, and
/// less than one epoch longer.
pub proof fn law_windows_are_tight(secs: u64, nanos: u32)
    requires
        secs > 0 || nanos > 0,
    ensures
        ({
            let asked = secs * 1_000_000_000 + nanos;
            let lasts = epochs_covering(in_nanos(secs, nanos)) * 300_000_000_000;
            asked <= lasts < asked + 300_000_000_000
        }),
{
    law_window_covers_the_duration(in_nanos(secs, nanos));
}

/// Time is told in epochs of five minutes.
pub proof fn law_epochs_are_five_minutes(now_millis: u64, epoch: u64, secs: u64, nanos: u32, n: u64)
    requires
        call_ensures(epoch_at, (now_millis,), epoch),
        call_ensures(epochs_spanning, (secs, nanos), n),
        secs > 0 || nanos > 0,
    ensures
        epoch * 300_000 <= now_millis < (epoch + 1) * 300_000,
        secs * 1_000_000_000 + nanos <= n * 300_000_000_000 < secs * 1_000_000_000 + nanos
            + 300_000_000_000,
{
    law_windows_are_tight(secs, nanos);
}

} // verus!
