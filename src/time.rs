//! Instants on the ledger's clock, at a granularity of one second.

use vstd::prelude::*;

verus! {

pub const SECONDS_IN_A_DAY: i64 = 86400;

pub open spec fn fits_i64(x: int) -> bool {
    i64::MIN <= x <= i64::MAX
}

/// A point in time, in whole seconds since the Unix epoch.
#[derive(Clone, Copy, Debug, PartialEq, Eq, Structural)]
pub struct Instant {
    pub seconds_since_unix_epoch: i64,
}

impl Instant {
    pub fn new(seconds_since_unix_epoch: i64) -> (r: Instant)
        ensures
            r.seconds_since_unix_epoch == seconds_since_unix_epoch,
    {
        Instant { seconds_since_unix_epoch }
    }

    /// This instant moved by `seconds_to_add`, or `None` where that leaves the
    /// range of `i64`.
    pub fn add_seconds(&self, seconds_to_add: i64) -> (r: Option<Instant>)
        ensures
            r == (if fits_i64(self.seconds_since_unix_epoch + seconds_to_add) {
                Some(
                    (Instant {
                        seconds_since_unix_epoch: (self.seconds_since_unix_epoch
                            + seconds_to_add) as i64,
                    }),
                )
            } else {
                None
            }),
    {
        match self.seconds_since_unix_epoch.checked_add(seconds_to_add) {
            Some(s) => Some(Instant { seconds_since_unix_epoch: s }),
            None => None,
        }
    }

    /// This instant moved by `days_to_add` whole days, or `None` where the
    /// number of seconds to add or the result leaves the range of `i64`.
    pub fn add_days(&self, days_to_add: i64) -> (r: Option<Instant>)
        ensures
            r == (if fits_i64(days_to_add * SECONDS_IN_A_DAY) && fits_i64(
                self.seconds_since_unix_epoch + days_to_add * SECONDS_IN_A_DAY,
            ) {
                Some(
                    (Instant {
                        seconds_since_unix_epoch: (self.seconds_since_unix_epoch + days_to_add
                            * SECONDS_IN_A_DAY) as i64,
                    }),
                )
            } else {
                None
            }),
    {
        match days_to_add.checked_mul(SECONDS_IN_A_DAY) {
            Some(to_add) => self.add_seconds(to_add),
            None => None,
        }
    }

    /// Whether this instant comes strictly before `other`.
    pub fn is_before(&self, other: &Instant) -> (r: bool)
        ensures
            r == (self.seconds_since_unix_epoch < other.seconds_since_unix_epoch),
    {
        self.seconds_since_unix_epoch < other.seconds_since_unix_epoch
    }
}

} // verus!
