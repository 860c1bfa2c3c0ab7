use vstd::prelude::*;

use crate::primitives::Slot;

verus! {

/// The wall clock of a chain: when slot 0 started and how long a slot lasts.
#[derive(Clone, Copy, Debug, PartialEq, Eq, Structural)]
pub struct Clock {
    /// Unix time, in seconds, at which slot 0 starts.
    pub genesis_time: u64,
    pub seconds_per_slot: u64,
}

impl Clock {
    pub fn new(genesis_time: u64, seconds_per_slot: u64) -> (c: Clock)
        ensures
            c.genesis_time == genesis_time,
            c.seconds_per_slot == seconds_per_slot,
    {
        Clock { genesis_time, seconds_per_slot }
    }

    /// The Unix time at which a slot starts, unless it does not fit in 64 bits.
    pub open spec fn spec_timestamp(self, slot: Slot) -> Option<u64> {
        let t = self.genesis_time + slot * self.seconds_per_slot;
        if t <= u64::MAX {
            Some(t as u64)
        } else {
            None
        }
    }

    pub fn timestamp(&self, slot: Slot) -> (t: Option<u64>)
        ensures
            t == self.spec_timestamp(slot),
    {
        match slot.checked_mul(self.seconds_per_slot) {
            Some(offset) => {
                let r = self.genesis_time.checked_add(offset);
                r
            },
            None => {
                proof {
                    assert(slot * self.seconds_per_slot > u64::MAX);
                    assert(self.genesis_time + slot * self.seconds_per_slot > u64::MAX);
                }
                None
            },
        }
    }

    /// The timestamp of a slot, or 0 where it does not fit.
    pub open spec fn spec_timestamp_or_zero(self, slot: Slot) -> u64 {
        match self.spec_timestamp(slot) {
            Some(t) => t,
            None => 0,
        }
    }

    pub fn timestamp_or_zero(&self, slot: Slot) -> (t: u64)
        ensures
            t == self.spec_timestamp_or_zero(slot),
    {
        self.timestamp(slot).unwrap_or(0)
    }
}

} // verus!
