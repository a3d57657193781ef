//! Lengths of time, to the nanosecond.

use vstd::prelude::*;

verus! {

/// A length of time: whole seconds and the nanoseconds of the last one.
#[derive(Clone, Copy, Debug, PartialEq, Eq)]
pub struct Duration {
    secs: u64,
    nanos: u32,
}

/// The nanoseconds of one second.
pub open spec fn second() -> nat {
    1_000_000_000
}

/// The longest length of time, in nanoseconds.
pub open spec fn longest() -> nat {
    ((u64::MAX + 1) * second() - 1) as nat
}

impl View for Duration {
    type V = nat;

    closed spec fn view(&self) -> nat {
        self.secs as nat * second() + self.nanos as nat
    }
}

impl DeepView for Duration {
    type V = nat;

    open spec fn deep_view(&self) -> nat {
        self@
    }
}

impl Duration {
    #[verifier::type_invariant]
    spec fn wf(self) -> bool {
        self.nanos < 1_000_000_000
    }

    /// `secs` seconds and `nanos` nanoseconds.
    pub fn new(secs: u64, nanos: u32) -> (duration: Duration)
        requires
            nanos < 1_000_000_000,
        ensures
            duration@ == secs as nat * second() + nanos,
    {
        Duration { secs, nanos }
    }

    /// `secs` seconds.
    pub fn from_secs(secs: u64) -> (duration: Duration)
        ensures
            duration@ == secs as nat * second(),
    {
        Duration { secs, nanos: 0 }
    }

    /// `millis` thousandths of a second.
    pub fn from_millis(millis: u64) -> (duration: Duration)
        ensures
            duration@ == millis as nat * 1_000_000,
    {
        Duration { secs: millis / 1000, nanos: (millis % 1000) as u32 * 1_000_000 }
    }

    /// No time at all.
    pub fn zero() -> (duration: Duration)
        ensures
            duration@ == 0,
    {
        Duration { secs: 0, nanos: 0 }
    }

    /// The whole seconds.
    pub fn as_secs(&self) -> (secs: u64)
        ensures
            secs == self@ / second(),
    {
        proof {
            use_type_invariant(self);
        }
        self.secs
    }

    /// The whole thousandths of a second.
    pub fn as_millis(&self) -> (millis: u128)
        ensures
            millis == self@ / 1_000_000,
    {
        proof {
            use_type_invariant(self);
        }
        self.secs as u128 * 1000 + (self.nanos / 1_000_000) as u128
    }

    /// The sum of two lengths of time, unless it is longer than can be told.
    pub fn checked_add(self, other: Duration) -> (sum: Option<Duration>)
        ensures
            match sum {
                Some(total) => total@ == self@ + other@ <= longest(),
                None => self@ + other@ > longest(),
            },
    {
        proof {
            use_type_invariant(&self);
            use_type_invariant(&other);
        }
        let nanos: u32 = self.nanos + other.nanos;
        let carry: u64 = if nanos >= 1_000_000_000 {
            1
        } else {
            0
        };
        let nanos: u32 = if nanos >= 1_000_000_000 {
            nanos - 1_000_000_000
        } else {
            nanos
        };
        match self.secs.checked_add(other.secs) {
            Some(secs) => match secs.checked_add(carry) {
                Some(secs) => Some(Duration { secs, nanos }),
                None => None,
            },
            None => None,
        }
    }

    /// Whether this length of time is at most `other`.
    pub fn at_most(&self, other: &Duration) -> (at_most: bool)
        ensures
            at_most == (self@ <= other@),
    {
        proof {
            use_type_invariant(self);
            use_type_invariant(other);
        }
        self.secs < other.secs || (self.secs == other.secs && self.nanos <= other.nanos)
    }
}

} // verus!
