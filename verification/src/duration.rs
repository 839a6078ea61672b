//! A small, panic-free duration type for time bookkeeping: seconds plus
//! microseconds, with wrapping addition and subtraction.
use vstd::prelude::*;

verus! {

/// Number of microseconds in one second.
pub const MICROS_PER_SEC: u32 = 1_000_000;

/// A span of time, counted in whole seconds and microseconds.
///
/// The fields are public and carry no invariant of their own: a value is
/// *normalized* when `micros < MICROS_PER_SEC`, and the arithmetic below is
/// exact on normalized values (see the `ensures` of `add` and `sub`).
#[derive(Clone, Copy, PartialEq, Eq, Structural, PartialOrd, Ord, Hash, Debug)]
pub struct Duration {
    pub secs: u32,
    pub micros: u32,
}

/// The whole span expressed in microseconds, as a mathematical integer.
pub open spec fn total_micros(d: Duration) -> int {
    d.secs * (MICROS_PER_SEC as int) + d.micros
}

/// What `a + b` computes: wrapping sums of both fields, then one carry of
/// whole seconds when the microsecond sum exceeds `MICROS_PER_SEC`.
pub open spec fn duration_add(a: Duration, b: Duration) -> Duration {
    let s = a.secs.wrapping_add(b.secs);
    let m = a.micros.wrapping_add(b.micros);
    if m > MICROS_PER_SEC {
        Duration { secs: (s + m / MICROS_PER_SEC) as u32, micros: (m % MICROS_PER_SEC) as u32 }
    } else {
        Duration { secs: s, micros: m }
    }
}

/// `a + b` is defined whenever the carry of whole seconds does not
/// overflow the seconds field.
pub open spec fn duration_add_req(a: Duration, b: Duration) -> bool {
    let m = a.micros.wrapping_add(b.micros);
    m > MICROS_PER_SEC ==> a.secs.wrapping_add(b.secs) + m / MICROS_PER_SEC <= u32::MAX
}

/// What `a - b` computes: a wrapping difference of seconds, with one
/// second borrowed when the microseconds go negative.
pub open spec fn duration_sub(a: Duration, b: Duration) -> Duration {
    let s = a.secs.wrapping_sub(b.secs);
    if a.micros >= b.micros {
        Duration { secs: s, micros: (a.micros - b.micros) as u32 }
    } else {
        let diff = b.micros.wrapping_sub(a.micros);
        let secs_less = diff / MICROS_PER_SEC;
        Duration {
            secs: s.wrapping_sub((1 + secs_less) as u32),
            micros: (MICROS_PER_SEC - diff) as u32,
        }
    }
}

/// `a - b` is defined whenever the borrow's microsecond difference stays
/// within one second, so that the borrowed second covers it.
pub open spec fn duration_sub_req(a: Duration, b: Duration) -> bool {
    b.micros > a.micros ==> b.micros - a.micros <= MICROS_PER_SEC
}

impl Duration {
    /// Build a `Duration` from seconds and microseconds.
    pub fn new(secs: u32, micros: u32) -> (d: Duration)
        ensures
            d.secs == secs,
            d.micros == micros,
    {
        Duration { secs, micros }
    }
}

impl Default for Duration {
    fn default() -> (d: Duration)
        ensures
            d.secs == 0,
            d.micros == 0,
    {
        Duration { secs: 0, micros: 0 }
    }
}

impl vstd::std_specs::ops::AddSpecImpl for Duration {
    open spec fn obeys_add_spec() -> bool {
        true
    }

    open spec fn add_req(self, rhs: Duration) -> bool {
        duration_add_req(self, rhs)
    }

    open spec fn add_spec(self, rhs: Duration) -> Duration {
        duration_add(self, rhs)
    }
}

impl core::ops::Add for Duration {
    type Output = Duration;

    /// Wrapping sum of the two spans, with one carry of whole seconds.
    /// On normalized inputs whose seconds do not overflow, the sum is exact.
    fn add(self, other: Duration) -> (r: Duration)
        ensures
            self.micros < MICROS_PER_SEC && other.micros < MICROS_PER_SEC && self.secs
                + other.secs + 1 <= u32::MAX ==> total_micros(r) == total_micros(self)
                + total_micros(other),
    {
        let secs = self.secs.wrapping_add(other.secs);
        let micros = self.micros.wrapping_add(other.micros);
        if micros > MICROS_PER_SEC {
            Duration { secs: secs + micros / MICROS_PER_SEC, micros: micros % MICROS_PER_SEC }
        } else {
            Duration { secs, micros }
        }
    }
}

impl vstd::std_specs::ops::SubSpecImpl for Duration {
    open spec fn obeys_sub_spec() -> bool {
        true
    }

    open spec fn sub_req(self, rhs: Duration) -> bool {
        duration_sub_req(self, rhs)
    }

    open spec fn sub_spec(self, rhs: Duration) -> Duration {
        duration_sub(self, rhs)
    }
}

impl core::ops::Sub for Duration {
    type Output = Duration;

    /// Wrapping difference of the two spans, borrowing one second when the
    /// microseconds go negative. On normalized inputs with `other <= self`,
    /// the difference is exact.
    fn sub(self, other: Duration) -> (r: Duration)
        ensures
            self.micros < MICROS_PER_SEC && other.micros < MICROS_PER_SEC && total_micros(other)
                <= total_micros(self) ==> total_micros(r) == total_micros(self) - total_micros(
                other,
            ),
    {
        let secs = self.secs.wrapping_sub(other.secs);
        if self.micros >= other.micros {
            Duration { secs, micros: self.micros - other.micros }
        } else {
            let diff = other.micros.wrapping_sub(self.micros);
            let secs_less = diff / MICROS_PER_SEC;
            let micros = MICROS_PER_SEC - diff;
            Duration { secs: secs.wrapping_sub(1 + secs_less), micros }
        }
    }
}

} // verus!
