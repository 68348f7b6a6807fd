//! `Span`: a span of time in whole seconds plus nanoseconds, with the
//! saturating arithmetic that backoff delays use (the semantics of
//! `std::time::Duration` for these operations).
use vstd::prelude::*;

verus! {

/// Nanoseconds per second.
pub const NANOS_PER_SEC: u32 = 1_000_000_000;

/// A span of time: `secs` seconds plus `nanos` nanoseconds (`nanos < 10^9`).
#[derive(Debug, Clone, Copy, PartialEq, Eq, Structural)]
pub struct Span {
    pub secs: u64,
    pub nanos: u32,
}

/// The largest representable span, in nanoseconds.
pub open spec fn max_total() -> int {
    (u64::MAX as int) * 1_000_000_000 + 999_999_999
}

/// The span of `t` nanoseconds, for `0 <= t <= max_total()`.
pub open spec fn span_of(t: int) -> Span {
    Span { secs: (t / 1_000_000_000) as u64, nanos: (t % 1_000_000_000) as u32 }
}

impl Span {
    /// Whether `nanos` is below one second.
    pub open spec fn wf(self) -> bool {
        self.nanos < 1_000_000_000
    }

    /// Length in nanoseconds.
    pub open spec fn total(self) -> int {
        (self.secs as int) * 1_000_000_000 + self.nanos as int
    }

    /// The zero span.
    pub fn zero() -> (r: Span)
        ensures
            r.wf(),
            r.total() == 0,
            r == (Span { secs: 0, nanos: 0 }),
    {
        Span { secs: 0, nanos: 0 }
    }

    /// A span of whole seconds.
    pub fn from_secs(secs: u64) -> (r: Span)
        ensures
            r.wf(),
            r == (Span { secs, nanos: 0 }),
            r.total() == secs * 1_000_000_000,
    {
        Span { secs, nanos: 0 }
    }

    /// Whole seconds, fraction dropped.
    pub fn as_secs(&self) -> (s: u64)
        ensures
            s == self.secs,
    {
        self.secs
    }

    /// `self * k`, or the largest span when that does not fit.
    pub fn saturating_mul(&self, k: u32) -> (r: Span)
        requires
            self.wf(),
        ensures
            r.wf(),
            self.total() * k <= max_total() ==> r.total() == self.total() * k,
            self.total() * k > max_total() ==> r == (Span { secs: u64::MAX, nanos: 999_999_999 }),
    {
        let total: u128 = (self.secs as u128) * 1_000_000_000u128 + (self.nanos as u128);
        assert(total == self.total());
        assert(total <= max_total());
        assert(total * (k as u128) <= max_total() * 0xffff_ffff) by (nonlinear_arith)
            requires
                total <= max_total(),
                k <= 0xffff_ffff,
        ;
        let prod: u128 = total * (k as u128);
        let max: u128 = 0xffff_ffff_ffff_ffffu128 * 1_000_000_000u128 + 999_999_999u128;
        if prod > max {
            Span { secs: 0xffff_ffff_ffff_ffff, nanos: 999_999_999 }
        } else {
            let secs = (prod / 1_000_000_000u128) as u64;
            let nanos = (prod % 1_000_000_000u128) as u32;
            assert(prod == (prod / 1_000_000_000u128) * 1_000_000_000 + prod % 1_000_000_000u128);
            Span { secs, nanos }
        }
    }

    /// The shorter of two spans.
    pub fn min(self, other: Span) -> (r: Span)
        requires
            self.wf(),
            other.wf(),
        ensures
            r.wf(),
            r == (if other.total() < self.total() {
                other
            } else {
                self
            }),
    {
        if other.secs < self.secs || (other.secs == self.secs && other.nanos < self.nanos) {
            other
        } else {
            self
        }
    }
}

} // verus!
