//! Whole milliseconds and nanoseconds of a span of time.
use vstd::prelude::*;
use std::time::Duration;

verus! {

/// What `Duration::as_secs` returns for a span: its whole seconds.
pub uninterp spec fn whole_seconds(d: Duration) -> u64;

/// What `Duration::subsec_nanos` returns for a span: the nanoseconds beyond
/// its whole seconds.
pub uninterp spec fn subsecond_nanos(d: Duration) -> u32;

/// `Duration::as_secs`: the number of whole seconds in the span.
pub assume_specification[ Duration::as_secs ](d: &Duration) -> (s: u64)
    ensures
        s == whole_seconds(*d),
;

/// `Duration::subsec_nanos`: the part of the span beyond its whole seconds,
/// in nanoseconds, which the documentation says is less than one billion.
pub assume_specification[ Duration::subsec_nanos ](d: &Duration) -> (n: u32)
    ensures
        n == subsecond_nanos(*d),
        n < 1_000_000_000,
;

/// A span of time read as one number.
pub trait TimeUtil {
    /// The span in whole milliseconds.
    spec fn millis(&self) -> int;

    /// The span in nanoseconds.
    spec fn nanos(&self) -> int;

    /// The span in whole milliseconds, where that fits the result.
    fn as_millis(&self) -> (ms: u64)
        requires
            self.millis() <= u64::MAX,
        ensures
            ms == self.millis(),
    ;

    /// The span in nanoseconds, where that fits the result.
    fn as_nanos(&self) -> (ns: u64)
        requires
            self.nanos() <= u64::MAX,
        ensures
            ns == self.nanos(),
    ;

    /// The span in whole milliseconds, or nothing where that does not fit.
    fn checked_millis(&self) -> (ms: Option<u64>)
        ensures
            ms is Some <==> self.millis() <= u64::MAX,
            ms matches Some(m) ==> m == self.millis(),
    ;

    /// The span in nanoseconds, or nothing where that does not fit.
    fn checked_nanos(&self) -> (ns: Option<u64>)
        ensures
            ns is Some <==> self.nanos() <= u64::MAX,
            ns matches Some(n) ==> n == self.nanos(),
    ;
}

impl TimeUtil for Duration {
    open spec fn millis(&self) -> int {
        whole_seconds(*self) * 1_000 + subsecond_nanos(*self) / 1_000_000
    }

    open spec fn nanos(&self) -> int {
        whole_seconds(*self) * 1_000_000_000 + subsecond_nanos(*self)
    }

    fn as_millis(&self) -> (ms: u64) {
        let below: u64 = (self.subsec_nanos() / 1_000_000) as u64;
        self.as_secs() * 1_000 + below
    }

    fn as_nanos(&self) -> (ns: u64) {
        let below: u64 = self.subsec_nanos() as u64;
        self.as_secs() * 1_000_000_000 + below
    }

    fn checked_millis(&self) -> (ms: Option<u64>) {
        let below: u64 = (self.subsec_nanos() / 1_000_000) as u64;
        match self.as_secs().checked_mul(1_000) {
            Some(whole) => whole.checked_add(below),
            None => None,
        }
    }

    fn checked_nanos(&self) -> (ns: Option<u64>) {
        let below: u64 = self.subsec_nanos() as u64;
        match self.as_secs().checked_mul(1_000_000_000) {
            Some(whole) => whole.checked_add(below),
            None => None,
        }
    }
}

} // verus!
