//! Moments in time as the `time` crate gives them, and whole seconds
//! between two of them.

use vstd::prelude::*;

verus! {

/// A moment: seconds and nanoseconds since 1970-01-01T00:00:00Z.
#[derive(Clone, Copy, Debug, PartialEq, Eq)]
pub struct Stamp {
    pub sec: i64,
    pub nsec: i32,
}

impl Stamp {
    /// The nanoseconds lie in `0..1_000_000_000`, as `time::Timespec::new`
    /// insists.
    pub open spec fn valid(&self) -> bool {
        0 <= self.nsec < 1_000_000_000
    }
}

/// The current time: `time::get_time`, which reads the system clock.
/// Nothing is stated of the moment it returns but that its nanoseconds
/// are in range (`Timespec::new` asserts it).
#[verifier::external_body]
pub fn now() -> (s: Stamp)
    ensures
        s.valid(),
{
    let t = time::get_time();
    Stamp { sec: t.sec, nsec: t.nsec }
}

/// Division that rounds toward zero, as Rust's `/` on integers does.
pub open spec fn trunc_div(a: int, d: int) -> int {
    if a >= 0 {
        a / d
    } else {
        -((-a) / d)
    }
}

/// The difference of two moments fits in a `time::Duration`, whose
/// seconds range over `i64::MAX / 1000` each way (else subtracting them
/// panics).
pub open spec fn comparable(later: Stamp, earlier: Stamp) -> bool {
    -9223372036854775 <= later.sec - earlier.sec <= 9223372036854775
}

/// The whole seconds from `earlier` to `later`, rounded toward zero: what
/// `(later - earlier).num_seconds()` gives for two `time::Timespec`.
pub open spec fn elapsed_seconds(later: Stamp, earlier: Stamp) -> int {
    trunc_div(
        (later.sec - earlier.sec) * 1_000_000_000 + (later.nsec - earlier.nsec),
        1_000_000_000,
    )
}

/// The whole seconds from `earlier` to `later`.
pub fn seconds_between(later: &Stamp, earlier: &Stamp) -> (r: i64)
    requires
        later.valid(),
        earlier.valid(),
        comparable(*later, *earlier),
    ensures
        r == elapsed_seconds(*later, *earlier),
        -9223372036854776 <= r <= 9223372036854776,
{
    let ds: i128 = (later.sec as i128) - (earlier.sec as i128);
    let dn: i128 = (later.nsec as i128) - (earlier.nsec as i128);
    let total: i128 = ds * 1_000_000_000 + dn;
    if total >= 0 {
        let q: i128 = total / 1_000_000_000;
        assert(q <= 9223372036854776) by (nonlinear_arith)
            requires
                q == total / 1_000_000_000,
                total <= 9223372036854775 * 1_000_000_000 + 1_000_000_000,
                total >= 0,
        ;
        q as i64
    } else {
        let q: i128 = (-total) / 1_000_000_000;
        assert(q <= 9223372036854776) by (nonlinear_arith)
            requires
                q == (-total) / 1_000_000_000,
                -total <= 9223372036854775 * 1_000_000_000 + 1_000_000_000,
                total < 0,
        ;
        -(q as i64)
    }
}


/// `a / d` rounded toward zero, for a positive divisor.
pub fn div_toward_zero(a: i64, d: i64) -> (r: i64)
    requires
        d > 0,
        a > i64::MIN,
    ensures
        r == trunc_div(a as int, d as int),
{
    if a >= 0 {
        a / d
    } else {
        let q: i64 = (-a) / d;
        -q
    }
}

} // verus!
