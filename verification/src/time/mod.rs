//! TSC calibration against the firmware stall service or the HPET, and the
//! TSC busy-wait.
//!
//! The counters are read by the caller; these functions turn the readings
//! into frequencies and waiting decisions.

pub mod hpet;

use vstd::prelude::*;

verus! {

/// Length of the stall calibration window in microseconds.
pub const STALL_WINDOW_US: u64 = 50_000;

/// `x * y`, or `u64::MAX` when that overflows.
pub open spec fn sat_mul(x: u64, y: u64) -> u64 {
    if x * y > u64::MAX { u64::MAX } else { (x * y) as u64 }
}

pub fn saturating_mul_u64(x: u64, y: u64) -> (r: u64)
    ensures
        r == sat_mul(x, y),
{
    match x.checked_mul(y) {
        Some(v) => v,
        None => u64::MAX,
    }
}

/// TSC frequency in Hz from readings `t0` and `t1` taken around a stall of
/// `STALL_WINDOW_US`: ticks elapsed (wrapping) per microsecond, times 10^6.
pub fn calibrate_tsc_stall(t0: u64, t1: u64) -> (hz: u64)
    ensures
        hz == sat_mul(vstd::wrapping::u64_specs::wrapping_sub(t1, t0), 1_000_000) / STALL_WINDOW_US,
{
    let delta = t1.wrapping_sub(t0);
    saturating_mul_u64(delta, 1_000_000) / STALL_WINDOW_US
}

/// The calibrated TSC frequency: the HPET result when there is one, else the
/// stall calibration from readings `t0`, `t1`.
pub fn calibrate_tsc(via_hpet: Option<u64>, t0: u64, t1: u64) -> (hz: u64)
    ensures
        hz == match via_hpet {
            Some(h) => h,
            None => sat_mul(vstd::wrapping::u64_specs::wrapping_sub(t1, t0), 1_000_000) / STALL_WINDOW_US,
        },
{
    match via_hpet {
        Some(h) => h,
        None => calibrate_tsc_stall(t0, t1),
    }
}

/// How to wait some microseconds.
#[derive(Clone, Copy, Debug, PartialEq, Eq, Structural)]
pub enum WaitPlan {
    /// Use the firmware stall service for `usec` microseconds.
    Stall { usec: u64 },
    /// Spin until `ticks` TSC ticks have passed.
    Spin { ticks: u64 },
}

/// Plan a wait of `usec` microseconds with a TSC of `tsc_hz`: the firmware
/// stall when the frequency is unknown (0), else spinning for
/// `usec * tsc_hz / 10^6` ticks (the product saturating).
pub fn busy_wait_tsc(usec: u64, tsc_hz: u64) -> (p: WaitPlan)
    ensures
        p == if tsc_hz == 0 {
            WaitPlan::Stall { usec }
        } else {
            WaitPlan::Spin { ticks: sat_mul(usec, tsc_hz) / 1_000_000 }
        },
{
    if tsc_hz == 0 {
        return WaitPlan::Stall { usec };
    }
    WaitPlan::Spin { ticks: saturating_mul_u64(usec, tsc_hz) / 1_000_000 }
}

/// Whether a spin that started at TSC `start` and now reads `now` has waited
/// `ticks` ticks (the elapsed count wrapping).
pub fn spin_done(start: u64, now: u64, ticks: u64) -> (b: bool)
    ensures
        b == (vstd::wrapping::u64_specs::wrapping_sub(now, start) >= ticks),
{
    now.wrapping_sub(start) >= ticks
}

} // verus!
