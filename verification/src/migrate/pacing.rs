//! Pacing: the receive poll loop's continuation decision, rate limiting and
//! session timing.

use vstd::prelude::*;
use crate::time::sat_mul;

verus! {

/// Progress of a poll loop.
#[derive(Clone, Copy, Debug, PartialEq, Eq, Structural)]
pub struct PollState {
    /// Cycles left; 0 means unbounded.
    pub cycles: usize,
    /// Consecutive cycles that received nothing.
    pub empty_runs: usize,
}

/// State after one poll cycle, and whether to go on. The cycle received
/// something when `pumped`. A bounded loop stops when its cycles run out;
/// `empty_limit` (0: none) consecutive empty cycles stop it; so does an
/// unbounded loop with nothing to do between pumps.
pub open spec fn poll_next(s: PollState, pumped: bool, sleep_us: usize, do_ctrl: bool, do_verify: bool, empty_limit: usize)
    -> (PollState, bool)
{
    let empty_runs: usize = if pumped { 0 } else if s.empty_runs == usize::MAX { usize::MAX } else { (s.empty_runs + 1) as usize };
    let cycles: usize = if s.cycles > 0 { (s.cycles - 1) as usize } else { 0 };
    let st = PollState { cycles, empty_runs };
    if s.cycles > 0 && cycles == 0 {
        (st, false)
    } else if empty_limit > 0 && empty_runs >= empty_limit {
        (st, false)
    } else if cycles == 0 && sleep_us == 0 && !do_ctrl && !do_verify {
        (st, false)
    } else {
        (st, true)
    }
}

/// Decide the end of one poll cycle.
pub fn poll_step(s: PollState, pumped: bool, sleep_us: usize, do_ctrl: bool, do_verify: bool, empty_limit: usize)
    -> (r: (PollState, bool))
    ensures
        r == poll_next(s, pumped, sleep_us, do_ctrl, do_verify, empty_limit),
{
    let empty_runs = if pumped { 0 } else { s.empty_runs.saturating_add(1) };
    let cycles = if s.cycles > 0 { s.cycles - 1 } else { 0 };
    let st = PollState { cycles, empty_runs };
    if s.cycles > 0 && cycles == 0 {
        return (st, false);
    }
    if empty_limit > 0 && empty_runs >= empty_limit {
        return (st, false);
    }
    if cycles == 0 && sleep_us == 0 && !do_ctrl && !do_verify {
        return (st, false);
    }
    (st, true)
}

/// Microseconds to stall after sending `bytes` at `rate_kbps` kilobytes per
/// second (1 KB = 1000 bytes); 0 when there is no rate limit.
pub fn stall_for_rate(bytes: usize, rate_kbps: u32) -> (us: u64)
    requires
        bytes * 1000 <= u64::MAX,
    ensures
        us == if rate_kbps == 0 { 0 } else { (bytes * 1000) / (rate_kbps as int) },
{
    if rate_kbps == 0 {
        return 0;
    }
    ((bytes as u64) * 1000u64) / (rate_kbps as u64)
}

/// Microseconds from TSC reading `start_tsc` to `now_tsc` at `tsc_hz`; 0 when
/// the frequency is unknown or the session never started.
pub fn elapsed_us_since(start_tsc: u64, now_tsc: u64, tsc_hz: u64) -> (us: u64)
    ensures
        us == if tsc_hz == 0 || start_tsc == 0 {
            0
        } else {
            sat_mul(vstd::wrapping::u64_specs::wrapping_sub(now_tsc, start_tsc), 1_000_000) / tsc_hz
        },
{
    if tsc_hz == 0 || start_tsc == 0 {
        return 0;
    }
    let dt = now_tsc.wrapping_sub(start_tsc);
    crate::time::saturating_mul_u64(dt, 1_000_000) / tsc_hz
}

/// Throughput in KB/s of `bytes` over `us` microseconds; `None` when no time passed.
pub fn session_kbps(bytes: u64, us: u64) -> (r: Option<u64>)
    ensures
        r == if us == 0 { None } else { Some(sat_mul(bytes, 1000) / us) },
{
    if us == 0 {
        return None;
    }
    Some(crate::time::saturating_mul_u64(bytes, 1000) / us)
}

} // verus!
