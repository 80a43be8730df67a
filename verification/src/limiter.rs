//! Timers that decide when the next frame is due, at a fixed or a variable
//! rate, from the performance counter.
use vstd::prelude::*;

use crate::util::{PerfFreq, Ratio};

verus! {

/// The tick at which the game-rate timer next fires after firing at `time`:
/// the start of the following 1/25 s period.
pub open spec fn fixed_next_update(time: u64, ticks_per_s: u64) -> u64 {
    let count = (time * 25) / (ticks_per_s as int);
    ((ticks_per_s * (count + 1)) / 25) as u64
}

/// Fires at the game's update rate, 25 times a second.
pub struct FixedRateLimiter {
    next_update: u64,
}

impl FixedRateLimiter {
    /// The tick from which on the timer fires.
    pub closed spec fn next_due(&self) -> u64 {
        self.next_update
    }

    /// A timer that fires on the first call.
    pub fn new() -> (r: Self)
        ensures
            r.next_due() == 0,
    {
        Self { next_update: 0 }
    }

    /// Whether the timer fires at tick `time`; when it does, the next firing
    /// is at the start of the following 1/25 s period.
    pub fn update_time(&mut self, time: u64, freq: &PerfFreq) -> (r: bool)
        ensures
            r == (time >= old(self).next_due()),
            r ==> final(self).next_due() == fixed_next_update(time, freq.ticks_per_s()),
            !r ==> final(self).next_due() == old(self).next_due(),
    {
        if time >= self.next_update {
            let tps = freq.ticks_per_second();
            let count: u128 = (time as u128) * 25 / (tps as u128);
            proof {
                lemma_count_bound(time as int, 25, tps as int);
            }
            self.next_update = ((tps as u128) * (count + 1) / 25) as u64;
            true
        } else {
            false
        }
    }
}

/// `count = time * num / den` rounded down leaves `den * (count + 1)` in
/// range: it is above `time * num` by at most `den`.
proof fn lemma_count_bound(time: int, num: int, den: int)
    requires
        0 <= time,
        0 <= num,
        den > 0,
    ensures
        den * ((time * num) / den) <= time * num,
        time * num < den * ((time * num) / den + 1),
        den * ((time * num) / den + 1) <= time * num + den,
        (time * num) / den >= 0,
{
    let x = time * num;
    assert(x >= 0) by (nonlinear_arith)
        requires
            x == time * num,
            time >= 0,
            num >= 0,
    ;
    vstd::arithmetic::div_mod::lemma_fundamental_div_mod(x, den);
    let q = x / den;
    let r = x % den;
    assert(0 <= r < den);
    assert(q >= 0) by (nonlinear_arith)
        requires
            x == den * q + r,
            x >= 0,
            0 <= r < den,
    ;
    assert(den * (q + 1) == den * q + den) by (nonlinear_arith);
}

/// Law of the game-rate timer: when it fires at `time`, its next firing is
/// not before `time` and at most one period (`ticks_per_s / 25` ticks) after
/// it.
pub proof fn law_fixed_rate_paces(time: u64, ticks_per_s: u64)
    requires
        ticks_per_s >= 1000,
        time + ticks_per_s / 25 <= u64::MAX,
    ensures
        time <= fixed_next_update(time, ticks_per_s) <= time + ticks_per_s / 25,
{
    let t = time as int;
    let f = ticks_per_s as int;
    lemma_count_bound(t, 25, f);
    let c = (t * 25) / f;
    let y = f * (c + 1);
    assert(25 * t < y && y <= 25 * t + f);
    let n = y / 25;
    vstd::arithmetic::div_mod::lemma_fundamental_div_mod(y, 25);
    vstd::arithmetic::div_mod::lemma_fundamental_div_mod(f, 25);
    assert(t <= n);
    assert(n <= t + f / 25);
}

} // verus!

verus! {

/// The state of a variable-rate timer.
#[derive(Clone, Copy, PartialEq, Eq, Structural, Debug)]
pub struct RateState {
    /// The rate the timer runs at.
    pub fps: Ratio,
    /// Ticks in `fps.den` seconds.
    pub den_ticks: u64,
    /// The tick from which on the timer fires.
    pub next_update: u64,
    /// The start of the frame the timer last fired for.
    pub last_update: u64,
    /// The number of the frame the timer last fired for.
    pub last_count: u128,
}

/// The state after switching to rate `fps` when the counter runs at
/// `ticks_per_s`: the frame count and next firing are recomputed from the
/// last firing at the new rate. Nothing changes if the rate is the same.
pub open spec fn with_rate(s: RateState, fps: Ratio, ticks_per_s: u64) -> RateState {
    if s.fps == fps {
        s
    } else {
        let den_ticks = (fps.den * ticks_per_s) as u64;
        let last_count = ((s.last_update * fps.num) / (den_ticks as int)) as u128;
        RateState {
            fps,
            den_ticks,
            last_count,
            next_update: ((den_ticks * (last_count + 1)) / (fps.num as int)) as u64,
            last_update: s.last_update,
        }
    }
}

/// The state after the timer fires at `time`: the frame count becomes the
/// number of whole frames up to `time`, or one more than before if that
/// number has not changed; the last and next firings are the starts of that
/// frame and the following one.
pub open spec fn fired_at(s: RateState, time: u64) -> RateState {
    let count = ((time * s.fps.num) / (s.den_ticks as int)) as u128;
    let last_count = if count == s.last_count {
        (s.last_count + 1) as u128
    } else {
        count
    };
    RateState {
        last_count,
        last_update: ((s.den_ticks * last_count) / (s.fps.num as int)) as u64,
        next_update: ((s.den_ticks * (last_count + 1)) / (s.fps.num as int)) as u64,
        ..s
    }
}

/// The bounds that keep the timer's arithmetic in range.
pub open spec fn rate_state_ok(s: RateState) -> bool {
    &&& s.fps.num > 0 ==> s.den_ticks > 0
    &&& s.den_ticks * s.last_count <= u64::MAX * u32::MAX + s.den_ticks
}

/// Fires at a rate that may change from call to call.
pub struct VariableRateLimiter {
    fps: Ratio,
    den_ticks: u64,
    next_update: u64,
    last_update: u64,
    last_count: u128,
}

impl View for VariableRateLimiter {
    type V = RateState;

    closed spec fn view(&self) -> RateState {
        RateState {
            fps: self.fps,
            den_ticks: self.den_ticks,
            next_update: self.next_update,
            last_update: self.last_update,
            last_count: self.last_count,
        }
    }
}

impl VariableRateLimiter {
    /// A timer at rate zero that fires on the first call.
    pub fn new() -> (r: Self)
        ensures
            r@ == (RateState {
                fps: Ratio { num: 0, den: 1 },
                den_ticks: 0,
                next_update: 0,
                last_update: 0,
                last_count: 0,
            }),
            rate_state_ok(r@),
    {
        Self { fps: Ratio { num: 0, den: 1 }, den_ticks: 0, next_update: 0, last_update: 0, last_count: 0 }
    }

    /// Whether a frame at rate `fps` is due at tick `time`. A changed rate is
    /// taken up first; then, if `time` has reached the next firing, the timer
    /// fires.
    pub fn update_time(&mut self, time: u64, fps: Ratio, freq: &PerfFreq) -> (r: bool)
        requires
            rate_state_ok(old(self)@),
            fps.num > 0,
            fps.den > 0,
            fps.den * freq.ticks_per_s() <= u64::MAX,
        ensures
            rate_state_ok(final(self)@),
            r == (time >= with_rate(old(self)@, fps, freq.ticks_per_s()).next_update),
            r ==> final(self)@ == fired_at(with_rate(old(self)@, fps, freq.ticks_per_s()), time),
            !r ==> final(self)@ == with_rate(old(self)@, fps, freq.ticks_per_s()),
    {
        let tps = freq.ticks_per_second();
        if self.fps != fps {
            self.fps = fps;
            let den_ticks = (fps.den as u64) * tps;
            proof {
                assert(den_ticks >= 1000) by (nonlinear_arith)
                    requires
                        den_ticks == fps.den * tps,
                        fps.den >= 1,
                        tps >= 1000,
                ;
                lemma_count_bound(self.last_update as int, fps.num as int, den_ticks as int);
                assert(self.last_update * fps.num <= u64::MAX * u32::MAX) by (nonlinear_arith)
                    requires
                        self.last_update <= u64::MAX,
                        fps.num <= u32::MAX,
                ;
            }
            self.den_ticks = den_ticks;
            self.last_count = (self.last_update as u128) * (fps.num as u128) / (den_ticks as u128);
            self.next_update = ((den_ticks as u128) * (self.last_count + 1) / (fps.num as u128)) as u64;
        }
        let ghost mid = self@;
        assert(mid == with_rate(old(self)@, fps, tps));
        if time >= self.next_update {
            proof {
                lemma_count_bound(time as int, fps.num as int, self.den_ticks as int);
                assert(time * fps.num <= u64::MAX * u32::MAX) by (nonlinear_arith)
                    requires
                        time <= u64::MAX,
                        fps.num <= u32::MAX,
                ;
            }
            let count = (time as u128) * (fps.num as u128) / (self.den_ticks as u128);
            if count == self.last_count {
                self.last_count = self.last_count + 1;
            } else {
                self.last_count = count;
            }
            proof {
                assert(self.den_ticks * self.last_count <= u64::MAX * u32::MAX + self.den_ticks);
                assert(self.den_ticks * (self.last_count + 1) == self.den_ticks * self.last_count
                    + self.den_ticks) by (nonlinear_arith);
            }
            self.last_update = ((self.den_ticks as u128) * self.last_count / (fps.num as u128)) as u64;
            self.next_update = ((self.den_ticks as u128) * (self.last_count + 1) / (fps.num as u128)) as u64;
            true
        } else {
            false
        }
    }

    /// The tick from which on the timer fires.
    pub fn next_update(&self) -> (r: u64)
        ensures
            r == self@.next_update,
    {
        self.next_update
    }

    /// The start of the frame the timer last fired for.
    pub fn last_update(&self) -> (r: u64)
        ensures
            r == self@.last_update,
    {
        self.last_update
    }
}

/// Law of the variable-rate timer: when it fires at `time`, the frame it
/// fired for starts no later than `time` and the next one is due no earlier
/// than `time`, unless a frame start runs past the largest tick.
pub proof fn law_variable_rate_paces(s: RateState, time: u64)
    requires
        rate_state_ok(s),
        s.fps.num > 0,
        time >= s.next_update,
        s.next_update == ((s.den_ticks * (s.last_count + 1)) / (s.fps.num as int)) as u64,
        (s.den_ticks * (s.last_count + 2)) / (s.fps.num as int) <= u64::MAX,
        (s.den_ticks * ((time * s.fps.num) / (s.den_ticks as int) + 1)) / (s.fps.num as int)
            <= u64::MAX,
    ensures
        fired_at(s, time).last_update <= time <= fired_at(s, time).next_update,
{
    let num = s.fps.num as int;
    let den = s.den_ticks as int;
    let t = time as int;
    assert(den > 0);
    lemma_count_bound(t, num, den);
    let count = (t * num) / den;
    let lc = s.last_count as int;
    assert(count <= t * num) by (nonlinear_arith)
        requires
            den * count <= t * num,
            den >= 1,
            count >= 0,
    ;
    assert(t * num <= u64::MAX * u32::MAX) by (nonlinear_arith)
        requires
            0 <= t <= u64::MAX,
            0 <= num <= u32::MAX,
    ;
    assert(lc <= den * lc) by (nonlinear_arith)
        requires
            den >= 1,
            lc >= 0,
    ;
    let f = fired_at(s, time);
    if count == lc {
        assert(f.last_count == lc + 1);
        let y = den * (lc + 1);
        let z = den * (lc + 2);
        assert(y <= z) by (nonlinear_arith)
            requires
                den >= 0,
                y == den * (lc + 1),
                z == den * (lc + 2),
        ;
        vstd::arithmetic::div_mod::lemma_div_is_ordered(y, z, num);
        assert(f.last_update as int == y / num);
        assert(f.next_update as int == z / num);
        assert(t * num < z) by (nonlinear_arith)
            requires
                t * num < den * (count + 1),
                count == lc,
                z == den * (lc + 2),
                den >= 0,
        ;
        vstd::arithmetic::div_mod::lemma_fundamental_div_mod(z, num);
        assert(t <= z / num) by (nonlinear_arith)
            requires
                t * num < z,
                num > 0,
                z == num * (z / num) + z % num,
                0 <= z % num < num,
        ;
    } else {
        assert(f.last_count == count);
        let x = den * count;
        let z = den * (count + 1);
        assert(x <= z) by (nonlinear_arith)
            requires
                den >= 0,
                x == den * count,
                z == den * (count + 1),
        ;
        vstd::arithmetic::div_mod::lemma_div_is_ordered(x, z, num);
        assert(f.last_update as int == x / num);
        assert(f.next_update as int == z / num);
        vstd::arithmetic::div_mod::lemma_fundamental_div_mod(x, num);
        assert(x / num <= t) by (nonlinear_arith)
            requires
                x <= t * num,
                num > 0,
                x == num * (x / num) + x % num,
                0 <= x % num < num,
        ;
        vstd::arithmetic::div_mod::lemma_fundamental_div_mod(z, num);
        assert(t <= z / num) by (nonlinear_arith)
            requires
                t * num < z,
                num > 0,
                z == num * (z / num) + z % num,
                0 <= z % num < num,
        ;
    }
}

} // verus!
