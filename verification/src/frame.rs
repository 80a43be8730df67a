//! The timing decisions the game hooks make on every frame: how long to
//! sleep, how far units have moved since the last game update, when that
//! update happened, and which refresh rates can be used.
use vstd::prelude::*;

use crate::util::{game_fps, PerfFreq, Ratio};

verus! {

/// `x` cut to its low 32 bits, as `as u32` does.
pub open spec fn low32(x: u64) -> u32 {
    (x % 0x1_0000_0000) as u32
}

/// `x - 1`, or zero when `x` is zero.
pub open spec fn minus_one(x: u32) -> u32 {
    if x == 0 {
        0
    } else {
        (x - 1) as u32
    }
}

/// The whole milliseconds left until `next_update` at `time`, none when it
/// has passed.
pub open spec fn ms_left(freq: PerfFreq, next_update: u64, time: u64) -> u64 {
    (if next_update > time {
        next_update - time
    } else {
        0
    }) as u64 / freq.ticks_per_ms()
}

/// How long the menu sleeps between frames, in milliseconds: one less than
/// the time left, at most 10, and 10 while the window is hidden.
pub open spec fn menu_sleep(ms: u64, hidden: bool) -> u32 {
    if hidden {
        10
    } else if minus_one(low32(ms)) < 10 {
        minus_one(low32(ms))
    } else {
        10
    }
}

/// How long the game loop sleeps between frames, in milliseconds: one less
/// than the time left, 10 while the window is hidden, and at most 2 when
/// this game hosts others, 10 otherwise.
pub open spec fn game_sleep(ms: u64, hidden: bool, is_host: bool) -> u32 {
    let len = if hidden {
        10
    } else {
        minus_one(low32(ms))
    };
    let limit: u32 = if is_host {
        2
    } else {
        10
    };
    if len < limit {
        len
    } else {
        limit
    }
}

fn low32_of(x: u64) -> (r: u32)
    ensures
        r == low32(x),
{
    let r = x as u32;
    assert(r == x % 0x1_0000_0000) by (bit_vector)
        requires
            r == x as u32,
    ;
    r
}

fn ms_until(freq: &PerfFreq, next_update: u64, time: u64) -> (r: u64)
    ensures
        r == ms_left(*freq, next_update, time),
{
    freq.sample_to_ms(next_update.saturating_sub(time))
}

/// The menu's sleep before its next frame at `time`; see `menu_sleep`.
pub fn menu_sleep_ms(freq: &PerfFreq, next_update: u64, time: u64, hidden: bool) -> (r: u32)
    ensures
        r == menu_sleep(ms_left(*freq, next_update, time), hidden),
{
    let len = low32_of(ms_until(freq, next_update, time)).saturating_sub(1);
    let len = if len < 10 {
        len
    } else {
        10
    };
    if hidden {
        10
    } else {
        len
    }
}

/// The game loop's sleep before its next frame at `time`; see
/// `game_sleep`.
pub fn game_sleep_ms(freq: &PerfFreq, next_update: u64, time: u64, hidden: bool, is_host: bool) -> (r: u32)
    ensures
        r == game_sleep(ms_left(*freq, next_update, time), hidden, is_host),
{
    let len = low32_of(ms_until(freq, next_update, time)).saturating_sub(1);
    let len = if hidden {
        10
    } else {
        len
    };
    let limit: u32 = if is_host {
        2
    } else {
        10
    };
    if len < limit {
        len
    } else {
        limit
    }
}

/// How far into the current game frame units are drawn, as a fixed-point
/// fraction with 16 fractional bits: the time since the last game update,
/// clamped to one frame, minus one frame, over the frame length, rounded
/// towards zero. It lies between -1 and 0.
pub open spec fn movement_fract(since_update: i64, frame_len: i64) -> int {
    let c = if since_update < 0 {
        0
    } else if since_update > frame_len {
        frame_len as int
    } else {
        since_update as int
    };
    -(((frame_len - c) * 0x1_0000) / (frame_len as int))
}

/// The movement fraction of `movement_fract` in raw fixed-point form.
pub fn unit_movement_fract(since_update: i64, frame_len: i64) -> (r: i32)
    requires
        0 < frame_len <= 0x7fff_ffff_ffff,
    ensures
        r == movement_fract(since_update, frame_len),
        -0x1_0000 <= r <= 0,
{
    let c = if since_update < 0 {
        0
    } else if since_update > frame_len {
        frame_len
    } else {
        since_update
    };
    let back = (frame_len - c) as u64;
    let len = frame_len as u64;
    assert(back * 0x1_0000 <= len * 0x1_0000) by (nonlinear_arith)
        requires
            back <= len,
    ;
    let q = (back * 0x1_0000) / len;
    assert(q <= 0x1_0000) by (nonlinear_arith)
        requires
            q as int == (back as int * 0x1_0000) / len as int,
            back <= len,
            len > 0,
    ;
    -(q as i32)
}

/// The ticks from the game's last update to the last drawn frame, as the
/// signed difference of the two counter readings.
pub open spec fn since_update(last_frame: u64, game_update: u64) -> i64 {
    let d = (last_frame - game_update) % 0x1_0000_0000_0000_0000;
    (if d < 0x8000_0000_0000_0000 {
        d
    } else {
        d - 0x1_0000_0000_0000_0000
    }) as i64
}

/// The movement fraction for a frame drawn at `last_frame` when the game
/// last updated at `game_update`; see `movement_fract`.
pub fn frame_movement_fract(last_frame: u64, game_update: u64, frame_len: i64) -> (r: i32)
    requires
        0 < frame_len <= 0x7fff_ffff_ffff,
    ensures
        r == movement_fract(since_update(last_frame, game_update), frame_len),
{
    let w = last_frame.wrapping_sub(game_update);
    let d = w as i64;
    assert(d == (if w < 0x8000_0000_0000_0000u64 { w as int } else { w - 0x1_0000_0000_0000_0000 })) by (bit_vector)
        requires
            d == w as i64,
    ;
    unit_movement_fract(d, frame_len)
}

/// The performance-counter time of the game's last update: the counter
/// time `time` taken back by how long ago, in milliseconds, the game says it
/// updated. When the game's clock `game_ms` is not behind the clock `cur_ms`
/// (it has wrapped), `time` is used until the next frame corrects it.
pub open spec fn update_time(freq: PerfFreq, time: u64, game_ms: u32, cur_ms: u32) -> u64 {
    if game_ms < cur_ms {
        ((time / freq.ticks_per_ms() - (cur_ms - game_ms)) * freq.ticks_per_ms()) as u64
    } else {
        time
    }
}

/// Computes `update_time`. The game's update must not lie before the
/// counter's start.
pub fn game_update_time(freq: &PerfFreq, time: u64, game_ms: u32, cur_ms: u32) -> (r: u64)
    requires
        game_ms < cur_ms ==> cur_ms - game_ms <= time / freq.ticks_per_ms(),
    ensures
        r == update_time(*freq, time, game_ms, cur_ms),
{
    if game_ms < cur_ms {
        let _tps = freq.ticks_per_second();
        let ms = freq.sample_to_ms(time) - (cur_ms - game_ms) as u64;
        let ghost tpm = freq.ticks_per_ms();
        proof {
            let t = time as int;
            let p = tpm as int;
            assert(p > 0);
            assert(ms * p <= (t / p) * p) by (nonlinear_arith)
                requires
                    ms <= t / p,
                    p > 0,
            ;
            assert((t / p) * p <= t) by (nonlinear_arith)
                requires
                    p > 0,
                    t >= 0,
            ;
        }
        freq.ms_to_sample(ms)
    } else {
        time
    }
}

/// The frame rate of a display refresh rate `num / den`, when both parts are
/// known.
pub fn refresh_ratio(num: u32, den: u32) -> (r: Option<Ratio>)
    ensures
        r == if num == 0 || den == 0 {
            None
        } else {
            Some(Ratio { num, den })
        },
{
    if den == 0 || num == 0 {
        None
    } else {
        Some(Ratio::new(num, den))
    }
}

/// Whether frames are drawn between game updates with units moved along
/// their paths: when drawing faster or slower than the game, with motion
/// smoothing enabled.
pub fn smooth_frame(render_fps: Ratio, smoothing: bool) -> (r: bool)
    ensures
        r == (render_fps != (Ratio { num: 25, den: 1 }) && smoothing),
{
    let g = game_fps();
    !(render_fps.num == g.num && render_fps.den == g.den) && smoothing
}

/// The frame of the menu character's animation: advanced by `rate` when
/// this frame updates it.
pub fn menu_char_frame(update: bool, rate: u32, frame: u32) -> (r: u32)
    requires
        update ==> frame + rate <= u32::MAX,
    ensures
        r == if update {
            frame + rate
        } else {
            frame as int
        },
{
    if update {
        frame + rate
    } else {
        frame
    }
}

/// The number of stars drawn over an Arcane Sanctuary background of `w` by
/// `h` pixels: one per 2048 pixels, one per 32 pixels of width and height,
/// and 64 more.
pub fn star_count(w: u32, h: u32) -> (r: u32)
    requires
        w * h <= u32::MAX,
        w + h <= u32::MAX,
    ensures
        r == (w * h) / 2048 + (w + h) / 32 + 0x40,
{
    let area = w * h;
    assert(area / 2048 <= 0x1f_ffff);
    (area / 2048) + ((w + h) / 32) + 0x40
}

} // verus!
