use d2fps::frame::{
    frame_movement_fract, game_sleep_ms, star_count, game_update_time, menu_char_frame, menu_sleep_ms, refresh_ratio, smooth_frame,
    unit_movement_fract,
};
use d2fps::limiter::{FixedRateLimiter, VariableRateLimiter};
use d2fps::util::{PerfFreq, Ratio};

fn freq(ticks: i64) -> PerfFreq {
    let mut f = PerfFreq::uninit();
    assert!(f.init(ticks));
    f
}

#[test]
fn perf_freq_conversions() {
    let mut f = PerfFreq::uninit();
    assert_eq!(f.ticks_per_second(), 1000);
    assert!(!f.init(999));
    assert_eq!(f.ticks_per_second(), 1000);
    assert!(f.init(10_000_000));
    assert_eq!(f.ticks_per_second(), 10_000_000);
    assert_eq!(f.s_to_sample(3), 30_000_000);
    assert_eq!(f.sample_to_ms(25_999), 2);
    assert_eq!(f.ms_to_sample(7), 70_000);
}

#[test]
fn fixed_rate_fires_once_per_game_frame() {
    let f = freq(1000);
    let mut l = FixedRateLimiter::new();
    assert!(l.update_time(0, &f));
    // 25 per second: the next frame starts at tick 40.
    assert!(!l.update_time(39, &f));
    assert!(l.update_time(40, &f));
    // Late by more than a frame: the next one is the following period.
    assert!(l.update_time(130, &f));
    assert!(!l.update_time(159, &f));
    assert!(l.update_time(160, &f));
}

#[test]
fn variable_rate_follows_the_requested_rate() {
    let f = freq(1000);
    let mut l = VariableRateLimiter::new();
    let fps = Ratio::new(100, 1);
    // Taking up the rate schedules the first frame at tick 10.
    assert!(!l.update_time(5, fps, &f));
    assert_eq!(l.last_update(), 0);
    assert_eq!(l.next_update(), 10);
    assert!(!l.update_time(9, fps, &f));
    assert!(l.update_time(10, fps, &f));
    assert_eq!(l.last_update(), 10);
    assert_eq!(l.next_update(), 20);
    assert!(l.update_time(20, fps, &f));
    assert_eq!(l.next_update(), 30);
    // Changing the rate recomputes the next frame from the last one.
    let slow = Ratio::new(50, 1);
    assert!(!l.update_time(25, slow, &f));
    assert_eq!(l.next_update(), 40);
    assert!(l.update_time(41, slow, &f));
    assert_eq!(l.last_update(), 40);
    assert_eq!(l.next_update(), 60);
}

#[test]
fn variable_rate_never_repeats_a_frame() {
    let f = freq(1000);
    let mut l = VariableRateLimiter::new();
    let fps = Ratio::new(3, 1);
    assert!(!l.update_time(0, fps, &f));
    assert_eq!(l.next_update(), 333);
    // At tick 333 the frame count is still 0, so the timer moves on by one.
    assert!(l.update_time(333, fps, &f));
    assert_eq!(l.last_update(), 333);
    assert_eq!(l.next_update(), 666);
}

#[test]
fn sleep_lengths() {
    let f = freq(10_000);
    // 55 ms left: menu sleeps at most 10, the game loop 10 or 2 when hosting.
    assert_eq!(menu_sleep_ms(&f, 550_000, 0, false), 10);
    assert_eq!(game_sleep_ms(&f, 550_000, 0, false, false), 10);
    assert_eq!(game_sleep_ms(&f, 550_000, 0, false, true), 2);
    // 5.9 ms left: one less than the whole milliseconds.
    assert_eq!(menu_sleep_ms(&f, 59, 0, false), 4);
    assert_eq!(game_sleep_ms(&f, 59, 0, false, false), 4);
    // Due or past: no sleep.
    assert_eq!(menu_sleep_ms(&f, 100, 200, false), 0);
    assert_eq!(game_sleep_ms(&f, 100, 105, false, true), 0);
    // Hidden windows sleep 10, still capped when hosting.
    assert_eq!(menu_sleep_ms(&f, 100, 200, true), 10);
    assert_eq!(game_sleep_ms(&f, 100, 200, true, false), 10);
    assert_eq!(game_sleep_ms(&f, 100, 200, true, true), 2);
}

#[test]
fn movement_fraction() {
    assert_eq!(unit_movement_fract(0, 400), -0x1_0000);
    assert_eq!(unit_movement_fract(-5, 400), -0x1_0000);
    assert_eq!(unit_movement_fract(100, 400), -0xC000);
    assert_eq!(unit_movement_fract(400, 400), 0);
    assert_eq!(unit_movement_fract(1000, 400), 0);
    // Rounded towards zero: 2/3 of a frame back is -43690.67.
    assert_eq!(unit_movement_fract(1, 3), -43690);
    // From counter readings; a frame before the update counts as none.
    assert_eq!(frame_movement_fract(1100, 1000, 400), -0xC000);
    assert_eq!(frame_movement_fract(900, 1000, 400), -0x1_0000);
}

#[test]
fn game_update_times() {
    let f = freq(10_000);
    // The game updated 30 ms before now (clock 1000 vs 1030).
    assert_eq!(game_update_time(&f, 123_456, 1000, 1030), 123_150);
    assert_eq!(game_update_time(&f, 123_456, 1030, 1000), 123_456);
    assert_eq!(game_update_time(&f, 123_456, 1000, 1000), 123_456);
}

#[test]
fn refresh_rates() {
    assert_eq!(refresh_ratio(60000, 1001), Some(Ratio::new(60000, 1001)));
    assert_eq!(refresh_ratio(0, 1), None);
    assert_eq!(refresh_ratio(60, 0), None);
}

#[test]
fn smoothing_and_menu_frames() {
    assert!(smooth_frame(Ratio::new(60, 1), true));
    assert!(!smooth_frame(Ratio::new(25, 1), true));
    assert!(!smooth_frame(Ratio::new(60, 1), false));
    assert_eq!(menu_char_frame(true, 3, 7), 10);
    assert_eq!(menu_char_frame(false, 3, 7), 7);
}

#[test]
fn arcane_star_count() {
    assert_eq!(star_count(800, 600), 800 * 600 / 2048 + 1400 / 32 + 64);
    assert_eq!(star_count(0, 0), 64);
}
