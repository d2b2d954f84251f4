//! The master clock.
//!
//! It advances with real time, scaled by the speed, and can be anchored anew
//! at any moment: the audio output keeps it on what is really heard. Real time
//! is given to each operation, in microseconds of a monotonic clock.

use vstd::prelude::*;

verus! {

/// How far the clock may be from the audio before it is set anew.
pub const DRIFT_TOLERANCE_US: i64 = 30_000;

/// The slowest and the fastest speed, in thousandths.
pub const MIN_SPEED_MILLI: u32 = 250;

pub const MAX_SPEED_MILLI: u32 = 4000;

/// The playback clock.
#[derive(Debug, Clone, Copy, PartialEq, Eq, Structural)]
pub struct PlaybackClock {
    /// The media position when the clock was anchored.
    pub anchor_media_us: i64,
    /// The real time at which it was anchored.
    pub anchor_at_us: u64,
    /// The speed, in thousandths.
    pub speed_milli: u32,
    pub paused: bool,
    /// Whether the origin of the stream is known.
    pub started: bool,
}

/// The nearest 64-bit integer.
pub open spec fn saturated(n: int) -> i64 {
    if n > i64::MAX {
        i64::MAX
    } else if n < i64::MIN {
        i64::MIN
    } else {
        n as i64
    }
}

/// The nearest 64-bit integer.
pub fn saturate(n: i128) -> (r: i64)
    ensures
        r == saturated(n as int),
{
    if n > i64::MAX as i128 {
        i64::MAX
    } else if n < i64::MIN as i128 {
        i64::MIN
    } else {
        n as i64
    }
}

/// A speed brought into its range.
pub open spec fn clamped_speed(milli: u32) -> u32 {
    if milli < MIN_SPEED_MILLI {
        MIN_SPEED_MILLI
    } else if milli > MAX_SPEED_MILLI {
        MAX_SPEED_MILLI
    } else {
        milli
    }
}

/// A speed brought into its range.
pub fn clamp_speed(milli: u32) -> (r: u32)
    ensures
        r == clamped_speed(milli),
{
    if milli < MIN_SPEED_MILLI {
        MIN_SPEED_MILLI
    } else if milli > MAX_SPEED_MILLI {
        MAX_SPEED_MILLI
    } else {
        milli
    }
}

impl PlaybackClock {
    /// The media position at real time `at`.
    pub open spec fn position(self, at: u64) -> i64 {
        if self.paused {
            self.anchor_media_us
        } else {
            let elapsed = if at > self.anchor_at_us {
                at - self.anchor_at_us
            } else {
                0
            };
            saturated(self.anchor_media_us + elapsed * self.speed_milli / 1000)
        }
    }

    /// The clock anchored at its own position.
    pub open spec fn anchored(self, at: u64) -> PlaybackClock {
        PlaybackClock { anchor_media_us: self.position(at), anchor_at_us: at, ..self }
    }

    /// The clock set to a position.
    pub open spec fn moved(self, media_us: i64, at: u64) -> PlaybackClock {
        PlaybackClock { anchor_media_us: media_us, anchor_at_us: at, started: true, ..self }
    }

    /// Whether the clock is off by more than the tolerance.
    pub open spec fn drifts(self, media_us: i64, at: u64) -> bool {
        let d = self.position(at) - media_us;
        d > DRIFT_TOLERANCE_US || d < -DRIFT_TOLERANCE_US
    }

    /// The clock once it has followed the audio.
    pub open spec fn synced(self, media_us: i64, at: u64) -> PlaybackClock {
        if self.drifts(media_us, at) || !self.started {
            self.moved(media_us, at)
        } else {
            self
        }
    }

    /// A clock that stands at zero, paused, at normal speed.
    pub fn new(at: u64) -> (clock: PlaybackClock)
        ensures
            clock == (PlaybackClock {
                anchor_media_us: 0,
                anchor_at_us: at,
                speed_milli: 1000,
                paused: true,
                started: false,
            }),
    {
        PlaybackClock {
            anchor_media_us: 0,
            anchor_at_us: at,
            speed_milli: 1000,
            paused: true,
            started: false,
        }
    }

    /// The media position.
    pub fn now_us(&self, at: u64) -> (r: i64)
        ensures
            r == self.position(at),
    {
        if self.paused {
            self.anchor_media_us
        } else {
            let elapsed: u64 = if at > self.anchor_at_us {
                at - self.anchor_at_us
            } else {
                0
            };
            proof {
                assert(0 <= elapsed * self.speed_milli <= u64::MAX * u32::MAX) by (nonlinear_arith)
                    requires
                        0 <= elapsed <= u64::MAX,
                        0 <= self.speed_milli <= u32::MAX,
                ;
            }
            let advance: u128 = elapsed as u128 * self.speed_milli as u128 / 1000;
            saturate(self.anchor_media_us as i128 + advance as i128)
        }
    }

    pub fn is_paused(&self) -> (r: bool)
        ensures
            r == self.paused,
    {
        self.paused
    }

    /// The speed, in thousandths.
    pub fn speed(&self) -> (r: u32)
        ensures
            r == self.speed_milli,
    {
        self.speed_milli
    }

    /// Whether the origin of the stream is known.
    pub fn started(&self) -> (r: bool)
        ensures
            r == self.started,
    {
        self.started
    }

    /// Pauses the clock or lets it run, from where it is.
    pub fn set_paused(&mut self, paused: bool, at: u64)
        ensures
            *final(self) == (if old(self).paused == paused {
                *old(self)
            } else {
                PlaybackClock { paused, ..old(self).anchored(at) }
            }),
    {
        if self.paused == paused {
            return;
        }
        let now: i64 = self.now_us(at);
        self.anchor_media_us = now;
        self.anchor_at_us = at;
        self.paused = paused;
    }

    /// Changes the speed, brought into its range, and keeps the position.
    pub fn set_speed(&mut self, speed_milli: u32, at: u64)
        ensures
            *final(self) == (PlaybackClock {
                speed_milli: clamped_speed(speed_milli),
                ..old(self).anchored(at)
            }),
    {
        let now: i64 = self.now_us(at);
        self.anchor_media_us = now;
        self.anchor_at_us = at;
        self.speed_milli = clamp_speed(speed_milli);
    }

    /// Sets the position.
    pub fn set_position(&mut self, media_us: i64, at: u64)
        ensures
            *final(self) == old(self).moved(media_us, at),
    {
        self.anchor_media_us = media_us;
        self.anchor_at_us = at;
        self.started = true;
    }

    /// Follows the audio: sets the position only where the clock is off by more
    /// than the tolerance, so that the picture does not tremble.
    pub fn sync_to(&mut self, media_us: i64, at: u64)
        ensures
            *final(self) == old(self).synced(media_us, at),
    {
        let drift: i128 = self.now_us(at) as i128 - media_us as i128;
        if drift > DRIFT_TOLERANCE_US as i128 || drift < -(DRIFT_TOLERANCE_US as i128)
            || !self.started {
            self.set_position(media_us, at);
        }
    }
}

// ---- Laws ------------------------------------------------------------------

/// A paused clock stands still.
pub proof fn law_paused_clock_is_frozen(clock: PlaybackClock, a: u64, b: u64)
    requires
        clock.paused,
    ensures
        clock.position(a) == clock.position(b),
{
}

/// A clock never runs backward.
pub proof fn law_clock_does_not_run_backward(clock: PlaybackClock, a: u64, b: u64)
    requires
        a <= b,
    ensures
        clock.position(a) <= clock.position(b),
{
    let x = if a > clock.anchor_at_us {
        a - clock.anchor_at_us
    } else {
        0
    };
    let y = if b > clock.anchor_at_us {
        b - clock.anchor_at_us
    } else {
        0
    };
    let v = clock.speed_milli as int;
    assert(x * v / 1000 <= y * v / 1000) by (nonlinear_arith)
        requires
            0 <= x <= y,
            0 <= v,
    ;
}

/// Pausing, resuming and changing the speed leave the position where it is.
pub proof fn law_position_is_kept(clock: PlaybackClock, paused: bool, milli: u32, at: u64)
    ensures
        (PlaybackClock { paused, ..clock.anchored(at) }).position(at) == clock.position(at),
        (PlaybackClock { speed_milli: clamped_speed(milli), ..clock.anchored(at) }).position(at)
            == clock.position(at),
{
    assert(0 * milli == 0);
    let v = clock.speed_milli as int;
    let w = clamped_speed(milli) as int;
    assert(0 * v / 1000 == 0 && 0 * w / 1000 == 0) by (nonlinear_arith);
}

/// A clock that has followed the audio is off by no more than the tolerance,
/// and one that is near enough is left alone.
pub proof fn law_clock_follows_the_audio(clock: PlaybackClock, media_us: i64, at: u64)
    ensures
        !clock.synced(media_us, at).drifts(media_us, at),
        clock.synced(media_us, at).started,
        clock.started && !clock.drifts(media_us, at) ==> clock.synced(media_us, at) == clock,
        clock.synced(media_us, at).synced(media_us, at) == clock.synced(media_us, at),
{
    let v = clock.speed_milli as int;
    assert(0 * v / 1000 == 0) by (nonlinear_arith);
}

/// A clock that runs advances by the real time since it was anchored times its
/// speed, in thousandths, rounded down to a microsecond. It stands still before
/// that moment, and at the last position once it would leave the 64-bit integers.
pub proof fn law_clock_runs_at_its_speed(clock: PlaybackClock, at: u64)
    requires
        !clock.paused,
    ensures
        at <= clock.anchor_at_us ==> clock.position(at) == clock.anchor_media_us,
        at >= clock.anchor_at_us ==> {
            let p = clock.position(at) - clock.anchor_media_us;
            let e = at - clock.anchor_at_us;
            let room = i64::MAX - clock.anchor_media_us;
            if e * clock.speed_milli < 1000 * (room + 1) {
                1000 * p <= e * clock.speed_milli < 1000 * (p + 1)
            } else {
                clock.position(at) == i64::MAX
            }
        },
{
    let v = clock.speed_milli as int;
    assert(0 * v / 1000 == 0) by (nonlinear_arith);
    if at >= clock.anchor_at_us {
        let e = at - clock.anchor_at_us;
        assert(0 <= e * v) by (nonlinear_arith)
            requires
                0 <= e,
                0 <= v,
        ;
    }
}

/// At twice the speed the clock goes twice as far, and at normal speed as far as
/// real time does.
pub proof fn law_clock_keeps_real_time(clock: PlaybackClock, at: u64, n: u32)
    requires
        !clock.paused,
        at >= clock.anchor_at_us,
        clock.speed_milli == 1000 * n,
        clock.anchor_media_us + n * (at - clock.anchor_at_us) <= i64::MAX,
    ensures
        clock.position(at) == clock.anchor_media_us + n * (at - clock.anchor_at_us),
{
    let e = at - clock.anchor_at_us;
    let v = clock.speed_milli as int;
    let k = n as int;
    assert(e * v == (k * e) * 1000) by (nonlinear_arith)
        requires
            v == 1000 * k,
    ;
    assert(0 <= k * e) by (nonlinear_arith)
        requires
            0 <= e,
            0 <= k,
    ;
}

/// A clock that is set stands at that position, with its origin known, and goes on
/// as it did: paused or not, at the same speed.
pub proof fn law_set_clock_stands_there(clock: PlaybackClock, media_us: i64, at: u64)
    ensures
        clock.moved(media_us, at).position(at) == media_us,
        clock.moved(media_us, at).started,
        clock.moved(media_us, at).paused == clock.paused,
        clock.moved(media_us, at).speed_milli == clock.speed_milli,
{
    let v = clock.speed_milli as int;
    assert(0 * v / 1000 == 0) by (nonlinear_arith);
}

/// The clock jumps to the audio where the two are more than thirty milliseconds
/// apart or its origin is not known yet, and else is not touched.
pub proof fn law_clock_jumps_when_it_is_off(clock: PlaybackClock, media_us: i64, at: u64)
    ensures
        ({
            let apart = clock.position(at) - media_us;
            if clock.started && -30_000 <= apart <= 30_000 {
                clock.synced(media_us, at) == clock
            } else {
                clock.synced(media_us, at).position(at) == media_us
            }
        }),
{
    law_set_clock_stands_there(clock, media_us, at);
}

/// A speed is between a quarter and four times the normal one, and one that is
/// stays as it is; of two speeds the faster stays the faster.
pub proof fn law_speed_stays_in_range(a: u32, b: u32)
    requires
        a <= b,
    ensures
        250 <= clamped_speed(a) <= 4000,
        250 <= a <= 4000 ==> clamped_speed(a) == a,
        clamped_speed(a) <= clamped_speed(b),
{
}

/// A clock that is anchored anew is the same clock: it goes on from where it was, at its
/// speed, paused or not, with its origin known or not.
pub proof fn law_anchored_clock_goes_on(clock: PlaybackClock, at: u64)
    ensures
        clock.anchored(at).position(at) == clock.position(at),
        clock.anchored(at).speed_milli == clock.speed_milli,
        clock.anchored(at).paused == clock.paused,
        clock.anchored(at).started == clock.started,
{
    let v = clock.speed_milli as int;
    assert(0 * v / 1000 == 0) by (nonlinear_arith);
}

/// A number that fits stays, and one that does not goes to the nearer end.
pub proof fn law_numbers_saturate(n: int)
    ensures
        i64::MIN <= n <= i64::MAX ==> saturated(n) == n,
        n > i64::MAX ==> saturated(n) == i64::MAX,
        n < i64::MIN ==> saturated(n) == i64::MIN,
{
}

} // verus!
