//! When decoded pictures are shown.

use super::clock::{PlaybackClock, law_set_clock_stands_there, saturate, saturated};
use super::state::{SharedState, after_count, next_count};
use crate::decoder::VideoFrameMsg;
use vstd::prelude::*;

verus! {

/// A picture that is this late is dropped.
pub const LATE_DROP_US: i64 = 120_000;

/// A picture that is due within this time is shown at once.
pub const EARLY_SHOW_US: i64 = 2_000;

/// How long to wait for a picture, in microseconds.
pub const RECEIVE_TIMEOUT_US: u64 = 50_000;

/// How long to wait while the playback is paused, in microseconds.
pub const PAUSE_WAIT_US: u64 = 20_000;

/// What came while the presenter waited for a picture.
#[derive(Debug, Clone, Copy, PartialEq, Eq, Structural)]
pub enum FrameEvent {
    /// A picture with its time and the number of seeks before it.
    Frame { pts_us: i64, generation: u64 },
    /// There is no more picture.
    Eof,
    /// Nothing came.
    Timeout,
    /// Nothing will come any more.
    Disconnected,
}

impl FrameEvent {
    /// What a message of the video decoder is to the presenter.
    pub fn of(message: &VideoFrameMsg) -> (event: FrameEvent)
        ensures
            event == (match *message {
                VideoFrameMsg::Frame { frame, generation } => FrameEvent::Frame {
                    pts_us: frame.pts_us,
                    generation,
                },
                VideoFrameMsg::Eof => FrameEvent::Eof,
            }),
    {
        match message {
            VideoFrameMsg::Frame { frame, generation } => FrameEvent::Frame {
                pts_us: frame.pts_us,
                generation: *generation,
            },
            VideoFrameMsg::Eof => FrameEvent::Eof,
        }
    }
}

/// What to do next.
#[derive(Debug, Clone, Copy, PartialEq, Eq, Structural)]
pub enum PresenterAction {
    /// Wait for a picture.
    Receive,
    /// Show the picture that is held.
    Present,
    /// Drop the picture that is held: it is from before a seek.
    Drop,
    /// Drop the picture that is held: it is too late.
    Skip,
    /// Keep the picture, and look again after this many microseconds.
    Wait(u64),
    /// The last picture was shown.
    Finished,
    /// End.
    Stop,
}

/// The presenter: the picture that it holds, and what it has shown.
#[derive(Debug, Clone, Copy, PartialEq, Eq)]
pub struct Presenter {
    /// The time and the number of seeks of the picture that is held.
    pub pending: Option<(i64, u64)>,
    /// The number of seeks before the last picture.
    pub last_generation: u64,
    /// Whether no picture was shown since the last seek.
    pub first_of_generation: bool,
}

/// What is known when a picture is judged.
#[derive(Debug, Clone, Copy, PartialEq, Eq, Structural)]
pub struct Moment {
    /// The number of seeks.
    pub generation: u64,
    pub paused: bool,
    /// The media position.
    pub now_us: i64,
    /// The speed, in thousandths.
    pub speed_milli: u32,
}

/// How long to sleep before a picture that is due in `delta` microseconds of
/// media time: no less than half a millisecond and no more than twenty.
pub open spec fn sleep_before(delta: int, speed_milli: u32) -> int {
    let speed = if speed_milli < 250 {
        250
    } else {
        speed_milli as int
    };
    let wall = delta * 1000 / speed;
    if wall < 500 {
        500
    } else if wall > 20_000 {
        20_000
    } else {
        wall
    }
}

impl Presenter {
    /// Whether a picture is the first one since a seek.
    pub open spec fn is_first(self, generation: u64) -> bool {
        generation != self.last_generation || self.first_of_generation
    }

    /// What to do with a picture.
    pub open spec fn verdict(self, pts_us: i64, generation: u64, m: Moment) -> PresenterAction {
        let first = self.is_first(generation);
        let delta = pts_us - m.now_us;
        if generation != m.generation {
            PresenterAction::Drop
        } else if m.paused {
            if first {
                PresenterAction::Present
            } else {
                PresenterAction::Wait(PAUSE_WAIT_US)
            }
        } else if delta > EARLY_SHOW_US {
            PresenterAction::Wait(sleep_before(delta, m.speed_milli) as u64)
        } else if delta < -LATE_DROP_US && !first {
            PresenterAction::Skip
        } else {
            PresenterAction::Present
        }
    }

    /// The presenter after it has judged the picture that it holds.
    pub open spec fn judged(self, m: Moment) -> Presenter {
        match self.pending {
            None => self,
            Some((pts_us, generation)) => if generation != m.generation {
                Presenter { pending: None, ..self }
            } else {
                let action = self.verdict(pts_us, generation, m);
                Presenter {
                    pending: if action is Wait {
                        self.pending
                    } else {
                        None
                    },
                    last_generation: generation,
                    first_of_generation: if action is Present {
                        false
                    } else {
                        self.is_first(generation)
                    },
                }
            },
        }
    }

    /// A presenter that has shown nothing.
    pub fn new(generation: u64) -> (p: Presenter)
        ensures
            p == (Presenter {
                pending: None,
                last_generation: generation,
                first_of_generation: true,
            }),
    {
        Presenter { pending: None, last_generation: generation, first_of_generation: true }
    }

    /// Takes what came while the presenter waited for a picture.
    pub fn receive(&mut self, event: FrameEvent) -> (action: PresenterAction)
        requires
            old(self).pending is None,
        ensures
            match event {
                FrameEvent::Frame { pts_us, generation } => action == PresenterAction::Receive
                    && *final(self) == (Presenter {
                    pending: Some((pts_us, generation)),
                    ..*old(self)
                }),
                FrameEvent::Eof => action == PresenterAction::Finished && *final(self)
                    == *old(self),
                FrameEvent::Timeout => action == PresenterAction::Receive && *final(self) == *old(
                    self,
                ),
                FrameEvent::Disconnected => action == PresenterAction::Stop && *final(self) == *old(
                    self,
                ),
            },
    {
        match event {
            FrameEvent::Frame { pts_us, generation } => {
                self.pending = Some((pts_us, generation));
                PresenterAction::Receive
            },
            FrameEvent::Eof => PresenterAction::Finished,
            FrameEvent::Timeout => PresenterAction::Receive,
            FrameEvent::Disconnected => PresenterAction::Stop,
        }
    }

    /// Decides what to do next: to wait for a picture where none is held, and
    /// otherwise what to do with it.
    pub fn decide(&mut self, stop: bool, m: Moment) -> (action: PresenterAction)
        ensures
            stop ==> action == PresenterAction::Stop && *final(self) == *old(self),
            !stop ==> *final(self) == old(self).judged(m),
            !stop ==> action == (match old(self).pending {
                None => PresenterAction::Receive,
                Some((pts_us, generation)) => old(self).verdict(pts_us, generation, m),
            }),
    {
        if stop {
            return PresenterAction::Stop;
        }
        let (pts_us, generation): (i64, u64) = match self.pending {
            None => return PresenterAction::Receive,
            Some(p) => p,
        };
        self.pending = None;
        if generation != m.generation {
            return PresenterAction::Drop;
        }
        if generation != self.last_generation {
            self.last_generation = generation;
            self.first_of_generation = true;
        }
        if m.paused {
            if self.first_of_generation {
                self.first_of_generation = false;
                return PresenterAction::Present;
            }
            self.pending = Some((pts_us, generation));
            return PresenterAction::Wait(PAUSE_WAIT_US);
        }
        let delta: i128 = pts_us as i128 - m.now_us as i128;
        if delta > EARLY_SHOW_US as i128 {
            let speed: u128 = if m.speed_milli < 250 {
                250
            } else {
                m.speed_milli as u128
            };
            let wall: u128 = delta as u128 * 1000 / speed;
            assert(wall == delta * 1000 / (speed as int));
            let sleep: u64 = if wall < 500 {
                500
            } else if wall > 20_000 {
                20_000
            } else {
                wall as u64
            };
            self.pending = Some((pts_us, generation));
            return PresenterAction::Wait(sleep);
        }
        if delta < -(LATE_DROP_US as i128) && !self.first_of_generation {
            return PresenterAction::Skip;
        }
        self.first_of_generation = false;
        PresenterAction::Present
    }
}

/// The clock once a picture is shown: the first one sets it where nothing else has.
pub open spec fn clock_with_picture(clock: PlaybackClock, pts_us: i64, at: u64) -> PlaybackClock {
    if clock.started {
        clock
    } else {
        clock.moved(pts_us, at)
    }
}

/// Takes note that a picture is shown: it is counted, and how far it is from its
/// time. Without sound the first one sets the clock.
pub fn present(shared: &mut SharedState, pts_us: i64, at: u64)
    ensures
        *final(shared) == (SharedState {
            clock: if old(shared).clock.started {
                old(shared).clock
            } else {
                old(shared).clock.moved(pts_us, at)
            },
            frames_presented: after_count(old(shared).frames_presented),
            last_av_delta_us: saturated(pts_us - old(shared).clock.position(at)),
            ..*old(shared)
        }),
        final(shared).clock == clock_with_picture(old(shared).clock, pts_us, at),
{
    shared.last_av_delta_us = saturate(pts_us as i128 - shared.clock.now_us(at) as i128);
    shared.frames_presented = next_count(shared.frames_presented);
    if !shared.clock.started() {
        shared.clock.set_position(pts_us, at);
    }
}

/// Takes note that a picture is left out because it is too late.
pub fn skip(shared: &mut SharedState)
    ensures
        *final(shared) == (SharedState {
            frames_dropped: after_count(old(shared).frames_dropped),
            ..*old(shared)
        }),
{
    shared.frames_dropped = next_count(shared.frames_dropped);
}

// ---- Laws ------------------------------------------------------------------

/// A picture from before a seek is never shown, paused or not, and makes room
/// at once.
pub proof fn law_stale_pictures_are_dropped(p: Presenter, pts_us: i64, generation: u64, m: Moment)
    requires
        p.pending == Some((pts_us, generation)),
        generation != m.generation,
    ensures
        p.verdict(pts_us, generation, m) == PresenterAction::Drop,
        p.judged(m).pending is None,
{
}

/// The first picture after a seek is never dropped for being late, and while
/// paused it is shown at once; the next one then waits.
pub proof fn law_first_picture_after_a_seek(p: Presenter, pts_us: i64, m: Moment, next_us: i64)
    requires
        p.pending == Some((pts_us, m.generation)),
        p.is_first(m.generation),
    ensures
        p.verdict(pts_us, m.generation, m) != PresenterAction::Drop,
        p.verdict(pts_us, m.generation, m) != PresenterAction::Skip,
        m.paused ==> p.verdict(pts_us, m.generation, m) == PresenterAction::Present,
        m.paused ==> (Presenter {
            pending: Some((next_us, m.generation)),
            ..p.judged(m)
        }).verdict(next_us, m.generation, m) is Wait,
{
}

/// A picture is held back only for a time between half a millisecond and twenty
/// milliseconds, and is kept meanwhile.
pub proof fn law_waits_are_short(p: Presenter, pts_us: i64, generation: u64, m: Moment)
    requires
        p.pending == Some((pts_us, generation)),
    ensures
        p.verdict(pts_us, generation, m) matches PresenterAction::Wait(us) ==> 500 <= us <= 20_000
            && p.judged(m).pending == p.pending,
{
}

/// While the playback runs, a picture of the present time is shown where it is due
/// within two milliseconds and is no more than a hundred and twenty late; an earlier
/// one waits and a later one is skipped, unless it is the first one since a seek.
pub proof fn law_pictures_are_shown_when_due(p: Presenter, pts_us: i64, m: Moment)
    requires
        !m.paused,
    ensures
        ({
            let early = pts_us - m.now_us;
            let action = p.verdict(pts_us, m.generation, m);
            &&& -120_000 <= early <= 2_000 ==> action == PresenterAction::Present
            &&& early > 2_000 ==> action is Wait
            &&& early < -120_000 && !p.is_first(m.generation) ==> action == PresenterAction::Skip
            &&& early < -120_000 && p.is_first(m.generation) ==> action == PresenterAction::Present
        }),
{
}

/// A picture that is due within twenty milliseconds of real time is waited for until
/// it is due: media time passes at the speed of the playback.
pub proof fn law_waits_end_when_the_picture_is_due(delta: int, speed_milli: u32)
    requires
        250 <= speed_milli,
        speed_milli <= 2 * delta,
        delta * 1000 < 20_001 * speed_milli,
    ensures
        ({
            let us = sleep_before(delta, speed_milli);
            us * speed_milli <= delta * 1000 < (us + 1) * speed_milli
        }),
{
    let n = delta * 1000;
    let v = speed_milli as int;
    vstd::arithmetic::div_mod::lemma_fundamental_div_mod(n, v);
    vstd::arithmetic::div_mod::lemma_mod_bound(n, v);
    let q = n / v;
    assert(q * v <= n < (q + 1) * v && 500 <= q <= 20_000) by (nonlinear_arith)
        requires
            n == v * q + n % v,
            0 <= n % v < v,
            500 * v <= n < 20_001 * v,
            v > 0,
    ;
}

/// A picture of another generation than the last one is the first of its own, and stays
/// so until one is shown; a picture from before a seek changes nothing of this.
pub proof fn law_first_picture_stays_first_until_shown(
    p: Presenter,
    pts_us: i64,
    generation: u64,
    other: u64,
    m: Moment,
)
    requires
        p.pending == Some((pts_us, generation)),
    ensures
        other != p.last_generation ==> p.is_first(other),
        generation != m.generation ==> p.judged(m).is_first(other) == p.is_first(other),
        generation == m.generation && p.verdict(pts_us, generation, m) == PresenterAction::Present
            ==> !p.judged(m).is_first(generation) && p.judged(m).pending is None,
        generation == m.generation && p.verdict(pts_us, generation, m) != PresenterAction::Present
            ==> p.judged(m).is_first(generation) == p.is_first(generation),
        generation == m.generation && p.verdict(pts_us, generation, m) == PresenterAction::Skip
            ==> p.judged(m).pending is None,
        (Presenter { pending: None, ..p }).judged(m) == (Presenter { pending: None, ..p }),
{
}

/// The first picture sets the clock to its own time where its origin is not known, and no
/// later picture moves it.
pub proof fn law_first_picture_sets_the_clock(clock: PlaybackClock, pts_us: i64, next_us: i64, at: u64)
    ensures
        !clock.started ==> clock_with_picture(clock, pts_us, at).position(at) == pts_us,
        clock.started ==> clock_with_picture(clock, pts_us, at) == clock,
        clock_with_picture(clock, pts_us, at).started,
        clock_with_picture(clock_with_picture(clock, pts_us, at), next_us, at)
            == clock_with_picture(clock, pts_us, at),
{
    law_set_clock_stands_there(clock, pts_us, at);
}

} // verus!
