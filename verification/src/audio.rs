//! The sound on its way to the device.

use crate::player::clock::{saturate, saturated};
use crate::player::state::SharedState;
use crate::text::{same_str, to_chars};
use std::collections::VecDeque;
use vstd::prelude::*;

verus! {

/// A queue of stereo samples (left, right, left, right), with the time of the
/// first one. It holds about a second.
#[derive(Debug)]
pub struct AudioQueue<T> {
    samples: VecDeque<T>,
    front_pts_us: i64,
    capacity: usize,
}

/// What a queue holds.
#[verifier::ext_equal]
pub struct Sound<T> {
    pub samples: Seq<T>,
    /// The media time of the first sample.
    pub front_pts_us: i64,
    /// How many samples are enough.
    pub capacity: usize,
}

impl<T> View for AudioQueue<T> {
    type V = Sound<T>;

    closed spec fn view(&self) -> Sound<T> {
        Sound {
            samples: self.samples@,
            front_pts_us: self.front_pts_us,
            capacity: self.capacity,
        }
    }
}

/// How much media time passes while `frames` pairs of samples are played.
pub open spec fn played_us(frames: int, speed_milli: u32, sample_rate: u32) -> int {
    frames * 1000 * speed_milli / sample_rate as int
}

/// How many pairs of samples are played of `wanted`.
pub open spec fn available(samples: nat, wanted: nat) -> nat {
    if samples / 2 < wanted {
        samples / 2
    } else {
        wanted
    }
}

/// The first `n` pairs of samples.
pub open spec fn pairs<T>(samples: Seq<T>, n: nat) -> Seq<(T, T)> {
    Seq::new(n, |i: int| (samples[2 * i], samples[2 * i + 1]))
}

/// The samples of pairs, one after the other.
pub open spec fn unpaired<T>(frames: Seq<(T, T)>) -> Seq<T> {
    Seq::new(
        2 * frames.len(),
        |i: int|
            if i % 2 == 0 {
                frames[i / 2].0
            } else {
                frames[i / 2].1
            },
    )
}

/// The sound of a queue after samples were added.
pub open spec fn queued<T>(sound: Sound<T>, pts_us: i64, samples: Seq<T>) -> Sound<T> {
    Sound {
        samples: sound.samples + samples,
        front_pts_us: if sound.samples.len() == 0 && pts_us >= 0 {
            pts_us
        } else {
            sound.front_pts_us
        },
        ..sound
    }
}

impl<T: Copy> AudioQueue<T> {
    /// An empty queue for a device with this rate.
    pub fn new(sample_rate: u32) -> (q: AudioQueue<T>)
        requires
            sample_rate <= 0x7fff_ffff,
        ensures
            q@ == (Sound {
                samples: Seq::<T>::empty(),
                front_pts_us: 0,
                capacity: (sample_rate * 2) as usize,
            }),
    {
        let q = AudioQueue {
            samples: VecDeque::new(),
            front_pts_us: 0,
            capacity: sample_rate as usize * 2,
        };
        assert(q@ =~= (Sound {
            samples: Seq::<T>::empty(),
            front_pts_us: 0,
            capacity: (sample_rate * 2) as usize,
        }));
        q
    }

    /// Whether there is room for more samples.
    pub fn has_room(&self) -> (r: bool)
        ensures
            r == (self@.samples.len() < self@.capacity),
    {
        self.samples.len() < self.capacity
    }

    pub fn is_empty(&self) -> (r: bool)
        ensures
            r == (self@.samples.len() == 0),
    {
        self.samples.len() == 0
    }

    /// Adds samples. Their time is that of the queue where it was empty and they
    /// have one.
    pub fn push(&mut self, pts_us: i64, samples: &[T])
        ensures
            final(self)@ == (Sound {
                samples: old(self)@.samples + samples@,
                front_pts_us: if old(self)@.samples.len() == 0 && pts_us >= 0 {
                    pts_us
                } else {
                    old(self)@.front_pts_us
                },
                ..old(self)@
            }),
            final(self)@ == queued(old(self)@, pts_us, samples@),
    {
        if self.samples.len() == 0 && pts_us >= 0 {
            self.front_pts_us = pts_us;
        }
        let ghost front = self.front_pts_us;
        let mut i: usize = 0;
        while i < samples.len()
            invariant
                i <= samples@.len(),
                self.samples@ == old(self)@.samples + samples@.take(i as int),
                self.front_pts_us == front,
                self.capacity == old(self)@.capacity,
            decreases samples@.len() - i,
        {
            self.samples.push_back(samples[i]);
            assert(self.samples@ =~= old(self)@.samples + samples@.take(i + 1));
            i = i + 1;
        }
        assert(samples@.take(samples@.len() as int) == samples@);
        assert(self@.samples =~= old(self)@.samples + samples@);
    }

    /// Forgets the samples.
    pub fn clear(&mut self)
        ensures
            final(self)@ == (Sound { samples: Seq::<T>::empty(), ..old(self)@ }),
    {
        self.samples.clear();
        assert(self@ =~= (Sound { samples: Seq::<T>::empty(), ..old(self)@ }));
    }

    /// Takes up to `wanted` pairs of samples to play.
    pub fn take_frames(&mut self, wanted: usize) -> (r: Vec<(T, T)>)
        ensures
            r@.len() == available(old(self)@.samples.len(), wanted as nat),
            forall|i: int|
                0 <= i < r@.len() ==> #[trigger] r@[i] == (
                    old(self)@.samples[2 * i],
                    old(self)@.samples[2 * i + 1],
                ),
            r@ == pairs(old(self)@.samples, available(old(self)@.samples.len(), wanted as nat)),
            final(self)@ == (Sound {
                samples: old(self)@.samples.skip(2 * r@.len() as int),
                ..old(self)@
            }),
    {
        let mut out: Vec<(T, T)> = Vec::new();
        let ghost given = self.samples@;
        let mut n: usize = 0;
        assert(given.skip(0) == given);
        while n < wanted && self.samples.len() >= 2
            invariant
                n <= wanted,
                2 * n <= given.len(),
                out@.len() == n,
                given == old(self)@.samples,
                self.samples@ == given.skip(2 * n as int),
                self.front_pts_us == old(self)@.front_pts_us,
                self.capacity == old(self)@.capacity,
                forall|i: int|
                    0 <= i < n ==> #[trigger] out@[i] == (given[2 * i], given[2 * i + 1]),
            decreases wanted - n,
        {
            let ghost before = self.samples@;
            let left = self.samples.pop_front();
            let right = self.samples.pop_front();
            if let (Some(l), Some(r)) = (left, right) {
                out.push((l, r));
            }
            assert(before[0] == given[2 * n as int] && before[1] == given[2 * n as int + 1]);
            assert(self.samples@ =~= given.skip(2 * (n + 1)));
            n = n + 1;
        }
        assert(self@.samples =~= old(self)@.samples.skip(2 * out@.len() as int));
        out
    }

    /// Takes note that pairs of samples were played, and says what the time of
    /// the first one is now.
    pub fn advance(&mut self, frames: usize, speed_milli: u32, sample_rate: u32) -> (pts_us: i64)
        requires
            sample_rate > 0,
        ensures
            pts_us == saturated(
                old(self)@.front_pts_us + played_us(frames as int, speed_milli, sample_rate),
            ),
            final(self)@ == (Sound { front_pts_us: pts_us, ..old(self)@ }),
    {
        proof {
            assert(0 <= frames * 1000 * speed_milli <= 0xffff_ffff_ffff_ffff * 1000 * 0xffff_ffff)
                by (nonlinear_arith)
                requires
                    0 <= frames <= 0xffff_ffff_ffff_ffff,
                    0 <= speed_milli <= 0xffff_ffff,
            ;
        }
        let us: u128 = frames as u128 * 1000 * speed_milli as u128 / sample_rate as u128;
        let pts: i64 = saturate(self.front_pts_us as i128 + us as i128);
        self.front_pts_us = pts;
        pts
    }
}

/// How many pairs of samples the device gets: none while the playback is paused
/// or ends.
pub open spec fn frames_to_play(shared: SharedState, samples: nat, wanted: nat) -> nat {
    if shared.clock.paused || shared.stop {
        0
    } else {
        available(samples, wanted)
    }
}

/// Takes what the device plays next, up to `wanted` pairs of samples; the rest
/// is silence. What is played moves the time of the queue, and the clock of the
/// session follows it, shifted by the delay that the user has set.
pub fn render_audio<T: Copy>(
    queue: &mut AudioQueue<T>,
    shared: &mut SharedState,
    wanted: usize,
    sample_rate: u32,
    at: u64,
) -> (r: Vec<(T, T)>)
    requires
        sample_rate > 0,
    ensures
        r@.len() == frames_to_play(*old(shared), old(queue)@.samples.len(), wanted as nat),
        forall|i: int|
            0 <= i < r@.len() ==> #[trigger] r@[i] == (
                old(queue)@.samples[2 * i],
                old(queue)@.samples[2 * i + 1],
            ),
        r@ == pairs(
            old(queue)@.samples,
            frames_to_play(*old(shared), old(queue)@.samples.len(), wanted as nat),
        ),
        r@.len() == 0 ==> final(queue)@ == old(queue)@ && *final(shared) == *old(shared),
        r@.len() > 0 ==> final(queue)@ == (Sound {
            samples: old(queue)@.samples.skip(2 * r@.len() as int),
            front_pts_us: saturated(
                old(queue)@.front_pts_us + played_us(
                    r@.len() as int,
                    old(shared).speed_milli,
                    sample_rate,
                ),
            ),
            ..old(queue)@
        }),
        r@.len() > 0 ==> *final(shared) == (SharedState {
            clock: old(shared).clock.synced(
                saturated(final(queue)@.front_pts_us + old(shared).audio_delay_us),
                at,
            ),
            ..*old(shared)
        }),
{
    if shared.clock.is_paused() || shared.should_stop() {
        return Vec::new();
    }
    let frames = queue.take_frames(wanted);
    let n: usize = frames.len();
    if n == 0 {
        assert(old(queue)@.samples.skip(0) == old(queue)@.samples);
        return frames;
    }
    let pts: i64 = queue.advance(n, shared.speed(), sample_rate);
    shared.clock.sync_to(saturate(pts as i128 + shared.audio_delay_us as i128), at);
    frames
}

/// Where the wanted device stands in the list; none where it is not there or no
/// device is wanted, which means the default one.
pub open spec fn device_place(names: Seq<String>, wanted: Seq<char>) -> Option<int>
    decreases names.len(),
{
    if names.len() == 0 {
        None
    } else if names[0]@ == wanted {
        Some(0)
    } else {
        match device_place(names.skip(1), wanted) {
            Some(i) => Some(i + 1),
            None => None,
        }
    }
}

/// The output device to open: the one with the wanted name, or none for the
/// default one.
pub fn choose_device(names: &Vec<String>, wanted: Option<&str>) -> (r: Option<usize>)
    ensures
        wanted is None ==> r is None,
        wanted matches Some(w) ==> (match r {
            Some(i) => device_place(names@, w@) == Some(i as int),
            None => device_place(names@, w@) is None,
        }),
{
    match wanted {
        None => None,
        Some(w) => {
            let name = to_chars(w);
            let mut i: usize = 0;
            assert(names@.skip(0) == names@);
            while i < names.len()
                invariant
                    name@ == w@,
                    wanted == Some(w),
                    i <= names@.len(),
                    device_place(names@, w@) == (match device_place(names@.skip(i as int), w@) {
                        Some(k) => Some(k + i),
                        None => None,
                    }),
                decreases names@.len() - i,
            {
                assert(names@.skip(i as int).skip(1) == names@.skip(i + 1));
                assert(names@.skip(i as int)[0] == names@[i as int]);
                if same_str(names[i].as_str(), &name) {
                    return Some(i);
                }
                i = i + 1;
            }
            None
        },
    }
}

// ---- Laws ------------------------------------------------------------------

/// While `frames` pairs of samples are played, as many seconds pass as the device
/// plays that many in, times the speed, rounded down to a microsecond.
pub proof fn law_played_time_is_media_time(frames: int, speed_milli: u32, sample_rate: u32)
    requires
        0 <= frames,
        sample_rate > 0,
    ensures
        ({
            let us = played_us(frames, speed_milli, sample_rate);
            us * sample_rate <= frames * 1000 * speed_milli < (us + 1) * sample_rate
        }),
{
    let n = frames * 1000 * speed_milli;
    let d = sample_rate as int;
    vstd::arithmetic::div_mod::lemma_fundamental_div_mod(n, d);
    vstd::arithmetic::div_mod::lemma_mod_bound(n, d);
    let q = n / d;
    assert(d * q == q * d && (q + 1) * d == q * d + d) by (nonlinear_arith);
}

/// As many pairs are played as are wanted and are there, and no more.
pub proof fn law_as_many_as_there_are(samples: nat, wanted: nat, more: nat)
    ensures
        available(samples, wanted) <= wanted,
        2 * available(samples, wanted) <= samples,
        more <= wanted && 2 * more <= samples ==> more <= available(samples, wanted),
{
}

/// A device is the first with the wanted name, and there is none only where no
/// device has it.
pub proof fn law_device_has_the_name(names: Seq<String>, wanted: Seq<char>)
    ensures
        device_place(names, wanted) matches Some(i) ==> {
            &&& 0 <= i < names.len() && names[i]@ == wanted
            &&& forall|k: int| 0 <= k < i ==> (#[trigger] names[k])@ != wanted
        },
        device_place(names, wanted) is None ==> forall|k: int|
            0 <= k < names.len() ==> (#[trigger] names[k])@ != wanted,
    decreases names.len(),
{
    if names.len() > 0 && names[0]@ != wanted {
        let rest = names.skip(1);
        law_device_has_the_name(rest, wanted);
        assert forall|k: int| 0 < k < names.len() implies (#[trigger] names[k]) == rest[k - 1] by {}
    }
}

/// Sound is played as it came: the pairs that are taken and what is left make up what
/// was there, in the same order.
pub proof fn law_sound_is_played_as_it_came<T>(samples: Seq<T>, n: nat)
    requires
        2 * n <= samples.len(),
    ensures
        unpaired(pairs(samples, n)) + samples.skip(2 * n as int) == samples,
        pairs(samples, n).len() == n,
{
    let taken = unpaired(pairs(samples, n));
    assert forall|i: int| 0 <= i < 2 * n implies taken[i] == samples[i] by {
        assert(2 * (i / 2) + i % 2 == i);
    }
    assert(taken + samples.skip(2 * n as int) =~= samples);
}

/// Samples that are added stand behind those that are there, in their order. The time
/// of the queue is that of its first sample: it changes only where the queue was empty
/// and the time of the new ones is known.
pub proof fn law_added_sound_stands_behind<T>(sound: Sound<T>, pts_us: i64, samples: Seq<T>)
    ensures
        queued(sound, pts_us, samples).samples == sound.samples + samples,
        sound.samples.len() > 0 || pts_us < 0 ==> queued(sound, pts_us, samples).front_pts_us
            == sound.front_pts_us,
        sound.samples.len() == 0 && pts_us >= 0 ==> queued(sound, pts_us, samples).front_pts_us
            == pts_us,
        queued(sound, pts_us, samples).capacity == sound.capacity,
{
}

/// The device gets nothing while the playback is paused or ends, and else what there is.
pub proof fn law_paused_sound_waits(shared: SharedState, samples: nat, wanted: nat)
    ensures
        shared.clock.paused || shared.stop ==> frames_to_play(shared, samples, wanted) == 0,
        !shared.clock.paused && !shared.stop && samples >= 2 * wanted ==> frames_to_play(
            shared,
            samples,
            wanted,
        ) == wanted,
{
}

} // verus!
