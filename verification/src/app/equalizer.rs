//! The controls of the equaliser.

use super::session::App;
use crate::decoder::audio_filter::EQ_FREQUENCIES;
use crate::number::{decimal, write_decimal};
use crate::player::state::clamped_gain;
use crate::settings::names;
use crate::text::{from_chars, push_text};
use vstd::prelude::*;

verus! {

/// The gains to choose from, in hundredths of a decibel. The first place stands for
/// what the user has set, whose gains are never taken from here.
pub const EQ_PRESETS: [[i32; 10]; 8] = [
    [0, 0, 0, 0, 0, 0, 0, 0, 0, 0],
    // Flat.
    [0, 0, 0, 0, 0, 0, 0, 0, 0, 0],
    // Rock.
    [500, 400, 300, 100, -50, -50, 100, 300, 400, 450],
    // Pop.
    [-100, 0, 100, 250, 350, 350, 200, 50, -50, -100],
    // Jazz.
    [300, 200, 100, 200, -100, -100, 0, 100, 200, 300],
    // Classical.
    [400, 300, 200, 100, -50, -50, 0, 150, 250, 350],
    // More bass.
    [600, 500, 400, 250, 100, 0, 0, 0, 0, 0],
    // Voice.
    [-200, -100, 0, 200, 400, 400, 300, 150, 50, 0],
];

/// How the frequency of a band is shown.
pub open spec fn frequency_label(hertz: u32) -> Seq<char> {
    if hertz >= 1000 {
        decimal((hertz / 1000) as nat) + "k"@
    } else {
        decimal(hertz as nat)
    }
}

/// How the frequencies of the bands are shown.
pub fn frequency_labels() -> (r: Vec<String>)
    ensures
        r@.len() == 10,
        forall|i: int| 0 <= i < 10 ==> (#[trigger] r@[i])@ == frequency_label(EQ_FREQUENCIES@[i]),
{
    let bands: [u32; 10] = EQ_FREQUENCIES;
    let mut out: Vec<String> = Vec::new();
    let mut i: usize = 0;
    while i < 10
        invariant
            i <= 10,
            bands == EQ_FREQUENCIES,
            out@.len() == i,
            forall|k: int| 0 <= k < i ==> (#[trigger] out@[k])@ == frequency_label(
                EQ_FREQUENCIES@[k],
            ),
        decreases 10 - i,
    {
        let hertz: u32 = bands[i];
        if hertz >= 1000 {
            let mut text = write_decimal((hertz / 1000) as u64);
            push_text(&mut text, "k");
            out.push(from_chars(&text));
        } else {
            let text = write_decimal(hertz as u64);
            out.push(from_chars(&text));
        }
        i = i + 1;
    }
    out
}

impl App {
    /// Sets the gain of a band, brought into its range. Says which band it is and
    /// its gain, where there is such a band.
    pub fn set_equalizer_band(&mut self, band: i32, gain: i32) -> (r: Option<(usize, i32)>)
        ensures
            ({
                let place = if band < 0 {
                    0int
                } else {
                    band as int
                };
                &&& place >= 10 ==> r is None && *final(self) == *old(self)
                &&& place < 10 ==> {
                    &&& r matches Some((b, g)) && b == place && g == clamped_gain(gain)
                    &&& final(self).equalizer_gains@ == old(self).equalizer_gains@.update(
                        place,
                        clamped_gain(gain),
                    )
                    &&& *final(self) == (App {
                        equalizer_gains: final(self).equalizer_gains,
                        ..*old(self)
                    })
                }
            }),
    {
        let place: usize = if band < 0 {
            0
        } else {
            band as usize
        };
        if place >= 10 {
            return None;
        }
        let value: i32 = if gain > 1200 {
            1200
        } else if gain < -1200 {
            -1200
        } else {
            gain
        };
        let mut gains: [i32; 10] = self.equalizer_gains;
        gains[place] = value;
        self.equalizer_gains = gains;
        Some((place, value))
    }

    /// Takes the gains of a preset. Says whether there is such a preset; the first
    /// one leaves the gains as they are.
    pub fn apply_eq_preset(&mut self, index: i32) -> (applied: bool)
        ensures
            applied == (0 < index < 8),
            *final(self) == (if applied {
                App { equalizer_gains: EQ_PRESETS@[index as int], ..*old(self) }
            } else {
                *old(self)
            }),
    {
        if index <= 0 || index >= 8 {
            return false;
        }
        let presets: [[i32; 10]; 8] = EQ_PRESETS;
        self.equalizer_gains = presets[index as usize];
        true
    }

    /// Makes the equaliser flat.
    pub fn reset_equalizer(&mut self)
        ensures
            forall|i: int| 0 <= i < 10 ==> final(self).equalizer_gains@[i] == 0,
            *final(self) == (App { equalizer_gains: final(self).equalizer_gains, ..*old(self) }),
    {
        self.equalizer_gains = [0, 0, 0, 0, 0, 0, 0, 0, 0, 0];
    }
}

// ---- Laws ------------------------------------------------------------------

/// A frequency of whole thousands is shown in thousands, and one below a thousand as
/// it is.
pub proof fn law_frequencies_are_short(thousands: u32, hertz: u32)
    requires
        0 < thousands <= 4_000_000,
        hertz < 1000,
    ensures
        frequency_label((1000 * thousands) as u32) == decimal(thousands as nat) + "k"@,
        frequency_label(hertz) == decimal(hertz as nat),
{
}

} // verus!
