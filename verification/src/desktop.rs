//! What the desktop is told: the state of playback, and to stay awake.

use vstd::prelude::*;

verus! {

/// The state of playback as the desktop shows it.
#[derive(Debug, Clone, Copy, PartialEq, Eq, Structural)]
pub enum PlaybackStatus {
    Stopped,
    Playing,
    Paused,
}

/// The state of playback as the desktop shows it.
pub fn playback_status(playing: bool, stopped: bool) -> (r: PlaybackStatus)
    ensures
        r == (if stopped {
            PlaybackStatus::Stopped
        } else if playing {
            PlaybackStatus::Playing
        } else {
            PlaybackStatus::Paused
        }),
{
    if stopped {
        PlaybackStatus::Stopped
    } else if playing {
        PlaybackStatus::Playing
    } else {
        PlaybackStatus::Paused
    }
}

/// The length of the medium as the desktop shows it, where it is known.
pub fn published_duration(duration_us: i64) -> (r: Option<u64>)
    ensures
        r == (if duration_us > 0 {
            Some(duration_us as u64)
        } else {
            None
        }),
{
    if duration_us > 0 {
        Some(duration_us as u64)
    } else {
        None
    }
}

/// What to do so that the desktop stays awake, or no longer.
#[derive(Debug, Clone, Copy, PartialEq, Eq, Structural)]
pub enum InhibitAction {
    Keep,
    Acquire,
    Release,
}

/// What to do where the desktop has to stay awake (`active`) and is kept awake
/// already (`held`).
pub open spec fn inhibit_step(held: bool, active: bool) -> InhibitAction {
    if active == held {
        InhibitAction::Keep
    } else if active {
        InhibitAction::Acquire
    } else {
        InhibitAction::Release
    }
}

/// What to do where the desktop has to stay awake and is kept awake already.
pub fn inhibit_action(held: bool, active: bool) -> (r: InhibitAction)
    ensures
        r == inhibit_step(held, active),
{
    if active == held {
        InhibitAction::Keep
    } else if active {
        InhibitAction::Acquire
    } else {
        InhibitAction::Release
    }
}

/// Asking twice for the same does nothing more.
pub proof fn law_inhibiting_twice_is_inhibiting_once(active: bool)
    ensures
        inhibit_step(active, active) == InhibitAction::Keep,
{
}

/// The arguments of `systemd-inhibit`, whose child keeps the desktop awake as long
/// as it lives.
pub fn inhibit_arguments() -> (r: Vec<&'static str>)
    ensures
        r@.len() == 6,
        r@[0]@ == "--what=idle:sleep"@,
        r@[1]@ == "--who=OxiPlay"@,
        r@[2]@ == "--why=Lecture vidéo en cours"@,
        r@[3]@ == "--mode=block"@,
        r@[4]@ == "sleep"@,
        r@[5]@ == "2147483647"@,
{
    let mut out: Vec<&'static str> = Vec::new();
    out.push("--what=idle:sleep");
    out.push("--who=OxiPlay");
    out.push("--why=Lecture vidéo en cours");
    out.push("--mode=block");
    out.push("sleep");
    out.push("2147483647");
    out
}

// ---- Laws ------------------------------------------------------------------

/// After it was told, the desktop is kept awake exactly where it has to be.
pub proof fn law_desktop_is_kept_awake_as_asked(held: bool, active: bool)
    ensures
        (match inhibit_step(held, active) {
            InhibitAction::Keep => held,
            InhibitAction::Acquire => true,
            InhibitAction::Release => false,
        }) == active,
        inhibit_step(held, active) == InhibitAction::Acquire ==> !held,
        inhibit_step(held, active) == InhibitAction::Release ==> held,
{
}

} // verus!
