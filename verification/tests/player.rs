//! The clock, the state of a session, its controls and its pictures.

use oxiplay::decoder::{DemuxCommand, VideoFrameMsg};
use oxiplay::player::clock::PlaybackClock;
use oxiplay::player::presenter::{
    present, skip, FrameEvent, Moment, Presenter, PresenterAction, LATE_DROP_US, PAUSE_WAIT_US,
};
use oxiplay::player::state::{SharedState, TrackInfo};
use oxiplay::player::PlayerEngine;
use oxiplay::subtitles::{SubtitleCue, SubtitleTrack};
use oxiplay::video::VideoFrameData;
use std::sync::Arc;

#[test]
fn paused_clock_is_frozen() {
    let mut clock = PlaybackClock::new(0);
    clock.set_position(1_000_000, 0);
    let a = clock.now_us(0);
    assert_eq!(a, clock.now_us(20_000));
}

#[test]
fn running_clock_advances_with_speed() {
    let mut clock = PlaybackClock::new(0);
    clock.set_position(0, 0);
    clock.set_speed(2000, 0);
    clock.set_paused(false, 0);
    let elapsed = clock.now_us(50_000);
    assert!(elapsed > 60_000 && elapsed < 400_000, "elapsed = {elapsed}");
    assert_eq!(elapsed, 100_000);
}

#[test]
fn sync_ignores_small_drift() {
    let mut clock = PlaybackClock::new(0);
    clock.set_position(1_000_000, 0);
    clock.sync_to(1_010_000, 0);
    assert_eq!(clock.now_us(0), 1_000_000);
    clock.sync_to(2_000_000, 0);
    assert!((clock.now_us(0) - 2_000_000).abs() < 50_000);
}

#[test]
fn speed_is_clamped() {
    let mut clock = PlaybackClock::new(0);
    clock.set_speed(10_000, 0);
    assert_eq!(clock.speed(), 4000);
    clock.set_speed(0, 0);
    assert_eq!(clock.speed(), 250);
}

#[test]
fn the_first_sound_sets_the_clock() {
    let mut clock = PlaybackClock::new(0);
    assert!(!clock.started() && clock.is_paused());
    clock.sync_to(10_000, 0);
    assert!(clock.started());
    assert_eq!(clock.now_us(0), 10_000);
    clock.sync_to(40_000, 0);
    assert_eq!(clock.now_us(0), 10_000);
    clock.sync_to(40_001, 0);
    assert_eq!(clock.now_us(0), 40_001);
}

#[test]
fn pausing_and_changing_speed_keep_the_position() {
    let mut clock = PlaybackClock::new(100);
    clock.set_position(0, 100);
    clock.set_paused(false, 100);
    clock.set_speed(500, 1_000_100);
    assert_eq!(clock.now_us(1_000_100), 1_000_000);
    assert_eq!(clock.now_us(2_000_100), 1_500_000);
    clock.set_paused(true, 2_000_100);
    assert_eq!(clock.now_us(9_000_000), 1_500_000);
}

fn at_time(now_us: i64, generation: u64, paused: bool) -> Moment {
    Moment { generation, paused, now_us, speed_milli: 1000 }
}

#[test]
fn pictures_are_shown_in_their_time() {
    let mut p = Presenter::new(0);
    assert_eq!(p.decide(false, at_time(0, 0, false)), PresenterAction::Receive);
    let first = FrameEvent::Frame { pts_us: 0, generation: 0 };
    assert_eq!(p.receive(first), PresenterAction::Receive);
    assert_eq!(p.decide(false, at_time(0, 0, false)), PresenterAction::Present);
    p.receive(FrameEvent::Frame { pts_us: 10_000, generation: 0 });
    assert_eq!(p.decide(false, at_time(0, 0, false)), PresenterAction::Wait(10_000));
    assert_eq!(p.decide(false, at_time(-90_000, 0, false)), PresenterAction::Wait(20_000));
    assert_eq!(p.decide(false, at_time(7_900, 0, false)), PresenterAction::Wait(2_100));
    assert_eq!(p.decide(false, at_time(8_000, 0, false)), PresenterAction::Present);
    p.receive(FrameEvent::Frame { pts_us: 0, generation: 0 });
    let late = at_time(LATE_DROP_US + 1, 0, false);
    assert_eq!(p.decide(false, late), PresenterAction::Skip);
    assert_eq!(p.receive(FrameEvent::Eof), PresenterAction::Finished);
    assert_eq!(p.receive(FrameEvent::Timeout), PresenterAction::Receive);
    assert_eq!(p.receive(FrameEvent::Disconnected), PresenterAction::Stop);
    assert_eq!(p.decide(true, late), PresenterAction::Stop);
}

#[test]
fn a_seek_while_paused_shows_one_picture() {
    let mut p = Presenter::new(0);
    p.receive(FrameEvent::Frame { pts_us: 5, generation: 0 });
    assert_eq!(p.decide(false, at_time(0, 1, true)), PresenterAction::Drop);
    p.receive(FrameEvent::Frame { pts_us: 9_000_000, generation: 1 });
    assert_eq!(p.decide(false, at_time(0, 1, true)), PresenterAction::Present);
    p.receive(FrameEvent::Frame { pts_us: 9_040_000, generation: 1 });
    assert_eq!(p.decide(false, at_time(0, 1, true)), PresenterAction::Wait(PAUSE_WAIT_US));
}

#[test]
fn presented_pictures_are_counted() {
    let mut s = SharedState::new(0);
    present(&mut s, 700, 0);
    assert_eq!(s.frames_presented, 1);
    assert_eq!(s.last_av_delta_us, 700);
    assert_eq!(s.clock.now_us(0), 700);
    present(&mut s, 900, 0);
    assert_eq!(s.last_av_delta_us, 200);
    assert_eq!(s.clock.now_us(0), 700);
    skip(&mut s);
    assert_eq!((s.frames_presented, s.frames_dropped), (2, 1));
}

#[test]
fn subtitles_from_a_file_come_first() {
    let mut s = SharedState::new(0);
    s.embedded_subtitles.insert(SubtitleCue::plain(0, 100, "own".into()));
    assert_eq!(s.subtitle_at(50).as_deref(), Some("own"));
    s.subtitle_delay_us = 100;
    assert_eq!(s.subtitle_at(50), None);
    assert_eq!(s.subtitle_at(150).as_deref(), Some("own"));
    let mut cue = SubtitleCue::plain(0, 10, "file".into());
    cue.style.italic = true;
    s.external_subtitles = Some(SubtitleTrack::new(vec![cue]));
    assert_eq!(s.subtitle_at(105).as_deref(), Some("file"));
    assert!(s.subtitle_style_at(105).italic);
    assert_eq!(s.subtitle_at(150), None);
}

#[test]
fn playback_is_finished_when_all_is_played() {
    let mut s = SharedState::new(0);
    s.has_audio = true;
    s.demux_eof = true;
    assert!(!s.playback_finished());
    s.audio_done = true;
    assert!(s.playback_finished());
    s.has_video = true;
    assert!(!s.playback_finished());
}

#[test]
fn gains_and_volumes_stay_in_their_range() {
    let mut s = SharedState::new(0);
    assert_eq!(s.effective_volume(), 800);
    s.muted = true;
    assert_eq!(s.effective_volume(), 0);
    s.set_equalizer_band(2, 5000);
    s.set_equalizer_band(3, -5000);
    s.set_equalizer_band(10, 1);
    assert_eq!(s.equalizer_gains()[2], 1200);
    assert_eq!(s.equalizer_gains()[3], -1200);
    assert_eq!(s.eq_generation, 2);
    s.set_normalize(true);
    assert!(s.normalize_enabled());
    assert_eq!(s.eq_generation, 3);
    s.set_error("raté".to_string());
    assert_eq!(s.error.as_deref(), Some("raté"));
    assert!(!s.should_stop());
    assert_eq!(s.current_generation(), 0);
}

#[test]
fn tracks_are_labelled() {
    let mut t = TrackInfo {
        stream_index: 3,
        language: None,
        title: None,
        codec: "aac".to_string(),
    };
    assert_eq!(t.label(0), "Piste 1 (aac)");
    t.language = Some("fre".to_string());
    t.title = Some("VF".to_string());
    assert_eq!(t.label(1), "Piste 2 [fre] — VF (aac)");
}

#[test]
fn a_session_is_controlled() {
    let (mut e, config) = PlayerEngine::open("/film.mkv", true, Some(5), 0);
    assert_eq!(config.source, "/film.mkv");
    assert_eq!(config.start_at_us, Some(5));
    assert!(config.audio_enabled);
    assert!(!e.is_paused());
    assert_eq!(e.position_us(1_000_000), 1_000_000);
    e.toggle_pause(1_000_000);
    assert_eq!(e.position_us(9_000_000), 1_000_000);
    assert_eq!(e.seek(-5), DemuxCommand::Seek(0));
    assert_eq!(e.seek_relative(-10_000_000, 0), DemuxCommand::Seek(0));
    assert_eq!(e.seek_relative(10_000_000, 0), DemuxCommand::Seek(11_000_000));
    assert_eq!(e.redraw(0), Some(DemuxCommand::Seek(1_000_000)));
    assert_eq!(e.step_frame(true, 0), DemuxCommand::Seek(1_041_666));
    e.shared.frame_duration_us = 40_000;
    assert_eq!(e.step_frame(false, 0), DemuxCommand::Seek(960_000));
    e.set_volume(9000);
    assert_eq!(e.shared.volume_milli, 1250);
    e.set_speed(9000, 0);
    assert_eq!(e.shared.speed(), 4000);
    e.set_muted(true);
    e.set_subtitle_delay(-7);
    e.set_audio_delay(8);
    assert!(e.shared.muted);
    assert_eq!((e.shared.subtitle_delay_us, e.shared.audio_delay_us), (-7, 8));
    assert_eq!(e.select_audio_track(4), DemuxCommand::SelectAudioTrack(4));
    assert_eq!(e.select_subtitle_track(None), DemuxCommand::SelectSubtitleTrack(None));
    e.set_equalizer([100; 10]);
    e.set_equalizer_band(0, -50);
    assert_eq!(e.shared.equalizer_gains()[0], -50);
    assert_eq!(e.shared.equalizer_gains()[9], 100);
    assert_eq!(e.duration_us(), 0);
    e.set_paused(false, 0);
    assert_eq!(e.redraw(0), None);
    e.stop();
    assert!(e.shared.should_stop());
}

#[test]
fn pictures_come_with_their_time() {
    let frame = VideoFrameData { width: 1, height: 1, pixels: vec![0; 4], pts_us: 42, yuv: None };
    let message = VideoFrameMsg::Frame { frame: Arc::new(frame), generation: 7 };
    assert_eq!(FrameEvent::of(&message), FrameEvent::Frame { pts_us: 42, generation: 7 });
    assert_eq!(FrameEvent::of(&VideoFrameMsg::Eof), FrameEvent::Eof);
}
