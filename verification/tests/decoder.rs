//! Streams, packets, pictures, sound and their filters.

use oxiplay::audio::{choose_device, render_audio, AudioQueue};
use oxiplay::decoder::audio::{
    filter_and_push, report_audio_decoder, sound_time, AudioDecoder, PushStep,
};
use oxiplay::decoder::audio_filter::{
    atempo_factors, audio_graph_is_stale, audio_graph_key, audio_source_args, build_spec,
    session_spec,
};
use oxiplay::decoder::demux::{
    begin_seek, fail_demux, known_duration, page_to_resolve, source_to_open, CommandEffect,
    DemuxState, DemuxStep, Route, SeekEffect,
};
use oxiplay::decoder::hwaccel::{choose_format, device_name, preferred_types, HwDevice, Platform};
use oxiplay::decoder::packets::{
    bitmap_rect_to_subtitle, decode_subtitle, subtitle_times, SubtitleRect,
};
use oxiplay::decoder::streams::{
    build_media_info, channel_label, discover_streams, fmt_bitrate, AudioSummary, ChapterEntry,
    Medium, Selection, StreamInfo, VideoSummary,
};
use oxiplay::decoder::video::{
    check_size, composite_bitmap_subtitles, conversion_for, convert_frame, drain_frames,
    enhance_spec, filter_spec, report_video_decoder, scaler_is_stale, session_filter_spec,
    still_wanted, video_graph_is_stale, video_source_args, ColorSpace, DecoderMessage, DecoderStep,
    PictureError, PicturePath, ScalerKey, VideoGraphKey,
};
use oxiplay::decoder::{run_video_decoder, ts_to_us, DemuxCommand, Rational};
use oxiplay::player::state::SharedState;
use oxiplay::subtitles::BitmapSubtitle;

fn product(factors: &[f64]) -> f64 {
    factors.iter().product()
}

fn factors_of(speed: f64) -> Vec<f64> {
    atempo_factors((speed * 1000.0).round() as u32)
        .iter()
        .map(|f| *f as f64 / 1_000_000.0)
        .collect()
}

#[test]
fn atempo_identity_speed() {
    assert!(factors_of(1.0).is_empty());
}

#[test]
fn atempo_factors_in_range_and_correct() {
    for &speed in &[0.25, 0.3, 0.5, 0.75, 1.25, 1.5, 2.0, 3.0, 4.0] {
        let factors = factors_of(speed);
        assert!(!factors.is_empty(), "{speed}");
        for &f in &factors {
            assert!((0.5..=2.0).contains(&f), "{f} {speed}");
        }
        assert!(
            (product(&factors) - speed).abs() < 1e-6,
            "{} {speed}",
            product(&factors)
        );
    }
}

#[test]
fn spec_includes_only_active_bands() {
    let mut gains = [0i32; 10];
    gains[0] = 600;
    gains[9] = -300;
    let spec = build_spec(1000, &gains, 48_000);
    assert!(spec.contains("equalizer=f=31"));
    assert!(spec.contains("equalizer=f=16000"));
    assert_eq!(spec.matches("equalizer=").count(), 2);
    assert!(!spec.contains("atempo"));
    assert!(spec.contains("sample_rates=48000"));
}

#[test]
fn spec_includes_atempo_for_speed() {
    let spec = build_spec(2000, &[0; 10], 44_100);
    assert!(spec.contains("atempo=2"));
    assert_eq!(spec.matches("equalizer=").count(), 0);
}

#[test]
fn audio_graphs_are_written_exactly() {
    let mut gains = [0i32; 10];
    gains[1] = -50;
    gains[2] = 5;
    gains[3] = 6;
    assert_eq!(
        build_spec(250, &gains, 48_000),
        "equalizer=f=62:width_type=o:width=1:g=-0.50,equalizer=f=250:width_type=o:width=1:g=0.06,\
         atempo=0.500000,atempo=0.500000,\
         aformat=sample_fmts=flt:channel_layouts=stereo:sample_rates=48000"
    );
    let mut s = SharedState::new(0);
    s.set_normalize(true);
    s.set_speed(3000, 0);
    assert_eq!(
        session_spec(&s, 44_100),
        "dynaudnorm,atempo=2.000000,atempo=1.500000,\
         aformat=sample_fmts=flt:channel_layouts=stereo:sample_rates=44100"
    );
    assert_eq!(
        audio_source_args(Rational { num: 0, den: 44100 }, 44100, "fltp", "stereo"),
        "time_base=1/44100:sample_rate=44100:sample_fmt=fltp:channel_layout=stereo"
    );
}

#[test]
fn audio_graphs_are_rebuilt_when_something_changes() {
    let key = audio_graph_key(8, 2, 44100, 100, 3).unwrap();
    assert_eq!(key.speed_milli, 250);
    assert!(audio_graph_key(8, 0, 44100, 1000, 3).is_none());
    assert!(audio_graph_is_stale(None, key));
    assert!(!audio_graph_is_stale(Some(key), key));
    let other = audio_graph_key(8, 2, 44100, 100, 4).unwrap();
    assert!(audio_graph_is_stale(Some(key), other));
}

#[test]
fn preferred_types_non_empty_on_desktop() {
    for platform in [Platform::Linux, Platform::Windows, Platform::MacOs] {
        assert!(!preferred_types(platform).is_empty());
    }
    assert!(preferred_types(Platform::Other).is_empty());
}

#[test]
fn type_names_are_known() {
    assert_eq!(device_name(HwDevice::Vaapi), "VAAPI");
    assert_eq!(device_name(HwDevice::VideoToolbox), "VideoToolbox");
}

#[test]
fn the_hardware_format_is_preferred() {
    assert_eq!(choose_format(44, &[1, 44, 2], -1), 44);
    assert_eq!(choose_format(44, &[1, 2], -1), 1);
    assert_eq!(choose_format(44, &[], -1), -1);
    assert_eq!(preferred_types(Platform::Linux)[0], HwDevice::Vaapi);
}

#[test]
fn ts_conversion() {
    assert_eq!(ts_to_us(1500, Rational { num: 1, den: 1000 }), 1_500_000);
    assert_eq!(ts_to_us(90000, Rational { num: 1, den: 90000 }), 1_000_000);
    assert_eq!(ts_to_us(42, Rational { num: 1, den: 0 }), 0);
}

#[test]
fn times_are_rounded_toward_zero() {
    assert_eq!(ts_to_us(-1, Rational { num: 1, den: 3 }), -333_333);
    assert_eq!(ts_to_us(2, Rational { num: 1, den: 3 }), 666_666);
}

#[test]
fn picture_filters_are_composed() {
    assert_eq!(filter_spec(0, 0, 1000, 1000, true, false), None);
    assert_eq!(
        filter_spec(1, 0, 1000, 1000, true, false).as_deref(),
        Some("yadif=mode=0:parity=-1:deint=1,transpose=1")
    );
    assert_eq!(
        filter_spec(2, -500, 1250, 0, false, true).as_deref(),
        Some("transpose=1,transpose=1,eq=brightness=-0.500:contrast=1.250:saturation=0.000")
    );
    assert_eq!(filter_spec(3, 0, 1000, 1000, false, false).as_deref(), Some("transpose=2"));
    assert_eq!(enhance_spec(1000, 0, 0), None);
    assert_eq!(
        enhance_spec(1200, 1500, 250).as_deref(),
        Some("eq=gamma=1.200,hqdn3d=luma_spatial=0.250,unsharp=luma_amount=1.500")
    );
}

#[test]
fn pictures_take_the_path_that_they_need() {
    let mut s = SharedState::new(0);
    assert!(matches!(drain_frames(&s, true, false, true, true), PicturePath::Lost));
    assert!(matches!(drain_frames(&s, true, true, true, false), PicturePath::Direct));
    s.rotation = 3;
    s.gamma_milli = 900;
    assert_eq!(
        session_filter_spec(&s, false, false).as_deref(),
        Some("transpose=2,eq=gamma=0.900")
    );
    match drain_frames(&s, false, false, false, false) {
        PicturePath::Filtered(spec) => assert_eq!(spec, "transpose=2,eq=gamma=0.900"),
        _ => unreachable!(),
    }
}

#[test]
fn video_graphs_are_rebuilt_when_something_changes() {
    let key = Some(VideoGraphKey { spec: "a".to_string(), format: 1, width: 2, height: 3 });
    assert!(!video_graph_is_stale(&key, "a", 1, 2, 3));
    assert!(video_graph_is_stale(&key, "b", 1, 2, 3));
    assert!(video_graph_is_stale(&None, "a", 1, 2, 3));
    let scaler = ScalerKey { format: 1, width: 2, height: 3 };
    assert!(!scaler_is_stale(Some(scaler), scaler));
    assert!(scaler_is_stale(Some(ScalerKey { format: 2, ..scaler }), scaler));
    assert_eq!(
        video_source_args(
            720,
            576,
            "yuv420p",
            Rational { num: 1, den: 25 },
            Rational { num: 0, den: 1 }
        ),
        "video_size=720x576:pix_fmt=yuv420p:time_base=1/25:pixel_aspect=1/1"
    );
    assert_eq!(conversion_for(ColorSpace::Unknown, 576), ColorSpace::Bt601);
    assert_eq!(conversion_for(ColorSpace::Unknown, 577), ColorSpace::Bt709);
    assert_eq!(conversion_for(ColorSpace::Bt2020, 100), ColorSpace::Bt2020);
}

#[test]
fn decoders_drop_stale_packets() {
    let stale = DecoderMessage::Packet { generation: 1 };
    assert_eq!(run_video_decoder(true, 2, stale), DecoderStep::Skip);
    assert_eq!(
        run_video_decoder(true, 2, DecoderMessage::Packet { generation: 2 }),
        DecoderStep::Decode
    );
    assert_eq!(run_video_decoder(false, 2, DecoderMessage::Flush), DecoderStep::Skip);
    assert_eq!(run_video_decoder(true, 2, DecoderMessage::Flush), DecoderStep::Flush);
    assert_eq!(run_video_decoder(true, 2, DecoderMessage::Eof), DecoderStep::Drain);
    assert_eq!(run_video_decoder(false, 2, DecoderMessage::Eof), DecoderStep::Finish);
    assert_eq!(
        run_video_decoder(false, 2, DecoderMessage::Reconfigure { opened: true }),
        DecoderStep::Adopt
    );
    assert_eq!(
        run_video_decoder(true, 2, DecoderMessage::Reconfigure { opened: false }),
        DecoderStep::Report
    );
}

#[test]
fn the_audio_decoder_reports_its_end() {
    let mut shared = SharedState::new(0);
    let mut d = AudioDecoder::new();
    assert_eq!(
        d.run_audio_decoder(0, DecoderMessage::Reconfigure { opened: true }),
        DecoderStep::Adopt
    );
    assert_eq!(d.run_audio_decoder(0, DecoderMessage::Eof), DecoderStep::Drain);
    d.idle(&mut shared, false);
    assert!(!shared.audio_done);
    d.idle(&mut shared, true);
    assert!(shared.audio_done);
    d.run_audio_decoder(0, DecoderMessage::Flush);
    assert!(!d.eof);
    report_audio_decoder(&mut shared, "x");
    assert_eq!(shared.error.as_deref(), Some("décodeur audio indisponible : x"));
    report_video_decoder(&mut shared, "y");
    assert_eq!(shared.error.as_deref(), Some("décodeur vidéo indisponible : y"));
}

#[test]
fn sound_waits_for_room() {
    let mut s = SharedState::new(0);
    assert_eq!(filter_and_push(&s, 0, 8, false), PushStep::Wait);
    assert_eq!(filter_and_push(&s, 0, 8, true), PushStep::Push);
    assert_eq!(filter_and_push(&s, 0, 0, true), PushStep::Discard);
    assert_eq!(filter_and_push(&s, 1, 8, true), PushStep::Discard);
    assert!(still_wanted(&s, 0));
    s.stop = true;
    assert_eq!(filter_and_push(&s, 0, 8, true), PushStep::Discard);
    assert!(!still_wanted(&s, 0));
    let base = Rational { num: 1, den: 1000 };
    assert_eq!(sound_time(None, Some(2), base), 2000);
    assert_eq!(sound_time(None, None, base), -1);
}

#[test]
fn pictures_become_compact() {
    let mut last = 100;
    let base = Rational { num: 1, den: 1000 };
    let data = [1, 2, 3, 4, 9, 9, 5, 6, 7, 8];
    let frame = convert_frame(1, 2, &data, 6, None, None, base, &mut last).unwrap();
    assert_eq!(frame.pixels, vec![1, 2, 3, 4, 5, 6, 7, 8]);
    assert_eq!(frame.pts_us, 33_433);
    assert_eq!(last, 33_433);
    let frame = convert_frame(1, 2, &data, 6, Some(7), Some(8), base, &mut last).unwrap();
    assert_eq!(frame.pts_us, 7000);
    assert_eq!(check_size(0, 5), Err(PictureError::Empty));
    assert_eq!(check_size(16_385, 5), Err(PictureError::TooLarge));
    assert_eq!(check_size(16_384, 16_384), Ok(()));
    assert_eq!(
        convert_frame(0, 2, &data, 6, None, None, base, &mut last).unwrap_err(),
        PictureError::Empty
    );
}

#[test]
fn image_subtitles_are_drawn_into_pictures() {
    let mut s = SharedState::new(0);
    s.subtitle_delay_us = 1000;
    s.bitmap_subtitles.insert(BitmapSubtitle {
        start_us: 6000,
        end_us: 7000,
        x: 0,
        y: 0,
        width: 1,
        height: 1,
        rgba: vec![1, 2, 3, 255],
    });
    let mut last = 0;
    let base = Rational { num: 1, den: 1000 };
    let mut frame = convert_frame(1, 1, &[0; 4], 4, Some(7), None, base, &mut last).unwrap();
    composite_bitmap_subtitles(&s, &mut frame);
    assert_eq!(frame.pixels, vec![1, 2, 3, 255]);
}

fn stream(index: usize, medium: Medium) -> StreamInfo {
    StreamInfo {
        index,
        medium,
        language: Some("fre".to_string()),
        title: None,
        codec: "x".to_string(),
        attached_picture: false,
        frame_rate: Rational { num: 25, den: 1 },
    }
}

#[test]
fn streams_are_discovered() {
    let mut shared = SharedState::new(0);
    let streams = vec![
        stream(0, Medium::Video),
        stream(1, Medium::Audio),
        stream(2, Medium::Subtitle),
    ];
    let chapters = vec![
        ChapterEntry { start: 2, time_base: Rational { num: 1, den: 1 }, title: None },
        ChapterEntry {
            start: 5,
            time_base: Rational { num: 1, den: 1 },
            title: Some("Fin".to_string()),
        },
    ];
    let r = discover_streams(
        &mut shared,
        &streams,
        &chapters,
        Some(0),
        Some(1),
        true,
        "info".to_string(),
    );
    assert_eq!(r.video, Some(0));
    assert_eq!(r.audio, Some(1));
    assert!(shared.has_video && shared.has_audio);
    assert_eq!(shared.audio_tracks[0].stream_index, 1);
    assert_eq!(shared.subtitle_tracks[0].language.as_deref(), Some("fre"));
    assert_eq!(shared.frame_duration_us, 40_000);
    assert_eq!(shared.chapters[0].title, "Chapitre 1");
    assert_eq!(shared.chapters[1].start_us, 5_000_000);
    assert_eq!(shared.media_info, "info");
}

#[test]
fn covers_are_no_films() {
    let mut shared = SharedState::new(0);
    let mut cover = stream(0, Medium::Video);
    cover.attached_picture = true;
    let streams = vec![cover, stream(1, Medium::Audio)];
    let r = discover_streams(
        &mut shared,
        &streams,
        &Vec::new(),
        Some(0),
        Some(1),
        false,
        String::new(),
    );
    assert_eq!(r.video, None);
    assert_eq!(r.audio, None);
    assert!(!shared.has_video && !shared.has_audio);
}

#[test]
fn media_are_summarised() {
    assert_eq!(fmt_bitrate(0, "0.0"), "débit inconnu");
    assert_eq!(fmt_bitrate(999_999, "1.0"), "999 kb/s");
    assert_eq!(fmt_bitrate(1_500_000, "1.5"), "1.5 Mb/s");
    assert_eq!(channel_label(1), "mono");
    assert_eq!(channel_label(6), "5.1");
    assert_eq!(channel_label(3), "3 canaux");
    let video = Some(VideoSummary {
        codec: "hevc".to_string(),
        width: 1920,
        height: 1080,
        frame_rate: Some("25.00".to_string()),
        bit_rate: 5_000_000,
        megabits: "5.0".to_string(),
        hdr: true,
    });
    let audio = Some(AudioSummary {
        codec: "aac".to_string(),
        channels: 2,
        sample_rate: 48000,
        bit_rate: 128_000,
        megabits: "0.1".to_string(),
    });
    assert_eq!(
        build_media_info("Matroska", &video, &audio, 61_000_000),
        "Conteneur : Matroska\nVidéo : hevc, 1920×1080, 25.00 i/s, 5.0 Mb/s\n\
         Dynamique : HDR (PQ/HLG)\nAudio : aac, stéréo, 48000 Hz, 128 kb/s\nDurée : 1:01"
    );
    assert_eq!(build_media_info("Ogg", &None, &None, 0), "Conteneur : Ogg");
}

#[test]
fn embedded_subtitles_become_cues() {
    let base = Rational { num: 1, den: 1000 };
    assert_eq!(subtitle_times(Some(1000), 500, base), Some((1_000_000, 1_500_000)));
    assert_eq!(subtitle_times(Some(1000), 0, base), Some((1_000_000, 4_000_000)));
    assert_eq!(subtitle_times(None, 500, base), None);
    assert_eq!(subtitle_times(Some(-1), 500, base), None);
    let rects = vec![
        SubtitleRect::Text(" A ".to_string()),
        SubtitleRect::Image,
        SubtitleRect::Ass("1,0,D,,0,0,0,,{\\i1}B".to_string()),
    ];
    let cue = decode_subtitle(&rects, 1, 2).unwrap();
    assert_eq!(cue.text, "A \nB");
    assert!(cue.style.italic);
    assert!(decode_subtitle(&vec![SubtitleRect::Image], 1, 2).is_none());
}

#[test]
fn palettes_become_colours() {
    let sub = bitmap_rect_to_subtitle(
        3,
        4,
        2,
        1,
        &[1, 7],
        2,
        &[0, 0x80ff_0102],
        10,
        20,
    )
    .unwrap();
    assert_eq!(sub.rgba, vec![255, 1, 2, 128, 0, 0, 0, 0]);
    assert_eq!((sub.x, sub.y, sub.start_us, sub.end_us), (3, 4, 10, 20));
    assert!(bitmap_rect_to_subtitle(0, 0, 0, 1, &[], 1, &[1], 0, 1).is_none());
    assert!(bitmap_rect_to_subtitle(0, 0, 1, 1, &[0], 1, &[], 0, 1).is_none());
}

#[test]
fn the_demuxer_takes_its_steps() {
    let mut shared = SharedState::new(0);
    shared.duration_us = 9_000_000;
    let mut st = DemuxState::new(Selection { video: Some(0), audio: Some(1) }, Some(5));
    assert_eq!(st.next_step(false), DemuxStep::Seek(5));
    assert_eq!(st.next_step(false), DemuxStep::ReadPacket);
    assert_eq!(st.route_packet(0), Route::Video);
    assert_eq!(st.route_packet(1), Route::Audio);
    assert_eq!(st.route_packet(2), Route::Nowhere);
    st.handle_command(&mut shared, DemuxCommand::Seek(1));
    st.handle_command(&mut shared, DemuxCommand::Seek(20_000_000));
    assert_eq!(st.next_step(false), DemuxStep::Seek(20_000_000));
    assert_eq!(begin_seek(&mut shared, 20_000_000), 9_000_000);
    assert_eq!(shared.generation, 1);
    st.reached_end(&mut shared);
    assert!(shared.demux_eof);
    assert_eq!(st.next_step(false), DemuxStep::AwaitCommand);
    assert_eq!(
        st.finish_seek(&mut shared, 9_000_000, true, 0),
        SeekEffect { flush: true, video: Some(0), audio: Some(1) }
    );
    assert!(!shared.demux_eof);
    assert_eq!(shared.clock.now_us(0), 9_000_000);
    assert_eq!(
        st.finish_seek(&mut shared, 1, false, 0),
        SeekEffect { flush: false, video: None, audio: None }
    );
    assert_eq!(st.next_step(true), DemuxStep::Stop);
}

#[test]
fn tracks_are_switched() {
    let mut shared = SharedState::new(0);
    let mut st = DemuxState::new(Selection { video: None, audio: Some(1) }, None);
    assert_eq!(
        st.handle_command(&mut shared, DemuxCommand::SelectAudioTrack(1)),
        CommandEffect::Nothing
    );
    assert_eq!(
        st.handle_command(&mut shared, DemuxCommand::SelectAudioTrack(2)),
        CommandEffect::SwitchAudio(2)
    );
    assert_eq!(
        st.handle_command(&mut shared, DemuxCommand::SelectSubtitleTrack(Some(3))),
        CommandEffect::OpenSubtitles(3)
    );
    st.subtitles_opened(true);
    assert_eq!(st.route_packet(3), Route::Subtitle);
    assert!(!st.apply_track_command_inline(DemuxCommand::SelectAudioTrack(5), 77));
    assert_eq!(st.next_step(false), DemuxStep::Seek(77));
    assert!(!st.apply_track_command_inline(DemuxCommand::SelectSubtitleTrack(Some(4)), 0));
    assert!(!st.subtitle_decoder);
    assert_eq!(st.next_step(false), DemuxStep::SelectSubtitles(Some(4)));
    assert!(st.apply_track_command_inline(DemuxCommand::Seek(8), 0));
    assert_eq!(st.next_step(false), DemuxStep::Seek(8));
}

#[test]
fn pages_are_resolved_before_they_are_opened() {
    assert_eq!(
        page_to_resolve("https://vimeo.com/1", false).as_deref(),
        Some("https://vimeo.com/1")
    );
    assert_eq!(page_to_resolve("/a.mkv", false), None);
    let (source, options) = source_to_open("https://vimeo.com/1", false, Some("rtsp://x/y"));
    assert_eq!(source, "rtsp://x/y");
    assert_eq!(options.get("rtsp_transport"), Some("tcp"));
    let (source, options) = source_to_open("/disc.iso", false, Some("rtsp://x/y"));
    assert_eq!(source, "bluray:/disc.iso");
    assert_eq!(options.len(), 0);
    assert_eq!(known_duration(-5), 0);
    assert_eq!(known_duration(5), 5);
}

#[test]
fn a_medium_that_cannot_be_read_ends_the_session() {
    let mut shared = SharedState::new(0);
    fail_demux(&mut shared, "introuvable");
    assert_eq!(shared.error.as_deref(), Some("erreur de lecture : introuvable"));
    assert!(shared.playback_finished());
}

#[test]
fn the_queue_follows_the_sound() {
    let mut q: AudioQueue<i16> = AudioQueue::new(2);
    assert!(q.is_empty() && q.has_room());
    q.push(-1, &[]);
    q.push(1000, &[1, 2, 3]);
    assert!(q.has_room());
    q.push(9000, &[4, 5]);
    assert!(!q.has_room());
    assert_eq!(q.take_frames(10), vec![(1, 2), (3, 4)]);
    assert_eq!(q.advance(2, 2000, 4), 1000 + 1_000_000);
    q.clear();
    assert!(q.is_empty());
}

#[test]
fn devices_are_found_by_name() {
    let names = vec!["HDMI".to_string(), "Casque".to_string()];
    assert_eq!(choose_device(&names, Some("Casque")), Some(1));
    assert_eq!(choose_device(&names, Some("autre")), None);
    assert_eq!(choose_device(&names, None), None);
}

#[test]
fn a_seek_leaves_nothing_from_before() {
    let mut shared = SharedState::new(0);
    let before = shared.generation;
    assert_eq!(begin_seek(&mut shared, 5_000_000), 5_000_000);
    assert!(!still_wanted(&shared, before));
    assert!(still_wanted(&shared, shared.generation));
}

#[test]
fn the_sound_leads_the_clock() {
    let mut q: AudioQueue<i16> = AudioQueue::new(48_000);
    q.push(2_000_000, &[1, 2, 3, 4]);
    let mut shared = SharedState::new(0);
    assert!(shared.clock.is_paused());
    assert_eq!(render_audio(&mut q, &mut shared, 8, 48_000, 0), vec![]);
    shared.clock.set_paused(false, 0);
    shared.audio_delay_us = 500_000;
    assert_eq!(render_audio(&mut q, &mut shared, 1, 2, 0), vec![(1, 2)]);
    assert_eq!(shared.clock.now_us(0), 2_000_000 + 500_000 + 500_000);
    assert_eq!(render_audio(&mut q, &mut shared, 8, 48_000, 0), vec![(3, 4)]);
    assert_eq!(shared.clock.now_us(0), 3_000_000);
    assert!(q.is_empty());
    shared.stop = true;
    q.push(9_000_000, &[5, 6]);
    assert_eq!(render_audio(&mut q, &mut shared, 8, 48_000, 0), vec![]);
}
