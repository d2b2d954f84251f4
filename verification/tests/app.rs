//! The application.

use oxiplay::app::equalizer::{frequency_labels, EQ_PRESETS};
use oxiplay::app::filter::{logo_filename, logos_to_fetch, passes_filter, request_logos};
use oxiplay::app::groups::list_groups;
use oxiplay::app::listing::{classify_m3u, save_status, M3uFetch, UrlAction};
use oxiplay::app::session::{
    opening_status, Control, MediaEvent, SessionView, MAX_DELAY_MS, SPEEDS, SPEED_NORMAL_INDEX,
};
use oxiplay::app::sidecar::{find_sidecar_subtitle, parse_subtitle_content};
use oxiplay::app::tick::{split_color, Color};
use oxiplay::app::tracks::{attach_subtitles, downloaded_status, loaded_status};
use oxiplay::app::App;
use oxiplay::decoder::DemuxCommand;
use oxiplay::desktop::{
    inhibit_action, inhibit_arguments, playback_status, published_duration, InhibitAction,
    PlaybackStatus,
};
use oxiplay::opensubtitles::Request;
use oxiplay::player::state::{ChapterInfo, TrackInfo};
use oxiplay::player::PlayerEngine;
use oxiplay::playlist::{PlaylistItem, RepeatMode};
use oxiplay::settings::Settings;
use oxiplay::subtitles::{SubtitleCue, SubtitleTrack};
use oxiplay::update::UpdateInfo;

fn app() -> App {
    App::new(Settings::default(), 800, [0; 10], 1000, 0, 0, vec!["HDMI".to_string()])
}

fn strings(v: &[&str]) -> Vec<String> {
    v.iter().map(|s| s.to_string()).collect()
}

fn item(source: &str, title: &str, group: &str, logo: &str) -> PlaylistItem {
    PlaylistItem {
        source: source.to_string(),
        title: title.to_string(),
        group: group.to_string(),
        logo: logo.to_string(),
    }
}

#[test]
fn sidecar_priority_and_matching() {
    let files = strings(&["film.mkv", "film.srt", "film.en.srt", "film.fr.ass"]);
    let media = "/tmp/oxiplay-sidecar-test/film.mkv";
    let got = find_sidecar_subtitle(media, true, &files, "fr").unwrap();
    assert_eq!(files[got], "film.fr.ass");
    let got = find_sidecar_subtitle(media, true, &files, "de").unwrap();
    assert_eq!(files[got], "film.srt");
    assert!(find_sidecar_subtitle("https://ex.com/live.m3u8", false, &files, "fr").is_none());
}

#[test]
fn any_language_is_better_than_none() {
    let files = strings(&["other.srt", "film.EN.SRT", "film.de.srt", "film.txt"]);
    assert_eq!(find_sidecar_subtitle("/a/film.mkv", true, &files, "fr"), Some(1));
    assert_eq!(find_sidecar_subtitle("/a/film.mkv", true, &files, "en"), Some(1));
    assert_eq!(find_sidecar_subtitle("/a/else.mkv", true, &files, "en"), None);
}

#[test]
fn downloaded_subtitles_are_read_in_any_format() {
    let srt = "1\n00:00:01,000 --> 00:00:02,000\nA\n";
    assert_eq!(parse_subtitle_content(srt).unwrap().len(), 1);
    let ass = "Dialogue: 0,0:00:01.00,0:00:02.00,D,,0,0,0,,B\n";
    let track = parse_subtitle_content(ass).unwrap();
    assert_eq!(track.query(1_500_000).as_deref(), Some("B"));
    assert!(parse_subtitle_content("rien").is_none());
}

#[test]
fn sources_are_added_and_played() {
    let mut a = app();
    assert!(!a.add_sources(&vec![], false));
    assert!(a.add_sources(&strings(&["/m/a.mkv", "/m/b.mkv"]), false));
    assert_eq!(a.open_current().unwrap(), ("/m/a.mkv".to_string(), "a.mkv".to_string()));
    assert!(!a.add_sources(&strings(&["/m/c.mkv"]), true));
    assert_eq!(a.playlist.current_index(), Some(0));
    assert_eq!(a.playlist_visible, vec![0, 1, 2]);
    let rows = a.playlist_rows();
    assert_eq!(rows[0].title, "a.mkv");
    assert!(rows[0].is_current && !rows[1].is_current);
}

#[test]
fn opening_restores_what_was_left() {
    let mut a = app();
    a.add_sources(&strings(&["/m/a.mkv"]), false);
    assert_eq!(a.open_source("/m/a.mkv"), None);
    assert_eq!(a.recent_labels(), ["a.mkv"]);
    assert_eq!(a.set_speed_index(6), 2000);
    let view = SessionView { position_us: 60_000_000, duration_us: 600_000_000, paused: false };
    a.stop_current(Some(view), 1, 2);
    assert!(a.current_source.is_none());
    assert_eq!(a.set_speed_index(SPEED_NORMAL_INDEX), 1000);
    assert_eq!(a.open_source("/m/a.mkv"), Some(60_000_000));
    assert_eq!(a.speed_index, 6);
    assert_eq!(a.pending_audio_track, Some(1));
    assert_eq!(a.pending_subtitle_track, Some(2));
    a.stop_current(None, 0, 0);
    assert_eq!(a.settings.resume_position("/m/a.mkv"), Some(60_000_000));
    assert_eq!(opening_status(Some(61_000_000), "x"), "Reprise à 1:01");
    assert_eq!(opening_status(None, "x"), "Lecture : x");
}

#[test]
fn a_new_session_gets_what_the_user_has_chosen() {
    let mut a = app();
    a.set_volume(2000);
    a.toggle_mute();
    a.set_speed_index(-4);
    a.adjust_subtitle_delay(500);
    a.adjust_audio_delay(-MAX_DELAY_MS - 5);
    a.apply_eq_preset(2);
    assert_eq!(a.toggle_normalize(), "Normalisation du volume : activée");
    let (mut e, _) = PlayerEngine::open("/a", true, None, 0);
    a.apply_to(&mut e, 0);
    assert_eq!(e.shared.volume_milli, 1250);
    assert!(e.shared.muted && e.shared.normalize);
    assert_eq!(e.shared.speed_milli, SPEEDS[0]);
    assert_eq!(e.shared.subtitle_delay_us, 500_000);
    assert_eq!(e.shared.audio_delay_us, -30_000_000);
    assert_eq!(e.shared.equalizer_gains(), EQ_PRESETS[2]);
    assert_eq!(a.toggle_normalize(), "Normalisation du volume : désactivée");
}

#[test]
fn keys_control_the_session() {
    let mut a = app();
    assert_eq!(a.play_pause(true), Control::TogglePause);
    a.add_sources(&strings(&["/m/a.mkv"]), true);
    assert_eq!(a.play_pause(false), Control::OpenCurrent);
    assert_eq!(a.playlist.current_index(), Some(0));
    assert_eq!(a.apply_media_event(MediaEvent::Play, true), Control::Resume);
    assert_eq!(a.apply_media_event(MediaEvent::Play, false), Control::PlayPause);
    assert_eq!(a.apply_media_event(MediaEvent::Pause, false), Control::Nothing);
    assert_eq!(a.apply_media_event(MediaEvent::Toggle, true), Control::PlayPause);
    assert_eq!(
        a.apply_media_event(MediaEvent::SeekBackward, true),
        Control::SeekBy(-10_000_000)
    );
    assert_eq!(a.apply_media_event(MediaEvent::Other, true), Control::Nothing);
    assert_eq!(a.apply_media_event(MediaEvent::Stop, true), Control::Stop);
}

#[test]
fn zapping_goes_to_and_fro() {
    let mut a = app();
    assert_eq!(a.zap_back(), (false, Some("Aucune chaîne précédente")));
    a.add_sources(&strings(&["/a", "/b", "/c"]), false);
    assert!(a.next());
    assert!(a.next());
    assert!(!a.next());
    assert!(a.previous());
    assert_eq!(a.playlist.current_index(), Some(1));
    assert_eq!(a.zap_back(), (true, None));
    assert_eq!(a.playlist.current_index(), Some(2));
    assert_eq!(a.zap_back(), (true, None));
    assert_eq!(a.playlist.current_index(), Some(1));
    a.last_channel = Some(9);
    assert_eq!(a.zap_back(), (false, None));
    assert_eq!(a.last_channel, None);
}

#[test]
fn urls_are_judged() {
    let mut a = app();
    assert_eq!(a.open_url("  ").0, UrlAction::Ignore);
    assert_eq!(a.open_url("ftp://x").0, UrlAction::Reject);
    assert_eq!(a.open_url(" http://x/LIST.M3U "), (UrlAction::Fetch, "http://x/LIST.M3U".to_string()));
    assert_eq!(a.playlist.len(), 0);
    assert_eq!(a.open_url(" bluray:/dev/sr0 ").0, UrlAction::Play);
    assert_eq!(a.open_current().unwrap().0, "bluray:/dev/sr0");
}

#[test]
fn channels_are_loaded() {
    let text = "#EXTM3U\n#EXTINF:-1 group-title=\"News\",A\nhttp://x/a\n#EXTINF:-1,B\nhttp://x/b\n";
    let mut a = app();
    let fetched = classify_m3u("http://x/l.m3u", Ok(text.to_string()));
    assert!(matches!(fetched, M3uFetch::Channels(_)));
    assert_eq!(a.take_m3u(fetched), (true, Some("2 chaînes chargées".to_string())));
    assert_eq!(a.group_labels(), ["Toutes les catégories", "News"]);
    a.set_playlist_group(1);
    assert_eq!(a.playlist_visible, vec![0]);
    a.set_playlist_group(5);
    a.set_playlist_search("b");
    assert_eq!(a.playlist_visible, vec![1]);
    let hls = classify_m3u("http://x/s.m3u8", Ok("#EXT-X-TARGETDURATION:6".to_string()));
    match &hls {
        M3uFetch::Stream(url) => assert_eq!(url, "http://x/s.m3u8"),
        _ => unreachable!(),
    }
    assert_eq!(a.take_m3u(hls), (true, None));
    assert_eq!(a.playlist.len(), 3);
    let empty = classify_m3u("http://x/e.m3u", Ok("# rien".to_string()));
    assert!(matches!(empty, M3uFetch::Stream(_)));
    let failed = classify_m3u("http://x/e.m3u", Err("404".to_string()));
    assert_eq!(a.take_m3u(failed), (false, Some("Playlist illisible : 404".to_string())));
    assert_eq!(a.take_m3u(M3uFetch::Channels(vec![])).0, false);
}

#[test]
fn rows_stand_for_entries() {
    let mut a = app();
    a.add_sources(&strings(&["/m/Alpha", "/m/Beta", "/m/Été"]), false);
    a.set_playlist_search("ÉT");
    assert_eq!(a.playlist_visible, vec![2]);
    assert!(a.toggle_favorite(0));
    assert!(a.settings.is_favorite("/m/Été"));
    assert!(!a.toggle_favorite(7));
    a.set_playlist_search("");
    a.toggle_favorites_filter();
    assert_eq!(a.playlist_visible, vec![2]);
    assert!(a.playlist_activate(0));
    assert_eq!(a.playlist.current_index(), Some(2));
    assert_eq!(a.last_channel, Some(0));
    assert!(!a.playlist_activate(0));
    a.toggle_favorites_filter();
    a.playlist_shift(2, -1);
    assert_eq!(a.playlist.items()[1].source, "/m/Été");
    assert!(a.playlist_remove(1));
    assert!(!a.playlist_remove(0));
    assert_eq!(a.playlist.len(), 1);
    assert!(a.open_recent(0) == false);
}

#[test]
fn playlists_are_saved_and_loaded() {
    let mut a = app();
    a.add_sources(&strings(&["/m/a"]), false);
    let status = a.load_playlist_from("#EXTM3U\nb.mkv\n", Some("/dir"));
    assert_eq!(status, "1 entrées chargées");
    assert_eq!(a.playlist.items()[0].source, "/dir/b.mkv");
    assert_eq!(a.playlist.current_index(), None);
    assert_eq!(save_status("/p", None), "Playlist enregistrée : /p");
    assert_eq!(save_status("/p", Some("plein")), "Échec d'enregistrement : plein");
    assert_eq!(a.toggle_shuffle(), "Lecture aléatoire : activée");
    assert_eq!(a.toggle_shuffle(), "Lecture aléatoire : désactivée");
}

#[test]
fn recent_media_are_opened_again() {
    let mut a = app();
    a.settings.push_history("/old.mkv");
    assert!(a.open_recent(-3));
    assert_eq!(a.open_current().unwrap().0, "/old.mkv");
    assert!(!a.open_recent(1));
}

#[test]
fn categories_are_sorted_and_distinct() {
    let items = vec![
        item("a", "a", "News", ""),
        item("b", "b", "", ""),
        item("c", "c", "Arts", ""),
        item("d", "d", "News", ""),
        item("e", "e", "Arte", ""),
    ];
    assert_eq!(list_groups(&items), ["Arte", "Arts", "News"]);
    assert!(passes_filter("abc", "g", false, "b", "", false));
    assert!(!passes_filter("abc", "g", false, "b", "h", false));
    assert!(!passes_filter("abc", "g", false, "", "g", true));
}

#[test]
fn logos_are_asked_for_once() {
    let items = vec![
        item("a", "a", "", "http://l/1"),
        item("b", "b", "", ""),
        item("c", "c", "", "http://l/2"),
        item("d", "d", "", "http://l/1"),
        item("e", "e", "", "http://l/3"),
    ];
    let cached = strings(&["http://l/3"]);
    let mut pending = strings(&["http://l/2"]);
    let wanted = logos_to_fetch(&items, &vec![0, 1, 2, 3, 4], &cached, &pending);
    assert_eq!(wanted, ["http://l/1", "http://l/1"]);
    assert_eq!(request_logos(&mut pending, &wanted), ["http://l/1"]);
    assert_eq!(pending, ["http://l/2", "http://l/1"]);
}

#[test]
fn bookmarks_are_labelled() {
    let mut a = app();
    assert_eq!(a.toggle_bookmark(None), Some("Aucun média ouvert"));
    assert_eq!(a.toggle_bookmark(Some(5)), None);
    a.open_source("/a.mkv");
    assert_eq!(a.toggle_bookmark(Some(61_000_000)), Some("Marque-page posé"));
    assert_eq!(a.toggle_bookmark(Some(5_000_000)), Some("Marque-page posé"));
    assert_eq!(a.bookmark_labels(), ["🔖 1 · 0:05", "🔖 2 · 1:01"]);
    let (e, _) = PlayerEngine::open("/a", true, None, 0);
    assert_eq!(a.jump_bookmark(&e, 1), Some(DemuxCommand::Seek(61_000_000)));
    assert_eq!(a.jump_bookmark(&e, 2), None);
    assert_eq!(a.toggle_bookmark(Some(6_000_000)), Some("Marque-page retiré"));
    assert_eq!(a.bookmark_positions, vec![61_000_000]);
}

#[test]
fn chapters_are_listed() {
    let mut a = app();
    let chapters = vec![ChapterInfo { start_us: 62_000_000, title: "Fin".to_string() }];
    assert_eq!(a.refresh_chapters(&chapters).unwrap(), ["1. Fin (1:02)"]);
    assert!(a.refresh_chapters(&chapters).is_none());
    let (mut e, _) = PlayerEngine::open("/a", true, None, 0);
    assert_eq!(a.select_chapter(&e, 0), None);
    e.shared.chapters = chapters;
    assert_eq!(a.select_chapter(&e, -1), Some(DemuxCommand::Seek(62_000_000)));
}

#[test]
fn timers_and_loops_cycle() {
    let mut a = app();
    assert_eq!(a.sleep_label(), "Off");
    assert_eq!(a.cycle_sleep_timer(1), "Minuteur de veille : 15 min");
    assert_eq!(a.sleep_label(), "15 min");
    assert_eq!(a.sleep_deadline_us, Some(900_000_001));
    assert!(!a.expire_sleep_timer(900_000_000));
    assert!(a.expire_sleep_timer(900_000_001));
    assert!(!a.expire_sleep_timer(900_000_001));
    for wanted in [15, 30, 60, 90, 0] {
        a.cycle_sleep_timer(0);
        assert_eq!(a.sleep_minutes, wanted);
    }
    assert_eq!(a.toggle_ab_loop(None), "Ouvrez d'abord un média");
    a.toggle_ab_loop(Some(1_000_000));
    assert_eq!(a.ab_loop_indicator(), 1);
    assert_eq!(a.toggle_ab_loop(Some(1_500_000)), "Boucle A-B : B doit être après A");
    assert_eq!(a.toggle_ab_loop(Some(1_500_001)), "Boucle A-B activée");
    assert_eq!(a.ab_loop_indicator(), 2);
    assert_eq!(a.loop_target(1_500_000), None);
    assert_eq!(a.loop_target(1_500_001), Some(1_000_000));
    assert_eq!(a.toggle_ab_loop(Some(0)), "Boucle A-B désactivée");
    assert_eq!(a.ab_loop_indicator(), 0);
    assert_eq!(a.cycle_repeat(), "Répétition : toute la liste");
    assert_eq!(a.cycle_repeat(), "Répétition : média courant");
    assert_eq!(a.cycle_repeat(), "Répétition : désactivée");
}

fn track(stream_index: usize) -> TrackInfo {
    TrackInfo { stream_index, language: None, title: None, codec: "x".to_string() }
}

#[test]
fn tracks_are_restored() {
    let mut a = app();
    a.pending_audio_track = Some(1);
    a.pending_subtitle_track = Some(2);
    let menu = a.refresh_audio_tracks(&vec![track(4), track(5)]).unwrap();
    assert_eq!(menu.labels, ["Piste 1 (x)", "Piste 2 (x)"]);
    assert_eq!((menu.index, menu.stream), (1, Some(5)));
    assert!(a.refresh_audio_tracks(&vec![track(4), track(5)]).is_none());
    let menu = a.refresh_subtitle_tracks(&vec![track(7), track(8)]).unwrap();
    assert_eq!(menu.labels[0], "Désactivés");
    assert_eq!((menu.index, menu.stream), (2, Some(8)));
    a.pending_audio_track = Some(9);
    let menu = a.refresh_audio_tracks(&vec![track(1)]).unwrap();
    assert_eq!((menu.index, menu.stream), (0, None));
}

#[test]
fn tracks_are_chosen_and_cycled() {
    let mut a = app();
    let (mut e, _) = PlayerEngine::open("/a", true, None, 0);
    assert!(a.cycle_audio_track(0).is_none());
    assert!(a.cycle_subtitle_track(0).is_none());
    a.refresh_audio_tracks(&vec![track(4), track(5)]);
    a.refresh_subtitle_tracks(&vec![track(7)]);
    assert_eq!(a.cycle_audio_track(1), Some((0, "Piste audio 1/2".to_string())));
    assert_eq!(a.cycle_audio_track(-1), Some((0, "Piste audio 1/2".to_string())));
    assert_eq!(a.cycle_subtitle_track(0), Some((1, "Sous-titres : piste 1/1".to_string())));
    assert_eq!(a.cycle_subtitle_track(1), Some((0, "Sous-titres désactivés".to_string())));
    assert_eq!(a.select_audio_track(&e, 1), Some(DemuxCommand::SelectAudioTrack(5)));
    assert_eq!(a.select_audio_track(&e, 2), None);
    attach_subtitles(&mut e, SubtitleTrack::new(vec![SubtitleCue::plain(0, 9, "A".into())]));
    assert_eq!(
        a.select_subtitle_track(&mut e, 0),
        Some(DemuxCommand::SelectSubtitleTrack(None))
    );
    assert!(e.shared.external_subtitles.is_some());
    assert_eq!(
        a.select_subtitle_track(&mut e, 1),
        Some(DemuxCommand::SelectSubtitleTrack(Some(7)))
    );
    assert!(e.shared.external_subtitles.is_none());
    assert_eq!(a.select_audio_device(0).as_deref(), Some("HDMI"));
    assert_eq!(a.select_audio_device(1), None);
    assert_eq!(loaded_status(3), "3 sous-titres chargés");
    assert_eq!(downloaded_status(Some(3)), "3 sous-titres téléchargés");
    assert_eq!(downloaded_status(None), "Aucun sous-titre trouvé en ligne");
}

#[test]
fn online_subtitles_need_a_key() {
    let mut a = app();
    assert_eq!(a.search_online_subtitles().unwrap_err(), "Ouvrez d'abord un média");
    a.open_source("/m/big film.mkv");
    assert_eq!(
        a.search_online_subtitles().unwrap_err(),
        "Clé d'API OpenSubtitles non configurée (paramètres)"
    );
    a.settings.opensubtitles_api_key = "k".to_string();
    match a.search_online_subtitles().unwrap() {
        Request::Search { url } => assert!(url.contains("query=big+film.mkv&languages=fr")),
        _ => unreachable!(),
    }
}

#[test]
fn the_equaliser_is_set() {
    let mut a = app();
    assert_eq!(a.set_equalizer_band(-1, 9999), Some((0, 1200)));
    assert_eq!(a.set_equalizer_band(10, 5), None);
    assert_eq!(a.equalizer_gains[0], 1200);
    assert!(!a.apply_eq_preset(0));
    assert_eq!(a.equalizer_gains[0], 1200);
    assert!(a.apply_eq_preset(7));
    assert_eq!(a.equalizer_gains[4], 400);
    assert!(!a.apply_eq_preset(8));
    a.reset_equalizer();
    assert_eq!(a.equalizer_gains, [0; 10]);
    assert_eq!(
        frequency_labels(),
        ["31", "62", "125", "250", "500", "1k", "2k", "4k", "8k", "16k"]
    );
}

#[test]
fn the_picture_is_adjusted() {
    let a = app();
    let (mut e, _) = PlayerEngine::open("/a", true, None, 0);
    assert_eq!(a.cycle_rotation(&mut e, 0), (None, "Rotation : 90°"));
    e.set_paused(true, 0);
    assert_eq!(
        a.cycle_rotation(&mut e, 0),
        (Some(DemuxCommand::Seek(0)), "Rotation : 180°")
    );
    a.cycle_rotation(&mut e, 0);
    assert_eq!(a.cycle_rotation(&mut e, 0).1, "Rotation : aucune");
    a.set_image_adjust(&mut e, -2000, 3000, 1500, 0);
    assert_eq!(e.shared.brightness_milli, -1000);
    assert_eq!(e.shared.contrast_milli, 2000);
    assert_eq!(e.shared.saturation_milli, 1500);
    a.set_video_enhance(&mut e, 0, 9000, -1, 0);
    assert_eq!(e.shared.gamma_milli, 100);
    assert_eq!(e.shared.sharpen_milli, 3000);
    assert_eq!(e.shared.denoise_milli, 0);
    e.set_paused(false, 0);
    assert_eq!(a.step_frame(&mut e, true, 1_000_000), DemuxCommand::Seek(1_041_666));
    assert!(e.is_paused());
}

#[test]
fn preferences_are_kept() {
    let mut a = app();
    a.toggle_theme();
    assert!(!a.settings.dark_theme);
    assert_eq!(a.cycle_language("en"), "fr");
    assert_eq!(a.cycle_language("fr"), "en");
    assert_eq!(a.settings.language, "en");
    a.set_subtitle_color(0xff0000);
    assert_eq!(a.settings.subtitle_color, Some(0xff0000));
    a.set_subtitle_color(-1);
    assert_eq!(a.settings.subtitle_color, None);
    a.remember_window_geometry(199, 500);
    assert!(a.settings.window.is_none());
    a.remember_window_geometry(200, 150);
    assert_eq!(a.settings.window.unwrap().width, 200);
    a.adjust_subtitle_delay(i32::MAX);
    assert_eq!(a.sub_delay_ms, 30_000);
    a.adjust_subtitle_scale(2000);
    assert_eq!(a.subtitle_scale_milli, 2500);
    a.adjust_subtitle_scale(-9000);
    assert_eq!(a.subtitle_scale_milli, 500);
}

#[test]
fn a_click_on_the_bar_seeks() {
    let a = app();
    let (mut e, _) = PlayerEngine::open("/a", true, None, 0);
    assert_eq!(a.seek_fraction(&e, 500_000), None);
    e.shared.duration_us = 7_000_001;
    assert_eq!(a.seek_fraction(&e, 500_000), Some(DemuxCommand::Seek(3_500_000)));
    assert_eq!(a.seek_fraction(&e, 2_000_000), Some(DemuxCommand::Seek(7_000_001)));
}

#[test]
fn the_interface_follows_the_session() {
    let mut a = app();
    let (mut e, _) = PlayerEngine::open("/a", true, None, 0);
    let v = a.playback_view(&e, 61_000_000);
    assert_eq!((v.position_text.as_str(), v.duration_text.as_str()), ("1:01", "direct"));
    assert!(v.playing && !v.seekable && !v.keep_awake);
    assert_eq!(v.subtitle, "");
    assert_eq!(v.color, Color { red: 255, green: 255, blue: 255 });
    e.shared.duration_us = 60_000_000;
    e.shared.has_video = true;
    let mut cue = SubtitleCue::plain(59_000_000, 61_000_000, "A".into());
    cue.style.color = Some(0x010203);
    e.shared.embedded_subtitles.insert(cue);
    let v = a.playback_view(&e, 61_000_000);
    assert_eq!(v.position_us, 60_000_000);
    assert_eq!(v.duration_text, "1:00");
    assert!(v.keep_awake);
    assert_eq!(v.subtitle, "A");
    assert_eq!(v.color, Color { red: 1, green: 2, blue: 3 });
    a.settings.subtitle_color = Some(0xffff00);
    assert_eq!(a.playback_view(&e, 61_000_000).color, split_color(0xffff00));
    e.shared.set_error("raté".to_string());
    assert_eq!(a.take_error(&mut e).as_deref(), Some("raté"));
    assert_eq!(a.take_error(&mut e), None);
    assert_eq!(a.take_stats(25, 1), (25, 1));
    assert_eq!(a.take_stats(50, 0), (25, 0));
    let info = UpdateInfo { version: "9.0".to_string(), url: "u".to_string() };
    assert_eq!(a.take_update(info), "Mise à jour disponible : v9.0");
    assert_eq!(a.update_url.as_deref(), Some("u"));
}

#[test]
fn the_end_of_a_medium_leads_on() {
    let mut a = app();
    a.add_sources(&strings(&["/a", "/b"]), false);
    a.open_source("/a");
    a.settings.remember_position("/a", 50_000_000, 0);
    assert!(a.end_of_media(60_000_000));
    assert_eq!(a.settings.resume_position("/a"), None);
    assert_eq!(a.playlist.current_index(), Some(1));
    assert!(!a.end_of_media(0));
    a.repeat_mode = RepeatMode::All;
    assert!(a.end_of_media(0));
    assert_eq!(a.playlist.current_index(), Some(0));
    a.repeat_mode = RepeatMode::One;
    assert!(a.end_of_media(0));
    assert_eq!(a.playlist.current_index(), Some(0));
}

#[test]
fn the_desktop_is_told() {
    assert_eq!(playback_status(true, true), PlaybackStatus::Stopped);
    assert_eq!(playback_status(true, false), PlaybackStatus::Playing);
    assert_eq!(playback_status(false, false), PlaybackStatus::Paused);
    assert_eq!(published_duration(0), None);
    assert_eq!(published_duration(5), Some(5));
    assert_eq!(inhibit_action(false, true), InhibitAction::Acquire);
    assert_eq!(inhibit_action(true, true), InhibitAction::Keep);
    assert_eq!(inhibit_action(true, false), InhibitAction::Release);
    assert_eq!(inhibit_arguments()[4], "sleep");
}

#[test]
fn logos_are_cached_under_their_hash() {
    assert_eq!(logo_filename(0), "0000000000000000");
    assert_eq!(logo_filename(0xDEAD_BEEF_0123_4567), "deadbeef01234567");
    assert_ne!(logo_filename(1), logo_filename(1 << 60));
}
