//! Settings.

use oxiplay::settings::{MediaState, Settings, BOOKMARK_TOLERANCE_US, HISTORY_LIMIT, RESUME_MIN_US};
use oxiplay::text_map::TextMap;

#[test]
fn history_dedup_and_limit() {
    let mut s = Settings::default();
    for i in 0..60 {
        s.push_history(&format!("/m/{i}.mp4"));
    }
    s.push_history("/m/10.mp4");
    assert_eq!(s.history.len(), HISTORY_LIMIT);
    assert_eq!(s.history[0], "/m/10.mp4");
    assert_eq!(s.history.iter().filter(|h| *h == "/m/10.mp4").count(), 1);
}

#[test]
fn resume_rules() {
    let mut s = Settings::default();
    let dur = 100 * 60 * 1_000_000i64;
    s.remember_position("a", 5_000_000, dur);
    assert_eq!(s.resume_position("a"), None);
    s.remember_position("a", dur / 2, dur);
    assert_eq!(s.resume_position("a"), Some(dur / 2));
    s.remember_position("a", dur - 1_000_000, dur);
    assert_eq!(s.resume_position("a"), None);
}

#[test]
fn media_state_remember_and_clear() {
    let mut s = Settings::default();
    s.remember_media_state("a", MediaState::default());
    assert!(s.media_state("a").is_none());
    let st = MediaState {
        speed_index: 5,
        audio_track: 1,
        subtitle_track: 2,
    };
    s.remember_media_state("a", st.clone());
    assert_eq!(s.media_state("a"), Some(st));
    s.remember_media_state("a", MediaState::default());
    assert!(s.media_state("a").is_none());
}

#[test]
fn resolve_language_explicit_and_auto() {
    let mut s = Settings {
        language: "en".to_string(),
        ..Settings::default()
    };
    assert_eq!(s.resolve_language(None), "en");
    s.language = "fr".to_string();
    assert_eq!(s.resolve_language(None), "fr");
    s.language = "de".to_string();
    assert_eq!(s.resolve_language(None), "fr");
}

#[test]
fn favorites_toggle() {
    let mut s = Settings::default();
    assert!(!s.is_favorite("http://ex/a"));
    assert!(s.toggle_favorite("http://ex/a"));
    assert!(s.is_favorite("http://ex/a"));
    assert!(!s.toggle_favorite("http://ex/a"));
    assert!(!s.is_favorite("http://ex/a"));
}

#[test]
fn bookmarks_toggle_and_dedup() {
    let mut s = Settings::default();
    let src = "/film.mkv";
    assert!(s.toggle_bookmark(src, 30_000_000));
    assert!(s.toggle_bookmark(src, 90_000_000));
    assert_eq!(s.bookmarks_for(src), vec![30_000_000, 90_000_000]);
    assert!(!s.toggle_bookmark(src, 31_000_000));
    assert_eq!(s.bookmarks_for(src), vec![90_000_000]);
    assert!(!s.toggle_bookmark(src, 90_500_000));
    assert!(s.bookmarks_for(src).is_empty());
}

#[test]
fn positions_at_the_limits_are_forgotten() {
    let mut s = Settings::default();
    s.remember_position("a", RESUME_MIN_US, 0);
    assert_eq!(s.resume_position("a"), None);
    s.remember_position("a", RESUME_MIN_US + 1, 0);
    assert_eq!(s.resume_position("a"), Some(RESUME_MIN_US + 1));
    s.remember_position("a", 95_000_000, 100_000_000);
    assert_eq!(s.resume_position("a"), None);
    s.remember_position("a", 94_999_999, 100_000_000);
    assert_eq!(s.resume_position("a"), Some(94_999_999));
}

#[test]
fn bookmarks_two_seconds_apart_are_two() {
    let mut s = Settings::default();
    assert!(s.toggle_bookmark("a", 50_000_000));
    assert!(s.toggle_bookmark("a", 50_000_000 - BOOKMARK_TOLERANCE_US));
    assert_eq!(s.bookmarks_for("a"), vec![48_000_000, 50_000_000]);
    assert!(!s.toggle_bookmark("a", 49_999_999));
    assert_eq!(s.bookmarks_for("a"), vec![50_000_000]);
    assert!(s.bookmarks_for("b").is_empty());
}

#[test]
fn the_locale_decides_where_the_language_is_automatic() {
    let mut s = Settings::default();
    assert_eq!(s.language, "auto");
    assert_eq!(s.resolve_language(Some("EN_US.UTF-8")), "en");
    assert_eq!(s.resolve_language(Some("fr_FR")), "fr");
    assert_eq!(s.resolve_language(None), "fr");
    s.language = "ENGLISH".to_string();
    assert_eq!(s.resolve_language(Some("fr_FR")), "en");
}

#[test]
fn the_defaults_are_plain() {
    let s = Settings::default();
    assert!(s.dark_theme && s.check_updates && !s.normalize_audio);
    assert_eq!(s.subtitle_language, "fr");
    assert!(s.window.is_none() && s.subtitle_color.is_none());
}

#[test]
fn maps_keep_one_value_for_a_key() {
    let mut m: TextMap<i64> = TextMap::new();
    m.insert("a", 1);
    m.insert("b", 2);
    m.insert("a", 3);
    assert_eq!(m.len(), 2);
    assert_eq!(m.get("a"), Some(&3));
    assert_eq!(m.remove("a"), Some(3));
    assert_eq!(m.remove("a"), None);
    assert_eq!(m.entry(0), ("b", &2));
}

#[test]
fn each_medium_has_its_own_place() {
    let mut s = Settings::default();
    s.remember_position("a", 60_000_000, 600_000_000);
    s.remember_position("b", 90_000_000, 600_000_000);
    s.remember_position("a", 1_000_000, 600_000_000);
    assert_eq!(s.resume_position("a"), None);
    assert_eq!(s.resume_position("b"), Some(90_000_000));
    let state = MediaState { speed_index: 5, audio_track: 1, subtitle_track: 2 };
    s.remember_media_state("a", state);
    s.remember_media_state("b", MediaState::default());
    assert!(s.media_state("a") == Some(state));
    assert!(s.media_state("b").is_none());
}

#[test]
fn a_new_bookmark_is_taken_away_again() {
    let mut s = Settings::default();
    assert!(s.toggle_bookmark("a", 40_000_000));
    assert!(s.toggle_bookmark("a", 10_000_000));
    assert!(s.toggle_bookmark("a", 20_000_000));
    assert_eq!(s.bookmarks_for("a"), vec![10_000_000, 20_000_000, 40_000_000]);
    assert!(!s.toggle_bookmark("a", 20_000_000));
    assert_eq!(s.bookmarks_for("a"), vec![10_000_000, 40_000_000]);
}
