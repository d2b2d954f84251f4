//! Playlists.

use oxiplay::playlist::order::seed_for;
use oxiplay::playlist::{parse_m3u_content, Playlist, PlaylistItem, RepeatMode};

fn playlist_abc() -> Playlist {
    let mut p = Playlist::default();
    p.add(PlaylistItem::new("/tmp/a.mp4"));
    p.add(PlaylistItem::new("/tmp/b.mp4"));
    p.add(PlaylistItem::new("/tmp/c.mp4"));
    p
}

#[test]
fn navigation() {
    let mut p = playlist_abc();
    assert_eq!(p.advance().unwrap().title, "a.mp4");
    assert_eq!(p.advance().unwrap().title, "b.mp4");
    assert_eq!(p.previous().unwrap().title, "a.mp4");
    p.select(2);
    assert!(p.advance().is_none());
}

#[test]
fn remove_keeps_cursor() {
    let mut p = playlist_abc();
    p.select(2);
    p.remove(0);
    assert_eq!(p.current_index(), Some(1));
    assert_eq!(p.current().unwrap().title, "c.mp4");
    p.remove(1);
    assert_eq!(p.current_index(), None);
}

#[test]
fn shift_moves_and_tracks_cursor() {
    let mut p = playlist_abc();
    p.select(1);
    p.shift(1, -1);
    assert_eq!(p.items()[0].title, "b.mp4");
    assert_eq!(p.current_index(), Some(0));
    p.shift(0, -1);
    assert_eq!(p.current_index(), Some(0));
}

#[test]
fn shuffle_visits_all_without_repeat_then_recycles() {
    let mut p = playlist_abc();
    p.add(PlaylistItem::new("/tmp/d.mp4"));
    p.select(0);
    p.set_shuffle(true);
    let mut seen = std::collections::HashSet::new();
    seen.insert(0usize);
    for _ in 0..3 {
        let idx = p.current_index().unwrap();
        assert!(p.advance().is_some());
        let next_idx = p.current_index().unwrap();
        assert_ne!(next_idx, idx);
        assert!(seen.insert(next_idx));
    }
    assert_eq!(seen.len(), 4);
    assert!(p.advance().is_some());
}

#[test]
fn shuffle_previous_rewinds_play_history() {
    let mut p = playlist_abc();
    p.select(0);
    p.set_shuffle(true);
    let first = p.current_index().unwrap();
    assert!(p.advance().is_some());
    let second = p.current_index().unwrap();
    assert_ne!(first, second);
    assert!(p.previous().is_some());
    assert_eq!(p.current_index(), Some(first));
}

#[test]
fn repeat_mode_cycles() {
    assert_eq!(RepeatMode::default(), RepeatMode::Off);
    assert_eq!(RepeatMode::Off.cycled(), RepeatMode::All);
    assert_eq!(RepeatMode::All.cycled(), RepeatMode::One);
    assert_eq!(RepeatMode::One.cycled(), RepeatMode::Off);
    assert_eq!(
        [RepeatMode::Off, RepeatMode::All, RepeatMode::One].map(RepeatMode::as_index),
        [0, 1, 2]
    );
}

#[test]
fn m3u_roundtrip() {
    let mut p = playlist_abc();
    p.add(PlaylistItem::new("https://ex.com/live.m3u8"));
    let text = p.save_m3u();

    let mut loaded = Playlist::default();
    let n = loaded.load_m3u(&text, Some("/tmp"));
    assert_eq!(n, 4);
    assert_eq!(loaded.items()[3].source, "https://ex.com/live.m3u8");
    assert_eq!(loaded.items()[0].title, "a.mp4");
}

#[test]
fn parse_remote_channel_directory() {
    let content = "#EXTM3U\n\
                   #EXTINF:-1 tvg-id=\"a\" tvg-logo=\"https://ex.com/a.png\" group-title=\"News\",Chaîne A\nhttps://ex.com/a.m3u8\n\
                   #EXTINF:-1,Chaîne B\nhttps://ex.com/b.m3u8\n";
    let items = parse_m3u_content(content, None);
    assert_eq!(items.len(), 2);
    assert_eq!(items[0].title, "Chaîne A");
    assert_eq!(items[0].source, "https://ex.com/a.m3u8");
    assert_eq!(items[0].logo, "https://ex.com/a.png");
    assert_eq!(items[0].group, "News");
    assert_eq!(items[1].title, "Chaîne B");
    assert!(items[1].logo.is_empty());
    assert!(items[1].group.is_empty());
}

#[test]
fn m3u_text_is_written_line_by_line() {
    let mut p = Playlist::default();
    let mut item = PlaylistItem::new("https://ex.com/a.m3u8");
    item.title = "Chaîne A".to_string();
    item.group = "News".to_string();
    p.add(item);
    p.add(PlaylistItem::new("/tmp/b.mp4"));
    assert_eq!(
        p.save_m3u(),
        "#EXTM3U\n#EXTINF:-1 group-title=\"News\",Chaîne A\nhttps://ex.com/a.m3u8\n\
         #EXTINF:-1,b.mp4\n/tmp/b.mp4\n"
    );
}

#[test]
fn relative_paths_are_taken_from_the_playlist() {
    let text = "#EXTM3U\r\n\r\n  # a comment\r\nfilms/a.mkv\n/abs/b.mkv\nHTTP://ex.com/c\n";
    let items = parse_m3u_content(text, Some("/media"));
    let sources: Vec<&str> = items.iter().map(|i| i.source.as_str()).collect();
    assert_eq!(sources, ["/media/films/a.mkv", "/abs/b.mkv", "HTTP://ex.com/c"]);
    let remote = parse_m3u_content(text, None);
    assert_eq!(remote[0].source, "films/a.mkv");
}

#[test]
fn attributes_need_both_quotes() {
    let items = parse_m3u_content("#EXTINF:-1 group-title=\"open,T\n/a\n", None);
    assert_eq!(items[0].group, "");
    assert_eq!(items[0].title, "T");
}

#[test]
fn seeds_are_odd() {
    assert_eq!(seed_for(Some((1, 2))), 1_000_000_002 | 1);
    assert_eq!(seed_for(None), 0x9e37_79b9_7f4a_7c15);
}

#[test]
fn a_seeded_shuffle_draws_with_xorshift() {
    let mut p = playlist_abc();
    p.select(0);
    p.set_shuffle(true);
    let mut x: u64 = 7;
    x ^= x << 13;
    x ^= x >> 7;
    x ^= x << 17;
    let wanted = [1usize, 2][(x % 2) as usize];
    assert!(p.advance_seeded(7).is_some());
    assert_eq!(p.current_index(), Some(wanted));
}

#[test]
fn a_shuffle_of_one_entry_stays_on_it() {
    let mut p = Playlist::default();
    p.set_shuffle(true);
    assert!(p.advance().is_none());
    p.add(PlaylistItem::new("/tmp/a.mp4"));
    assert!(p.advance().is_some());
    assert!(p.advance().is_some());
    assert_eq!(p.current_index(), Some(0));
    assert!(p.previous().is_none());
}

#[test]
fn shifting_back_undoes_a_shift() {
    let mut p = playlist_abc();
    p.select(2);
    p.shift(0, 2);
    assert_eq!(p.items()[2].title, "a.mp4");
    assert_eq!(p.current_index(), Some(0));
    p.shift(2, -2);
    assert_eq!(p.items()[0].title, "a.mp4");
    assert_eq!(p.current_index(), Some(2));
}

#[test]
fn clearing_empties_the_list() {
    let mut p = playlist_abc();
    p.select(1);
    assert!(!p.is_empty());
    p.clear();
    assert_eq!(p.len(), 0);
    assert!(p.current().is_none());
    assert!(!p.shuffle());
}
