//! Sources and what they are opened with.

use oxiplay::recording::{
    output_time_base, recording_extension, PacketRead, RecordError, RecordStep, Recording,
};
use oxiplay::decoder::streams::Medium;
use oxiplay::decoder::Rational;
use oxiplay::streaming::{
    classify, demux_options, is_url, looks_like_hls, normalize_source, StreamKind, USER_AGENT,
};
use oxiplay::utils::{display_name, format_time, slug_for, timestamp_slug};
use oxiplay::ytdlp::{resolve, resolve_arguments, should_resolve};

#[test]
fn hls_stream_vs_channel_directory() {
    let hls_master = "#EXTM3U\n#EXT-X-STREAM-INF:BANDWIDTH=800000\nlow.m3u8\n";
    assert!(looks_like_hls(hls_master));
    let hls_media = "#EXTM3U\n#EXT-X-TARGETDURATION:6\n#EXTINF:6.0,\nseg0.ts\n";
    assert!(looks_like_hls(hls_media));
    let directory = "#EXTM3U\n#EXTINF:-1 tvg-id=\"a\",Chaîne A\nhttps://ex.com/a.m3u8\n\
                     #EXTINF:-1,Chaîne B\nhttps://ex.com/b.m3u8\n";
    assert!(!looks_like_hls(directory));
}

#[test]
fn classify_sources() {
    assert_eq!(classify("/home/u/film.mkv"), StreamKind::Local);
    assert_eq!(classify("C:\\Videos\\film.mp4"), StreamKind::Local);
    assert_eq!(classify("https://ex.com/video.mp4"), StreamKind::Http);
    assert_eq!(
        classify("https://ex.com/live/master.m3u8?tok=1"),
        StreamKind::Hls
    );
    assert_eq!(classify("rtsp://10.0.0.2:554/cam"), StreamKind::Rtsp);
    assert_eq!(classify("udp://239.0.0.1:1234"), StreamKind::Iptv);
}

#[test]
fn url_detection() {
    assert!(is_url("HTTP://EX.COM/a"));
    assert!(!is_url("relative/path.mp4"));
}

#[test]
fn network_sources_forbid_file_protocol() {
    for kind in [
        StreamKind::Http,
        StreamKind::Hls,
        StreamKind::Rtsp,
        StreamKind::Iptv,
    ] {
        let opts = demux_options(kind);
        let whitelist = opts
            .get("protocol_whitelist")
            .unwrap_or_else(|| panic!("{kind:?}"));
        assert!(!whitelist.split(',').any(|p| p == "file"), "{kind:?}");
        for bad in ["concat", "subfile", "fd", "pipe"] {
            assert!(!whitelist.split(',').any(|p| p == bad), "{kind:?} {bad}");
        }
    }
}

#[test]
fn local_source_is_unrestricted() {
    assert!(demux_options(StreamKind::Local)
        .get("protocol_whitelist")
        .is_none());
}

#[test]
fn bluray_sources() {
    assert_eq!(classify("bluray:/dev/sr0"), StreamKind::BluRay);
    assert_eq!(classify("BLURAY:/mnt/disc"), StreamKind::BluRay);
    assert_eq!(
        normalize_source("/films/disc.iso", false),
        "bluray:/films/disc.iso"
    );
    assert_eq!(
        normalize_source("/films/DISQUE.ISO", false),
        "bluray:/films/DISQUE.ISO"
    );
    assert_eq!(normalize_source("bluray:/dev/sr0", false), "bluray:/dev/sr0");
    assert_eq!(
        normalize_source("https://ex.com/v.mp4", false),
        "https://ex.com/v.mp4"
    );
    assert_eq!(normalize_source("/films/movie.mkv", false), "/films/movie.mkv");
    assert!(demux_options(StreamKind::BluRay)
        .get("protocol_whitelist")
        .is_none());
}

#[test]
fn bdmv_directories_are_discs() {
    assert_eq!(normalize_source("/media/disc", true), "bluray:/media/disc");
    assert_eq!(normalize_source("https://ex.com/", true), "https://ex.com/");
}

#[test]
fn remote_playlists_are_iptv() {
    assert_eq!(classify("http://ex.com/list.m3u"), StreamKind::Iptv);
    assert_eq!(classify("RTP://239.0.0.1"), StreamKind::Iptv);
    assert_eq!(classify("mms://ex.com/a"), StreamKind::Http);
}

#[test]
fn options_are_given_in_order() {
    let opts = demux_options(StreamKind::Hls);
    assert_eq!(opts.len(), 6);
    assert_eq!(
        opts.entry(0),
        ("protocol_whitelist", "http,https,tcp,tls,crypto,data,httpproxy")
    );
    assert_eq!(opts.get("rw_timeout"), Some("15000000"));
    assert_eq!(opts.get("user_agent"), Some(USER_AGENT));
    assert_eq!(opts.get("other"), None);
    let rtsp = demux_options(StreamKind::Rtsp);
    assert_eq!(rtsp.get("rtsp_transport"), Some("tcp"));
    let iptv = demux_options(StreamKind::Iptv);
    assert_eq!(iptv.get("fifo_size"), Some("1000000"));
}

#[test]
fn extension_picks_ts_for_hls_and_mkv_default() {
    assert_eq!(recording_extension("http://x/live.m3u8"), "ts");
    assert_eq!(recording_extension("http://x/stream.ts"), "ts");
    assert_eq!(recording_extension("http://x/movie.mp4?token=1"), "mp4");
    assert_eq!(recording_extension("http://x/clip.webm"), "webm");
    assert_eq!(recording_extension("rtsp://x/stream"), "mkv");
}

#[test]
fn recorded_streams_are_numbered_anew() {
    let media = vec![Medium::Other, Medium::Video, Medium::Other, Medium::Audio];
    let mut rec = Recording::plan(media).unwrap();
    assert_eq!(rec.outputs(), 2);
    let packet = |stream| PacketRead::Packet { stream, size: 100 };
    assert_eq!(rec.step(false, packet(1)), RecordStep::Write(0));
    assert_eq!(rec.step(false, packet(3)), RecordStep::Write(1));
    assert_eq!(rec.step(false, packet(2)), RecordStep::Skip);
    assert_eq!(rec.step(false, packet(9)), RecordStep::Skip);
    assert_eq!(rec.step(false, PacketRead::Unreadable), RecordStep::Skip);
    assert_eq!(rec.step(false, PacketRead::End), RecordStep::Finish);
    assert_eq!(rec.step(true, packet(1)), RecordStep::Finish);
    assert_eq!(rec.bytes_written(), 200);
}

#[test]
fn nothing_to_record_is_an_error() {
    let error = Recording::plan(vec![Medium::Other]).unwrap_err();
    assert_eq!(error, RecordError::NoStream);
    assert_eq!(error.message(), "aucun flux exploitable à enregistrer");
    assert_eq!(output_time_base(None), Rational { num: 1, den: 1000 });
    let tb = Rational { num: 1, den: 90000 };
    assert_eq!(output_time_base(Some(tb)), tb);
}

#[test]
fn classifies_urls() {
    assert!(should_resolve("https://www.youtube.com/watch?v=abc"));
    assert!(should_resolve("https://vimeo.com/123456"));
    assert!(should_resolve("http://twitch.tv/somestream"));
    assert!(!should_resolve("https://ex.com/video.mp4"));
    assert!(!should_resolve("https://ex.com/live/master.m3u8?token=1"));
    assert!(!should_resolve("https://ex.com/audio.opus"));
    assert!(!should_resolve("/home/u/film.mkv"));
    assert!(!should_resolve("rtsp://10.0.0.2/cam"));
    assert!(!should_resolve("bluray:/dev/sr0"));
}

#[test]
fn the_first_line_that_is_not_blank_is_the_stream() {
    assert_eq!(
        resolve(true, "\n  https://cdn/x \nhttps://cdn/y\n").as_deref(),
        Some("https://cdn/x")
    );
    assert_eq!(resolve(true, " \n"), None);
    assert_eq!(resolve(false, "https://cdn/x"), None);
    assert_eq!(
        resolve_arguments("https://a/b"),
        ["-g", "--no-playlist", "-f", "best", "https://a/b"]
    );
}

#[test]
fn format_time_basic() {
    assert_eq!(format_time(0), "0:00");
    assert_eq!(format_time(59 * 1_000_000), "0:59");
    assert_eq!(format_time(61 * 1_000_000), "1:01");
    assert_eq!(format_time(3_661 * 1_000_000), "1:01:01");
    assert_eq!(format_time(-5), "0:00");
}

#[test]
fn display_name_file_and_url() {
    assert_eq!(display_name("/tmp/films/film.mkv"), "film.mkv");
    assert_eq!(
        display_name("https://ex.com/live/stream.m3u8"),
        "stream.m3u8"
    );
}

#[test]
fn display_names_of_odd_sources() {
    assert_eq!(display_name("https://ex.com/live/"), "live");
    assert_eq!(display_name("https://"), "https:");
    assert_eq!(display_name("/"), "/");
    assert_eq!(display_name("/a/b/.."), "/a/b/..");
    assert_eq!(display_name("/a/b/"), "b");
}

#[test]
fn slugs_are_seconds() {
    assert_eq!(slug_for(Some((1_700_000_000, 5))), "1700000000");
    assert_eq!(slug_for(None), "0");
    let now = std::time::SystemTime::now()
        .duration_since(std::time::UNIX_EPOCH)
        .unwrap()
        .as_secs();
    let slug: u64 = timestamp_slug().parse().unwrap();
    assert!(slug >= now && slug <= now + 20);
}

#[test]
fn a_ready_source_stays_as_it_is() {
    let once = normalize_source("/films/disc.ISO", false);
    assert_eq!(once, "bluray:/films/disc.ISO");
    assert_eq!(normalize_source(&once, false), once);
    assert_eq!(normalize_source("/films/a.mkv", false), "/films/a.mkv");
}
