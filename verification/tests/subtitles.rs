//! Text and image subtitles.

use oxiplay::subtitles::bitmap::{composite, MAX_BITMAPS};
use oxiplay::subtitles::load::{decode_text, detect_format, SubtitleFormat};
use oxiplay::subtitles::timestamp::{parse_ass_timestamp, parse_timestamp};
use oxiplay::subtitles::{
    clean_ass_text, embedded_ass_to_styled, embedded_ass_to_text, load_file, parse_ass,
    parse_ass_style, parse_srt, parse_vtt, BitmapSubtitle, BitmapSubtitleTrack, CueStyle,
    SubtitleCue, SubtitleTrack,
};

const SRT: &str = "1\n00:00:01,000 --> 00:00:02,500\nBonjour <i>le monde</i>\n\n2\n00:00:03,000 --> 00:00:04,000\nDeuxième ligne\nsur deux lignes\n";

#[test]
fn srt_parsing_and_query() {
    let track = SubtitleTrack::new(parse_srt(SRT).unwrap());
    assert_eq!(track.len(), 2);
    assert_eq!(track.query(1_500_000).as_deref(), Some("Bonjour le monde"));
    assert_eq!(track.query(2_700_000), None);
    assert_eq!(
        track.query(3_500_000).as_deref(),
        Some("Deuxième ligne\nsur deux lignes")
    );
}

#[test]
fn vtt_parsing() {
    let vtt = "WEBVTT\n\nNOTE test\n\n1\n00:01.000 --> 00:02.000 align:middle\nSalut\n";
    let cues = parse_vtt(vtt).unwrap();
    assert_eq!(cues.len(), 1);
    assert_eq!(cues[0].start_us, 1_000_000);
    assert_eq!(cues[0].end_us, 2_000_000);
    assert_eq!(cues[0].text, "Salut");
}

#[test]
fn ass_parsing() {
    let ass = "[Events]\nFormat: Layer, Start, End, Style, Name, MarginL, MarginR, MarginV, Effect, Text\nDialogue: 0,0:00:01.00,0:00:02.00,Default,,0,0,0,,{\\an8}Texte\\Nstylé\n";
    let cues = parse_ass(ass).unwrap();
    assert_eq!(cues.len(), 1);
    assert_eq!(cues[0].text, "Texte\nstylé");
    assert_eq!(cues[0].start_us, 1_000_000);
    assert_eq!(cues[0].style.align, 8);
}

#[test]
fn embedded_ass_payload() {
    let p = "12,0,Default,,0,0,0,,Bonjour {\\i1}toi{\\i0}";
    assert_eq!(embedded_ass_to_text(p), "Bonjour toi");
}

#[test]
fn overlapping_cues_are_joined() {
    let mut t = SubtitleTrack::default();
    t.insert(SubtitleCue::plain(0, 5_000_000, "A".into()));
    t.insert(SubtitleCue::plain(1_000_000, 3_000_000, "B".into()));
    assert_eq!(t.query(2_000_000).as_deref(), Some("A\nB"));
}

#[test]
fn ass_style_parsing() {
    let style = parse_ass_style("{\\an8\\b1\\i1\\c&HFF0000&}Salut");
    assert_eq!(style.align, 8);
    assert!(style.bold && style.italic);
    assert_eq!(style.color, Some(0x0000FF));
    assert_eq!(parse_ass_style("Texte"), CueStyle::default());
}

#[test]
fn embedded_ass_styled() {
    let (text, style) = embedded_ass_to_styled("12,0,Default,,0,0,0,,{\\an5}Centre");
    assert_eq!(text, "Centre");
    assert_eq!(style.align, 5);
}

#[test]
fn hostile_timestamps_do_not_panic() {
    let srt = "1\n99999999999:00:00,000 --> 99999999999:00:01,000\nX\n";
    assert!(parse_srt(srt).unwrap().is_empty());
    let ass = "[Events]\nFormat: Layer, Start, End, Text\nDialogue: 0,99999999999:00:00.00,99999999999:00:01.00,Y\n";
    assert!(parse_ass(ass).unwrap().is_empty());
}

#[test]
fn duplicate_insert_ignored() {
    let mut t = SubtitleTrack::default();
    let cue = SubtitleCue::plain(0, 1, "X".into());
    t.insert(cue.clone());
    t.insert(cue);
    assert_eq!(t.len(), 1);
}

fn red_sub(x: u32, y: u32) -> BitmapSubtitle {
    BitmapSubtitle {
        start_us: 0,
        end_us: 1_000_000,
        x,
        y,
        width: 1,
        height: 1,
        rgba: vec![255, 0, 0, 255],
    }
}

#[test]
fn composite_opaque_overwrites() {
    let mut frame = vec![0u8; 2 * 2 * 4];
    composite(&mut frame, 2, 2, &red_sub(1, 1));
    let di = 12;
    assert_eq!(&frame[di..di + 4], &[255, 0, 0, 255]);
    assert_eq!(&frame[0..4], &[0, 0, 0, 0]);
}

#[test]
fn composite_half_alpha_blends() {
    let mut frame = vec![0, 0, 0, 255];
    let sub = BitmapSubtitle {
        start_us: 0,
        end_us: 1,
        x: 0,
        y: 0,
        width: 1,
        height: 1,
        rgba: vec![200, 200, 200, 128],
    };
    composite(&mut frame, 1, 1, &sub);
    assert!((frame[0] as i32 - 100).abs() <= 1);
}

#[test]
fn composite_clips_out_of_bounds() {
    let mut frame = vec![0u8; 4];
    composite(&mut frame, 1, 1, &red_sub(5, 5));
    assert_eq!(frame, vec![0, 0, 0, 0]);
}

#[test]
fn track_prunes_old_entries() {
    let mut track = BitmapSubtitleTrack::default();
    for i in 0..(MAX_BITMAPS + 5) {
        track.insert(BitmapSubtitle {
            start_us: i as i64,
            end_us: i as i64 + 1,
            x: 0,
            y: 0,
            width: 1,
            height: 1,
            rgba: vec![0, 0, 0, 0],
        });
    }
    assert_eq!(track.len(), MAX_BITMAPS);
}

fn chars(s: &str) -> Vec<char> {
    s.chars().collect()
}

#[test]
fn timestamps_are_read_exactly() {
    assert_eq!(parse_timestamp(&chars("01:02:03,004")), Some(3_723_004_000));
    assert_eq!(parse_timestamp(&chars(" 02:03.5 ")), Some(123_005_000));
    assert_eq!(parse_timestamp(&chars("00:00:01,2345")), Some(1_234_000));
    assert_eq!(parse_timestamp(&chars("00:00:01")), None);
    assert_eq!(parse_timestamp(&chars("1,5")), None);
    assert_eq!(parse_timestamp(&chars("-1:00:00,000")), Some(-3_600_000_000));
    assert_eq!(parse_ass_timestamp(&chars("0:01:02.34")), Some(62_340_000));
    assert_eq!(parse_ass_timestamp(&chars("01:02.34")), None);
    assert_eq!(parse_ass_timestamp(&chars("0:01:02")), None);
}

#[test]
fn only_the_first_style_block_counts() {
    let style = parse_ass_style("{\\pos(1,2)}{\\an7}A{\\b1}B");
    assert_eq!(style.align, 7);
    assert!(!style.bold);
    assert_eq!(parse_ass_style("{\\a6}x").align, 8);
    assert_eq!(parse_ass_style("{\\1c&H0000FF&}x").color, Some(0xFF0000));
    assert_eq!(parse_ass_style("{\\an12}x").align, 2);
}

#[test]
fn ass_text_is_cleaned() {
    assert_eq!(clean_ass_text("a{\\i1}b\\Nc\\hd\\ne\\x"), "ab\nc d\ne\\x");
    assert_eq!(clean_ass_text("  {open"), "");
}

#[test]
fn cues_are_sorted_by_their_start() {
    let t = SubtitleTrack::new(vec![
        SubtitleCue::plain(5, 9, "late".into()),
        SubtitleCue::plain(1, 9, "first".into()),
        SubtitleCue::plain(1, 9, "second".into()),
    ]);
    assert_eq!(t.query(1).as_deref(), Some("first\nsecond"));
    assert_eq!(t.query(6).as_deref(), Some("first\nsecond\nlate"));
    assert_eq!(t.query(9), None);
    assert!(!t.is_empty());
}

#[test]
fn the_style_is_that_of_the_last_cue() {
    let mut t = SubtitleTrack::default();
    assert!(t.is_empty());
    t.insert(SubtitleCue::plain(0, 10, "A".into()));
    let mut b = SubtitleCue::plain(2, 4, "B".into());
    b.style.bold = true;
    t.insert(b);
    assert!(!t.query_style(1).bold);
    assert!(t.query_style(3).bold);
    assert_eq!(t.query_style(20), CueStyle::default());
}

#[test]
fn texts_are_decoded() {
    assert_eq!(decode_text("été".as_bytes()), "été");
    assert_eq!(decode_text(b"\xEF\xBB\xBFabc"), "abc");
    assert_eq!(decode_text(&[0xe9, 0x74, 0xe9]), "été");
    assert_eq!(decode_text(b""), "");
}

#[test]
fn formats_are_detected() {
    assert_eq!(detect_format("/a/b.SRT", "WEBVTT"), SubtitleFormat::Srt);
    assert_eq!(detect_format("/a/b.vtt", ""), SubtitleFormat::Vtt);
    assert_eq!(detect_format("/a/b.ssa", ""), SubtitleFormat::Ass);
    assert_eq!(detect_format("/a/b.txt", "  WEBVTT"), SubtitleFormat::Vtt);
    assert_eq!(detect_format("/a/b", "Dialogue: x"), SubtitleFormat::Ass);
    assert_eq!(detect_format("/a/b", "1\n"), SubtitleFormat::Srt);
}

#[test]
fn files_without_cues_are_refused() {
    let track = load_file("/a/film.srt", SRT.as_bytes()).unwrap();
    assert_eq!(track.len(), 2);
    let error = load_file("/a/film.srt", b"nothing").unwrap_err();
    assert_eq!(error.message(), "aucune réplique trouvée dans /a/film.srt");
}

#[test]
fn windows_line_ends_are_accepted() {
    let cues = parse_srt("1\r\n00:00:01,000 --> 00:00:02,000\r\nA\r\n\r\n00:00:03,000 --> 00:00:04,000\r\nB\r\n").unwrap();
    assert_eq!(cues.len(), 2);
    assert_eq!(cues[1].text, "B");
    let vtt = parse_vtt("WEBVTT\r\n\r\nintro\r\n00:01.000 --> 00:02.000\r\n<b>A</b>\r\n").unwrap();
    assert_eq!(vtt[0].text, "A");
}

#[test]
fn ass_columns_follow_the_format_line() {
    let ass = "Format: End, Start, Text\nDialogue: 0:00:02.00,0:00:01.00,Salut, toi\n";
    let cues = parse_ass(ass).unwrap();
    assert_eq!(cues[0].start_us, 1_000_000);
    assert_eq!(cues[0].end_us, 2_000_000);
    assert_eq!(cues[0].text, "Salut, toi");
    let short = parse_ass("Dialogue: 0,0:00:01.00,0:00:02.00,Default").unwrap();
    assert!(short.is_empty());
}

#[test]
fn active_bitmaps_are_drawn() {
    let mut track = BitmapSubtitleTrack::default();
    assert!(track.is_empty());
    track.insert(red_sub(0, 0));
    let mut frame = vec![0u8; 8];
    track.composite_active(&mut frame, 2, 1, 1_000_000);
    assert_eq!(frame, vec![0; 8]);
    track.composite_active(&mut frame, 2, 1, 999_999);
    assert_eq!(frame, vec![255, 0, 0, 255, 0, 0, 0, 0]);
    track.clear();
    assert_eq!(track.len(), 0);
}

#[test]
fn blank_cues_are_left_out() {
    let srt = "1\n00:00:01,000 --> 00:00:02,000\n<i> </i>\n\n2\n00:00:03,000 --> 00:00:04,000\n  là  \n";
    let cues = parse_srt(srt).unwrap();
    assert_eq!(cues.len(), 1);
    assert_eq!(cues[0].text, "là");
    let vtt = "WEBVTT\n\n00:01.000 --> 00:02.000\n<b></b>\n\n00:03.000 --> 00:04.000\n ici \n";
    let cues = parse_vtt(vtt).unwrap();
    assert_eq!(cues.len(), 1);
    assert_eq!(cues[0].text, "ici");
    let ass = "[Events]\nDialogue: 0,0:00:01.00,0:00:02.00,D,,0,0,0,,{\\i1} \nDialogue: 0,0:00:03.00,0:00:04.00,D,,0,0,0,, oui \n";
    let cues = parse_ass(ass).unwrap();
    assert_eq!(cues.len(), 1);
    assert_eq!(cues[0].text, "oui");
}

#[test]
fn a_cue_is_kept_once_wherever_it_stands() {
    let mut t = SubtitleTrack::default();
    t.insert(SubtitleCue::plain(0, 1, "X".into()));
    t.insert(SubtitleCue::plain(0, 1, "Y".into()));
    t.insert(SubtitleCue::plain(0, 1, "X".into()));
    assert_eq!(t.len(), 2);
    assert_eq!(t.query(0).as_deref(), Some("X\nY"));
    t.insert(SubtitleCue::plain(0, 2, "X".into()));
    assert_eq!(t.len(), 3);
}

#[test]
fn a_long_cue_is_shown_behind_many_short_ones() {
    let mut t = SubtitleTrack::default();
    t.insert(SubtitleCue::plain(0, 100, "L".into()));
    for i in 1..=8 {
        t.insert(SubtitleCue::plain(i, i + 1, "s".into()));
    }
    assert_eq!(t.query(50).as_deref(), Some("L"));
    assert_eq!(t.query(8).as_deref(), Some("L\ns"));
    assert_eq!(t.query(100), None);
    let style = CueStyle { align: 8, bold: false, italic: true, color: None };
    let mut t = SubtitleTrack::default();
    t.insert(SubtitleCue { start_us: 0, end_us: 100, text: "L".into(), style });
    for i in 1..=20 {
        t.insert(SubtitleCue::plain(i, i + 1, "s".into()));
    }
    assert!(t.query_style(50) == style);
}

#[test]
fn unknown_tags_hide_no_known_ones() {
    let plain = CueStyle { align: 2, bold: false, italic: false, color: None };
    let bold = CueStyle { bold: true, ..plain };
    assert!(parse_ass_style("{\\bord2\\b1}x") == bold);
    assert!(parse_ass_style("{\\blur3\\be1\\b700}x") == bold);
    assert!(parse_ass_style("{\\iclip(1,2,3,4)\\i1}x") == CueStyle { italic: true, ..plain });
    assert!(parse_ass_style("{\\alpha&H80&\\a6}x") == CueStyle { align: 8, ..plain });
    assert!(parse_ass_style("{\\b\\b1}x") == bold);
    assert!(parse_ass_style("{\\bord2}{\\b1}x") == bold);
    assert!(parse_ass_style("{\\b0\\b1}x") == plain);
    assert!(parse_ass_style("{\\bord2}x") == plain);
}
