//! What a container holds: its streams, its chapters, and a summary of it.

use super::time::{Rational, timestamp_to_us, ts_to_us};
use crate::number::{decimal, decimal_int, write_decimal, write_int};
use crate::player::state::{ChapterInfo, SharedState, Track, TrackInfo, opt_text};
use crate::text::{from_chars, join, push_all, push_text, to_chars};
use crate::utils::{format_time, time_text};
use vstd::prelude::*;

verus! {

/// The kinds of streams.
#[derive(Debug, Clone, Copy, PartialEq, Eq, Structural)]
pub enum Medium {
    Video,
    Audio,
    Subtitle,
    /// Data, attachments, and whatever else.
    Other,
}

/// A stream, as the container describes it.
#[derive(Debug)]
pub struct StreamInfo {
    /// Its place in the container.
    pub index: usize,
    pub medium: Medium,
    pub language: Option<String>,
    pub title: Option<String>,
    /// The name of the codec.
    pub codec: String,
    /// Whether it is a cover rather than a film.
    pub attached_picture: bool,
    /// Pictures per second.
    pub frame_rate: Rational,
}

/// A chapter, as the container describes it.
#[derive(Debug)]
pub struct ChapterEntry {
    pub start: i64,
    pub time_base: Rational,
    pub title: Option<String>,
}

/// The streams that are played.
#[derive(Debug, Clone, Copy, PartialEq, Eq, Structural)]
pub struct Selection {
    pub video: Option<usize>,
    pub audio: Option<usize>,
}

// ---- Tracks ----------------------------------------------------------------

/// The track that a stream is.
pub open spec fn track_of(s: StreamInfo) -> Track {
    Track {
        stream_index: s.index,
        language: opt_text(s.language),
        title: opt_text(s.title),
        codec: s.codec@,
    }
}

/// The tracks of a kind, in the order of the streams.
pub open spec fn tracks_of(streams: Seq<StreamInfo>, medium: Medium) -> Seq<Track>
    decreases streams.len(),
{
    if streams.len() == 0 {
        seq![]
    } else if streams.last().medium == medium {
        tracks_of(streams.drop_last(), medium).push(track_of(streams.last()))
    } else {
        tracks_of(streams.drop_last(), medium)
    }
}

/// The tracks that the elements of `v` stand for.
pub open spec fn tracks(v: Seq<TrackInfo>) -> Seq<Track> {
    Seq::new(v.len(), |i: int| v[i]@)
}

/// The stream with an index.
pub open spec fn stream_at(streams: Seq<StreamInfo>, index: usize) -> Option<StreamInfo>
    decreases streams.len(),
{
    if streams.len() == 0 {
        None
    } else if streams[0].index == index {
        Some(streams[0])
    } else {
        stream_at(streams.skip(1), index)
    }
}

/// A copy of a string that may be missing.
pub fn copied(s: &Option<String>) -> (r: Option<String>)
    ensures
        opt_text(r) == opt_text(*s),
{
    match s {
        Some(t) => Some(t.clone()),
        None => None,
    }
}

/// The tracks of a kind, in the order of the streams.
pub fn list_tracks(streams: &Vec<StreamInfo>, medium: Medium) -> (r: Vec<TrackInfo>)
    ensures
        tracks(r@) == tracks_of(streams@, medium),
{
    let mut out: Vec<TrackInfo> = Vec::new();
    let mut i: usize = 0;
    while i < streams.len()
        invariant
            i <= streams@.len(),
            tracks(out@) == tracks_of(streams@.take(i as int), medium),
        decreases streams@.len() - i,
    {
        let ghost before = tracks(out@);
        assert(streams@.take(i + 1).drop_last() == streams@.take(i as int));
        assert(streams@.take(i + 1).last() == streams@[i as int]);
        let s = &streams[i];
        if s.medium == medium {
            let track = TrackInfo {
                stream_index: s.index,
                language: copied(&s.language),
                title: copied(&s.title),
                codec: s.codec.clone(),
            };
            assert(track@ =~= track_of(streams@[i as int]));
            out.push(track);
            assert(tracks(out@) =~= before.push(track@));
        }
        i = i + 1;
    }
    assert(streams@.take(streams@.len() as int) == streams@);
    out
}

/// The place at which the stream with an index stands in the list.
fn find_stream(streams: &Vec<StreamInfo>, index: usize) -> (r: Option<usize>)
    ensures
        r matches Some(i) ==> i < streams@.len() && stream_at(streams@, index) == Some(
            streams@[i as int],
        ),
        r is None ==> stream_at(streams@, index) is None,
{
    let mut i: usize = 0;
    assert(streams@.skip(0) == streams@);
    while i < streams.len()
        invariant
            i <= streams@.len(),
            stream_at(streams@, index) == stream_at(streams@.skip(i as int), index),
        decreases streams@.len() - i,
    {
        assert(streams@.skip(i as int).skip(1) == streams@.skip(i + 1));
        assert(streams@.skip(i as int)[0] == streams@[i as int]);
        if streams[i].index == index {
            return Some(i);
        }
        i = i + 1;
    }
    None
}

// ---- Selection -------------------------------------------------------------

/// The streams to play: the best video, unless it is a cover, and the best
/// audio, where there is an output for it.
pub open spec fn selected_streams(
    streams: Seq<StreamInfo>,
    best_video: Option<usize>,
    best_audio: Option<usize>,
    audio_enabled: bool,
) -> Selection {
    Selection {
        video: match best_video {
            Some(i) => match stream_at(streams, i) {
                Some(s) => if s.attached_picture {
                    None
                } else {
                    Some(i)
                },
                None => None,
            },
            None => None,
        },
        audio: if audio_enabled {
            best_audio
        } else {
            None
        },
    }
}

/// How long a picture of the video stream is shown, if its rate is known.
pub open spec fn picture_us(streams: Seq<StreamInfo>, video: Option<usize>) -> Option<int> {
    match video {
        None => None,
        Some(i) => match stream_at(streams, i) {
            Some(s) => if s.frame_rate.num > 0 && s.frame_rate.den > 0 {
                Some(s.frame_rate.den * 1_000_000 / s.frame_rate.num as int)
            } else {
                None
            },
            None => None,
        },
    }
}

/// What chapters are called: their title, or their number.
pub open spec fn chapter_title(c: ChapterEntry, i: int) -> Seq<char> {
    match c.title {
        Some(t) => t@,
        None => "Chapitre "@ + decimal((i + 1) as nat),
    }
}

/// Whether the chapters of a list are those that the container describes.
pub open spec fn are_chapters(v: Seq<ChapterInfo>, given: Seq<ChapterEntry>) -> bool {
    &&& v.len() == given.len()
    &&& forall|i: int|
        0 <= i < v.len() ==> (#[trigger] v[i]).start_us == timestamp_to_us(
            given[i].start,
            given[i].time_base,
        ) && v[i].title@ == chapter_title(given[i], i)
}

/// The chapters that a container describes.
pub fn list_chapters(given: &Vec<ChapterEntry>) -> (r: Vec<ChapterInfo>)
    ensures
        are_chapters(r@, given@),
{
    let mut out: Vec<ChapterInfo> = Vec::new();
    let mut i: usize = 0;
    while i < given.len()
        invariant
            i <= given@.len(),
            out@.len() == i,
            forall|k: int|
                0 <= k < i ==> (#[trigger] out@[k]).start_us == timestamp_to_us(
                    given@[k].start,
                    given@[k].time_base,
                ) && out@[k].title@ == chapter_title(given@[k], k),
        decreases given@.len() - i,
    {
        let c = &given[i];
        let title = match &c.title {
            Some(t) => t.clone(),
            None => {
                let mut text = to_chars("Chapitre ");
                let number = write_decimal(i as u64 + 1);
                push_all(&mut text, &number);
                from_chars(&text)
            },
        };
        out.push(ChapterInfo { start_us: ts_to_us(c.start, c.time_base), title });
        i = i + 1;
    }
    out
}

/// The streams that are played: the best ones that the demuxer proposes, but no
/// cover, and no sound where there is no audio output.
pub fn select_streams(
    streams: &Vec<StreamInfo>,
    best_video: Option<usize>,
    best_audio: Option<usize>,
    audio_enabled: bool,
) -> (r: Selection)
    ensures
        r == selected_streams(streams@, best_video, best_audio, audio_enabled),
{
    let video: Option<usize> = match best_video {
        Some(i) => match find_stream(streams, i) {
            Some(k) => if streams[k].attached_picture {
                None
            } else {
                Some(i)
            },
            None => None,
        },
        None => None,
    };
    let audio: Option<usize> = if audio_enabled {
        best_audio
    } else {
        None
    };
    Selection { video, audio }
}

/// Takes stock of a container: which streams are played, and the lists of
/// tracks and chapters for the interface. The best streams are those that the
/// demuxer proposes. Where a picture's duration is unknown the one that stands
/// is kept.
pub fn discover_streams(
    shared: &mut SharedState,
    streams: &Vec<StreamInfo>,
    chapters: &Vec<ChapterEntry>,
    best_video: Option<usize>,
    best_audio: Option<usize>,
    audio_enabled: bool,
    media_info: String,
) -> (r: Selection)
    ensures
        r == selected_streams(streams@, best_video, best_audio, audio_enabled),
        tracks(final(shared).audio_tracks@) == tracks_of(streams@, Medium::Audio),
        tracks(final(shared).subtitle_tracks@) == tracks_of(streams@, Medium::Subtitle),
        are_chapters(final(shared).chapters@, chapters@),
        final(shared).frame_duration_us == (match picture_us(streams@, r.video) {
            Some(us) => us,
            None => old(shared).frame_duration_us as int,
        }),
        *final(shared) == (SharedState {
            has_video: r.video is Some,
            has_audio: r.audio is Some,
            audio_tracks: final(shared).audio_tracks,
            subtitle_tracks: final(shared).subtitle_tracks,
            chapters: final(shared).chapters,
            frame_duration_us: final(shared).frame_duration_us,
            media_info,
            ..*old(shared)
        }),
{
    let chosen = select_streams(streams, best_video, best_audio, audio_enabled);
    shared.has_video = chosen.video.is_some();
    shared.has_audio = chosen.audio.is_some();
    shared.audio_tracks = list_tracks(streams, Medium::Audio);
    shared.subtitle_tracks = list_tracks(streams, Medium::Subtitle);
    if let Some(i) = chosen.video {
        if let Some(k) = find_stream(streams, i) {
            let rate: Rational = streams[k].frame_rate;
            if rate.num > 0 && rate.den > 0 {
                let us: u64 = rate.den as u64 * 1_000_000 / rate.num as u64;
                assert(us <= rate.den * 1_000_000) by (nonlinear_arith)
                    requires
                        us == rate.den * 1_000_000 / (rate.num as int),
                        rate.num >= 1,
                        rate.den >= 0,
                ;
                shared.frame_duration_us = us as i64;
            }
        }
    }
    shared.chapters = list_chapters(chapters);
    shared.media_info = media_info;
    chosen
}

// ---- Summary ---------------------------------------------------------------

/// What is known of the video stream.
#[derive(Debug)]
pub struct VideoSummary {
    pub codec: String,
    pub width: i32,
    pub height: i32,
    /// The rate with two decimals, where it is known.
    pub frame_rate: Option<String>,
    /// Bits per second; zero or less where it is unknown.
    pub bit_rate: i64,
    /// The bit rate in millions, with one decimal.
    pub megabits: String,
    /// Whether the transfer function is PQ or HLG.
    pub hdr: bool,
}

/// What is known of the audio stream.
#[derive(Debug)]
pub struct AudioSummary {
    pub codec: String,
    pub channels: i32,
    pub sample_rate: i32,
    /// Bits per second; zero or less where it is unknown.
    pub bit_rate: i64,
    /// The bit rate in millions, with one decimal.
    pub megabits: String,
}

/// The text of a bit rate.
pub open spec fn bitrate_text(bits: int, megabits: Seq<char>) -> Seq<char> {
    if bits <= 0 {
        "débit inconnu"@
    } else if bits >= 1_000_000 {
        megabits + " Mb/s"@
    } else {
        decimal((bits / 1000) as nat) + " kb/s"@
    }
}

/// What a number of channels is called.
pub open spec fn channels_text(n: int) -> Seq<char> {
    if n == 1 {
        "mono"@
    } else if n == 2 {
        "stéréo"@
    } else if n == 6 {
        "5.1"@
    } else if n == 8 {
        "7.1"@
    } else {
        decimal_int(n) + " canaux"@
    }
}

/// The line about the video stream.
pub open spec fn video_line(v: VideoSummary) -> Seq<char> {
    let rate = match v.frame_rate {
        Some(r) => ", "@ + r@ + " i/s"@,
        None => seq![],
    };
    "Vidéo : "@ + v.codec@ + ", "@ + decimal_int(v.width as int) + "×"@ + decimal_int(
        v.height as int,
    ) + rate + ", "@ + bitrate_text(v.bit_rate as int, v.megabits@)
}

/// The line about the audio stream.
pub open spec fn audio_line(a: AudioSummary) -> Seq<char> {
    "Audio : "@ + a.codec@ + ", "@ + channels_text(a.channels as int) + ", "@ + decimal_int(
        a.sample_rate as int,
    ) + " Hz, "@ + bitrate_text(a.bit_rate as int, a.megabits@)
}

/// The lines about a medium.
pub open spec fn summary_lines(
    container: Seq<char>,
    video: Option<VideoSummary>,
    audio: Option<AudioSummary>,
    duration: int,
) -> Seq<Seq<char>> {
    let first = seq!["Conteneur : "@ + container];
    let second = match video {
        Some(v) => if v.hdr {
            seq![video_line(v), "Dynamique : HDR (PQ/HLG)"@]
        } else {
            seq![video_line(v)]
        },
        None => seq![],
    };
    let third = match audio {
        Some(a) => seq![audio_line(a)],
        None => seq![],
    };
    let fourth = if duration > 0 {
        seq!["Durée : "@ + time_text(duration)]
    } else {
        seq![]
    };
    first + second + third + fourth
}

/// Appends the text of a bit rate.
fn push_bitrate(out: &mut Vec<char>, bits: i64, megabits: &str)
    ensures
        final(out)@ == old(out)@ + bitrate_text(bits as int, megabits@),
{
    if bits <= 0 {
        push_text(out, "débit inconnu");
    } else if bits >= 1_000_000 {
        push_text(out, megabits);
        push_text(out, " Mb/s");
        assert(out@ =~= old(out)@ + (megabits@ + " Mb/s"@));
    } else {
        let n = write_decimal(bits as u64 / 1000);
        push_all(out, &n);
        push_text(out, " kb/s");
        assert(out@ =~= old(out)@ + (n@ + " kb/s"@));
    }
}

/// The text of a bit rate (zero or less where it is unknown), given in millions
/// with one decimal too.
pub fn fmt_bitrate(bits_per_sec: i64, megabits: &str) -> (r: String)
    ensures
        r@ == bitrate_text(bits_per_sec as int, megabits@),
{
    let mut out: Vec<char> = Vec::new();
    push_bitrate(&mut out, bits_per_sec, megabits);
    assert(out@ =~= bitrate_text(bits_per_sec as int, megabits@));
    from_chars(&out)
}

/// What a number of channels is called.
pub fn channel_label(channels: i32) -> (r: String)
    ensures
        r@ == channels_text(channels as int),
{
    if channels == 1 {
        "mono".to_owned()
    } else if channels == 2 {
        "stéréo".to_owned()
    } else if channels == 6 {
        "5.1".to_owned()
    } else if channels == 8 {
        "7.1".to_owned()
    } else {
        let mut out = write_int(channels as i64);
        push_text(&mut out, " canaux");
        from_chars(&out)
    }
}

/// Adds a line to a text that has some.
fn push_line(out: &mut Vec<char>, line: &[char], Ghost(lines): Ghost<Seq<Seq<char>>>)
    requires
        lines.len() > 0,
        old(out)@ == join(lines, "\n"@),
    ensures
        final(out)@ == join(lines.push(line@), "\n"@),
{
    push_text(out, "\n");
    push_all(out, line);
    assert(lines.push(line@).drop_last() == lines);
}

/// The line about the video stream.
fn write_video_line(v: &VideoSummary) -> (line: Vec<char>)
    ensures
        line@ == video_line(*v),
{
    let mut line = to_chars("Vidéo : ");
    push_text(&mut line, v.codec.as_str());
    push_text(&mut line, ", ");
    let w = write_int(v.width as i64);
    push_all(&mut line, &w);
    push_text(&mut line, "×");
    let h = write_int(v.height as i64);
    push_all(&mut line, &h);
    let ghost head = line@;
    if let Some(r) = &v.frame_rate {
        push_text(&mut line, ", ");
        push_text(&mut line, r.as_str());
        push_text(&mut line, " i/s");
        assert(line@ =~= head + (", "@ + r@ + " i/s"@));
    }
    push_text(&mut line, ", ");
    push_bitrate(&mut line, v.bit_rate, v.megabits.as_str());
    assert(line@ =~= video_line(*v));
    line
}

/// The line about the audio stream.
fn write_audio_line(a: &AudioSummary) -> (line: Vec<char>)
    ensures
        line@ == audio_line(*a),
{
    let mut line = to_chars("Audio : ");
    push_text(&mut line, a.codec.as_str());
    push_text(&mut line, ", ");
    push_text(&mut line, channel_label(a.channels).as_str());
    push_text(&mut line, ", ");
    let rate = write_int(a.sample_rate as i64);
    push_all(&mut line, &rate);
    push_text(&mut line, " Hz, ");
    push_bitrate(&mut line, a.bit_rate, a.megabits.as_str());
    line
}

/// What is known of a medium, line by line: its container, its streams and its
/// length.
pub fn build_media_info(
    container: &str,
    video: &Option<VideoSummary>,
    audio: &Option<AudioSummary>,
    duration_us: i64,
) -> (r: String)
    ensures
        r@ == join(summary_lines(container@, *video, *audio, duration_us as int), "\n"@),
{
    let mut out = to_chars("Conteneur : ");
    push_text(&mut out, container);
    let ghost mut ls: Seq<Seq<char>> = seq!["Conteneur : "@ + container@];
    if let Some(v) = video {
        let line = write_video_line(v);
        push_line(&mut out, &line, Ghost(ls));
        proof {
            ls = ls.push(line@);
        }
        if v.hdr {
            let hdr = to_chars("Dynamique : HDR (PQ/HLG)");
            push_line(&mut out, &hdr, Ghost(ls));
            proof {
                ls = ls.push(hdr@);
            }
        }
    }
    if let Some(a) = audio {
        let line = write_audio_line(a);
        push_line(&mut out, &line, Ghost(ls));
        proof {
            ls = ls.push(line@);
        }
    }
    if duration_us > 0 {
        let mut line = to_chars("Durée : ");
        push_text(&mut line, format_time(duration_us).as_str());
        push_line(&mut out, &line, Ghost(ls));
        proof {
            ls = ls.push(line@);
        }
    }
    assert(ls =~= summary_lines(container@, *video, *audio, duration_us as int));
    from_chars(&out)
}

// ---- Laws ------------------------------------------------------------------

/// The tracks of a kind are the streams of that kind, in their order, each with the
/// stream's index, language, title and codec.
pub proof fn law_tracks_are_the_streams_of_a_kind(a: Seq<StreamInfo>, s: StreamInfo, medium: Medium)
    ensures
        tracks_of(seq![], medium) == Seq::<Track>::empty(),
        s.medium != medium ==> tracks_of(a.push(s), medium) == tracks_of(a, medium),
        s.medium == medium ==> {
            let all = tracks_of(a.push(s), medium);
            &&& all.len() == tracks_of(a, medium).len() + 1
            &&& all.drop_last() == tracks_of(a, medium)
            &&& all.last().stream_index == s.index
            &&& all.last().language == opt_text(s.language)
            &&& all.last().title == opt_text(s.title)
            &&& all.last().codec == s.codec@
        },
{
    assert(a.push(s).drop_last() == a);
    if s.medium == medium {
        assert(tracks_of(a, medium).push(track_of(s)).drop_last() == tracks_of(a, medium));
    }
}

/// A stream with an index is one of the streams, and is found as soon as there is one.
pub proof fn law_stream_has_the_index(streams: Seq<StreamInfo>, index: usize, i: int)
    requires
        0 <= i < streams.len(),
    ensures
        streams[i].index == index ==> stream_at(streams, index) is Some,
        stream_at(streams, index) matches Some(s) ==> s.index == index && exists|k: int|
            0 <= k < streams.len() && #[trigger] streams[k] == s,
    decreases streams.len(),
{
    if streams[0].index == index {
        assert(streams[0] == stream_at(streams, index)->0);
    } else {
        let rest = streams.skip(1);
        if i > 0 {
            assert(rest[i - 1] == streams[i]);
            law_stream_has_the_index(rest, index, i - 1);
        } else if rest.len() > 0 {
            law_stream_has_the_index(rest, index, 0);
        }
        if let Some(s) = stream_at(rest, index) {
            let k = choose|k: int| 0 <= k < rest.len() && #[trigger] rest[k] == s;
            assert(streams[k + 1] == s);
        }
    }
}

/// The best streams are played, but a cover is no video, and without an output no
/// sound is played.
pub proof fn law_covers_are_not_played(
    streams: Seq<StreamInfo>,
    video: usize,
    audio: Option<usize>,
    s: StreamInfo,
)
    requires
        stream_at(streams, video) == Some(s),
    ensures
        s.attached_picture ==> selected_streams(streams, Some(video), audio, true).video is None,
        !s.attached_picture ==> selected_streams(streams, Some(video), audio, true).video == Some(
            video,
        ),
        selected_streams(streams, None, audio, true).video is None,
        selected_streams(streams, Some(video), audio, true).audio == audio,
        selected_streams(streams, Some(video), audio, false).audio is None,
{
}

/// A picture is shown for as long as its rate says, rounded down to a microsecond.
pub proof fn law_picture_lasts_as_its_rate_says(
    streams: Seq<StreamInfo>,
    video: usize,
    s: StreamInfo,
)
    requires
        stream_at(streams, video) == Some(s),
    ensures
        s.frame_rate.num > 0 && s.frame_rate.den > 0 ==> {
            &&& picture_us(streams, Some(video)) is Some
            &&& ({
                let us = picture_us(streams, Some(video))->0;
                us * s.frame_rate.num <= 1_000_000 * s.frame_rate.den < (us + 1) * s.frame_rate.num
            })
        },
        s.frame_rate.num <= 0 || s.frame_rate.den <= 0 ==> picture_us(streams, Some(video)) is None,
        picture_us(streams, None) is None,
{
    if s.frame_rate.num > 0 && s.frame_rate.den > 0 {
        let n = s.frame_rate.den * 1_000_000;
        let d = s.frame_rate.num as int;
        vstd::arithmetic::div_mod::lemma_fundamental_div_mod(n, d);
        vstd::arithmetic::div_mod::lemma_mod_bound(n, d);
        let q = n / d;
        assert(q * d <= n < (q + 1) * d) by (nonlinear_arith)
            requires
                n == d * q + n % d,
                0 <= n % d < d,
        ;
    }
}

/// A chapter is called by its title, or else by its number, the first being one.
pub proof fn law_chapters_are_numbered(c: ChapterEntry, i: int)
    requires
        0 <= i,
    ensures
        c.title matches Some(t) ==> chapter_title(c, i) == t@,
        c.title is None ==> chapter_title(c, i) == "Chapitre "@ + decimal((i + 1) as nat),
{
}

/// A bit rate below a million is shown in thousands, one from there on in millions,
/// and one that is not positive is unknown.
pub proof fn law_bit_rates_are_short(thousands: int, rest: int, megabits: Seq<char>)
    requires
        0 <= rest < 1000,
    ensures
        ({
            let bits = 1000 * thousands + rest;
            &&& 0 < bits && thousands < 1000 ==> bitrate_text(bits, megabits) == decimal(
                thousands as nat,
            ) + " kb/s"@
            &&& thousands >= 1000 ==> bitrate_text(bits, megabits) == megabits + " Mb/s"@
            &&& bits <= 0 ==> bitrate_text(bits, megabits) == "débit inconnu"@
        }),
{
}

/// The usual numbers of channels have names, and the others are named by their number.
pub proof fn law_channels_have_names(n: int)
    ensures
        channels_text(1) == "mono"@,
        channels_text(2) == "stéréo"@,
        channels_text(6) == "5.1"@,
        channels_text(8) == "7.1"@,
        n != 1 && n != 2 && n != 6 && n != 8 ==> channels_text(n) == decimal_int(n) + " canaux"@,
{
}

/// A medium is described by its container, then its picture, its sound and its length,
/// each where it is known; a high dynamic range is told below the picture.
pub proof fn law_summary_tells_what_is_known(
    container: Seq<char>,
    v: VideoSummary,
    a: AudioSummary,
    duration: int,
)
    requires
        duration > 0,
    ensures
        summary_lines(container, None, None, 0) == seq!["Conteneur : "@ + container],
        summary_lines(container, None, None, duration) == seq![
            "Conteneur : "@ + container,
            "Durée : "@ + time_text(duration),
        ],
        summary_lines(container, None, Some(a), 0) == seq![
            "Conteneur : "@ + container,
            audio_line(a),
        ],
        !v.hdr ==> summary_lines(container, Some(v), Some(a), 0) == seq![
            "Conteneur : "@ + container,
            video_line(v),
            audio_line(a),
        ],
        v.hdr ==> summary_lines(container, Some(v), None, 0) == seq![
            "Conteneur : "@ + container,
            video_line(v),
            "Dynamique : HDR (PQ/HLG)"@,
        ],
{
}

} // verus!
