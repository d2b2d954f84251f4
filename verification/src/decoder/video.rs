//! Decoded pictures: which filters they pass, and how they become RGBA.

use super::audio_filter::{push_filter, time_base_text, write_time_base};
use super::time::{Rational, timestamp_to_us, ts_to_us};
use crate::number::{decimal, write_decimal, write_padded, zero_padded};
use crate::player::clock::{saturate, saturated};
use crate::player::state::SharedState;
use crate::subtitles::bitmap::{composited_at, fits_in};
use crate::text::{from_chars, join, push_all, push_text, same_str, to_chars};
use crate::video::VideoFrameData;
use std::sync::Arc;
use vstd::prelude::*;

verus! {

// ---- Messages --------------------------------------------------------------

/// What the video decoder hands to the presenter.
#[derive(Debug)]
pub enum VideoFrameMsg {
    /// A picture, with the number of seeks before it.
    Frame { frame: Arc<VideoFrameData>, generation: u64 },
    /// There is no more picture.
    Eof,
}

/// A message to a decoder.
#[derive(Debug, Clone, Copy, PartialEq, Eq, Structural)]
pub enum DecoderMessage {
    /// A packet, with the number of seeks before it.
    Packet { generation: u64 },
    /// A stream to decode, which is opened: `opened` says whether it could be.
    Reconfigure { opened: bool },
    /// Forget what is held.
    Flush,
    /// There is no more packet.
    Eof,
}

/// What a decoder does with a message.
#[derive(Debug, Clone, Copy, PartialEq, Eq, Structural)]
pub enum DecoderStep {
    /// Nothing.
    Skip,
    /// Use the new decoder, and drop the converters of the old one.
    Adopt,
    /// Report that the decoder cannot be opened.
    Report,
    /// Flush the decoder.
    Flush,
    /// Hand the packet over and take what comes out.
    Decode,
    /// Take all that is left in the decoder, and say that it is the end.
    Drain,
    /// Say that it is the end.
    Finish,
}

/// What a decoder does with a message. A packet from before a seek is dropped.
pub open spec fn decoder_step_spec(
    has_decoder: bool,
    current_generation: u64,
    message: DecoderMessage,
) -> DecoderStep {
    match message {
        DecoderMessage::Packet { generation } => if generation == current_generation
            && has_decoder {
            DecoderStep::Decode
        } else {
            DecoderStep::Skip
        },
        DecoderMessage::Reconfigure { opened } => if opened {
            DecoderStep::Adopt
        } else {
            DecoderStep::Report
        },
        DecoderMessage::Flush => if has_decoder {
            DecoderStep::Flush
        } else {
            DecoderStep::Skip
        },
        DecoderMessage::Eof => if has_decoder {
            DecoderStep::Drain
        } else {
            DecoderStep::Finish
        },
    }
}

/// What the video decoder does with a message.
pub fn run_video_decoder(
    has_decoder: bool,
    current_generation: u64,
    message: DecoderMessage,
) -> (step: DecoderStep)
    ensures
        step == decoder_step_spec(has_decoder, current_generation, message),
{
    match message {
        DecoderMessage::Packet { generation } => if generation == current_generation
            && has_decoder {
            DecoderStep::Decode
        } else {
            DecoderStep::Skip
        },
        DecoderMessage::Reconfigure { opened } => if opened {
            DecoderStep::Adopt
        } else {
            DecoderStep::Report
        },
        DecoderMessage::Flush => if has_decoder {
            DecoderStep::Flush
        } else {
            DecoderStep::Skip
        },
        DecoderMessage::Eof => if has_decoder {
            DecoderStep::Drain
        } else {
            DecoderStep::Finish
        },
    }
}

/// Packets from before a seek are never decoded.
pub proof fn law_stale_packets_are_skipped(has_decoder: bool, current: u64, generation: u64)
    requires
        generation != current,
    ensures
        decoder_step_spec(has_decoder, current, DecoderMessage::Packet { generation })
            == DecoderStep::Skip,
{
}

/// Whether a picture or a sound is still worth handing over: the session goes
/// on, and nobody has sought meanwhile.
pub fn still_wanted(shared: &SharedState, generation: u64) -> (r: bool)
    ensures
        r == (!shared.stop && generation == shared.generation),
{
    !shared.should_stop() && generation == shared.current_generation()
}

/// Reports that a decoder cannot be opened.
pub fn report_video_decoder(shared: &mut SharedState, reason: &str)
    ensures
        final(shared).error matches Some(e) && e@ == "décodeur vidéo indisponible : "@ + reason@,
        *final(shared) == (SharedState { error: final(shared).error, ..*old(shared) }),
{
    let mut text = to_chars("décodeur vidéo indisponible : ");
    push_text(&mut text, reason);
    shared.set_error(from_chars(&text));
}

// ---- Filters ---------------------------------------------------------------

/// A number of thousandths, with three decimals.
pub open spec fn milli_text(n: int) -> Seq<char> {
    let sign = if n < 0 {
        seq!['-']
    } else {
        seq![]
    };
    let m = if n < 0 {
        -n
    } else {
        n
    };
    sign + decimal((m / 1000) as nat) + seq!['.'] + zero_padded(decimal((m % 1000) as nat), 3)
}

/// The filters that a picture has to pass.
pub open spec fn picture_filters(
    rotation: u8,
    brightness: i32,
    contrast: i32,
    saturation: i32,
    deinterlace: bool,
    interlaced: bool,
) -> Seq<Seq<char>> {
    let first = if deinterlace && (interlaced || rotation != 0) {
        seq!["yadif=mode=0:parity=-1:deint=1"@]
    } else {
        seq![]
    };
    let second = if rotation == 1 {
        seq!["transpose=1"@]
    } else if rotation == 2 {
        seq!["transpose=1,transpose=1"@]
    } else if rotation == 3 {
        seq!["transpose=2"@]
    } else {
        seq![]
    };
    let third = if brightness != 0 || contrast != 1000 || saturation != 1000 {
        seq![
            "eq=brightness="@ + milli_text(brightness as int) + ":contrast="@ + milli_text(
                contrast as int,
            ) + ":saturation="@ + milli_text(saturation as int),
        ]
    } else {
        seq![]
    };
    first + second + third
}

/// The filters that enhance a picture: gamma, noise and sharpness. Those that are
/// neutral are left out.
pub open spec fn enhance_filters(gamma: i32, sharpen: i32, denoise: i32) -> Seq<Seq<char>> {
    let first = if gamma != 1000 {
        seq!["eq=gamma="@ + milli_text(gamma as int)]
    } else {
        seq![]
    };
    let second = if denoise != 0 {
        seq!["hqdn3d=luma_spatial="@ + milli_text(denoise as int)]
    } else {
        seq![]
    };
    let third = if sharpen != 0 {
        seq!["unsharp=luma_amount="@ + milli_text(sharpen as int)]
    } else {
        seq![]
    };
    first + second + third
}

/// A number of thousandths, with three decimals.
fn write_milli(n: i32) -> (r: Vec<char>)
    ensures
        r@ == milli_text(n as int),
{
    let m: u64 = if n < 0 {
        (0i64 - n as i64) as u64
    } else {
        n as u64
    };
    let mut r: Vec<char> = Vec::new();
    if n < 0 {
        r.push('-');
    }
    let whole = write_decimal(m / 1000);
    push_all(&mut r, &whole);
    r.push('.');
    let rest = write_padded(m % 1000, 3);
    push_all(&mut r, &rest);
    assert(r@ =~= milli_text(n as int));
    r
}

/// The filters that a picture has to pass: deinterlacing, rotation (in quarter
/// turns) and adjustments (in thousandths). None where it needs no filter.
pub fn filter_spec(
    rotation: u8,
    brightness_milli: i32,
    contrast_milli: i32,
    saturation_milli: i32,
    deint_enabled: bool,
    interlaced: bool,
) -> (r: Option<String>)
    ensures
        ({
            let filters = picture_filters(
                rotation,
                brightness_milli,
                contrast_milli,
                saturation_milli,
                deint_enabled,
                interlaced,
            );
            match r {
                Some(spec) => filters.len() > 0 && spec@ == join(filters, ","@),
                None => filters.len() == 0,
            }
        }),
{
    let mut out: Vec<char> = Vec::new();
    let mut any: bool = false;
    let ghost mut filters: Seq<Seq<char>> = seq![];
    if deint_enabled && (interlaced || rotation != 0) {
        let f = to_chars("yadif=mode=0:parity=-1:deint=1");
        push_filter(&mut out, any, &f, Ghost(filters));
        any = true;
        proof {
            filters = filters.push(f@);
        }
    }
    if rotation == 1 || rotation == 2 || rotation == 3 {
        let f = if rotation == 1 {
            to_chars("transpose=1")
        } else if rotation == 2 {
            to_chars("transpose=1,transpose=1")
        } else {
            to_chars("transpose=2")
        };
        push_filter(&mut out, any, &f, Ghost(filters));
        any = true;
        proof {
            filters = filters.push(f@);
        }
    }
    if brightness_milli != 0 || contrast_milli != 1000 || saturation_milli != 1000 {
        let mut f = to_chars("eq=brightness=");
        let b = write_milli(brightness_milli);
        push_all(&mut f, &b);
        push_text(&mut f, ":contrast=");
        let c = write_milli(contrast_milli);
        push_all(&mut f, &c);
        push_text(&mut f, ":saturation=");
        let s = write_milli(saturation_milli);
        push_all(&mut f, &s);
        push_filter(&mut out, any, &f, Ghost(filters));
        any = true;
        proof {
            filters = filters.push(f@);
        }
    }
    assert(filters =~= picture_filters(
        rotation,
        brightness_milli,
        contrast_milli,
        saturation_milli,
        deint_enabled,
        interlaced,
    ));
    if any {
        Some(from_chars(&out))
    } else {
        None
    }
}

/// The filters that enhance a picture (in thousandths). None where all are
/// neutral.
pub fn enhance_spec(gamma_milli: i32, sharpen_milli: i32, denoise_milli: i32) -> (r: Option<String>)
    ensures
        ({
            let filters = enhance_filters(gamma_milli, sharpen_milli, denoise_milli);
            match r {
                Some(spec) => filters.len() > 0 && spec@ == join(filters, ","@),
                None => filters.len() == 0,
            }
        }),
{
    let mut out: Vec<char> = Vec::new();
    let mut any: bool = false;
    let ghost mut filters: Seq<Seq<char>> = seq![];
    if gamma_milli != 1000 {
        let mut f = to_chars("eq=gamma=");
        let n = write_milli(gamma_milli);
        push_all(&mut f, &n);
        push_filter(&mut out, any, &f, Ghost(filters));
        any = true;
        proof {
            filters = filters.push(f@);
        }
    }
    if denoise_milli != 0 {
        let mut f = to_chars("hqdn3d=luma_spatial=");
        let n = write_milli(denoise_milli);
        push_all(&mut f, &n);
        push_filter(&mut out, any, &f, Ghost(filters));
        any = true;
        proof {
            filters = filters.push(f@);
        }
    }
    if sharpen_milli != 0 {
        let mut f = to_chars("unsharp=luma_amount=");
        let n = write_milli(sharpen_milli);
        push_all(&mut f, &n);
        push_filter(&mut out, any, &f, Ghost(filters));
        any = true;
        proof {
            filters = filters.push(f@);
        }
    }
    assert(filters =~= enhance_filters(gamma_milli, sharpen_milli, denoise_milli));
    if any {
        Some(from_chars(&out))
    } else {
        None
    }
}

/// All the filters that a picture of a session has to pass.
pub open spec fn session_filters(shared: SharedState, deinterlace: bool, interlaced: bool) -> Seq<
    Seq<char>,
> {
    picture_filters(
        shared.rotation,
        shared.brightness_milli,
        shared.contrast_milli,
        shared.saturation_milli,
        deinterlace,
        interlaced,
    ) + enhance_filters(shared.gamma_milli, shared.sharpen_milli, shared.denoise_milli)
}

/// A progressive picture that is neither turned nor adjusted passes no filter,
/// and one that is interlaced is deinterlaced first, unless the user wants
/// otherwise.
pub proof fn law_progressive_pictures_pass_no_filter(shared: SharedState, deinterlace: bool)
    ensures
        shared.rotation == 0 && shared.brightness_milli == 0 && shared.contrast_milli == 1000
            && shared.saturation_milli == 1000 && shared.gamma_milli == 1000
            && shared.sharpen_milli == 0 && shared.denoise_milli == 0 ==> session_filters(
            shared,
            deinterlace,
            false,
        ).len() == 0,
        session_filters(shared, true, true).len() > 0,
        session_filters(shared, true, true)[0] == "yadif=mode=0:parity=-1:deint=1"@,
{
}

/// Filters after filters.
proof fn lemma_join_append(a: Seq<Seq<char>>, b: Seq<Seq<char>>)
    requires
        a.len() > 0,
        b.len() > 0,
    ensures
        join(a + b, ","@) == join(a, ","@) + ","@ + join(b, ","@),
    decreases b.len(),
{
    let less = b.drop_last();
    assert((a + b).drop_last() =~= a + less);
    assert((a + b).last() == b.last());
    if less.len() == 0 {
        assert(a + less =~= a);
        assert(join(b, ","@) =~= b[0]);
        assert(join(a + b, ","@) =~= join(a, ","@) + ","@ + b[0]);
    } else {
        lemma_join_append(a, less);
        assert(join(a + b, ","@) =~= join(a, ","@) + ","@ + join(b, ","@));
    }
}

/// All the filters that a picture of a session has to pass. None where it needs no
/// filter.
pub fn session_filter_spec(shared: &SharedState, deint_enabled: bool, interlaced: bool) -> (r:
    Option<String>)
    ensures
        ({
            let filters = session_filters(*shared, deint_enabled, interlaced);
            match r {
                Some(spec) => filters.len() > 0 && spec@ == join(filters, ","@),
                None => filters.len() == 0,
            }
        }),
{
    let first = filter_spec(
        shared.rotation,
        shared.brightness_milli,
        shared.contrast_milli,
        shared.saturation_milli,
        deint_enabled,
        interlaced,
    );
    let second = enhance_spec(shared.gamma_milli, shared.sharpen_milli, shared.denoise_milli);
    let ghost a = picture_filters(
        shared.rotation,
        shared.brightness_milli,
        shared.contrast_milli,
        shared.saturation_milli,
        deint_enabled,
        interlaced,
    );
    let ghost b = enhance_filters(shared.gamma_milli, shared.sharpen_milli, shared.denoise_milli);
    match (first, second) {
        (Some(x), Some(y)) => {
            proof {
                lemma_join_append(a, b);
            }
            let mut out = to_chars(x.as_str());
            push_text(&mut out, ",");
            push_text(&mut out, y.as_str());
            Some(from_chars(&out))
        },
        (Some(x), None) => {
            assert(a + b =~= a);
            Some(x)
        },
        (None, Some(y)) => {
            assert(a + b =~= b);
            Some(y)
        },
        (None, None) => None,
    }
}

/// The arguments of the source of a video graph. A pixel aspect without a
/// positive part is taken as one.
pub fn video_source_args(
    width: u32,
    height: u32,
    format: &str,
    base: Rational,
    aspect: Rational,
) -> (r: String)
    ensures
        r@ == "video_size="@ + decimal(width as nat) + "x"@ + decimal(height as nat) + ":pix_fmt="@
            + format@ + ":time_base="@ + time_base_text(base) + ":pixel_aspect="@ + time_base_text(
            aspect,
        ),
{
    let mut out = to_chars("video_size=");
    let w = write_decimal(width as u64);
    push_all(&mut out, &w);
    push_text(&mut out, "x");
    let h = write_decimal(height as u64);
    push_all(&mut out, &h);
    push_text(&mut out, ":pix_fmt=");
    push_text(&mut out, format);
    push_text(&mut out, ":time_base=");
    let b = write_time_base(base);
    push_all(&mut out, &b);
    push_text(&mut out, ":pixel_aspect=");
    let a = write_time_base(aspect);
    push_all(&mut out, &a);
    from_chars(&out)
}

/// What a video graph was built for.
#[derive(Debug)]
pub struct VideoGraphKey {
    pub spec: String,
    /// The number of the pixel format.
    pub format: i32,
    pub width: u32,
    pub height: u32,
}

/// Whether a graph has to be built anew: the filters, the format or the size
/// have changed.
pub fn video_graph_is_stale(
    built: &Option<VideoGraphKey>,
    spec: &str,
    format: i32,
    width: u32,
    height: u32,
) -> (r: bool)
    ensures
        r == !(built matches Some(key) && key.spec@ == spec@ && key.format == format && key.width
            == width && key.height == height),
{
    match built {
        Some(key) => {
            let wanted = to_chars(spec);
            !(same_str(key.spec.as_str(), &wanted) && key.format == format && key.width == width
                && key.height == height)
        },
        None => true,
    }
}

/// What a converter to RGBA was made for.
#[derive(Debug, Clone, Copy, PartialEq, Eq, Structural)]
pub struct ScalerKey {
    /// The number of the pixel format.
    pub format: i32,
    pub width: u32,
    pub height: u32,
}

/// Whether a converter has to be made anew: the format or the size has changed.
pub fn scaler_is_stale(made: Option<ScalerKey>, wanted: ScalerKey) -> (r: bool)
    ensures
        r == (made != Some(wanted)),
{
    match made {
        Some(key) => !(key == wanted),
        None => true,
    }
}

// ---- Colours ---------------------------------------------------------------

/// The colour spaces that a decoder reports.
#[derive(Debug, Clone, Copy, PartialEq, Eq, Structural)]
pub enum ColorSpace {
    Bt709,
    Bt2020,
    Fcc,
    Smpte240m,
    Bt601,
    Unknown,
}

/// The conversion that a colour space calls for: where it is unknown, standard
/// definition is BT.601 and the rest is BT.709.
pub open spec fn conversion(space: ColorSpace, height: u32) -> ColorSpace {
    match space {
        ColorSpace::Unknown => if height <= 576 {
            ColorSpace::Bt601
        } else {
            ColorSpace::Bt709
        },
        s => s,
    }
}

/// The conversion that a colour space calls for.
pub fn conversion_for(space: ColorSpace, height: u32) -> (r: ColorSpace)
    ensures
        r == conversion(space, height),
        r != ColorSpace::Unknown,
{
    match space {
        ColorSpace::Unknown => if height <= 576 {
            ColorSpace::Bt601
        } else {
            ColorSpace::Bt709
        },
        s => s,
    }
}

// ---- Pictures --------------------------------------------------------------

/// The greatest width and height of a picture.
pub const MAX_DIMENSION: u32 = 16_384;

/// Why a picture is not converted.
#[derive(Debug, Clone, Copy, PartialEq, Eq, Structural)]
pub enum PictureError {
    /// It has no rows or no columns.
    Empty,
    /// It is too large.
    TooLarge,
}

/// Whether a picture of this size is converted.
pub open spec fn size_verdict(width: u32, height: u32) -> Result<(), PictureError> {
    if width == 0 || height == 0 {
        Err(PictureError::Empty)
    } else if width > MAX_DIMENSION || height > MAX_DIMENSION {
        Err(PictureError::TooLarge)
    } else {
        Ok(())
    }
}

/// Whether a picture of this size is converted. A file may announce any size:
/// one that would take too much memory is refused.
pub fn check_size(width: u32, height: u32) -> (r: Result<(), PictureError>)
    ensures
        r == size_verdict(width, height),
{
    if width == 0 || height == 0 {
        Err(PictureError::Empty)
    } else if width > MAX_DIMENSION || height > MAX_DIMENSION {
        Err(PictureError::TooLarge)
    } else {
        Ok(())
    }
}

/// The rows of a picture without the bytes between them: byte `k` stands in row
/// `k / row_len`.
pub open spec fn compacted(data: Seq<u8>, stride: int, row_len: int, rows: int) -> Seq<u8>
    decreases rows,
{
    if rows <= 0 {
        seq![]
    } else {
        compacted(data, stride, row_len, rows - 1) + data.subrange(
            (rows - 1) * stride,
            (rows - 1) * stride + row_len,
        )
    }
}

/// When a picture is shown: at its time or, without one, a thirtieth of a
/// second after the one before.
pub open spec fn picture_pts(
    timestamp: Option<i64>,
    pts: Option<i64>,
    base: Rational,
    last_us: i64,
) -> i64 {
    match timestamp {
        Some(t) => timestamp_to_us(t, base),
        None => match pts {
            Some(p) => timestamp_to_us(p, base),
            None => saturated(last_us + 33_333),
        },
    }
}

/// The pixels of a picture whose rows begin `stride` bytes apart.
fn compact_rows(data: &[u8], stride: usize, row_len: usize, rows: usize) -> (out: Vec<u8>)
    requires
        rows > 0 ==> (rows - 1) * stride + row_len <= data@.len(),
    ensures
        out@ == compacted(data@, stride as int, row_len as int, rows as int),
        out@.len() == row_len * rows,
{
    let have: usize = data.len();
    let mut out: Vec<u8> = Vec::new();
    let mut y: usize = 0;
    while y < rows
        invariant
            y <= rows,
            have == data@.len(),
            rows > 0 ==> (rows - 1) * stride + row_len <= have,
            out@ == compacted(data@, stride as int, row_len as int, y as int),
            out@.len() == row_len * y,
        decreases rows - y,
    {
        proof {
            assert(y * stride <= (rows - 1) * stride) by (nonlinear_arith)
                requires
                    y <= rows - 1,
                    stride >= 0,
            ;
        }
        let start: usize = y * stride;
        let ghost before = out@;
        let mut i: usize = 0;
        while i < row_len
            invariant
                i <= row_len,
                have == data@.len(),
                start + row_len <= have,
                out@ == before + data@.subrange(start as int, start + i),
            decreases row_len - i,
        {
            out.push(data[start + i]);
            assert(out@ =~= before + data@.subrange(start as int, start + i + 1));
            i = i + 1;
        }
        assert(row_len * (y + 1) == row_len * y + row_len) by (nonlinear_arith);
        y = y + 1;
    }
    out
}

/// Makes a picture of what the converter wrote: RGBA rows that begin `stride`
/// bytes apart.
pub fn convert_frame(
    width: u32,
    height: u32,
    data: &[u8],
    stride: usize,
    timestamp: Option<i64>,
    pts: Option<i64>,
    base: Rational,
    last_pts_us: &mut i64,
) -> (r: Result<VideoFrameData, PictureError>)
    requires
        size_verdict(width, height) is Ok ==> (height - 1) * stride + width * 4 <= data@.len(),
    ensures
        match r {
            Ok(frame) => {
                &&& size_verdict(width, height) is Ok
                &&& frame.width == width && frame.height == height
                &&& frame.pixels@ == compacted(
                    data@,
                    stride as int,
                    width * 4,
                    height as int,
                )
                &&& frame.pixels@.len() == width * height * 4
                &&& frame.pts_us == picture_pts(timestamp, pts, base, *old(last_pts_us))
                &&& frame.yuv is None
                &&& *final(last_pts_us) == frame.pts_us
            },
            Err(e) => size_verdict(width, height) == Err::<(), PictureError>(e)
                && *final(last_pts_us) == *old(last_pts_us),
        },
{
    match check_size(width, height) {
        Err(e) => return Err(e),
        Ok(()) => {},
    }
    let pixels = compact_rows(data, stride, width as usize * 4, height as usize);
    assert((width * 4) * height == width * height * 4) by (nonlinear_arith);
    let pts_us: i64 = match timestamp {
        Some(t) => ts_to_us(t, base),
        None => match pts {
            Some(p) => ts_to_us(p, base),
            None => saturate(*last_pts_us as i128 + 33_333),
        },
    };
    *last_pts_us = pts_us;
    Ok(VideoFrameData { width, height, pixels, pts_us, yuv: None })
}

/// Draws onto a picture the image subtitles that are shown with it, with the
/// user's delay.
pub fn composite_bitmap_subtitles(shared: &SharedState, frame: &mut VideoFrameData)
    requires
        forall|i: int|
            0 <= i < shared.bitmap_subtitles@.len() ==> fits_in(
                old(frame).pixels@.len() as int,
                old(frame).width as int,
                old(frame).height as int,
                #[trigger] shared.bitmap_subtitles@[i],
            ),
    ensures
        final(frame).pixels@ == composited_at(
            old(frame).pixels@,
            old(frame).width as int,
            old(frame).height as int,
            shared.bitmap_subtitles@,
            saturated(old(frame).pts_us - shared.subtitle_delay_us) as int,
        ),
        *final(frame) == (VideoFrameData { pixels: final(frame).pixels, ..*old(frame) }),
{
    if shared.bitmap_subtitles.is_empty() {
        return;
    }
    let t: i64 = saturate(frame.pts_us as i128 - shared.subtitle_delay_us as i128);
    let width: u32 = frame.width;
    let height: u32 = frame.height;
    shared.bitmap_subtitles.composite_active(&mut frame.pixels, width, height, t);
}

/// Where a picture goes once it is decoded.
#[derive(Debug)]
pub enum PicturePath {
    /// It is in the memory of the hardware and could not be fetched: drop it.
    Lost,
    /// Convert it as it is, and drop a graph that is no longer needed.
    Direct,
    /// Let it pass these filters; where they fail, convert it as it is.
    Filtered(String),
}

/// Where a picture goes once it is decoded: one in the memory of the hardware
/// is fetched first, which may fail, and passes the filters that it needs.
pub fn drain_frames(
    shared: &SharedState,
    in_hardware: bool,
    fetched: bool,
    deint_enabled: bool,
    interlaced: bool,
) -> (path: PicturePath)
    ensures
        ({
            let filters = session_filters(*shared, deint_enabled, interlaced);
            match path {
                PicturePath::Lost => in_hardware && !fetched,
                PicturePath::Direct => !(in_hardware && !fetched) && filters.len() == 0,
                PicturePath::Filtered(spec) => !(in_hardware && !fetched) && filters.len() > 0
                    && spec@ == join(filters, ","@),
            }
        }),
{
    if in_hardware && !fetched {
        return PicturePath::Lost;
    }
    match session_filter_spec(shared, deint_enabled, interlaced) {
        Some(spec) => PicturePath::Filtered(spec),
        None => PicturePath::Direct,
    }
}

// ---- Laws ------------------------------------------------------------------

/// A number of thousandths reads as its whole part, a point and three digits, with
/// a sign before it where it is negative.
pub proof fn law_thousandths_read_as_decimals(whole: nat, part: nat)
    requires
        part < 1000,
    ensures
        ({
            let text = decimal(whole) + seq!['.'] + zero_padded(decimal(part), 3);
            &&& milli_text((whole * 1000 + part) as int) == text
            &&& whole + part > 0 ==> milli_text(-(whole * 1000 + part)) == seq!['-'] + text
        }),
{
    let n = whole * 1000 + part;
    assert(n / 1000 == whole && n % 1000 == part);
    let none = Seq::<char>::empty();
    assert(none + decimal(whole) == decimal(whole));
    let text = decimal(whole) + seq!['.'] + zero_padded(decimal(part), 3);
    assert(milli_text(n as int) == text);
    if n > 0 {
        assert(milli_text(-n) == seq!['-'] + text);
    }
}

/// A picture is turned by quarters to the right, and only where that is asked.
pub proof fn law_rotation_turns_the_picture(rotation: u8, interlaced: bool)
    ensures
        ({
            let filters = picture_filters(rotation, 0, 1000, 1000, false, interlaced);
            &&& rotation == 1 ==> filters == seq!["transpose=1"@]
            &&& rotation == 2 ==> filters == seq!["transpose=1,transpose=1"@]
            &&& rotation == 3 ==> filters == seq!["transpose=2"@]
            &&& rotation == 0 || rotation > 3 ==> filters == Seq::<Seq<char>>::empty()
        }),
{
}

/// What is neutral passes no filter, and what is not passes one with its value;
/// noise is taken out before the picture is sharpened.
pub proof fn law_enhancements_pass_their_filters(gamma: i32, sharpen: i32, denoise: i32)
    ensures
        enhance_filters(1000, 0, 0) == Seq::<Seq<char>>::empty(),
        gamma != 1000 ==> enhance_filters(gamma, 0, 0) == seq![
            "eq=gamma="@ + milli_text(gamma as int),
        ],
        sharpen != 0 && denoise != 0 ==> enhance_filters(1000, sharpen, denoise) == seq![
            "hqdn3d=luma_spatial="@ + milli_text(denoise as int),
            "unsharp=luma_amount="@ + milli_text(sharpen as int),
        ],
        enhance_filters(gamma, sharpen, denoise).len() == (if gamma != 1000 {
            1int
        } else {
            0
        }) + (if sharpen != 0 {
            1int
        } else {
            0
        }) + (if denoise != 0 {
            1int
        } else {
            0
        }),
{
}

/// A colour space that is known is kept; else pictures of up to five hundred and
/// seventy-six rows are of standard definition.
pub proof fn law_unknown_colors_go_by_the_height(space: ColorSpace, height: u32)
    ensures
        space != ColorSpace::Unknown ==> conversion(space, height) == space,
        conversion(ColorSpace::Unknown, height) == ColorSpace::Bt601 <==> height <= 576,
        conversion(ColorSpace::Unknown, height) == ColorSpace::Bt709 <==> height > 576,
{
}

/// A picture is converted where it has pixels and no more than sixteen thousand
/// three hundred and eighty-four of them in a row or a column.
pub proof fn law_sizes_have_a_limit(width: u32, height: u32)
    ensures
        size_verdict(width, height) is Ok <==> 0 < width <= 16_384 && 0 < height <= 16_384,
        size_verdict(width, height) == Err::<(), PictureError>(PictureError::Empty) <==> width == 0
            || height == 0,
{
}

/// A row without the bytes between rows is the row that was given.
pub proof fn law_rows_are_kept(
    data: Seq<u8>,
    stride: int,
    row_len: int,
    rows: int,
    y: int,
    x: int,
)
    requires
        0 <= y < rows,
        0 <= x < row_len <= stride,
        (rows - 1) * stride + row_len <= data.len(),
    ensures
        compacted(data, stride, row_len, rows).len() == rows * row_len,
        0 <= y * row_len + x < rows * row_len,
        compacted(data, stride, row_len, rows)[y * row_len + x] == data[y * stride + x],
    decreases rows,
{
    let n = (rows - 1) * row_len;
    let last = data.subrange((rows - 1) * stride, (rows - 1) * stride + row_len);
    assert(0 <= (rows - 1) * stride) by (nonlinear_arith)
        requires
            0 < rows,
            0 <= stride,
    ;
    assert(rows * row_len == n + row_len && (rows - 2) * stride + row_len <= (rows - 1) * stride
        + row_len) by (nonlinear_arith)
        requires
            n == (rows - 1) * row_len,
            0 <= stride,
    ;
    assert(0 <= y * row_len && (y < rows - 1 ==> y * row_len + x < n)) by (nonlinear_arith)
        requires
            0 <= y < rows,
            0 <= x < row_len,
            n == (rows - 1) * row_len,
    ;
    if rows > 1 {
        let k = if y < rows - 1 {
            y
        } else {
            0
        };
        law_rows_are_kept(data, stride, row_len, rows - 1, k, x);
    } else {
        assert(n == 0) by (nonlinear_arith)
            requires
                n == (rows - 1) * row_len,
                rows == 1,
        ;
        assert(compacted(data, stride, row_len, 0) == Seq::<u8>::empty());
    }
    if y == rows - 1 {
        assert(last[x] == data[y * stride + x]);
    }
}

/// A picture without a time comes a thirtieth of a second after the one before.
pub proof fn law_pictures_follow_each_other(
    t: i64,
    base: Rational,
    last_us: i64,
    other: Option<i64>,
)
    requires
        last_us <= i64::MAX - 33_333,
    ensures
        picture_pts(None, None, base, last_us) - last_us == 33_333,
        picture_pts(Some(t), other, base, last_us) == timestamp_to_us(t, base),
        picture_pts(None, Some(t), base, last_us) == timestamp_to_us(t, base),
{
}

/// A packet of the present is decoded where there is a decoder; the end drains it, and
/// a flush empties it.
pub proof fn law_decoder_does_as_it_is_told(current: u64)
    ensures
        decoder_step_spec(true, current, DecoderMessage::Packet { generation: current })
            == DecoderStep::Decode,
        decoder_step_spec(false, current, DecoderMessage::Packet { generation: current })
            == DecoderStep::Skip,
        decoder_step_spec(true, current, DecoderMessage::Eof) == DecoderStep::Drain,
        decoder_step_spec(false, current, DecoderMessage::Eof) == DecoderStep::Finish,
        decoder_step_spec(true, current, DecoderMessage::Flush) == DecoderStep::Flush,
{
}

/// A picture is adjusted where its brightness, contrast or saturation is not the usual
/// one, by one filter with all three; it is deinterlaced first where it is interlaced or
/// turned, if that is wanted.
pub proof fn law_adjustments_pass_one_filter(
    rotation: u8,
    brightness: i32,
    contrast: i32,
    saturation: i32,
    interlaced: bool,
)
    ensures
        brightness != 0 || contrast != 1000 || saturation != 1000 ==> picture_filters(
            0,
            brightness,
            contrast,
            saturation,
            false,
            interlaced,
        ) == seq![
            "eq=brightness="@ + milli_text(brightness as int) + ":contrast="@ + milli_text(
                contrast as int,
            ) + ":saturation="@ + milli_text(saturation as int),
        ],
        interlaced || rotation != 0 ==> picture_filters(
            rotation,
            brightness,
            contrast,
            saturation,
            true,
            interlaced,
        ) == seq!["yadif=mode=0:parity=-1:deint=1"@] + picture_filters(
            rotation,
            brightness,
            contrast,
            saturation,
            false,
            interlaced,
        ),
        picture_filters(rotation, brightness, contrast, saturation, false, interlaced)
            == picture_filters(rotation, 0, 1000, 1000, false, interlaced) + picture_filters(
            0,
            brightness,
            contrast,
            saturation,
            false,
            interlaced,
        ),
        !interlaced ==> picture_filters(0, brightness, contrast, saturation, true, interlaced)
            == picture_filters(0, brightness, contrast, saturation, false, interlaced),
{
    let none = Seq::<Seq<char>>::empty();
    assert(none + none == none);
}

} // verus!
