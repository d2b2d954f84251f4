//! Decoded pictures: their pixels, screenshots and animated captures.

use crate::text::{from_chars, push_text, to_chars};
use vstd::arithmetic::div_mod::lemma_fundamental_div_mod_converse;
use vstd::prelude::*;

verus! {

/// The planes of a decoded picture, with what a shader needs to convert them.
#[derive(Debug)]
pub struct YuvFrame {
    pub width: u32,
    pub height: u32,
    pub y: Vec<u8>,
    pub u: Vec<u8>,
    pub v: Vec<u8>,
    pub y_stride: u32,
    pub uv_stride: u32,
    pub chroma_width: u32,
    pub chroma_height: u32,
    /// Bytes of a sample: 1 for 8 bits, 2 for 10 to 16 bits.
    pub bytes_per_sample: u32,
    /// 0 is BT.601, 1 is BT.709, 2 is BT.2020.
    pub matrix: u32,
    /// 0 is limited range, 1 is full range.
    pub full_range: u32,
    /// 0 is SDR, 1 is HDR PQ, 2 is HDR HLG.
    pub transfer: u32,
}

/// A decoded picture, as compact RGBA pixels.
#[derive(Debug)]
pub struct VideoFrameData {
    pub width: u32,
    pub height: u32,
    /// `width * height * 4` bytes.
    pub pixels: Vec<u8>,
    /// When it is shown, in media time (microseconds).
    pub pts_us: i64,
    /// The planes, where the GPU converts them.
    pub yuv: Option<YuvFrame>,
}

/// Why a capture failed.
#[derive(Debug, Clone, Copy, PartialEq, Eq, Structural)]
pub enum CaptureError {
    /// The picture has no rows or no columns.
    EmptyPicture,
    /// The pixels do not fill the picture, or are too many.
    PixelCount,
    /// The encoder failed.
    Encoder,
    /// There is no picture to encode.
    NoFrame,
}

// ---- Screenshots -----------------------------------------------------------

/// What `png::Encoder` writes for a picture of eight-bit RGBA pixels, where it
/// succeeds.
pub uninterp spec fn png_file(width: u32, height: u32, pixels: Seq<u8>) -> Option<Seq<u8>>;

/// The bytes with which every PNG file begins.
pub open spec fn png_signature() -> Seq<u8> {
    seq![137, 80, 78, 71, 13, 10, 26, 10]
}

/// `png::Encoder` (`write_header`, and `write_image_data` of its writer) with
/// eight-bit RGBA pixels: the file is a function of the picture, and named
/// here; it begins with the signature of the format.
#[verifier::external_body]
fn encode_png(width: u32, height: u32, pixels: &Vec<u8>) -> (r: Option<Vec<u8>>)
    requires
        pixels@.len() == width * height * 4,
    ensures
        r matches Some(file) ==> png_file(width, height, pixels@) == Some(file@) && file@.len() >= 8
            && file@.take(8) == png_signature(),
        r is None ==> png_file(width, height, pixels@) is None,
{
    let mut file = Vec::new();
    let mut encoder = png::Encoder::new(&mut file, width, height);
    encoder.set_color(png::ColorType::Rgba);
    encoder.set_depth(png::BitDepth::Eight);
    let mut writer = encoder.write_header().ok()?;
    writer.write_image_data(pixels).ok()?;
    drop(writer);
    Some(file)
}

/// The screenshot of a picture, as a PNG file.
pub open spec fn screenshot(width: u32, height: u32, pixels: Seq<u8>) -> Result<
    Seq<u8>,
    CaptureError,
> {
    if width == 0 || height == 0 {
        Err(CaptureError::EmptyPicture)
    } else if pixels.len() != width * height * 4 {
        Err(CaptureError::PixelCount)
    } else {
        match png_file(width, height, pixels) {
            Some(file) => Ok(file),
            None => Err(CaptureError::Encoder),
        }
    }
}

/// The screenshot of a picture, as a PNG file.
pub fn save_screenshot(frame: &VideoFrameData) -> (r: Result<Vec<u8>, CaptureError>)
    ensures
        match r {
            Ok(file) => screenshot(frame.width, frame.height, frame.pixels@) == Ok::<
                Seq<u8>,
                CaptureError,
            >(file@) && file@.len() >= 8 && file@.take(8) == png_signature(),
            Err(e) => screenshot(frame.width, frame.height, frame.pixels@) == Err::<
                Seq<u8>,
                CaptureError,
            >(e),
        },
{
    if frame.width == 0 || frame.height == 0 {
        return Err(CaptureError::EmptyPicture);
    }
    let have: u128 = frame.pixels.len() as u128;
    proof {
        assert(frame.width * frame.height <= 0xffff_ffff * 0xffff_ffff) by (nonlinear_arith)
            requires
                frame.width <= 0xffff_ffff,
                frame.height <= 0xffff_ffff,
        ;
    }
    if have != frame.width as u128 * frame.height as u128 * 4 {
        return Err(CaptureError::PixelCount);
    }
    match encode_png(frame.width, frame.height, &frame.pixels) {
        Some(file) => Ok(file),
        None => Err(CaptureError::Encoder),
    }
}

/// The name of a captured file.
pub fn capture_name(slug: &str, extension: &str) -> (r: String)
    ensures
        r@ == "oxiplay-"@ + slug@ + "."@ + extension@,
{
    let mut out = to_chars("oxiplay-");
    push_text(&mut out, slug);
    push_text(&mut out, ".");
    push_text(&mut out, extension);
    from_chars(&out)
}

// ---- Scaling ---------------------------------------------------------------

/// The row or column of a picture with `from` of them that stands for `t` of
/// `to`.
pub open spec fn sampled(t: int, from: int, to: int) -> int {
    t * from / to
}

/// Where the pixel for row `ty` and column `tx` stands in the source.
pub open spec fn sample_at(sw: int, sh: int, tw: int, th: int, tx: int, ty: int) -> int {
    (sampled(ty, sh, th) * sw + sampled(tx, sw, tw)) * 4
}

/// A picture scaled to `tw` by `th` pixels, each the one that is nearest in the
/// source. Where the source has no such pixel it is transparent black.
pub open spec fn downscaled(src: Seq<u8>, sw: int, sh: int, tw: int, th: int) -> Seq<u8> {
    Seq::new(
        (tw * th * 4) as nat,
        |k: int|
            {
                let at = sample_at(sw, sh, tw, th, (k / 4) % tw, (k / 4) / tw);
                if sw > 0 && sh > 0 && at + 4 <= src.len() {
                    src[at + k % 4]
                } else {
                    0u8
                }
            },
    )
}

/// Scales a picture of RGBA pixels.
pub fn downscale_rgba(src: &[u8], src_w: u32, src_h: u32, target_w: u32, target_h: u32) -> (out:
    Vec<u8>)
    requires
        target_w * target_h * 4 <= u32::MAX,
    ensures
        out@ == downscaled(
            src@,
            src_w as int,
            src_h as int,
            target_w as int,
            target_h as int,
        ),
{
    let ghost sw = src_w as int;
    let ghost sh = src_h as int;
    let ghost tw = target_w as int;
    let ghost th = target_h as int;
    let ghost want = downscaled(src@, sw, sh, tw, th);
    let mut out: Vec<u8> = Vec::new();
    proof {
        assert(tw * th >= 0) by (nonlinear_arith)
            requires
                tw >= 0,
                th >= 0,
        ;
    }
    let have: u128 = src.len() as u128;
    let mut ty: u32 = 0;
    assert(0 * tw == 0);
    while ty < target_h
        invariant
            ty <= target_h,
            tw * th * 4 <= u32::MAX,
            sw == src_w,
            sh == src_h,
            tw == target_w,
            th == target_h,
            have == src@.len(),
            want == downscaled(src@, sw, sh, tw, th),
            out@.len() == ty * tw * 4,
            out@.len() <= want.len(),
            forall|k: int| 0 <= k < out@.len() ==> #[trigger] out@[k] == want[k],
        decreases target_h - ty,
    {
        let mut tx: u32 = 0;
        while tx < target_w
            invariant
                ty < target_h,
                tx <= target_w,
                tw * th * 4 <= u32::MAX,
                sw == src_w,
                sh == src_h,
                tw == target_w,
                th == target_h,
                have == src@.len(),
                want == downscaled(src@, sw, sh, tw, th),
                out@.len() == (ty * tw + tx) * 4,
                forall|k: int| 0 <= k < out@.len() ==> #[trigger] out@[k] == want[k],
            decreases target_w - tx,
        {
            proof {
                lemma_sample(ty as int, sh, th);
                lemma_sample(tx as int, sw, tw);
                let sy = sampled(ty as int, sh, th);
                assert(0 <= sy * sw <= 0xffff_ffff * 0xffff_ffff) by (nonlinear_arith)
                    requires
                        0 <= sy <= 0xffff_ffff,
                        0 <= sw <= 0xffff_ffff,
                ;
                assert(ty * sh <= 0xffff_ffff * 0xffff_ffff && tx * sw <= 0xffff_ffff
                    * 0xffff_ffff) by (nonlinear_arith)
                    requires
                        ty <= 0xffff_ffff,
                        tx <= 0xffff_ffff,
                        0 <= sh <= 0xffff_ffff,
                        0 <= sw <= 0xffff_ffff,
                ;
                assert(ty * sh >= 0 && tx * sw >= 0) by (nonlinear_arith)
                    requires
                        0 <= sh,
                        0 <= sw,
                ;
            }
            let sy: u128 = ty as u128 * src_h as u128 / target_h as u128;
            let sx: u128 = tx as u128 * src_w as u128 / target_w as u128;
            let at: u128 = (sy * src_w as u128 + sx) * 4;
            assert(at == sample_at(sw, sh, tw, th, tx as int, ty as int));
            let ghost before = out@;
            let ghost p = ty * tw + tx;
            proof {
                assert(p == tw * ty + tx) by (nonlinear_arith)
                    requires
                        p == ty * tw + tx,
                ;
                lemma_fundamental_div_mod_converse(p, tw, ty as int, tx as int);
                assert(p < tw * th) by (nonlinear_arith)
                    requires
                        p == ty * tw + tx,
                        tx < tw,
                        ty + 1 <= th,
                ;
                assert forall|c: int| 0 <= c < 4 implies (p * 4 + c) / 4 == p && #[trigger] (p * 4
                    + c) % 4 == c by {}
            }
            if src_w > 0 && src_h > 0 && at + 4 <= have {
                let i: usize = at as usize;
                out.push(src[i]);
                out.push(src[i + 1]);
                out.push(src[i + 2]);
                out.push(src[i + 3]);
            } else {
                out.push(0);
                out.push(0);
                out.push(0);
                out.push(0);
            }
            proof {
                assert(want.len() == tw * th * 4);
                assert forall|k: int| 0 <= k < out@.len() implies #[trigger] out@[k] == want[k] by {
                    if k < before.len() {
                        assert(out@[k] == before[k]);
                    } else {
                        let c = k - p * 4;
                        assert(0 <= c < 4);
                        assert((p * 4 + c) % 4 == c);
                        assert((p * 4 + c) / 4 == p);
                    }
                }
            }
            tx = tx + 1;
        }
        proof {
            assert((ty * tw + tw) * 4 == (ty + 1) * tw * 4) by (nonlinear_arith);
            assert((ty + 1) * tw <= th * tw) by (nonlinear_arith)
                requires
                    ty + 1 <= th,
                    tw >= 0,
            ;
            assert(th * tw == tw * th) by (nonlinear_arith);
        }
        ty = ty + 1;
    }
    assert(target_h * tw == tw * th) by (nonlinear_arith)
        requires
            target_h == th,
    ;
    assert(out@ =~= want);
    out
}

/// A sample is a row or a column of the source.
pub proof fn lemma_sample(t: int, from: int, to: int)
    requires
        0 <= t < to,
        0 <= from,
    ensures
        0 <= sampled(t, from, to),
        from > 0 ==> sampled(t, from, to) < from,
        from == 0 ==> sampled(t, from, to) == 0,
{
    assert(0 <= t * from / to && (from > 0 ==> t * from / to < from) && (from == 0 ==> t * from / to
        == 0)) by (nonlinear_arith)
        requires
            0 <= t < to,
            0 <= from,
    ;
}

/// The widest picture of an animated capture.
pub const GIF_MAX_WIDTH: u32 = 480;

/// The greatest even number up to `n`, and two at least.
pub open spec fn even_up_to(n: int) -> int {
    if n > 2 {
        n - n % 2
    } else {
        2
    }
}

/// The size of an animated capture: wide pictures are reduced in proportion. The
/// width and the height are even.
pub open spec fn gif_dims(w: int, h: int) -> (int, int) {
    if w == 0 || h == 0 {
        (0, 0)
    } else if w <= GIF_MAX_WIDTH {
        (even_up_to(w), even_up_to(h))
    } else {
        (GIF_MAX_WIDTH as int, even_up_to(h * GIF_MAX_WIDTH / w))
    }
}

/// The greatest even number up to `n`, and two at least.
fn round_to_even(n: u32) -> (r: u32)
    ensures
        r == even_up_to(n as int),
{
    if n > 2 {
        n - n % 2
    } else {
        2
    }
}

/// The size of an animated capture of a picture.
pub fn gif_target_dims(src_w: u32, src_h: u32) -> (r: (u32, u32))
    ensures
        (r.0 as int, r.1 as int) == gif_dims(src_w as int, src_h as int),
{
    if src_w == 0 || src_h == 0 {
        return (0, 0);
    }
    if src_w <= GIF_MAX_WIDTH {
        return (round_to_even(src_w), round_to_even(src_h));
    }
    assert(0 <= src_h * GIF_MAX_WIDTH <= 0xffff_ffff * 0xffff_ffff) by (nonlinear_arith)
        requires
            0 <= src_h <= 0xffff_ffff,
            0 <= GIF_MAX_WIDTH <= 0xffff_ffff,
    ;
    let scaled: u64 = src_h as u64 * GIF_MAX_WIDTH as u64 / src_w as u64;
    assert(scaled <= src_h) by (nonlinear_arith)
        requires
            scaled == src_h as int * 480 / (src_w as int),
            src_w > 480,
            src_h >= 0,
    ;
    (GIF_MAX_WIDTH, round_to_even(scaled as u32))
}

/// An animated capture is no wider than its limit, and its width and height are
/// even and not zero.
pub proof fn law_gif_dims_are_bounded(w: int, h: int)
    requires
        0 < w,
        0 < h,
    ensures
        0 < gif_dims(w, h).0 <= GIF_MAX_WIDTH,
        w >= 2 ==> gif_dims(w, h).0 <= w,
        0 < gif_dims(w, h).1,
        gif_dims(w, h).0 % 2 == 0,
        gif_dims(w, h).1 % 2 == 0,
{
}

// ---- Animated captures -----------------------------------------------------

/// One picture of an animated capture.
#[derive(Debug)]
pub struct GifFrame {
    /// The colour of each pixel, as a place in the palette.
    pub indices: Vec<u8>,
    /// Red, green and blue of each colour.
    pub palette: Vec<u8>,
    /// The colour that is transparent.
    pub transparent: Option<u8>,
}

/// What `gif::Frame::from_rgba_speed` makes of a picture: the indices of its
/// pixels, its palette and its transparent colour.
pub uninterp spec fn quantized(width: u16, height: u16, rgba: Seq<u8>, speed: i32) -> (
    Seq<u8>,
    Seq<u8>,
    Option<u8>,
);

/// How fine the palettes are: 1 is finest, 30 is fastest.
pub const GIF_SPEED: i32 = 10;

/// `gif::Frame::from_rgba_speed`: reduces a picture to a palette. What comes out
/// is a function of the picture and the speed, and named here; there is an index
/// for each pixel, and there are 256 colours at most. It panics where the pixels do
/// not fill the picture or the speed is out of its range.
#[verifier::external_body]
fn quantize(width: u16, height: u16, rgba: Vec<u8>, speed: i32) -> (r: GifFrame)
    requires
        rgba@.len() == width * height * 4,
        1 <= speed <= 30,
    ensures
        (r.indices@, r.palette@, r.transparent) == quantized(width, height, rgba@, speed),
        r.indices@.len() == width * height,
        r.palette@.len() <= 768,
{
    let mut rgba = rgba;
    let frame = gif::Frame::from_rgba_speed(width, height, &mut rgba, speed);
    GifFrame {
        indices: frame.buffer.into_owned(),
        palette: frame.palette.unwrap_or_default(),
        transparent: frame.transparent,
    }
}

/// A `gif::Encoder`, which collects the bytes that it has written.
#[verifier::external_body]
pub struct GifWriter {
    encoder: gif::Encoder<Vec<u8>>,
}

/// The bytes that a `gif::Encoder` has written so far.
pub uninterp spec fn gif_written(writer: GifWriter) -> Seq<u8>;

/// What `gif::Encoder::write_frame` writes for a picture that is shown so long.
pub uninterp spec fn gif_block(
    width: u16,
    height: u16,
    delay_cs: u16,
    parts: (Seq<u8>, Seq<u8>, Option<u8>),
) -> Seq<u8>;

/// The two bytes of a number, the lower one first.
pub open spec fn le_pair(n: u16) -> Seq<u8> {
    seq![(n % 256) as u8, (n / 256) as u8]
}

/// The beginning of an animated file: its signature, the size of its pictures, an
/// empty global palette, which takes two colours.
pub open spec fn gif_head(width: u16, height: u16) -> Seq<u8> {
    seq![71u8, 73, 70, 56, 57, 97] + le_pair(width) + le_pair(height) + seq![
        128u8,
        0,
        0,
        0,
        0,
        0,
        0,
        0,
        0,
    ]
}

/// The part of an animated file that has it played in a loop for ever.
pub open spec fn gif_loop() -> Seq<u8> {
    seq![
        33u8,
        255,
        11,
        78,
        69,
        84,
        83,
        67,
        65,
        80,
        69,
        50,
        46,
        48,
        3,
        1,
        0,
        0,
        0,
    ]
}

/// `gif::Encoder::new` with no global palette, writing to memory, which never
/// fails: it has written the beginning of the file.
#[verifier::external_body]
fn new_gif(width: u16, height: u16) -> (r: Option<GifWriter>)
    ensures
        r is Some,
        gif_written(r->0) == gif_head(width, height),
{
    let encoder = gif::Encoder::new(Vec::new(), width, height, &[]).ok()?;
    Some(GifWriter { encoder })
}

/// `gif::Encoder::set_repeat` with `Repeat::Infinite`, which fails only where the
/// writer does: it has written the part that has the file played for ever.
#[verifier::external_body]
fn repeat_for_ever(writer: &mut GifWriter) -> (ok: bool)
    ensures
        ok,
        gif_written(*final(writer)) == gif_written(*old(writer)) + gif_loop(),
{
    writer.encoder.set_repeat(gif::Repeat::Infinite).is_ok()
}

/// `gif::Encoder::write_frame`: it has written the picture. It fails where there
/// are fewer indices than pixels or more than 256 colours, which is left out here,
/// and where the memory for the compressed picture cannot be had: lack of memory is
/// left aside, as everywhere.
#[verifier::external_body]
fn write_gif_frame(
    writer: &mut GifWriter,
    width: u16,
    height: u16,
    delay_cs: u16,
    frame: &GifFrame,
) -> (ok: bool)
    requires
        frame.indices@.len() == width * height,
        frame.palette@.len() <= 768,
    ensures
        ok,
        gif_written(*final(writer)) == gif_written(*old(writer)) + gif_block(
            width,
            height,
            delay_cs,
            (frame.indices@, frame.palette@, frame.transparent),
        ),
{
    let picture = gif::Frame {
        width,
        height,
        delay: delay_cs,
        buffer: std::borrow::Cow::Borrowed(&frame.indices),
        palette: Some(frame.palette.clone()),
        transparent: frame.transparent,
        ..gif::Frame::default()
    };
    writer.encoder.write_frame(&picture).is_ok()
}

/// `gif::Encoder::into_inner`, which fails only where the writer does: it gives
/// what was written, and the byte that ends the file.
#[verifier::external_body]
fn finish_gif(writer: GifWriter) -> (r: Option<Vec<u8>>)
    ensures
        r is Some,
        r->0@ == gif_written(writer).push(59),
{
    writer.encoder.into_inner().ok()
}

/// What is written for pictures.
pub open spec fn gif_blocks(frames: Seq<Vec<u8>>, width: u16, height: u16, delay_cs: u16) -> Seq<u8>
    decreases frames.len(),
{
    if frames.len() == 0 {
        seq![]
    } else {
        gif_blocks(frames.drop_last(), width, height, delay_cs) + gif_block(
            width,
            height,
            delay_cs,
            quantized(width, height, frames.last()@, GIF_SPEED),
        )
    }
}

/// The animated file of pictures.
pub open spec fn gif_file(frames: Seq<Vec<u8>>, width: u16, height: u16, delay_cs: u16) -> Seq<u8> {
    (gif_head(width, height) + gif_loop() + gif_blocks(frames, width, height, delay_cs)).push(59)
}

/// Makes an animated file of pictures of the same size, in RGBA, which is played
/// for ever. It fails only where there is no picture.
pub fn save_gif(frames: Vec<Vec<u8>>, w: u32, h: u32, delay_cs: u16) -> (r: Result<
    Vec<u8>,
    CaptureError,
>)
    requires
        forall|i: int|
            0 <= i < frames@.len() ==> (#[trigger] frames@[i])@.len() == (w % 65536) * (h % 65536)
                * 4,
    ensures
        match r {
            Ok(file) => frames@.len() > 0 && file@ == gif_file(
                frames@,
                (w % 65536) as u16,
                (h % 65536) as u16,
                delay_cs,
            ),
            Err(e) => frames@.len() == 0 && e == CaptureError::NoFrame,
        },
{
    if frames.len() == 0 {
        return Err(CaptureError::NoFrame);
    }
    let width: u16 = (w % 65536) as u16;
    let height: u16 = (h % 65536) as u16;
    let mut writer = match new_gif(width, height) {
        Some(e) => e,
        None => return Err(CaptureError::Encoder),
    };
    if !repeat_for_ever(&mut writer) {
        return Err(CaptureError::Encoder);
    }
    let ghost head = gif_head(width, height) + gif_loop();
    let n: usize = frames.len();
    let mut i: usize = 0;
    assert(head + gif_blocks(frames@.take(0), width, height, delay_cs) =~= head);
    while i < n
        invariant
            0 < n == frames@.len(),
            i <= n,
            width == w % 65536,
            height == h % 65536,
            gif_written(writer) == head + gif_blocks(
                frames@.take(i as int),
                width,
                height,
                delay_cs,
            ),
            forall|i: int|
                0 <= i < frames@.len() ==> (#[trigger] frames@[i])@.len() == (w % 65536) * (h
                    % 65536) * 4,
        decreases n - i,
    {
        let rgba = frames[i].clone();
        assert(rgba@ =~= frames@[i as int]@);
        let picture = quantize(width, height, rgba, GIF_SPEED);
        if !write_gif_frame(&mut writer, width, height, delay_cs, &picture) {
            return Err(CaptureError::Encoder);
        }
        assert(frames@.take(i + 1).drop_last() =~= frames@.take(i as int));
        assert(gif_written(writer) =~= head + gif_blocks(
            frames@.take(i + 1),
            width,
            height,
            delay_cs,
        ));
        i = i + 1;
    }
    assert(frames@.take(n as int) =~= frames@);
    match finish_gif(writer) {
        Some(file) => Ok(file),
        None => Err(CaptureError::Encoder),
    }
}

// ---- Laws ------------------------------------------------------------------

/// A pixel of a scaled picture is the source's pixel at the same place in
/// proportion, all four channels of it.
pub proof fn law_scaled_pixel_is_the_nearest(
    src: Seq<u8>,
    sw: int,
    sh: int,
    tw: int,
    th: int,
    tx: int,
    ty: int,
    sx: int,
    sy: int,
    ch: int,
)
    requires
        0 <= tx < tw,
        0 <= ty < th,
        0 < sw,
        0 < sh,
        0 <= ch < 4,
        src.len() == sw * sh * 4,
        sx * tw <= tx * sw < (sx + 1) * tw,
        sy * th <= ty * sh < (sy + 1) * th,
    ensures
        ({
            let out = downscaled(src, sw, sh, tw, th);
            let to = (ty * tw + tx) * 4 + ch;
            let from = (sy * sw + sx) * 4 + ch;
            &&& out.len() == tw * th * 4
            &&& 0 <= to < out.len()
            &&& 0 <= from < src.len()
            &&& out[to] == src[from]
        }),
{
    let to = (ty * tw + tx) * 4 + ch;
    let q = ty * tw + tx;
    assert(0 <= q && to < tw * th * 4 && 0 <= tw * th * 4) by (nonlinear_arith)
        requires
            0 <= tx < tw,
            0 <= ty < th,
            0 <= ch < 4,
            q == ty * tw + tx,
            to == (ty * tw + tx) * 4 + ch,
    ;
    assert(to / 4 == q && to % 4 == ch);
    assert(q == tw * ty + tx) by (nonlinear_arith)
        requires
            q == ty * tw + tx,
    ;
    vstd::arithmetic::div_mod::lemma_fundamental_div_mod_converse(q, tw, ty, tx);
    lemma_sampled(tx, sw, tw, sx);
    lemma_sampled(ty, sh, th, sy);
    let from = (sy * sw + sx) * 4;
    assert(0 <= from && from + 4 <= sw * sh * 4) by (nonlinear_arith)
        requires
            0 <= sx < sw,
            0 <= sy < sh,
            from == (sy * sw + sx) * 4,
    ;
}

/// The row or column that stands for another is the one that covers it.
proof fn lemma_sampled(t: int, from: int, to: int, s: int)
    requires
        0 <= t < to,
        0 < from,
        s * to <= t * from < (s + 1) * to,
    ensures
        sampled(t, from, to) == s,
        0 <= s < from,
{
    let n = t * from;
    let r = n - s * to;
    assert(n == to * s + r && 0 <= r < to) by (nonlinear_arith)
        requires
            s * to <= n < (s + 1) * to,
            r == n - s * to,
    ;
    vstd::arithmetic::div_mod::lemma_fundamental_div_mod_converse(n, to, s, r);
    assert(0 <= s) by (nonlinear_arith)
        requires
            0 <= t,
            0 < from,
            0 < to,
            t * from < (s + 1) * to,
    ;
    assert(s < from) by (nonlinear_arith)
        requires
            t < to,
            0 < from,
            0 < to,
            s * to <= t * from,
    ;
}

/// A picture that is scaled to its own size stays as it is.
pub proof fn law_own_size_changes_nothing(src: Seq<u8>, w: int, h: int)
    requires
        0 < w,
        0 < h,
        src.len() == w * h * 4,
    ensures
        downscaled(src, w, h, w, h) == src,
{
    let out = downscaled(src, w, h, w, h);
    assert(0 <= w * h * 4) by (nonlinear_arith)
        requires
            0 < w,
            0 < h,
    ;
    assert forall|k: int| 0 <= k < src.len() implies out[k] == src[k] by {
        let q = k / 4;
        let (x, y) = (q % w, q / w);
        vstd::arithmetic::div_mod::lemma_fundamental_div_mod(q, w);
        vstd::arithmetic::div_mod::lemma_mod_bound(q, w);
        assert(q == y * w + x) by (nonlinear_arith)
            requires
                q == w * y + x,
        ;
        assert(0 <= y < h) by (nonlinear_arith)
            requires
                0 <= q,
                q < w * h,
                q == y * w + x,
                0 <= x < w,
        ;
        assert(x * w <= x * w < (x + 1) * w && y * h <= y * h < (y + 1) * h) by (nonlinear_arith)
            requires
                0 < w,
                0 < h,
        ;
        law_scaled_pixel_is_the_nearest(src, w, h, w, h, x, y, x, y, k % 4);
    }
}

/// An animated capture is as large as its picture, up to a pixel that makes it
/// even, and a wide one is reduced to four hundred and eighty columns with its
/// height in proportion.
pub proof fn law_gif_keeps_the_proportion(w: int, h: int)
    requires
        2 <= w,
        2 <= h,
    ensures
        w <= 480 ==> gif_dims(w, h).0 <= w < gif_dims(w, h).0 + 2 && gif_dims(w, h).1 <= h
            < gif_dims(w, h).1 + 2,
        w > 480 ==> gif_dims(w, h).0 == 480,
        w > 480 && h * 480 >= 2 * w ==> gif_dims(w, h).1 * w <= h * 480 < (gif_dims(w, h).1 + 2)
            * w,
{
    if w > 480 {
        let n = h * 480;
        let q = n / w;
        vstd::arithmetic::div_mod::lemma_fundamental_div_mod(n, w);
        vstd::arithmetic::div_mod::lemma_mod_bound(n, w);
        let e = even_up_to(q);
        if n >= 2 * w {
            assert(q >= 2) by (nonlinear_arith)
                requires
                    n >= 2 * w,
                    n == w * q + n % w,
                    n % w < w,
                    w > 0,
            ;
            assert(e <= q < e + 2);
            assert(e * w <= n < (e + 2) * w) by (nonlinear_arith)
                requires
                    n == w * q + n % w,
                    0 <= n % w < w,
                    e <= q < e + 2,
                    w > 0,
            ;
        }
    }
}

/// The bytes of a size make it up again, the second worth two hundred and fifty-six.
pub proof fn law_pair_makes_up_the_number(n: u16)
    ensures
        le_pair(n).len() == 2,
        le_pair(n)[0] + 256 * le_pair(n)[1] == n,
{
}

/// A picture without pixels, or with too few or too many for its size, gives no
/// screenshot, and any other is handed to the encoder.
pub proof fn law_screenshots_need_a_whole_picture(width: u32, height: u32, pixels: Seq<u8>)
    ensures
        screenshot(width, height, pixels) == Err::<Seq<u8>, CaptureError>(
            CaptureError::EmptyPicture,
        ) <==> width == 0 || height == 0,
        screenshot(width, height, pixels) == Err::<Seq<u8>, CaptureError>(
            CaptureError::PixelCount,
        ) <==> width > 0 && height > 0 && pixels.len() != width * height * 4,
        screenshot(width, height, pixels) matches Ok(file) ==> pixels.len() == width * height * 4
            && png_file(width, height, pixels) == Some(file),
{
}

} // verus!
