//! Subtitle packets that were decoded.

use super::time::{Rational, timestamp_to_us, ts_to_us};
use crate::player::clock::{saturate, saturated};
use crate::subtitles::bitmap::BitmapSubtitle;
use crate::subtitles::markup::{
    CueStyle, ass_plain, ass_style, default_style, embedded_ass_to_styled, embedded_text,
};
use crate::subtitles::track::{Cue, SubtitleCue};
use crate::text::{from_chars, join, push_text, trim, trimmed};
use vstd::arithmetic::div_mod::lemma_fundamental_div_mod_converse;
use vstd::prelude::*;

verus! {

/// How long a subtitle is shown whose packet does not say it.
pub const DEFAULT_SUB_DURATION_US: i64 = 3_000_000;

/// A part of a subtitle packet.
#[derive(Debug)]
pub enum SubtitleRect {
    /// Plain text.
    Text(String),
    /// A line of ASS.
    Ass(String),
    /// An image, which is drawn apart.
    Image,
}

// ---- Texts -----------------------------------------------------------------

/// When the subtitles of a packet are shown; never for a packet without a time.
pub open spec fn shown_between(pts: Option<i64>, duration: i64, base: Rational) -> Option<
    (i64, i64),
> {
    match pts {
        None => None,
        Some(p) => {
            let start = timestamp_to_us(p, base);
            let length = if duration > 0 {
                timestamp_to_us(duration, base)
            } else {
                DEFAULT_SUB_DURATION_US
            };
            if start < 0 {
                None
            } else {
                Some((start, saturated(start + length)))
            }
        },
    }
}

/// When the subtitles of a packet are shown.
pub fn subtitle_times(pts: Option<i64>, duration: i64, base: Rational) -> (r: Option<(i64, i64)>)
    ensures
        r == shown_between(pts, duration, base),
{
    match pts {
        None => None,
        Some(p) => {
            let start: i64 = ts_to_us(p, base);
            if start < 0 {
                return None;
            }
            let length: i64 = if duration > 0 {
                ts_to_us(duration, base)
            } else {
                DEFAULT_SUB_DURATION_US
            };
            Some((start, saturate(start as i128 + length as i128)))
        },
    }
}

/// The texts of the parts, without those of images.
pub open spec fn rect_texts(rects: Seq<SubtitleRect>) -> Seq<Seq<char>>
    decreases rects.len(),
{
    if rects.len() == 0 {
        seq![]
    } else {
        let less = rect_texts(rects.drop_last());
        match rects.last() {
            SubtitleRect::Text(t) => less.push(t@),
            SubtitleRect::Ass(a) => less.push(trim(ass_plain(embedded_text(a@)))),
            SubtitleRect::Image => less,
        }
    }
}

/// The style of the last line of ASS.
pub open spec fn rect_style(rects: Seq<SubtitleRect>) -> CueStyle
    decreases rects.len(),
{
    if rects.len() == 0 {
        default_style()
    } else {
        match rects.last() {
            SubtitleRect::Ass(a) => ass_style(embedded_text(a@)),
            _ => rect_style(rects.drop_last()),
        }
    }
}

/// The cue of a packet, unless its text is blank.
pub open spec fn rect_cue(rects: Seq<SubtitleRect>, start: int, end: int) -> Option<Cue> {
    let text = trim(join(rect_texts(rects), "\n"@));
    if text.len() > 0 {
        Some(Cue { start, end, text, style: rect_style(rects) })
    } else {
        None
    }
}

/// The cue of a packet, unless its text is blank.
pub fn decode_subtitle(rects: &Vec<SubtitleRect>, start_us: i64, end_us: i64) -> (r: Option<
    SubtitleCue,
>)
    ensures
        r matches Some(cue) ==> rect_cue(rects@, start_us as int, end_us as int) == Some(cue@),
        r is None ==> rect_cue(rects@, start_us as int, end_us as int) is None,
{
    let mut out: Vec<char> = Vec::new();
    let mut style: CueStyle = CueStyle::default();
    let mut any: bool = false;
    let mut i: usize = 0;
    while i < rects.len()
        invariant
            i <= rects@.len(),
            out@ == join(rect_texts(rects@.take(i as int)), "\n"@),
            any == (rect_texts(rects@.take(i as int)).len() > 0),
            style == rect_style(rects@.take(i as int)),
        decreases rects@.len() - i,
    {
        let ghost less = rect_texts(rects@.take(i as int));
        let ghost more = rect_texts(rects@.take(i + 1));
        assert(rects@.take(i + 1).drop_last() == rects@.take(i as int));
        assert(rects@.take(i + 1).last() == rects@[i as int]);
        match &rects[i] {
            SubtitleRect::Text(t) => {
                if any {
                    push_text(&mut out, "\n");
                }
                push_text(&mut out, t.as_str());
                any = true;
                proof {
                    assert(more.drop_last() == less);
                    if less.len() == 0 {
                        assert(out@ == more[0]);
                    }
                }
            },
            SubtitleRect::Ass(a) => {
                let (text, parsed) = embedded_ass_to_styled(a.as_str());
                style = parsed;
                if any {
                    push_text(&mut out, "\n");
                }
                push_text(&mut out, text.as_str());
                any = true;
                proof {
                    assert(more.drop_last() == less);
                    if less.len() == 0 {
                        assert(out@ == more[0]);
                    }
                }
            },
            SubtitleRect::Image => {},
        }
        i = i + 1;
    }
    assert(rects@.take(rects@.len() as int) == rects@);
    let text = trimmed(&out);
    if text.len() > 0 {
        Some(SubtitleCue { start_us, end_us, text: from_chars(text), style })
    } else {
        None
    }
}

// ---- Images ----------------------------------------------------------------

/// Channel `c` (red, green, blue, alpha) of a colour `0xAARRGGBB`.
pub open spec fn channel(argb: u32, c: int) -> u8 {
    if c == 0 {
        (argb / 0x1_0000 % 256) as u8
    } else if c == 1 {
        (argb / 0x100 % 256) as u8
    } else if c == 2 {
        (argb % 256) as u8
    } else {
        (argb / 0x100_0000) as u8
    }
}

/// Channel `c` of the colour with an index; transparent black where the palette
/// has no such colour.
pub open spec fn palette_channel(palette: Seq<u32>, index: u8, c: int) -> u8 {
    if index < palette.len() {
        channel(palette[index as int], c)
    } else {
        0
    }
}

/// The pixels of an image of palette indices, whose rows begin `stride` bytes
/// apart.
pub open spec fn palette_pixels(
    indices: Seq<u8>,
    stride: int,
    palette: Seq<u32>,
    width: int,
    height: int,
) -> Seq<u8> {
    Seq::new(
        (width * height * 4) as nat,
        |k: int|
            palette_channel(
                palette,
                indices[(k / 4) / width * stride + (k / 4) % width],
                k % 4,
            ),
    )
}

/// Converts an image of palette indices into an image subtitle. There is none
/// for an image without pixels, rows or colours.
pub fn bitmap_rect_to_subtitle(
    x: u32,
    y: u32,
    width: u32,
    height: u32,
    indices: &[u8],
    stride: i32,
    palette: &[u32],
    start_us: i64,
    end_us: i64,
) -> (r: Option<BitmapSubtitle>)
    requires
        width * height * 4 <= u32::MAX,
        width > 0 && height > 0 && stride > 0 ==> (height - 1) * stride + width <= indices@.len(),
    ensures
        r is Some <==> width > 0 && height > 0 && stride > 0 && palette@.len() > 0,
        r matches Some(sub) ==> sub.start_us == start_us && sub.end_us == end_us && sub.x == x
            && sub.y == y && sub.width == width && sub.height == height && sub.rgba@
            == palette_pixels(
            indices@,
            stride as int,
            palette@,
            width as int,
            height as int,
        ) && sub.rgba@.len() == width * height * 4,
{
    if width == 0 || height == 0 || stride <= 0 || palette.len() == 0 {
        return None;
    }
    let ghost w = width as int;
    let ghost h = height as int;
    let ghost s = stride as int;
    let ghost want = palette_pixels(indices@, s, palette@, w, h);
    let have: usize = indices.len();
    let mut rgba: Vec<u8> = Vec::new();
    let mut row: u32 = 0;
    assert(0 * w == 0);
    while row < height
        invariant
            row <= height,
            0 < width && 0 < height && 0 < stride,
            w == width && h == height && s == stride,
            w * h * 4 <= u32::MAX,
            have == indices@.len(),
            (h - 1) * s + w <= have,
            want == palette_pixels(indices@, s, palette@, w, h),
            rgba@.len() == row * w * 4,
            forall|k: int| 0 <= k < rgba@.len() ==> #[trigger] rgba@[k] == want[k],
        decreases height - row,
    {
        let mut col: u32 = 0;
        while col < width
            invariant
                row < height,
                col <= width,
                0 < width && 0 < height && 0 < stride,
                w == width && h == height && s == stride,
                w * h * 4 <= u32::MAX,
                have == indices@.len(),
                (h - 1) * s + w <= have,
                want == palette_pixels(indices@, s, palette@, w, h),
                rgba@.len() == (row * w + col) * 4,
                forall|k: int| 0 <= k < rgba@.len() ==> #[trigger] rgba@[k] == want[k],
            decreases width - col,
        {
            let ghost p = row * w + col;
            proof {
                assert(row * s <= (h - 1) * s) by (nonlinear_arith)
                    requires
                        row <= h - 1,
                        s > 0,
                ;
                assert(row * s >= 0) by (nonlinear_arith)
                    requires
                        s > 0,
                ;
                assert(p == w * row + col) by (nonlinear_arith)
                    requires
                        p == row * w + col,
                ;
                lemma_fundamental_div_mod_converse(p, w, row as int, col as int);
                assert(p < w * h) by (nonlinear_arith)
                    requires
                        p == row * w + col,
                        col < w,
                        row + 1 <= h,
                ;
                assert(want.len() == w * h * 4);
            }
            let at: usize = row as usize * stride as usize + col as usize;
            let index: u8 = indices[at];
            let argb: u32 = if (index as usize) < palette.len() {
                palette[index as usize]
            } else {
                0
            };
            let ghost before = rgba@;
            rgba.push((argb / 0x1_0000 % 256) as u8);
            rgba.push((argb / 0x100 % 256) as u8);
            rgba.push((argb % 256) as u8);
            rgba.push((argb / 0x100_0000) as u8);
            proof {
                assert forall|k: int| 0 <= k < rgba@.len() implies #[trigger] rgba@[k]
                    == want[k] by {
                    if k < before.len() {
                        assert(rgba@[k] == before[k]);
                    } else {
                        let c = k - p * 4;
                        assert(0 <= c < 4);
                        assert(k / 4 == p && k % 4 == c);
                        assert(rgba@[k] == channel(argb, c));
                    }
                }
            }
            col = col + 1;
        }
        assert((row * w + w) * 4 == (row + 1) * w * 4) by (nonlinear_arith);
        row = row + 1;
    }
    assert(height * w == w * h) by (nonlinear_arith)
        requires
            height == h,
    ;
    assert(rgba@ =~= want);
    Some(BitmapSubtitle { start_us, end_us, x, y, width, height, rgba })
}

// ---- Laws ------------------------------------------------------------------

/// A colour is made of its four parts: alpha, red, green and blue.
pub proof fn law_color_has_four_parts(argb: u32)
    ensures
        ((channel(argb, 3) * 256 + channel(argb, 0)) * 256 + channel(argb, 1)) * 256 + channel(
            argb,
            2,
        ) == argb,
{
}

/// A pixel of an image has the colour that its index names, in the order red, green,
/// blue, alpha; one whose index names none is transparent.
pub proof fn law_pixels_have_their_colors(
    indices: Seq<u8>,
    stride: int,
    palette: Seq<u32>,
    width: int,
    height: int,
    x: int,
    y: int,
)
    requires
        0 <= x < width,
        0 <= y < height,
    ensures
        ({
            let out = palette_pixels(indices, stride, palette, width, height);
            let at = (y * width + x) * 4;
            let index = indices[y * stride + x];
            &&& 0 <= at && at + 4 <= out.len()
            &&& index < palette.len() ==> ((out[at + 3] * 256 + out[at]) * 256 + out[at + 1]) * 256
                + out[at + 2] == palette[index as int]
            &&& index >= palette.len() ==> out[at] == 0 && out[at + 1] == 0 && out[at + 2] == 0
                && out[at + 3] == 0
        }),
{
    let q = y * width + x;
    let at = q * 4;
    assert(0 <= q && at + 4 <= width * height * 4 && q == width * y + x) by (nonlinear_arith)
        requires
            0 <= x < width,
            0 <= y < height,
            q == y * width + x,
            at == q * 4,
    ;
    vstd::arithmetic::div_mod::lemma_fundamental_div_mod_converse(q, width, y, x);
    let out = palette_pixels(indices, stride, palette, width, height);
    assert(at / 4 == q && (at + 1) / 4 == q && (at + 2) / 4 == q && (at + 3) / 4 == q);
    let index = indices[y * stride + x];
    assert(out[at] == palette_channel(palette, index, 0));
    assert(out[at + 1] == palette_channel(palette, index, 1));
    assert(out[at + 2] == palette_channel(palette, index, 2));
    assert(out[at + 3] == palette_channel(palette, index, 3));
    if index < palette.len() {
        law_color_has_four_parts(palette[index as int]);
    }
}

/// A packet's subtitles are shown from its time on for as long as it says, or for
/// three seconds where it does not say; never without a time or before the beginning.
pub proof fn law_subtitles_last_as_long_as_they_say(pts: i64, duration: i64, base: Rational)
    ensures
        shown_between(None, duration, base) is None,
        timestamp_to_us(pts, base) < 0 ==> shown_between(Some(pts), duration, base) is None,
        timestamp_to_us(pts, base) >= 0 ==> {
            &&& shown_between(Some(pts), duration, base) is Some
            &&& ({
                let (start, end) = shown_between(Some(pts), duration, base)->0;
                let length = if duration > 0 {
                    timestamp_to_us(duration, base) as int
                } else {
                    3_000_000
                };
                &&& start == timestamp_to_us(pts, base)
                &&& i64::MIN <= start + length <= i64::MAX ==> end - start == length
            })
        },
{
}

/// The texts of the parts of a packet stand in their order, those of images are none,
/// and of a line of ASS its text without tags.
pub proof fn law_part_texts_stand_in_order(a: Seq<SubtitleRect>, c: SubtitleRect)
    ensures
        rect_texts(seq![]) == Seq::<Seq<char>>::empty(),
        c matches SubtitleRect::Text(t) ==> rect_texts(a.push(c)) == rect_texts(a).push(t@)
            && rect_style(a.push(c)) == rect_style(a),
        c is Image ==> rect_texts(a.push(c)) == rect_texts(a) && rect_style(a.push(c))
            == rect_style(a),
        c matches SubtitleRect::Ass(l) ==> rect_texts(a.push(c)) == rect_texts(a).push(
            trim(ass_plain(embedded_text(l@))),
        ) && rect_style(a.push(c)) == ass_style(embedded_text(l@)),
{
    assert(a.push(c).drop_last() == a);
}

/// A packet of images has no cue, and one with a single text has it as its cue, unless
/// it is blank, without the white space around it.
pub proof fn law_packet_cue_is_its_text(t: String, start: int, end: int)
    ensures
        rect_cue(seq![SubtitleRect::Image], start, end) is None,
        trim(t@).len() == 0 ==> rect_cue(seq![SubtitleRect::Text(t)], start, end) is None,
        trim(t@).len() > 0 ==> rect_cue(seq![SubtitleRect::Text(t)], start, end) == Some(
            Cue {
                start,
                end,
                text: trim(t@),
                style: CueStyle { align: 2, bold: false, italic: false, color: None },
            },
        ),
{
    let none = Seq::<SubtitleRect>::empty();
    let image = seq![SubtitleRect::Image];
    let text = seq![SubtitleRect::Text(t)];
    assert(image.drop_last() == none);
    assert(text.drop_last() == none);
    assert(rect_texts(none) == Seq::<Seq<char>>::empty());
    assert(rect_texts(text) == seq![t@]);
    assert(join(seq![t@], "\n"@) == t@);
    assert(rect_style(none) == default_style());
}

} // verus!
