//! Image subtitles (Blu-ray PGS, DVD VobSub).
//!
//! They come as positioned bitmaps and are drawn onto the decoded picture, so
//! that they follow its scaling.

use vstd::arithmetic::div_mod::lemma_fundamental_div_mod_converse;
use vstd::prelude::*;

verus! {

/// An image subtitle, bounded in media time (microseconds).
#[derive(Debug, PartialEq)]
pub struct BitmapSubtitle {
    pub start_us: i64,
    pub end_us: i64,
    /// Position of the top left corner in the picture.
    pub x: u32,
    pub y: u32,
    pub width: u32,
    pub height: u32,
    /// RGBA pixels, row by row (`width * height * 4` bytes).
    pub rgba: Vec<u8>,
}

/// How many bitmaps a track keeps.
pub const MAX_BITMAPS: usize = 24;

/// A track of image subtitles: the most recent ones.
#[derive(Debug)]
pub struct BitmapSubtitleTrack {
    subs: Vec<BitmapSubtitle>,
}

// ---- Drawing ---------------------------------------------------------------

/// How many rows of `sub` lie in a picture of height `fh`.
pub open spec fn visible_rows(fh: int, sub: BitmapSubtitle) -> int {
    if fh <= sub.y {
        0
    } else if sub.height < fh - sub.y {
        sub.height as int
    } else {
        fh - sub.y
    }
}

/// How many columns of `sub` lie in a picture of width `fw`.
pub open spec fn visible_columns(fw: int, sub: BitmapSubtitle) -> int {
    if fw <= sub.x {
        0
    } else if sub.width < fw - sub.x {
        sub.width as int
    } else {
        fw - sub.x
    }
}

/// Where the pixel in row `r` and column `c` stands in the bitmap.
pub open spec fn source_at(sub: BitmapSubtitle, r: int, c: int) -> int {
    (r * sub.width + c) * 4
}

/// Where that pixel goes in a picture of width `fw`.
pub open spec fn target_at(fw: int, sub: BitmapSubtitle, r: int, c: int) -> int {
    ((sub.y + r) * fw + (sub.x + c)) * 4
}

/// Whether a pixel is there and, unless it is transparent, has its place in a
/// picture of `len` bytes.
pub open spec fn pixel_fits(len: int, fw: int, sub: BitmapSubtitle, r: int, c: int) -> bool {
    &&& source_at(sub, r, c) + 4 <= sub.rgba@.len()
    &&& sub.rgba@[source_at(sub, r, c) + 3] != 0 ==> target_at(fw, sub, r, c) + 4 <= len
}

/// Whether every pixel that lies in the picture fits.
pub open spec fn fits_in(len: int, fw: int, fh: int, sub: BitmapSubtitle) -> bool {
    forall|r: int, c: int|
        0 <= r < visible_rows(fh, sub) && 0 <= c < visible_columns(fw, sub) ==> #[trigger]
            pixel_fits(len, fw, sub, r, c)
}

/// Channel `c` of a pixel `dst` under the source pixel at `si`: the channels
/// are mixed by the source's alpha, and the result is opaque.
pub open spec fn mixed(dst: u8, rgba: Seq<u8>, si: int, c: int) -> u8 {
    let alpha = rgba[si + 3];
    if alpha == 0 {
        dst
    } else if c == 3 {
        255
    } else {
        ((rgba[si + c] * alpha + dst * (255 - alpha)) / 255) as u8
    }
}

/// The row of the bitmap that lies over byte `k` of the picture.
pub open spec fn row_over(fw: int, sub: BitmapSubtitle, k: int) -> int {
    (k / 4) / fw - sub.y
}

/// The column of the bitmap that lies over byte `k` of the picture.
pub open spec fn column_over(fw: int, sub: BitmapSubtitle, k: int) -> int {
    (k / 4) % fw - sub.x
}

/// Whether the bitmap lies over byte `k` of the picture.
pub open spec fn lies_over(fw: int, fh: int, sub: BitmapSubtitle, k: int) -> bool {
    &&& 0 <= row_over(fw, sub, k) < visible_rows(fh, sub)
    &&& 0 <= column_over(fw, sub, k) < visible_columns(fw, sub)
}

/// The picture with the bitmap drawn onto it.
pub open spec fn composited(frame: Seq<u8>, fw: int, fh: int, sub: BitmapSubtitle) -> Seq<u8> {
    if fw == 0 || fh == 0 {
        frame
    } else {
        Seq::new(
            frame.len(),
            |k: int|
                if lies_over(fw, fh, sub, k) {
                    mixed(
                        frame[k],
                        sub.rgba@,
                        source_at(sub, row_over(fw, sub, k), column_over(fw, sub, k)),
                        k % 4,
                    )
                } else {
                    frame[k]
                },
        )
    }
}

/// Whether byte `k` belongs to a pixel before row `r`, column `c`.
spec fn is_done(fw: int, fh: int, sub: BitmapSubtitle, k: int, r: int, c: int) -> bool {
    &&& lies_over(fw, fh, sub, k)
    &&& row_over(fw, sub, k) < r || (row_over(fw, sub, k) == r && column_over(fw, sub, k) < c)
}

/// The picture with the pixels before row `r`, column `c` drawn onto it.
spec fn drawn(frame: Seq<u8>, fw: int, fh: int, sub: BitmapSubtitle, r: int, c: int) -> Seq<u8> {
    Seq::new(
        frame.len(),
        |k: int|
            if is_done(fw, fh, sub, k, r, c) {
                composited(frame, fw, fh, sub)[k]
            } else {
                frame[k]
            },
    )
}

/// The bytes over which a pixel of the bitmap lies are its four channels.
proof fn lemma_over(fw: int, fh: int, sub: BitmapSubtitle, r: int, c: int, k: int)
    requires
        0 < fw,
        0 < fh,
        0 <= k,
        0 <= r < visible_rows(fh, sub),
        0 <= c < visible_columns(fw, sub),
    ensures
        (lies_over(fw, fh, sub, k) && row_over(fw, sub, k) == r && column_over(fw, sub, k) == c)
            <==> target_at(fw, sub, r, c) <= k < target_at(fw, sub, r, c) + 4,
{
    let p = (sub.y + r) * fw + (sub.x + c);
    assert(p == fw * (sub.y + r) + (sub.x + c)) by (nonlinear_arith)
        requires
            p == (sub.y + r) * fw + (sub.x + c),
    ;
    lemma_fundamental_div_mod_converse(p, fw, sub.y + r, sub.x + c);
    let q = k / 4;
    vstd::arithmetic::div_mod::lemma_fundamental_div_mod(q, fw);
    if q / fw == sub.y + r && q % fw == sub.x + c {
        assert(q == p);
    }
}

/// Mixes the bitmap's pixel at `si` into the picture's pixel at `di`.
fn mix_pixel(frame: &mut Vec<u8>, di: usize, rgba: &Vec<u8>, si: usize)
    requires
        di + 4 <= old(frame)@.len(),
        si + 4 <= rgba@.len(),
        rgba@[si + 3] != 0,
    ensures
        final(frame)@ == Seq::new(
            old(frame)@.len(),
            |k: int|
                if di <= k < di + 4 {
                    mixed(old(frame)@[k], rgba@, si as int, k - di)
                } else {
                    old(frame)@[k]
                },
        ),
{
    let room: usize = frame.len();
    let have: usize = rgba.len();
    let alpha: u32 = rgba[si + 3] as u32;
    let inv: u32 = 255 - alpha;
    let mut c: usize = 0;
    while c < 3
        invariant
            c <= 3,
            room == frame@.len(),
            have == rgba@.len(),
            di + 4 <= room,
            si + 4 <= have,
            alpha == rgba@[si + 3],
            alpha != 0,
            inv == 255 - alpha,
            frame@ == Seq::new(
                old(frame)@.len(),
                |k: int|
                    if di <= k < di + c {
                        mixed(old(frame)@[k], rgba@, si as int, k - di)
                    } else {
                        old(frame)@[k]
                    },
            ),
        decreases 3 - c,
    {
        let src: u32 = rgba[si + c] as u32;
        let dst: u32 = frame[di + c] as u32;
        assert(src * alpha <= 255 * 255 && dst * inv <= 255 * 255 && src * alpha + dst * inv <= 255
            * 255) by (nonlinear_arith)
            requires
                src <= 255,
                dst <= 255,
                alpha <= 255,
                inv == 255 - alpha,
        ;
        let value: u32 = (src * alpha + dst * inv) / 255;
        frame.set(di + c, value as u8);
        assert(value as u8 == mixed(old(frame)@[di + c], rgba@, si as int, c as int));
        c = c + 1;
    }
    frame.set(di + 3, 255);
}

/// Draws a bitmap onto an RGBA picture, clipped to its edges.
pub fn composite(frame: &mut Vec<u8>, fw: u32, fh: u32, sub: &BitmapSubtitle)
    requires
        fits_in(old(frame)@.len() as int, fw as int, fh as int, *sub),
    ensures
        final(frame)@ == composited(old(frame)@, fw as int, fh as int, *sub),
{
    if fw == 0 || fh == 0 {
        return;
    }
    let below: u32 = fh.saturating_sub(sub.y);
    let beside: u32 = fw.saturating_sub(sub.x);
    let rows: u32 = if sub.height < below {
        sub.height
    } else {
        below
    };
    let columns: u32 = if sub.width < beside {
        sub.width
    } else {
        beside
    };
    let room: usize = frame.len();
    let have: usize = sub.rgba.len();
    let ghost given = frame@;
    let ghost w = fw as int;
    let ghost h = fh as int;
    assert(rows == visible_rows(h, *sub));
    assert(columns == visible_columns(w, *sub));
    let mut r: u32 = 0;
    assert(frame@ == drawn(given, w, h, *sub, 0, 0));
    while r < rows
        invariant
            0 < fw,
            0 < fh,
            w == fw,
            h == fh,
            r <= rows,
            rows == visible_rows(h, *sub),
            columns == visible_columns(w, *sub),
            room == given.len(),
            have == sub.rgba@.len(),
            fits_in(given.len() as int, w, h, *sub),
            frame@ == drawn(given, w, h, *sub, r as int, 0),
        decreases rows - r,
    {
        let mut c: u32 = 0;
        while c < columns
            invariant
                0 < fw,
                0 < fh,
                w == fw,
                h == fh,
                r < rows,
                c <= columns,
                rows == visible_rows(h, *sub),
                columns == visible_columns(w, *sub),
                room == given.len(),
                have == sub.rgba@.len(),
                fits_in(given.len() as int, w, h, *sub),
                frame@ == drawn(given, w, h, *sub, r as int, c as int),
            decreases columns - c,
        {
            proof {
                assert(pixel_fits(given.len() as int, w, *sub, r as int, c as int));
                assert(r * sub.width >= 0) by (nonlinear_arith);
                assert(source_at(*sub, r as int, c as int) + 4 <= have);
            }
            let si: usize = (r as usize * sub.width as usize + c as usize) * 4;
            let ghost before = frame@;
            if sub.rgba[si + 3] != 0 {
                proof {
                    assert((sub.y + r) * fw >= 0) by (nonlinear_arith);
                }
                let di: usize = ((sub.y as usize + r as usize) * fw as usize + (sub.x as usize
                    + c as usize)) * 4;
                mix_pixel(frame, di, &sub.rgba, si);
            }
            proof {
                let after = drawn(given, w, h, *sub, r as int, c + 1);
                assert forall|k: int| 0 <= k < given.len() implies #[trigger] frame@[k]
                    == after[k] by {
                    lemma_over(w, h, *sub, r as int, c as int, k);
                    let di = target_at(w, *sub, r as int, c as int);
                    assert(before[k] == drawn(given, w, h, *sub, r as int, c as int)[k]);
                    if di <= k < di + 4 {
                        assert(k % 4 == k - di);
                    }
                }
                assert(frame@ == after);
            }
            c = c + 1;
        }
        assert(drawn(given, w, h, *sub, r as int, columns as int) == drawn(
            given,
            w,
            h,
            *sub,
            r + 1,
            0,
        ));
        r = r + 1;
    }
    assert(drawn(given, w, h, *sub, rows as int, 0) == composited(given, w, h, *sub));
}

// ---- Tracks ----------------------------------------------------------------

/// The picture with the bitmaps of `subs` that are shown at `t` drawn onto it,
/// one after the other.
pub open spec fn composited_at(
    frame: Seq<u8>,
    fw: int,
    fh: int,
    subs: Seq<BitmapSubtitle>,
    t: int,
) -> Seq<u8>
    decreases subs.len(),
{
    if subs.len() == 0 {
        frame
    } else {
        let under = composited_at(frame, fw, fh, subs.drop_last(), t);
        if subs.last().start_us <= t < subs.last().end_us {
            composited(under, fw, fh, subs.last())
        } else {
            under
        }
    }
}

/// The bitmaps with a new one behind them; the oldest one makes room where there are
/// as many as a track keeps.
pub open spec fn with_newest(subs: Seq<BitmapSubtitle>, sub: BitmapSubtitle) -> Seq<
    BitmapSubtitle,
> {
    if subs.len() >= MAX_BITMAPS {
        subs.skip(1).push(sub)
    } else {
        subs.push(sub)
    }
}

impl View for BitmapSubtitleTrack {
    type V = Seq<BitmapSubtitle>;

    closed spec fn view(&self) -> Seq<BitmapSubtitle> {
        self.subs@
    }
}

impl Default for BitmapSubtitleTrack {
    fn default() -> (track: Self)
        ensures
            track@ == Seq::<BitmapSubtitle>::empty(),
    {
        BitmapSubtitleTrack { subs: Vec::new() }
    }
}

impl BitmapSubtitleTrack {
    /// Forgets all the bitmaps.
    pub fn clear(&mut self)
        ensures
            final(self)@ == Seq::<BitmapSubtitle>::empty(),
    {
        self.subs.clear();
    }

    /// Whether the track holds no bitmap.
    pub fn is_empty(&self) -> (r: bool)
        ensures
            r == (self@.len() == 0),
    {
        self.subs.len() == 0
    }

    /// The number of bitmaps.
    pub fn len(&self) -> (n: usize)
        ensures
            n == self@.len(),
    {
        self.subs.len()
    }

    /// Adds a bitmap; the oldest one goes where the track is full.
    pub fn insert(&mut self, sub: BitmapSubtitle)
        ensures
            final(self)@ == (if old(self)@.len() >= MAX_BITMAPS {
                old(self)@.skip(1)
            } else {
                old(self)@
            }).push(sub),
            old(self)@.len() <= MAX_BITMAPS ==> final(self)@.len() <= MAX_BITMAPS,
            final(self)@ == with_newest(old(self)@, sub),
    {
        if self.subs.len() >= MAX_BITMAPS {
            let _ = self.subs.remove(0);
            assert(self.subs@ == old(self)@.skip(1));
        }
        self.subs.push(sub);
    }

    /// Draws onto an RGBA picture all the bitmaps that are shown at `t_us`.
    pub fn composite_active(&self, frame: &mut Vec<u8>, fw: u32, fh: u32, t_us: i64)
        requires
            forall|i: int|
                0 <= i < self@.len() && (#[trigger] self@[i]).start_us <= t_us < self@[i].end_us
                    ==> fits_in(old(frame)@.len() as int, fw as int, fh as int, self@[i]),
        ensures
            final(frame)@ == composited_at(
                old(frame)@,
                fw as int,
                fh as int,
                self@,
                t_us as int,
            ),
    {
        let ghost given = frame@;
        let mut i: usize = 0;
        while i < self.subs.len()
            invariant
                i <= self@.len(),
                self@ == self.subs@,
                given == old(frame)@,
                frame@.len() == given.len(),
                frame@ == composited_at(
                    given,
                    fw as int,
                    fh as int,
                    self@.take(i as int),
                    t_us as int,
                ),
                forall|i: int|
                    0 <= i < self@.len() && (#[trigger] self@[i]).start_us <= t_us
                        < self@[i].end_us ==> fits_in(
                        given.len() as int,
                        fw as int,
                        fh as int,
                        self@[i],
                    ),
            decreases self@.len() - i,
        {
            assert(self@.take(i + 1).drop_last() == self@.take(i as int));
            assert(self@.take(i + 1).last() == self@[i as int]);
            if self.subs[i].start_us <= t_us && t_us < self.subs[i].end_us {
                composite(frame, fw, fh, &self.subs[i]);
            }
            i = i + 1;
        }
        assert(self@.take(self@.len() as int) == self@);
    }
}

// ---- Laws ------------------------------------------------------------------

/// Drawing a bitmap changes no byte outside it, and not the picture's size.
pub proof fn law_composite_is_local(frame: Seq<u8>, fw: int, fh: int, sub: BitmapSubtitle, k: int)
    requires
        0 <= k < frame.len(),
        !lies_over(fw, fh, sub, k),
    ensures
        composited(frame, fw, fh, sub).len() == frame.len(),
        composited(frame, fw, fh, sub)[k] == frame[k],
{
}

/// A bitmap that lies outside the picture leaves it as it is.
pub proof fn law_composite_clips(frame: Seq<u8>, fw: int, fh: int, sub: BitmapSubtitle)
    requires
        sub.x >= fw || sub.y >= fh,
    ensures
        composited(frame, fw, fh, sub) == frame,
{
}

/// A bitmap that has all its pixels can be drawn into any picture that has all its
/// own.
pub proof fn law_whole_bitmaps_fit(len: int, fw: int, fh: int, sub: BitmapSubtitle)
    requires
        0 <= fw && 0 <= fh,
        len == fw * fh * 4,
        sub.rgba@.len() == sub.width * sub.height * 4,
    ensures
        fits_in(len, fw, fh, sub),
{
    assert forall|r: int, c: int|
        0 <= r < visible_rows(fh, sub) && 0 <= c < visible_columns(fw, sub) implies #[trigger]
        pixel_fits(len, fw, sub, r, c) by {
        let (w, h, x, y) = (sub.width as int, sub.height as int, sub.x as int, sub.y as int);
        assert((r * w + c) * 4 + 4 <= w * h * 4) by (nonlinear_arith)
            requires
                0 <= r < h,
                0 <= c < w,
        ;
        assert(((y + r) * fw + (x + c)) * 4 + 4 <= fw * fh * 4) by (nonlinear_arith)
            requires
                0 <= y + r < fh,
                0 <= x + c < fw,
        ;
    }
}

/// A byte between two others, whichever is the larger.
pub open spec fn lies_between(n: u8, a: u8, b: u8) -> bool {
    (a <= n <= b) || (b <= n <= a)
}

proof fn lemma_mixed(dst: u8, rgba: Seq<u8>, si: int, c: int)
    requires
        0 <= c < 3,
        rgba[si + 3] != 0,
    ensures
        ({
            let (src, a) = (rgba[si + c] as int, rgba[si + 3] as int);
            let sum = src * a + dst * (255 - a);
            let n = mixed(dst, rgba, si, c);
            &&& 255 * n <= sum < 255 * (n + 1)
            &&& lies_between(n, rgba[si + c], dst)
            &&& a == 255 ==> n == rgba[si + c]
        }),
{
    let (src, a, d) = (rgba[si + c] as int, rgba[si + 3] as int, dst as int);
    let sum = src * a + d * (255 - a);
    let (low, high) = if src <= d {
        (src, d)
    } else {
        (d, src)
    };
    assert(255 * low <= sum <= 255 * high) by (nonlinear_arith)
        requires
            low <= src <= high,
            low <= d <= high,
            0 <= a <= 255,
            sum == src * a + d * (255 - a),
    ;
    if a == 255 {
        assert(sum == 255 * src) by (nonlinear_arith)
            requires
                a == 255,
                sum == src * a + d * (255 - a),
        ;
    }
    assert(low <= sum / 255 <= high);
}

/// What becomes of a pixel of the picture under a pixel of the bitmap, both named
/// by their row and column. A transparent pixel leaves all four bytes. Any other
/// makes the pixel opaque and mixes each colour by alpha: the result lies between
/// the two colours, is the bitmap's where that is opaque, the common colour where
/// they agree, and the weighted mean rounded down.
pub proof fn law_composite_mixes_by_alpha(
    frame: Seq<u8>,
    fw: int,
    fh: int,
    sub: BitmapSubtitle,
    r: int,
    c: int,
    ch: int,
)
    requires
        0 <= r < sub.height,
        0 <= c < sub.width,
        0 <= ch < 4,
        sub.y + r < fh,
        sub.x + c < fw,
        frame.len() == fw * fh * 4,
        sub.rgba@.len() == sub.width * sub.height * 4,
    ensures
        composited(frame, fw, fh, sub).len() == frame.len(),
        ({
            let to = ((sub.y + r) * fw + (sub.x + c)) * 4 + ch;
            let from = (r * sub.width + c) * 4;
            let (src, a) = (sub.rgba@[from + ch], sub.rgba@[from + 3] as int);
            let (dst, n) = (frame[to], composited(frame, fw, fh, sub)[to]);
            &&& 0 <= to < frame.len()
            &&& 0 <= from && from + 4 <= sub.rgba@.len()
            &&& a == 0 ==> n == dst
            &&& a != 0 && ch == 3 ==> n == 255
            &&& a != 0 && ch < 3 ==> {
                &&& lies_between(n, src, dst)
                &&& 255 * n <= src * a + dst * (255 - a) < 255 * (n + 1)
                &&& a == 255 ==> n == src
                &&& src == dst ==> n == dst
            }
        }),
{
    let (w, h, x, y) = (sub.width as int, sub.height as int, sub.x as int, sub.y as int);
    let at = ((y + r) * fw + (x + c)) * 4;
    let from = (r * w + c) * 4;
    assert(0 <= from && from + 4 <= w * h * 4) by (nonlinear_arith)
        requires
            0 <= r < h,
            0 <= c < w,
            from == (r * w + c) * 4,
    ;
    assert(0 <= at && at + 4 <= fw * fh * 4 && (at + ch) % 4 == ch) by (nonlinear_arith)
        requires
            0 <= y + r < fh,
            0 <= x + c < fw,
            0 <= ch < 4,
            at == ((y + r) * fw + (x + c)) * 4,
    ;
    lemma_over(fw, fh, sub, r, c, at + ch);
    if ch < 3 && sub.rgba@[from + 3] != 0 {
        lemma_mixed(frame[at + ch], sub.rgba@, from, ch);
    }
}

/// A pixel of the picture that the bitmap's rectangle does not hold stays as it is.
pub proof fn law_composite_stays_inside(
    frame: Seq<u8>,
    fw: int,
    fh: int,
    sub: BitmapSubtitle,
    row: int,
    column: int,
    ch: int,
)
    requires
        0 <= row < fh,
        0 <= column < fw,
        0 <= ch < 4,
        frame.len() == fw * fh * 4,
        !(sub.y <= row < sub.y + sub.height && sub.x <= column < sub.x + sub.width),
    ensures
        ({
            let k = (row * fw + column) * 4 + ch;
            0 <= k < frame.len() && composited(frame, fw, fh, sub)[k] == frame[k]
        }),
{
    let k = (row * fw + column) * 4 + ch;
    assert(0 <= k < fw * fh * 4) by (nonlinear_arith)
        requires
            0 <= row < fh,
            0 <= column < fw,
            0 <= ch < 4,
            k == (row * fw + column) * 4 + ch,
    ;
    let q = row * fw + column;
    assert(k / 4 == q);
    assert(q == fw * row + column) by (nonlinear_arith)
        requires
            q == row * fw + column,
    ;
    lemma_fundamental_div_mod_converse(q, fw, row, column);
}

/// Bitmaps are drawn one over the other in the order in which they came: drawing
/// two lists is drawing the one and then the other.
pub proof fn law_bitmaps_are_drawn_in_order(
    frame: Seq<u8>,
    fw: int,
    fh: int,
    a: Seq<BitmapSubtitle>,
    b: Seq<BitmapSubtitle>,
    t: int,
)
    ensures
        composited_at(frame, fw, fh, a + b, t) == composited_at(
            composited_at(frame, fw, fh, a, t),
            fw,
            fh,
            b,
            t,
        ),
    decreases b.len(),
{
    if b.len() == 0 {
        assert(a + b == a);
    } else {
        law_bitmaps_are_drawn_in_order(frame, fw, fh, a, b.drop_last(), t);
        assert((a + b).drop_last() == a + b.drop_last());
        assert((a + b).last() == b.last());
    }
}

/// A bitmap is drawn from its start on and until before its end; at any other
/// moment it might as well not be there.
pub proof fn law_bitmap_is_drawn_while_it_is_shown(
    frame: Seq<u8>,
    fw: int,
    fh: int,
    a: Seq<BitmapSubtitle>,
    sub: BitmapSubtitle,
    b: Seq<BitmapSubtitle>,
    t: int,
)
    ensures
        composited_at(frame, fw, fh, seq![], t) == frame,
        sub.start_us <= t < sub.end_us ==> composited_at(frame, fw, fh, a + seq![sub], t)
            == composited(composited_at(frame, fw, fh, a, t), fw, fh, sub),
        !(sub.start_us <= t < sub.end_us) ==> composited_at(frame, fw, fh, a + seq![sub] + b, t)
            == composited_at(frame, fw, fh, a + b, t),
{
    let with = a + seq![sub];
    assert(with.drop_last() == a);
    assert(with.last() == sub);
    law_bitmaps_are_drawn_in_order(frame, fw, fh, with, b, t);
    law_bitmaps_are_drawn_in_order(frame, fw, fh, a, b, t);
}

/// A new bitmap stands behind the others, which keep their order; beyond twenty-four
/// the oldest one is dropped, and no other.
pub proof fn law_newest_bitmaps_are_kept(subs: Seq<BitmapSubtitle>, sub: BitmapSubtitle)
    requires
        subs.len() <= 24,
    ensures
        with_newest(subs, sub).len() <= 24,
        with_newest(subs, sub).last() == sub,
        subs.len() < 24 ==> with_newest(subs, sub).drop_last() == subs,
        subs.len() == 24 ==> seq![subs[0]] + with_newest(subs, sub).drop_last() == subs,
{
    assert(subs.push(sub).drop_last() == subs);
    if subs.len() == 24 {
        assert(subs.skip(1).push(sub).drop_last() == subs.skip(1));
        assert(seq![subs[0]] + subs.skip(1) == subs);
    }
}

} // verus!
