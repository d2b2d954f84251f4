//! The audio filter graph: equaliser, speed without change of pitch, and
//! conversion to what the device plays.

use super::time::Rational;
use crate::number::{decimal, decimal_int, write_decimal, write_int, write_padded, zero_padded};
use crate::player::clock::{clamp_speed, clamped_speed};
use crate::player::state::SharedState;
use crate::text::{ends_with, from_chars, glue, join, push_all, push_text, starts_with, to_chars};
use vstd::prelude::*;

verus! {

/// The centre frequencies of the equaliser's bands (Hz), an octave apart.
pub const EQ_FREQUENCIES: [u32; 10] = [31, 62, 125, 250, 500, 1000, 2000, 4000, 8000, 16000];

// ---- Speed -----------------------------------------------------------------

/// A factor taken apart until all its parts are between a half and two, in
/// millionths: above two a factor two is taken out, below a half a factor of a
/// half.
pub open spec fn split_factor(remaining: int) -> Seq<int>
    decreases
            if remaining > 2_000_000 {
                remaining
            } else if 0 < remaining < 500_000 {
                500_000 - remaining
            } else {
                0
            },
{
    if remaining > 2_000_000 {
        seq![2_000_000int] + split_factor(remaining / 2)
    } else if 0 < remaining < 500_000 {
        seq![500_000int] + split_factor(remaining * 2)
    } else {
        seq![remaining]
    }
}

/// The factors whose product is a speed given in thousandths, in millionths;
/// none where the speed is, or is nearly, the normal one.
pub open spec fn tempo_factors(speed_milli: u32) -> Seq<int> {
    let speed = clamped_speed(speed_milli) as int;
    if speed == 1000 || speed == 1001 {
        seq![]
    } else {
        split_factor(speed * 1000)
    }
}

/// The factors of a list.
pub open spec fn values(v: Seq<u32>) -> Seq<int> {
    Seq::new(v.len(), |i: int| v[i] as int)
}

/// Takes a speed, in thousandths, apart into factors between a half and two, in
/// millionths. There is none for the normal speed.
pub fn atempo_factors(speed_milli: u32) -> (r: Vec<u32>)
    ensures
        values(r@) == tempo_factors(speed_milli),
{
    let speed: u32 = clamp_speed(speed_milli);
    let mut out: Vec<u32> = Vec::new();
    if speed == 1000 || speed == 1001 {
        assert(values(out@) =~= seq![]);
        return out;
    }
    let mut remaining: u32 = speed * 1000;
    let ghost want = split_factor(speed * 1000);
    assert(values(out@) + split_factor(remaining as int) =~= want);
    while remaining > 2_000_000
        invariant
            remaining <= 4_000_000,
            remaining >= 250_000,
            values(out@) + split_factor(remaining as int) == want,
        decreases remaining,
    {
        let ghost before = values(out@);
        let ghost half = remaining as int / 2;
        out.push(2_000_000);
        assert(values(out@) =~= before.push(2_000_000));
        assert(values(out@) + split_factor(half) =~= before + (seq![2_000_000int] + split_factor(
            half,
        )));
        remaining = remaining / 2;
    }
    while remaining < 500_000
        invariant
            250_000 <= remaining <= 2_000_000,
            values(out@) + split_factor(remaining as int) == want,
        decreases 2_000_000 - remaining,
    {
        let ghost before = values(out@);
        let ghost twice = remaining as int * 2;
        out.push(500_000);
        assert(values(out@) =~= before.push(500_000));
        assert(values(out@) + split_factor(twice) =~= before + (seq![500_000int] + split_factor(
            twice,
        )));
        remaining = remaining * 2;
    }
    let ghost before = values(out@);
    out.push(remaining);
    assert(values(out@) =~= before + seq![remaining as int]);
    out
}

/// Whether one or two factors have the speed as their product.
pub open spec fn is_product(factors: Seq<int>, speed_milli: int) -> bool {
    ||| factors.len() == 1 && factors[0] == speed_milli * 1000
    ||| factors.len() == 2 && factors[0] * factors[1] == speed_milli * 1_000_000_000
}

/// Every factor is in the range of the filter, between a half and two, and
/// their product is the speed.
pub proof fn law_factors_multiply_to_the_speed(speed_milli: u32)
    requires
        250 <= speed_milli <= 4000,
    ensures
        tempo_factors(speed_milli).len() == 0 <==> 1000 <= speed_milli <= 1001,
        forall|i: int|
            0 <= i < tempo_factors(speed_milli).len() ==> 500_000 <= #[trigger] tempo_factors(
                speed_milli,
            )[i] <= 2_000_000,
        tempo_factors(speed_milli).len() > 0 ==> is_product(
            tempo_factors(speed_milli),
            speed_milli as int,
        ),
{
    let r = speed_milli * 1000;
    if speed_milli == 1000 || speed_milli == 1001 {
    } else if r > 2_000_000 {
        assert(split_factor(r / 2) == seq![r / 2]);
        assert(split_factor(r) == seq![2_000_000int, r / 2]);
    } else if r < 500_000 {
        assert(split_factor(r * 2) == seq![r * 2]);
        assert(split_factor(r) == seq![500_000int, r * 2]);
    } else {
        assert(split_factor(r) == seq![r]);
    }
}

// ---- Graph -----------------------------------------------------------------

/// A number of hundredths, with two decimals.
pub open spec fn centi_text(n: int) -> Seq<char> {
    let sign = if n < 0 {
        seq!['-']
    } else {
        seq![]
    };
    let m = if n < 0 {
        -n
    } else {
        n
    };
    sign + decimal((m / 100) as nat) + seq!['.'] + zero_padded(decimal((m % 100) as nat), 2)
}

/// A number of millionths, with six decimals.
pub open spec fn micro_text(n: nat) -> Seq<char> {
    decimal(n / 1_000_000) + seq!['.'] + zero_padded(decimal(n % 1_000_000), 6)
}

/// The filter of a band of the equaliser.
pub open spec fn band_filter(frequency: u32, gain: int) -> Seq<char> {
    "equalizer=f="@ + decimal(frequency as nat) + ":width_type=o:width=1:g="@ + centi_text(gain)
}

/// The gain, in hundredths of a decibel, up to which a band counts as flat.
pub const FLAT_GAIN: i32 = 5;

/// Whether a band counts as flat.
pub open spec fn is_flat(gain: i32) -> bool {
    -FLAT_GAIN <= gain <= FLAT_GAIN
}

/// The filters of the first `n` bands; a flat band has none.
pub open spec fn band_filters(gains: Seq<i32>, n: nat) -> Seq<Seq<char>>
    decreases n,
{
    if n == 0 {
        seq![]
    } else {
        let less = band_filters(gains, (n - 1) as nat);
        if !is_flat(gains[n - 1]) {
            less.push(band_filter(EQ_FREQUENCIES@[n - 1], gains[n - 1] as int))
        } else {
            less
        }
    }
}

/// The filters that change the speed.
pub open spec fn tempo_filters(factors: Seq<int>) -> Seq<Seq<char>> {
    Seq::new(factors.len(), |i: int| "atempo="@ + micro_text(factors[i] as nat))
}

/// The filter that converts to what the device plays.
pub open spec fn format_filter(rate: u32) -> Seq<char> {
    "aformat=sample_fmts=flt:channel_layouts=stereo:sample_rates="@ + decimal(rate as nat)
}

/// The graph for a speed (thousandths), gains (hundredths of a decibel) and the
/// rate of the device.
pub open spec fn graph_text(speed_milli: u32, gains: Seq<i32>, rate: u32) -> Seq<char> {
    join(
        band_filters(gains, 10) + tempo_filters(tempo_factors(speed_milli)) + seq![
            format_filter(rate),
        ],
        ","@,
    )
}

/// Adds a filter to a list of some.
pub(crate) fn push_filter(
    out: &mut Vec<char>,
    any: bool,
    filter: &[char],
    Ghost(filters): Ghost<Seq<Seq<char>>>,
)
    requires
        old(out)@ == join(filters, ","@),
        any == (filters.len() > 0),
    ensures
        final(out)@ == join(filters.push(filter@), ","@),
{
    if any {
        push_text(out, ",");
    }
    push_all(out, filter);
    proof {
        let more = filters.push(filter@);
        assert(more.drop_last() == filters);
        if filters.len() == 0 {
            assert(out@ =~= more[0]);
        }
    }
}

/// A number of hundredths, with two decimals.
fn write_centi(n: i32) -> (r: Vec<char>)
    ensures
        r@ == centi_text(n as int),
{
    let m: u64 = if n < 0 {
        (0i64 - n as i64) as u64
    } else {
        n as u64
    };
    let mut r: Vec<char> = Vec::new();
    if n < 0 {
        r.push('-');
    }
    let ghost sign = r@;
    let whole = write_decimal(m / 100);
    push_all(&mut r, &whole);
    r.push('.');
    let rest = write_padded(m % 100, 2);
    push_all(&mut r, &rest);
    assert(r@ =~= centi_text(n as int));
    r
}

/// A number of millionths, with six decimals.
fn write_micro(n: u32) -> (r: Vec<char>)
    ensures
        r@ == micro_text(n as nat),
{
    let mut r = write_decimal(n as u64 / 1_000_000);
    let ghost whole = r@;
    r.push('.');
    let rest = write_padded(n as u64 % 1_000_000, 6);
    push_all(&mut r, &rest);
    assert(r@ =~= whole + seq!['.'] + rest@);
    r
}

/// The graph for a speed (thousandths), gains (hundredths of a decibel) and the
/// rate of the device. Flat bands are left out, and so is the speed where it is
/// the normal one.
pub fn build_spec(speed_milli: u32, gains: &[i32; 10], device_rate: u32) -> (r: String)
    ensures
        r@ == graph_text(speed_milli, gains@, device_rate),
{
    let mut out: Vec<char> = Vec::new();
    let mut any: bool = false;
    let mut i: usize = 0;
    assert(out@ == join(band_filters(gains@, 0), ","@));
    while i < 10
        invariant
            i <= 10,
            out@ == join(band_filters(gains@, i as nat), ","@),
            any == (band_filters(gains@, i as nat).len() > 0),
        decreases 10 - i,
    {
        if gains[i] > FLAT_GAIN || gains[i] < -FLAT_GAIN {
            let mut filter = to_chars("equalizer=f=");
            let frequencies: [u32; 10] = EQ_FREQUENCIES;
            let f = write_decimal(frequencies[i] as u64);
            push_all(&mut filter, &f);
            push_text(&mut filter, ":width_type=o:width=1:g=");
            let g = write_centi(gains[i]);
            push_all(&mut filter, &g);
            push_filter(&mut out, any, &filter, Ghost(band_filters(gains@, i as nat)));
            any = true;
        }
        i = i + 1;
    }
    let ghost bands = band_filters(gains@, 10);
    let factors = atempo_factors(speed_milli);
    let ghost tempos = tempo_filters(tempo_factors(speed_milli));
    let mut k: usize = 0;
    assert(bands + tempos.take(0) =~= bands);
    while k < factors.len()
        invariant
            k <= factors@.len(),
            values(factors@) == tempo_factors(speed_milli),
            tempos == tempo_filters(tempo_factors(speed_milli)),
            out@ == join(bands + tempos.take(k as int), ","@),
            any == ((bands + tempos.take(k as int)).len() > 0),
        decreases factors@.len() - k,
    {
        let mut filter = to_chars("atempo=");
        let f = write_micro(factors[k]);
        push_all(&mut filter, &f);
        assert(values(factors@)[k as int] == factors@[k as int]);
        push_filter(&mut out, any, &filter, Ghost(bands + tempos.take(k as int)));
        assert((bands + tempos.take(k as int)).push(filter@) =~= bands + tempos.take(k + 1));
        any = true;
        k = k + 1;
    }
    assert(tempos.take(tempos.len() as int) == tempos);
    let mut filter = to_chars("aformat=sample_fmts=flt:channel_layouts=stereo:sample_rates=");
    let rate = write_decimal(device_rate as u64);
    push_all(&mut filter, &rate);
    push_filter(&mut out, any, &filter, Ghost(bands + tempos));
    assert((bands + tempos).push(filter@) =~= bands + tempos + seq![format_filter(device_rate)]);
    from_chars(&out)
}

/// The graph of a session: its loudness is evened out first, where that is wanted.
pub open spec fn session_graph(shared: SharedState, rate: u32) -> Seq<char> {
    let rest = graph_text(shared.speed_milli, shared.equalizer@, rate);
    if shared.normalize {
        "dynaudnorm,"@ + rest
    } else {
        rest
    }
}

/// The graph of a session.
pub fn session_spec(shared: &SharedState, device_rate: u32) -> (r: String)
    ensures
        r@ == session_graph(*shared, device_rate),
{
    let gains: [i32; 10] = shared.equalizer_gains();
    let rest = build_spec(shared.speed(), &gains, device_rate);
    if shared.normalize_enabled() {
        glue("dynaudnorm,", rest.as_str())
    } else {
        rest
    }
}

/// At least one.
pub open spec fn at_least_one(n: i32) -> int {
    if n < 1 {
        1
    } else {
        n as int
    }
}

/// A time base as the filters take it: both its parts are at least one.
pub open spec fn time_base_text(base: Rational) -> Seq<char> {
    decimal_int(at_least_one(base.num)) + "/"@ + decimal_int(at_least_one(base.den))
}

/// A time base as the filters take it.
pub fn write_time_base(base: Rational) -> (r: Vec<char>)
    ensures
        r@ == time_base_text(base),
{
    let num: i64 = if base.num < 1 {
        1
    } else {
        base.num as i64
    };
    let den: i64 = if base.den < 1 {
        1
    } else {
        base.den as i64
    };
    let mut r = write_int(num);
    push_text(&mut r, "/");
    let d = write_int(den);
    push_all(&mut r, &d);
    r
}

/// The arguments of the source of an audio graph.
pub fn audio_source_args(base: Rational, in_rate: u32, format: &str, layout: &str) -> (r: String)
    ensures
        r@ == "time_base="@ + time_base_text(base) + ":sample_rate="@ + decimal(in_rate as nat)
            + ":sample_fmt="@ + format@ + ":channel_layout="@ + layout@,
{
    let mut out = to_chars("time_base=");
    let b = write_time_base(base);
    push_all(&mut out, &b);
    push_text(&mut out, ":sample_rate=");
    let rate = write_decimal(in_rate as u64);
    push_all(&mut out, &rate);
    push_text(&mut out, ":sample_fmt=");
    push_text(&mut out, format);
    push_text(&mut out, ":channel_layout=");
    push_text(&mut out, layout);
    from_chars(&out)
}

/// What an audio graph was built for.
#[derive(Debug, Clone, Copy, PartialEq, Eq, Structural)]
pub struct AudioGraphKey {
    /// The number of the sample format.
    pub in_format: i32,
    pub in_channels: u32,
    pub in_rate: u32,
    pub speed_milli: u32,
    pub eq_generation: u64,
}

/// What an audio graph has to be built for now, unless the layout is unknown.
/// The speed is at least a quarter.
pub fn audio_graph_key(
    in_format: i32,
    in_channels: u32,
    in_rate: u32,
    speed_milli: u32,
    eq_generation: u64,
) -> (r: Option<AudioGraphKey>)
    ensures
        r == (if in_channels == 0 {
            None
        } else {
            Some(
                AudioGraphKey {
                    in_format,
                    in_channels,
                    in_rate,
                    speed_milli: if speed_milli < 250 {
                        250
                    } else {
                        speed_milli
                    },
                    eq_generation,
                },
            )
        }),
{
    if in_channels == 0 {
        return None;
    }
    Some(
        AudioGraphKey {
            in_format,
            in_channels,
            in_rate,
            speed_milli: if speed_milli < 250 {
                250
            } else {
                speed_milli
            },
            eq_generation,
        },
    )
}

/// Whether a graph has to be built anew.
pub fn audio_graph_is_stale(built: Option<AudioGraphKey>, wanted: AudioGraphKey) -> (r: bool)
    ensures
        r == (built != Some(wanted)),
{
    match built {
        Some(key) => !(key == wanted),
        None => true,
    }
}

// ---- Laws ------------------------------------------------------------------

/// A number of hundredths reads as its whole part, a point and two digits, with a
/// sign before it where it is negative.
pub proof fn law_hundredths_read_as_decimals(whole: nat, part: nat)
    requires
        part < 100,
    ensures
        ({
            let text = decimal(whole) + seq!['.'] + zero_padded(decimal(part), 2);
            &&& centi_text((whole * 100 + part) as int) == text
            &&& whole + part > 0 ==> centi_text(-(whole * 100 + part)) == seq!['-'] + text
        }),
{
    let n = whole * 100 + part;
    assert(n / 100 == whole && n % 100 == part);
    let none = Seq::<char>::empty();
    assert(none + decimal(whole) == decimal(whole));
    let text = decimal(whole) + seq!['.'] + zero_padded(decimal(part), 2);
    assert(centi_text(n as int) == text);
    if n > 0 {
        assert(centi_text(-n) == seq!['-'] + text);
    }
}

/// A number of millionths reads as its whole part, a point and six digits.
pub proof fn law_millionths_read_as_decimals(whole: nat, part: nat)
    requires
        part < 1_000_000,
    ensures
        micro_text(whole * 1_000_000 + part) == decimal(whole) + seq!['.'] + zero_padded(
            decimal(part),
            6,
        ),
{
    let n = whole * 1_000_000 + part;
    assert(n / 1_000_000 == whole && n % 1_000_000 == part);
}

/// Each band with a gain of more than a twentieth of a decibel up or down has a
/// filter with its frequency and its gain, in the order of the bands, and no other
/// has one.
pub proof fn law_each_band_has_its_filter(gains: Seq<i32>, n: nat)
    requires
        n < 10,
    ensures
        band_filters(gains, 0) == Seq::<Seq<char>>::empty(),
        -5 <= gains[n as int] <= 5 ==> band_filters(gains, n + 1) == band_filters(gains, n),
        gains[n as int] < -5 || gains[n as int] > 5 ==> band_filters(gains, n + 1) == band_filters(
            gains,
            n,
        ).push(
            "equalizer=f="@ + decimal(EQ_FREQUENCIES@[n as int] as nat)
                + ":width_type=o:width=1:g="@ + centi_text(gains[n as int] as int),
        ),
{
}

/// Sound with a flat equaliser at normal speed is only converted to what the device
/// plays.
pub proof fn law_flat_sound_is_only_converted(gains: Seq<i32>, rate: u32)
    requires
        gains.len() == 10,
        forall|i: int| 0 <= i < 10 ==> -5 <= #[trigger] gains[i] <= 5,
    ensures
        graph_text(1000, gains, rate) == format_filter(rate),
{
    lemma_no_bands(gains, 10);
    let none = Seq::<Seq<char>>::empty();
    assert(tempo_filters(tempo_factors(1000)) == none);
    assert(none + none + seq![format_filter(rate)] == seq![format_filter(rate)]);
}

proof fn lemma_no_bands(gains: Seq<i32>, n: nat)
    requires
        n <= gains.len(),
        forall|i: int| 0 <= i < gains.len() ==> -5 <= #[trigger] gains[i] <= 5,
    ensures
        band_filters(gains, n) == Seq::<Seq<char>>::empty(),
    decreases n,
{
    if n > 0 {
        lemma_no_bands(gains, (n - 1) as nat);
    }
}

/// The bands of the equaliser lie an octave apart, around a thousand hertz.
pub proof fn law_bands_lie_an_octave_apart(i: int)
    requires
        0 <= i < 9,
    ensures
        2 * EQ_FREQUENCIES@[i] <= EQ_FREQUENCIES@[i + 1] <= 2 * EQ_FREQUENCIES@[i] + 1,
        EQ_FREQUENCIES@[5] == 1000,
{
}

/// Each factor of the speed has a filter of its own, with its value.
pub proof fn law_each_factor_has_its_filter(factors: Seq<int>, i: int)
    requires
        0 <= i < factors.len(),
        0 <= factors[i],
    ensures
        tempo_filters(factors).len() == factors.len(),
        tempo_filters(factors)[i] == "atempo="@ + micro_text(factors[i] as nat),
{
}

/// Whatever sound passes, it is converted last, to pairs of samples in single precision
/// at the rate of the device; evening out comes first, where it is wanted.
pub proof fn law_sound_is_converted_last(shared: SharedState, rate: u32)
    ensures
        ends_with(
            session_graph(shared, rate),
            "aformat=sample_fmts=flt:channel_layouts=stereo:sample_rates="@ + decimal(rate as nat),
        ),
        shared.normalize ==> starts_with(session_graph(shared, rate), "dynaudnorm,"@),
        !shared.normalize ==> session_graph(shared, rate) == graph_text(
            shared.speed_milli,
            shared.equalizer@,
            rate,
        ),
{
    let last = format_filter(rate);
    let all = band_filters(shared.equalizer@, 10) + tempo_filters(tempo_factors(shared.speed_milli))
        + seq![last];
    let rest = graph_text(shared.speed_milli, shared.equalizer@, rate);
    let n = last.len() as int;
    assert(all.last() == last);
    assert(rest.len() >= n && rest.skip(rest.len() - n) == last) by {
        if all.len() == 1 {
            assert(rest == last);
        } else {
            let head = join(all.drop_last(), ","@) + ","@;
            assert(rest == head + last);
        }
    }
    let g = session_graph(shared, rate);
    assert(g.skip(g.len() - n) == last) by {
        if shared.normalize {
            assert(g == "dynaudnorm,"@ + rest);
        }
    }
    assert(g.subrange(g.len() - n, g.len() as int) == last);
    if shared.normalize {
        let p = "dynaudnorm,"@;
        assert(g.subrange(0, p.len() as int) == p);
    }
}

/// A time base that the filters can take is kept, and each part of another is at least
/// one.
pub proof fn law_time_base_is_positive(n: i32)
    ensures
        at_least_one(n) >= 1,
        n >= 1 ==> at_least_one(n) == n,
        n < 1 ==> at_least_one(n) == 1,
{
}

} // verus!
