//! Commands to the demuxer, and the time bases of streams.

use vstd::prelude::*;

verus! {

/// A command to the demuxer.
#[derive(Debug, Clone, Copy, PartialEq, Eq, Structural)]
pub enum DemuxCommand {
    /// Go to this position (microseconds).
    Seek(i64),
    /// Play this audio stream.
    SelectAudioTrack(usize),
    /// Show this subtitle stream, or none.
    SelectSubtitleTrack(Option<usize>),
}

/// What the demuxer is started with.
#[derive(Debug)]
pub struct DemuxConfig {
    /// Local path or URL.
    pub source: String,
    /// Where to begin (microseconds).
    pub start_at_us: Option<i64>,
    /// Whether there is an audio output.
    pub audio_enabled: bool,
}

/// A fraction, such as the unit of a stream's timestamps in seconds.
#[derive(Debug, Clone, Copy, PartialEq, Eq, Structural)]
pub struct Rational {
    pub num: i32,
    pub den: i32,
}

/// The quotient, rounded toward zero.
pub open spec fn quotient(a: int, b: int) -> int {
    let p = if a < 0 {
        -a
    } else {
        a
    };
    let q = if b < 0 {
        -b
    } else {
        b
    };
    if (a < 0) == (b < 0) {
        p / q
    } else {
        -(p / q)
    }
}

/// A timestamp in microseconds, rounded toward zero: as a 64-bit integer, and
/// zero where the time base has no denominator.
pub open spec fn timestamp_to_us(ts: i64, base: Rational) -> i64 {
    if base.den == 0 {
        0
    } else {
        quotient(ts * base.num * 1_000_000, base.den as int) as i64
    }
}

/// A timestamp in microseconds.
pub fn ts_to_us(ts: i64, base: Rational) -> (r: i64)
    ensures
        r == timestamp_to_us(ts, base),
{
    if base.den == 0 {
        return 0;
    }
    assert(-0x8000_0000_0000_0000 * 0x8000_0000 <= ts * base.num <= 0x8000_0000_0000_0000
        * 0x8000_0000) by (nonlinear_arith)
        requires
            -0x8000_0000_0000_0000 <= ts <= 0x8000_0000_0000_0000,
            -0x8000_0000 <= base.num <= 0x8000_0000,
    ;
    let a: i128 = ts as i128 * base.num as i128 * 1_000_000;
    let b: i128 = base.den as i128;
    let p: i128 = if a < 0 {
        -a
    } else {
        a
    };
    let q: i128 = if b < 0 {
        -b
    } else {
        b
    };
    let m: u128 = p as u128 / q as u128;
    assert(m <= p) by (nonlinear_arith)
        requires
            m == p as int / (q as int),
            p >= 0,
            q >= 1,
    ;
    let value: i128 = if (a < 0) == (b < 0) {
        m as i128
    } else {
        -(m as i128)
    };
    value as i64
}

// ---- Laws ------------------------------------------------------------------

/// A timestamp in microseconds is the one given times its time base, rounded toward
/// zero; what lies before zero mirrors what lies behind it, and a time base without
/// a denominator gives zero.
pub proof fn law_timestamp_is_scaled(ts: i64, base: Rational)
    requires
        0 <= ts,
        0 <= base.num,
        0 < base.den,
        ts * base.num * 1_000_000 < base.den * 0x8000_0000_0000_0000,
    ensures
        ({
            let us = timestamp_to_us(ts, base);
            &&& us * base.den <= ts * base.num * 1_000_000 < (us + 1) * base.den
            &&& timestamp_to_us((-ts) as i64, base) == -us
        }),
        timestamp_to_us(ts, Rational { num: base.num, den: 0 }) == 0,
{
    let (t, n, d) = (ts as int, base.num as int, base.den as int);
    let a = t * n * 1_000_000;
    assert(0 <= t * n) by (nonlinear_arith)
        requires
            0 <= t,
            0 <= n,
    ;
    vstd::arithmetic::div_mod::lemma_fundamental_div_mod(a, d);
    vstd::arithmetic::div_mod::lemma_mod_bound(a, d);
    let q = a / d;
    assert(q * d <= a < (q + 1) * d && 0 <= q < 0x8000_0000_0000_0000) by (nonlinear_arith)
        requires
            a == d * q + a % d,
            0 <= a % d < d,
            0 <= a < d * 0x8000_0000_0000_0000,
    ;
    assert((-t) * n == -(t * n)) by (nonlinear_arith);
    assert(quotient(a, d) == q);
    assert(quotient(-a, d) == -q) by {
        if a == 0 {
            assert(q == 0) by (nonlinear_arith)
                requires
                    q * d <= 0 < (q + 1) * d,
                    0 < d,
            ;
        }
    }
}

} // verus!
