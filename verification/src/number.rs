//! Numbers in text: reading and writing integers.

use crate::text::push_all;
use vstd::prelude::*;

verus! {

// ---- Digits ----------------------------------------------------------------

/// Whether `c` is one of the ten ASCII digits.
pub open spec fn is_digit(c: char) -> bool {
    '0' as u32 <= c as u32 <= '9' as u32
}

/// The value of `c` as a digit, in either case for the letters; 99 for a
/// character that is no digit in any radix up to sixteen.
pub open spec fn digit_value(c: char) -> nat {
    let u = c as u32 as int;
    if '0' as u32 <= u <= '9' as u32 {
        (u - '0' as u32) as nat
    } else if 'a' as u32 <= u <= 'f' as u32 {
        (u - 'a' as u32 + 10) as nat
    } else if 'A' as u32 <= u <= 'F' as u32 {
        (u - 'A' as u32 + 10) as nat
    } else {
        99
    }
}

/// The digit that stands for `d`, which is below ten.
pub open spec fn digit_char(d: nat) -> char
    recommends
        d < 10,
{
    ('0' as u32 + d) as char
}

/// Whether `s` is made of digits of `radix`, and of at least one.
pub open spec fn is_number(s: Seq<char>, radix: nat) -> bool {
    &&& s.len() > 0
    &&& forall|i: int| 0 <= i < s.len() ==> digit_value(#[trigger] s[i]) < radix
}

/// The number that the digits of `s` write in `radix`.
pub open spec fn number_value(s: Seq<char>, radix: nat) -> nat
    decreases s.len(),
{
    if s.len() == 0 {
        0
    } else {
        number_value(s.drop_last(), radix) * radix + digit_value(s.last())
    }
}

/// Whether `c` is one of the ten ASCII digits.
pub fn is_ascii_digit(c: char) -> (b: bool)
    ensures
        b == is_digit(c),
{
    let u: u32 = c as u32;
    0x30 <= u && u <= 0x39
}

/// The value of `c` as a digit.
pub fn to_digit(c: char) -> (d: u64)
    ensures
        d == digit_value(c),
        d <= 99,
{
    let u: u32 = c as u32;
    if 0x30 <= u && u <= 0x39 {
        (u - 0x30) as u64
    } else if 0x61 <= u && u <= 0x66 {
        (u - 0x61 + 10) as u64
    } else if 0x41 <= u && u <= 0x46 {
        (u - 0x41 + 10) as u64
    } else {
        99
    }
}

// ---- Reading ---------------------------------------------------------------

/// More digits do not make a number smaller.
proof fn lemma_prefix_value(s: Seq<char>, radix: nat, n: int)
    requires
        radix > 0,
        0 <= n <= s.len(),
    ensures
        number_value(s.take(n), radix) <= number_value(s, radix),
    decreases s.len(),
{
    if n < s.len() {
        lemma_prefix_value(s.drop_last(), radix, n);
        assert(s.drop_last().take(n) == s.take(n));
        let v = number_value(s.drop_last(), radix);
        assert(v <= v * radix) by (nonlinear_arith)
            requires
                radix > 0,
        ;
    } else {
        assert(s.take(n) == s);
    }
}

/// The number that `s` writes in `radix`, where it is one and is at most `max`.
pub fn read_number(s: &[char], radix: u64, max: u64) -> (r: Option<u64>)
    requires
        2 <= radix <= 16,
    ensures
        r matches Some(v) ==> is_number(s@, radix as nat) && v == number_value(s@, radix as nat)
            && v <= max,
        r is None ==> !is_number(s@, radix as nat) || number_value(s@, radix as nat) > max,
{
    if s.len() == 0 {
        return None;
    }
    let mut total: u64 = 0;
    let mut i: usize = 0;
    while i < s.len()
        invariant
            2 <= radix <= 16,
            i <= s@.len(),
            s@.len() > 0,
            total <= max,
            total == number_value(s@.take(i as int), radix as nat),
            forall|k: int| 0 <= k < i ==> digit_value(#[trigger] s@[k]) < radix,
        decreases s@.len() - i,
    {
        let d: u64 = to_digit(s[i]);
        if d >= radix {
            assert(digit_value(s@[i as int]) >= radix);
            return None;
        }
        proof {
            assert(s@.take(i + 1).drop_last() == s@.take(i as int));
            assert(total * radix + d <= u64::MAX * 16 + 99) by (nonlinear_arith)
                requires
                    total <= u64::MAX,
                    2 <= radix <= 16,
                    d <= 99,
            ;
        }
        let next: u128 = (total as u128) * (radix as u128) + d as u128;
        assert(next == number_value(s@.take(i + 1), radix as nat));
        if next > max as u128 {
            proof {
                lemma_prefix_value(s@, radix as nat, i + 1);
            }
            return None;
        }
        total = next as u64;
        i = i + 1;
    }
    assert(s@.take(s@.len() as int) == s@);
    Some(total)
}

/// The unsigned integer that `s` writes in `radix`, if it is at most `max`. A
/// plus sign may stand before the digits.
pub open spec fn parse_unsigned(s: Seq<char>, radix: nat, max: nat) -> Option<nat> {
    let digits = if s.len() > 0 && s[0] == '+' {
        s.skip(1)
    } else {
        s
    };
    if is_number(digits, radix) && number_value(digits, radix) <= max {
        Some(number_value(digits, radix))
    } else {
        None
    }
}

/// The 64-bit signed integer that `s` writes in decimal. A sign may stand
/// before the digits.
pub open spec fn parse_signed(s: Seq<char>) -> Option<int> {
    if s.len() > 0 && s[0] == '-' {
        match parse_unsigned_digits(s.skip(1), 0x8000_0000_0000_0000) {
            Some(v) => Some(-(v as int)),
            None => None,
        }
    } else {
        match parse_unsigned(s, 10, 0x7fff_ffff_ffff_ffff) {
            Some(v) => Some(v as int),
            None => None,
        }
    }
}

/// The number that the decimal digits of `s` write, if it is at most `max`.
pub open spec fn parse_unsigned_digits(s: Seq<char>, max: nat) -> Option<nat> {
    if is_number(s, 10) && number_value(s, 10) <= max {
        Some(number_value(s, 10))
    } else {
        None
    }
}

/// The unsigned integer that `s` writes in `radix`, if it is at most `max`.
pub fn read_unsigned(s: &[char], radix: u64, max: u64) -> (r: Option<u64>)
    requires
        2 <= radix <= 16,
    ensures
        r matches Some(v) ==> parse_unsigned(s@, radix as nat, max as nat) == Some(v as nat) && v
            <= max,
        r is None ==> parse_unsigned(s@, radix as nat, max as nat) is None,
{
    if s.len() > 0 && s[0] == '+' {
        let digits = crate::text::part(s, 1, s.len());
        assert(digits@ == s@.skip(1));
        read_number(digits, radix, max)
    } else {
        read_number(s, radix, max)
    }
}

/// The 64-bit signed integer that `s` writes in decimal.
pub fn read_i64(s: &[char]) -> (r: Option<i64>)
    ensures
        r matches Some(v) ==> parse_signed(s@) == Some(v as int),
        r is None ==> parse_signed(s@) is None,
{
    if s.len() > 0 && s[0] == '-' {
        let digits = crate::text::part(s, 1, s.len());
        assert(digits@ == s@.skip(1));
        match read_number(digits, 10, 0x8000_0000_0000_0000) {
            Some(v) => Some((0i128 - v as i128) as i64),
            None => None,
        }
    } else {
        match read_unsigned(s, 10, 0x7fff_ffff_ffff_ffff) {
            Some(v) => Some(v as i64),
            None => None,
        }
    }
}

// ---- Writing ---------------------------------------------------------------

/// The decimal digits of `n`.
pub open spec fn decimal(n: nat) -> Seq<char>
    decreases n,
{
    if n < 10 {
        seq![digit_char(n)]
    } else {
        decimal(n / 10).push(digit_char(n % 10))
    }
}

/// The decimal digits of `n` after its sign.
pub open spec fn decimal_int(n: int) -> Seq<char> {
    if n < 0 {
        seq!['-'] + decimal((-n) as nat)
    } else {
        decimal(n as nat)
    }
}

/// `s` with zeros before it, up to `width` characters.
pub open spec fn zero_padded(s: Seq<char>, width: nat) -> Seq<char> {
    if s.len() < width {
        Seq::new((width - s.len()) as nat, |i: int| '0') + s
    } else {
        s
    }
}

/// The decimal digits of `n`.
pub fn write_decimal(n: u64) -> (r: Vec<char>)
    ensures
        r@ == decimal(n as nat),
    decreases n,
{
    let mut r: Vec<char> = if n >= 10 {
        write_decimal(n / 10)
    } else {
        Vec::new()
    };
    let c: char = (0x30u8 + (n % 10) as u8) as char;
    assert(c == digit_char((n % 10) as nat));
    r.push(c);
    assert(n < 10 ==> r@ == seq![c]);
    r
}

/// The decimal digits of `n` after its sign.
pub fn write_int(n: i64) -> (r: Vec<char>)
    ensures
        r@ == decimal_int(n as int),
{
    if n < 0 {
        let mut r: Vec<char> = vec!['-'];
        let d = write_decimal((0i128 - n as i128) as u64);
        push_all(&mut r, &d);
        r
    } else {
        write_decimal(n as u64)
    }
}

/// The decimal digits of `n`, with zeros before them up to `width` characters.
pub fn write_padded(n: u64, width: usize) -> (r: Vec<char>)
    ensures
        r@ == zero_padded(decimal(n as nat), width as nat),
{
    let digits = write_decimal(n);
    let mut r: Vec<char> = Vec::new();
    let mut k: usize = digits.len();
    assert(r@ == Seq::new(0nat, |i: int| '0'));
    while k < width
        invariant
            r@.len() + digits@.len() == k,
            r@ == Seq::new(r@.len(), |i: int| '0'),
            digits@.len() <= k,
            k <= width || k == digits@.len(),
        decreases width - k,
    {
        r.push('0');
        k = k + 1;
    }
    push_all(&mut r, &digits);
    assert(digits@.len() >= width ==> r@ == digits@);
    r
}

// ---- Laws ------------------------------------------------------------------

/// The decimal digits of a number write that number, without zeros before it.
pub proof fn law_decimal_reads_back(n: nat)
    ensures
        is_number(decimal(n), 10),
        number_value(decimal(n), 10) == n,
        forall|i: int| 0 <= i < decimal(n).len() ==> is_digit(#[trigger] decimal(n)[i]),
        n > 0 ==> decimal(n)[0] != '0',
        n < 10 ==> decimal(n).len() == 1,
    decreases n,
{
    let c = digit_char(n % 10);
    assert(c as u32 == '0' as u32 + n % 10);
    if n >= 10 {
        law_decimal_reads_back(n / 10);
        let head = decimal(n / 10);
        assert(decimal(n).drop_last() == head);
        assert forall|i: int| 0 <= i < decimal(n).len() implies is_digit(#[trigger] decimal(n)[i])
            && digit_value(decimal(n)[i]) < 10 by {
            if i < head.len() {
                assert(decimal(n)[i] == head[i]);
            }
        }
    } else {
        assert(decimal(n) == seq![c]);
        assert(decimal(n).drop_last() == Seq::<char>::empty());
        assert(number_value(Seq::<char>::empty(), 10) == 0);
    }
}

proof fn lemma_zeros_before(k: nat, s: Seq<char>)
    ensures
        number_value(Seq::new(k, |i: int| '0') + s, 10) == number_value(s, 10),
    decreases k + s.len(),
{
    let zeros = Seq::new(k, |i: int| '0');
    let whole = zeros + s;
    if s.len() > 0 {
        lemma_zeros_before(k, s.drop_last());
        assert(whole.drop_last() == zeros + s.drop_last());
    } else if k > 0 {
        lemma_zeros_before((k - 1) as nat, s);
        assert(whole.drop_last() == Seq::new((k - 1) as nat, |i: int| '0') + s);
        assert(whole.last() == '0');
    } else {
        assert(whole == s);
    }
}

/// Zeros before a number fill it up to its width and do not change it.
pub proof fn law_padding_keeps_the_number(n: nat, width: nat)
    ensures
        is_number(zero_padded(decimal(n), width), 10),
        number_value(zero_padded(decimal(n), width), 10) == n,
        forall|i: int|
            0 <= i < zero_padded(decimal(n), width).len() ==> is_digit(
                #[trigger] zero_padded(decimal(n), width)[i],
            ),
        zero_padded(decimal(n), width).len() >= width,
        decimal(n).len() >= width ==> zero_padded(decimal(n), width) == decimal(n),
        decimal(n).len() <= width ==> zero_padded(decimal(n), width).len() == width,
{
    law_decimal_reads_back(n);
    let d = decimal(n);
    if d.len() < width {
        let k = (width - d.len()) as nat;
        lemma_zeros_before(k, d);
        let p = zero_padded(d, width);
        assert forall|i: int| 0 <= i < p.len() implies is_digit(#[trigger] p[i]) && digit_value(
            p[i],
        ) < 10 by {
            if i >= k {
                assert(p[i] == d[i - k]);
            }
        }
    }
}

/// How many digits a small number has.
pub proof fn law_small_numbers_are_short(n: nat)
    ensures
        decimal(n).len() <= 2 <==> n < 100,
        decimal(n).len() <= 3 <==> n < 1000,
{
    reveal_with_fuel(decimal, 5);
}

/// A 64-bit integer that is written in decimal is read back, with its sign.
pub proof fn law_signed_reads_back(n: i64)
    ensures
        parse_signed(decimal_int(n as int)) == Some(n as int),
{
    let v: nat = if n < 0 {
        (-(n as int)) as nat
    } else {
        n as nat
    };
    let d = decimal(v);
    law_decimal_reads_back(v);
    assert(is_digit(d[0]));
    if n < 0 {
        assert((seq!['-'] + d).skip(1) == d);
    }
}

/// An unsigned number that is written in decimal is read back where it is at most
/// the largest allowed, and else is not read.
pub proof fn law_unsigned_reads_back(n: nat, max: nat)
    ensures
        parse_unsigned(decimal(n), 10, max) == (if n <= max {
            Some(n)
        } else {
            None
        }),
        parse_unsigned(seq!['+'] + decimal(n), 10, max) == parse_unsigned(decimal(n), 10, max),
{
    law_decimal_reads_back(n);
    assert(is_digit(decimal(n)[0]));
    assert((seq!['+'] + decimal(n)).skip(1) == decimal(n));
}

/// The digits of sixteen go on with the letters from `a` to `f`, in either case; no other
/// character is a digit.
pub proof fn law_digits_have_their_values(c: char)
    ensures
        is_digit(c) ==> digit_value(c) == c as u32 - '0' as u32,
        'a' as u32 <= c as u32 <= 'f' as u32 ==> digit_value(c) == c as u32 - 'a' as u32 + 10,
        'A' as u32 <= c as u32 <= 'F' as u32 ==> digit_value(c) == c as u32 - 'A' as u32 + 10,
        digit_value(c) < 10 <==> is_digit(c),
        is_digit(c) <==> 0x30 <= c as u32 <= 0x39,
{
}

/// A text with anything but digits in it, or with none, is no number.
pub proof fn law_words_are_no_numbers(s: Seq<char>, max: nat, i: int)
    requires
        s.len() == 0 || (0 <= i < s.len() && !is_digit(s[i]) && s[0] != '+' && s[0] != '-'),
    ensures
        parse_unsigned(s, 10, max) is None,
        parse_signed(s) is None,
{
    if s.len() > 0 {
        assert(digit_value(s[i]) >= 10);
    }
}

} // verus!
