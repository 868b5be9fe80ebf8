//! The reading-time estimate of a text.
//!
//! A reader is taken to manage 200 words a minute. The time for a count of
//! words is worked out in single precision: the quotient of the count and
//! the rate is rounded, its integer part gives the minutes, and what is left
//! of it, times sixty and rounded again, gives the seconds to the nearest
//! integer. The two roundings are part of the result: at a few counts the
//! seconds come out one less than exact arithmetic would give.

use vstd::prelude::*;
use vstd::string::*;
use crate::single::{
    lemma_single, round_single, single, DIVISOR_MAX, MANTISSA_END, MANTISSA_MIN,
};
use crate::words::{count_words, word_count};

verus! {

/// The number of words read in a minute.
pub const WORDS_PER_MINUTE: u64 = 200;

/// The number of seconds in a minute.
pub const SECONDS_PER_MINUTE: u64 = 60;

/// The whole minutes that reading `words` words takes.
pub open spec fn minutes_of(words: nat) -> nat {
    single(words, WORDS_PER_MINUTE as nat).whole()
}

/// The seconds that reading `words` words takes beyond the whole minutes.
pub open spec fn seconds_of(words: nat) -> nat {
    single(words, WORDS_PER_MINUTE as nat).fraction().times(SECONDS_PER_MINUTE as nat).nearest()
}

/// The character for the decimal digit `d`.
pub open spec fn digit(d: nat) -> char
    recommends
        d < 10,
{
    (0x30 + d) as char
}

/// The decimal digits of `n`, with a zero in front where there is only one.
pub open spec fn padded_decimal(n: nat) -> Seq<char>
    recommends
        n < 256,
{
    if n < 100 {
        seq![digit(n / 10), digit(n % 10)]
    } else {
        seq![digit(n / 100), digit(n / 10 % 10), digit(n % 10)]
    }
}

/// A time as it is shown: `0s` for no time at all, otherwise the minutes
/// and the seconds with a colon between them.
pub open spec fn clock(minutes: nat, seconds: nat) -> Seq<char> {
    if minutes == 0 && seconds == 0 {
        seq!['0', 's']
    } else {
        padded_decimal(minutes) + seq![':'] + padded_decimal(seconds)
    }
}

/// The reading time of `words` words as it is shown.
pub open spec fn read_time_of(words: nat) -> Seq<char> {
    clock(minutes_of(words), seconds_of(words))
}

/// For a count that fits in eight bits the minutes are the exact quotient of
/// the count and the rate, the seconds are at most sixty, and the numbers met
/// on the way stay small.
pub proof fn lemma_read_time_bounds(words: nat)
    requires
        words < 256,
    ensures
        minutes_of(words) == words / 200,
        minutes_of(words) <= 1,
        seconds_of(words) <= 60,
        single(words, WORDS_PER_MINUTE as nat).unit <= DIVISOR_MAX,
        single(words, WORDS_PER_MINUTE as nat).fraction().mant < single(
            words,
            WORDS_PER_MINUTE as nat,
        ).unit,
{
    let t = single(words, 200);
    lemma_single(words, 200);
    let u = t.unit;
    let m = t.mant;
    if words == 0 {
        assert(t.whole() == 0 && t.fraction().mant == 0);
        lemma_single(0, 1);
        assert(t.fraction().times(60) == single(0, 1));
    } else {
        // the integer part
        assert(u <= words * u <= 255 * u) by (nonlinear_arith)
            requires
                1 <= words <= 255,
                u >= 1,
        ;
        assert(m < 2 * u);
        if words < 200 {
            assert(words * u <= 199 * u) by (nonlinear_arith)
                requires
                    words <= 199,
                    u >= 1,
            ;
            assert(m / u == 0) by (nonlinear_arith)
                requires
                    m < u,
            ;
        } else {
            assert(words * u >= 200 * u) by (nonlinear_arith)
                requires
                    words >= 200,
                    u >= 1,
            ;
            assert(m / u == 1) by (nonlinear_arith)
                requires
                    u <= m < 2 * u,
            ;
        }
        // what is left, times sixty
        let f = m % u;
        assert(f < u) by (nonlinear_arith)
            requires
                f == m % u,
                u >= 1,
        ;
        assert(f * 60 < u * MANTISSA_END);
        let p = single(f * 60, u);
        assert(p == t.fraction().times(60));
        lemma_single(f * 60, u);
        let pm = p.mant;
        let pu = p.unit;
        assert((f * 60) * pu <= 60 * (u - 1) * pu) by (nonlinear_arith)
            requires
                f <= u - 1,
                pu >= 1,
        ;
        assert(pm <= 60 * pu) by (nonlinear_arith)
            requires
                2 * (pm * u - (f * 60) * pu) <= u,
                (f * 60) * pu <= 60 * (u - 1) * pu,
                u >= 1,
                pu >= 1,
        ;
        assert((2 * pm + pu) / (2 * pu) <= 60) by (nonlinear_arith)
            requires
                pm <= 60 * pu,
                pu >= 1,
        ;
    }
}

/// The seconds beyond the whole minutes in exact arithmetic: sixty times
/// what the count leaves over the rate, divided by the rate and rounded to
/// the nearest integer, a tie going upwards.
pub open spec fn exact_seconds(words: nat) -> nat {
    (3 * (words % 200) + 5) / 10
}

/// Single precision changes the seconds only at a tie. Where the exact
/// value does not lie halfway between two integers, the seconds are the
/// exact value rounded; where it does, they are that or one less.
pub proof fn lemma_seconds_near_exact(words: nat)
    requires
        words < 256,
    ensures
        seconds_of(words) == exact_seconds(words) || (words % 10 == 5 && seconds_of(words) + 1
            == exact_seconds(words)),
{
    let t = single(words, 200);
    lemma_single(words, 200);
    lemma_read_time_bounds(words);
    let u = t.unit as int;
    let m = t.mant as int;
    let k = (words / 200) as int;
    let r = (words % 200) as int;
    if words == 0 {
        lemma_single(0, 1);
        assert(t.fraction().times(60) == single(0, 1));
        let zero = single(0, 1);
        assert(zero.nearest() == 0) by (nonlinear_arith)
            requires
                zero.mant == 0,
                zero.unit == 1,
                zero.nearest() == (2 * zero.mant + zero.unit) / (2 * zero.unit),
        ;
    } else {
        assert(u <= words * u <= 255 * u) by (nonlinear_arith)
            requires
                1 <= words <= 255,
                u >= 1,
        ;
        let f = (t.mant % t.unit) as int;
        assert(f == m - k * u && 0 <= f < u) by (nonlinear_arith)
            requires
                f == m % u,
                k == m / u,
                u >= 1,
        ;
        // what is left of the single-precision quotient is near the exact rest
        assert(words * u == 200 * (k * u) + r * u) by (nonlinear_arith)
            requires
                words == 200 * k + r,
        ;
        let gap = 200 * f - r * u;
        assert(-100 <= gap <= 100);
        let p = single((f * 60) as nat, u as nat);
        assert(p == t.fraction().times(60));
        lemma_single((f * 60) as nat, u as nat);
        let pm = p.mant as int;
        let pu = p.unit as int;
        let s = seconds_of(words) as int;
        assert(s == (2 * pm + pu) / (2 * pu));
        if f == 0 {
            assert(r * u <= 100);
            assert(r == 0) by (nonlinear_arith)
                requires
                    r * u <= 100,
                    u > 100,
                    r >= 0,
            ;
            assert(s == 0) by (nonlinear_arith)
                requires
                    pm == 0,
                    pu == 1,
                    s == (2 * pm + pu) / (2 * pu),
            ;
        } else {
            assert(60 * pu > MANTISSA_MIN) by (nonlinear_arith)
                requires
                    (f * 60) * pu >= u * MANTISSA_MIN,
                    0 < f < u,
                    pu >= 1,
            ;
            // the product, in tenths of a second and scaled by both units
            let scale = u * pu;
            let tenths = 10 * (pm * u);
            assert(3 * pu * gap == 600 * (f * pu) - 3 * r * scale && -300 * pu <= 3 * pu * gap
                <= 300 * pu) by (nonlinear_arith)
                requires
                    gap == 200 * f - r * u,
                    scale == u * pu,
                    -100 <= gap <= 100,
                    pu >= 1,
            ;
            assert((f * 60) * pu == 60 * (f * pu)) by (nonlinear_arith);
            assert(5 * u + 300 * pu < scale) by (nonlinear_arith)
                requires
                    scale == u * pu,
                    u >= 1000,
                    pu >= 1000,
            ;
            assert(3 * r * scale - scale < tenths < 3 * r * scale + scale);
            // the seconds are the integer within a half of the product
            assert(2 * pu * s <= 2 * pm + pu < 2 * pu * (s + 1)) by (nonlinear_arith)
                requires
                    s == (2 * pm + pu) / (2 * pu),
                    pu >= 1,
            ;
            assert((10 * s - 5) * scale <= tenths < (10 * s + 5) * scale) by (nonlinear_arith)
                requires
                    2 * pu * s <= 2 * pm + pu < 2 * pu * (s + 1),
                    scale == u * pu,
                    tenths == 10 * (pm * u),
                    u >= 1,
            ;
            assert(3 * r - 5 <= 10 * s <= 3 * r + 5) by (nonlinear_arith)
                requires
                    (10 * s - 5) * scale <= tenths < (10 * s + 5) * scale,
                    3 * r * scale - scale < tenths < 3 * r * scale + scale,
                    scale > 0,
            ;
        }
    }
}

/// The reading time of a count that fits in eight bits is shown as `0s` or
/// as two digits, a colon and two digits.
pub proof fn lemma_read_time_shape(words: nat)
    requires
        words < 256,
    ensures
        read_time_of(words) == seq!['0', 's'] || ({
            let shown = read_time_of(words);
            &&& shown.len() == 5
            &&& shown[2] == ':'
            &&& forall|i: int|
                0 <= i < 5 && i != 2 ==> exists|d: nat| d < 10 && #[trigger] shown[i] == digit(d)
        }),
{
    lemma_read_time_bounds(words);
    let minutes = minutes_of(words);
    let seconds = seconds_of(words);
    if !(minutes == 0 && seconds == 0) {
        let shown = read_time_of(words);
        assert(shown[0] == digit(minutes / 10));
        assert(shown[1] == digit(minutes % 10));
        assert(shown[3] == digit(seconds / 10));
        assert(shown[4] == digit(seconds % 10));
    }
}

/// The minutes and seconds that reading `words` words takes.
pub fn minutes_and_seconds(words: u8) -> (r: (u8, u8))
    ensures
        r.0 == minutes_of(words as nat),
        r.1 == seconds_of(words as nat),
        r.0 <= 1,
        r.1 <= 60,
{
    proof {
        lemma_read_time_bounds(words as nat);
    }
    let time = round_single(words as u64, WORDS_PER_MINUTE);
    let minutes: u64 = time.floor();
    let seconds: u64 = time.fract().times(SECONDS_PER_MINUTE).round();
    (minutes as u8, seconds as u8)
}

/// The decimal digit `d` as a string of one character.
fn digit_str(d: u8) -> (s: &'static str)
    requires
        d < 10,
    ensures
        s@ == seq![digit(d as nat)],
{
    proof {
        reveal_strlit("0");
        reveal_strlit("1");
        reveal_strlit("2");
        reveal_strlit("3");
        reveal_strlit("4");
        reveal_strlit("5");
        reveal_strlit("6");
        reveal_strlit("7");
        reveal_strlit("8");
        reveal_strlit("9");
    }
    let s = match d {
        0 => "0",
        1 => "1",
        2 => "2",
        3 => "3",
        4 => "4",
        5 => "5",
        6 => "6",
        7 => "7",
        8 => "8",
        _ => "9",
    };
    assert(s@ =~= seq![digit(d as nat)]);
    s
}

/// Writes `n` in decimal, with a zero in front where it has one digit only.
pub fn padded_decimal_string(n: u8) -> (s: String)
    ensures
        s@ == padded_decimal(n as nat),
{
    let mut s = String::new();
    if n >= 100 {
        s.append(digit_str(n / 100));
    }
    s.append(digit_str(n / 10 % 10));
    s.append(digit_str(n % 10));
    assert(s@ =~= padded_decimal(n as nat));
    s
}

/// Writes a time of `minutes` and `seconds` as it is shown.
pub fn format_clock(minutes: u8, seconds: u8) -> (s: String)
    ensures
        s@ == clock(minutes as nat, seconds as nat),
{
    if minutes == 0 && seconds == 0 {
        proof {
            reveal_strlit("0s");
        }
        let s = String::from_str("0s");
        assert(s@ =~= seq!['0', 's']);
        return s;
    }
    proof {
        reveal_strlit(":");
    }
    let mut s = padded_decimal_string(minutes);
    s.append(":");
    s.append(padded_decimal_string(seconds).as_str());
    assert(s@ =~= clock(minutes as nat, seconds as nat));
    s
}

/// Writes the reading time of `words` words as it is shown.
pub fn read_time(words: u8) -> (s: String)
    ensures
        s@ == read_time_of(words as nat),
{
    let (minutes, seconds) = minutes_and_seconds(words);
    format_clock(minutes, seconds)
}

/// What is shown for a text: the number of its words and the time that
/// reading them takes.
#[derive(Debug)]
pub struct Estimate {
    pub word_count: u8,
    pub read_time: String,
}

/// Counts the words of `text` and estimates its reading time. The count is
/// kept in eight bits and wraps around at 256; the time is that of the
/// count as kept.
pub fn compute(text: &str) -> (e: Estimate)
    ensures
        e.word_count as nat == count_words(text@) % 256,
        e.read_time@ == read_time_of(e.word_count as nat),
{
    let n = word_count(text);
    Estimate { word_count: n, read_time: read_time(n) }
}

} // verus!
