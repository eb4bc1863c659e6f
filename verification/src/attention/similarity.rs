//! The order of similarity scores. A score is held as the bits of an IEEE 754 single-precision
//! number, and compared as that format prescribes.

use vstd::arithmetic::power2::*;
use vstd::prelude::*;

use crate::text;

verus! {

/// The bit that holds the sign.
pub const SIGN_BIT: u32 = 0x8000_0000;

/// The magnitude of the infinities; a larger one is no number.
pub const INFINITE_MAGNITUDE: u32 = 0x7f80_0000;

/// The score of a receptor that matches without being compared: 1.
pub const FULL_SCORE: u32 = 0x3f80_0000;

/// The threshold of receptors that name none: 0.45.
pub const DEFAULT_THRESHOLD: u32 = 0x3ee6_6666;

pub open spec fn magnitude(bits: u32) -> int {
    if bits < SIGN_BIT {
        bits as int
    } else {
        bits - SIGN_BIT
    }
}

/// The bits stand for no number.
pub open spec fn not_a_number(bits: u32) -> bool {
    magnitude(bits) > INFINITE_MAGNITUDE
}

/// An integer that is ordered as the number is that the bits stand for.
pub open spec fn rank(bits: u32) -> int {
    if bits < SIGN_BIT {
        magnitude(bits)
    } else {
        -magnitude(bits)
    }
}

/// `a >= b`, which is false where either is no number.
pub open spec fn at_least(a: u32, b: u32) -> bool {
    !not_a_number(a) && !not_a_number(b) && rank(a) >= rank(b)
}

/// `a > b`, which is false where either is no number.
pub open spec fn exceeds(a: u32, b: u32) -> bool {
    !not_a_number(a) && !not_a_number(b) && rank(a) > rank(b)
}

fn is_number(bits: u32) -> (b: bool)
    ensures
        b == !not_a_number(bits),
{
    if bits < SIGN_BIT {
        bits <= INFINITE_MAGNITUDE
    } else {
        bits - SIGN_BIT <= INFINITE_MAGNITUDE
    }
}

fn score_rank(bits: u32) -> (r: i64)
    ensures
        r == rank(bits),
{
    if bits < SIGN_BIT {
        bits as i64
    } else {
        -((bits - SIGN_BIT) as i64)
    }
}

/// Whether one score is at least another.
pub fn is_at_least(a: u32, b: u32) -> (r: bool)
    ensures
        r == at_least(a, b),
{
    is_number(a) && is_number(b) && score_rank(a) >= score_rank(b)
}

/// Whether one score exceeds another.
pub fn is_greater(a: u32, b: u32) -> (r: bool)
    ensures
        r == exceeds(a, b),
{
    is_number(a) && is_number(b) && score_rank(a) > score_rank(b)
}

// ---------------------------------------------------------------------------
// Notation
// ---------------------------------------------------------------------------

/// The significand of a finite number: its magnitude is this many units of its last place.
pub open spec fn significand(bits: u32) -> int {
    if magnitude(bits) < 0x0080_0000 {
        magnitude(bits)
    } else {
        0x0080_0000 + magnitude(bits) % 0x0080_0000
    }
}

/// The exponent of two of the last place of a finite number.
pub open spec fn last_place(bits: u32) -> int {
    if magnitude(bits) < 0x0080_0000 {
        -149
    } else {
        magnitude(bits) / 0x0080_0000 - 150
    }
}

/// `n / 2^k`, rounded to the nearest integer and, where two are equally near, to the even one.
pub open spec fn rounded_quotient(n: int, k: nat) -> int {
    let q = n / (pow2(k) as int);
    let r = n % (pow2(k) as int);
    if 2 * r > pow2(k) || (2 * r == pow2(k) && q % 2 == 1) {
        q + 1
    } else {
        q
    }
}

/// The magnitude of a finite number in thousandths, rounded.
pub open spec fn thousandths(bits: u32) -> int {
    if last_place(bits) >= 0 {
        significand(bits) * pow2(last_place(bits) as nat) * 1000
    } else {
        rounded_quotient(significand(bits) * 1000, (-last_place(bits)) as nat)
    }
}

/// Three digits for a number below a thousand.
pub open spec fn three_digits(n: int) -> Seq<char> {
    seq![
        text::digit_char(n / 100 % 10),
        text::digit_char(n / 10 % 10),
        text::digit_char(n % 10),
    ]
}

/// A score in decimal notation with three digits behind the point.
pub open spec fn score_notation(bits: u32) -> Seq<char> {
    let sign = if bits < SIGN_BIT {
        Seq::empty()
    } else {
        seq!['-']
    };
    if not_a_number(bits) {
        "NaN"@
    } else if magnitude(bits) == INFINITE_MAGNITUDE {
        sign + "inf"@
    } else {
        let t = thousandths(bits);
        sign + text::decimal((t / 1000) as nat) + seq!['.'] + three_digits(t % 1000)
    }
}

/// `n * 2^k`, for a significand and the place of its last digit.
fn scaled_up(n: u32, k: u32) -> (scaled: u128)
    requires
        n < 0x0100_0000,
        k <= 104,
    ensures
        scaled == n * pow2(k as nat),
{
    let mut scaled: u128 = n as u128;
    let mut i: u32 = 0;
    proof {
        lemma2_to64();
    }
    while i < k
        invariant
            i <= k <= 104,
            n < 0x0100_0000,
            scaled == n * pow2(i as nat),
        decreases k - i,
    {
        proof {
            lemma_pow2_unfold((i + 1) as nat);
            lemma2_to64();
            lemma2_to64_rest();
            lemma_pow2_adds(64, 39);
            if i < 103 {
                lemma_pow2_strictly_increases(i as nat, 103);
            }
            let p = pow2(i as nat) as int;
            assert(n * p <= 0x00ff_ffff * pow2(103)) by (nonlinear_arith)
                requires
                    0 <= n <= 0x00ff_ffff,
                    0 <= p <= pow2(103),
            ;
            assert(2 * (n * p) == n * (2 * p)) by (nonlinear_arith);
        }
        scaled = scaled * 2;
        i = i + 1;
    }
    scaled
}

/// `n / 2^k`, rounded to the nearest integer, and to the even one of two.
fn scaled_down(n: u64, k: u32) -> (rounded: u64)
    requires
        n < 0x4_0000_0000,
        k >= 1,
    ensures
        rounded == rounded_quotient(n as int, k as nat),
{
    proof {
        lemma2_to64();
        lemma2_to64_rest();
    }
    if k > 40 {
        proof {
            lemma_pow2_strictly_increases(40, k as nat);
            vstd::arithmetic::div_mod::lemma_small_mod(n as nat, pow2(k as nat));
            vstd::arithmetic::div_mod::lemma_basic_div(n as int, pow2(k as nat) as int);
        }
        return 0;
    }
    let mut unit: u64 = 1;
    let mut i: u32 = 0;
    while i < k
        invariant
            i <= k <= 40,
            unit == pow2(i as nat),
        decreases k - i,
    {
        proof {
            lemma_pow2_unfold((i + 1) as nat);
            lemma2_to64();
            lemma2_to64_rest();
            if i < 40 {
                lemma_pow2_strictly_increases(i as nat, 40);
            }
        }
        unit = unit * 2;
        i = i + 1;
    }
    proof {
        lemma2_to64_rest();
        if k < 40 {
            lemma_pow2_strictly_increases(k as nat, 40);
        }
        lemma_pow2_pos(k as nat);
    }
    let q: u64 = n / unit;
    let r: u64 = n % unit;
    assert(q <= n) by (nonlinear_arith)
        requires
            unit >= 1,
            q == n / unit,
    ;
    if 2 * r > unit || (2 * r == unit && q % 2 == 1) {
        q + 1
    } else {
        q
    }
}

fn digit(d: u64) -> (c: char)
    requires
        d < 10,
    ensures
        c == text::digit_char(d as int),
{
    ('0' as u8 + d as u8) as char
}

/// A score in decimal notation with three digits behind the point.
pub fn score_text(bits: u32) -> (notation: String)
    ensures
        notation@ == score_notation(bits),
{
    let negative = bits >= SIGN_BIT;
    let size: u32 = if negative {
        bits - SIGN_BIT
    } else {
        bits
    };
    if size > INFINITE_MAGNITUDE {
        return "NaN".to_owned();
    }
    let mut notation = String::new();
    if negative {
        notation.push('-');
        assert(notation@ == seq!['-']);
    }
    if size == INFINITE_MAGNITUDE {
        notation.append("inf");
        return notation;
    }
    let significand: u32 = if size < 0x0080_0000 {
        size
    } else {
        0x0080_0000 + size % 0x0080_0000
    };
    let place: i32 = if size < 0x0080_0000 {
        -149
    } else {
        (size / 0x0080_0000) as i32 - 150
    };
    if place >= 0 {
        let whole: u128 = scaled_up(significand, place as u32);
        assert((whole * 1000) / 1000 == whole);
        assert((whole * 1000) % 1000 == 0);
        notation.append(text::decimal_text(whole).as_str());
        notation.push('.');
        notation.push('0');
        notation.push('0');
        notation.push('0');
        assert(notation@ == score_notation(bits));
    } else {
        let rounded: u64 = scaled_down(significand as u64 * 1000, (-place) as u32);
        notation.append(text::decimal_text((rounded / 1000) as u128).as_str());
        let rest: u64 = rounded % 1000;
        notation.push('.');
        notation.push(digit(rest / 100 % 10));
        notation.push(digit(rest / 10 % 10));
        notation.push(digit(rest % 10));
        assert(notation@ == score_notation(bits));
    }
    notation
}

// ---------------------------------------------------------------------------
// Laws
// ---------------------------------------------------------------------------

/// Scores are compared as numbers: of two numbers without a sign the one with the larger bits is the
/// larger, with a sign the smaller; a sign makes a number no larger than one without; and what is not a
/// number is in no order with anything.
pub proof fn law_scores_are_compared_as_numbers(a: u32, b: u32)
    ensures
        a <= 0x7f80_0000 && b <= 0x7f80_0000 ==> (at_least(a, b) <==> a >= b) && (exceeds(a, b)
            <==> a > b),
        0x8000_0000 <= a <= 0xff80_0000 && 0x8000_0000 <= b <= 0xff80_0000 ==> (at_least(a, b)
            <==> a <= b) && (exceeds(a, b) <==> a < b),
        a <= 0x7f80_0000 && 0x8000_0000 <= b <= 0xff80_0000 ==> at_least(a, b) && (exceeds(a, b)
            <==> a > 0 || b > 0x8000_0000) && !exceeds(b, a),
        0x7f80_0000 < a < 0x8000_0000 || a > 0xff80_0000 ==> !at_least(a, b) && !at_least(b, a)
            && !exceeds(a, b) && !exceeds(b, a),
{
}

/// A rounded quotient is the nearest whole number, and the even one of two that are equally near.
pub proof fn law_quotient_is_the_nearest(n: int, k: nat)
    ensures
        ({
            let q = rounded_quotient(n, k);
            let unit = pow2(k) as int;
            &&& -unit <= 2 * (q * unit - n) <= unit
            &&& 2 * (q * unit - n) == unit || 2 * (q * unit - n) == -unit ==> q % 2 == 0
        }),
{
    vstd::arithmetic::power2::lemma_pow2_pos(k);
    let unit = pow2(k) as int;
    let q = n / unit;
    let r = n % unit;
    vstd::arithmetic::div_mod::lemma_fundamental_div_mod(n, unit);
    vstd::arithmetic::div_mod::lemma_mod_bound(n, unit);
    assert(unit * q == q * unit) by (nonlinear_arith);
    assert((q + 1) * unit == q * unit + unit) by (nonlinear_arith);
}

/// Three digits have the value of the number.
proof fn lemma_three_digits(n: int)
    requires
        0 <= n < 1000,
    ensures
        text::digits_value(three_digits(n)) == n,
{
    let s = three_digits(n);
    let two = s.drop_last();
    let one = two.drop_last();
    assert(one.drop_last() =~= Seq::<char>::empty());
    assert(text::digits_value(one.drop_last()) == 0);
    assert(text::digits_value(one) == n / 100 % 10);
    assert(text::digits_value(two) == (n / 100 % 10) * 10 + n / 10 % 10);
    assert(text::digits_value(s) == ((n / 100 % 10) * 10 + n / 10 % 10) * 10 + n % 10);
}

/// A finite score is written with its sign, its whole part and three decimal places, which together
/// have its value, rounded to thousandths.
pub proof fn law_score_is_written_with_three_places(bits: u32)
    requires
        magnitude(bits) < INFINITE_MAGNITUDE,
    ensures
        ({
            let sign: Seq<char> = if bits < 0x8000_0000 { Seq::empty() } else { seq!['-'] };
            exists|whole: Seq<char>, places: Seq<char>|
                #![trigger text::digits_value(whole), text::digits_value(places)]
                score_notation(bits) == sign + whole + seq!['.'] + places && places.len() == 3
                    && text::digits_value(whole) * 1000 + text::digits_value(places) == thousandths(
                    bits,
                )
        }),
        last_place(bits) < 0 ==> {
            let unit = pow2((-last_place(bits)) as nat) as int;
            -unit <= 2 * (thousandths(bits) * unit - significand(bits) * 1000) <= unit
        },
{
    let t = thousandths(bits);
    if last_place(bits) < 0 {
        let k = (-last_place(bits)) as nat;
        law_quotient_is_the_nearest(significand(bits) * 1000, k);
        vstd::arithmetic::power2::lemma_pow2_pos(k);
        let unit = pow2(k) as int;
        let n = significand(bits) * 1000;
        assert(t >= 0) by {
            vstd::arithmetic::div_mod::lemma_div_pos_is_pos(n, unit);
        }
    } else {
        vstd::arithmetic::power2::lemma_pow2_pos(last_place(bits) as nat);
        let p = pow2(last_place(bits) as nat) as int;
        let n = significand(bits);
        assert(n * p * 1000 >= 0) by (nonlinear_arith)
            requires
                n >= 0,
                p > 0,
        ;
    }
    let whole = text::decimal((t / 1000) as nat);
    let places = three_digits(t % 1000);
    text::law_decimal_has_the_value((t / 1000) as nat);
    lemma_three_digits(t % 1000);
    assert(text::digits_value(whole) * 1000 + text::digits_value(places) == t);
}

/// What is not a finite score is written in a word.
pub proof fn law_other_scores_are_words(bits: u32)
    ensures
        not_a_number(bits) ==> score_notation(bits) == "NaN"@,
        score_notation(0x7f80_0000) == "inf"@,
        score_notation(0xff80_0000) == seq!['-'] + "inf"@,
{
    assert(Seq::<char>::empty() + "inf"@ =~= "inf"@);
}

} // verus!
