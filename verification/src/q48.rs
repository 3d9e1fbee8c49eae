//! Fixed-point logarithm, exponential and power in Q48 (48 fractional bits).
//!
//! A Q48 number `x` stands for the rational `x / 2^48`. The logarithm is taken
//! one binary digit at a time by repeated squaring, the exponential by
//! multiplying the tabulated powers `2^(2^-i)` of the digits that are set.
//! Every product and shift rounds down.

use vstd::arithmetic::power2::{
    lemma2_to64, lemma2_to64_rest, lemma_pow2_adds, lemma_pow2_pos, lemma_pow2_unfold, pow2,
};
use vstd::prelude::*;

verus! {

/// Number of fractional bits.
pub const POW_F: u32 = 48;

/// `2^48`, the number one in Q48.
pub const POW_ONE: u128 = 281_474_976_710_656;

/// `TWO_POW_LUT[i]` is `2^(2^-i)` in Q48, rounded to nearest, for `i` in
/// `1..=48`. Entry 0 is unused.
pub const TWO_POW_LUT: [u128; 49] = [
    0, 398065729532861, 334732044999537, 306950638654744, 293936938588305,
    287638476118103, 284540038248454, 283003357999923, 282238132792268,
    281856296460737, 281665572056717, 281570258256901, 281522613452764,
    281498794074042, 281486885140443, 281480930862574, 281477953770871,
    281476465236828, 281475720972758, 281475348841461, 281475162775997,
    281475069743311, 281475023226980, 281474999968817, 281474988339736,
    281474982525196, 281474979617926, 281474978164291, 281474977437473,
    281474977074065, 281474976892360, 281474976801508, 281474976756082,
    281474976733369, 281474976722013, 281474976716334, 281474976713495,
    281474976712076, 281474976711366, 281474976711011, 281474976710833,
    281474976710745, 281474976710700, 281474976710678, 281474976710667,
    281474976710662, 281474976710659, 281474976710657, 281474976710657,
];


// ---------------------------------------------------------------------------
// What the functions compute
// ---------------------------------------------------------------------------

/// Number of halvings that bring `x` below two, in Q48: the integer part of
/// its binary logarithm.
pub open spec fn log2_int(x: nat) -> nat
    decreases x,
{
    if x < 2 * POW_ONE {
        0
    } else {
        1 + log2_int(x / 2)
    }
}

/// `x` halved (rounding down) until it is below two, in Q48.
pub open spec fn mantissa(x: nat) -> nat
    decreases x,
{
    if x < 2 * POW_ONE {
        x
    } else {
        mantissa(x / 2)
    }
}

/// The first `n` binary digits of the logarithm of the mantissa `m`, read as an
/// integer. Squaring a number doubles its logarithm, so the leading digit is
/// set exactly when the square (rounded down to Q48) reaches two.
pub open spec fn log2_digits(m: nat, n: nat) -> nat
    decreases n,
{
    if n == 0 {
        0
    } else {
        let square = m * m / (POW_ONE as nat);
        if square >= 2 * POW_ONE {
            pow2((n - 1) as nat) + log2_digits(square / 2, (n - 1) as nat)
        } else {
            log2_digits(square, (n - 1) as nat)
        }
    }
}

/// The binary logarithm of the Q48 number `x`, in Q48.
pub open spec fn log2_fixed(x: nat) -> nat {
    log2_int(x) * (POW_ONE as nat) + log2_digits(mantissa(x), 48)
}

/// The `i`-th fractional binary digit of the Q48 number `f`.
pub open spec fn digit_set(f: nat, i: nat) -> bool {
    (f / pow2((48 - i) as nat)) % 2 == 1
}

/// The product of the table entries of the digits of `f` that are set among
/// the first `i`, each product rounded down to Q48.
pub open spec fn exp2_digits(f: nat, i: nat) -> nat
    decreases i,
{
    if i == 0 {
        POW_ONE as nat
    } else {
        let r = exp2_digits(f, (i - 1) as nat);
        if digit_set(f, i) {
            r * (TWO_POW_LUT@[i as int] as nat) / (POW_ONE as nat)
        } else {
            r
        }
    }
}

/// Two to the power of the Q48 number `y`, in Q48, however large.
pub open spec fn exp2_unbounded(y: nat) -> nat {
    exp2_digits(y % (POW_ONE as nat), 48) * pow2(y / (POW_ONE as nat))
}

/// Two to the power of the Q48 number `y`, in Q48, or `u128::MAX` where that
/// does not fit.
pub open spec fn exp2_fixed(y: nat) -> nat {
    if exp2_unbounded(y) <= u128::MAX {
        exp2_unbounded(y)
    } else {
        u128::MAX as nat
    }
}

/// The exponent `bps / 10000` in Q48.
pub open spec fn exponent_fixed(bps: u16) -> nat {
    (bps * POW_ONE) as nat / 10_000
}

/// `(num / den)^(bps / 10000)` in Q48. `None` where the ratio is below one or
/// has no denominator, and where the ratio, the product of logarithm and
/// exponent, or the power does not fit 128 bits.
pub open spec fn pow_ratio_fixed(num: nat, den: nat, bps: u16) -> Option<nat> {
    let ratio = num * POW_ONE / (den as int);
    let scaled = log2_fixed(ratio as nat) * exponent_fixed(bps);
    let power = exp2_unbounded(scaled / (POW_ONE as nat));
    if den == 0 || num < den || num * POW_ONE > u128::MAX || scaled > u128::MAX || power
        > u128::MAX {
        None
    } else {
        Some(power)
    }
}

// ---------------------------------------------------------------------------
// Ranges
// ---------------------------------------------------------------------------

proof fn lemma_one_is_pow2()
    ensures
        pow2(48) == POW_ONE,
        pow2(47) == POW_ONE / 2,
        pow2(0) == 1,
{
    lemma2_to64();
    lemma2_to64_rest();
}

/// A number below `2^(k + 1)`, in Q48, is below two after `k` halvings.
proof fn lemma_log2_int_bound(x: nat, k: nat)
    requires
        x < pow2(k + 49),
    ensures
        log2_int(x) <= k,
    decreases k,
{
    lemma_pow2_unfold(k + 49);
    if x >= 2 * POW_ONE {
        if k == 0 {
            lemma_one_is_pow2();
        } else {
            lemma_log2_int_bound(x / 2, (k - 1) as nat);
        }
    }
}

/// The mantissa is below two, and at least one where `x` is.
pub proof fn lemma_mantissa_range(x: nat)
    ensures
        mantissa(x) < 2 * POW_ONE,
        x >= POW_ONE ==> mantissa(x) >= POW_ONE,
    decreases x,
{
    if x >= 2 * POW_ONE {
        lemma_mantissa_range(x / 2);
    }
}

/// The square of a mantissa, rounded down to Q48, is below four, and at least
/// one where the mantissa is.
pub proof fn lemma_square_range(m: nat)
    requires
        m < 2 * POW_ONE,
    ensures
        m * m < 4 * POW_ONE * POW_ONE,
        m * m / (POW_ONE as nat) < 4 * POW_ONE,
        m >= POW_ONE ==> m * m / (POW_ONE as nat) >= POW_ONE,
{
    let one = POW_ONE as nat;
    assert(m * m < 4 * one * one) by (nonlinear_arith)
        requires
            m < 2 * one,
            0 <= m,
    ;
    assert(m >= one ==> m * m >= one * one) by (nonlinear_arith);
}

/// `n` binary digits make a number below `2^n`.
pub proof fn lemma_log2_digits_bound(m: nat, n: nat)
    requires
        m < 2 * POW_ONE,
    ensures
        log2_digits(m, n) < pow2(n),
    decreases n,
{
    lemma_pow2_pos(n);
    if n > 0 {
        let square = m * m / (POW_ONE as nat);
        lemma_square_range(m);
        lemma_pow2_unfold(n);
        if square >= 2 * POW_ONE {
            lemma_log2_digits_bound(square / 2, (n - 1) as nat);
        } else {
            lemma_log2_digits_bound(square, (n - 1) as nat);
        }
    }
}

/// The logarithm of a 128-bit Q48 number is below eighty.
pub proof fn lemma_log2_fixed_bound(x: nat)
    requires
        x <= u128::MAX,
    ensures
        log2_int(x) <= 79,
        log2_fixed(x) < 80 * POW_ONE,
{
    lemma2_to64();
    lemma2_to64_rest();
    lemma_pow2_adds(64, 64);
    assert(pow2(64) * pow2(64) == 0x1_0000_0000_0000_0000 * 0x1_0000_0000_0000_0000);
    lemma_log2_int_bound(x, 79);
    lemma_mantissa_range(x);
    lemma_log2_digits_bound(mantissa(x), 48);
}

// ---------------------------------------------------------------------------
// The functions
// ---------------------------------------------------------------------------

/// Binary logarithm in Q48, rounding down at every step.
pub fn log2_q(x: u128) -> (r: u128)
    ensures
        r == log2_fixed(x as nat),
{
    let mut m: u128 = x;
    let mut e: u128 = 0;
    proof {
        lemma_log2_fixed_bound(x as nat);
        lemma_one_is_pow2();
    }
    while m >= 2 * POW_ONE
        invariant
            log2_int(x as nat) == e + log2_int(m as nat),
            mantissa(x as nat) == mantissa(m as nat),
            log2_int(x as nat) <= 79,
        decreases m,
    {
        m = m / 2;
        e = e + 1;
    }
    let mut result: u128 = e * POW_ONE;
    let mut left: u32 = POW_F;
    let mut digit: u128 = POW_ONE;
    while left > 0
        invariant
            left <= 48,
            m < 2 * POW_ONE,
            digit == pow2(left as nat),
            result + log2_digits(m as nat, left as nat) == log2_fixed(x as nat),
            log2_fixed(x as nat) < 80 * POW_ONE,
        decreases left,
    {
        proof {
            lemma_square_range(m as nat);
            lemma_pow2_unfold(left as nat);
        }
        let square: u128 = m * m / POW_ONE;
        left = left - 1;
        digit = digit / 2;
        if square >= 2 * POW_ONE {
            result = result + digit;
            m = square / 2;
        } else {
            m = square;
        }
    }
    result
}

/// The table, with the entry `2^(2^-0) = 2` in place 0.
pub open spec fn table(i: nat) -> int {
    if i == 0 {
        2 * POW_ONE
    } else {
        TWO_POW_LUT@[i as int] as int
    }
}

/// `2^(2^-i)` with 64 fractional bits, rounded down.
pub const TWO_POW_FINE: [u128; 49] = [
    36893488147419103232, 26087635650665564424, 21936999301089678046,
    20116317054877281741, 19263451207323153961, 18850675170876015534,
    18647615946650685158, 18546908069882975960, 18496758270674070881,
    18471734244850835105, 18459234930309000272, 18452988445124272033,
    18449865995240371898, 18448304968436414829, 18447524504564044945,
    18447134285009651015, 18446939178327825412, 18446841625760745902,
    18446792849670663276, 18446768461673986097, 18446756267687738521,
    18446750170697637485, 18446747122203342655, 18446745597956384161,
    18446744835832952145, 18446744454771247944, 18446744264240398796,
    18446744168974974960, 18446744121342263226, 18446744097525907405,
    18446744085617729507, 18446744079663640560, 18446744076686596088,
    18446744075198073851, 18446744074453812733, 18446744074081682174,
    18446744073895616895, 18446744073802584255, 18446744073756067935,
    18446744073732809775, 18446744073721180695, 18446744073715366155,
    18446744073712458885, 18446744073711005250, 18446744073710278433,
    18446744073709915024, 18446744073709733320, 18446744073709642468,
    18446744073709597042,
];

/// The number one with 64 fractional bits.
pub open spec fn fine_one() -> int {
    18_446_744_073_709_551_616
}

/// A number that is at most `2^(2^-i)`, with 64 fractional bits.
pub open spec fn table_low(i: nat) -> int {
    if i == 0 {
        2 * fine_one()
    } else {
        TWO_POW_FINE@[i as int] - 1
    }
}

/// A number that is at least `2^(2^-i)`, with 64 fractional bits.
pub open spec fn table_high(i: nat) -> int {
    if i == 0 {
        2 * fine_one()
    } else {
        TWO_POW_FINE@[i as int] + 2
    }
}

/// How an entry relates to the one before it, whose square root it stands for,
/// and to the finer numbers.
pub open spec fn table_step(i: nat) -> bool {
    let j = (i - 1) as nat;
    &&& POW_ONE < table(i) < 2 * POW_ONE
    &&& table(i) <= table(j)
    &&& table(i) * table(i) <= table(j) * (POW_ONE + 3)
    &&& table_low(i) * table_low(i) <= table_low(j) * fine_one()
    &&& table_high(j) * fine_one() <= table_high(i) * table_high(i)
    &&& fine_one() < table_low(i)
    &&& 65_536 * table(i) <= table_low(i) + 32_771
    &&& table_high(i) <= 65_536 * table(i) + 32_770
}

/// Every entry is related so to the one before it.
pub proof fn lemma_table_step(i: nat)
    requires
        1 <= i <= 48,
    ensures
        table_step(i),
{
    let (t, u, h, k) = (table(1), table(0), table_high(1), table_high(0));
    assert(t * t <= u * (POW_ONE + 3)) by (nonlinear_arith)
        requires
            t == 398_065_729_532_861,
            u == 562_949_953_421_312,
            POW_ONE == 281_474_976_710_656,
    ;
    assert(k * fine_one() <= h * h) by (nonlinear_arith)
        requires
            h == 26_087_635_650_665_564_426,
            k == 36_893_488_147_419_103_232,
            fine_one() == 18_446_744_073_709_551_616,
    ;
    assert(table_step(1));
    assert(table_step(2));
    assert(table_step(3));
    assert(table_step(4));
    assert(table_step(5));
    assert(table_step(6));
    assert(table_step(7));
    assert(table_step(8));
    assert(table_step(9));
    assert(table_step(10));
    assert(table_step(11));
    assert(table_step(12));
    assert(table_step(13));
    assert(table_step(14));
    assert(table_step(15));
    assert(table_step(16));
    assert(table_step(17));
    assert(table_step(18));
    assert(table_step(19));
    assert(table_step(20));
    assert(table_step(21));
    assert(table_step(22));
    assert(table_step(23));
    assert(table_step(24));
    assert(table_step(25));
    assert(table_step(26));
    assert(table_step(27));
    assert(table_step(28));
    assert(table_step(29));
    assert(table_step(30));
    assert(table_step(31));
    assert(table_step(32));
    assert(table_step(33));
    assert(table_step(34));
    assert(table_step(35));
    assert(table_step(36));
    assert(table_step(37));
    assert(table_step(38));
    assert(table_step(39));
    assert(table_step(40));
    assert(table_step(41));
    assert(table_step(42));
    assert(table_step(43));
    assert(table_step(44));
    assert(table_step(45));
    assert(table_step(46));
    assert(table_step(47));
    assert(table_step(48));
}

/// The product of table entries is at least one and, but for rounding, at most
/// `2^(1 - 2^-i)`.
pub proof fn lemma_exp2_digits_range(f: nat, i: nat)
    requires
        i <= 48,
    ensures
        POW_ONE <= exp2_digits(f, i) <= 2 * POW_ONE + 480,
        exp2_digits(f, i) * table(i) <= (2 * POW_ONE + 10 * i) * POW_ONE,
    decreases i,
{
    let one = POW_ONE as int;
    if i == 0 {
        let (r, t) = (exp2_digits(f, i) as int, table(i));
        assert(r * t <= (2 * one + 0) * one) by (nonlinear_arith)
            requires
                r == one,
                t == 2 * one,
        ;
    } else {
        let j = (i - 1) as nat;
        let r = exp2_digits(f, j) as int;
        let (s, t) = (table(j), table(i));
        lemma_exp2_digits_range(f, j);
        lemma_table_step(i);
        let q = r * t / one;
        assert(one <= q && q * one <= r * t) by (nonlinear_arith)
            requires
                q == r * t / one,
                r >= one,
                t >= one,
                one > 0,
        {
            assert(r * t >= r * one);
        }
        assert(r * t <= (2 * one + 10 * i) * one) by (nonlinear_arith)
            requires
                r * s <= (2 * one + 10 * j) * one,
                t <= s,
                0 < r,
                j < i,
                one > 0,
        ;
        assert(q * t <= (2 * one + 10 * i) * one) by (nonlinear_arith)
            requires
                q * one <= r * t,
                r * s <= (2 * one + 10 * j) * one,
                t * t <= s * (one + 3),
                i == j + 1,
                0 <= j < 48,
                0 < r,
                0 < t,
                one > 1000,
        {
            assert((q * one) * t <= (r * t) * t);
            assert(r * (t * t) <= r * (s * (one + 3)));
            assert((r * s) * (one + 3) <= ((2 * one + 10 * j) * one) * (one + 3));
            assert((2 * one + 10 * j) * (one + 3) <= (2 * one + 10 * i) * one);
            assert(((2 * one + 10 * j) * (one + 3)) * one <= ((2 * one + 10 * i) * one) * one);
            assert((q * t) * one <= ((2 * one + 10 * i) * one) * one);
        }
        let u = exp2_digits(f, i) as int;
        assert(u <= 2 * one + 480) by (nonlinear_arith)
            requires
                u * t <= (2 * one + 10 * i) * one,
                t >= one,
                u >= 0,
                i <= 48,
                one > 0,
        ;
    }
}

/// Without digits there is nothing to multiply.
pub proof fn lemma_exp2_digits_of_zero(i: nat)
    ensures
        exp2_digits(0, i) == POW_ONE,
    decreases i,
{
    if i > 0 {
        lemma_exp2_digits_of_zero((i - 1) as nat);
        let p = pow2((48 - i) as nat);
        lemma_pow2_pos((48 - i) as nat);
        assert(0nat / p == 0) by (nonlinear_arith)
            requires
                p > 0,
        ;
    }
}

/// Two to the power `y`, in Q48, rounding every product down. Saturates to
/// `u128::MAX`.
pub fn exp2_q(y: u128) -> (r: u128)
    ensures
        r == exp2_fixed(y as nat),
{
    let whole: u128 = y / POW_ONE;
    let frac: u128 = y % POW_ONE;
    let mut r: u128 = POW_ONE;
    let mut i: u32 = 0;
    let mut digit: u128 = POW_ONE;
    proof {
        lemma_one_is_pow2();
    }
    while i < POW_F
        invariant
            i <= 48,
            digit == pow2((48 - i) as nat),
            r == exp2_digits(frac as nat, i as nat),
        decreases 48 - i,
    {
        proof {
            lemma_pow2_unfold((48 - i) as nat);
            lemma_pow2_pos((47 - i) as nat);
            lemma_exp2_digits_range(frac as nat, i as nat);
            lemma_table_step((i + 1) as nat);
        }
        i = i + 1;
        digit = digit / 2;
        if (frac / digit) % 2 == 1 {
            let t: u128 = TWO_POW_LUT[i as usize];
            assert(r * t <= 4 * POW_ONE * (2 * POW_ONE)) by (nonlinear_arith)
                requires
                    r <= 4 * POW_ONE,
                    t <= 2 * POW_ONE,
            ;
            r = r * t / POW_ONE;
        }
    }
    proof {
        lemma_exp2_digits_range(frac as nat, 48);
    }
    let mut left: u128 = whole;
    let ghost target = r * pow2(whole as nat);
    while left > 0
        invariant
            r * pow2(left as nat) == target,
            exp2_fixed(y as nat) == (if target <= u128::MAX {
                target
            } else {
                u128::MAX as int
            }),
        decreases left,
    {
        proof {
            lemma_pow2_unfold(left as nat);
            lemma_pow2_pos((left - 1) as nat);
            let p = pow2((left - 1) as nat);
            assert(r * (2 * p) == (2 * r) * p && (2 * r) * p >= 2 * r) by (nonlinear_arith)
                requires
                    p >= 1,
                    r >= 0,
            ;
        }
        if r > u128::MAX / 2 {
            return u128::MAX;
        }
        r = r * 2;
        left = left - 1;
    }
    proof {
        lemma_one_is_pow2();
        let p = pow2(left as nat);
        assert(r * p == r) by (nonlinear_arith)
            requires
                p == 1,
        ;
    }
    r
}

/// A power that fits is never `u128::MAX`: that value marks saturation alone.
pub proof fn lemma_saturation(y: nat)
    ensures
        exp2_fixed(y) == u128::MAX <==> exp2_unbounded(y) > u128::MAX,
{
    let w = y / (POW_ONE as nat);
    let r = exp2_digits(y % (POW_ONE as nat), 48);
    lemma_exp2_digits_range(y % (POW_ONE as nat), 48);
    if w == 0 {
        lemma_one_is_pow2();
        let p = pow2(w);
        assert(r * p == r) by (nonlinear_arith)
            requires
                p == 1,
        ;
    } else {
        lemma_pow2_unfold(w);
        let h = pow2((w - 1) as nat);
        let half = r * h;
        assert(r * pow2(w) == 2 * half) by (nonlinear_arith)
            requires
                pow2(w) == 2 * h,
                half == r * h,
        ;
    }
}

/// `(num / den)^(bps / 10000)` in Q48; `None` where the ratio is below one, and
/// on overflow.
pub fn pow_ratio_q(num: u128, den: u128, bps: u16) -> (r: Option<u128>)
    ensures
        match r {
            Some(f) => pow_ratio_fixed(num as nat, den as nat, bps) == Some(f as nat),
            None => pow_ratio_fixed(num as nat, den as nat, bps) is None,
        },
{
    if den == 0 || num < den {
        return None;
    }
    let scaled_num: u128 = match num.checked_mul(POW_ONE) {
        Some(v) => v,
        None => {
            return None;
        },
    };
    let ratio: u128 = scaled_num / den;
    let l: u128 = log2_q(ratio);
    let b: u128 = (bps as u128 * POW_ONE) / 10_000;
    let scaled: u128 = match l.checked_mul(b) {
        Some(v) => v,
        None => {
            return None;
        },
    };
    let power: u128 = exp2_q(scaled / POW_ONE);
    proof {
        lemma_saturation((scaled / POW_ONE) as nat);
    }
    if power == u128::MAX {
        None
    } else {
        Some(power)
    }
}

} // verus!
