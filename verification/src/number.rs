//! Binary64 values held as their IEEE-754 bits: the value they denote,
//! order, integrality, divisibility, and the conversion of integers.
use vstd::prelude::*;
use vstd::arithmetic::power2::{pow2, lemma2_to64, lemma2_to64_rest, lemma_pow2_adds, lemma_pow2_unfold,
    lemma_pow2_strictly_increases, lemma_pow2_pos};
use vstd::arithmetic::div_mod::{lemma_fundamental_div_mod, lemma_fundamental_div_mod_converse,
    lemma_mul_mod_noop_left, lemma_small_mod};
use vstd::bits::{lemma_u64_shl_is_mul, lemma_u64_pow2_no_overflow};
use crate::json::JsonNumber;

verus! {

pub open spec fn f64_sign(b: u64) -> bool {
    (b >> 63u64) == 1
}

pub open spec fn f64_exp(b: u64) -> u64 {
    (b >> 52u64) & 0x7ff
}

pub open spec fn f64_frac(b: u64) -> u64 {
    b & 0xf_ffff_ffff_ffff
}

/// Finite (not infinite, not NaN).
pub open spec fn f64_finite(b: u64) -> bool {
    f64_exp(b) != 0x7ff
}

/// The integer significand: with the hidden bit for normal numbers.
pub open spec fn f64_sig(b: u64) -> nat {
    if f64_exp(b) == 0 {
        f64_frac(b) as nat
    } else {
        (f64_frac(b) + 0x10_0000_0000_0000) as nat
    }
}

/// The power of two the significand is scaled by.
pub open spec fn f64_scale(b: u64) -> int {
    if f64_exp(b) == 0 {
        -1074
    } else {
        f64_exp(b) - 1075
    }
}

/// A finite value has no fractional part.
pub open spec fn f64_is_integral(b: u64) -> bool {
    let e = f64_exp(b);
    let f = f64_frac(b);
    if e == 0x7ff {
        false
    } else if e == 0 {
        f == 0
    } else if e < 1023 {
        false
    } else if e >= 1075 {
        true
    } else {
        // the fraction bits below the binary point are all zero
        (f >> ((1075 - e) as u64)) << ((1075 - e) as u64) == f
    }
}

/// A key that orders finite values as the reals they denote: the
/// magnitude bits, negated for negative values (both zeros get 0).
pub open spec fn f64_key(b: u64) -> int {
    let mag = b & 0x7fff_ffff_ffff_ffff;
    if f64_sign(b) {
        -(mag as int)
    } else {
        mag as int
    }
}

/// Whether a finite value has no fractional part.
pub fn float_is_integral(b: u64) -> (r: bool)
    ensures
        r == f64_is_integral(b),
{
    let e = (b >> 52u64) & 0x7ff;
    let f = b & 0xf_ffff_ffff_ffff;
    if e == 0x7ff {
        false
    } else if e == 0 {
        f == 0
    } else if e < 1023 {
        false
    } else if e >= 1075 {
        true
    } else {
        let s: u64 = 1075 - e;
        (f >> s) << s == f
    }
}

/// Not a number.
pub open spec fn f64_nan(b: u64) -> bool {
    f64_exp(b) == 0x7ff && f64_frac(b) != 0
}

/// An infinity.
pub open spec fn f64_inf(b: u64) -> bool {
    f64_exp(b) == 0x7ff && f64_frac(b) == 0
}

/// Positive or negative zero.
pub open spec fn f64_is_zero(b: u64) -> bool {
    b & 0x7fff_ffff_ffff_ffff == 0
}

/// `a < b` as binary64 values: false when either is NaN.
pub open spec fn spec_f64_lt(a: u64, b: u64) -> bool {
    !f64_nan(a) && !f64_nan(b) && f64_key(a) < f64_key(b)
}

/// `a <= b` as binary64 values: false when either is NaN.
pub open spec fn spec_f64_le(a: u64, b: u64) -> bool {
    !f64_nan(a) && !f64_nan(b) && f64_key(a) <= f64_key(b)
}

pub fn is_nan(b: u64) -> (r: bool)
    ensures
        r == f64_nan(b),
{
    ((b >> 52u64) & 0x7ff) == 0x7ff && (b & 0xf_ffff_ffff_ffff) != 0
}

/// `a < b` on binary64 values.
pub fn f64_lt(a: u64, b: u64) -> (r: bool)
    ensures
        r == spec_f64_lt(a, b),
{
    if is_nan(a) || is_nan(b) {
        return false;
    }
    let ma = a & 0x7fff_ffff_ffff_ffff;
    let mb = b & 0x7fff_ffff_ffff_ffff;
    let sa = (a >> 63u64) == 1;
    let sb = (b >> 63u64) == 1;
    if sa {
        if sb {
            mb < ma
        } else {
            ma != 0 || mb != 0
        }
    } else {
        if sb {
            false
        } else {
            ma < mb
        }
    }
}

/// `a <= b` on binary64 values.
pub fn f64_le(a: u64, b: u64) -> (r: bool)
    ensures
        r == spec_f64_le(a, b),
{
    if is_nan(a) || is_nan(b) {
        return false;
    }
    !f64_lt(b, a)
}

// ── Integers to binary64 ──

/// The number of bits of `n`.
pub open spec fn bit_len(n: nat) -> nat
    decreases n,
{
    if n == 0 {
        0
    } else {
        1 + bit_len(n / 2)
    }
}

/// `n` rounded to 53 significant bits, halfway cases to the even neighbour:
/// the value `u64 as f64` gives.
pub open spec fn round_to_53_bits(n: nat) -> nat {
    if bit_len(n) <= 53 {
        n
    } else {
        let k = (bit_len(n) - 53) as nat;
        let p = pow2(k);
        let q = n / p;
        let r = n % p;
        let up = r > p / 2 || (r == p / 2 && q % 2 == 1);
        (if up { q + 1 } else { q }) * p
    }
}

/// The non-negative value denoted by finite bits with a clear sign bit,
/// as a numerator over `2^1074`.
pub open spec fn f64_scaled_value(b: u64) -> nat {
    (f64_sig(b) * pow2((f64_scale(b) + 1074) as nat)) as nat
}

/// The bits of the binary64 value nearest to `n` (as `n as f64` computes).
pub open spec fn spec_u64_to_f64(n: u64, b: u64) -> bool {
    &&& !f64_sign(b)
    &&& f64_finite(b)
    &&& f64_scaled_value(b) == round_to_53_bits(n as nat) * pow2(1074)
}


proof fn lemma_bit_len_bounds(n: nat)
    ensures
        n < pow2(bit_len(n)),
        n > 0 ==> pow2((bit_len(n) - 1) as nat) <= n,
    decreases n,
{
    lemma2_to64();
    lemma2_to64_rest();
    if n > 0 {
        lemma_bit_len_bounds(n / 2);
        lemma_pow2_unfold(bit_len(n));
        if n / 2 > 0 {
            lemma_pow2_unfold(bit_len(n / 2));
        }
    }
}

proof fn lemma_bit_len_le(n: nat, m: nat)
    requires
        n < pow2(m),
    ensures
        bit_len(n) <= m,
{
    lemma_bit_len_bounds(n);
    if bit_len(n) > m && (bit_len(n) - 1) as nat > m {
        lemma_pow2_strictly_increases(m, (bit_len(n) - 1) as nat);
    }
}

/// The bits of `n as f64`: exact below 2^53, else the 53 leading bits
/// rounded to nearest, ties to even (see `round_to_53_bits`).
pub open spec fn int_f64_bits(n: u64) -> u64 {
    if n == 0 {
        0
    } else {
        let l = bit_len(n as nat);
        if l <= 53 {
            ((l + 1022) * 0x10_0000_0000_0000 + n * pow2((53 - l) as nat) - 0x10_0000_0000_0000) as u64
        } else {
            let k = (l - 53) as nat;
            let p = pow2(k);
            let q = n as nat / p;
            let r = n as nat % p;
            let up = r > p / 2 || (r == p / 2 && q % 2 == 1);
            let q2 = if up { q + 1 } else { q };
            if q2 == 0x20_0000_0000_0000 {
                ((k + 1076) * 0x10_0000_0000_0000) as u64
            } else {
                ((k + 1075) * 0x10_0000_0000_0000 + q2 - 0x10_0000_0000_0000) as u64
            }
        }
    }
}

/// The bits of the binary64 value `n as f64` gives.
pub fn u64_to_f64_bits(n: u64) -> (b: u64)
    ensures
        b == int_f64_bits(n),
        b < 0x7ff0_0000_0000_0000,
{
    if n == 0 {
        return 0;
    }
    proof {
        lemma2_to64();
        lemma2_to64_rest();
        lemma_bit_len_le(n as nat, 64);
        lemma_bit_len_bounds(n as nat);
    }
    let mut l: u64 = 0;
    let mut m: u64 = n;
    while m > 0
        invariant
            bit_len(n as nat) == l + bit_len(m as nat),
            bit_len(n as nat) <= 64,
        decreases m,
    {
        m = m / 2;
        l = l + 1;
    }
    proof {
        lemma2_to64();
        lemma2_to64_rest();
        lemma_bit_len_bounds(n as nat);
    }
    if l <= 53 {
        let s: u64 = 53 - l;
        proof {
            lemma_u64_pow2_no_overflow(s as nat);
            lemma_u64_shl_is_mul(1, s);
            lemma_pow2_adds(l as nat, s as nat);
            lemma_pow2_adds((l - 1) as nat, s as nat);
            let pl = pow2(l as nat);
            let pl1 = pow2((l - 1) as nat);
            let ps = pow2(s as nat);
            assert(n * ps < pl * ps) by (nonlinear_arith)
                requires n < pl, ps > 0;
            assert(n * ps >= pl1 * ps) by (nonlinear_arith)
                requires n >= pl1, ps > 0;
            assert(bit_len(n as nat) == l);
            assert(pl * ps == 0x20_0000_0000_0000);
            assert(pl1 * ps == 0x10_0000_0000_0000);
            assert(n * ps < 0x20_0000_0000_0000);
        }
        let p: u64 = 1u64 << s;
        let sig: u64 = n * p;
        (l + 1022) * 0x10_0000_0000_0000 + sig - 0x10_0000_0000_0000
    } else {
        let k: u64 = l - 53;
        proof {
            lemma_u64_pow2_no_overflow(k as nat);
            lemma_u64_shl_is_mul(1, k);
            lemma_pow2_adds(52, k as nat);
            lemma_pow2_adds(53, k as nat);
            let pk = pow2(k as nat);
            assert(n as nat / pk >= 0x10_0000_0000_0000 && n as nat / pk < 0x20_0000_0000_0000) by (nonlinear_arith)
                requires
                    pk > 0,
                    n >= 0x10_0000_0000_0000 * pk,
                    n < 0x20_0000_0000_0000 * pk,
            {
                lemma_fundamental_div_mod(n as int, pk as int);
            }
        }
        let p: u64 = 1u64 << k;
        let q: u64 = n / p;
        let r: u64 = n % p;
        let half: u64 = p / 2;
        let up: bool = r > half || (r == half && q % 2 == 1);
        let q2: u64 = if up { q + 1 } else { q };
        if q2 == 0x20_0000_0000_0000 {
            (k + 1076) * 0x10_0000_0000_0000
        } else {
            (k + 1075) * 0x10_0000_0000_0000 + q2 - 0x10_0000_0000_0000
        }
    }
}

/// The bits of the binary64 value a JSON number converts to (its `as_f64`).
pub open spec fn number_bits(n: JsonNumber) -> u64 {
    match n {
        JsonNumber::Float(b) => b,
        JsonNumber::PosInt(u) => int_f64_bits(u),
        JsonNumber::NegInt(i) => if i < 0 {
            (int_f64_bits((-i) as u64) + 0x8000_0000_0000_0000) as u64
        } else {
            int_f64_bits(i as u64)
        },
    }
}

/// The binary64 value of a JSON number.
pub fn number_to_f64_bits(n: &JsonNumber) -> (b: u64)
    ensures
        b == number_bits(*n),
{
    match n {
        JsonNumber::Float(b) => *b,
        JsonNumber::PosInt(u) => u64_to_f64_bits(*u),
        JsonNumber::NegInt(i) => {
            if *i < 0 {
                let mag: u64 = ((-(*i + 1)) as u64) + 1;
                u64_to_f64_bits(mag) + 0x8000_0000_0000_0000
            } else {
                u64_to_f64_bits(*i as u64)
            }
        },
    }
}

// ── Divisibility ──

/// Whether `x % y != 0.0` for binary64 values with `y != 0.0`: always for
/// NaN operands or an infinite `x`; for an infinite `y`, when `x` is not
/// zero; else when `|x|` is not an integer multiple of `|y|` (the
/// remainder is exact).
pub open spec fn not_multiple(x: u64, y: u64) -> bool {
    if f64_is_zero(y) {
        false
    } else if f64_nan(x) || f64_nan(y) || f64_inf(x) {
        true
    } else if f64_inf(y) {
        !f64_is_zero(x)
    } else {
        f64_scaled_value(x) % f64_scaled_value(y) != 0
    }
}

proof fn lemma_mod_scale(a: nat, b: nat, c: nat)
    requires
        b > 0,
        c > 0,
    ensures
        (a * c) % (b * c) == (a % b) * c,
{
    let q = (a / b) as int;
    let r = (a % b) as int;
    lemma_fundamental_div_mod(a as int, b as int);
    assert(a * c == q * (b * c) + r * c) by (nonlinear_arith)
        requires a == b * q + r;
    assert(r * c < b * c) by (nonlinear_arith)
        requires 0 <= r < b, c > 0;
    assert(0 <= r * c) by (nonlinear_arith)
        requires 0 <= r, c > 0;
    lemma_fundamental_div_mod_converse((a * c) as int, (b * c) as int, q, r * c);
}

proof fn lemma_bits_fields(b: u64)
    ensures
        f64_is_zero(b) == (f64_exp(b) == 0 && f64_frac(b) == 0),
        f64_frac(b) < 0x10_0000_0000_0000,
        f64_exp(b) < 0x800,
{
    assert(((b & 0x7fff_ffff_ffff_ffff) == 0) == (((b >> 52u64) & 0x7ff) == 0 && (b & 0xf_ffff_ffff_ffff) == 0)) by (bit_vector);
    assert((b & 0xf_ffff_ffff_ffff) < 0x10_0000_0000_0000) by (bit_vector);
    assert(((b >> 52u64) & 0x7ff) < 0x800) by (bit_vector);
}

/// Whether `x % y != 0.0` (for `y != 0.0`) on binary64 values.
pub fn is_not_multiple(x: u64, y: u64) -> (r: bool)
    ensures
        r == not_multiple(x, y),
{
    proof {
        lemma_bits_fields(x);
        lemma_bits_fields(y);
    }
    if (y & 0x7fff_ffff_ffff_ffff) == 0 {
        return false;
    }
    let ex: u64 = (x >> 52u64) & 0x7ff;
    let fx: u64 = x & 0xf_ffff_ffff_ffff;
    let ey: u64 = (y >> 52u64) & 0x7ff;
    let fy: u64 = y & 0xf_ffff_ffff_ffff;
    if (ex == 0x7ff && fx != 0) || (ey == 0x7ff && fy != 0) || (ex == 0x7ff) {
        return true;
    }
    if ey == 0x7ff {
        return (x & 0x7fff_ffff_ffff_ffff) != 0;
    }
    let sx: u64 = if ex == 0 { fx } else { fx + 0x10_0000_0000_0000 };
    let sy: u64 = if ey == 0 { fy } else { fy + 0x10_0000_0000_0000 };
    let ax: u64 = if ex == 0 { 0 } else { ex - 1 };
    let ay: u64 = if ey == 0 { 0 } else { ey - 1 };
    let ghost vx = f64_scaled_value(x);
    let ghost vy = f64_scaled_value(y);
    assert(sy > 0);
    proof {
        lemma_pow2_pos(ax as nat);
        lemma_pow2_pos(ay as nat);
        assert(vx == sx * pow2(ax as nat));
        assert(vy == sy * pow2(ay as nat));
    }
    if ax >= ay {
        let d: u64 = ax - ay;
        let mut rem: u64 = sx % sy;
        let mut i: u64 = 0;
        proof {
            lemma2_to64();
            lemma2_to64_rest();
            assert(sx * pow2(0) == sx) by (nonlinear_arith)
                requires pow2(0) == 1;
            assert(rem == (sx * pow2(i as nat)) % (sy as int));
        }
        while i < d
            invariant
                i <= d,
                sy > 0,
                sy < 0x20_0000_0000_0000,
                rem < sy,
                rem == (sx * pow2(i as nat)) % (sy as int),
            decreases d - i,
        {
            proof {
                let a = sx * pow2(i as nat);
                lemma_mul_mod_noop_left(a as int, 2, sy as int);
                lemma_pow2_unfold((i + 1) as nat);
                assert(a * 2 == sx * pow2((i + 1) as nat)) by (nonlinear_arith)
                    requires a == sx * pow2(i as nat), pow2((i + 1) as nat) == 2 * pow2(i as nat);
            }
            rem = (rem * 2) % sy;
            i = i + 1;
        }
        proof {
            lemma_pow2_adds(d as nat, ay as nat);
            let pd = pow2(d as nat);
            let pa = pow2(ay as nat);
            assert(vx == (sx * pd) * pa) by (nonlinear_arith)
                requires vx == sx * pow2(ax as nat), pow2(ax as nat) == pd * pa;
            lemma_pow2_pos(d as nat);
            lemma_mod_scale((sx * pd) as nat, sy as nat, pa);
            assert((rem * pa == 0) == (rem == 0)) by (nonlinear_arith)
                requires pa > 0;
        }
        rem != 0
    } else {
        let e: u64 = ay - ax;
        if e >= 64 {
            proof {
                lemma2_to64();
                lemma2_to64_rest();
                lemma_pow2_adds(e as nat, ax as nat);
                if e > 64 {
                    lemma_pow2_strictly_increases(64, e as nat);
                }
                let pe = pow2(e as nat);
                let pa = pow2(ax as nat);
                assert(vy == (sy * pe) * pa) by (nonlinear_arith)
                    requires vy == sy * pow2(ay as nat), pow2(ay as nat) == pe * pa;
                assert(sy * pe > sx) by (nonlinear_arith)
                    requires sy >= 1, pe >= 0x1_0000_0000_0000_0000, sx < 0x1_0000_0000_0000_0000;
                lemma_mod_scale(sx as nat, (sy * pe) as nat, pa);
                lemma_small_mod(sx as nat, (sy * pe) as nat);
                assert((sx * pa == 0) == (sx == 0)) by (nonlinear_arith)
                    requires pa > 0;
            }
            sx != 0
        } else {
            proof {
                lemma_u64_pow2_no_overflow(e as nat);
                lemma_u64_shl_is_mul(1, e);
            }
            let pe: u64 = 1u64 << e;
            proof {
                assert((sy as int) * (pe as int) < 0x1_0000_0000_0000_0000_0000_0000_0000_0000) by (nonlinear_arith)
                    requires sy < 0x20_0000_0000_0000, pe < 0x1_0000_0000_0000_0000;
                assert((sy as int) * (pe as int) > 0) by (nonlinear_arith)
                    requires sy > 0, pe > 0;
            }
            let m: u128 = (sy as u128) * (pe as u128);
            let rr: u128 = (sx as u128) % m;
            proof {
                lemma_pow2_adds(e as nat, ax as nat);
                let pa = pow2(ax as nat);
                assert(vy == (sy * pe) * pa) by (nonlinear_arith)
                    requires vy == sy * pow2(ay as nat), pow2(ay as nat) == pe * pa;
                lemma_mod_scale(sx as nat, (sy * pe) as nat, pa);
                assert((rr * pa == 0) == (rr == 0)) by (nonlinear_arith)
                    requires pa > 0;
            }
            rr != 0
        }
    }
}

} // verus!
