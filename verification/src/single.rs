//! Single-precision values, by their bits: which of them are finite, and which one stands for a
//! whole number.

use vstd::arithmetic::div_mod::*;
use vstd::arithmetic::mul::*;
use vstd::arithmetic::power2::*;
use vstd::prelude::*;

verus! {

/// Whether bits are those of a finite value: not of an infinity, and not of what is no number.
pub open spec fn finite(bits: u32) -> bool {
    bits & 0x7f80_0000 != 0x7f80_0000
}

/// Whether bits are those of a finite value.
pub fn is_finite(bits: u32) -> (r: bool)
    ensures
        r == finite(bits),
{
    bits & 0x7f80_0000 != 0x7f80_0000
}

/// The number of binary digits of a number.
pub open spec fn bit_length(n: nat) -> nat
    decreases n,
{
    if n == 0 {
        0
    } else {
        1 + bit_length(n / 2)
    }
}

/// A number rounded to so many binary digits: to the nearest, and to the even one of two that are
/// as near.
pub open spec fn rounded(n: nat, digits: nat) -> nat {
    if bit_length(n) <= digits {
        n
    } else {
        let unit = pow2((bit_length(n) - digits) as nat);
        let q = n / unit;
        let rest = n % unit;
        if 2 * rest > unit || (2 * rest == unit && q % 2 == 1) {
            (q + 1) * unit
        } else {
            q * unit
        }
    }
}

/// The digits of a number's significand: so many that the first of them has the weight of 2^23.
pub open spec fn significand(m: nat) -> nat {
    if bit_length(m) <= 24 {
        m * pow2((24 - bit_length(m)) as nat)
    } else {
        m / pow2((bit_length(m) - 24) as nat)
    }
}

/// The bits of the single-precision value of a whole number, which is rounded to double precision
/// first. The exponent stands above the 23 lower bits of the significand, whose highest bit is not
/// written.
pub open spec fn single_bits(n: u64) -> u32 {
    let m = rounded(rounded(n as nat, 53), 24);
    if m == 0 {
        0
    } else {
        ((bit_length(m) + 125) * 0x80_0000 + significand(m)) as u32
    }
}

proof fn lemma_bit_length(n: nat)
    ensures
        n < pow2(bit_length(n)),
        n > 0 ==> pow2((bit_length(n) - 1) as nat) <= n,
    decreases n,
{
    lemma2_to64();
    if n > 0 {
        lemma_bit_length(n / 2);
        lemma_pow2_unfold(bit_length(n));
        if n > 1 {
            lemma_pow2_unfold(bit_length(n / 2));
        }
    }
}

proof fn lemma_bit_length_at_most(n: nat, k: nat)
    requires
        n < pow2(k),
    ensures
        bit_length(n) <= k,
{
    lemma_bit_length(n);
    if bit_length(n) > k {
        if bit_length(n) - 1 > k {
            lemma_pow2_strictly_increases(k, (bit_length(n) - 1) as nat);
        }
    }
}

fn length(n: u128) -> (r: u32)
    requires
        n <= pow2(64),
    ensures
        r == bit_length(n as nat),
        r <= 65,
{
    proof {
        lemma2_to64();
        lemma2_to64_rest();
        lemma_pow2_unfold(65);
        lemma_bit_length_at_most(n as nat, 65);
    }
    let mut rest: u128 = n;
    let mut k: u32 = 0;
    while rest > 0
        invariant
            k + bit_length(rest as nat) == bit_length(n as nat),
            bit_length(n as nat) <= 65,
        decreases rest,
    {
        rest = rest / 2;
        k += 1;
    }
    k
}

fn power(k: u32) -> (r: u128)
    requires
        k <= 64,
    ensures
        r == pow2(k as nat),
        r > 0,
{
    proof {
        lemma2_to64();
        lemma2_to64_rest();
    }
    let mut r: u128 = 1;
    for i in 0..k
        invariant
            k <= 64,
            r == pow2(i as nat),
            pow2(64) == 0x1_0000_0000_0000_0000,
    {
        proof {
            lemma_pow2_unfold((i + 1) as nat);
            lemma_pow2_strictly_increases(i as nat, 64);
        }
        r = 2 * r;
    }
    proof {
        lemma_pow2_pos(k as nat);
    }
    r
}

proof fn lemma_rounded_fits(n: nat, digits: nat)
    requires
        n <= pow2(64),
        1 <= digits <= 64,
    ensures
        rounded(n, digits) <= pow2(64),
{
    lemma2_to64();
    lemma2_to64_rest();
    if bit_length(n) > digits {
        lemma_bit_length(n);
        let k = (bit_length(n) - digits) as nat;
        let unit = pow2(k);
        lemma_pow2_pos(k);
        let q = n / unit;
        lemma_fundamental_div_mod(n as int, unit as int);
        assert(q * unit <= n) by (nonlinear_arith)
            requires
                n == unit * q + n % unit,
                n % unit >= 0,
                unit > 0,
        ;
        if n == pow2(64) {
            // The digits that are dropped are all zero.
            lemma_pow2_unfold(65);
            lemma_bit_length_at_most(n, 65);
            assert(bit_length(n) == 65) by {
                if bit_length(n) <= 64 {
                    if bit_length(n) < 64 {
                        lemma_pow2_strictly_increases(bit_length(n), 64);
                    }
                }
            }
            lemma_pow2_adds((64 - k) as nat, k);
            lemma_div_multiples_vanish(pow2((64 - k) as nat) as int, unit as int);
            lemma_mod_multiples_basic(pow2((64 - k) as nat) as int, unit as int);
            lemma_mul_is_commutative(pow2((64 - k) as nat) as int, unit as int);
        } else {
            // One unit more is at most the next power of two.
            lemma_bit_length_at_most(n, 64);
            lemma_pow2_adds((64 - k) as nat, k);
            let top = pow2((64 - k) as nat);
            assert(q < top) by (nonlinear_arith)
                requires
                    q * unit <= n,
                    n < top * unit,
                    unit > 0,
            ;
            assert((q + 1) * unit <= top * unit) by (nonlinear_arith)
                requires
                    q + 1 <= top,
                    unit > 0,
            ;
            assert(q * unit <= (q + 1) * unit) by (nonlinear_arith)
                requires
                    unit > 0,
            ;
        }
    }
}

fn round(n: u128, digits: u32) -> (r: u128)
    requires
        n <= pow2(64),
        1 <= digits <= 64,
    ensures
        r == rounded(n as nat, digits as nat),
        r <= pow2(64),
{
    proof {
        lemma2_to64();
        lemma2_to64_rest();
        lemma_rounded_fits(n as nat, digits as nat);
    }
    let len: u32 = length(n);
    if len <= digits {
        return n;
    }
    let unit: u128 = power(len - digits);
    let q: u128 = n / unit;
    let rest: u128 = n % unit;
    proof {
        lemma_fundamental_div_mod(n as int, unit as int);
        lemma_pow2_strictly_increases((len - digits) as nat, 65);
        lemma_pow2_unfold(65);
        assert(q * unit <= n) by (nonlinear_arith)
            requires
                n == unit * q + rest,
                rest >= 0,
                unit > 0,
        ;
        assert((q + 1) * unit == q * unit + unit) by (nonlinear_arith);
    }
    if 2 * rest > unit || (2 * rest == unit && q % 2 == 1) {
        (q + 1) * unit
    } else {
        q * unit
    }
}

/// The bits of the single-precision value of a whole number.
pub fn bits_of(n: u64) -> (r: u32)
    ensures
        r == single_bits(n),
{
    proof {
        lemma2_to64();
        lemma2_to64_rest();
    }
    let m: u128 = round(round(n as u128, 53), 24);
    if m == 0 {
        return 0;
    }
    let len: u32 = length(m);
    proof {
        lemma_bit_length(m as nat);
    }
    let digits: u128 = if len <= 24 {
        let scale: u128 = power(24 - len);
        proof {
            lemma_pow2_adds(len as nat, (24 - len) as nat);
            let top = pow2(len as nat);
            assert(m * scale <= top * scale) by (nonlinear_arith)
                requires
                    m <= top,
                    scale >= 0,
            ;
        }
        m * scale
    } else {
        let scale: u128 = power(len - 24);
        proof {
            lemma_pow2_adds(24, (len - 24) as nat);
            lemma_fundamental_div_mod(m as int, scale as int);
            let q = m / scale;
            assert(q < pow2(24)) by (nonlinear_arith)
                requires
                    m == scale * q + m % scale,
                    m % scale >= 0,
                    m < pow2(24) * scale,
                    scale > 0,
            ;
        }
        m / scale
    };
    assert(pow2(24) == 0x100_0000);
    assert(digits <= 0x100_0000);
    (len + 125) * 0x80_0000 + digits as u32
}

} // verus!
