use vstd::prelude::*;
use vstd::arithmetic::power2::{pow2, lemma_pow2_unfold, lemma_pow2_pos, lemma2_to64};
use vstd::arithmetic::div_mod::{lemma_small_mod, lemma_div_by_multiple};
use vstd::arithmetic::div_mod::{
    lemma_mul_mod_noop_left, lemma_div_denominator, lemma_fundamental_div_mod,
    lemma_fundamental_div_mod_converse,
};
use vstd::bits::{lemma_u16_shr_is_div, lemma_u8_shr_is_div};

verus! {

/// `n * 2^amt` reduced to 16 bits: what shifting a 16-bit word left by `amt` gives.
pub open spec fn shl_u16(n: u16, amt: nat) -> int {
    (n * pow2(amt)) % 0x10000int
}

/// `n / 2^amt`: what a logical right shift by `amt` gives, for any width.
pub open spec fn shr_unsigned(n: nat, amt: nat) -> nat {
    n / pow2(amt)
}

/// `n / 2^amt` rounded towards negative infinity: what an arithmetic right shift gives.
pub open spec fn shr_signed(n: int, amt: nat) -> int {
    n / (pow2(amt) as int)
}

/// Flooring division by `c` and then by `d` is flooring division by `c * d`, for any sign of `x`.
proof fn lemma_floor_div_twice(x: int, c: int, d: int)
    requires
        c > 0,
        d > 0,
    ensures
        (x / c) / d == x / (c * d),
{
    let q1 = x / c;
    let r1 = x % c;
    let q2 = q1 / d;
    let r2 = q1 % d;
    lemma_fundamental_div_mod(x, c);
    lemma_fundamental_div_mod(q1, d);
    assert(x == (c * d) * q2 + (c * r2 + r1) && 0 <= c * r2 + r1 < c * d) by (nonlinear_arith)
        requires
            x == c * q1 + r1,
            q1 == d * q2 + r2,
            0 <= r1 < c,
            0 <= r2 < d,
    ;
    assert(x == q2 * (c * d) + (c * r2 + r1)) by (nonlinear_arith)
        requires
            x == (c * d) * q2 + (c * r2 + r1),
    ;
    lemma_fundamental_div_mod_converse(x, c * d, q2, c * r2 + r1);
}

/// Shifts a 16-bit word left one bit at a time, `amt` times.
pub fn __ashlhi3(n: u16, amt: u8) -> (r: u16)
    ensures
        r == shl_u16(n, amt as nat),
        amt < 16 ==> r == n << amt,
        amt >= 16 ==> r == 0,
{
    let mut n = n;
    let mut amt = amt;
    let ghost n0: u16 = n;
    let ghost amt0: u8 = amt;
    proof {
        lemma2_to64();
        assert(n0 << 0u8 == n0) by (bit_vector);
        assert((n0 as int) % 0x10000int == n0 as int);
    }
    while amt > 0
        invariant
            amt <= amt0,
            n == shl_u16(n0, (amt0 - amt) as nat),
            amt0 - amt < 16 ==> n == n0 << ((amt0 - amt) as u8),
            amt0 - amt >= 16 ==> n == 0,
        decreases amt,
    {
        let ghost i: u8 = (amt0 - amt) as u8;
        let ghost m: u16 = n;
        proof {
            assert((m << 1u16) as int == (2 * m) % 0x10000) by (bit_vector);
            lemma_pow2_unfold((i + 1) as nat);
            lemma_mul_mod_noop_left(n0 * pow2(i as nat), 2, 0x10000);
            assert((n0 * pow2(i as nat)) * 2 == n0 * pow2((i + 1) as nat)) by (nonlinear_arith)
                requires
                    pow2((i + 1) as nat) == 2 * pow2(i as nat),
            ;
            if i < 15 {
                assert((n0 << i) << 1u8 == n0 << ((i + 1) as u8)) by (bit_vector)
                    requires
                        i < 15,
                ;
            } else if i == 15 {
                assert((n0 << 15u8) << 1u8 == 0) by (bit_vector);
            } else {
                assert(0u16 << 1u8 == 0) by (bit_vector);
            }
        }
        n <<= 1;
        amt -= 1;
    }
    n
}

/// Shifts a byte right one bit at a time, `amt` times.
pub fn __lshrqi3(n: u8, amt: u8) -> (r: u8)
    ensures
        r == shr_unsigned(n as nat, amt as nat),
        amt < 8 ==> r == n >> amt,
{
    let mut n = n;
    let mut amt = amt;
    let ghost n0: u8 = n;
    let ghost amt0: u8 = amt;
    proof {
        lemma2_to64();
        if amt0 < 8 {
            lemma_u8_shr_is_div(n0, amt0);
        }
    }
    while amt > 0
        invariant
            amt <= amt0,
            n == shr_unsigned(n0 as nat, (amt0 - amt) as nat),
        decreases amt,
    {
        let ghost i: nat = (amt0 - amt) as nat;
        proof {
            assert(n >> 1u8 == n / 2) by (bit_vector);
            lemma_pow2_pos(i);
            lemma_pow2_unfold(i + 1);
            lemma_div_denominator(n0 as int, pow2(i) as int, 2);
        }
        n >>= 1;
        amt -= 1;
    }
    n
}

/// Shifts a 16-bit word right one bit at a time, `amt` times.
pub fn __lshrhi3(n: u16, amt: u8) -> (r: u16)
    ensures
        r == shr_unsigned(n as nat, amt as nat),
        amt < 16 ==> r == n >> amt,
{
    let mut n = n;
    let mut amt = amt;
    let ghost n0: u16 = n;
    let ghost amt0: u8 = amt;
    proof {
        lemma2_to64();
        if amt0 < 16 {
            lemma_u16_shr_is_div(n0, amt0 as u16);
            assert(n0 >> (amt0 as u16) == n0 >> amt0) by (bit_vector);
        }
    }
    while amt > 0
        invariant
            amt <= amt0,
            n == shr_unsigned(n0 as nat, (amt0 - amt) as nat),
        decreases amt,
    {
        let ghost i: nat = (amt0 - amt) as nat;
        proof {
            assert(n >> 1u16 == n / 2) by (bit_vector);
            lemma_pow2_pos(i);
            lemma_pow2_unfold(i + 1);
            lemma_div_denominator(n0 as int, pow2(i) as int, 2);
        }
        n >>= 1;
        amt -= 1;
    }
    n
}

/// Shifts a signed 16-bit word right one bit at a time, `amt` times, copying the sign bit in.
pub fn __ashrhi3(n: i16, amt: u8) -> (r: i16)
    ensures
        r == shr_signed(n as int, amt as nat),
        amt < 16 ==> r == n >> amt,
{
    let mut n = n;
    let mut amt = amt;
    let ghost n0: i16 = n;
    let ghost amt0: u8 = amt;
    proof {
        lemma2_to64();
        assert(n0 >> 0u8 == n0) by (bit_vector);
    }
    while amt > 0
        invariant
            amt <= amt0,
            n == shr_signed(n0 as int, (amt0 - amt) as nat),
            amt0 - amt < 16 ==> n == n0 >> ((amt0 - amt) as u8),
        decreases amt,
    {
        let ghost i: nat = (amt0 - amt) as nat;
        let ghost m: i16 = n;
        proof {
            assert(2 * ((m >> 1i16) as int) <= m as int && (m as int) < 2 * ((m >> 1i16) as int) + 2)
                by (bit_vector);
            lemma_fundamental_div_mod_converse(m as int, 2, (m >> 1i16) as int, m - 2 * (m >> 1i16));
            lemma_pow2_pos(i);
            lemma_pow2_unfold(i + 1);
            lemma_floor_div_twice(n0 as int, pow2(i) as int, 2);
            let j: u8 = (amt0 - amt) as u8;
            if j < 15 {
                assert((n0 >> j) >> 1i16 == n0 >> ((j + 1) as u8)) by (bit_vector)
                    requires
                        j < 15,
                ;
            }
        }
        n >>= 1;
        amt -= 1;
    }
    n
}

/// Shifting a 16-bit word left and then logically right by the same amount gives
/// it back when no set bit was pushed out.
pub proof fn lemma_shl_then_shr(n: u16, amt: nat)
    requires
        n * pow2(amt) < 0x10000,
    ensures
        shr_unsigned(shl_u16(n, amt) as nat, amt) == n,
{
    lemma_pow2_pos(amt);
    assert(n * pow2(amt) >= 0) by (nonlinear_arith)
        requires
            pow2(amt) > 0,
    ;
    lemma_small_mod((n * pow2(amt)) as nat, 0x10000);
    lemma_div_by_multiple(n as int, pow2(amt) as int);
}

/// What the shifts compute, by the bounds that define them: a left shift leaves a
/// 16-bit value that differs from `n * 2^amt` by a multiple of `2^16`; a logical right
/// shift leaves the `q` with `q * 2^amt <= n < (q + 1) * 2^amt`, and so does an
/// arithmetic right shift, for negative `n` too.
pub proof fn lemma_shift_bounds(n: u16, m: i16, amt: nat)
    ensures
        0 <= shl_u16(n, amt) < 0x10000,
        (n * pow2(amt) - shl_u16(n, amt)) % 0x10000 == 0,
        shr_unsigned(n as nat, amt) * pow2(amt) <= n < (shr_unsigned(n as nat, amt) + 1) * pow2(amt),
        shr_signed(m as int, amt) * pow2(amt) <= m < (shr_signed(m as int, amt) + 1) * pow2(amt),
{
    lemma_pow2_pos(amt);
    let p = pow2(amt) as int;
    lemma_fundamental_div_mod(n as int, p);
    lemma_fundamental_div_mod(m as int, p);
    lemma_fundamental_div_mod(n * p, 0x10000);
    let qn = (n as int) / p;
    let qm = (m as int) / p;
    assert(qn * p <= n < (qn + 1) * p && qm * p <= m < (qm + 1) * p) by (nonlinear_arith)
        requires
            n == p * qn + (n as int) % p,
            m == p * qm + (m as int) % p,
            0 <= (n as int) % p < p,
            0 <= (m as int) % p < p,
    ;
    let h = (n * p) / 0x10000;
    assert(n * p - (n * p) % 0x10000 == 0x10000 * h);
    vstd::arithmetic::div_mod::lemma_mod_multiples_basic(h, 0x10000);
    assert((0x10000 * h) % 0x10000 == 0) by (nonlinear_arith)
        requires
            (h * 0x10000) % 0x10000 == 0,
    ;
}

} // verus!
