use vstd::prelude::*;
use vstd::arithmetic::power2::{pow2, lemma_pow2_unfold, lemma_pow2_strictly_increases, lemma2_to64};
use vstd::arithmetic::div_mod::{lemma_fundamental_div_mod_converse, lemma_fundamental_div_mod, lemma_mod_pos_bound};

verus! {

/// The quotient these routines compute: `a / b`, and 0 for a zero divisor.
pub open spec fn quotient(a: nat, b: nat) -> nat {
    if b == 0 { 0 } else { a / b }
}

/// The remainder these routines compute: `a % b`, and `a` itself for a zero divisor.
pub open spec fn remainder(a: nat, b: nat) -> nat {
    if b == 0 { a } else { a % b }
}

/// Highest bit of a byte.
pub const TOP_BIT_U8: u8 = 0x80;

/// Highest bit of a 16-bit word.
pub const TOP_BIT_U16: u16 = 0x8000;

/// Doubling `d * 2^k` gives `d * 2^(k+1)`, which is at least `2^(k+1)`.
proof fn lemma_unit_doubles(d: int, k: nat)
    requires
        d >= 1,
    ensures
        2 * (d * pow2(k)) == d * pow2(k + 1),
        pow2(k + 1) <= d * pow2(k + 1),
{
    lemma_pow2_unfold(k + 1);
    let p = pow2(k) as int;
    let p1 = pow2(k + 1) as int;
    assert(2 * (d * p) == d * p1 && p1 <= d * p1) by (nonlinear_arith)
        requires
            p1 == 2 * p,
            d >= 1,
            p1 >= 0,
    ;
}

/// `d * 2^e` is twice `d * 2^(e-1)` when `e > 0`.
proof fn lemma_unit_halves(d: int, e: nat)
    requires
        e > 0,
    ensures
        d * pow2(e) == 2 * (d * pow2((e - 1) as nat)),
{
    lemma_pow2_unfold(e);
    let p = pow2((e - 1) as nat) as int;
    let p1 = pow2(e) as int;
    assert(d * p1 == 2 * (d * p)) by (nonlinear_arith)
        requires
            p1 == 2 * p,
    ;
}

/// If `2^e < 2^n` then `e < n`.
proof fn lemma_pow2_below(e: nat, n: nat)
    requires
        pow2(e) < pow2(n),
    ensures
        e < n,
{
    if e > n {
        lemma_pow2_strictly_increases(n, e);
    }
}

/// One digit of restoring long division: with the current unit `u = 2 * b`
/// and `a0 == q * u + a`, `a < u`, the next unit is `b` and the next digit is
/// 1 exactly when `b <= a`.
proof fn lemma_division_digit(a0: int, q: int, u: int, b: int, a: int)
    requires
        u == 2 * b,
        b >= 1,
        0 <= a < u,
        q >= 0,
        a0 == q * u + a,
    ensures
        a0 == (2 * q) * b + a,
        2 * q <= a0,
        b <= a ==> a0 == (2 * q + 1) * b + (a - b) && 2 * q + 1 <= a0,
{
    assert(a0 == (2 * q) * b + a && 2 * q <= a0 && (b <= a ==> a0 == (2 * q + 1) * b + (a - b)
        && 2 * q + 1 <= a0)) by (nonlinear_arith)
        requires
            u == 2 * b,
            b >= 1,
            0 <= a < u,
            q >= 0,
            a0 == q * u + a,
    ;
}

/// Shifting left by one doubles a u8 whose top bit is clear.
proof fn lemma_u8_double(x: u8)
    by (bit_vector)
    requires
        (x & 0x80u8) == 0u8 || 2 * (x as int) <= 255,
    ensures
        (x << 1u8) as int == 2 * (x as int),
{
}

/// When the divisor cannot be shifted further, the dividend is below twice the divisor.
proof fn lemma_u8_shift_stops(a: u8, b: u8)
    by (bit_vector)
    requires
        !((b & 0x80u8) == 0u8 && (b << 1u8) <= a),
    ensures
        a < 2 * b,
{
}

/// Shifting right by one halves a u8.
proof fn lemma_u8_halve(x: u8)
    by (bit_vector)
    ensures
        x >> 1u8 == x / 2,
{
}

/// Setting the low bit of an even u8 adds one.
proof fn lemma_u8_set_low_bit(x: u8)
    by (bit_vector)
    requires
        x % 2 == 0,
    ensures
        (x | 1u8) as int == (x as int) + 1,
{
}

/// Shifting left by one doubles a u16 whose top bit is clear.
proof fn lemma_u16_double(x: u16)
    by (bit_vector)
    requires
        (x & 0x8000u16) == 0u16 || 2 * (x as int) <= 65535,
    ensures
        (x << 1u16) as int == 2 * (x as int),
{
}

/// When the divisor cannot be shifted further, the dividend is below twice the divisor.
proof fn lemma_u16_shift_stops(a: u16, b: u16)
    by (bit_vector)
    requires
        !((b & 0x8000u16) == 0u16 && (b << 1u16) <= a),
    ensures
        a < 2 * b,
{
}

/// Shifting right by one halves a u16.
proof fn lemma_u16_halve(x: u16)
    by (bit_vector)
    ensures
        x >> 1u16 == x / 2,
{
}

/// Setting the low bit of an even u16 adds one.
proof fn lemma_u16_set_low_bit(x: u16)
    by (bit_vector)
    requires
        x % 2 == 0,
    ensures
        (x | 1u16) as int == (x as int) + 1,
{
}

/// What the division routines and the remainder routines compute fit together:
/// quotient times divisor plus remainder gives the dividend back, for every dividend
/// and divisor, and the remainder is below any nonzero divisor.
pub proof fn lemma_quotient_remainder(a: nat, b: nat)
    ensures
        quotient(a, b) * b + remainder(a, b) == a,
        b > 0 ==> remainder(a, b) < b,
        b == 0 ==> quotient(a, b) == 0 && remainder(a, b) == a,
{
    if b > 0 {
        lemma_fundamental_div_mod(a as int, b as int);
        lemma_mod_pos_bound(a as int, b as int);
        assert(quotient(a, b) * b == b * (a / b)) by (nonlinear_arith);
    }
}

/// Unsigned 8-bit division by shift and subtract. A zero divisor gives 0.
pub fn __udivqi3(a: u8, b: u8) -> (q: u8)
    ensures
        q == quotient(a as nat, b as nat),
{
    let mut a = a;
    let mut b = b;
    if b == 0 || b > a {
        proof {
            if b != 0 {
                lemma_fundamental_div_mod_converse(a as int, b as int, 0, a as int);
            }
        }
        return 0;
    }
    let ghost a0: int = a as int;
    let ghost d: int = b as int;
    proof {
        lemma2_to64();
    }
    // Shift b as far left as possible without exceeding a.
    let mut num_digits_remaining: u8 = 0;
    while (b & TOP_BIT_U8) == 0 && (b << 1) <= a
        invariant
            d >= 1,
            a as int == a0,
            1 <= b <= a,
            b as int == d * pow2(num_digits_remaining as nat),
            pow2(num_digits_remaining as nat) <= b,
            num_digits_remaining < 8,
            pow2(8) == 256,
        decreases 8 - num_digits_remaining,
    {
        proof {
            lemma_u8_double(b);
            lemma_unit_doubles(d, num_digits_remaining as nat);
            lemma_pow2_below((num_digits_remaining + 1) as nat, 8);
        }
        b <<= 1;
        num_digits_remaining += 1;
    }
    proof {
        lemma_u8_shift_stops(a, b);
    }
    let ghost k: nat = num_digits_remaining as nat;
    // Since b <= a, the first digit is always 1.
    let mut q: u8 = 1;
    a -= b;
    let ghost mut u: int = b as int;
    proof {
        lemma_u8_halve(b);
    }
    b >>= 1;
    for i in 0..num_digits_remaining
        invariant
            d >= 1,
            a0 < 256,
            k == num_digits_remaining,
            u == d * pow2((k - i) as nat),
            b as int == u / 2,
            0 <= a < u,
            a0 == q * u + a,
    {
        proof {
            lemma_unit_halves(d, (k - i) as nat);
            lemma_division_digit(a0, q as int, u, b as int, a as int);
        }
        // Prepare q to receive the next digit as its lowest bit.
        proof {
            lemma_u8_double(q);
        }
        q <<= 1;
        if b <= a {
            proof {
                lemma_u8_set_low_bit(q);
            }
            q |= 1;
            a -= b;
        }
        proof {
            u = b as int;
        }
        // The next digit corresponds to one smaller power of 2 times the divisor.
        proof {
            lemma_u8_halve(b);
        }
        b >>= 1;
    }
    proof {
        lemma_fundamental_div_mod_converse(a0, d, q as int, a as int);
    }
    q
}

/// Unsigned 8-bit remainder by shift and subtract. A zero divisor gives `a` back.
pub fn __umodqi3(a: u8, b: u8) -> (r: u8)
    ensures
        r == remainder(a as nat, b as nat),
{
    let mut a = a;
    let mut b = b;
    if b == 0 || b > a {
        proof {
            if b != 0 {
                lemma_fundamental_div_mod_converse(a as int, b as int, 0, a as int);
            }
        }
        return a;
    }
    let ghost a0: int = a as int;
    let ghost d: int = b as int;
    proof {
        lemma2_to64();
    }
    // Shift b as far left as possible without exceeding a. If the highest bit of
    // b is set, one more shift would exceed a.
    let mut num_digits_remaining: u8 = 0;
    while (b & TOP_BIT_U8) == 0 && (b << 1) <= a
        invariant
            d >= 1,
            a as int == a0,
            1 <= b <= a,
            b as int == d * pow2(num_digits_remaining as nat),
            pow2(num_digits_remaining as nat) <= b,
            num_digits_remaining < 8,
            pow2(8) == 256,
        decreases 8 - num_digits_remaining,
    {
        proof {
            lemma_u8_double(b);
            lemma_unit_doubles(d, num_digits_remaining as nat);
            lemma_pow2_below((num_digits_remaining + 1) as nat, 8);
        }
        b <<= 1;
        num_digits_remaining += 1;
    }
    proof {
        lemma_u8_shift_stops(a, b);
    }
    let ghost k: nat = num_digits_remaining as nat;
    // Since b <= a, the first digit is always 1; the quotient is only tracked in the proof.
    let ghost mut q: int = 1;
    a -= b;
    let ghost mut u: int = b as int;
    proof {
        lemma_u8_halve(b);
    }
    b >>= 1;
    for i in 0..num_digits_remaining
        invariant
            d >= 1,
            a0 < 256,
            q >= 0,
            k == num_digits_remaining,
            u == d * pow2((k - i) as nat),
            b as int == u / 2,
            0 <= a < u,
            a0 == q * u + a,
    {
        proof {
            lemma_unit_halves(d, (k - i) as nat);
            lemma_division_digit(a0, q, u, b as int, a as int);
            q = 2 * q;
        }
        if b <= a {
            proof {
                q = q + 1;
            }
            a -= b;
        }
        proof {
            u = b as int;
        }
        proof {
            lemma_u8_halve(b);
        }
        b >>= 1;
    }
    proof {
        lemma_fundamental_div_mod_converse(a0, d, q, a as int);
    }
    a
}

/// Unsigned 8-bit division returning the quotient and storing the remainder in `rem`.
/// A zero divisor gives quotient 0 and remainder `a`.
pub fn __udivmodqi4(a: u8, b: u8, rem: &mut u8) -> (q: u8)
    ensures
        q == quotient(a as nat, b as nat),
        *final(rem) == remainder(a as nat, b as nat),
{
    let mut a = a;
    let mut b = b;
    if b == 0 || b > a {
        proof {
            if b != 0 {
                lemma_fundamental_div_mod_converse(a as int, b as int, 0, a as int);
            }
        }
        *rem = a;
        return 0;
    }
    let ghost a0: int = a as int;
    let ghost d: int = b as int;
    proof {
        lemma2_to64();
    }
    // Shift b as far left as possible without exceeding a.
    let mut num_digits_remaining: u8 = 0;
    while (b & TOP_BIT_U8) == 0 && (b << 1) <= a
        invariant
            d >= 1,
            a as int == a0,
            1 <= b <= a,
            b as int == d * pow2(num_digits_remaining as nat),
            pow2(num_digits_remaining as nat) <= b,
            num_digits_remaining < 8,
            pow2(8) == 256,
        decreases 8 - num_digits_remaining,
    {
        proof {
            lemma_u8_double(b);
            lemma_unit_doubles(d, num_digits_remaining as nat);
            lemma_pow2_below((num_digits_remaining + 1) as nat, 8);
        }
        b <<= 1;
        num_digits_remaining += 1;
    }
    proof {
        lemma_u8_shift_stops(a, b);
    }
    let ghost k: nat = num_digits_remaining as nat;
    // Since b <= a, the first digit is always 1.
    let mut q: u8 = 1;
    a -= b;
    let ghost mut u: int = b as int;
    proof {
        lemma_u8_halve(b);
    }
    b >>= 1;
    for i in 0..num_digits_remaining
        invariant
            d >= 1,
            a0 < 256,
            k == num_digits_remaining,
            u == d * pow2((k - i) as nat),
            b as int == u / 2,
            0 <= a < u,
            a0 == q * u + a,
    {
        proof {
            lemma_unit_halves(d, (k - i) as nat);
            lemma_division_digit(a0, q as int, u, b as int, a as int);
        }
        proof {
            lemma_u8_double(q);
        }
        q <<= 1;
        if b <= a {
            proof {
                lemma_u8_set_low_bit(q);
            }
            q |= 1;
            a = a - b;
        }
        proof {
            u = b as int;
        }
        proof {
            lemma_u8_halve(b);
        }
        b >>= 1;
    }
    proof {
        lemma_fundamental_div_mod_converse(a0, d, q as int, a as int);
    }
    *rem = a;
    q
}

/// Unsigned 16-bit division by shift and subtract. A zero divisor gives 0.
pub fn __udivhi3(a: u16, b: u16) -> (q: u16)
    ensures
        q == quotient(a as nat, b as nat),
{
    let mut a = a;
    let mut b = b;
    if b == 0 || b > a {
        proof {
            if b != 0 {
                lemma_fundamental_div_mod_converse(a as int, b as int, 0, a as int);
            }
        }
        return 0;
    }
    let ghost a0: int = a as int;
    let ghost d: int = b as int;
    proof {
        lemma2_to64();
    }
    // Shift b as far left as possible without exceeding a.
    let mut num_digits_remaining: u8 = 0;
    while (b & TOP_BIT_U16) == 0 && (b << 1) <= a
        invariant
            d >= 1,
            a as int == a0,
            1 <= b <= a,
            b as int == d * pow2(num_digits_remaining as nat),
            pow2(num_digits_remaining as nat) <= b,
            num_digits_remaining < 16,
            pow2(16) == 65536,
        decreases 16 - num_digits_remaining,
    {
        proof {
            lemma_u16_double(b);
            lemma_unit_doubles(d, num_digits_remaining as nat);
            lemma_pow2_below((num_digits_remaining + 1) as nat, 16);
        }
        b <<= 1;
        num_digits_remaining += 1;
    }
    proof {
        lemma_u16_shift_stops(a, b);
    }
    let ghost k: nat = num_digits_remaining as nat;
    // Since b <= a, the first digit is always 1.
    let mut q: u16 = 1;
    a -= b;
    let ghost mut u: int = b as int;
    proof {
        lemma_u16_halve(b);
    }
    b >>= 1;
    for i in 0..num_digits_remaining
        invariant
            d >= 1,
            a0 < 65536,
            k == num_digits_remaining,
            u == d * pow2((k - i) as nat),
            b as int == u / 2,
            0 <= a < u,
            a0 == q * u + a,
    {
        proof {
            lemma_unit_halves(d, (k - i) as nat);
            lemma_division_digit(a0, q as int, u, b as int, a as int);
        }
        // Prepare q to receive the next digit as its lowest bit.
        proof {
            lemma_u16_double(q);
        }
        q <<= 1;
        if b <= a {
            proof {
                lemma_u16_set_low_bit(q);
            }
            q |= 1;
            a -= b;
        }
        proof {
            u = b as int;
        }
        // The next digit corresponds to one smaller power of 2 times the divisor.
        proof {
            lemma_u16_halve(b);
        }
        b >>= 1;
    }
    proof {
        lemma_fundamental_div_mod_converse(a0, d, q as int, a as int);
    }
    q
}

/// Unsigned 16-bit remainder by shift and subtract. A zero divisor gives `a` back.
pub fn __umodhi3(a: u16, b: u16) -> (r: u16)
    ensures
        r == remainder(a as nat, b as nat),
{
    let mut a = a;
    let mut b = b;
    if b == 0 || b > a {
        proof {
            if b != 0 {
                lemma_fundamental_div_mod_converse(a as int, b as int, 0, a as int);
            }
        }
        return a;
    }
    let ghost a0: int = a as int;
    let ghost d: int = b as int;
    proof {
        lemma2_to64();
    }
    // Shift b as far left as possible without exceeding a. If the highest bit of
    // b is set, one more shift would exceed a.
    let mut num_digits_remaining: u8 = 0;
    while (b & TOP_BIT_U16) == 0 && (b << 1) <= a
        invariant
            d >= 1,
            a as int == a0,
            1 <= b <= a,
            b as int == d * pow2(num_digits_remaining as nat),
            pow2(num_digits_remaining as nat) <= b,
            num_digits_remaining < 16,
            pow2(16) == 65536,
        decreases 16 - num_digits_remaining,
    {
        proof {
            lemma_u16_double(b);
            lemma_unit_doubles(d, num_digits_remaining as nat);
            lemma_pow2_below((num_digits_remaining + 1) as nat, 16);
        }
        b <<= 1;
        num_digits_remaining += 1;
    }
    proof {
        lemma_u16_shift_stops(a, b);
    }
    let ghost k: nat = num_digits_remaining as nat;
    // Since b <= a, the first digit is always 1; the quotient is only tracked in the proof.
    let ghost mut q: int = 1;
    a -= b;
    let ghost mut u: int = b as int;
    proof {
        lemma_u16_halve(b);
    }
    b >>= 1;
    for i in 0..num_digits_remaining
        invariant
            d >= 1,
            a0 < 65536,
            q >= 0,
            k == num_digits_remaining,
            u == d * pow2((k - i) as nat),
            b as int == u / 2,
            0 <= a < u,
            a0 == q * u + a,
    {
        proof {
            lemma_unit_halves(d, (k - i) as nat);
            lemma_division_digit(a0, q, u, b as int, a as int);
            q = 2 * q;
        }
        if b <= a {
            proof {
                q = q + 1;
            }
            a -= b;
        }
        proof {
            u = b as int;
        }
        proof {
            lemma_u16_halve(b);
        }
        b >>= 1;
    }
    proof {
        lemma_fundamental_div_mod_converse(a0, d, q, a as int);
    }
    a
}

/// Unsigned 16-bit division returning the quotient and storing the remainder in `rem`.
/// A zero divisor gives quotient 0 and remainder `a`.
pub fn __udivmodhi4(a: u16, b: u16, rem: &mut u16) -> (q: u16)
    ensures
        q == quotient(a as nat, b as nat),
        *final(rem) == remainder(a as nat, b as nat),
{
    let mut a = a;
    let mut b = b;
    if b == 0 || b > a {
        proof {
            if b != 0 {
                lemma_fundamental_div_mod_converse(a as int, b as int, 0, a as int);
            }
        }
        *rem = a;
        return 0;
    }
    let ghost a0: int = a as int;
    let ghost d: int = b as int;
    proof {
        lemma2_to64();
    }
    // Shift b as far left as possible without exceeding a.
    let mut num_digits_remaining: u8 = 0;
    while (b & TOP_BIT_U16) == 0 && (b << 1) <= a
        invariant
            d >= 1,
            a as int == a0,
            1 <= b <= a,
            b as int == d * pow2(num_digits_remaining as nat),
            pow2(num_digits_remaining as nat) <= b,
            num_digits_remaining < 16,
            pow2(16) == 65536,
        decreases 16 - num_digits_remaining,
    {
        proof {
            lemma_u16_double(b);
            lemma_unit_doubles(d, num_digits_remaining as nat);
            lemma_pow2_below((num_digits_remaining + 1) as nat, 16);
        }
        b <<= 1;
        num_digits_remaining += 1;
    }
    proof {
        lemma_u16_shift_stops(a, b);
    }
    let ghost k: nat = num_digits_remaining as nat;
    // Since b <= a, the first digit is always 1.
    let mut q: u16 = 1;
    a -= b;
    let ghost mut u: int = b as int;
    proof {
        lemma_u16_halve(b);
    }
    b >>= 1;
    for i in 0..num_digits_remaining
        invariant
            d >= 1,
            a0 < 65536,
            k == num_digits_remaining,
            u == d * pow2((k - i) as nat),
            b as int == u / 2,
            0 <= a < u,
            a0 == q * u + a,
    {
        proof {
            lemma_unit_halves(d, (k - i) as nat);
            lemma_division_digit(a0, q as int, u, b as int, a as int);
        }
        proof {
            lemma_u16_double(q);
        }
        q <<= 1;
        if b <= a {
            proof {
                lemma_u16_set_low_bit(q);
            }
            q |= 1;
            a = a - b;
        }
        proof {
            u = b as int;
        }
        proof {
            lemma_u16_halve(b);
        }
        b >>= 1;
    }
    proof {
        lemma_fundamental_div_mod_converse(a0, d, q as int, a as int);
    }
    *rem = a;
    q
}

} // verus!
