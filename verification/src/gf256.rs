//! Arithmetic in GF(2^8) with the QR reduction polynomial
//! x^8 + x^4 + x^3 + x^2 + 1 (0x11D).

use vstd::prelude::*;

verus! {

/// Multiplication by `x` (that is, by 2) in the field.
pub open spec fn xtime(a: u8) -> u8 {
    if a & 0x80u8 != 0 {
        (a << 1u8) ^ 0x1Du8
    } else {
        a << 1u8
    }
}

/// Field multiplication: the carry-less product of `a` and `b` reduced modulo 0x11D.
pub closed spec fn gf_mul(a: u8, b: u8) -> u8 {
    let a1 = xtime(a);
    let a2 = xtime(a1);
    let a3 = xtime(a2);
    let a4 = xtime(a3);
    let a5 = xtime(a4);
    let a6 = xtime(a5);
    let a7 = xtime(a6);
    (if b & 0x01u8 != 0 { a } else { 0u8 }) ^ (if b & 0x02u8 != 0 { a1 } else { 0u8 }) ^ (if b
        & 0x04u8 != 0 {
        a2
    } else {
        0u8
    }) ^ (if b & 0x08u8 != 0 { a3 } else { 0u8 }) ^ (if b & 0x10u8 != 0 { a4 } else { 0u8 }) ^ (
    if b & 0x20u8 != 0 {
        a5
    } else {
        0u8
    }) ^ (if b & 0x40u8 != 0 { a6 } else { 0u8 }) ^ (if b & 0x80u8 != 0 { a7 } else { 0u8 })
}

/// `a` raised to the power `n` in the field.
pub open spec fn gf_pow(a: u8, n: nat) -> u8
    decreases n,
{
    if n == 0 {
        1
    } else {
        gf_mul(gf_pow(a, (n - 1) as nat), a)
    }
}

/// The generator element 2 raised to `n`.
pub open spec fn alpha_pow(n: nat) -> u8 {
    gf_pow(2, n)
}

fn xtime_exec(a: u8) -> (r: u8)
    ensures
        r == xtime(a),
{
    if a & 0x80 != 0 {
        (a << 1u8) ^ 0x1D
    } else {
        a << 1u8
    }
}

/// Multiplies two field elements.
pub fn mul(left: u8, right: u8) -> (r: u8)
    ensures
        r == gf_mul(left, right),
{
    if left == 0 || right == 0 {
        assert(gf_mul(0, right) == 0 && gf_mul(left, 0) == 0) by (bit_vector);
        return 0;
    }
    let a1 = xtime_exec(left);
    let a2 = xtime_exec(a1);
    let a3 = xtime_exec(a2);
    let a4 = xtime_exec(a3);
    let a5 = xtime_exec(a4);
    let a6 = xtime_exec(a5);
    let a7 = xtime_exec(a6);
    let t0: u8 = if right & 0x01 != 0 { left } else { 0 };
    let t1: u8 = if right & 0x02 != 0 { a1 } else { 0 };
    let t2: u8 = if right & 0x04 != 0 { a2 } else { 0 };
    let t3: u8 = if right & 0x08 != 0 { a3 } else { 0 };
    let t4: u8 = if right & 0x10 != 0 { a4 } else { 0 };
    let t5: u8 = if right & 0x20 != 0 { a5 } else { 0 };
    let t6: u8 = if right & 0x40 != 0 { a6 } else { 0 };
    let t7: u8 = if right & 0x80 != 0 { a7 } else { 0 };
    t0 ^ t1 ^ t2 ^ t3 ^ t4 ^ t5 ^ t6 ^ t7
}

/// Multiplication is commutative.
#[verifier::rlimit(100)]
pub proof fn lemma_mul_commutative(a: u8, b: u8)
    ensures
        gf_mul(a, b) == gf_mul(b, a),
{
    assert(gf_mul(a, b) == gf_mul(b, a)) by (bit_vector);
}

/// Multiplication distributes over addition (exclusive or).
#[verifier::rlimit(100)]
pub proof fn lemma_mul_distributive(a: u8, b: u8, c: u8)
    ensures
        gf_mul(a, b ^ c) == gf_mul(a, b) ^ gf_mul(a, c),
        gf_mul(b ^ c, a) == gf_mul(b, a) ^ gf_mul(c, a),
{
    assert(gf_mul(a, b ^ c) == gf_mul(a, b) ^ gf_mul(a, c)) by (bit_vector);
    lemma_mul_commutative(a, b ^ c);
    lemma_mul_commutative(a, b);
    lemma_mul_commutative(a, c);
}

/// Zero annihilates and one is neutral.
pub proof fn lemma_mul_zero_one(a: u8)
    ensures
        gf_mul(a, 0) == 0,
        gf_mul(0, a) == 0,
        gf_mul(a, 1) == a,
        gf_mul(1, a) == a,
{
    assert(gf_mul(a, 0) == 0) by (bit_vector);
    assert(gf_mul(0, a) == 0) by (bit_vector);
    assert(gf_mul(a, 1) == a) by (bit_vector);
    lemma_mul_commutative(a, 1);
}

/// Multiplying by 2 is `xtime`.
pub proof fn lemma_mul_two(a: u8)
    ensures
        gf_mul(a, 2) == xtime(a),
{
    assert(gf_mul(a, 2) == xtime(a)) by (bit_vector);
}

#[verifier::rlimit(100)]
proof fn lemma_mul_xtime_left(a: u8, b: u8)
    ensures
        gf_mul(xtime(a), b) == xtime(gf_mul(a, b)),
{
    assert(gf_mul(xtime(a), b) == xtime(gf_mul(a, b))) by (bit_vector);
}

proof fn lemma_mul_xtime_right(a: u8, b: u8)
    ensures
        gf_mul(a, xtime(b)) == xtime(gf_mul(a, b)),
{
    lemma_mul_commutative(a, xtime(b));
    lemma_mul_xtime_left(b, a);
    lemma_mul_commutative(b, a);
}

proof fn lemma_mul_select(a: u8, bit: bool, x: u8)
    ensures
        gf_mul(a, if bit { x } else { 0u8 }) == if bit { gf_mul(a, x) } else { 0u8 },
{
    lemma_mul_zero_one(a);
}

/// Multiplication is associative.
pub proof fn lemma_mul_associative(a: u8, b: u8, c: u8)
    ensures
        gf_mul(gf_mul(a, b), c) == gf_mul(a, gf_mul(b, c)),
{
    let p = gf_mul(a, b);
    let b1 = xtime(b);
    let b2 = xtime(b1);
    let b3 = xtime(b2);
    let b4 = xtime(b3);
    let b5 = xtime(b4);
    let b6 = xtime(b5);
    let b7 = xtime(b6);
    lemma_mul_xtime_right(a, b);
    lemma_mul_xtime_right(a, b1);
    lemma_mul_xtime_right(a, b2);
    lemma_mul_xtime_right(a, b3);
    lemma_mul_xtime_right(a, b4);
    lemma_mul_xtime_right(a, b5);
    lemma_mul_xtime_right(a, b6);
    let t0 = if c & 0x01u8 != 0 { b } else { 0u8 };
    let t1 = if c & 0x02u8 != 0 { b1 } else { 0u8 };
    let t2 = if c & 0x04u8 != 0 { b2 } else { 0u8 };
    let t3 = if c & 0x08u8 != 0 { b3 } else { 0u8 };
    let t4 = if c & 0x10u8 != 0 { b4 } else { 0u8 };
    let t5 = if c & 0x20u8 != 0 { b5 } else { 0u8 };
    let t6 = if c & 0x40u8 != 0 { b6 } else { 0u8 };
    let t7 = if c & 0x80u8 != 0 { b7 } else { 0u8 };
    assert(gf_mul(b, c) == t0 ^ t1 ^ t2 ^ t3 ^ t4 ^ t5 ^ t6 ^ t7);
    lemma_mul_distributive(a, t0 ^ t1 ^ t2 ^ t3 ^ t4 ^ t5 ^ t6, t7);
    lemma_mul_distributive(a, t0 ^ t1 ^ t2 ^ t3 ^ t4 ^ t5, t6);
    lemma_mul_distributive(a, t0 ^ t1 ^ t2 ^ t3 ^ t4, t5);
    lemma_mul_distributive(a, t0 ^ t1 ^ t2 ^ t3, t4);
    lemma_mul_distributive(a, t0 ^ t1 ^ t2, t3);
    lemma_mul_distributive(a, t0 ^ t1, t2);
    lemma_mul_distributive(a, t0, t1);
    lemma_mul_select(a, c & 0x01u8 != 0, b);
    lemma_mul_select(a, c & 0x02u8 != 0, b1);
    lemma_mul_select(a, c & 0x04u8 != 0, b2);
    lemma_mul_select(a, c & 0x08u8 != 0, b3);
    lemma_mul_select(a, c & 0x10u8 != 0, b4);
    lemma_mul_select(a, c & 0x20u8 != 0, b5);
    lemma_mul_select(a, c & 0x40u8 != 0, b6);
    lemma_mul_select(a, c & 0x80u8 != 0, b7);
}

/// The multiplicative inverse of `a`, or 0 where `a` has none.
pub open spec fn gf_inverse(a: u8) -> u8 {
    if exists|b: u8| gf_mul(a, b) == 1 {
        choose|b: u8| gf_mul(a, b) == 1
    } else {
        0
    }
}

/// Division: `a` times the inverse of `b`.
pub open spec fn gf_div(a: u8, b: u8) -> u8 {
    gf_mul(a, gf_inverse(b))
}

/// An element has at most one inverse.
pub proof fn lemma_inverse_unique(a: u8, b: u8, c: u8)
    requires
        gf_mul(a, b) == 1,
        gf_mul(a, c) == 1,
    ensures
        b == c,
{
    lemma_mul_associative(b, a, c);
    lemma_mul_commutative(b, a);
    lemma_mul_zero_one(b);
    lemma_mul_zero_one(c);
}

/// Powers add: a^(m + n) = a^m * a^n.
pub proof fn lemma_pow_add(a: u8, m: nat, n: nat)
    ensures
        gf_pow(a, m + n) == gf_mul(gf_pow(a, m), gf_pow(a, n)),
    decreases n,
{
    if n == 0 {
        lemma_mul_zero_one(gf_pow(a, m));
    } else {
        lemma_pow_add(a, m, (n - 1) as nat);
        assert(gf_pow(a, m + n) == gf_mul(gf_pow(a, (m + n - 1) as nat), a));
        assert((m + n - 1) as nat == m + (n - 1) as nat);
        lemma_mul_associative(gf_pow(a, m), gf_pow(a, (n - 1) as nat), a);
    }
}

/// The generator raised to `n`: 2^n in the field.
pub fn exp(n: usize) -> (r: u8)
    ensures
        r == alpha_pow(n as nat),
{
    let mut result: u8 = 1;
    let mut i: usize = 0;
    while i < n
        invariant
            i <= n,
            result == alpha_pow(i as nat),
        decreases n - i,
    {
        result = self::mul(result, 2);
        i = i + 1;
    }
    result
}

/// The multiplicative inverse of `value`; 0 for 0.
pub fn inverse(value: u8) -> (r: u8)
    ensures
        r == gf_inverse(value),
        r != 0 ==> gf_mul(value, r) == 1,
        r == 0 <==> forall|b: u8| gf_mul(value, b) != 1,
{
    let mut candidate: u8 = 1;
    loop
        invariant
            1 <= candidate,
            forall|b: u8| 0 < b < candidate ==> gf_mul(value, b) != 1,
        decreases 256 - candidate,
    {
        if self::mul(value, candidate) == 1 {
            proof {
                let c = choose|b: u8| gf_mul(value, b) == 1;
                lemma_inverse_unique(value, candidate, c);
            }
            return candidate;
        }
        if candidate == 255 {
            proof {
                assert forall|b: u8| gf_mul(value, b) != 1 by {
                    if b == 0 {
                        lemma_mul_zero_one(value);
                    }
                }
            }
            return 0;
        }
        candidate = candidate + 1;
    }
}

/// Divides `left` by `right`.
pub fn div(left: u8, right: u8) -> (r: u8)
    ensures
        r == gf_div(left, right),
{
    let inv = inverse(right);
    self::mul(left, inv)
}

/// Every non-zero element has an inverse: its power 254, taken by repeated squaring.
pub proof fn lemma_nonzero_invertible(a: u8)
    requires
        a != 0,
    ensures
        exists|b: u8| gf_mul(a, b) == 1,
{
    let a2 = gf_mul(a, a);
    let a4 = gf_mul(a2, a2);
    let a8 = gf_mul(a4, a4);
    let a16 = gf_mul(a8, a8);
    let a32 = gf_mul(a16, a16);
    let a64 = gf_mul(a32, a32);
    let a128 = gf_mul(a64, a64);
    let p6 = gf_mul(a2, a4);
    let p14 = gf_mul(p6, a8);
    let p30 = gf_mul(p14, a16);
    let p62 = gf_mul(p30, a32);
    let p126 = gf_mul(p62, a64);
    let p254 = gf_mul(p126, a128);
    assert(gf_mul(a, p254) == 1) by (bit_vector)
        requires
            a != 0,
            a2 == gf_mul(a, a),
            a4 == gf_mul(a2, a2),
            a8 == gf_mul(a4, a4),
            a16 == gf_mul(a8, a8),
            a32 == gf_mul(a16, a16),
            a64 == gf_mul(a32, a32),
            a128 == gf_mul(a64, a64),
            p6 == gf_mul(a2, a4),
            p14 == gf_mul(p6, a8),
            p30 == gf_mul(p14, a16),
            p62 == gf_mul(p30, a32),
            p126 == gf_mul(p62, a64),
            p254 == gf_mul(p126, a128),
    ;
}

/// A non-zero element times its inverse is one.
pub proof fn lemma_inverse_of_nonzero(a: u8)
    requires
        a != 0,
    ensures
        gf_mul(a, gf_inverse(a)) == 1,
        gf_inverse(a) != 0,
{
    lemma_nonzero_invertible(a);
    lemma_mul_zero_one(a);
}

/// The field has no zero divisors.
pub proof fn lemma_no_zero_divisors(a: u8, b: u8)
    requires
        a != 0,
        gf_mul(a, b) == 0,
    ensures
        b == 0,
{
    let i = gf_inverse(a);
    lemma_inverse_of_nonzero(a);
    lemma_mul_associative(i, a, b);
    lemma_mul_commutative(i, a);
    lemma_mul_zero_one(b);
    lemma_mul_zero_one(i);
}

/// A non-zero factor cancels.
pub proof fn lemma_mul_cancel(a: u8, b: u8, c: u8)
    requires
        a != 0,
        gf_mul(a, b) == gf_mul(a, c),
    ensures
        b == c,
{
    lemma_mul_distributive(a, b, c);
    assert(gf_mul(a, b) ^ gf_mul(a, c) == 0u8) by (bit_vector)
        requires
            gf_mul(a, b) == gf_mul(a, c),
    ;
    lemma_no_zero_divisors(a, b ^ c);
    assert(b ^ c == 0u8 ==> b == c) by (bit_vector);
}

/// Powers multiply: (a^k)^m = a^(k m).
pub proof fn lemma_pow_mul(a: u8, k: nat, m: nat)
    ensures
        gf_pow(gf_pow(a, k), m) == gf_pow(a, k * m),
    decreases m,
{
    if m == 0 {
        assert(k * m == 0) by (nonlinear_arith)
            requires
                m == 0,
        ;
    } else {
        lemma_pow_mul(a, k, (m - 1) as nat);
        lemma_pow_add(a, k * (m - 1) as nat, k);
        assert(k * (m - 1) as nat + k == k * m) by (nonlinear_arith)
            requires
                m >= 1,
        ;
    }
}

/// The powers of 2 are never zero.
pub proof fn lemma_alpha_nonzero(n: nat)
    ensures
        alpha_pow(n) != 0,
    decreases n,
{
    if n > 0 {
        lemma_alpha_nonzero((n - 1) as nat);
        if alpha_pow(n) == 0 {
            lemma_no_zero_divisors(alpha_pow((n - 1) as nat), 2);
        }
    }
}

/// Multiplying by 2 steps through the 255 powers of 2, each one once.
proof fn lemma_xtime_steps()
    by (bit_vector)
    ensures
        xtime(1u8) == 2u8,
        xtime(2u8) == 4u8,
        xtime(4u8) == 8u8,
        xtime(8u8) == 16u8,
        xtime(16u8) == 32u8,
        xtime(32u8) == 64u8,
        xtime(64u8) == 128u8,
        xtime(128u8) == 29u8,
        xtime(29u8) == 58u8,
        xtime(58u8) == 116u8,
        xtime(116u8) == 232u8,
        xtime(232u8) == 205u8,
        xtime(205u8) == 135u8,
        xtime(135u8) == 19u8,
        xtime(19u8) == 38u8,
        xtime(38u8) == 76u8,
        xtime(76u8) == 152u8,
        xtime(152u8) == 45u8,
        xtime(45u8) == 90u8,
        xtime(90u8) == 180u8,
        xtime(180u8) == 117u8,
        xtime(117u8) == 234u8,
        xtime(234u8) == 201u8,
        xtime(201u8) == 143u8,
        xtime(143u8) == 3u8,
        xtime(3u8) == 6u8,
        xtime(6u8) == 12u8,
        xtime(12u8) == 24u8,
        xtime(24u8) == 48u8,
        xtime(48u8) == 96u8,
        xtime(96u8) == 192u8,
        xtime(192u8) == 157u8,
        xtime(157u8) == 39u8,
        xtime(39u8) == 78u8,
        xtime(78u8) == 156u8,
        xtime(156u8) == 37u8,
        xtime(37u8) == 74u8,
        xtime(74u8) == 148u8,
        xtime(148u8) == 53u8,
        xtime(53u8) == 106u8,
        xtime(106u8) == 212u8,
        xtime(212u8) == 181u8,
        xtime(181u8) == 119u8,
        xtime(119u8) == 238u8,
        xtime(238u8) == 193u8,
        xtime(193u8) == 159u8,
        xtime(159u8) == 35u8,
        xtime(35u8) == 70u8,
        xtime(70u8) == 140u8,
        xtime(140u8) == 5u8,
        xtime(5u8) == 10u8,
        xtime(10u8) == 20u8,
        xtime(20u8) == 40u8,
        xtime(40u8) == 80u8,
        xtime(80u8) == 160u8,
        xtime(160u8) == 93u8,
        xtime(93u8) == 186u8,
        xtime(186u8) == 105u8,
        xtime(105u8) == 210u8,
        xtime(210u8) == 185u8,
        xtime(185u8) == 111u8,
        xtime(111u8) == 222u8,
        xtime(222u8) == 161u8,
        xtime(161u8) == 95u8,
        xtime(95u8) == 190u8,
        xtime(190u8) == 97u8,
        xtime(97u8) == 194u8,
        xtime(194u8) == 153u8,
        xtime(153u8) == 47u8,
        xtime(47u8) == 94u8,
        xtime(94u8) == 188u8,
        xtime(188u8) == 101u8,
        xtime(101u8) == 202u8,
        xtime(202u8) == 137u8,
        xtime(137u8) == 15u8,
        xtime(15u8) == 30u8,
        xtime(30u8) == 60u8,
        xtime(60u8) == 120u8,
        xtime(120u8) == 240u8,
        xtime(240u8) == 253u8,
        xtime(253u8) == 231u8,
        xtime(231u8) == 211u8,
        xtime(211u8) == 187u8,
        xtime(187u8) == 107u8,
        xtime(107u8) == 214u8,
        xtime(214u8) == 177u8,
        xtime(177u8) == 127u8,
        xtime(127u8) == 254u8,
        xtime(254u8) == 225u8,
        xtime(225u8) == 223u8,
        xtime(223u8) == 163u8,
        xtime(163u8) == 91u8,
        xtime(91u8) == 182u8,
        xtime(182u8) == 113u8,
        xtime(113u8) == 226u8,
        xtime(226u8) == 217u8,
        xtime(217u8) == 175u8,
        xtime(175u8) == 67u8,
        xtime(67u8) == 134u8,
        xtime(134u8) == 17u8,
        xtime(17u8) == 34u8,
        xtime(34u8) == 68u8,
        xtime(68u8) == 136u8,
        xtime(136u8) == 13u8,
        xtime(13u8) == 26u8,
        xtime(26u8) == 52u8,
        xtime(52u8) == 104u8,
        xtime(104u8) == 208u8,
        xtime(208u8) == 189u8,
        xtime(189u8) == 103u8,
        xtime(103u8) == 206u8,
        xtime(206u8) == 129u8,
        xtime(129u8) == 31u8,
        xtime(31u8) == 62u8,
        xtime(62u8) == 124u8,
        xtime(124u8) == 248u8,
        xtime(248u8) == 237u8,
        xtime(237u8) == 199u8,
        xtime(199u8) == 147u8,
        xtime(147u8) == 59u8,
        xtime(59u8) == 118u8,
        xtime(118u8) == 236u8,
        xtime(236u8) == 197u8,
        xtime(197u8) == 151u8,
        xtime(151u8) == 51u8,
        xtime(51u8) == 102u8,
        xtime(102u8) == 204u8,
        xtime(204u8) == 133u8,
        xtime(133u8) == 23u8,
        xtime(23u8) == 46u8,
        xtime(46u8) == 92u8,
        xtime(92u8) == 184u8,
        xtime(184u8) == 109u8,
        xtime(109u8) == 218u8,
        xtime(218u8) == 169u8,
        xtime(169u8) == 79u8,
        xtime(79u8) == 158u8,
        xtime(158u8) == 33u8,
        xtime(33u8) == 66u8,
        xtime(66u8) == 132u8,
        xtime(132u8) == 21u8,
        xtime(21u8) == 42u8,
        xtime(42u8) == 84u8,
        xtime(84u8) == 168u8,
        xtime(168u8) == 77u8,
        xtime(77u8) == 154u8,
        xtime(154u8) == 41u8,
        xtime(41u8) == 82u8,
        xtime(82u8) == 164u8,
        xtime(164u8) == 85u8,
        xtime(85u8) == 170u8,
        xtime(170u8) == 73u8,
        xtime(73u8) == 146u8,
        xtime(146u8) == 57u8,
        xtime(57u8) == 114u8,
        xtime(114u8) == 228u8,
        xtime(228u8) == 213u8,
        xtime(213u8) == 183u8,
        xtime(183u8) == 115u8,
        xtime(115u8) == 230u8,
        xtime(230u8) == 209u8,
        xtime(209u8) == 191u8,
        xtime(191u8) == 99u8,
        xtime(99u8) == 198u8,
        xtime(198u8) == 145u8,
        xtime(145u8) == 63u8,
        xtime(63u8) == 126u8,
        xtime(126u8) == 252u8,
        xtime(252u8) == 229u8,
        xtime(229u8) == 215u8,
        xtime(215u8) == 179u8,
        xtime(179u8) == 123u8,
        xtime(123u8) == 246u8,
        xtime(246u8) == 241u8,
        xtime(241u8) == 255u8,
        xtime(255u8) == 227u8,
        xtime(227u8) == 219u8,
        xtime(219u8) == 171u8,
        xtime(171u8) == 75u8,
        xtime(75u8) == 150u8,
        xtime(150u8) == 49u8,
        xtime(49u8) == 98u8,
        xtime(98u8) == 196u8,
        xtime(196u8) == 149u8,
        xtime(149u8) == 55u8,
        xtime(55u8) == 110u8,
        xtime(110u8) == 220u8,
        xtime(220u8) == 165u8,
        xtime(165u8) == 87u8,
        xtime(87u8) == 174u8,
        xtime(174u8) == 65u8,
        xtime(65u8) == 130u8,
        xtime(130u8) == 25u8,
        xtime(25u8) == 50u8,
        xtime(50u8) == 100u8,
        xtime(100u8) == 200u8,
        xtime(200u8) == 141u8,
        xtime(141u8) == 7u8,
        xtime(7u8) == 14u8,
        xtime(14u8) == 28u8,
        xtime(28u8) == 56u8,
        xtime(56u8) == 112u8,
        xtime(112u8) == 224u8,
        xtime(224u8) == 221u8,
        xtime(221u8) == 167u8,
        xtime(167u8) == 83u8,
        xtime(83u8) == 166u8,
        xtime(166u8) == 81u8,
        xtime(81u8) == 162u8,
        xtime(162u8) == 89u8,
        xtime(89u8) == 178u8,
        xtime(178u8) == 121u8,
        xtime(121u8) == 242u8,
        xtime(242u8) == 249u8,
        xtime(249u8) == 239u8,
        xtime(239u8) == 195u8,
        xtime(195u8) == 155u8,
        xtime(155u8) == 43u8,
        xtime(43u8) == 86u8,
        xtime(86u8) == 172u8,
        xtime(172u8) == 69u8,
        xtime(69u8) == 138u8,
        xtime(138u8) == 9u8,
        xtime(9u8) == 18u8,
        xtime(18u8) == 36u8,
        xtime(36u8) == 72u8,
        xtime(72u8) == 144u8,
        xtime(144u8) == 61u8,
        xtime(61u8) == 122u8,
        xtime(122u8) == 244u8,
        xtime(244u8) == 245u8,
        xtime(245u8) == 247u8,
        xtime(247u8) == 243u8,
        xtime(243u8) == 251u8,
        xtime(251u8) == 235u8,
        xtime(235u8) == 203u8,
        xtime(203u8) == 139u8,
        xtime(139u8) == 11u8,
        xtime(11u8) == 22u8,
        xtime(22u8) == 44u8,
        xtime(44u8) == 88u8,
        xtime(88u8) == 176u8,
        xtime(176u8) == 125u8,
        xtime(125u8) == 250u8,
        xtime(250u8) == 233u8,
        xtime(233u8) == 207u8,
        xtime(207u8) == 131u8,
        xtime(131u8) == 27u8,
        xtime(27u8) == 54u8,
        xtime(54u8) == 108u8,
        xtime(108u8) == 216u8,
        xtime(216u8) == 173u8,
        xtime(173u8) == 71u8,
        xtime(71u8) == 142u8,
{
}

/// The powers of 2 from 1 to 32, and that none of them is 1.
#[verifier::spinoff_prover]
#[verifier::rlimit(40)]
proof fn lemma_alpha_powers_0()
    ensures
        alpha_pow(1) == 2u8,
        alpha_pow(2) == 4u8,
        alpha_pow(3) == 8u8,
        alpha_pow(4) == 16u8,
        alpha_pow(5) == 32u8,
        alpha_pow(6) == 64u8,
        alpha_pow(7) == 128u8,
        alpha_pow(8) == 29u8,
        alpha_pow(9) == 58u8,
        alpha_pow(10) == 116u8,
        alpha_pow(11) == 232u8,
        alpha_pow(12) == 205u8,
        alpha_pow(13) == 135u8,
        alpha_pow(14) == 19u8,
        alpha_pow(15) == 38u8,
        alpha_pow(16) == 76u8,
        alpha_pow(17) == 152u8,
        alpha_pow(18) == 45u8,
        alpha_pow(19) == 90u8,
        alpha_pow(20) == 180u8,
        alpha_pow(21) == 117u8,
        alpha_pow(22) == 234u8,
        alpha_pow(23) == 201u8,
        alpha_pow(24) == 143u8,
        alpha_pow(25) == 3u8,
        alpha_pow(26) == 6u8,
        alpha_pow(27) == 12u8,
        alpha_pow(28) == 24u8,
        alpha_pow(29) == 48u8,
        alpha_pow(30) == 96u8,
        alpha_pow(31) == 192u8,
        alpha_pow(32) == 157u8,
        forall|d: nat| 1 <= d < 33 ==> #[trigger] alpha_pow(d) != 1,
{
    lemma_xtime_steps();
    assert(alpha_pow(0) == 1u8);
    lemma_mul_two(1u8);
    assert(alpha_pow(1) == 2u8);
    lemma_mul_two(2u8);
    assert(alpha_pow(2) == 4u8);
    lemma_mul_two(4u8);
    assert(alpha_pow(3) == 8u8);
    lemma_mul_two(8u8);
    assert(alpha_pow(4) == 16u8);
    lemma_mul_two(16u8);
    assert(alpha_pow(5) == 32u8);
    lemma_mul_two(32u8);
    assert(alpha_pow(6) == 64u8);
    lemma_mul_two(64u8);
    assert(alpha_pow(7) == 128u8);
    lemma_mul_two(128u8);
    assert(alpha_pow(8) == 29u8);
    lemma_mul_two(29u8);
    assert(alpha_pow(9) == 58u8);
    lemma_mul_two(58u8);
    assert(alpha_pow(10) == 116u8);
    lemma_mul_two(116u8);
    assert(alpha_pow(11) == 232u8);
    lemma_mul_two(232u8);
    assert(alpha_pow(12) == 205u8);
    lemma_mul_two(205u8);
    assert(alpha_pow(13) == 135u8);
    lemma_mul_two(135u8);
    assert(alpha_pow(14) == 19u8);
    lemma_mul_two(19u8);
    assert(alpha_pow(15) == 38u8);
    lemma_mul_two(38u8);
    assert(alpha_pow(16) == 76u8);
    lemma_mul_two(76u8);
    assert(alpha_pow(17) == 152u8);
    lemma_mul_two(152u8);
    assert(alpha_pow(18) == 45u8);
    lemma_mul_two(45u8);
    assert(alpha_pow(19) == 90u8);
    lemma_mul_two(90u8);
    assert(alpha_pow(20) == 180u8);
    lemma_mul_two(180u8);
    assert(alpha_pow(21) == 117u8);
    lemma_mul_two(117u8);
    assert(alpha_pow(22) == 234u8);
    lemma_mul_two(234u8);
    assert(alpha_pow(23) == 201u8);
    lemma_mul_two(201u8);
    assert(alpha_pow(24) == 143u8);
    lemma_mul_two(143u8);
    assert(alpha_pow(25) == 3u8);
    lemma_mul_two(3u8);
    assert(alpha_pow(26) == 6u8);
    lemma_mul_two(6u8);
    assert(alpha_pow(27) == 12u8);
    lemma_mul_two(12u8);
    assert(alpha_pow(28) == 24u8);
    lemma_mul_two(24u8);
    assert(alpha_pow(29) == 48u8);
    lemma_mul_two(48u8);
    assert(alpha_pow(30) == 96u8);
    lemma_mul_two(96u8);
    assert(alpha_pow(31) == 192u8);
    lemma_mul_two(192u8);
    assert(alpha_pow(32) == 157u8);
    assert forall|d: nat| 1 <= d < 33 implies #[trigger] alpha_pow(d) != 1 by {
        if d == 1 {
        } else if d == 2 {
        } else if d == 3 {
        } else if d == 4 {
        } else if d == 5 {
        } else if d == 6 {
        } else if d == 7 {
        } else if d == 8 {
        } else if d == 9 {
        } else if d == 10 {
        } else if d == 11 {
        } else if d == 12 {
        } else if d == 13 {
        } else if d == 14 {
        } else if d == 15 {
        } else if d == 16 {
        } else if d == 17 {
        } else if d == 18 {
        } else if d == 19 {
        } else if d == 20 {
        } else if d == 21 {
        } else if d == 22 {
        } else if d == 23 {
        } else if d == 24 {
        } else if d == 25 {
        } else if d == 26 {
        } else if d == 27 {
        } else if d == 28 {
        } else if d == 29 {
        } else if d == 30 {
        } else if d == 31 {
        } else if d == 32 {
        }
    }
}

/// The powers of 2 from 33 to 64, and that none of them is 1.
#[verifier::spinoff_prover]
#[verifier::rlimit(40)]
proof fn lemma_alpha_powers_1()
    ensures
        alpha_pow(33) == 39u8,
        alpha_pow(34) == 78u8,
        alpha_pow(35) == 156u8,
        alpha_pow(36) == 37u8,
        alpha_pow(37) == 74u8,
        alpha_pow(38) == 148u8,
        alpha_pow(39) == 53u8,
        alpha_pow(40) == 106u8,
        alpha_pow(41) == 212u8,
        alpha_pow(42) == 181u8,
        alpha_pow(43) == 119u8,
        alpha_pow(44) == 238u8,
        alpha_pow(45) == 193u8,
        alpha_pow(46) == 159u8,
        alpha_pow(47) == 35u8,
        alpha_pow(48) == 70u8,
        alpha_pow(49) == 140u8,
        alpha_pow(50) == 5u8,
        alpha_pow(51) == 10u8,
        alpha_pow(52) == 20u8,
        alpha_pow(53) == 40u8,
        alpha_pow(54) == 80u8,
        alpha_pow(55) == 160u8,
        alpha_pow(56) == 93u8,
        alpha_pow(57) == 186u8,
        alpha_pow(58) == 105u8,
        alpha_pow(59) == 210u8,
        alpha_pow(60) == 185u8,
        alpha_pow(61) == 111u8,
        alpha_pow(62) == 222u8,
        alpha_pow(63) == 161u8,
        alpha_pow(64) == 95u8,
        forall|d: nat| 33 <= d < 65 ==> #[trigger] alpha_pow(d) != 1,
{
    lemma_alpha_powers_0();
    lemma_xtime_steps();
    lemma_mul_two(157u8);
    assert(alpha_pow(33) == 39u8);
    lemma_mul_two(39u8);
    assert(alpha_pow(34) == 78u8);
    lemma_mul_two(78u8);
    assert(alpha_pow(35) == 156u8);
    lemma_mul_two(156u8);
    assert(alpha_pow(36) == 37u8);
    lemma_mul_two(37u8);
    assert(alpha_pow(37) == 74u8);
    lemma_mul_two(74u8);
    assert(alpha_pow(38) == 148u8);
    lemma_mul_two(148u8);
    assert(alpha_pow(39) == 53u8);
    lemma_mul_two(53u8);
    assert(alpha_pow(40) == 106u8);
    lemma_mul_two(106u8);
    assert(alpha_pow(41) == 212u8);
    lemma_mul_two(212u8);
    assert(alpha_pow(42) == 181u8);
    lemma_mul_two(181u8);
    assert(alpha_pow(43) == 119u8);
    lemma_mul_two(119u8);
    assert(alpha_pow(44) == 238u8);
    lemma_mul_two(238u8);
    assert(alpha_pow(45) == 193u8);
    lemma_mul_two(193u8);
    assert(alpha_pow(46) == 159u8);
    lemma_mul_two(159u8);
    assert(alpha_pow(47) == 35u8);
    lemma_mul_two(35u8);
    assert(alpha_pow(48) == 70u8);
    lemma_mul_two(70u8);
    assert(alpha_pow(49) == 140u8);
    lemma_mul_two(140u8);
    assert(alpha_pow(50) == 5u8);
    lemma_mul_two(5u8);
    assert(alpha_pow(51) == 10u8);
    lemma_mul_two(10u8);
    assert(alpha_pow(52) == 20u8);
    lemma_mul_two(20u8);
    assert(alpha_pow(53) == 40u8);
    lemma_mul_two(40u8);
    assert(alpha_pow(54) == 80u8);
    lemma_mul_two(80u8);
    assert(alpha_pow(55) == 160u8);
    lemma_mul_two(160u8);
    assert(alpha_pow(56) == 93u8);
    lemma_mul_two(93u8);
    assert(alpha_pow(57) == 186u8);
    lemma_mul_two(186u8);
    assert(alpha_pow(58) == 105u8);
    lemma_mul_two(105u8);
    assert(alpha_pow(59) == 210u8);
    lemma_mul_two(210u8);
    assert(alpha_pow(60) == 185u8);
    lemma_mul_two(185u8);
    assert(alpha_pow(61) == 111u8);
    lemma_mul_two(111u8);
    assert(alpha_pow(62) == 222u8);
    lemma_mul_two(222u8);
    assert(alpha_pow(63) == 161u8);
    lemma_mul_two(161u8);
    assert(alpha_pow(64) == 95u8);
    assert forall|d: nat| 33 <= d < 65 implies #[trigger] alpha_pow(d) != 1 by {
        if d == 33 {
        } else if d == 34 {
        } else if d == 35 {
        } else if d == 36 {
        } else if d == 37 {
        } else if d == 38 {
        } else if d == 39 {
        } else if d == 40 {
        } else if d == 41 {
        } else if d == 42 {
        } else if d == 43 {
        } else if d == 44 {
        } else if d == 45 {
        } else if d == 46 {
        } else if d == 47 {
        } else if d == 48 {
        } else if d == 49 {
        } else if d == 50 {
        } else if d == 51 {
        } else if d == 52 {
        } else if d == 53 {
        } else if d == 54 {
        } else if d == 55 {
        } else if d == 56 {
        } else if d == 57 {
        } else if d == 58 {
        } else if d == 59 {
        } else if d == 60 {
        } else if d == 61 {
        } else if d == 62 {
        } else if d == 63 {
        } else if d == 64 {
        }
    }
}

/// The powers of 2 from 65 to 96, and that none of them is 1.
#[verifier::spinoff_prover]
#[verifier::rlimit(40)]
proof fn lemma_alpha_powers_2()
    ensures
        alpha_pow(65) == 190u8,
        alpha_pow(66) == 97u8,
        alpha_pow(67) == 194u8,
        alpha_pow(68) == 153u8,
        alpha_pow(69) == 47u8,
        alpha_pow(70) == 94u8,
        alpha_pow(71) == 188u8,
        alpha_pow(72) == 101u8,
        alpha_pow(73) == 202u8,
        alpha_pow(74) == 137u8,
        alpha_pow(75) == 15u8,
        alpha_pow(76) == 30u8,
        alpha_pow(77) == 60u8,
        alpha_pow(78) == 120u8,
        alpha_pow(79) == 240u8,
        alpha_pow(80) == 253u8,
        alpha_pow(81) == 231u8,
        alpha_pow(82) == 211u8,
        alpha_pow(83) == 187u8,
        alpha_pow(84) == 107u8,
        alpha_pow(85) == 214u8,
        alpha_pow(86) == 177u8,
        alpha_pow(87) == 127u8,
        alpha_pow(88) == 254u8,
        alpha_pow(89) == 225u8,
        alpha_pow(90) == 223u8,
        alpha_pow(91) == 163u8,
        alpha_pow(92) == 91u8,
        alpha_pow(93) == 182u8,
        alpha_pow(94) == 113u8,
        alpha_pow(95) == 226u8,
        alpha_pow(96) == 217u8,
        forall|d: nat| 65 <= d < 97 ==> #[trigger] alpha_pow(d) != 1,
{
    lemma_alpha_powers_1();
    lemma_xtime_steps();
    lemma_mul_two(95u8);
    assert(alpha_pow(65) == 190u8);
    lemma_mul_two(190u8);
    assert(alpha_pow(66) == 97u8);
    lemma_mul_two(97u8);
    assert(alpha_pow(67) == 194u8);
    lemma_mul_two(194u8);
    assert(alpha_pow(68) == 153u8);
    lemma_mul_two(153u8);
    assert(alpha_pow(69) == 47u8);
    lemma_mul_two(47u8);
    assert(alpha_pow(70) == 94u8);
    lemma_mul_two(94u8);
    assert(alpha_pow(71) == 188u8);
    lemma_mul_two(188u8);
    assert(alpha_pow(72) == 101u8);
    lemma_mul_two(101u8);
    assert(alpha_pow(73) == 202u8);
    lemma_mul_two(202u8);
    assert(alpha_pow(74) == 137u8);
    lemma_mul_two(137u8);
    assert(alpha_pow(75) == 15u8);
    lemma_mul_two(15u8);
    assert(alpha_pow(76) == 30u8);
    lemma_mul_two(30u8);
    assert(alpha_pow(77) == 60u8);
    lemma_mul_two(60u8);
    assert(alpha_pow(78) == 120u8);
    lemma_mul_two(120u8);
    assert(alpha_pow(79) == 240u8);
    lemma_mul_two(240u8);
    assert(alpha_pow(80) == 253u8);
    lemma_mul_two(253u8);
    assert(alpha_pow(81) == 231u8);
    lemma_mul_two(231u8);
    assert(alpha_pow(82) == 211u8);
    lemma_mul_two(211u8);
    assert(alpha_pow(83) == 187u8);
    lemma_mul_two(187u8);
    assert(alpha_pow(84) == 107u8);
    lemma_mul_two(107u8);
    assert(alpha_pow(85) == 214u8);
    lemma_mul_two(214u8);
    assert(alpha_pow(86) == 177u8);
    lemma_mul_two(177u8);
    assert(alpha_pow(87) == 127u8);
    lemma_mul_two(127u8);
    assert(alpha_pow(88) == 254u8);
    lemma_mul_two(254u8);
    assert(alpha_pow(89) == 225u8);
    lemma_mul_two(225u8);
    assert(alpha_pow(90) == 223u8);
    lemma_mul_two(223u8);
    assert(alpha_pow(91) == 163u8);
    lemma_mul_two(163u8);
    assert(alpha_pow(92) == 91u8);
    lemma_mul_two(91u8);
    assert(alpha_pow(93) == 182u8);
    lemma_mul_two(182u8);
    assert(alpha_pow(94) == 113u8);
    lemma_mul_two(113u8);
    assert(alpha_pow(95) == 226u8);
    lemma_mul_two(226u8);
    assert(alpha_pow(96) == 217u8);
    assert forall|d: nat| 65 <= d < 97 implies #[trigger] alpha_pow(d) != 1 by {
        if d == 65 {
        } else if d == 66 {
        } else if d == 67 {
        } else if d == 68 {
        } else if d == 69 {
        } else if d == 70 {
        } else if d == 71 {
        } else if d == 72 {
        } else if d == 73 {
        } else if d == 74 {
        } else if d == 75 {
        } else if d == 76 {
        } else if d == 77 {
        } else if d == 78 {
        } else if d == 79 {
        } else if d == 80 {
        } else if d == 81 {
        } else if d == 82 {
        } else if d == 83 {
        } else if d == 84 {
        } else if d == 85 {
        } else if d == 86 {
        } else if d == 87 {
        } else if d == 88 {
        } else if d == 89 {
        } else if d == 90 {
        } else if d == 91 {
        } else if d == 92 {
        } else if d == 93 {
        } else if d == 94 {
        } else if d == 95 {
        } else if d == 96 {
        }
    }
}

/// The powers of 2 from 97 to 128, and that none of them is 1.
#[verifier::spinoff_prover]
#[verifier::rlimit(40)]
proof fn lemma_alpha_powers_3()
    ensures
        alpha_pow(97) == 175u8,
        alpha_pow(98) == 67u8,
        alpha_pow(99) == 134u8,
        alpha_pow(100) == 17u8,
        alpha_pow(101) == 34u8,
        alpha_pow(102) == 68u8,
        alpha_pow(103) == 136u8,
        alpha_pow(104) == 13u8,
        alpha_pow(105) == 26u8,
        alpha_pow(106) == 52u8,
        alpha_pow(107) == 104u8,
        alpha_pow(108) == 208u8,
        alpha_pow(109) == 189u8,
        alpha_pow(110) == 103u8,
        alpha_pow(111) == 206u8,
        alpha_pow(112) == 129u8,
        alpha_pow(113) == 31u8,
        alpha_pow(114) == 62u8,
        alpha_pow(115) == 124u8,
        alpha_pow(116) == 248u8,
        alpha_pow(117) == 237u8,
        alpha_pow(118) == 199u8,
        alpha_pow(119) == 147u8,
        alpha_pow(120) == 59u8,
        alpha_pow(121) == 118u8,
        alpha_pow(122) == 236u8,
        alpha_pow(123) == 197u8,
        alpha_pow(124) == 151u8,
        alpha_pow(125) == 51u8,
        alpha_pow(126) == 102u8,
        alpha_pow(127) == 204u8,
        alpha_pow(128) == 133u8,
        forall|d: nat| 97 <= d < 129 ==> #[trigger] alpha_pow(d) != 1,
{
    lemma_alpha_powers_2();
    lemma_xtime_steps();
    lemma_mul_two(217u8);
    assert(alpha_pow(97) == 175u8);
    lemma_mul_two(175u8);
    assert(alpha_pow(98) == 67u8);
    lemma_mul_two(67u8);
    assert(alpha_pow(99) == 134u8);
    lemma_mul_two(134u8);
    assert(alpha_pow(100) == 17u8);
    lemma_mul_two(17u8);
    assert(alpha_pow(101) == 34u8);
    lemma_mul_two(34u8);
    assert(alpha_pow(102) == 68u8);
    lemma_mul_two(68u8);
    assert(alpha_pow(103) == 136u8);
    lemma_mul_two(136u8);
    assert(alpha_pow(104) == 13u8);
    lemma_mul_two(13u8);
    assert(alpha_pow(105) == 26u8);
    lemma_mul_two(26u8);
    assert(alpha_pow(106) == 52u8);
    lemma_mul_two(52u8);
    assert(alpha_pow(107) == 104u8);
    lemma_mul_two(104u8);
    assert(alpha_pow(108) == 208u8);
    lemma_mul_two(208u8);
    assert(alpha_pow(109) == 189u8);
    lemma_mul_two(189u8);
    assert(alpha_pow(110) == 103u8);
    lemma_mul_two(103u8);
    assert(alpha_pow(111) == 206u8);
    lemma_mul_two(206u8);
    assert(alpha_pow(112) == 129u8);
    lemma_mul_two(129u8);
    assert(alpha_pow(113) == 31u8);
    lemma_mul_two(31u8);
    assert(alpha_pow(114) == 62u8);
    lemma_mul_two(62u8);
    assert(alpha_pow(115) == 124u8);
    lemma_mul_two(124u8);
    assert(alpha_pow(116) == 248u8);
    lemma_mul_two(248u8);
    assert(alpha_pow(117) == 237u8);
    lemma_mul_two(237u8);
    assert(alpha_pow(118) == 199u8);
    lemma_mul_two(199u8);
    assert(alpha_pow(119) == 147u8);
    lemma_mul_two(147u8);
    assert(alpha_pow(120) == 59u8);
    lemma_mul_two(59u8);
    assert(alpha_pow(121) == 118u8);
    lemma_mul_two(118u8);
    assert(alpha_pow(122) == 236u8);
    lemma_mul_two(236u8);
    assert(alpha_pow(123) == 197u8);
    lemma_mul_two(197u8);
    assert(alpha_pow(124) == 151u8);
    lemma_mul_two(151u8);
    assert(alpha_pow(125) == 51u8);
    lemma_mul_two(51u8);
    assert(alpha_pow(126) == 102u8);
    lemma_mul_two(102u8);
    assert(alpha_pow(127) == 204u8);
    lemma_mul_two(204u8);
    assert(alpha_pow(128) == 133u8);
    assert forall|d: nat| 97 <= d < 129 implies #[trigger] alpha_pow(d) != 1 by {
        if d == 97 {
        } else if d == 98 {
        } else if d == 99 {
        } else if d == 100 {
        } else if d == 101 {
        } else if d == 102 {
        } else if d == 103 {
        } else if d == 104 {
        } else if d == 105 {
        } else if d == 106 {
        } else if d == 107 {
        } else if d == 108 {
        } else if d == 109 {
        } else if d == 110 {
        } else if d == 111 {
        } else if d == 112 {
        } else if d == 113 {
        } else if d == 114 {
        } else if d == 115 {
        } else if d == 116 {
        } else if d == 117 {
        } else if d == 118 {
        } else if d == 119 {
        } else if d == 120 {
        } else if d == 121 {
        } else if d == 122 {
        } else if d == 123 {
        } else if d == 124 {
        } else if d == 125 {
        } else if d == 126 {
        } else if d == 127 {
        } else if d == 128 {
        }
    }
}

/// The powers of 2 from 129 to 160, and that none of them is 1.
#[verifier::spinoff_prover]
#[verifier::rlimit(40)]
proof fn lemma_alpha_powers_4()
    ensures
        alpha_pow(129) == 23u8,
        alpha_pow(130) == 46u8,
        alpha_pow(131) == 92u8,
        alpha_pow(132) == 184u8,
        alpha_pow(133) == 109u8,
        alpha_pow(134) == 218u8,
        alpha_pow(135) == 169u8,
        alpha_pow(136) == 79u8,
        alpha_pow(137) == 158u8,
        alpha_pow(138) == 33u8,
        alpha_pow(139) == 66u8,
        alpha_pow(140) == 132u8,
        alpha_pow(141) == 21u8,
        alpha_pow(142) == 42u8,
        alpha_pow(143) == 84u8,
        alpha_pow(144) == 168u8,
        alpha_pow(145) == 77u8,
        alpha_pow(146) == 154u8,
        alpha_pow(147) == 41u8,
        alpha_pow(148) == 82u8,
        alpha_pow(149) == 164u8,
        alpha_pow(150) == 85u8,
        alpha_pow(151) == 170u8,
        alpha_pow(152) == 73u8,
        alpha_pow(153) == 146u8,
        alpha_pow(154) == 57u8,
        alpha_pow(155) == 114u8,
        alpha_pow(156) == 228u8,
        alpha_pow(157) == 213u8,
        alpha_pow(158) == 183u8,
        alpha_pow(159) == 115u8,
        alpha_pow(160) == 230u8,
        forall|d: nat| 129 <= d < 161 ==> #[trigger] alpha_pow(d) != 1,
{
    lemma_alpha_powers_3();
    lemma_xtime_steps();
    lemma_mul_two(133u8);
    assert(alpha_pow(129) == 23u8);
    lemma_mul_two(23u8);
    assert(alpha_pow(130) == 46u8);
    lemma_mul_two(46u8);
    assert(alpha_pow(131) == 92u8);
    lemma_mul_two(92u8);
    assert(alpha_pow(132) == 184u8);
    lemma_mul_two(184u8);
    assert(alpha_pow(133) == 109u8);
    lemma_mul_two(109u8);
    assert(alpha_pow(134) == 218u8);
    lemma_mul_two(218u8);
    assert(alpha_pow(135) == 169u8);
    lemma_mul_two(169u8);
    assert(alpha_pow(136) == 79u8);
    lemma_mul_two(79u8);
    assert(alpha_pow(137) == 158u8);
    lemma_mul_two(158u8);
    assert(alpha_pow(138) == 33u8);
    lemma_mul_two(33u8);
    assert(alpha_pow(139) == 66u8);
    lemma_mul_two(66u8);
    assert(alpha_pow(140) == 132u8);
    lemma_mul_two(132u8);
    assert(alpha_pow(141) == 21u8);
    lemma_mul_two(21u8);
    assert(alpha_pow(142) == 42u8);
    lemma_mul_two(42u8);
    assert(alpha_pow(143) == 84u8);
    lemma_mul_two(84u8);
    assert(alpha_pow(144) == 168u8);
    lemma_mul_two(168u8);
    assert(alpha_pow(145) == 77u8);
    lemma_mul_two(77u8);
    assert(alpha_pow(146) == 154u8);
    lemma_mul_two(154u8);
    assert(alpha_pow(147) == 41u8);
    lemma_mul_two(41u8);
    assert(alpha_pow(148) == 82u8);
    lemma_mul_two(82u8);
    assert(alpha_pow(149) == 164u8);
    lemma_mul_two(164u8);
    assert(alpha_pow(150) == 85u8);
    lemma_mul_two(85u8);
    assert(alpha_pow(151) == 170u8);
    lemma_mul_two(170u8);
    assert(alpha_pow(152) == 73u8);
    lemma_mul_two(73u8);
    assert(alpha_pow(153) == 146u8);
    lemma_mul_two(146u8);
    assert(alpha_pow(154) == 57u8);
    lemma_mul_two(57u8);
    assert(alpha_pow(155) == 114u8);
    lemma_mul_two(114u8);
    assert(alpha_pow(156) == 228u8);
    lemma_mul_two(228u8);
    assert(alpha_pow(157) == 213u8);
    lemma_mul_two(213u8);
    assert(alpha_pow(158) == 183u8);
    lemma_mul_two(183u8);
    assert(alpha_pow(159) == 115u8);
    lemma_mul_two(115u8);
    assert(alpha_pow(160) == 230u8);
    assert forall|d: nat| 129 <= d < 161 implies #[trigger] alpha_pow(d) != 1 by {
        if d == 129 {
        } else if d == 130 {
        } else if d == 131 {
        } else if d == 132 {
        } else if d == 133 {
        } else if d == 134 {
        } else if d == 135 {
        } else if d == 136 {
        } else if d == 137 {
        } else if d == 138 {
        } else if d == 139 {
        } else if d == 140 {
        } else if d == 141 {
        } else if d == 142 {
        } else if d == 143 {
        } else if d == 144 {
        } else if d == 145 {
        } else if d == 146 {
        } else if d == 147 {
        } else if d == 148 {
        } else if d == 149 {
        } else if d == 150 {
        } else if d == 151 {
        } else if d == 152 {
        } else if d == 153 {
        } else if d == 154 {
        } else if d == 155 {
        } else if d == 156 {
        } else if d == 157 {
        } else if d == 158 {
        } else if d == 159 {
        } else if d == 160 {
        }
    }
}

/// The powers of 2 from 161 to 192, and that none of them is 1.
#[verifier::spinoff_prover]
#[verifier::rlimit(40)]
proof fn lemma_alpha_powers_5()
    ensures
        alpha_pow(161) == 209u8,
        alpha_pow(162) == 191u8,
        alpha_pow(163) == 99u8,
        alpha_pow(164) == 198u8,
        alpha_pow(165) == 145u8,
        alpha_pow(166) == 63u8,
        alpha_pow(167) == 126u8,
        alpha_pow(168) == 252u8,
        alpha_pow(169) == 229u8,
        alpha_pow(170) == 215u8,
        alpha_pow(171) == 179u8,
        alpha_pow(172) == 123u8,
        alpha_pow(173) == 246u8,
        alpha_pow(174) == 241u8,
        alpha_pow(175) == 255u8,
        alpha_pow(176) == 227u8,
        alpha_pow(177) == 219u8,
        alpha_pow(178) == 171u8,
        alpha_pow(179) == 75u8,
        alpha_pow(180) == 150u8,
        alpha_pow(181) == 49u8,
        alpha_pow(182) == 98u8,
        alpha_pow(183) == 196u8,
        alpha_pow(184) == 149u8,
        alpha_pow(185) == 55u8,
        alpha_pow(186) == 110u8,
        alpha_pow(187) == 220u8,
        alpha_pow(188) == 165u8,
        alpha_pow(189) == 87u8,
        alpha_pow(190) == 174u8,
        alpha_pow(191) == 65u8,
        alpha_pow(192) == 130u8,
        forall|d: nat| 161 <= d < 193 ==> #[trigger] alpha_pow(d) != 1,
{
    lemma_alpha_powers_4();
    lemma_xtime_steps();
    lemma_mul_two(230u8);
    assert(alpha_pow(161) == 209u8);
    lemma_mul_two(209u8);
    assert(alpha_pow(162) == 191u8);
    lemma_mul_two(191u8);
    assert(alpha_pow(163) == 99u8);
    lemma_mul_two(99u8);
    assert(alpha_pow(164) == 198u8);
    lemma_mul_two(198u8);
    assert(alpha_pow(165) == 145u8);
    lemma_mul_two(145u8);
    assert(alpha_pow(166) == 63u8);
    lemma_mul_two(63u8);
    assert(alpha_pow(167) == 126u8);
    lemma_mul_two(126u8);
    assert(alpha_pow(168) == 252u8);
    lemma_mul_two(252u8);
    assert(alpha_pow(169) == 229u8);
    lemma_mul_two(229u8);
    assert(alpha_pow(170) == 215u8);
    lemma_mul_two(215u8);
    assert(alpha_pow(171) == 179u8);
    lemma_mul_two(179u8);
    assert(alpha_pow(172) == 123u8);
    lemma_mul_two(123u8);
    assert(alpha_pow(173) == 246u8);
    lemma_mul_two(246u8);
    assert(alpha_pow(174) == 241u8);
    lemma_mul_two(241u8);
    assert(alpha_pow(175) == 255u8);
    lemma_mul_two(255u8);
    assert(alpha_pow(176) == 227u8);
    lemma_mul_two(227u8);
    assert(alpha_pow(177) == 219u8);
    lemma_mul_two(219u8);
    assert(alpha_pow(178) == 171u8);
    lemma_mul_two(171u8);
    assert(alpha_pow(179) == 75u8);
    lemma_mul_two(75u8);
    assert(alpha_pow(180) == 150u8);
    lemma_mul_two(150u8);
    assert(alpha_pow(181) == 49u8);
    lemma_mul_two(49u8);
    assert(alpha_pow(182) == 98u8);
    lemma_mul_two(98u8);
    assert(alpha_pow(183) == 196u8);
    lemma_mul_two(196u8);
    assert(alpha_pow(184) == 149u8);
    lemma_mul_two(149u8);
    assert(alpha_pow(185) == 55u8);
    lemma_mul_two(55u8);
    assert(alpha_pow(186) == 110u8);
    lemma_mul_two(110u8);
    assert(alpha_pow(187) == 220u8);
    lemma_mul_two(220u8);
    assert(alpha_pow(188) == 165u8);
    lemma_mul_two(165u8);
    assert(alpha_pow(189) == 87u8);
    lemma_mul_two(87u8);
    assert(alpha_pow(190) == 174u8);
    lemma_mul_two(174u8);
    assert(alpha_pow(191) == 65u8);
    lemma_mul_two(65u8);
    assert(alpha_pow(192) == 130u8);
    assert forall|d: nat| 161 <= d < 193 implies #[trigger] alpha_pow(d) != 1 by {
        if d == 161 {
        } else if d == 162 {
        } else if d == 163 {
        } else if d == 164 {
        } else if d == 165 {
        } else if d == 166 {
        } else if d == 167 {
        } else if d == 168 {
        } else if d == 169 {
        } else if d == 170 {
        } else if d == 171 {
        } else if d == 172 {
        } else if d == 173 {
        } else if d == 174 {
        } else if d == 175 {
        } else if d == 176 {
        } else if d == 177 {
        } else if d == 178 {
        } else if d == 179 {
        } else if d == 180 {
        } else if d == 181 {
        } else if d == 182 {
        } else if d == 183 {
        } else if d == 184 {
        } else if d == 185 {
        } else if d == 186 {
        } else if d == 187 {
        } else if d == 188 {
        } else if d == 189 {
        } else if d == 190 {
        } else if d == 191 {
        } else if d == 192 {
        }
    }
}

/// The powers of 2 from 193 to 224, and that none of them is 1.
#[verifier::spinoff_prover]
#[verifier::rlimit(40)]
proof fn lemma_alpha_powers_6()
    ensures
        alpha_pow(193) == 25u8,
        alpha_pow(194) == 50u8,
        alpha_pow(195) == 100u8,
        alpha_pow(196) == 200u8,
        alpha_pow(197) == 141u8,
        alpha_pow(198) == 7u8,
        alpha_pow(199) == 14u8,
        alpha_pow(200) == 28u8,
        alpha_pow(201) == 56u8,
        alpha_pow(202) == 112u8,
        alpha_pow(203) == 224u8,
        alpha_pow(204) == 221u8,
        alpha_pow(205) == 167u8,
        alpha_pow(206) == 83u8,
        alpha_pow(207) == 166u8,
        alpha_pow(208) == 81u8,
        alpha_pow(209) == 162u8,
        alpha_pow(210) == 89u8,
        alpha_pow(211) == 178u8,
        alpha_pow(212) == 121u8,
        alpha_pow(213) == 242u8,
        alpha_pow(214) == 249u8,
        alpha_pow(215) == 239u8,
        alpha_pow(216) == 195u8,
        alpha_pow(217) == 155u8,
        alpha_pow(218) == 43u8,
        alpha_pow(219) == 86u8,
        alpha_pow(220) == 172u8,
        alpha_pow(221) == 69u8,
        alpha_pow(222) == 138u8,
        alpha_pow(223) == 9u8,
        alpha_pow(224) == 18u8,
        forall|d: nat| 193 <= d < 225 ==> #[trigger] alpha_pow(d) != 1,
{
    lemma_alpha_powers_5();
    lemma_xtime_steps();
    lemma_mul_two(130u8);
    assert(alpha_pow(193) == 25u8);
    lemma_mul_two(25u8);
    assert(alpha_pow(194) == 50u8);
    lemma_mul_two(50u8);
    assert(alpha_pow(195) == 100u8);
    lemma_mul_two(100u8);
    assert(alpha_pow(196) == 200u8);
    lemma_mul_two(200u8);
    assert(alpha_pow(197) == 141u8);
    lemma_mul_two(141u8);
    assert(alpha_pow(198) == 7u8);
    lemma_mul_two(7u8);
    assert(alpha_pow(199) == 14u8);
    lemma_mul_two(14u8);
    assert(alpha_pow(200) == 28u8);
    lemma_mul_two(28u8);
    assert(alpha_pow(201) == 56u8);
    lemma_mul_two(56u8);
    assert(alpha_pow(202) == 112u8);
    lemma_mul_two(112u8);
    assert(alpha_pow(203) == 224u8);
    lemma_mul_two(224u8);
    assert(alpha_pow(204) == 221u8);
    lemma_mul_two(221u8);
    assert(alpha_pow(205) == 167u8);
    lemma_mul_two(167u8);
    assert(alpha_pow(206) == 83u8);
    lemma_mul_two(83u8);
    assert(alpha_pow(207) == 166u8);
    lemma_mul_two(166u8);
    assert(alpha_pow(208) == 81u8);
    lemma_mul_two(81u8);
    assert(alpha_pow(209) == 162u8);
    lemma_mul_two(162u8);
    assert(alpha_pow(210) == 89u8);
    lemma_mul_two(89u8);
    assert(alpha_pow(211) == 178u8);
    lemma_mul_two(178u8);
    assert(alpha_pow(212) == 121u8);
    lemma_mul_two(121u8);
    assert(alpha_pow(213) == 242u8);
    lemma_mul_two(242u8);
    assert(alpha_pow(214) == 249u8);
    lemma_mul_two(249u8);
    assert(alpha_pow(215) == 239u8);
    lemma_mul_two(239u8);
    assert(alpha_pow(216) == 195u8);
    lemma_mul_two(195u8);
    assert(alpha_pow(217) == 155u8);
    lemma_mul_two(155u8);
    assert(alpha_pow(218) == 43u8);
    lemma_mul_two(43u8);
    assert(alpha_pow(219) == 86u8);
    lemma_mul_two(86u8);
    assert(alpha_pow(220) == 172u8);
    lemma_mul_two(172u8);
    assert(alpha_pow(221) == 69u8);
    lemma_mul_two(69u8);
    assert(alpha_pow(222) == 138u8);
    lemma_mul_two(138u8);
    assert(alpha_pow(223) == 9u8);
    lemma_mul_two(9u8);
    assert(alpha_pow(224) == 18u8);
    assert forall|d: nat| 193 <= d < 225 implies #[trigger] alpha_pow(d) != 1 by {
        if d == 193 {
        } else if d == 194 {
        } else if d == 195 {
        } else if d == 196 {
        } else if d == 197 {
        } else if d == 198 {
        } else if d == 199 {
        } else if d == 200 {
        } else if d == 201 {
        } else if d == 202 {
        } else if d == 203 {
        } else if d == 204 {
        } else if d == 205 {
        } else if d == 206 {
        } else if d == 207 {
        } else if d == 208 {
        } else if d == 209 {
        } else if d == 210 {
        } else if d == 211 {
        } else if d == 212 {
        } else if d == 213 {
        } else if d == 214 {
        } else if d == 215 {
        } else if d == 216 {
        } else if d == 217 {
        } else if d == 218 {
        } else if d == 219 {
        } else if d == 220 {
        } else if d == 221 {
        } else if d == 222 {
        } else if d == 223 {
        } else if d == 224 {
        }
    }
}

/// The powers of 2 from 225 to 254, and that none of them is 1.
#[verifier::spinoff_prover]
#[verifier::rlimit(40)]
proof fn lemma_alpha_powers_7()
    ensures
        alpha_pow(225) == 36u8,
        alpha_pow(226) == 72u8,
        alpha_pow(227) == 144u8,
        alpha_pow(228) == 61u8,
        alpha_pow(229) == 122u8,
        alpha_pow(230) == 244u8,
        alpha_pow(231) == 245u8,
        alpha_pow(232) == 247u8,
        alpha_pow(233) == 243u8,
        alpha_pow(234) == 251u8,
        alpha_pow(235) == 235u8,
        alpha_pow(236) == 203u8,
        alpha_pow(237) == 139u8,
        alpha_pow(238) == 11u8,
        alpha_pow(239) == 22u8,
        alpha_pow(240) == 44u8,
        alpha_pow(241) == 88u8,
        alpha_pow(242) == 176u8,
        alpha_pow(243) == 125u8,
        alpha_pow(244) == 250u8,
        alpha_pow(245) == 233u8,
        alpha_pow(246) == 207u8,
        alpha_pow(247) == 131u8,
        alpha_pow(248) == 27u8,
        alpha_pow(249) == 54u8,
        alpha_pow(250) == 108u8,
        alpha_pow(251) == 216u8,
        alpha_pow(252) == 173u8,
        alpha_pow(253) == 71u8,
        alpha_pow(254) == 142u8,
        forall|d: nat| 225 <= d < 255 ==> #[trigger] alpha_pow(d) != 1,
{
    lemma_alpha_powers_6();
    lemma_xtime_steps();
    lemma_mul_two(18u8);
    assert(alpha_pow(225) == 36u8);
    lemma_mul_two(36u8);
    assert(alpha_pow(226) == 72u8);
    lemma_mul_two(72u8);
    assert(alpha_pow(227) == 144u8);
    lemma_mul_two(144u8);
    assert(alpha_pow(228) == 61u8);
    lemma_mul_two(61u8);
    assert(alpha_pow(229) == 122u8);
    lemma_mul_two(122u8);
    assert(alpha_pow(230) == 244u8);
    lemma_mul_two(244u8);
    assert(alpha_pow(231) == 245u8);
    lemma_mul_two(245u8);
    assert(alpha_pow(232) == 247u8);
    lemma_mul_two(247u8);
    assert(alpha_pow(233) == 243u8);
    lemma_mul_two(243u8);
    assert(alpha_pow(234) == 251u8);
    lemma_mul_two(251u8);
    assert(alpha_pow(235) == 235u8);
    lemma_mul_two(235u8);
    assert(alpha_pow(236) == 203u8);
    lemma_mul_two(203u8);
    assert(alpha_pow(237) == 139u8);
    lemma_mul_two(139u8);
    assert(alpha_pow(238) == 11u8);
    lemma_mul_two(11u8);
    assert(alpha_pow(239) == 22u8);
    lemma_mul_two(22u8);
    assert(alpha_pow(240) == 44u8);
    lemma_mul_two(44u8);
    assert(alpha_pow(241) == 88u8);
    lemma_mul_two(88u8);
    assert(alpha_pow(242) == 176u8);
    lemma_mul_two(176u8);
    assert(alpha_pow(243) == 125u8);
    lemma_mul_two(125u8);
    assert(alpha_pow(244) == 250u8);
    lemma_mul_two(250u8);
    assert(alpha_pow(245) == 233u8);
    lemma_mul_two(233u8);
    assert(alpha_pow(246) == 207u8);
    lemma_mul_two(207u8);
    assert(alpha_pow(247) == 131u8);
    lemma_mul_two(131u8);
    assert(alpha_pow(248) == 27u8);
    lemma_mul_two(27u8);
    assert(alpha_pow(249) == 54u8);
    lemma_mul_two(54u8);
    assert(alpha_pow(250) == 108u8);
    lemma_mul_two(108u8);
    assert(alpha_pow(251) == 216u8);
    lemma_mul_two(216u8);
    assert(alpha_pow(252) == 173u8);
    lemma_mul_two(173u8);
    assert(alpha_pow(253) == 71u8);
    lemma_mul_two(71u8);
    assert(alpha_pow(254) == 142u8);
    assert forall|d: nat| 225 <= d < 255 implies #[trigger] alpha_pow(d) != 1 by {
        if d == 225 {
        } else if d == 226 {
        } else if d == 227 {
        } else if d == 228 {
        } else if d == 229 {
        } else if d == 230 {
        } else if d == 231 {
        } else if d == 232 {
        } else if d == 233 {
        } else if d == 234 {
        } else if d == 235 {
        } else if d == 236 {
        } else if d == 237 {
        } else if d == 238 {
        } else if d == 239 {
        } else if d == 240 {
        } else if d == 241 {
        } else if d == 242 {
        } else if d == 243 {
        } else if d == 244 {
        } else if d == 245 {
        } else if d == 246 {
        } else if d == 247 {
        } else if d == 248 {
        } else if d == 249 {
        } else if d == 250 {
        } else if d == 251 {
        } else if d == 252 {
        } else if d == 253 {
        } else if d == 254 {
        }
    }
}

/// 2 has order 255 in the field: its powers 1 to 254 are not 1.
pub proof fn lemma_alpha_order()
    ensures
        forall|d: nat| 1 <= d < 255 ==> #[trigger] alpha_pow(d) != 1,
{
    lemma_alpha_powers_0();
    lemma_alpha_powers_1();
    lemma_alpha_powers_2();
    lemma_alpha_powers_3();
    lemma_alpha_powers_4();
    lemma_alpha_powers_5();
    lemma_alpha_powers_6();
    lemma_alpha_powers_7();
}

/// Powers of 2 with distinct exponents below 255 are distinct.
pub proof fn lemma_alpha_distinct(a: nat, b: nat)
    requires
        a < b < 255,
    ensures
        alpha_pow(a) != alpha_pow(b),
{
    lemma_alpha_order();
    lemma_pow_add(2, a, (b - a) as nat);
    assert(alpha_pow(b) == gf_mul(alpha_pow(a), alpha_pow((b - a) as nat)));
    lemma_alpha_nonzero(a);
    lemma_mul_zero_one(alpha_pow(a));
    if alpha_pow(a) == alpha_pow(b) {
        lemma_mul_cancel(alpha_pow(a), alpha_pow((b - a) as nat), 1);
        assert(alpha_pow((b - a) as nat) != 1);
    }
}

} // verus!
