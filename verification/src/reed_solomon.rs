//! Reed-Solomon codes over GF(2^8): generator polynomials, encoding remainders,
//! syndrome checks and error correction.

use vstd::prelude::*;

use crate::gf256::{self, alpha_pow, gf_mul, gf_pow, lemma_alpha_distinct, lemma_alpha_nonzero, lemma_inverse_of_nonzero,
    lemma_mul_associative, lemma_mul_commutative, lemma_mul_distributive, lemma_mul_zero_one, lemma_nonzero_invertible,
    lemma_pow_mul};
use crate::xor_lemmas::lemma_xor;

verus! {

/// The polynomial with coefficients `p` (highest degree first) evaluated at `x` by Horner's rule.
pub open spec fn horner(p: Seq<u8>, x: u8) -> u8
    decreases p.len(),
{
    if p.len() == 0 {
        0
    } else {
        gf_mul(horner(p.drop_last(), x), x) ^ p.last()
    }
}

/// Syndrome `i` of a codeword: its value at 2^i.
pub open spec fn syndrome(codeword: Seq<u8>, i: nat) -> u8 {
    horner(codeword, alpha_pow(i))
}

/// Every one of the first `ecc_len` syndromes is zero.
pub open spec fn is_codeword(codeword: Seq<u8>, ecc_len: nat) -> bool {
    forall|i: nat| i < ecc_len ==> #[trigger] syndrome(codeword, i) == 0
}

/// The product of the polynomial `p` with (x + r), highest degree first.
pub open spec fn mul_linear(p: Seq<u8>, r: u8) -> Seq<u8> {
    Seq::new(
        p.len() + 1,
        |j: int|
            (if j < p.len() {
                p[j]
            } else {
                0u8
            }) ^ (if j >= 1 {
                gf_mul(p[j - 1], r)
            } else {
                0u8
            }),
    )
}

/// The generator polynomial of degree k: (x + 2^0)(x + 2^1)...(x + 2^(k-1)), highest degree first.
pub open spec fn generator_poly(k: nat) -> Seq<u8>
    decreases k,
{
    if k == 0 {
        seq![1u8]
    } else {
        mul_linear(generator_poly((k - 1) as nat), alpha_pow((k - 1) as nat))
    }
}

/// `p` right-aligned in `d` slots: zeros in front, or its leading coefficients cut off.
pub open spec fn aligned(p: Seq<u8>, d: nat) -> Seq<u8> {
    Seq::new(d, |j: int| if j + p.len() >= d { p[j + p.len() - d] } else { 0u8 })
}

pub proof fn lemma_generator_len(k: nat)
    ensures
        generator_poly(k).len() == k + 1,
        generator_poly(k)[0] == 1,
    decreases k,
{
    if k > 0 {
        lemma_generator_len((k - 1) as nat);
        let p = generator_poly((k - 1) as nat);
        lemma_xor(p[0], 0u8, 0u8);
    }
}

/// Builds the generator polynomial of degree `degree` without its leading 1.
pub fn generator(degree: usize) -> (r: Vec<u8>)
    requires
        degree >= 1,
    ensures
        r@ == generator_poly(degree as nat).drop_first(),
{
    let mut result = vec![0u8; degree];
    result.set(degree - 1, 1);
    proof {
        assert(result@ =~= aligned(generator_poly(0), degree as nat));
    }
    let mut root: u8 = 1;
    let mut k: usize = 0;
    while k < degree
        invariant
            k <= degree,
            result@.len() == degree,
            result@ == aligned(generator_poly(k as nat), degree as nat),
            root == alpha_pow(k as nat),
        decreases degree - k,
    {
        let ghost p = generator_poly(k as nat);
        let ghost q = mul_linear(p, root);
        proof {
            lemma_generator_len(k as nat);
        }
        let mut index: usize = 0;
        while index < degree
            invariant
                k < degree,
                index <= degree,
                p.len() == k + 1,
                q == mul_linear(p, root),
                result@.len() == degree,
                forall|j: int| 0 <= j < index ==> result@[j] == aligned(q, degree as nat)[j],
                forall|j: int| index <= j < degree ==> result@[j] == aligned(p, degree as nat)[j],
            decreases degree - index,
        {
            let product = gf256::mul(result[index], root);
            let value = if index + 1 < degree {
                product ^ result[index + 1]
            } else {
                product
            };
            proof {
                let j = index as int;
                let t = j + k + 2 - degree;
                let g = aligned(q, degree as nat)[j];
                lemma_mul_zero_one(root);
                if t < 0 {
                    assert(aligned(p, degree as nat)[j] == 0u8);
                    assert(aligned(p, degree as nat)[j + 1] == 0u8);
                    lemma_xor(0u8, 0u8, 0u8);
                    assert(value == g);
                } else if t == 0 {
                    assert(aligned(p, degree as nat)[j] == 0u8);
                    assert(aligned(p, degree as nat)[j + 1] == p[0]);
                    lemma_xor(p[0], 0u8, 0u8);
                    assert(g == q[0]);
                    assert(value == g);
                } else if t < k + 1 {
                    assert(aligned(p, degree as nat)[j] == p[t - 1]);
                    assert(aligned(p, degree as nat)[j + 1] == p[t]);
                    lemma_xor(p[t], product, 0u8);
                    assert(g == q[t]);
                    assert(value == g);
                } else {
                    assert(aligned(p, degree as nat)[j] == p[t - 1]);
                    lemma_xor(product, 0u8, 0u8);
                    assert(g == q[t]);
                    assert(value == g);
                }
            }
            result.set(index, value);
            index = index + 1;
        }
        proof {
            assert(result@ =~= aligned(q, degree as nat));
            gf256::lemma_mul_two(root);
        }
        root = gf256::mul(root, 2);
        k = k + 1;
    }
    proof {
        lemma_generator_len(degree as nat);
        assert(result@ =~= generator_poly(degree as nat).drop_first());
    }
    result
}

/// The evaluation of a product with (x + r) is the product of the evaluations.
pub proof fn lemma_horner_mul_linear(p: Seq<u8>, r: u8, y: u8)
    ensures
        horner(mul_linear(p, r), y) == gf_mul(horner(p, y), y ^ r),
    decreases p.len(),
{
    let q = mul_linear(p, r);
    if p.len() == 0 {
        lemma_xor(0u8, 0u8, 0u8);
        assert(q[0] == 0u8);
        assert(q.drop_last() =~= Seq::<u8>::empty());
        assert(horner(q.drop_last(), y) == 0u8);
        lemma_mul_zero_one(y);
        lemma_mul_zero_one(y ^ r);
        assert(horner(q, y) == 0u8);
    } else {
        let n = p.len();
        let p1 = p.drop_last();
        let c = p.last();
        let q1 = mul_linear(p1, r);
        lemma_horner_mul_linear(p1, r, y);
        let h1 = horner(p1, y);
        // q without its last coefficient is q1 with c added to its last coefficient.
        let g1 = if n >= 2 { gf_mul(p[n - 2], r) } else { 0u8 };
        lemma_xor(g1, c, 0u8);
        lemma_xor(c, g1, 0u8);
        if n >= 2 {
            assert(p1[n - 2] == p[n - 2]);
        }
        assert(q1[n - 1] == g1);
        assert(q.drop_last() =~= q1.update(n - 1, q1[n - 1] ^ c));
        lemma_horner_xor_last(q1, c, y);
        assert(q.drop_last().drop_last() =~= q1.drop_last());
        // The last coefficient of q.
        lemma_xor(gf_mul(c, r), 0u8, 0u8);
        assert(c == p[n - 1]);
        assert(q.last() == q[n as int]);
        assert(q.last() == gf_mul(c, r));
        let a = gf_mul(h1, y ^ r);
        assert(horner(q1, y) == a);
        assert(horner(q.drop_last(), y) == a ^ c);
        assert(horner(q, y) == gf_mul(a ^ c, y) ^ gf_mul(c, r));
        lemma_mul_distributive(y, a, c);
        lemma_mul_commutative(y, a ^ c);
        lemma_mul_commutative(y, a);
        lemma_mul_commutative(y, c);
        assert(gf_mul(a ^ c, y) == gf_mul(a, y) ^ gf_mul(c, y));
        lemma_mul_associative(h1, y ^ r, y);
        lemma_mul_commutative(y ^ r, y);
        lemma_mul_associative(h1, y, y ^ r);
        let b = gf_mul(gf_mul(h1, y), y ^ r);
        assert(gf_mul(a, y) == b);
        lemma_mul_distributive(c, y, r);
        lemma_xor(b, gf_mul(c, y), gf_mul(c, r));
        assert(horner(q, y) == b ^ gf_mul(c, y ^ r));
        lemma_mul_distributive(y ^ r, gf_mul(h1, y), c);
        lemma_mul_commutative(y ^ r, gf_mul(h1, y) ^ c);
        lemma_mul_commutative(y ^ r, gf_mul(h1, y));
        lemma_mul_commutative(y ^ r, c);
        assert(horner(p, y) == gf_mul(h1, y) ^ c);
    }
}

proof fn lemma_horner_xor_last(s: Seq<u8>, c: u8, y: u8)
    requires
        s.len() >= 1,
    ensures
        horner(s.update(s.len() - 1, s.last() ^ c), y) == horner(s, y) ^ c,
{
    let t = s.update(s.len() - 1, s.last() ^ c);
    assert(t.drop_last() =~= s.drop_last());
    lemma_xor(gf_mul(horner(s.drop_last(), y), y), s.last(), c);
}

/// The generator polynomial of degree k vanishes at 2^i for every i < k.
pub proof fn lemma_generator_roots(k: nat, i: nat)
    requires
        i < k,
    ensures
        horner(generator_poly(k), alpha_pow(i)) == 0,
    decreases k,
{
    let y = alpha_pow(i);
    let p = generator_poly((k - 1) as nat);
    lemma_horner_mul_linear(p, alpha_pow((k - 1) as nat), y);
    if i < k - 1 {
        lemma_generator_roots((k - 1) as nat, i);
        lemma_mul_zero_one(y ^ alpha_pow((k - 1) as nat));
    } else {
        lemma_xor(y, 0u8, 0u8);
        lemma_mul_zero_one(horner(p, y));
    }
}

/// Evaluating a concatenation: the front part is shifted up by the length of the back part.
pub proof fn lemma_horner_concat(a: Seq<u8>, b: Seq<u8>, y: u8)
    ensures
        horner(a + b, y) == gf_mul(horner(a, y), gf_pow(y, b.len())) ^ horner(b, y),
    decreases b.len(),
{
    if b.len() == 0 {
        assert(a + b =~= a);
        lemma_mul_zero_one(horner(a, y));
        lemma_xor(horner(a, y), 0u8, 0u8);
    } else {
        let b1 = b.drop_last();
        lemma_horner_concat(a, b1, y);
        assert((a + b).drop_last() =~= a + b1);
        let ha = horner(a, y);
        let p1 = gf_pow(y, b1.len());
        let hb1 = horner(b1, y);
        // horner(a + b) = gf_mul(gf_mul(ha, p1) ^ hb1, y) ^ b.last()
        lemma_mul_distributive(y, gf_mul(ha, p1), hb1);
        lemma_mul_commutative(y, gf_mul(ha, p1) ^ hb1);
        lemma_mul_commutative(y, gf_mul(ha, p1));
        lemma_mul_commutative(y, hb1);
        lemma_mul_associative(ha, p1, y);
        lemma_xor(gf_mul(ha, gf_mul(p1, y)), gf_mul(hb1, y), b.last());
    }
}

/// Evaluation is additive in the coefficients.
pub proof fn lemma_horner_xor(a: Seq<u8>, b: Seq<u8>, y: u8)
    requires
        a.len() == b.len(),
    ensures
        horner(Seq::new(a.len(), |j: int| a[j] ^ b[j]), y) == horner(a, y) ^ horner(b, y),
    decreases a.len(),
{
    let c = Seq::new(a.len(), |j: int| a[j] ^ b[j]);
    if a.len() == 0 {
        lemma_xor(0u8, 0u8, 0u8);
    } else {
        let a1 = a.drop_last();
        let b1 = b.drop_last();
        lemma_horner_xor(a1, b1, y);
        assert(c.drop_last() =~= Seq::new(a1.len(), |j: int| a1[j] ^ b1[j]));
        let ha = horner(a1, y);
        let hb = horner(b1, y);
        lemma_mul_distributive(y, ha, hb);
        lemma_mul_commutative(y, ha ^ hb);
        lemma_mul_commutative(y, ha);
        lemma_mul_commutative(y, hb);
        lemma_xor4(gf_mul(ha, y), gf_mul(hb, y), a.last(), b.last());
    }
}

proof fn lemma_xor4(a: u8, b: u8, c: u8, d: u8)
    ensures
        (a ^ b) ^ (c ^ d) == (a ^ c) ^ (b ^ d),
{
    assert((a ^ b) ^ (c ^ d) == (a ^ c) ^ (b ^ d)) by (bit_vector);
}

/// Evaluation is linear under scaling of every coefficient.
pub proof fn lemma_horner_scale(a: Seq<u8>, f: u8, y: u8)
    ensures
        horner(Seq::new(a.len(), |j: int| gf_mul(a[j], f)), y) == gf_mul(horner(a, y), f),
    decreases a.len(),
{
    let c = Seq::new(a.len(), |j: int| gf_mul(a[j], f));
    if a.len() == 0 {
        lemma_mul_zero_one(f);
    } else {
        let a1 = a.drop_last();
        lemma_horner_scale(a1, f, y);
        assert(c.drop_last() =~= Seq::new(a1.len(), |j: int| gf_mul(a1[j], f)));
        let h = horner(a1, y);
        lemma_mul_associative(h, f, y);
        lemma_mul_commutative(f, y);
        lemma_mul_associative(h, y, f);
        lemma_mul_distributive(f, gf_mul(h, y), a.last());
        lemma_mul_commutative(f, gf_mul(h, y) ^ a.last());
        lemma_mul_commutative(f, gf_mul(h, y));
        lemma_mul_commutative(f, a.last());
    }
}

proof fn lemma_horner_zeros(n: nat, y: u8)
    ensures
        horner(Seq::new(n, |j: int| 0u8), y) == 0,
    decreases n,
{
    if n > 0 {
        lemma_horner_zeros((n - 1) as nat, y);
        assert(Seq::new(n, |j: int| 0u8).drop_last() =~= Seq::new((n - 1) as nat, |j: int| 0u8));
        lemma_mul_zero_one(y);
        lemma_xor(0u8, 0u8, 0u8);
    }
}

/// One step of polynomial division by x^d + gen: feed the next dividend coefficient.
pub open spec fn division_step(rem: Seq<u8>, value: u8, gen: Seq<u8>) -> Seq<u8> {
    Seq::new(
        rem.len(),
        |j: int|
            (if j + 1 < rem.len() {
                rem[j + 1]
            } else {
                0u8
            }) ^ gf_mul(gen[j], value ^ rem[0]),
    )
}

/// The remainder of data(x) * x^d divided by x^d + gen(x), where d is the length of `gen`.
pub open spec fn division_remainder(data: Seq<u8>, gen: Seq<u8>) -> Seq<u8>
    decreases data.len(),
{
    if data.len() == 0 {
        Seq::new(gen.len(), |j: int| 0u8)
    } else {
        division_step(division_remainder(data.drop_last(), gen), data.last(), gen)
    }
}

pub proof fn lemma_division_remainder_len(data: Seq<u8>, gen: Seq<u8>)
    ensures
        division_remainder(data, gen).len() == gen.len(),
    decreases data.len(),
{
    if data.len() > 0 {
        lemma_division_remainder_len(data.drop_last(), gen);
    }
}

proof fn lemma_cancel(p: u8, q: u8, w: u8)
    ensures
        (p ^ q) ^ ((w ^ p) ^ (q ^ w)) == 0u8,
{
    assert((p ^ q) ^ ((w ^ p) ^ (q ^ w)) == 0u8) by (bit_vector);
}

/// Data followed by its division remainder by the generator polynomial is a codeword:
/// all of its first `d` syndromes vanish.
pub proof fn lemma_remainder_makes_codeword(data: Seq<u8>, d: nat)
    requires
        d >= 1,
    ensures
        is_codeword(data + division_remainder(data, generator_poly(d).drop_first()), d),
{
    assert forall|i: nat| i < d implies #[trigger] syndrome(
        data + division_remainder(data, generator_poly(d).drop_first()),
        i,
    ) == 0 by {
        lemma_remainder_root(data, d, i);
    }
}

proof fn lemma_generator_value(d: nat, i: nat)
    requires
        d >= 1,
        i < d,
    ensures
        horner(generator_poly(d).drop_first(), alpha_pow(i)) == gf_pow(alpha_pow(i), d),
{
    let g = generator_poly(d);
    let gen = g.drop_first();
    let y = alpha_pow(i);
    let big_y = gf_pow(y, d);
    lemma_generator_len(d);
    lemma_generator_roots(d, i);
    assert(g =~= seq![1u8] + gen);
    lemma_horner_concat(seq![1u8], gen, y);
    assert(seq![1u8].drop_last() =~= Seq::<u8>::empty());
    lemma_mul_zero_one(y);
    lemma_xor(1u8, 0u8, 0u8);
    assert(horner(seq![1u8].drop_last(), y) == 0u8);
    assert(horner(seq![1u8], y) == 1u8);
    lemma_mul_zero_one(big_y);
    let hg = horner(gen, y);
    assert(big_y ^ hg == 0u8);
    lemma_xor(big_y, big_y, hg);
    lemma_xor(hg, 0u8, 0u8);
}

#[verifier::rlimit(50)]
proof fn lemma_division_step_root(a: u8, r: Seq<u8>, v: u8, gen: Seq<u8>, y: u8, d: nat)
    requires
        d >= 1,
        r.len() == d,
        gen.len() == d,
        horner(gen, y) == gf_pow(y, d),
        gf_mul(a, gf_pow(y, d)) == horner(r, y),
    ensures
        gf_mul(gf_mul(a, y) ^ v, gf_pow(y, d)) ^ horner(division_step(r, v, gen), y) == 0,
{
    let big_y = gf_pow(y, d);
    let b = horner(r, y);
    let f = v ^ r[0];
    let shifted = r.drop_first().push(0u8);
    let scaled = Seq::new(d, |j: int| gf_mul(gen[j], f));
    assert(division_step(r, v, gen) =~= Seq::new(d, |j: int| shifted[j] ^ scaled[j]));
    lemma_horner_xor(shifted, scaled, y);
    lemma_horner_scale(gen, f, y);
    let t = horner(r.drop_first(), y);
    assert(shifted.drop_last() =~= r.drop_first());
    lemma_xor(gf_mul(t, y), 0u8, 0u8);
    let yd1 = gf_pow(y, (d - 1) as nat);
    assert(r =~= seq![r[0]] + r.drop_first());
    lemma_horner_concat(seq![r[0]], r.drop_first(), y);
    assert(seq![r[0]].drop_last() =~= Seq::<u8>::empty());
    lemma_mul_zero_one(y);
    lemma_xor(r[0], 0u8, 0u8);
    assert(horner(seq![r[0]].drop_last(), y) == 0u8);
    assert(horner(seq![r[0]], y) == r[0]);
    let u = gf_mul(r[0], yd1);
    assert(b == u ^ t);
    lemma_xor(u, u, t);
    lemma_xor(t, 0u8, 0u8);
    assert(t == u ^ b);
    lemma_mul_distributive(y, u, b);
    lemma_mul_commutative(y, u ^ b);
    lemma_mul_commutative(y, u);
    lemma_mul_commutative(y, b);
    lemma_mul_associative(r[0], yd1, y);
    let w = gf_mul(r[0], big_y);
    lemma_mul_commutative(big_y, f);
    lemma_mul_distributive(big_y, v, r[0]);
    lemma_mul_commutative(big_y, v);
    lemma_mul_commutative(big_y, r[0]);
    let a2 = gf_mul(a, y) ^ v;
    lemma_mul_distributive(big_y, gf_mul(a, y), v);
    lemma_mul_commutative(big_y, a2);
    lemma_mul_commutative(big_y, gf_mul(a, y));
    lemma_mul_commutative(big_y, v);
    let pterm = gf_mul(gf_mul(a, y), big_y);
    lemma_mul_associative(a, y, big_y);
    lemma_mul_commutative(y, big_y);
    lemma_mul_associative(a, big_y, y);
    assert(pterm == gf_mul(b, y));
    let q = gf_mul(v, big_y);
    lemma_cancel(pterm, q, w);
}

proof fn lemma_remainder_root(data: Seq<u8>, d: nat, i: nat)
    requires
        d >= 1,
        i < d,
    ensures
        horner(data + division_remainder(data, generator_poly(d).drop_first()), alpha_pow(i)) == 0,
    decreases data.len(),
{
    let g = generator_poly(d);
    let gen = g.drop_first();
    let y = alpha_pow(i);
    let rem = division_remainder(data, gen);
    lemma_generator_len(d);
    lemma_division_remainder_len(data, gen);
    lemma_horner_concat(data, rem, y);
    let big_y = gf_pow(y, d);
    if data.len() == 0 {
        lemma_horner_zeros(d, y);
        lemma_mul_zero_one(big_y);
        lemma_xor(0u8, 0u8, 0u8);
    } else {
        let prev = data.drop_last();
        let v = data.last();
        let r = division_remainder(prev, gen);
        lemma_division_remainder_len(prev, gen);
        lemma_remainder_root(prev, d, i);
        lemma_horner_concat(prev, r, y);
        let a = horner(prev, y);
        let b = horner(r, y);
        lemma_xor(gf_mul(a, big_y), b, b);
        lemma_xor(b, 0u8, 0u8);
        lemma_xor(gf_mul(a, big_y), 0u8, 0u8);
        assert(gf_mul(a, big_y) == b);
        lemma_generator_value(d, i);
        lemma_division_step_root(a, r, v, gen, y, d);
        assert(data.drop_last() =~= prev);
    }
}

/// Computes the remainder of data(x) * x^d divided by x^d + generator(x) into `result`,
/// where d is the length of `generator` and of `result`.
pub fn remainder_into(data: &[u8], generator: &[u8], result: &mut [u8])
    requires
        old(result)@.len() == generator@.len(),
        data@.len() > 0 ==> generator@.len() > 0,
    ensures
        final(result)@ == division_remainder(data@, generator@),
{
    let d = result.len();
    let mut index: usize = 0;
    while index < d
        invariant
            d == result@.len(),
            index <= d,
            forall|j: int| 0 <= j < index ==> result@[j] == 0u8,
        decreases d - index,
    {
        result[index] = 0;
        index = index + 1;
    }
    proof {
        assert(result@ =~= division_remainder(data@.subrange(0, 0), generator@));
    }
    let mut k: usize = 0;
    while k < data.len()
        invariant
            d == result@.len(),
            d == generator@.len(),
            data@.len() > 0 ==> d > 0,
            k <= data@.len(),
            result@ == division_remainder(data@.subrange(0, k as int), generator@),
        decreases data@.len() - k,
    {
        let ghost before = result@;
        let value = data[k];
        let factor = value ^ result[0];
        let mut shift: usize = 0;
        while shift + 1 < d
            invariant
                d == result@.len(),
                d > 0,
                shift + 1 <= d,
                forall|j: int| 0 <= j < shift ==> result@[j] == before[j + 1],
                forall|j: int| shift <= j < d ==> result@[j] == before[j],
            decreases d - shift,
        {
            result[shift] = result[shift + 1];
            shift = shift + 1;
        }
        result[d - 1] = 0;
        let mut index: usize = 0;
        while index < d
            invariant
                d == result@.len(),
                d == generator@.len(),
                d > 0,
                index <= d,
                before.len() == d,
                factor == value ^ before[0],
                forall|j: int|
                    0 <= j < index ==> result@[j] == division_step(before, value, generator@)[j],
                forall|j: int|
                    index <= j < d ==> result@[j] == (if j + 1 < d {
                        before[j + 1]
                    } else {
                        0u8
                    }),
            decreases d - index,
        {
            let product = gf256::mul(generator[index], factor);
            proof {
                assert(division_step(before, value, generator@)[index as int] == result@[index as int] ^ product);
            }
            result[index] = result[index] ^ product;
            index = index + 1;
        }
        proof {
            let prefix = data@.subrange(0, k + 1);
            assert(prefix.drop_last() =~= data@.subrange(0, k as int));
            assert(result@ =~= division_step(before, value, generator@));
        }
        k = k + 1;
    }
    proof {
        assert(data@.subrange(0, data@.len() as int) =~= data@);
    }
}

/// The first `ecc_len` syndromes of `first` followed by `second`.
fn syndromes(first: &[u8], second: &[u8], ecc_len: usize) -> (r: Vec<u8>)
    ensures
        r@ == Seq::new(ecc_len as nat, |i: int| syndrome(first@ + second@, i as nat)),
{
    let mut result: Vec<u8> = Vec::with_capacity(ecc_len);
    let mut root: u8 = 1;
    let mut i: usize = 0;
    while i < ecc_len
        invariant
            i <= ecc_len,
            root == alpha_pow(i as nat),
            result@ =~= Seq::new(i as nat, |j: int| syndrome(first@ + second@, j as nat)),
        decreases ecc_len - i,
    {
        let mut acc: u8 = 0;
        let mut j: usize = 0;
        while j < first.len()
            invariant
                j <= first@.len(),
                acc == horner(first@.subrange(0, j as int), root),
            decreases first@.len() - j,
        {
            proof {
                assert(first@.subrange(0, j + 1).drop_last() =~= first@.subrange(0, j as int));
            }
            acc = gf256::mul(acc, root) ^ first[j];
            j = j + 1;
        }
        proof {
            assert(first@.subrange(0, first@.len() as int) =~= first@ + second@.subrange(0, 0));
        }
        let mut j: usize = 0;
        while j < second.len()
            invariant
                j <= second@.len(),
                acc == horner(first@ + second@.subrange(0, j as int), root),
            decreases second@.len() - j,
        {
            proof {
                if j == 0 {
                    assert(first@.subrange(0, first@.len() as int) =~= first@ + second@.subrange(0, 0));
                }
                assert((first@ + second@.subrange(0, j + 1)).drop_last() =~= first@ + second@.subrange(0, j as int));
            }
            acc = gf256::mul(acc, root) ^ second[j];
            j = j + 1;
        }
        proof {
            if second@.len() == 0 {
                assert(first@.subrange(0, first@.len() as int) =~= first@ + second@);
            } else {
                assert(first@ + second@.subrange(0, second@.len() as int) =~= first@ + second@);
            }
        }
        result.push(acc);
        root = gf256::mul(root, 2);
        i = i + 1;
    }
    result
}

/// Whether `first` followed by `second` has all of its first `ecc_len` syndromes zero.
pub fn check_segments(first: &[u8], second: &[u8], ecc_len: usize) -> (r: bool)
    ensures
        r == is_codeword(first@ + second@, ecc_len as nat),
{
    if ecc_len == 0 {
        return true;
    }
    let values = syndromes(first, second, ecc_len);
    let mut i: usize = 0;
    while i < ecc_len
        invariant
            values@.len() == ecc_len,
            values@ == Seq::new(ecc_len as nat, |k: int| syndrome(first@ + second@, k as nat)),
            i <= ecc_len,
            forall|k: nat| k < i ==> #[trigger] syndrome(first@ + second@, k) == 0,
        decreases ecc_len - i,
    {
        if values[i] != 0 {
            return false;
        }
        i = i + 1;
    }
    true
}

/// The polynomial with coefficients `c` (constant term first) evaluated at `x`.
pub open spec fn eval_ascending(c: Seq<u8>, x: u8) -> u8
    decreases c.len(),
{
    if c.len() == 0 {
        0
    } else {
        eval_ascending(c.drop_last(), x) ^ gf_mul(c.last(), gf_pow(x, (c.len() - 1) as nat))
    }
}

fn evaluate(coefficients: &[u8], value: u8) -> (r: u8)
    ensures
        r == eval_ascending(coefficients@, value),
{
    let mut result: u8 = 0;
    let mut power: u8 = 1;
    let mut i: usize = 0;
    while i < coefficients.len()
        invariant
            i <= coefficients@.len(),
            power == gf_pow(value, i as nat),
            result == eval_ascending(coefficients@.subrange(0, i as int), value),
        decreases coefficients@.len() - i,
    {
        proof {
            assert(coefficients@.subrange(0, i + 1).drop_last() =~= coefficients@.subrange(0, i as int));
        }
        result = result ^ gf256::mul(coefficients[i], power);
        power = gf256::mul(power, value);
        i = i + 1;
    }
    proof {
        assert(coefficients@.subrange(0, coefficients@.len() as int) =~= coefficients@);
    }
    result
}

fn gf256_power(value: u8, exponent: usize) -> (r: u8)
    ensures
        r == gf_pow(value, exponent as nat),
{
    let mut result: u8 = 1;
    let mut i: usize = 0;
    while i < exponent
        invariant
            i <= exponent,
            result == gf_pow(value, i as nat),
        decreases exponent - i,
    {
        result = gf256::mul(result, value);
        i = i + 1;
    }
    result
}

fn copy_vec(source: &Vec<u8>) -> (r: Vec<u8>)
    ensures
        r@ == source@,
{
    let mut r: Vec<u8> = Vec::with_capacity(source.len());
    let mut i: usize = 0;
    while i < source.len()
        invariant
            i <= source@.len(),
            r@ == source@.subrange(0, i as int),
        decreases source@.len() - i,
    {
        r.push(source[i]);
        i = i + 1;
    }
    r
}

/// The syndromes of a single error: the first is not zero, and each one after it is the one
/// before times the same locator, the second over the first.
pub open spec fn single_error_syndromes(s: Seq<u8>) -> bool {
    &&& s.len() >= 2
    &&& s[0] != 0
    &&& forall|k: int| 1 <= k < s.len() ==> #[trigger] s[k] == gf_mul(s[k - 1], gf256::gf_div(s[1], s[0]))
}

proof fn lemma_div_one(a: u8)
    ensures
        gf256::gf_div(a, 1) == a,
{
    lemma_inverse_of_nonzero(1);
    lemma_mul_zero_one(1);
    gf256::lemma_inverse_unique(1, gf256::gf_inverse(1), 1);
    lemma_mul_zero_one(a);
}

/// The second step of Berlekamp-Massey on single-error syndromes `e, s1, ...`: the locator
/// `1 + e z` becomes `1 + (s1 / e) z`, by a correction where the discrepancy is not zero.
proof fn lemma_locator_second_step(e: u8, s1: u8)
    requires
        e != 0,
    ensures
        ({
            let x = gf256::gf_div(s1, e);
            let d = s1 ^ gf_mul(e, e);
            &&& d == 0 ==> e == x
            &&& d != 0 ==> e ^ gf_mul(gf256::gf_div(d, e), 1u8) == x
        }),
{
    let i = gf256::gf_inverse(e);
    let d = s1 ^ gf_mul(e, e);
    lemma_inverse_of_nonzero(e);
    lemma_mul_distributive(i, s1, gf_mul(e, e));
    lemma_mul_associative(e, e, i);
    lemma_mul_zero_one(e);
    lemma_mul_zero_one(gf256::gf_div(d, e));
    lemma_xor_regroup(e, gf256::gf_div(s1, e), 0u8);
    lemma_xor_regroup(s1, gf_mul(e, e), 0u8);
}

/// The error locator polynomial of a syndrome sequence (Berlekamp-Massey), constant term first.
/// For the syndromes of a single error it is `1 + x z`, with `x` the error's locator.
fn error_locator(syndromes: &[u8]) -> (r: Vec<u8>)
    requires
        syndromes@.len() <= usize::MAX / 2,
    ensures
        1 <= r@.len() <= syndromes@.len() + 1,
        r@[0] == 1,
        single_error_syndromes(syndromes@) ==> r@ == seq![1u8, gf256::gf_div(syndromes@[1], syndromes@[0])],
{
    let n = syndromes.len();
    let ghost single = single_error_syndromes(syndromes@);
    let ghost e = syndromes@[0];
    let ghost x = gf256::gf_div(syndromes@[1], syndromes@[0]);
    let mut locator: Vec<u8> = vec![1u8];
    let mut previous: Vec<u8> = vec![1u8];
    let mut previous_discrepancy: u8 = 1;
    let mut gap: usize = 1;
    let mut error_count: usize = 0;
    let mut index: usize = 0;
    proof {
        assert(locator@ == seq![1u8]);
        assert(previous@ == seq![1u8]);
    }
    while index < n
        invariant
            n == syndromes@.len(),
            n <= usize::MAX / 2,
            index <= n,
            error_count <= index,
            error_count + 1 <= locator@.len() <= index + 2,
            index + 2 <= previous@.len() + gap + error_count,
            previous@.len() + gap <= index + 2,
            gap >= 1,
            previous@.len() >= 1,
            locator@[0] == 1,
            previous@[0] == 1,
            single == single_error_syndromes(syndromes@),
            e == syndromes@[0],
            x == gf256::gf_div(syndromes@[1], syndromes@[0]),
            index == 0 ==> locator@ == seq![1u8] && previous@ == seq![1u8] && previous_discrepancy == 1 && gap == 1
                && error_count == 0,
            single && index == 1 ==> locator@ == seq![1u8, e] && previous@ == seq![1u8] && previous_discrepancy == e
                && gap == 1 && error_count == 1,
            single && index >= 2 ==> locator@ == seq![1u8, x] && error_count == 1,
        decreases n - index,
    {
        let mut discrepancy = syndromes[index];
        let mut coefficient: usize = 1;
        let ghost loc0 = locator@;
        while coefficient <= error_count
            invariant
                1 <= coefficient <= error_count + 1,
                error_count <= index < n,
                n == syndromes@.len(),
                error_count + 1 <= locator@.len(),
                locator@ == loc0,
                coefficient == 1 ==> discrepancy == syndromes@[index as int],
                coefficient == 2 ==> discrepancy == syndromes@[index as int] ^ gf_mul(locator@[1], syndromes@[index - 1]),
            decreases error_count + 1 - coefficient,
        {
            discrepancy = discrepancy ^ gf256::mul(locator[coefficient], syndromes[index - coefficient]);
            coefficient = coefficient + 1;
        }
        proof {
            if single && index >= 2 {
                let prev = syndromes@[index - 1];
                assert(syndromes@[index as int] == gf_mul(prev, x));
                lemma_mul_commutative(prev, x);
                lemma_xor(gf_mul(x, prev), 0u8, 0u8);
                assert(discrepancy == 0);
            }
            if single && index == 1 {
                lemma_locator_second_step(e, syndromes@[1]);
            }
        }
        if discrepancy == 0 {
            gap = gap + 1;
        } else {
            let old_locator = copy_vec(&locator);
            let scale = gf256::div(discrepancy, previous_discrepancy);
            if locator.len() < previous.len() + gap {
                locator.resize(previous.len() + gap, 0);
            }
            let ghost resized = locator@;
            proof {
                if index == 0 {
                    assert(resized.len() == 2);
                    assert(resized.subrange(0, 1) == seq![1u8]);
                    assert(resized[0] == 1u8);
                    assert(resized[1] == 0u8);
                    assert(resized == seq![1u8, 0u8]);
                    lemma_div_one(discrepancy);
                }
            }
            let ghost resized_len = locator@.len();
            let mut k: usize = 0;
            while k < previous.len()
                invariant
                    k <= previous@.len(),
                    previous@.len() + gap <= locator@.len(),
                    locator@.len() == resized_len,
                    resized.len() == resized_len,
                    resized_len <= index + 2,
                    index < n,
                    n <= usize::MAX / 2,
                    gap >= 1,
                    locator@[0] == 1,
                    forall|j: int| 0 <= j < resized_len && !(gap <= j < gap + k) ==> #[trigger] locator@[j] == resized[j],
                    forall|j: int| gap <= j < gap + k ==> #[trigger] locator@[j] == resized[j] ^ gf_mul(scale, previous@[j - gap]),
                decreases previous@.len() - k,
            {
                let value = locator[k + gap] ^ gf256::mul(scale, previous[k]);
                locator.set(k + gap, value);
                k = k + 1;
            }
            proof {
                if index == 0 || (single && index == 1) {
                    assert(previous@ == seq![1u8]);
                    assert(gap == 1);
                    lemma_mul_zero_one(scale);
                    lemma_xor(scale, 0u8, 0u8);
                    assert(locator@[1] == resized[1] ^ gf_mul(scale, 1u8));
                    assert(locator@.len() == 2);
                    if index == 0 {
                        assert(locator@ =~= seq![1u8, discrepancy]);
                    } else {
                        assert(locator@ =~= seq![1u8, x]);
                    }
                }
            }
            if error_count * 2 <= index {
                error_count = index + 1 - error_count;
                previous = old_locator;
                previous_discrepancy = discrepancy;
                gap = 1;
            } else {
                gap = gap + 1;
            }
        }
        index = index + 1;
    }
    locator.truncate(error_count + 1);
    proof {
        if single {
            assert(locator@ =~= seq![1u8, x]);
        }
    }
    locator
}

/// Whether position `p` of a codeword of length `n` is a root of the error locator.
pub open spec fn is_error_position(locator: Seq<u8>, n: nat, p: nat) -> bool {
    eval_ascending(locator, gf256::gf_inverse(alpha_pow((n - 1 - p) as nat))) == 0
}

/// The positions among the first `k` of a codeword of length `n` that the locator marks, in order.
pub open spec fn error_positions(locator: Seq<u8>, n: nat, k: nat) -> Seq<usize>
    decreases k,
{
    if k == 0 {
        Seq::empty()
    } else {
        let prev = error_positions(locator, n, (k - 1) as nat);
        if is_error_position(locator, n, (k - 1) as nat) {
            prev.push((k - 1) as usize)
        } else {
            prev
        }
    }
}

proof fn lemma_error_positions_bounded(locator: Seq<u8>, n: nat, k: nat)
    requires
        k <= usize::MAX + 1,
    ensures
        error_positions(locator, n, k).len() <= k,
        forall|i: int|
            0 <= i < error_positions(locator, n, k).len() ==> #[trigger] error_positions(locator, n, k)[i]
                < k,
    decreases k,
{
    if k > 0 {
        lemma_error_positions_bounded(locator, n, (k - 1) as nat);
    }
}

fn find_error_locations(locator: &[u8], codeword_len: usize) -> (r: Option<Vec<usize>>)
    requires
        locator@.len() >= 1,
    ensures
        match r {
            Some(v) => v@ == error_positions(locator@, codeword_len as nat, codeword_len as nat)
                && v@.len() == locator@.len() - 1,
            None => error_positions(locator@, codeword_len as nat, codeword_len as nat).len()
                != locator@.len() - 1,
        },
{
    let mut result: Vec<usize> = Vec::new();
    let mut position: usize = 0;
    while position < codeword_len
        invariant
            position <= codeword_len,
            result@ == error_positions(locator@, codeword_len as nat, position as nat),
        decreases codeword_len - position,
    {
        let degree = codeword_len - 1 - position;
        let root = gf256::inverse(gf256::exp(degree));
        if evaluate(locator, root) == 0 {
            result.push(position);
        }
        position = position + 1;
    }
    if result.len() == locator.len() - 1 {
        Some(result)
    } else {
        None
    }
}

proof fn lemma_matrix_index(row: nat, column: nat, count: nat)
    requires
        row < count,
        column <= count,
    ensures
        row * (count + 1) + column < count * (count + 1),
        row * (count + 1) + column >= 0,
{
    assert(row * (count + 1) + column < count * (count + 1)) by (nonlinear_arith)
        requires
            row < count,
            column <= count,
    ;
    assert(row * (count + 1) + column >= 0) by (nonlinear_arith);
}

/// Row `k` of a matrix stored row by row with rows of `w` entries, its first `n` entries
/// multiplied by those of `x` and summed in the field.
pub open spec fn row_dot(m: Seq<u8>, w: int, k: int, x: Seq<u8>, n: int) -> u8
    decreases n,
{
    if n <= 0 {
        0
    } else {
        row_dot(m, w, k, x, n - 1) ^ gf_mul(entry(m, w, k, n - 1), x[n - 1])
    }
}

/// Entry `j` of row `k` of a matrix stored row by row with rows of `w` entries.
pub open spec fn entry(m: Seq<u8>, w: int, k: int, j: int) -> u8 {
    m[k * w + j]
}

/// `x` solves the system of `count` equations stored in `m`, each row its `count`
/// coefficients followed by its right-hand side.
pub open spec fn solves(m: Seq<u8>, count: int, x: Seq<u8>) -> bool {
    forall|k: int| 0 <= k < count ==> #[trigger] row_dot(m, count + 1, k, x, count) == entry(m, count + 1, k, count)
}

/// `x` solves the homogeneous system of the `count` equations stored in `m`.
pub open spec fn in_kernel(m: Seq<u8>, count: int, x: Seq<u8>) -> bool {
    forall|k: int| 0 <= k < count ==> #[trigger] row_dot(m, count + 1, k, x, count) == 0
}

/// Every solution of the system `m` (and of its homogeneous system) solves the system `sys`.
pub open spec fn solutions_within(m: Seq<u8>, sys: Seq<u8>, count: int) -> bool {
    forall|x: Seq<u8>|
        #![trigger solves(m, count, x)]
        #![trigger in_kernel(m, count, x)]
        x.len() == count ==> (solves(m, count, x) ==> solves(sys, count, x)) && (in_kernel(m, count, x) ==> in_kernel(
            sys,
            count,
            x,
        ))
}

/// The system for the error values at `locations` in a codeword of `n` symbols: row `r` holds
/// the `r`-th powers of the error locators α^(n - 1 - location), then syndrome `r`.
pub open spec fn magnitude_system(syndromes: Seq<u8>, locations: Seq<usize>, n: nat) -> Seq<u8> {
    let count = locations.len() as int;
    Seq::new(
        (count * (count + 1)) as nat,
        |i: int|
            if i % (count + 1) < count {
                gf_pow(alpha_pow((n - 1 - locations[i % (count + 1)]) as nat), (i / (count + 1)) as nat)
            } else {
                syndromes[i / (count + 1)]
            },
    )
}

/// Rows with the same first `n` entries have the same product with `x`.
proof fn lemma_row_dot_same(m1: Seq<u8>, k1: int, m2: Seq<u8>, k2: int, w: int, x: Seq<u8>, n: int)
    requires
        forall|j: int| 0 <= j < n ==> #[trigger] entry(m1, w, k1, j) == entry(m2, w, k2, j),
    ensures
        row_dot(m1, w, k1, x, n) == row_dot(m2, w, k2, x, n),
    decreases n,
{
    if n > 0 {
        lemma_row_dot_same(m1, k1, m2, k2, w, x, n - 1);
        assert(entry(m1, w, k1, n - 1) == entry(m2, w, k2, n - 1));
    }
}

/// A row scaled by `a` has its product with `x` scaled by `a`.
proof fn lemma_row_dot_scale(m1: Seq<u8>, k1: int, m2: Seq<u8>, k2: int, w: int, a: u8, x: Seq<u8>, n: int)
    requires
        forall|j: int| 0 <= j < n ==> #[trigger] entry(m2, w, k2, j) == gf_mul(a, entry(m1, w, k1, j)),
    ensures
        row_dot(m2, w, k2, x, n) == gf_mul(a, row_dot(m1, w, k1, x, n)),
    decreases n,
{
    if n <= 0 {
        lemma_mul_zero_one(a);
    } else {
        lemma_row_dot_scale(m1, k1, m2, k2, w, a, x, n - 1);
        let e = entry(m1, w, k1, n - 1);
        assert(entry(m2, w, k2, n - 1) == gf_mul(a, e));
        lemma_mul_associative(a, e, x[n - 1]);
        lemma_mul_distributive(a, row_dot(m1, w, k1, x, n - 1), gf_mul(e, x[n - 1]));
    }
}

/// Adding `f` times row `p` to row `r` adds `f` times row `p`'s product with `x`.
proof fn lemma_row_dot_combine(m1: Seq<u8>, m2: Seq<u8>, w: int, r: int, p: int, f: u8, x: Seq<u8>, n: int)
    requires
        forall|j: int| 0 <= j < n ==> #[trigger] entry(m2, w, r, j) == entry(m1, w, r, j) ^ gf_mul(f, entry(m1, w, p, j)),
    ensures
        row_dot(m2, w, r, x, n) == row_dot(m1, w, r, x, n) ^ gf_mul(f, row_dot(m1, w, p, x, n)),
    decreases n,
{
    if n <= 0 {
        lemma_mul_zero_one(f);
        lemma_xor(0, 0, 0);
    } else {
        lemma_row_dot_combine(m1, m2, w, r, p, f, x, n - 1);
        let a = entry(m1, w, r, n - 1);
        let b = entry(m1, w, p, n - 1);
        let y = x[n - 1];
        assert(entry(m2, w, r, n - 1) == a ^ gf_mul(f, b));
        lemma_mul_distributive(y, a, gf_mul(f, b));
        lemma_mul_commutative(y, a ^ gf_mul(f, b));
        lemma_mul_commutative(y, a);
        lemma_mul_commutative(y, gf_mul(f, b));
        lemma_mul_associative(f, b, y);
        let d1 = row_dot(m1, w, r, x, n - 1);
        let d2 = row_dot(m1, w, p, x, n - 1);
        lemma_mul_distributive(f, d2, gf_mul(b, y));
        let ay = gf_mul(a, y);
        let fd2 = gf_mul(f, d2);
        let fby = gf_mul(f, gf_mul(b, y));
        assert((d1 ^ fd2) ^ (ay ^ fby) == (d1 ^ ay) ^ (fd2 ^ fby)) by (bit_vector);
    }
}

/// A row whose first `n` entries are those of row `k` of the identity picks entry `k` of `x`.
proof fn lemma_row_dot_unit(m: Seq<u8>, w: int, k: int, x: Seq<u8>, n: int)
    requires
        0 <= k,
        forall|j: int| 0 <= j < n ==> #[trigger] entry(m, w, k, j) == (if j == k { 1u8 } else { 0u8 }),
    ensures
        row_dot(m, w, k, x, n) == (if k < n { x[k] } else { 0u8 }),
    decreases n,
{
    if n > 0 {
        lemma_row_dot_unit(m, w, k, x, n - 1);
        assert(entry(m, w, k, n - 1) == (if n - 1 == k { 1u8 } else { 0u8 }));
        lemma_mul_zero_one(x[n - 1]);
        let prev = row_dot(m, w, k, x, n - 1);
        lemma_xor(prev, 0, 0);
        lemma_xor(x[n - 1], 0, 0);
        if n - 1 == k {
            assert(prev == 0u8);
            assert(row_dot(m, w, k, x, n) == prev ^ gf_mul(1u8, x[n - 1]));
            assert(row_dot(m, w, k, x, n) == x[k]);
        } else {
            assert(row_dot(m, w, k, x, n) == prev ^ gf_mul(0u8, x[n - 1]));
            assert(row_dot(m, w, k, x, n) == prev);
            assert(prev == (if k < n { x[k] } else { 0u8 }));
        }
    }
}

/// Writing one entry of a matrix of `count` rows of `count + 1` entries changes that entry only.
proof fn lemma_entry_update(m: Seq<u8>, count: int, k0: int, j0: int, v: u8)
    requires
        0 <= k0 < count,
        0 <= j0 <= count,
        m.len() == count * (count + 1),
    ensures
        forall|k: int, j: int|
            0 <= k < count && 0 <= j <= count ==> #[trigger] entry(m.update(k0 * (count + 1) + j0, v), count + 1, k, j) == (if k
                == k0 && j == j0 {
                v
            } else {
                entry(m, count + 1, k, j)
            }),
{
    let w = count + 1;
    assert(0 <= k0 * w + j0 < count * w) by (nonlinear_arith)
        requires
            0 <= k0 < count,
            0 <= j0 < w,
            w == count + 1,
    ;
    assert forall|k: int, j: int| 0 <= k < count && 0 <= j <= count implies #[trigger] entry(m.update(k0 * w + j0, v), w, k, j) == (if k
        == k0 && j == j0 {
        v
    } else {
        entry(m, w, k, j)
    }) by {
        assert(0 <= k * w + j < count * w) by (nonlinear_arith)
            requires
                0 <= k < count,
                0 <= j < w,
                w == count + 1,
        ;
        if !(k == k0 && j == j0) {
            assert(k * w + j != k0 * w + j0) by (nonlinear_arith)
                requires
                    0 <= j < w,
                    0 <= j0 < w,
                    !(k == k0 && j == j0),
            ;
        }
    }
}

/// Every solution of `a` solves `c` when every solution of `a` solves `b` and of `b` solves `c`.
proof fn lemma_within_trans(a: Seq<u8>, b: Seq<u8>, c: Seq<u8>, count: int)
    requires
        solutions_within(a, b, count),
        solutions_within(b, c, count),
    ensures
        solutions_within(a, c, count),
{
    assert forall|x: Seq<u8>| x.len() == count implies (#[trigger] solves(a, count, x) ==> solves(c, count, x)) && (in_kernel(a, count, x)
        ==> in_kernel(c, count, x)) by {
        assert(solves(a, count, x) ==> solves(b, count, x));
        assert(solves(b, count, x) ==> solves(c, count, x));
    }
}

/// When every row of `old` stands, entry for entry, somewhere in `new`, every solution of
/// `new` solves `old`.
proof fn lemma_rows_within(old: Seq<u8>, new: Seq<u8>, count: int, place: spec_fn(int) -> int)
    requires
        forall|k: int| 0 <= k < count ==> 0 <= #[trigger] place(k) < count,
        forall|k: int, j: int| 0 <= k < count && 0 <= j <= count ==> #[trigger] entry(old, count + 1, k, j) == entry(new, count + 1, place(k), j),
    ensures
        solutions_within(new, old, count),
{
    let w = count + 1;
    assert forall|x: Seq<u8>| x.len() == count implies (#[trigger] solves(new, count, x) ==> solves(old, count, x)) && (in_kernel(new, count, x)
        ==> in_kernel(old, count, x)) by {
        assert forall|k: int| 0 <= k < count implies #[trigger] row_dot(old, w, k, x, count) == row_dot(new, w, place(k), x, count) by {
            assert forall|j: int| 0 <= j < count implies #[trigger] entry(old, w, k, j) == entry(new, w, place(k), j) by {}
            lemma_row_dot_same(old, k, new, place(k), w, x, count);
            assert(entry(old, w, k, count) == entry(new, w, place(k), count));
        }
        if solves(new, count, x) {
            assert forall|k: int| 0 <= k < count implies #[trigger] row_dot(old, w, k, x, count) == entry(old, w, k, count) by {
                assert(row_dot(new, w, place(k), x, count) == entry(new, w, place(k), count));
                assert(entry(old, w, k, count) == entry(new, w, place(k), count));
            }
        }
        if in_kernel(new, count, x) {
            assert forall|k: int| 0 <= k < count implies #[trigger] row_dot(old, w, k, x, count) == 0 by {
                assert(row_dot(new, w, place(k), x, count) == 0);
            }
        }
    }
}

/// Scaling row `p` by an invertible `a` keeps the solutions.
proof fn lemma_scale_within(old: Seq<u8>, new: Seq<u8>, count: int, p: int, a: u8, b: u8)
    requires
        0 <= p < count,
        gf_mul(b, a) == 1,
        forall|j: int| 0 <= j <= count ==> #[trigger] entry(new, count + 1, p, j) == gf_mul(a, entry(old, count + 1, p, j)),
        forall|k: int, j: int| 0 <= k < count && k != p && 0 <= j <= count ==> #[trigger] entry(new, count + 1, k, j) == entry(old, count + 1, k, j),
    ensures
        solutions_within(new, old, count),
{
    let w = count + 1;
    assert forall|x: Seq<u8>| x.len() == count implies (#[trigger] solves(new, count, x) ==> solves(old, count, x)) && (in_kernel(new, count, x)
        ==> in_kernel(old, count, x)) by {
        assert forall|j: int| 0 <= j < count implies #[trigger] entry(new, w, p, j) == gf_mul(a, entry(old, w, p, j)) by {}
        lemma_row_dot_scale(old, p, new, p, w, a, x, count);
        let d = row_dot(old, w, p, x, count);
        lemma_mul_associative(b, a, d);
        lemma_mul_zero_one(d);
        lemma_mul_zero_one(b);
        let e = entry(old, w, p, count);
        lemma_mul_associative(b, a, e);
        lemma_mul_zero_one(e);
        assert forall|k: int| 0 <= k < count && k != p implies #[trigger] row_dot(old, w, k, x, count) == row_dot(new, w, k, x, count) by {
            assert forall|j: int| 0 <= j < count implies #[trigger] entry(old, w, k, j) == entry(new, w, k, j) by {}
            lemma_row_dot_same(old, k, new, k, w, x, count);
        }
        if solves(new, count, x) {
            assert(row_dot(new, w, p, x, count) == entry(new, w, p, count));
            assert forall|k: int| 0 <= k < count implies #[trigger] row_dot(old, w, k, x, count) == entry(old, w, k, count) by {
                if k != p {
                    assert(row_dot(new, w, k, x, count) == entry(new, w, k, count));
                }
            }
        }
        if in_kernel(new, count, x) {
            assert(row_dot(new, w, p, x, count) == 0);
            assert forall|k: int| 0 <= k < count implies #[trigger] row_dot(old, w, k, x, count) == 0 by {
                if k != p {
                    assert(row_dot(new, w, k, x, count) == 0);
                }
            }
        }
    }
}

/// Adding `f` times row `p` to another row `r` keeps the solutions.
proof fn lemma_combine_within(old: Seq<u8>, new: Seq<u8>, count: int, r: int, p: int, f: u8)
    requires
        0 <= p < count,
        0 <= r < count,
        r != p,
        forall|j: int| 0 <= j <= count ==> #[trigger] entry(new, count + 1, r, j) == entry(old, count + 1, r, j) ^ gf_mul(f, entry(old, count + 1, p, j)),
        forall|k: int, j: int| 0 <= k < count && k != r && 0 <= j <= count ==> #[trigger] entry(new, count + 1, k, j) == entry(old, count + 1, k, j),
    ensures
        solutions_within(new, old, count),
{
    let w = count + 1;
    assert forall|x: Seq<u8>| x.len() == count implies (#[trigger] solves(new, count, x) ==> solves(old, count, x)) && (in_kernel(new, count, x)
        ==> in_kernel(old, count, x)) by {
        assert forall|j: int| 0 <= j < count implies #[trigger] entry(new, w, r, j) == entry(old, w, r, j) ^ gf_mul(f, entry(old, w, p, j)) by {}
        lemma_row_dot_combine(old, new, w, r, p, f, x, count);
        assert forall|k: int| 0 <= k < count && k != r implies #[trigger] row_dot(old, w, k, x, count) == row_dot(new, w, k, x, count) by {
            assert forall|j: int| 0 <= j < count implies #[trigger] entry(old, w, k, j) == entry(new, w, k, j) by {}
            lemma_row_dot_same(old, k, new, k, w, x, count);
        }
        let dr = row_dot(old, w, r, x, count);
        let dp = row_dot(old, w, p, x, count);
        let er = entry(old, w, r, count);
        let ep = entry(old, w, p, count);
        assert(entry(new, w, r, count) == er ^ gf_mul(f, ep));
        if solves(new, count, x) {
            assert(row_dot(new, w, p, x, count) == entry(new, w, p, count));
            assert(dp == ep);
            let t = gf_mul(f, ep);
            assert(dr ^ t == er ^ t);
            assert(dr ^ t == er ^ t ==> dr == er) by (bit_vector);
            assert forall|k: int| 0 <= k < count implies #[trigger] row_dot(old, w, k, x, count) == entry(old, w, k, count) by {
                if k != r {
                    assert(row_dot(new, w, k, x, count) == entry(new, w, k, count));
                }
            }
        }
        if in_kernel(new, count, x) {
            assert(row_dot(new, w, p, x, count) == 0);
            assert(dp == 0);
            lemma_mul_zero_one(f);
            lemma_xor(dr, 0, 0);
            assert forall|k: int| 0 <= k < count implies #[trigger] row_dot(old, w, k, x, count) == 0 by {
                if k != r {
                    assert(row_dot(new, w, k, x, count) == 0);
                }
            }
        }
    }
}

/// The vector that cancels column `p` against the unit columns before it: the entries of
/// column `p` above row `p`, then 1, then zeros.
pub open spec fn cancelling(m: Seq<u8>, p: int, count: int) -> Seq<u8> {
    Seq::new(
        count as nat,
        |j: int|
            if j < p {
                entry(m, count + 1, j, p)
            } else if j == p {
                1u8
            } else {
                0u8
            },
    )
}

/// Where the columns before `p` are unit columns and column `p` is zero from row `p` down,
/// the cancelling vector solves the homogeneous system.
proof fn lemma_cancelling_dot(m: Seq<u8>, p: int, count: int, k: int, n: int)
    requires
        0 <= p < count,
        0 <= k < count,
        0 <= n <= count,
        forall|kk: int, j: int| 0 <= kk < count && 0 <= j < p ==> #[trigger] entry(m, count + 1, kk, j) == (if kk == j { 1u8 } else { 0u8 }),
        forall|kk: int| p <= kk < count ==> #[trigger] entry(m, count + 1, kk, p) == 0,
    ensures
        n <= p ==> row_dot(m, count + 1, k, cancelling(m, p, count), n) == (if k < n { entry(m, count + 1, k, p) } else { 0u8 }),
        n > p ==> row_dot(m, count + 1, k, cancelling(m, p, count), n) == 0,
    decreases n,
{
    let w = count + 1;
    let c = cancelling(m, p, count);
    if n > 0 {
        lemma_cancelling_dot(m, p, count, k, n - 1);
        let prev = row_dot(m, w, k, c, n - 1);
        let j = n - 1;
        let e = entry(m, w, k, j);
        assert(row_dot(m, w, k, c, n) == prev ^ gf_mul(e, c[j]));
        lemma_xor(prev, 0, 0);
        if j < p {
            assert(e == (if k == j { 1u8 } else { 0u8 }));
            lemma_mul_zero_one(c[j]);
            lemma_xor(c[j], 0, 0);
        } else if j == p {
            lemma_mul_zero_one(e);
            if k < p {
                lemma_xor(e, e, 0);
            } else {
                assert(e == 0);
            }
        } else {
            lemma_mul_zero_one(e);
        }
    }
}

/// Solves for the error values at the given positions by Gauss-Jordan elimination: the
/// values whose sums, weighted by the powers of the error locators, give the syndromes.
/// Fails exactly where elimination finds no pivot, and then the homogeneous system has a
/// solution other than zero; where it succeeds, it has none: it fails exactly when the system
/// is singular.
fn error_magnitudes(syndromes: &[u8], locations: &[usize], codeword_len: usize) -> (r: Option<Vec<u8>>)
    requires
        locations@.len() <= syndromes@.len(),
        locations@.len() * (locations@.len() + 1) <= usize::MAX,
        forall|i: int| 0 <= i < locations@.len() ==> #[trigger] locations@[i] < codeword_len,
    ensures
        r matches Some(v) ==> v@.len() == locations@.len() && solves(
            magnitude_system(syndromes@, locations@, codeword_len as nat),
            locations@.len() as int,
            v@,
        ),
        r is None ==> exists|c: Seq<u8>|
            c.len() == locations@.len() && (exists|j: int| 0 <= j < c.len() && #[trigger] c[j] != 0)
                && #[trigger] in_kernel(magnitude_system(syndromes@, locations@, codeword_len as nat), locations@.len() as int, c),
        r is Some ==> forall|c: Seq<u8>|
            c.len() == locations@.len() && #[trigger] in_kernel(magnitude_system(syndromes@, locations@, codeword_len as nat), locations@.len() as int, c)
                ==> forall|j: int| 0 <= j < c.len() ==> #[trigger] c[j] == 0,
{
    let error_count = locations.len();
    proof {
        assert(error_count + 1 <= usize::MAX) by (nonlinear_arith)
            requires
                error_count * (error_count + 1) <= usize::MAX,
                usize::MAX >= 1,
        ;
    }
    let width = error_count + 1;
    let ghost count = error_count as int;
    let ghost w = width as int;
    let ghost sys = magnitude_system(syndromes@, locations@, codeword_len as nat);
    let total = error_count * width;
    let mut matrix = vec![0u8; total];
    let mut row: usize = 0;
    while row < error_count
        invariant
            matrix@.len() == total,
            total == error_count * width,
            width == error_count + 1,
            count == error_count,
            w == width,
            sys == magnitude_system(syndromes@, locations@, codeword_len as nat),
            error_count == locations@.len(),
            error_count <= syndromes@.len(),
            row <= error_count,
            forall|i: int| 0 <= i < locations@.len() ==> #[trigger] locations@[i] < codeword_len,
            forall|k: int, j: int| 0 <= k < row && 0 <= j <= count ==> #[trigger] entry(matrix@, w, k, j) == entry(sys, w, k, j),
        decreases error_count - row,
    {
        let mut column: usize = 0;
        while column < error_count
            invariant
                matrix@.len() == total,
                total == error_count * width,
                width == error_count + 1,
                count == error_count,
                w == width,
                sys == magnitude_system(syndromes@, locations@, codeword_len as nat),
                error_count == locations@.len(),
                row < error_count,
                column <= error_count,
                forall|i: int| 0 <= i < locations@.len() ==> #[trigger] locations@[i] < codeword_len,
                forall|k: int, j: int|
                    0 <= k < count && 0 <= j <= count && (k < row || (k == row && j < column)) ==> #[trigger] entry(matrix@, w, k, j)
                        == entry(sys, w, k, j),
            decreases error_count - column,
        {
            proof {
                assert(locations@[column as int] < codeword_len);
            }
            let degree = codeword_len - 1 - locations[column];
            proof {
                lemma_matrix_index(row as nat, column as nat, error_count as nat);
                lemma_entry_update(matrix@, count, row as int, column as int, gf_pow(alpha_pow(degree as nat), row as nat));
                lemma_system_entry(syndromes@, locations@, codeword_len as nat, row as int, column as int);
            }
            let value = gf256_power(gf256::exp(degree), row);
            matrix.set(row * width + column, value);
            column = column + 1;
        }
        proof {
            lemma_matrix_index(row as nat, error_count as nat, error_count as nat);
            lemma_entry_update(matrix@, count, row as int, count, syndromes@[row as int]);
            lemma_system_entry(syndromes@, locations@, codeword_len as nat, row as int, count);
        }
        matrix.set(row * width + error_count, syndromes[row]);
        row = row + 1;
    }
    proof {
        lemma_rows_within(sys, matrix@, count, |k: int| k);
        lemma_rows_within(matrix@, sys, count, |k: int| k);
    }
    let mut pivot: usize = 0;
    while pivot < error_count
        invariant
            matrix@.len() == total,
            total == error_count * width,
            width == error_count + 1,
            count == error_count,
            w == width,
            pivot <= error_count,
            sys == magnitude_system(syndromes@, locations@, codeword_len as nat),
            count == locations@.len(),
            forall|k: int, j: int| 0 <= k < count && 0 <= j < pivot ==> #[trigger] entry(matrix@, w, k, j) == (if k == j { 1u8 } else { 0u8 }),
            solutions_within(matrix@, sys, count),
            solutions_within(sys, matrix@, count),
        decreases error_count - pivot,
    {
        let mut pivot_row = pivot;
        let mut found = false;
        while pivot_row < error_count && !found
            invariant
                matrix@.len() == total,
                total == error_count * width,
                width == error_count + 1,
                count == error_count,
                w == width,
                pivot < error_count,
                pivot <= pivot_row <= error_count,
                found ==> pivot_row < error_count && entry(matrix@, w, pivot_row as int, pivot as int) != 0,
                !found ==> forall|k: int| pivot <= k < pivot_row ==> #[trigger] entry(matrix@, w, k, pivot as int) == 0,
            decreases error_count - pivot_row + (if found { 0int } else { 1int }),
        {
            proof {
                lemma_matrix_index(pivot_row as nat, pivot as nat, error_count as nat);
            }
            if matrix[pivot_row * width + pivot] != 0 {
                found = true;
            } else {
                pivot_row = pivot_row + 1;
            }
        }
        if pivot_row == error_count {
            proof {
                let c = cancelling(matrix@, pivot as int, count);
                assert forall|k: int| 0 <= k < count implies #[trigger] row_dot(matrix@, count + 1, k, c, count) == 0 by {
                    lemma_cancelling_dot(matrix@, pivot as int, count, k, count);
                }
                assert(in_kernel(matrix@, count, c));
                assert(in_kernel(sys, count, c));
                assert(c[pivot as int] != 0);
            }
            return None;
        }
        let ghost m0 = matrix@;
        if pivot_row != pivot {
            let mut column = pivot;
            while column <= error_count
                invariant
                    matrix@.len() == total,
                    total == error_count * width,
                    width == error_count + 1,
                    count == error_count,
                    w == width,
                    pivot < error_count,
                    pivot < pivot_row < error_count,
                    pivot <= column <= error_count + 1,
                    forall|k: int, j: int|
                        0 <= k < count && 0 <= j <= count ==> #[trigger] entry(matrix@, w, k, j) == (if pivot <= j < column && k == pivot {
                            entry(m0, w, pivot_row as int, j)
                        } else if pivot <= j < column && k == pivot_row {
                            entry(m0, w, pivot as int, j)
                        } else {
                            entry(m0, w, k, j)
                        }),
                decreases error_count + 1 - column,
            {
                proof {
                    lemma_matrix_index(pivot as nat, column as nat, error_count as nat);
                    lemma_matrix_index(pivot_row as nat, column as nat, error_count as nat);
                }
                let a = matrix[pivot * width + column];
                let b = matrix[pivot_row * width + column];
                proof {
                    assert(a == entry(matrix@, w, pivot as int, column as int));
                    assert(b == entry(matrix@, w, pivot_row as int, column as int));
                    lemma_entry_update(matrix@, count, pivot as int, column as int, b);
                }
                matrix.set(pivot * width + column, b);
                proof {
                    lemma_entry_update(matrix@, count, pivot_row as int, column as int, a);
                }
                matrix.set(pivot_row * width + column, a);
                column = column + 1;
            }
            proof {
                let pr = pivot_row as int;
                let pv = pivot as int;
                let place = |k: int| if k == pv { pr } else if k == pr { pv } else { k };
                assert forall|k: int, j: int| 0 <= k < count && 0 <= j <= count implies #[trigger] entry(m0, w, k, j) == entry(matrix@, w, place(k), j) by {
                    if j < pv && (k == pv || k == pr) {
                        assert(entry(m0, w, pv, j) == 0u8);
                        assert(entry(m0, w, pr, j) == 0u8);
                    }
                }
                lemma_rows_within(m0, matrix@, count, place);
                lemma_within_trans(matrix@, m0, sys, count);
                assert forall|k: int, j: int| 0 <= k < count && 0 <= j <= count implies #[trigger] entry(matrix@, w, k, j) == entry(m0, w, place(k), j) by {
                    assert(entry(m0, w, place(k), j) == entry(matrix@, w, place(place(k)), j));
                }
                lemma_rows_within(matrix@, m0, count, place);
                lemma_within_trans(sys, m0, matrix@, count);
                assert(entry(matrix@, w, pv, pv) == entry(m0, w, pr, pv));
            }
        }
        let ghost m1 = matrix@;
        proof {
            lemma_matrix_index(pivot as nat, pivot as nat, error_count as nat);
        }
        let leading = matrix[pivot * width + pivot];
        let inverse = gf256::inverse(leading);
        proof {
            lemma_nonzero_invertible(leading);
            lemma_mul_commutative(leading, inverse);
        }
        let mut column = pivot;
        while column <= error_count
            invariant
                matrix@.len() == total,
                total == error_count * width,
                width == error_count + 1,
                count == error_count,
                w == width,
                pivot < error_count,
                pivot <= column <= error_count + 1,
                forall|k: int, j: int|
                    0 <= k < count && 0 <= j <= count ==> #[trigger] entry(matrix@, w, k, j) == (if pivot <= j < column && k == pivot {
                        gf_mul(entry(m1, w, k, j), inverse)
                    } else {
                        entry(m1, w, k, j)
                    }),
            decreases error_count + 1 - column,
        {
            proof {
                lemma_matrix_index(pivot as nat, column as nat, error_count as nat);
            }
            let index = pivot * width + column;
            let value = gf256::mul(matrix[index], inverse);
            proof {
                assert(matrix@[index as int] == entry(matrix@, w, pivot as int, column as int));
                lemma_entry_update(matrix@, count, pivot as int, column as int, value);
            }
            matrix.set(index, value);
            column = column + 1;
        }
        proof {
            let pv = pivot as int;
            assert forall|j: int| 0 <= j <= count implies #[trigger] entry(matrix@, w, pv, j) == gf_mul(inverse, entry(m1, w, pv, j)) by {
                lemma_mul_commutative(entry(m1, w, pv, j), inverse);
                if j < pv {
                    assert(entry(m1, w, pv, j) == 0u8);
                    lemma_mul_zero_one(inverse);
                }
            }
            lemma_scale_within(m1, matrix@, count, pv, inverse, leading);
            lemma_within_trans(matrix@, m1, sys, count);
            assert forall|j: int| 0 <= j <= count implies #[trigger] entry(m1, w, pv, j) == gf_mul(leading, entry(matrix@, w, pv, j)) by {
                let e = entry(m1, w, pv, j);
                lemma_mul_associative(leading, inverse, e);
                lemma_mul_zero_one(e);
            }
            lemma_scale_within(matrix@, m1, count, pv, leading, inverse);
            lemma_within_trans(sys, m1, matrix@, count);
            assert(entry(matrix@, w, pv, pv) == 1u8);
        }
        let ghost m2 = matrix@;
        let mut row: usize = 0;
        while row < error_count
            invariant
                matrix@.len() == total,
                total == error_count * width,
                width == error_count + 1,
                count == error_count,
                w == width,
                pivot < error_count,
                row <= error_count,
                forall|k: int, j: int| 0 <= k < count && 0 <= j < pivot ==> #[trigger] entry(matrix@, w, k, j) == (if k == j { 1u8 } else { 0u8 }),
                forall|j: int| 0 <= j <= count ==> #[trigger] entry(matrix@, w, pivot as int, j) == entry(m2, w, pivot as int, j),
                entry(m2, w, pivot as int, pivot as int) == 1u8,
                forall|k: int| 0 <= k < row && k != pivot ==> #[trigger] entry(matrix@, w, k, pivot as int) == 0u8,
                solutions_within(matrix@, sys, count),
                solutions_within(sys, matrix@, count),
            decreases error_count - row,
        {
            if row != pivot {
                proof {
                    lemma_matrix_index(row as nat, pivot as nat, error_count as nat);
                }
                let factor = matrix[row * width + pivot];
                if factor != 0 {
                    let ghost mb = matrix@;
                    let mut column = pivot;
                    while column <= error_count
                        invariant
                            matrix@.len() == total,
                            total == error_count * width,
                            width == error_count + 1,
                            count == error_count,
                            w == width,
                            pivot < error_count,
                            row < error_count,
                            row != pivot,
                            pivot <= column <= error_count + 1,
                            forall|k: int, j: int|
                                0 <= k < count && 0 <= j <= count ==> #[trigger] entry(matrix@, w, k, j) == (if pivot <= j < column && k == row {
                                    entry(mb, w, k, j) ^ gf_mul(factor, entry(mb, w, pivot as int, j))
                                } else {
                                    entry(mb, w, k, j)
                                }),
                        decreases error_count + 1 - column,
                    {
                        proof {
                            lemma_matrix_index(pivot as nat, column as nat, error_count as nat);
                            lemma_matrix_index(row as nat, column as nat, error_count as nat);
                        }
                        let target = row * width + column;
                        let source = pivot * width + column;
                        let value = matrix[target] ^ gf256::mul(factor, matrix[source]);
                        proof {
                            assert(matrix@[target as int] == entry(matrix@, w, row as int, column as int));
                            assert(matrix@[source as int] == entry(matrix@, w, pivot as int, column as int));
                            lemma_entry_update(matrix@, count, row as int, column as int, value);
                        }
                        matrix.set(target, value);
                        column = column + 1;
                    }
                    proof {
                        let pv = pivot as int;
                        let r = row as int;
                        assert forall|j: int| 0 <= j <= count implies #[trigger] entry(matrix@, w, r, j) == entry(mb, w, r, j) ^ gf_mul(factor, entry(mb, w, pv, j)) by {
                            if j < pv {
                                assert(entry(mb, w, pv, j) == 0u8);
                                lemma_mul_zero_one(factor);
                                lemma_xor(entry(mb, w, r, j), 0, 0);
                            }
                        }
                        lemma_combine_within(mb, matrix@, count, r, pv, factor);
                        lemma_within_trans(matrix@, mb, sys, count);
                        assert forall|j: int| 0 <= j <= count implies #[trigger] entry(mb, w, r, j) == entry(matrix@, w, r, j) ^ gf_mul(factor, entry(matrix@, w, pv, j)) by {
                            assert(entry(matrix@, w, r, j) == entry(mb, w, r, j) ^ gf_mul(factor, entry(mb, w, pv, j)));
                            assert(entry(matrix@, w, pv, j) == entry(mb, w, pv, j));
                            lemma_xor(entry(mb, w, r, j), gf_mul(factor, entry(mb, w, pv, j)), gf_mul(factor, entry(mb, w, pv, j)));
                            lemma_xor(entry(mb, w, r, j), 0u8, 0u8);
                            lemma_xor(gf_mul(factor, entry(mb, w, pv, j)), 0u8, 0u8);
                        }
                        lemma_combine_within(matrix@, mb, count, r, pv, factor);
                        lemma_within_trans(sys, mb, matrix@, count);
                        lemma_mul_zero_one(factor);
                        lemma_xor(factor, 0, 0);
                        assert(entry(matrix@, w, r, pv) == factor ^ gf_mul(factor, 1u8));
                    }
                }
            }
            row = row + 1;
        }
        pivot = pivot + 1;
    }
    let mut result: Vec<u8> = Vec::with_capacity(error_count);
    let mut row: usize = 0;
    while row < error_count
        invariant
            matrix@.len() == total,
            total == error_count * width,
            width == error_count + 1,
            count == error_count,
            w == width,
            row <= error_count,
            result@.len() == row,
            forall|k: int| 0 <= k < row ==> #[trigger] result@[k] == entry(matrix@, w, k, count),
        decreases error_count - row,
    {
        proof {
            lemma_matrix_index(row as nat, error_count as nat, error_count as nat);
        }
        result.push(matrix[row * width + error_count]);
        row = row + 1;
    }
    proof {
        assert forall|k: int| 0 <= k < count implies #[trigger] row_dot(matrix@, w, k, result@, count) == entry(matrix@, w, k, count) by {
            assert forall|j: int| 0 <= j < count implies #[trigger] entry(matrix@, w, k, j) == (if j == k { 1u8 } else { 0u8 }) by {}
            lemma_row_dot_unit(matrix@, w, k, result@, count);
        }
        assert(solves(matrix@, count, result@));
        assert forall|c: Seq<u8>| c.len() == count && #[trigger] in_kernel(sys, count, c) implies forall|j: int| 0 <= j < c.len() ==> #[trigger] c[j] == 0 by {
            assert(in_kernel(matrix@, count, c));
            assert forall|j: int| 0 <= j < c.len() implies #[trigger] c[j] == 0 by {
                assert forall|jj: int| 0 <= jj < count implies #[trigger] entry(matrix@, w, j, jj) == (if jj == j { 1u8 } else { 0u8 }) by {}
                lemma_row_dot_unit(matrix@, w, j, c, count);
                assert(row_dot(matrix@, w, j, c, count) == 0);
            }
        }
    }
    Some(result)
}

/// The entries of the magnitude system.
proof fn lemma_system_entry(syndromes: Seq<u8>, locations: Seq<usize>, n: nat, k: int, j: int)
    requires
        0 <= k < locations.len(),
        0 <= j <= locations.len(),
    ensures
        entry(magnitude_system(syndromes, locations, n), locations.len() + 1 as int, k, j) == if j < locations.len() {
            gf_pow(alpha_pow((n - 1 - locations[j]) as nat), k as nat)
        } else {
            syndromes[k]
        },
{
    let count = locations.len() as int;
    let w = count + 1;
    assert(0 <= k * w + j < count * w) by (nonlinear_arith)
        requires
            0 <= k < count,
            0 <= j < w,
            w == count + 1,
    ;
    vstd::arithmetic::div_mod::lemma_fundamental_div_mod_converse(k * w + j, w, k, j);
}

proof fn lemma_xor_swap(h: u8, a: u8, b: u8, c: u8)
    by (bit_vector)
    ensures
        h ^ b == ((h ^ a) ^ a) ^ b,
        ((h ^ a) ^ b) ^ c == ((h ^ c) ^ a) ^ b,
        (0u8 ^ a) ^ b == 0u8 ==> a == b,
{
}

/// Evaluating at 1 after one coefficient changed: the value changes by the old and the new
/// coefficient.
proof fn lemma_horner_one_update(v: Seq<u8>, i: int, b: u8)
    requires
        0 <= i < v.len(),
    ensures
        horner(v.update(i, b), 1) == (horner(v, 1) ^ v[i]) ^ b,
    decreases v.len(),
{
    let w = v.update(i, b);
    let n = v.len() as int;
    let h = horner(v.drop_last(), 1);
    lemma_mul_zero_one(h);
    if i == n - 1 {
        assert(w.drop_last() =~= v.drop_last());
        lemma_xor_swap(h, v[i], b, 0u8);
    } else {
        lemma_horner_one_update(v.drop_last(), i, b);
        assert(w.drop_last() =~= v.drop_last().update(i, b));
        lemma_mul_zero_one(horner(w.drop_last(), 1));
        lemma_xor_swap(h, v[i], b, v.last());
    }
}

/// A single changed byte is always detected: a codeword with at least one error correction
/// byte, with one byte replaced by a different value, is no codeword.
pub proof fn lemma_single_change_detected(v: Seq<u8>, ecc_len: nat, i: int, b: u8)
    requires
        is_codeword(v, ecc_len),
        ecc_len >= 1,
        0 <= i < v.len(),
        b != v[i],
    ensures
        !is_codeword(v.update(i, b), ecc_len),
{
    lemma_horner_one_update(v, i, b);
    assert(syndrome(v, 0) == 0);
    assert(alpha_pow(0) == 1);
    lemma_xor_swap(0u8, v[i], b, 0u8);
    assert(syndrome(v.update(i, b), 0) != 0);
}

proof fn lemma_xor_regroup(a: u8, b: u8, c: u8)
    by (bit_vector)
    ensures
        a ^ b == (a ^ c) ^ (c ^ b),
        (a ^ b) ^ c == (a ^ c) ^ b,
        a ^ 0u8 == a,
        (1u8 ^ a == 0u8) == (a == 1u8),
        a ^ (b ^ a) == b,
        b ^ (b ^ c) == c,
        (a ^ b == 0u8) == (a == b),
{
}

/// Evaluating after one coefficient changed: the value changes by the difference of the old
/// and the new coefficient times the power of `y` standing at that coefficient.
proof fn lemma_horner_update(v: Seq<u8>, i: int, b: u8, y: u8)
    requires
        0 <= i < v.len(),
    ensures
        horner(v.update(i, b), y) == horner(v, y) ^ gf_mul(v[i] ^ b, gf_pow(y, (v.len() - 1 - i) as nat)),
    decreases v.len(),
{
    let w = v.update(i, b);
    let n = v.len() as int;
    let h = horner(v.drop_last(), y);
    let d = v[i] ^ b;
    if i == n - 1 {
        assert(w.drop_last() =~= v.drop_last());
        lemma_mul_zero_one(d);
        lemma_xor_regroup(gf_mul(h, y), b, v[i]);
    } else {
        lemma_horner_update(v.drop_last(), i, b, y);
        assert(w.drop_last() =~= v.drop_last().update(i, b));
        let q = gf_pow(y, (n - 2 - i) as nat);
        assert(gf_pow(y, (n - 1 - i) as nat) == gf_mul(q, y));
        lemma_mul_distributive(y, h, gf_mul(d, q));
        lemma_mul_associative(d, q, y);
        lemma_xor_regroup(gf_mul(h, y), gf_mul(gf_mul(d, q), y), v.last());
        assert(w.last() == v.last());
    }
}

/// Syndrome `k` of a codeword with one byte changed: the change times the `k`-th power of the
/// locator `2^(n - 1 - p)` of its position `p`.
proof fn lemma_single_error_syndrome(v: Seq<u8>, ecc_len: nat, p: int, b: u8, k: nat)
    requires
        is_codeword(v, ecc_len),
        0 <= p < v.len(),
        k < ecc_len,
    ensures
        syndrome(v.update(p, b), k) == gf_mul(v[p] ^ b, gf_pow(alpha_pow((v.len() - 1 - p) as nat), k)),
{
    let m = (v.len() - 1 - p) as nat;
    lemma_horner_update(v, p, b, alpha_pow(k));
    assert(syndrome(v, k) == 0);
    lemma_pow_mul(2, k, m);
    lemma_pow_mul(2, m, k);
    assert(k * m == m * k) by (nonlinear_arith);
    lemma_xor(gf_mul(v[p] ^ b, gf_pow(alpha_pow(k), m)), 0u8, 0u8);
}

/// `v` is a codeword of at most 255 symbols, with at least two error correction symbols, that
/// `w` differs from in exactly one position, `p`.
pub open spec fn one_error_from(v: Seq<u8>, p: int, w: Seq<u8>, ecc_len: nat) -> bool {
    &&& v.len() == w.len()
    &&& v.len() <= 255
    &&& 2 <= ecc_len
    &&& is_codeword(v, ecc_len)
    &&& 0 <= p < v.len()
    &&& v.update(p, w[p]) == w
    &&& w[p] != v[p]
}

/// The syndromes of a word one error away from a codeword are those of a single error: the
/// first is the error's value, and their ratio the locator of its position.
proof fn lemma_one_error_syndromes(v: Seq<u8>, p: int, w: Seq<u8>, ecc_len: nat)
    requires
        one_error_from(v, p, w, ecc_len),
    ensures
        ({
            let s = Seq::new(ecc_len, |k: int| syndrome(w, k as nat));
            &&& single_error_syndromes(s)
            &&& s[0] == v[p] ^ w[p]
            &&& gf256::gf_div(s[1], s[0]) == alpha_pow((w.len() - 1 - p) as nat)
        }),
{
    let s = Seq::new(ecc_len, |k: int| syndrome(w, k as nat));
    let x = alpha_pow((w.len() - 1 - p) as nat);
    let d = v[p] ^ w[p];
    assert forall|k: int| 0 <= k < ecc_len implies #[trigger] s[k] == gf_mul(d, gf_pow(x, k as nat)) by {
        lemma_single_error_syndrome(v, ecc_len, p, w[p], k as nat);
    }
    lemma_mul_zero_one(d);
    lemma_mul_zero_one(x);
    assert(s[0] == d);
    lemma_xor_regroup(v[p], w[p], 0u8);
    assert(d != 0);
    assert(s[1] == gf_mul(d, x));
    let i = gf256::gf_inverse(d);
    lemma_inverse_of_nonzero(d);
    lemma_mul_commutative(d, x);
    lemma_mul_associative(x, d, i);
    assert(gf256::gf_div(s[1], s[0]) == x);
    assert forall|k: int| 1 <= k < s.len() implies #[trigger] s[k] == gf_mul(s[k - 1], gf256::gf_div(s[1], s[0])) by {
        lemma_mul_associative(d, gf_pow(x, (k - 1) as nat), x);
    }
}

/// The locator `1 + x z` of a single error at position `p` of a word of at most 255 symbols
/// has its root at position `p` and at no other.
proof fn lemma_single_root_at(n: nat, p: nat, q: nat)
    requires
        p < n <= 255,
        q < n,
    ensures
        is_error_position(seq![1u8, alpha_pow((n - 1 - p) as nat)], n, q) == (q == p),
{
    let x = alpha_pow((n - 1 - p) as nat);
    let a = alpha_pow((n - 1 - q) as nat);
    let y = gf256::gf_inverse(a);
    let c = seq![1u8, x];
    lemma_alpha_nonzero((n - 1 - q) as nat);
    lemma_inverse_of_nonzero(a);
    assert(c.drop_last() =~= seq![1u8]);
    assert(seq![1u8].drop_last() =~= Seq::<u8>::empty());
    lemma_mul_zero_one(1u8);
    lemma_mul_zero_one(y);
    assert(gf_pow(y, 0) == 1u8);
    assert(gf_pow(y, 1) == gf_mul(gf_pow(y, 0), y));
    assert(eval_ascending(seq![1u8], y) == eval_ascending(Seq::<u8>::empty(), y) ^ gf_mul(1u8, gf_pow(y, 0)));
    lemma_xor(1u8, 0u8, 0u8);
    assert(eval_ascending(c, y) == 1u8 ^ gf_mul(x, y));
    lemma_xor_regroup(gf_mul(x, y), 0u8, 0u8);
    if q != p {
        if gf_mul(x, y) == 1 {
            lemma_mul_commutative(x, y);
            lemma_mul_commutative(a, y);
            gf256::lemma_inverse_unique(y, x, a);
            if n - 1 - p < n - 1 - q {
                lemma_alpha_distinct((n - 1 - p) as nat, (n - 1 - q) as nat);
            } else {
                lemma_alpha_distinct((n - 1 - q) as nat, (n - 1 - p) as nat);
            }
        }
    }
}

/// The root search over the first `k` positions finds the single error's position once it is
/// among them.
proof fn lemma_single_root(n: nat, p: nat, k: nat)
    requires
        p < n <= 255,
        k <= n,
    ensures
        error_positions(seq![1u8, alpha_pow((n - 1 - p) as nat)], n, k) == if k > p {
            seq![p as usize]
        } else {
            Seq::<usize>::empty()
        },
    decreases k,
{
    if k > 0 {
        lemma_single_root(n, p, (k - 1) as nat);
        lemma_single_root_at(n, p, (k - 1) as nat);
        if k - 1 == p {
            assert(Seq::<usize>::empty().push(p as usize) =~= seq![p as usize]);
        }
    }
}

/// A single error's value solves the one-equation magnitude system, and it alone does.
proof fn lemma_single_magnitude(s: Seq<u8>, p: usize, n: nat, m: Seq<u8>)
    requires
        s.len() >= 1,
        m.len() == 1,
    ensures
        solves(magnitude_system(s, seq![p], n), 1, m) ==> m[0] == s[0],
        in_kernel(magnitude_system(s, seq![p], n), 1, m) ==> m[0] == 0,
{
    let sys = magnitude_system(s, seq![p], n);
    let locator = alpha_pow((n - 1 - p) as nat);
    assert(seq![p].len() == 1);
    assert(sys.len() == 2);
    assert(0int % 2 == 0 && 0int / 2 == 0 && 1int % 2 == 1 && 1int / 2 == 0);
    assert(sys[0] == gf_pow(locator, 0));
    assert(gf_pow(locator, 0) == 1u8);
    assert(sys[1] == s[0]);
    assert(entry(sys, 2, 0, 0) == 1u8);
    assert(entry(sys, 2, 0, 1) == s[0]);
    lemma_mul_zero_one(m[0]);
    lemma_xor(gf_mul(1u8, m[0]), 0u8, 0u8);
    assert(row_dot(sys, 2, 0, m, 1) == row_dot(sys, 2, 0, m, 0) ^ gf_mul(entry(sys, 2, 0, 0), m[0]));
    assert(row_dot(sys, 2, 0, m, 1) == m[0]);
}

/// Every position where `after` differs from `before` lies in `changed`.
pub open spec fn covers_changes(before: Seq<u8>, after: Seq<u8>, changed: Set<int>) -> bool {
    forall|i: int| 0 <= i < before.len() && #[trigger] after[i] != before[i] ==> changed.contains(i)
}

/// Corrects errors in a codeword in place. Returns whether the result is a codeword;
/// at most `ecc_len / 2` positions are ever changed, and a codeword is left untouched. A word of
/// at most 255 symbols with one byte wrong, and at least two error correction symbols, is
/// repaired: the error is located by Berlekamp-Massey and the root search, its value solved
/// for, and `true` returned.
pub fn correct(codewords: &mut [u8], ecc_len: usize) -> (r: bool)
    requires
        ecc_len <= usize::MAX / 2,
        (ecc_len / 2) * (ecc_len / 2 + 1) <= usize::MAX,
    ensures
        final(codewords)@.len() == old(codewords)@.len(),
        r == is_codeword(final(codewords)@, ecc_len as nat),
        is_codeword(old(codewords)@, ecc_len as nat) ==> final(codewords)@ == old(codewords)@,
        exists|changed: Set<int>|
            #[trigger] covers_changes(old(codewords)@, final(codewords)@, changed) && changed.finite()
                && changed.len() <= ecc_len / 2,
        forall|v: Seq<u8>, p: int| #[trigger] one_error_from(v, p, old(codewords)@, ecc_len as nat) ==> r && final(codewords)@ == v,
{
    let ghost start = codewords@;
    let ghost empty: Set<int> = Set::empty();
    proof {
        assert(empty.len() == 0);
        assert(covers_changes(start, start, empty));
    }
    if ecc_len == 0 {
        return true;
    }
    let no_second: Vec<u8> = Vec::new();
    let syndrome_values = syndromes(codewords, no_second.as_slice(), ecc_len);
    proof {
        assert(codewords@ + no_second@ =~= codewords@);
    }
    let mut i: usize = 0;
    let mut all_zero = true;
    while i < ecc_len
        invariant
            syndrome_values@ == Seq::new(ecc_len as nat, |k: int| syndrome(codewords@, k as nat)),
            i <= ecc_len,
            all_zero == forall|k: nat| k < i ==> #[trigger] syndrome(codewords@, k) == 0,
        decreases ecc_len - i,
    {
        if syndrome_values[i] != 0 {
            all_zero = false;
        }
        i = i + 1;
    }
    let ghost n = start.len();
    let ghost single = |p: int| seq![1u8, alpha_pow((n - 1 - p) as nat)];
    if all_zero {
        proof {
            assert forall|v: Seq<u8>, p: int| #[trigger] one_error_from(v, p, start, ecc_len as nat) implies false by {
                lemma_one_error_syndromes(v, p, start, ecc_len as nat);
                assert(syndrome(start, 0) == 0);
            }
        }
        return true;
    }
    let locator = error_locator(syndrome_values.as_slice());
    proof {
        assert forall|v: Seq<u8>, p: int| #[trigger] one_error_from(v, p, start, ecc_len as nat) implies locator@ == single(p)
            && error_positions(locator@, n, n) == seq![p as usize] by {
            lemma_one_error_syndromes(v, p, start, ecc_len as nat);
            assert(syndrome_values@ =~= Seq::new(ecc_len as nat, |k: int| syndrome(start, k as nat)));
            lemma_single_root(n, p as nat, n);
        }
    }
    let error_count = locator.len() - 1;
    if error_count == 0 || error_count > ecc_len / 2 {
        proof {
            assert forall|v: Seq<u8>, p: int| #[trigger] one_error_from(v, p, start, ecc_len as nat) implies false by {
                assert(locator@ == single(p));
            }
        }
        return false;
    }
    let located = find_error_locations(locator.as_slice(), codewords.len());
    let locations = match located {
        Some(v) => v,
        None => {
            proof {
                assert forall|v: Seq<u8>, p: int| #[trigger] one_error_from(v, p, start, ecc_len as nat) implies false by {
                    assert(locator@ == single(p));
                    assert(error_positions(locator@, n, n) == seq![p as usize]);
                }
            }
            return false;
        },
    };
    if locations.len() != error_count {
        proof {
            assert forall|v: Seq<u8>, p: int| #[trigger] one_error_from(v, p, start, ecc_len as nat) implies false by {
                assert(locator@ == single(p));
            }
        }
        return false;
    }
    proof {
        assert forall|v: Seq<u8>, p: int| #[trigger] one_error_from(v, p, start, ecc_len as nat) implies locations@ == seq![p as usize] by {
            assert(locator@ == single(p));
            assert(error_positions(locator@, n, n) == seq![p as usize]);
        }
    }
    proof {
        lemma_error_positions_bounded(locator@, codewords@.len() as nat, codewords@.len() as nat);
    }
    proof {
        assert(error_count * (error_count + 1) <= (ecc_len / 2) * (ecc_len / 2 + 1)) by (nonlinear_arith)
            requires
                error_count <= ecc_len / 2,
        ;
    }
    let solved = error_magnitudes(syndrome_values.as_slice(), locations.as_slice(), codewords.len());
    let magnitudes = match solved {
        Some(v) => v,
        None => {
            proof {
                assert forall|v: Seq<u8>, p: int| #[trigger] one_error_from(v, p, start, ecc_len as nat) implies false by {
                    assert(locations@ == seq![p as usize]);
                    let c = choose|c: Seq<u8>|
                        c.len() == locations@.len() && (exists|j: int| 0 <= j < c.len() && #[trigger] c[j] != 0)
                            && #[trigger] in_kernel(magnitude_system(syndrome_values@, locations@, n), locations@.len() as int, c);
                    lemma_single_magnitude(syndrome_values@, p as usize, n, c);
                }
            }
            return false;
        },
    };
    proof {
        assert forall|v: Seq<u8>, p: int| #[trigger] one_error_from(v, p, start, ecc_len as nat) implies magnitudes@[0] == syndrome_values@[0] by {
            assert(locations@ == seq![p as usize]);
            lemma_single_magnitude(syndrome_values@, p as usize, n, magnitudes@);
        }
    }
    let mut k: usize = 0;
    while k < locations.len()
        invariant
            codewords@.len() == start.len(),
            magnitudes@.len() == locations@.len(),
            k <= locations@.len(),
            forall|i: int| 0 <= i < locations@.len() ==> #[trigger] locations@[i] < start.len(),
            forall|i: int|
                0 <= i < start.len() && codewords@[i] != start[i] ==> locations@.map_values(
                    |v: usize| v as int,
                ).contains(i),
            locations@.len() == 1 ==> (k == 0 ==> codewords@ == start) && (k == 1 ==> codewords@ == start.update(
                locations@[0] as int,
                start[locations@[0] as int] ^ magnitudes@[0],
            )),
        decreases locations@.len() - k,
    {
        let position = locations[k];
        let value = codewords[position] ^ magnitudes[k];
        codewords[position] = value;
        proof {
            assert(locations@.map_values(|v: usize| v as int)[k as int] == position as int);
        }
        k = k + 1;
    }
    proof {
        let changed = locations@.map_values(|v: usize| v as int).to_set();
        vstd::seq_lib::seq_to_set_is_finite(locations@.map_values(|v: usize| v as int));
        locations@.map_values(|v: usize| v as int).lemma_cardinality_of_set();
        assert(covers_changes(start, codewords@, changed));
    }
    let result = check_segments(codewords, no_second.as_slice(), ecc_len);
    proof {
        assert(codewords@ + no_second@ =~= codewords@);
        assert forall|v: Seq<u8>, p: int| #[trigger] one_error_from(v, p, start, ecc_len as nat) implies result && codewords@ == v by {
            assert(locations@ == seq![p as usize]);
            assert(magnitudes@[0] == syndrome_values@[0]);
            lemma_one_error_syndromes(v, p, start, ecc_len as nat);
            assert(syndrome_values@ =~= Seq::new(ecc_len as nat, |k: int| syndrome(start, k as nat)));
            lemma_xor_regroup(start[p], v[p], 0u8);
            assert(codewords@ =~= v);
        }
    }
    result
}

} // verus!
