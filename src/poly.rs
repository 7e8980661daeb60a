use vstd::prelude::*;
use vstd::set_lib::{lemma_int_range, lemma_map_size, lemma_subset_equality, set_int_range};

verus! {

/// The irreducible polynomials of degree eight over GF(2) that a field can be
/// built on. Each variant is named after the polynomial written as a 9-bit
/// number in hex; the `x^8` term is implicit in the stored coefficients.
#[derive(Copy, Clone, Debug, PartialEq, Eq, Structural)]
pub enum Poly {
    /// `x^8 + x^4 + x^3 + x + 1`
    Poly11b,
    /// `x^8 + x^4 + x^3 + x^2 + 1`
    Poly11d,
    /// `x^8 + x^5 + x^3 + x + 1`
    Poly12b,
    /// `x^8 + x^5 + x^3 + x^2 + 1`
    Poly12d,
    /// `x^8 + x^5 + x^4 + x^3 + 1`
    Poly139,
    /// `x^8 + x^5 + x^4 + x^3 + x^2 + x + 1`
    Poly13f,
    /// `x^8 + x^6 + x^3 + x^2 + 1`
    Poly14d,
    /// `x^8 + x^6 + x^4 + x^3 + x^2 + x + 1`
    Poly15f,
    /// `x^8 + x^6 + x^5 + x + 1`
    Poly163,
    /// `x^8 + x^6 + x^5 + x^2 + 1`
    Poly165,
    /// `x^8 + x^6 + x^5 + x^3 + 1`
    Poly169,
    /// `x^8 + x^6 + x^5 + x^4 + 1`
    Poly171,
    /// `x^8 + x^6 + x^5 + x^4 + x^2 + x + 1`
    Poly177,
    /// `x^8 + x^6 + x^5 + x^4 + x^3 + x + 1`
    Poly17b,
    /// `x^8 + x^7 + x^2 + x + 1`
    Poly187,
    /// `x^8 + x^7 + x^3 + x + 1`
    Poly18b,
    /// `x^8 + x^7 + x^3 + x^2 + 1`
    Poly18d,
    /// `x^8 + x^7 + x^4 + x^3 + x^2 + x + 1`
    Poly19f,
    /// `x^8 + x^7 + x^5 + x + 1`
    Poly1a3,
    /// `x^8 + x^7 + x^5 + x^3 + 1`
    Poly1a9,
    /// `x^8 + x^7 + x^5 + x^4 + 1`
    Poly1b1,
    /// `x^8 + x^7 + x^5 + x^4 + x^3 + x^2 + 1`
    Poly1bd,
    /// `x^8 + x^7 + x^6 + x + 1`
    Poly1c3,
    /// `x^8 + x^7 + x^6 + x^3 + x^2 + x + 1`
    Poly1cf,
    /// `x^8 + x^7 + x^6 + x^4 + x^2 + x + 1`
    Poly1d7,
    /// `x^8 + x^7 + x^6 + x^4 + x^3 + x^2 + 1`
    Poly1dd,
    /// `x^8 + x^7 + x^6 + x^5 + x^2 + x + 1`
    Poly1e7,
    /// `x^8 + x^7 + x^6 + x^5 + x^4 + x + 1`
    Poly1f3,
    /// `x^8 + x^7 + x^6 + x^5 + x^4 + x^2 + 1`
    Poly1f5,
    /// `x^8 + x^7 + x^6 + x^5 + x^4 + x^3 + 1`
    Poly1f9,
}

impl Poly {
    /// The low eight coefficients of the polynomial (the `x^8` term is implied).
    pub open spec fn spec_coefficients(self) -> u8 {
        match self {
            Poly::Poly11b => 0x1b,
            Poly::Poly11d => 0x1d,
            Poly::Poly12b => 0x2b,
            Poly::Poly12d => 0x2d,
            Poly::Poly139 => 0x39,
            Poly::Poly13f => 0x3f,
            Poly::Poly14d => 0x4d,
            Poly::Poly15f => 0x5f,
            Poly::Poly163 => 0x63,
            Poly::Poly165 => 0x65,
            Poly::Poly169 => 0x69,
            Poly::Poly171 => 0x71,
            Poly::Poly177 => 0x77,
            Poly::Poly17b => 0x7b,
            Poly::Poly187 => 0x87,
            Poly::Poly18b => 0x8b,
            Poly::Poly18d => 0x8d,
            Poly::Poly19f => 0x9f,
            Poly::Poly1a3 => 0xa3,
            Poly::Poly1a9 => 0xa9,
            Poly::Poly1b1 => 0xb1,
            Poly::Poly1bd => 0xbd,
            Poly::Poly1c3 => 0xc3,
            Poly::Poly1cf => 0xcf,
            Poly::Poly1d7 => 0xd7,
            Poly::Poly1dd => 0xdd,
            Poly::Poly1e7 => 0xe7,
            Poly::Poly1f3 => 0xf3,
            Poly::Poly1f5 => 0xf5,
            Poly::Poly1f9 => 0xf9,
        }
    }

    /// A primitive element of the field built on this polynomial.
    pub open spec fn spec_generator(self) -> u8 {
        match self {
            Poly::Poly11b => 3,
            Poly::Poly11d => 2,
            Poly::Poly12b => 2,
            Poly::Poly12d => 2,
            Poly::Poly139 => 3,
            Poly::Poly13f => 3,
            Poly::Poly14d => 2,
            Poly::Poly15f => 2,
            Poly::Poly163 => 2,
            Poly::Poly165 => 2,
            Poly::Poly169 => 2,
            Poly::Poly171 => 2,
            Poly::Poly177 => 3,
            Poly::Poly17b => 9,
            Poly::Poly187 => 2,
            Poly::Poly18b => 6,
            Poly::Poly18d => 2,
            Poly::Poly19f => 3,
            Poly::Poly1a3 => 3,
            Poly::Poly1a9 => 2,
            Poly::Poly1b1 => 6,
            Poly::Poly1bd => 7,
            Poly::Poly1c3 => 2,
            Poly::Poly1cf => 2,
            Poly::Poly1d7 => 7,
            Poly::Poly1dd => 6,
            Poly::Poly1e7 => 2,
            Poly::Poly1f3 => 6,
            Poly::Poly1f5 => 2,
            Poly::Poly1f9 => 3,
        }
    }

    pub fn coefficients(&self) -> (r: u8)
        ensures
            r == self.spec_coefficients(),
    {
        match self {
            Poly::Poly11b => 0x1b,
            Poly::Poly11d => 0x1d,
            Poly::Poly12b => 0x2b,
            Poly::Poly12d => 0x2d,
            Poly::Poly139 => 0x39,
            Poly::Poly13f => 0x3f,
            Poly::Poly14d => 0x4d,
            Poly::Poly15f => 0x5f,
            Poly::Poly163 => 0x63,
            Poly::Poly165 => 0x65,
            Poly::Poly169 => 0x69,
            Poly::Poly171 => 0x71,
            Poly::Poly177 => 0x77,
            Poly::Poly17b => 0x7b,
            Poly::Poly187 => 0x87,
            Poly::Poly18b => 0x8b,
            Poly::Poly18d => 0x8d,
            Poly::Poly19f => 0x9f,
            Poly::Poly1a3 => 0xa3,
            Poly::Poly1a9 => 0xa9,
            Poly::Poly1b1 => 0xb1,
            Poly::Poly1bd => 0xbd,
            Poly::Poly1c3 => 0xc3,
            Poly::Poly1cf => 0xcf,
            Poly::Poly1d7 => 0xd7,
            Poly::Poly1dd => 0xdd,
            Poly::Poly1e7 => 0xe7,
            Poly::Poly1f3 => 0xf3,
            Poly::Poly1f5 => 0xf5,
            Poly::Poly1f9 => 0xf9,
        }
    }

    pub fn generator(&self) -> (r: u8)
        ensures
            r == self.spec_generator(),
    {
        match self {
            Poly::Poly11b => 3,
            Poly::Poly11d => 2,
            Poly::Poly12b => 2,
            Poly::Poly12d => 2,
            Poly::Poly139 => 3,
            Poly::Poly13f => 3,
            Poly::Poly14d => 2,
            Poly::Poly15f => 2,
            Poly::Poly163 => 2,
            Poly::Poly165 => 2,
            Poly::Poly169 => 2,
            Poly::Poly171 => 2,
            Poly::Poly177 => 3,
            Poly::Poly17b => 9,
            Poly::Poly187 => 2,
            Poly::Poly18b => 6,
            Poly::Poly18d => 2,
            Poly::Poly19f => 3,
            Poly::Poly1a3 => 3,
            Poly::Poly1a9 => 2,
            Poly::Poly1b1 => 6,
            Poly::Poly1bd => 7,
            Poly::Poly1c3 => 2,
            Poly::Poly1cf => 2,
            Poly::Poly1d7 => 7,
            Poly::Poly1dd => 6,
            Poly::Poly1e7 => 2,
            Poly::Poly1f3 => 6,
            Poly::Poly1f5 => 2,
            Poly::Poly1f9 => 3,
        }
    }
}

/// Multiplication by `x` modulo `x^8 + m`.
pub open spec fn xtime(a: u8, m: u8) -> u8 {
    if a & 0x80u8 == 0 {
        (a << 1u8) as u8
    } else {
        ((a << 1u8) as u8) ^ m
    }
}

/// Shift-and-add multiplication, `rounds` bits of `b` at most: bit 0 of `b`
/// contributes `a`, and the remaining bits multiply `x * a`.
pub open spec fn peasant(a: u8, b: u8, m: u8, rounds: nat) -> u8
    decreases rounds,
{
    if rounds == 0 || b == 0 {
        0
    } else {
        let rest = peasant(xtime(a, m), b >> 1u8, m, (rounds - 1) as nat);
        if b & 1u8 == 1 {
            a ^ rest
        } else {
            rest
        }
    }
}

/// The product of `a` and `b` in GF(2)[x] / (x^8 + m).
pub open spec fn gf_mul(a: u8, b: u8, m: u8) -> u8 {
    peasant(a, b, m, 8)
}

/// `g` raised to the power `n` modulo `x^8 + m`.
pub open spec fn gf_pow(g: u8, m: u8, n: nat) -> u8
    decreases n,
{
    if n == 0 {
        1
    } else {
        let prev = gf_pow(g, m, (n - 1) as nat);
        gf_mul(prev, g, m)
    }
}

/// None of the `k` values `x`, `x * g`, `x * g^2`, ... is 0 or 1.
pub open spec fn avoids_zero_and_one(g: u8, m: u8, x: u8, k: nat) -> bool
    decreases k,
{
    k == 0 || (x != 0 && x != 1 && avoids_zero_and_one(g, m, gf_mul(x, g, m), (k - 1) as nat))
}

/// The powers `g^1 .. g^254` differ from 0 and 1, and `g^255 == 1`.
pub open spec fn generates_all_nonzero(g: u8, m: u8) -> bool {
    avoids_zero_and_one(g, m, gf_pow(g, m, 1), 254) && gf_pow(g, m, 255) == 1
}

/// `poly_mul` in the multiplication rounds: XOR regroups.
proof fn lemma_xor_regroup(z: u8, a: u8, r: u8)
    by (bit_vector)
    ensures
        (z ^ a) ^ r == z ^ (a ^ r),
        0u8 ^ r == r,
        z ^ 0u8 == z,
{
}

/// A nonzero byte with no bits at or above `rounds` loses one such round when
/// halved, and halving makes it smaller.
proof fn lemma_halve(y: u8, rounds: u8)
    by (bit_vector)
    requires
        y != 0,
        rounds <= 8,
        y >> rounds == 0,
    ensures
        rounds >= 1,
        (y >> 1u8) >> ((rounds - 1) as u8) == 0,
        y >> 1u8 < y,
        (y & 1u8 == 1) == (y & 1u8 != 0),
{
}

proof fn lemma_no_bits_above_eight(y: u8)
    by (bit_vector)
    ensures
        y >> 8u8 == 0,
{
}

/// Multiplies `x` by `y` in GF(2)[x] / (x^8 + c), where `c` is the polynomial's
/// stored coefficients, by shifting and adding one bit of `y` at a time.
pub fn poly_mul(x: u8, y: u8, p: Poly) -> (r: u8)
    ensures
        r == gf_mul(x, y, p.spec_coefficients()),
{
    let m = p.coefficients();
    let mut x = x;
    let mut y = y;
    let mut z: u8 = 0;
    let ghost target = gf_mul(x, y, m);
    let ghost mut rounds: u8 = 8;
    proof {
        lemma_no_bits_above_eight(y);
        lemma_xor_regroup(z, z, target);
    }
    while y != 0
        invariant
            rounds <= 8,
            y >> rounds == 0,
            z ^ peasant(x, y, m, rounds as nat) == target,
        decreases y,
    {
        proof {
            lemma_halve(y, rounds);
        }
        let ghost rest = peasant(xtime(x, m), y >> 1u8, m, (rounds - 1) as nat);
        let ghost next_x = xtime(x, m);
        let low_y = (y & 1) != 0;
        let high_x = (x & 0x80) != 0;
        if low_y {
            proof {
                lemma_xor_regroup(z, x, rest);
            }
            z ^= x;
        }
        y >>= 1;
        x <<= 1;
        if high_x {
            x ^= m;
        }
        proof {
            assert(x == next_x);
            rounds = (rounds - 1) as u8;
        }
    }
    proof {
        lemma_xor_regroup(z, z, 0);
    }
    z
}

/// Checked by evaluation: every catalog generator has order 255.
proof fn lemma_catalog_orbits()
    by (bit_vector)
    ensures
        generates_all_nonzero(3, 0x1b),
        generates_all_nonzero(2, 0x1d),
        generates_all_nonzero(2, 0x2b),
        generates_all_nonzero(2, 0x2d),
        generates_all_nonzero(3, 0x39),
        generates_all_nonzero(3, 0x3f),
        generates_all_nonzero(2, 0x4d),
        generates_all_nonzero(2, 0x5f),
        generates_all_nonzero(2, 0x63),
        generates_all_nonzero(2, 0x65),
        generates_all_nonzero(2, 0x69),
        generates_all_nonzero(2, 0x71),
        generates_all_nonzero(3, 0x77),
        generates_all_nonzero(9, 0x7b),
        generates_all_nonzero(2, 0x87),
        generates_all_nonzero(6, 0x8b),
        generates_all_nonzero(2, 0x8d),
        generates_all_nonzero(3, 0x9f),
        generates_all_nonzero(3, 0xa3),
        generates_all_nonzero(2, 0xa9),
        generates_all_nonzero(6, 0xb1),
        generates_all_nonzero(7, 0xbd),
        generates_all_nonzero(2, 0xc3),
        generates_all_nonzero(2, 0xcf),
        generates_all_nonzero(7, 0xd7),
        generates_all_nonzero(6, 0xdd),
        generates_all_nonzero(2, 0xe7),
        generates_all_nonzero(6, 0xf3),
        generates_all_nonzero(2, 0xf5),
        generates_all_nonzero(3, 0xf9),
{
}


/// `g^n` for the generator and polynomial of a catalog entry.
pub open spec fn gen_pow(p: Poly, n: nat) -> u8 {
    gf_pow(p.spec_generator(), p.spec_coefficients(), n)
}

/// The exponent below 255 at which `g` reaches `v`.
pub open spec fn gf_log(g: u8, m: u8, v: u8) -> nat {
    choose|i: nat| i < 255 && gf_pow(g, m, i) == v
}

/// The discrete logarithm of `v` base the catalog entry's generator.
pub open spec fn dlog(p: Poly, v: u8) -> nat {
    gf_log(p.spec_generator(), p.spec_coefficients(), v)
}

proof fn lemma_avoids(g: u8, m: u8, j: nat, k: nat)
    requires
        avoids_zero_and_one(g, m, gf_pow(g, m, j), k),
    ensures
        forall|t: nat| t < k ==> #[trigger] gf_pow(g, m, j + t) != 0 && gf_pow(g, m, j + t) != 1,
    decreases k,
{
    if k > 0 {
        assert(gf_mul(gf_pow(g, m, j), g, m) == gf_pow(g, m, j + 1));
        lemma_avoids(g, m, j + 1, (k - 1) as nat);
        assert forall|t: nat| t < k implies #[trigger] gf_pow(g, m, j + t) != 0 && gf_pow(g, m, j + t)
            != 1 by {
            if t > 0 {
                assert(j + t == (j + 1) + (t - 1) as nat);
            }
        }
    }
}

/// Equal powers stay equal when both exponents grow by the same amount.
proof fn lemma_shift(g: u8, m: u8, i: nat, j: nat, t: nat)
    requires
        gf_pow(g, m, i) == gf_pow(g, m, j),
    ensures
        gf_pow(g, m, i + t) == gf_pow(g, m, j + t),
    decreases t,
{
    if t > 0 {
        lemma_shift(g, m, i, j, (t - 1) as nat);
        assert(gf_pow(g, m, i + t) == gf_mul(gf_pow(g, m, (i + t - 1) as nat), g, m));
        assert(gf_pow(g, m, j + t) == gf_mul(gf_pow(g, m, (j + t - 1) as nat), g, m));
    }
}

proof fn lemma_periodic(g: u8, m: u8, n: nat)
    requires
        gf_pow(g, m, 255) == 1,
    ensures
        gf_pow(g, m, n) == gf_pow(g, m, n % 255),
    decreases n,
{
    if n >= 255 {
        lemma_periodic(g, m, (n - 255) as nat);
        lemma_shift(g, m, 0, 255, (n - 255) as nat);
        assert((n - 255) as nat % 255 == n % 255) by (nonlinear_arith)
            requires
                n >= 255,
        ;
    } else {
        assert(n % 255 == n);
    }
}

/// The facts about the powers of `g` that follow from `generates_all_nonzero`.
proof fn lemma_order_255(g: u8, m: u8)
    requires
        generates_all_nonzero(g, m),
    ensures
        gf_pow(g, m, 255) == 1,
        forall|n: nat| #[trigger] gf_pow(g, m, n) == gf_pow(g, m, n % 255),
        forall|n: nat| #[trigger] gf_pow(g, m, n) != 0,
        forall|k: nat| 0 < k < 255 ==> #[trigger] gf_pow(g, m, k) != 1,
        forall|i: nat, j: nat|
            i < j < 255 ==> #[trigger] gf_pow(g, m, i) != #[trigger] gf_pow(g, m, j),
        forall|v: u8|
            v != 0 ==> #[trigger] gf_log(g, m, v) < 255 && gf_pow(g, m, gf_log(g, m, v)) == v,
        forall|i: nat| i < 255 ==> gf_log(g, m, #[trigger] gf_pow(g, m, i)) == i,
{
    lemma_avoids(g, m, 1, 254);
    assert forall|k: nat| 0 < k < 255 implies #[trigger] gf_pow(g, m, k) != 1 && gf_pow(g, m, k)
        != 0 by {
        assert(k == 1 + (k - 1) as nat);
    }
    assert forall|n: nat| #[trigger] gf_pow(g, m, n) == gf_pow(g, m, n % 255) by {
        lemma_periodic(g, m, n);
    }
    assert forall|n: nat| #[trigger] gf_pow(g, m, n) != 0 by {
        lemma_periodic(g, m, n);
        if n % 255 == 0 {
        } else {
            assert(gf_pow(g, m, (n % 255) as nat) != 0);
        }
    }
    assert forall|i: nat, j: nat| i < j < 255 implies #[trigger] gf_pow(g, m, i) != #[trigger] gf_pow(
        g,
        m,
        j,
    ) by {
        if gf_pow(g, m, i) == gf_pow(g, m, j) {
            lemma_shift(g, m, i, j, (255 - j) as nat);
            assert(j + (255 - j) as nat == 255);
            let k = (i + (255 - j)) as nat;
            assert(0 < k < 255);
            assert(gf_pow(g, m, k) != 1);
        }
    }
    // 255 distinct nonzero powers fill all 255 nonzero bytes.
    let powers = set_int_range(0, 255);
    let f = |i: int| gf_pow(g, m, i as nat) as int;
    let nonzero = set_int_range(1, 256);
    lemma_int_range(0, 255);
    lemma_int_range(1, 256);
    assert forall|a: int, b: int| powers.contains(a) && powers.contains(b) && #[trigger] f(a) == #[trigger] f(b) implies a == b by {
        if a < b {
            assert(gf_pow(g, m, a as nat) != gf_pow(g, m, b as nat));
        } else if b < a {
            assert(gf_pow(g, m, b as nat) != gf_pow(g, m, a as nat));
        }
    }
    lemma_map_size(powers, powers.map(f), f);
    assert(powers.map(f).subset_of(nonzero));
    lemma_subset_equality(powers.map(f), nonzero);
    assert forall|v: u8| v != 0 implies #[trigger] gf_log(g, m, v) < 255 && gf_pow(
        g,
        m,
        gf_log(g, m, v),
    ) == v by {
        assert(nonzero.contains(v as int));
        assert(powers.map(f).contains(v as int));
        let i = choose|i: int| powers.contains(i) && f(i) == v as int;
        assert(gf_pow(g, m, i as nat) == v);
    }
    assert forall|i: nat| i < 255 implies gf_log(g, m, #[trigger] gf_pow(g, m, i)) == i by {
        let v = gf_pow(g, m, i);
        let l = gf_log(g, m, v);
        assert(gf_pow(g, m, l) == v && l < 255);
        if l < i {
            assert(gf_pow(g, m, l) != gf_pow(g, m, i));
        } else if i < l {
            assert(gf_pow(g, m, i) != gf_pow(g, m, l));
        }
    }
}

/// The multiplicative group is cyclic of order 255 and the catalog's generator
/// generates it: starting from 1, repeated multiplication by the generator
/// passes through every nonzero byte exactly once and is back at 1 after 255
/// steps.
pub proof fn lemma_generator_order(p: Poly)
    ensures
        gen_pow(p, 255) == 1,
        forall|k: nat| 0 < k < 255 ==> #[trigger] gen_pow(p, k) != 1,
        forall|i: nat, j: nat| i < j < 255 ==> #[trigger] gen_pow(p, i) != #[trigger] gen_pow(p, j),
        forall|v: u8| v != 0 ==> #[trigger] dlog(p, v) < 255 && gen_pow(p, dlog(p, v)) == v,
        forall|i: nat| i < 255 ==> dlog(p, #[trigger] gen_pow(p, i)) == i,
        forall|n: nat| #[trigger] gen_pow(p, n) != 0,
        forall|n: nat| #[trigger] gen_pow(p, n) == gen_pow(p, n % 255),
{
    lemma_catalog_orbits();
    lemma_order_255(p.spec_generator(), p.spec_coefficients());
}

/// One times anything is that thing; zero times anything is zero.
pub proof fn lemma_gf_mul_units(a: u8, m: u8)
    by (bit_vector)
    ensures
        gf_mul(1u8, a, m) == a,
        gf_mul(0u8, a, m) == 0,
{
}

/// Multiplying by the generator through logarithms agrees with the
/// polynomial product: `g^(log a + 1) == a * g` in GF(2)[x] / (x^8 + c).
pub proof fn lemma_generator_step(p: Poly, a: u8)
    requires
        a != 0,
    ensures
        dlog(p, p.spec_generator()) == 1,
        gen_pow(p, dlog(p, a) + 1) == gf_mul(a, p.spec_generator(), p.spec_coefficients()),
{
    lemma_generator_order(p);
    lemma_gf_mul_units(p.spec_generator(), p.spec_coefficients());
    assert(gen_pow(p, 1) == gf_mul(gen_pow(p, 0), p.spec_generator(), p.spec_coefficients()));
    assert(dlog(p, gen_pow(p, 1)) == 1);
    let l = dlog(p, a);
    assert(gen_pow(p, l + 1) == gf_mul(gen_pow(p, l), p.spec_generator(), p.spec_coefficients()));
}

} // verus!
