use vstd::prelude::*;

use vstd::std_specs::ops::{AddSpec, DivSpec, MulSpec};

use crate::poly::{
    dlog, gen_pow, gf_mul, lemma_generator_order, lemma_generator_step, lemma_gf_mul_units, poly_mul,
    Poly,
};

verus! {

/// The product of two bytes in the field built on `p`, through discrete
/// logarithms base the catalog generator: `g^(log a + log b)`, and 0 when
/// either factor is 0.
pub open spec fn field_mul(p: Poly, a: u8, b: u8) -> u8 {
    if a == 0 || b == 0 {
        0
    } else {
        gen_pow(p, dlog(p, a) + dlog(p, b))
    }
}

/// The quotient `a / b` for nonzero `b` in the field built on `p`:
/// `g^(255 + log a - log b)`, and 0 when `a` is 0.
pub open spec fn field_div(p: Poly, a: u8, b: u8) -> u8 {
    if a == 0 {
        0
    } else {
        gen_pow(p, (255 + dlog(p, a) - dlog(p, b)) as nat)
    }
}

/// GF(2^8) over one catalog polynomial, with its exponent and logarithm
/// tables. `exp` holds the powers of the generator twice over, so that a sum
/// or a shifted difference of two logarithms can index it directly.
#[derive(Debug)]
pub struct GF256 {
    exp: [u8; 510],
    log: [u8; 256],
    p: Poly,
}

impl GF256 {
    #[verifier::type_invariant]
    spec fn tables_match(self) -> bool {
        &&& forall|i: int| 0 <= i < 510 ==> #[trigger] self.exp@[i] == gen_pow(self.p, i as nat)
        &&& forall|v: int| 1 <= v < 256 ==> #[trigger] self.log@[v] == dlog(self.p, v as u8)
        &&& self.log@[0] == 255
    }

    pub closed spec fn poly(self) -> Poly {
        self.p
    }

    pub closed spec fn exp_table(self) -> Seq<u8> {
        self.exp@
    }

    pub closed spec fn log_table(self) -> Seq<u8> {
        self.log@
    }

    /// Builds the tables by walking the powers of the generator of `p`.
    pub fn new(p: Poly) -> (r: Self)
        ensures
            r.poly() == p,
            r.exp_table().len() == 510,
            r.log_table().len() == 256,
            forall|i: int| 0 <= i < 510 ==> #[trigger] r.exp_table()[i] == gen_pow(p, i as nat),
            forall|i: int| 0 <= i < 255 ==> r.log_table()[#[trigger] r.exp_table()[i] as int] == i,
            forall|v: int| 1 <= v < 256 ==> r.exp_table()[#[trigger] r.log_table()[v] as int] == v,
            forall|i: int| 0 <= i < 255 ==> #[trigger] r.exp_table()[i] == r.exp_table()[i + 255],
            r.log_table()[0] == 255,
    {
        let mut exp = [0u8; 510];
        let mut log = [0u8; 256];
        let g = p.generator();
        let mut x: u8 = 1;
        let mut i: u8 = 0;
        while i < 255
            invariant
                i <= 255,
                g == p.spec_generator(),
                x == gen_pow(p, i as nat),
                forall|j: int| 0 <= j < i ==> #[trigger] exp@[j] == gen_pow(p, j as nat),
                forall|k: int| 255 <= k < 255 + i ==> #[trigger] exp@[k] == gen_pow(p, (k - 255) as nat),
                forall|j: int| 0 <= j < i ==> log@[#[trigger] gen_pow(p, j as nat) as int] == j,
            decreases 255 - i,
        {
            proof {
                lemma_generator_order(p);
            }
            exp[i as usize] = x;
            exp[i as usize + 255] = x;
            log[x as usize] = i;
            assert forall|j: int| 0 <= j < i + 1 implies log@[#[trigger] gen_pow(p, j as nat) as int]
                == j by {
                if j < i {
                    assert(gen_pow(p, j as nat) != gen_pow(p, i as nat));
                }
            }
            x = poly_mul(x, g, p);
            i += 1;
        }
        proof {
            lemma_generator_order(p);
        }
        let ghost walked = log@;
        log[0] = 255;
        assert forall|i: int| 0 <= i < 510 implies #[trigger] exp@[i] == gen_pow(p, i as nat) by {
            if i >= 255 {
                assert(exp@[i] == gen_pow(p, (i - 255) as nat));
                assert(gen_pow(p, i as nat) == gen_pow(p, (i as nat) % 255));
                assert(gen_pow(p, (i - 255) as nat) == gen_pow(p, ((i - 255) as nat) % 255));
                assert((i as nat) % 255 == ((i - 255) as nat) % 255);
            }
        }
        assert forall|v: int| 1 <= v < 256 implies #[trigger] log@[v] == dlog(p, v as u8) by {
            let l = dlog(p, v as u8);
            assert(gen_pow(p, l) == v as u8);
            assert(0 <= l < 255);
            let j = l as int;
            assert(walked[gen_pow(p, j as nat) as int] == j);
            assert(gen_pow(p, j as nat) != 0);
        }
        let r = Self { exp, log, p };
        assert forall|i: int| 0 <= i < 255 implies r.log_table()[#[trigger] r.exp_table()[i] as int]
            == i by {
            assert(dlog(p, gen_pow(p, i as nat)) == i);
        }
        assert forall|i: int| 0 <= i < 255 implies #[trigger] r.exp_table()[i] == r.exp_table()[i
            + 255] by {
            assert(gen_pow(p, (i + 255) as nat) == gen_pow(p, ((i + 255) as nat) % 255));
            assert(((i + 255) as nat) % 255 == i);
        }
        r
    }
}

impl GF256 {
    /// Wraps the byte `x` as an element of this field.
    pub fn u8(&self, x: u8) -> (r: GFU8<'_>)
        ensures
            r.value() == x,
            r.poly() == self.poly(),
    {
        GFU8 { gf256: self, inner: x }
    }

    /// Same as `u8`.
    pub fn elem(&self, x: u8) -> (r: GFU8<'_>)
        ensures
            r.value() == x,
            r.poly() == self.poly(),
    {
        self.u8(x)
    }
}

/// A byte read as an element of the field whose tables it borrows.
#[derive(Copy, Clone, Debug)]
pub struct GFU8<'a> {
    gf256: &'a GF256,
    inner: u8,
}

impl<'a> GFU8<'a> {
    pub closed spec fn value(self) -> u8 {
        self.inner
    }

    pub closed spec fn poly(self) -> Poly {
        self.gf256.p
    }

    /// The element of the same field with byte `v`.
    pub closed spec fn with_value(self, v: u8) -> GFU8<'a> {
        GFU8 { gf256: self.gf256, inner: v }
    }

    pub proof fn lemma_with_value(self, v: u8)
        ensures
            self.with_value(v).value() == v,
            self.with_value(v).poly() == self.poly(),
    {
    }

    pub fn val(&self) -> (r: u8)
        ensures
            r == self.value(),
    {
        self.inner
    }

    /// `self / rhs`, or `None` when `rhs` is zero.
    pub fn checked_div(self, rhs: Self) -> (r: Option<Self>)
        requires
            self.poly() == rhs.poly(),
        ensures
            r is None <==> rhs.value() == 0,
            r is Some ==> r == Some(self.with_value(field_div(self.poly(), self.value(), rhs.value()))),
    {
        let a = self.inner;
        let b = rhs.inner;
        if b == 0 {
            return None;
        }
        proof {
            use_type_invariant(self.gf256);
            lemma_generator_order(self.gf256.p);
        }
        let c: u8 = if a == 0 {
            0
        } else {
            let log_a = self.gf256.log[a as usize];
            let log_b = self.gf256.log[b as usize];
            self.gf256.exp[255 + (log_a as usize) - (log_b as usize)]
        };
        Some(self.with_inner(c))
    }

    fn with_inner(self, c: u8) -> (r: Self)
        ensures
            r == self.with_value(c),
    {
        GFU8 { gf256: self.gf256, inner: c }
    }
}

impl<'a> vstd::std_specs::ops::AddSpecImpl for GFU8<'a> {
    open spec fn obeys_add_spec() -> bool {
        true
    }

    open spec fn add_req(self, rhs: Self) -> bool {
        self.poly() == rhs.poly()
    }

    open spec fn add_spec(self, rhs: Self) -> Self {
        self.with_value(self.value() ^ rhs.value())
    }
}

/// Addition in characteristic 2: bitwise exclusive or.
impl<'a> core::ops::Add for GFU8<'a> {
    type Output = GFU8<'a>;

    fn add(self, rhs: Self) -> Self::Output {
        let z = self.inner ^ rhs.inner;
        self.with_inner(z)
    }
}

impl<'a> vstd::std_specs::ops::SubSpecImpl for GFU8<'a> {
    open spec fn obeys_sub_spec() -> bool {
        true
    }

    open spec fn sub_req(self, rhs: Self) -> bool {
        self.poly() == rhs.poly()
    }

    open spec fn sub_spec(self, rhs: Self) -> Self {
        self.with_value(self.value() ^ rhs.value())
    }
}

/// Subtraction coincides with addition: every element is its own negative.
impl<'a> core::ops::Sub for GFU8<'a> {
    type Output = GFU8<'a>;

    fn sub(self, rhs: Self) -> Self::Output {
        self.with_inner(self.inner ^ rhs.inner)
    }
}

impl<'a> vstd::std_specs::ops::MulSpecImpl for GFU8<'a> {
    open spec fn obeys_mul_spec() -> bool {
        true
    }

    open spec fn mul_req(self, rhs: Self) -> bool {
        self.poly() == rhs.poly()
    }

    open spec fn mul_spec(self, rhs: Self) -> Self {
        self.with_value(field_mul(self.poly(), self.value(), rhs.value()))
    }
}

/// Multiplication by table lookup: the logarithms add.
impl<'a> core::ops::Mul for GFU8<'a> {
    type Output = GFU8<'a>;

    fn mul(self, rhs: Self) -> Self::Output {
        let a = self.inner;
        let b = rhs.inner;
        proof {
            use_type_invariant(self.gf256);
            lemma_generator_order(self.gf256.p);
        }
        let c: u8 = if a == 0 || b == 0 {
            0
        } else {
            let log_a = self.gf256.log[a as usize];
            let log_b = self.gf256.log[b as usize];
            self.gf256.exp[log_a as usize + log_b as usize]
        };
        self.with_inner(c)
    }
}

impl<'a> vstd::std_specs::ops::DivSpecImpl for GFU8<'a> {
    open spec fn obeys_div_spec() -> bool {
        true
    }

    open spec fn div_req(self, rhs: Self) -> bool {
        self.poly() == rhs.poly() && rhs.value() != 0
    }

    open spec fn div_spec(self, rhs: Self) -> Self {
        self.with_value(field_div(self.poly(), self.value(), rhs.value()))
    }
}

/// Division by table lookup: the logarithms subtract. Dividing by zero
/// panics, since zero has no inverse.
impl<'a> core::ops::Div for GFU8<'a> {
    type Output = GFU8<'a>;

    fn div(self, rhs: Self) -> Self::Output {
        self.checked_div(rhs).expect("divide by zero")
    }
}

proof fn lemma_xor_self(a: u8)
    by (bit_vector)
    ensures
        a ^ a == 0,
{
}

/// Every element is its own additive inverse: `x + x` is the field's zero.
pub proof fn lemma_add_self_is_zero(x: GFU8)
    ensures
        x.add_spec(x) == x.with_value(0),
{
    lemma_xor_self(x.value());
}

/// One is the multiplicative identity: `x * one == x`.
pub proof fn lemma_mul_one(x: GFU8, one: GFU8)
    requires
        one.poly() == x.poly(),
        one.value() == 1,
    ensures
        x.mul_spec(one) == x,
{
    let p = x.poly();
    lemma_generator_order(p);
    assert(dlog(p, gen_pow(p, 0)) == 0);
    if x.value() != 0 {
        assert(gen_pow(p, dlog(p, x.value()) + 0) == x.value());
    }
}

/// Zero absorbs: `x * zero` is the field's zero.
pub proof fn lemma_mul_zero(x: GFU8, zero: GFU8)
    requires
        zero.poly() == x.poly(),
        zero.value() == 0,
    ensures
        x.mul_spec(zero) == x.with_value(0),
        x.mul_spec(zero).value() == zero.value(),
        x.mul_spec(zero).poly() == zero.poly(),
{
}

/// Division undoes multiplication: `(x * y) / y == x` for nonzero `x` and `y`.
pub proof fn lemma_div_inverts_mul(x: GFU8, y: GFU8)
    requires
        x.poly() == y.poly(),
        x.value() != 0,
        y.value() != 0,
    ensures
        x.mul_spec(y).value() != 0,
        x.mul_spec(y).div_spec(y) == x,
{
    let p = x.poly();
    lemma_generator_order(p);
    let la = dlog(p, x.value());
    let lb = dlog(p, y.value());
    let c = gen_pow(p, la + lb);
    assert(c == gen_pow(p, (la + lb) % 255));
    assert(dlog(p, c) == (la + lb) % 255);
    let e = (255 + dlog(p, c) - lb) as nat;
    if la + lb < 255 {
        assert(e == 255 + la);
        assert(e % 255 == la);
    } else {
        assert((la + lb) % 255 == la + lb - 255);
        assert(e == la);
    }
    assert(gen_pow(p, e) == gen_pow(p, e % 255));
    assert(gen_pow(p, la) == x.value());
}

/// Multiplying an element by the generator through the tables gives the
/// polynomial product of `poly_mul`.
pub proof fn lemma_mul_by_generator(x: GFU8, g: GFU8)
    requires
        g.poly() == x.poly(),
        g.value() == x.poly().spec_generator(),
    ensures
        x.mul_spec(g).value() == gf_mul(x.value(), g.value(), x.poly().spec_coefficients()),
{
    let p = x.poly();
    lemma_gf_mul_units(g.value(), p.spec_coefficients());
    lemma_generator_order(p);
    if x.value() != 0 {
        lemma_generator_step(p, x.value());
    }
}

} // verus!
