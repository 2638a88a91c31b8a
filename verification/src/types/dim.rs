//! Dimensional vector algebra over the seven SI base dimensions.
//!
//! Each physical quantity is a vector of integer exponents
//! `[m, s, kg, A, K, mol, cd]`: velocity is `[1, -1, 0, 0, 0, 0, 0]`,
//! force `[1, -2, 1, 0, 0, 0, 0]`.
use vstd::prelude::*;
use crate::ast::{DimExpr, Spanned};
use crate::text::{push_char, push_i64, push_str, int_digits, nat_digits, usize_to_string, str_eq};

verus! {

/// Fixed-size exponent vector over the seven SI base dimensions.
#[derive(Debug, Clone, Copy, PartialEq, Eq, Hash, Default)]
pub struct DimVector(pub [i8; 7]);

/// An exponent clamped into the range of `i8`.
pub open spec fn sat_i8(x: int) -> i8 {
    if x > 127 { 127i8 } else if x < -128 { -128i8 } else { x as i8 }
}

/// Exponent `i` of a dimension vector.
pub open spec fn exp(v: DimVector, i: int) -> i8 {
    v.0@[i]
}

/// The product of two quantities: exponents add, saturating at the `i8` bounds.
pub open spec fn spec_mul(a: DimVector, b: DimVector) -> DimVector {
    DimVector([
        sat_i8(a.0@[0] + b.0@[0]), sat_i8(a.0@[1] + b.0@[1]), sat_i8(a.0@[2] + b.0@[2]),
        sat_i8(a.0@[3] + b.0@[3]), sat_i8(a.0@[4] + b.0@[4]), sat_i8(a.0@[5] + b.0@[5]),
        sat_i8(a.0@[6] + b.0@[6]),
    ])
}

/// The quotient of two quantities: exponents subtract, saturating at the `i8` bounds.
pub open spec fn spec_div(a: DimVector, b: DimVector) -> DimVector {
    DimVector([
        sat_i8(a.0@[0] - b.0@[0]), sat_i8(a.0@[1] - b.0@[1]), sat_i8(a.0@[2] - b.0@[2]),
        sat_i8(a.0@[3] - b.0@[3]), sat_i8(a.0@[4] - b.0@[4]), sat_i8(a.0@[5] - b.0@[5]),
        sat_i8(a.0@[6] - b.0@[6]),
    ])
}

/// One exponent raised to the power `n`: the product, saturating at the
/// `i8` bounds.
pub open spec fn pow_exp(e: i8, n: i32) -> i8 {
    sat_i8(e * n)
}

/// A quantity raised to an integer power: every exponent is scaled by `n`.
pub open spec fn spec_pow(a: DimVector, n: i32) -> DimVector {
    DimVector([
        pow_exp(a.0@[0], n), pow_exp(a.0@[1], n), pow_exp(a.0@[2], n), pow_exp(a.0@[3], n),
        pow_exp(a.0@[4], n), pow_exp(a.0@[5], n), pow_exp(a.0@[6], n),
    ])
}

/// All exponents are zero.
pub open spec fn spec_is_dimensionless(a: DimVector) -> bool {
    forall|i: int| 0 <= i < 7 ==> #[trigger] a.0@[i] == 0
}

/// The dimensionless vector.
pub open spec fn spec_dimensionless() -> DimVector {
    DimVector([0i8, 0i8, 0i8, 0i8, 0i8, 0i8, 0i8])
}

fn sat_add(a: i8, b: i8) -> (r: i8)
    ensures
        r == sat_i8(a + b),
{
    let s: i16 = a as i16 + b as i16;
    if s > 127 { 127 } else if s < -128 { -128 } else { s as i8 }
}

fn sat_sub(a: i8, b: i8) -> (r: i8)
    ensures
        r == sat_i8(a - b),
{
    let s: i16 = a as i16 - b as i16;
    if s > 127 { 127 } else if s < -128 { -128 } else { s as i8 }
}

fn pow_one(a: i8, n: i32) -> (r: i8)
    ensures
        r == pow_exp(a, n),
{
    proof {
        let ai = a as int;
        let ni = n as int;
        assert(-128 <= ai <= 127 && -2147483648 <= ni <= 2147483647 ==> -274877906944 <= ai * ni <= 274877906944) by (nonlinear_arith);
    }
    let p: i64 = a as i64 * n as i64;
    if p > 127 { 127 } else if p < -128 { -128 } else { p as i8 }
}

impl DimVector {
    pub const LEN: usize = 7;

    /// The dimensionless scalar (all exponents zero).
    #[allow(non_snake_case)]
    #[verifier::allow_in_spec]
    pub fn DIMENSIONLESS() -> DimVector
        returns
            DimVector([0i8, 0i8, 0i8, 0i8, 0i8, 0i8, 0i8]),
    {
        DimVector([0i8, 0i8, 0i8, 0i8, 0i8, 0i8, 0i8])
    }

    #[allow(non_snake_case)]
    #[verifier::allow_in_spec]
    pub fn M() -> DimVector
        returns
            DimVector([1i8, 0i8, 0i8, 0i8, 0i8, 0i8, 0i8]),
    {
        DimVector([1i8, 0i8, 0i8, 0i8, 0i8, 0i8, 0i8])
    }
    #[allow(non_snake_case)]
    #[verifier::allow_in_spec]
    pub fn S() -> DimVector
        returns
            DimVector([0i8, 1i8, 0i8, 0i8, 0i8, 0i8, 0i8]),
    {
        DimVector([0i8, 1i8, 0i8, 0i8, 0i8, 0i8, 0i8])
    }
    #[allow(non_snake_case)]
    #[verifier::allow_in_spec]
    pub fn KG() -> DimVector
        returns
            DimVector([0i8, 0i8, 1i8, 0i8, 0i8, 0i8, 0i8]),
    {
        DimVector([0i8, 0i8, 1i8, 0i8, 0i8, 0i8, 0i8])
    }
    #[allow(non_snake_case)]
    #[verifier::allow_in_spec]
    pub fn A() -> DimVector
        returns
            DimVector([0i8, 0i8, 0i8, 1i8, 0i8, 0i8, 0i8]),
    {
        DimVector([0i8, 0i8, 0i8, 1i8, 0i8, 0i8, 0i8])
    }
    #[allow(non_snake_case)]
    #[verifier::allow_in_spec]
    pub fn K() -> DimVector
        returns
            DimVector([0i8, 0i8, 0i8, 0i8, 1i8, 0i8, 0i8]),
    {
        DimVector([0i8, 0i8, 0i8, 0i8, 1i8, 0i8, 0i8])
    }
    #[allow(non_snake_case)]
    #[verifier::allow_in_spec]
    pub fn MOL() -> DimVector
        returns
            DimVector([0i8, 0i8, 0i8, 0i8, 0i8, 1i8, 0i8]),
    {
        DimVector([0i8, 0i8, 0i8, 0i8, 0i8, 1i8, 0i8])
    }
    #[allow(non_snake_case)]
    #[verifier::allow_in_spec]
    pub fn CD() -> DimVector
        returns
            DimVector([0i8, 0i8, 0i8, 0i8, 0i8, 0i8, 1i8]),
    {
        DimVector([0i8, 0i8, 0i8, 0i8, 0i8, 0i8, 1i8])
    }

    /// Velocity: m / s
    #[allow(non_snake_case)]
    #[verifier::allow_in_spec]
    pub fn VELOCITY() -> DimVector
        returns
            DimVector([1i8, -1i8, 0i8, 0i8, 0i8, 0i8, 0i8]),
    {
        DimVector([1i8, -1i8, 0i8, 0i8, 0i8, 0i8, 0i8])
    }
    /// Acceleration: m / s²
    #[allow(non_snake_case)]
    #[verifier::allow_in_spec]
    pub fn ACCELERATION() -> DimVector
        returns
            DimVector([1i8, -2i8, 0i8, 0i8, 0i8, 0i8, 0i8]),
    {
        DimVector([1i8, -2i8, 0i8, 0i8, 0i8, 0i8, 0i8])
    }
    /// Newton: kg·m / s²
    #[allow(non_snake_case)]
    #[verifier::allow_in_spec]
    pub fn NEWTON() -> DimVector
        returns
            DimVector([1i8, -2i8, 1i8, 0i8, 0i8, 0i8, 0i8]),
    {
        DimVector([1i8, -2i8, 1i8, 0i8, 0i8, 0i8, 0i8])
    }
    /// Joule: kg·m² / s²
    #[allow(non_snake_case)]
    #[verifier::allow_in_spec]
    pub fn JOULE() -> DimVector
        returns
            DimVector([2i8, -2i8, 1i8, 0i8, 0i8, 0i8, 0i8]),
    {
        DimVector([2i8, -2i8, 1i8, 0i8, 0i8, 0i8, 0i8])
    }
    /// Pascal: kg / (m·s²)
    #[allow(non_snake_case)]
    #[verifier::allow_in_spec]
    pub fn PASCAL() -> DimVector
        returns
            DimVector([-1i8, -2i8, 1i8, 0i8, 0i8, 0i8, 0i8]),
    {
        DimVector([-1i8, -2i8, 1i8, 0i8, 0i8, 0i8, 0i8])
    }
    /// Watt: kg·m² / s³
    #[allow(non_snake_case)]
    #[verifier::allow_in_spec]
    pub fn WATT() -> DimVector
        returns
            DimVector([2i8, -3i8, 1i8, 0i8, 0i8, 0i8, 0i8]),
    {
        DimVector([2i8, -3i8, 1i8, 0i8, 0i8, 0i8, 0i8])
    }
    /// Hertz: 1 / s
    #[allow(non_snake_case)]
    #[verifier::allow_in_spec]
    pub fn HERTZ() -> DimVector
        returns
            DimVector([0i8, -1i8, 0i8, 0i8, 0i8, 0i8, 0i8]),
    {
        DimVector([0i8, -1i8, 0i8, 0i8, 0i8, 0i8, 0i8])
    }

    /// Multiply two quantities: exponents add (saturating).
    pub fn mul(self, other: Self) -> (r: Self)
        ensures
            r == spec_mul(self, other),
    {
        let a = self.0;
        let b = other.0;
        DimVector([
            sat_add(a[0], b[0]), sat_add(a[1], b[1]), sat_add(a[2], b[2]), sat_add(a[3], b[3]),
            sat_add(a[4], b[4]), sat_add(a[5], b[5]), sat_add(a[6], b[6]),
        ])
    }

    /// Divide two quantities: exponents subtract (saturating).
    pub fn div(self, other: Self) -> (r: Self)
        ensures
            r == spec_div(self, other),
    {
        let a = self.0;
        let b = other.0;
        DimVector([
            sat_sub(a[0], b[0]), sat_sub(a[1], b[1]), sat_sub(a[2], b[2]), sat_sub(a[3], b[3]),
            sat_sub(a[4], b[4]), sat_sub(a[5], b[5]), sat_sub(a[6], b[6]),
        ])
    }

    /// Raise to an integer power: exponents scale by `n`.
    pub fn pow(self, n: i32) -> (r: Self)
        ensures
            r == spec_pow(self, n),
    {
        let a = self.0;
        DimVector([
            pow_one(a[0], n), pow_one(a[1], n), pow_one(a[2], n), pow_one(a[3], n),
            pow_one(a[4], n), pow_one(a[5], n), pow_one(a[6], n),
        ])
    }

    /// Same as [`DimVector::mul`].
    pub fn add(self, other: Self) -> (r: Self)
        ensures
            r == spec_mul(self, other),
    {
        self.mul(other)
    }

    /// Same as [`DimVector::div`].
    pub fn sub(self, other: Self) -> (r: Self)
        ensures
            r == spec_div(self, other),
    {
        self.div(other)
    }

    /// Whether all exponents are zero.
    pub fn is_dimensionless(self) -> (r: bool)
        ensures
            r == spec_is_dimensionless(self),
    {
        let a = self.0;
        a[0] == 0 && a[1] == 0 && a[2] == 0 && a[3] == 0 && a[4] == 0 && a[5] == 0 && a[6] == 0
    }

    /// Whether addition or subtraction is dimensionally legal: both operands
    /// have the same dimension.
    pub fn addable_with(self, other: Self) -> (r: bool)
        ensures
            r == (self == other),
    {
        let a = self.0;
        let b = other.0;
        let r = a[0] == b[0] && a[1] == b[1] && a[2] == b[2] && a[3] == b[3] && a[4] == b[4]
            && a[5] == b[5] && a[6] == b[6];
        proof {
            if r {
                assert(a@ =~= b@);
                assert(self.0 == other.0) by {
                    assert(a@ == b@);
                    vstd::array::lemma_array_index(a, 0);
                }
            }
        }
        r
    }
}


/// Two dimension vectors with the same exponents are equal.
pub proof fn lemma_dim_ext(a: DimVector, b: DimVector)
    requires
        forall|i: int| 0 <= i < 7 ==> #[trigger] a.0@[i] == b.0@[i],
    ensures
        a == b,
{
    assert(a.0@ =~= b.0@);
    vstd::array::lemma_array_index(a.0, 0);
    assert(a.0 == b.0);
}

/// Multiplication of dimensions is commutative.
pub proof fn lemma_mul_commutative(a: DimVector, b: DimVector)
    ensures
        spec_mul(a, b) == spec_mul(b, a),
{
    lemma_dim_ext(spec_mul(a, b), spec_mul(b, a));
}

/// The dimensionless vector is the identity of multiplication.
pub proof fn lemma_mul_identity(a: DimVector)
    ensures
        spec_mul(a, spec_dimensionless()) == a,
{
    lemma_dim_ext(spec_mul(a, spec_dimensionless()), a);
}

/// A quantity divided by itself is dimensionless.
pub proof fn lemma_div_self_dimensionless(a: DimVector)
    ensures
        spec_is_dimensionless(spec_div(a, a)),
{
}

/// Multiplying by `b` and then dividing by `b` gives back `a`, provided no
/// exponent of the product leaves the `i8` range.
pub proof fn lemma_mul_div_roundtrip(a: DimVector, b: DimVector)
    requires
        forall|i: int| 0 <= i < 7 ==> -128 <= #[trigger] a.0@[i] + b.0@[i] <= 127,
    ensures
        spec_div(spec_mul(a, b), b) == a,
{
    assert(-128 <= a.0@[0] + b.0@[0] <= 127);
    assert(-128 <= a.0@[1] + b.0@[1] <= 127);
    assert(-128 <= a.0@[2] + b.0@[2] <= 127);
    assert(-128 <= a.0@[3] + b.0@[3] <= 127);
    assert(-128 <= a.0@[4] + b.0@[4] <= 127);
    assert(-128 <= a.0@[5] + b.0@[5] <= 127);
    assert(-128 <= a.0@[6] + b.0@[6] <= 127);
    lemma_dim_ext(spec_div(spec_mul(a, b), b), a);
}

/// Raising to the first power is the identity.
pub proof fn lemma_pow_one(a: DimVector)
    ensures
        spec_pow(a, 1) == a,
{
    lemma_dim_ext(spec_pow(a, 1), a);
}

/// Raising to the power zero gives the dimensionless vector.
pub proof fn lemma_pow_zero(a: DimVector)
    ensures
        spec_is_dimensionless(spec_pow(a, 0)),
{
}

/// Squaring equals multiplying a quantity with itself when no exponent
/// leaves the `i8` range.
pub proof fn lemma_pow_two_is_square(a: DimVector)
    requires
        forall|i: int| 0 <= i < 7 ==> -64 <= #[trigger] a.0@[i] <= 63,
    ensures
        spec_pow(a, 2) == spec_mul(a, a),
{
    assert(-64 <= a.0@[0] <= 63);
    assert(-64 <= a.0@[1] <= 63);
    assert(-64 <= a.0@[2] <= 63);
    assert(-64 <= a.0@[3] <= 63);
    assert(-64 <= a.0@[4] <= 63);
    assert(-64 <= a.0@[5] <= 63);
    assert(-64 <= a.0@[6] <= 63);
    lemma_dim_ext(spec_pow(a, 2), spec_mul(a, a));
}

/// Name of the base unit of dimension `i`: `m s kg A K mol cd`.
pub open spec fn unit_name(i: int) -> Seq<char> {
    if i == 0 { seq!['m'] } else if i == 1 { seq!['s'] } else if i == 2 { seq!['k', 'g'] }
    else if i == 3 { seq!['A'] } else if i == 4 { seq!['K'] } else if i == 5 { seq!['m', 'o', 'l'] }
    else { seq!['c', 'd'] }
}

/// One factor of the rendering: the unit name, followed by `^e` unless `e` is 1.
pub open spec fn unit_part(i: int, e: int) -> Seq<char> {
    if e == 1 { unit_name(i) } else { unit_name(i) + seq!['^'] + int_digits(e) }
}

/// The factors with a positive exponent among the first `k` dimensions,
/// joined by `·`.
pub open spec fn pos_join(v: DimVector, k: int) -> Seq<char>
    decreases k,
{
    if k <= 0 {
        Seq::empty()
    } else {
        let prev = pos_join(v, k - 1);
        let e = v.0@[k - 1] as int;
        if e > 0 {
            if prev.len() == 0 { unit_part(k - 1, e) } else { prev + seq!['·'] + unit_part(k - 1, e) }
        } else {
            prev
        }
    }
}

/// The factors with a negative exponent among the first `k` dimensions,
/// each with the exponent negated, joined by `·`.
pub open spec fn neg_join(v: DimVector, k: int) -> Seq<char>
    decreases k,
{
    if k <= 0 {
        Seq::empty()
    } else {
        let prev = neg_join(v, k - 1);
        let e = v.0@[k - 1] as int;
        if e < 0 {
            if prev.len() == 0 { unit_part(k - 1, -e) } else { prev + seq!['·'] + unit_part(k - 1, -e) }
        } else {
            prev
        }
    }
}

/// The text of a dimension: `dimensionless` when all exponents are zero;
/// otherwise the positive factors (or `1` when there are none), followed by
/// `/` and the negative factors when there are any.  E.g. `m·kg/s^2`.
pub open spec fn dim_text(v: DimVector) -> Seq<char> {
    let p = pos_join(v, 7);
    let n = neg_join(v, 7);
    if p.len() == 0 && n.len() == 0 {
        seq!['d', 'i', 'm', 'e', 'n', 's', 'i', 'o', 'n', 'l', 'e', 's', 's']
    } else {
        let head = if p.len() == 0 { seq!['1'] } else { p };
        if n.len() == 0 { head } else { head + seq!['/'] + n }
    }
}

proof fn lemma_unit_part_nonempty(i: int, e: int)
    ensures
        unit_part(i, e).len() > 0,
{
}

fn push_unit_name(out: &mut String, i: usize)
    requires
        i < 7,
    ensures
        final(out)@ == old(out)@ + unit_name(i as int),
{
    let ghost o = old(out)@;
    if i == 0 {
        push_char(out, 'm');
    } else if i == 1 {
        push_char(out, 's');
    } else if i == 2 {
        push_char(out, 'k');
        push_char(out, 'g');
    } else if i == 3 {
        push_char(out, 'A');
    } else if i == 4 {
        push_char(out, 'K');
    } else if i == 5 {
        push_char(out, 'm');
        push_char(out, 'o');
        push_char(out, 'l');
    } else {
        push_char(out, 'c');
        push_char(out, 'd');
    }
    proof {
        assert(out@ =~= o + unit_name(i as int));
    }
}

fn push_unit_part(out: &mut String, i: usize, e: i64)
    requires
        i < 7,
    ensures
        final(out)@ == old(out)@ + unit_part(i as int, e as int),
{
    let ghost o = old(out)@;
    push_unit_name(out, i);
    if e != 1 {
        push_char(out, '^');
        push_i64(out, e);
        proof {
            assert(out@ =~= o + unit_part(i as int, e as int));
        }
    }
}

impl DimVector {
    /// The text of this dimension, e.g. `m·kg/s^2` or `dimensionless`.
    pub fn display_string(&self) -> (s: String)
        ensures
            s@ == dim_text(*self),
    {
        let a = self.0;
        let mut pos = String::new();
        let mut neg = String::new();
        let mut pos_empty = true;
        let mut neg_empty = true;
        let mut i: usize = 0;
        while i < 7
            invariant
                i <= 7,
                a == self.0,
                pos_empty == (pos@.len() == 0),
                neg_empty == (neg@.len() == 0),
                pos@ == pos_join(*self, i as int),
                neg@ == neg_join(*self, i as int),
            decreases 7 - i,
        {
            let e = a[i];
            let ghost pp = pos@;
            let ghost nn = neg@;
            if e > 0 {
                if !pos_empty {
                    push_char(&mut pos, '·');
                }
                push_unit_part(&mut pos, i, e as i64);
                proof { lemma_unit_part_nonempty(i as int, e as int); }
                pos_empty = false;
                proof {
                    assert(pos@ =~= pos_join(*self, i + 1));
                }
            } else if e < 0 {
                if !neg_empty {
                    push_char(&mut neg, '·');
                }
                push_unit_part(&mut neg, i, -(e as i64));
                proof { lemma_unit_part_nonempty(i as int, -(e as int)); }
                neg_empty = false;
                proof {
                    assert(neg@ =~= neg_join(*self, i + 1));
                }
            }
            i = i + 1;
        }
        if pos_empty && neg_empty {
            let mut out = String::new();
            push_str(&mut out, "dimensionless");
            proof {
                reveal_strlit("dimensionless");
                assert(out@ =~= dim_text(*self));
            }
            return out;
        }
        let mut out = String::new();
        if pos_empty {
            push_char(&mut out, '1');
        } else {
            push_str(&mut out, pos.as_str());
        }
        if !neg_empty {
            push_char(&mut out, '/');
            push_str(&mut out, neg.as_str());
        }
        proof {
            assert(out@ =~= dim_text(*self));
        }
        out
    }
}


/// A full physical type: SI exponents, an optional tensor shape (`None` for a
/// scalar) and, for struct values, the struct's name.
#[derive(Debug, PartialEq, Eq)]
pub struct PhysicalType {
    pub dim: DimVector,
    pub shape: Option<Vec<usize>>,
    pub struct_name: Option<String>,
}

/// Mathematical model of a [`PhysicalType`].
pub struct PhysicalTypeView {
    pub dim: DimVector,
    pub shape: Option<Seq<usize>>,
    pub struct_name: Option<Seq<char>>,
}

/// The model of an optional shape.
pub open spec fn shape_view(s: Option<Vec<usize>>) -> Option<Seq<usize>> {
    match s {
        Some(v) => Some(v@),
        None => None,
    }
}

/// The model of an optional name.
pub open spec fn name_view(s: Option<String>) -> Option<Seq<char>> {
    match s {
        Some(v) => Some(v@),
        None => None,
    }
}

impl View for PhysicalType {
    type V = PhysicalTypeView;

    open spec fn view(&self) -> PhysicalTypeView {
        PhysicalTypeView {
            dim: self.dim,
            shape: shape_view(self.shape),
            struct_name: name_view(self.struct_name),
        }
    }
}

/// A copy of a shape vector.
pub fn copy_shape(v: &Vec<usize>) -> (r: Vec<usize>)
    ensures
        r@ == v@,
{
    let mut r: Vec<usize> = Vec::new();
    let mut i: usize = 0;
    while i < v.len()
        invariant
            i <= v.len(),
            r@ == v@.subrange(0, i as int),
        decreases v.len() - i,
    {
        r.push(v[i]);
        proof {
            assert(r@ =~= v@.subrange(0, i + 1));
        }
        i = i + 1;
    }
    proof {
        assert(r@ =~= v@);
    }
    r
}

/// A copy of an optional shape.
pub fn copy_opt_shape(s: &Option<Vec<usize>>) -> (r: Option<Vec<usize>>)
    ensures
        shape_view(r) == shape_view(*s),
{
    match s {
        Some(v) => Some(copy_shape(v)),
        None => None,
    }
}

/// Whether two optional shapes are equal.
pub fn shape_eq(a: &Option<Vec<usize>>, b: &Option<Vec<usize>>) -> (r: bool)
    ensures
        r == (shape_view(*a) == shape_view(*b)),
{
    match a {
        None => b.is_none(),
        Some(x) => match b {
            None => false,
            Some(y) => crate::text::usize_seq_eq(x.as_slice(), y.as_slice()),
        },
    }
}

impl PhysicalType {
    /// A scalar of dimension `dim`.
    pub fn scalar(dim: DimVector) -> (r: Self)
        ensures
            r@ == (PhysicalTypeView { dim, shape: None, struct_name: None }),
    {
        PhysicalType { dim, shape: None, struct_name: None }
    }

    /// A tensor of the given shape whose elements have dimension `dim`.
    pub fn tensor(dim: DimVector, shape: Vec<usize>) -> (r: Self)
        ensures
            r@ == (PhysicalTypeView { dim, shape: Some(shape@), struct_name: None }),
    {
        PhysicalType { dim, shape: Some(shape), struct_name: None }
    }

    /// A value of the named struct type (dimensionless, no shape).
    pub fn struct_type(name: String) -> (r: Self)
        ensures
            r@ == (PhysicalTypeView { dim: spec_dimensionless(), shape: None, struct_name: Some(name@) }),
    {
        PhysicalType { dim: DimVector([0, 0, 0, 0, 0, 0, 0]), shape: None, struct_name: Some(name) }
    }

    /// Whether this is a scalar (no shape).
    pub fn is_scalar(&self) -> (r: bool)
        ensures
            r == (self.shape is None),
    {
        self.shape.is_none()
    }

    /// A copy of this type.
    pub fn copy(&self) -> (r: Self)
        ensures
            r@ == self@,
    {
        PhysicalType {
            dim: self.dim,
            shape: copy_opt_shape(&self.shape),
            struct_name: crate::text::copy_opt_string(&self.struct_name),
        }
    }

    /// The text of this type: the dimension, followed by `[n1, n2, ...]` for a tensor.
    pub fn display_string(&self) -> (s: String)
        ensures
            s@ == phys_text(self@),
    {
        let mut out = self.dim.display_string();
        match &self.shape {
            None => {},
            Some(shape) => {
                push_char(&mut out, '[');
                push_shape_list(&mut out, shape);
                push_char(&mut out, ']');
            },
        }
        out
    }
}

/// `n1, n2, ...` for a shape.
pub open spec fn shape_list(s: Seq<usize>) -> Seq<char>
    decreases s.len(),
{
    if s.len() == 0 {
        Seq::empty()
    } else if s.len() == 1 {
        nat_digits(s[0] as nat)
    } else {
        shape_list(s.drop_last()) + seq![',', ' '] + nat_digits(s.last() as nat)
    }
}

/// Text of a physical type.
pub open spec fn phys_text(p: PhysicalTypeView) -> Seq<char> {
    match p.shape {
        None => dim_text(p.dim),
        Some(s) => dim_text(p.dim) + seq!['['] + shape_list(s) + seq![']'],
    }
}

/// Appends `n1, n2, ...`.
pub fn push_shape_list(out: &mut String, shape: &Vec<usize>)
    ensures
        final(out)@ == old(out)@ + shape_list(shape@),
{
    let ghost o = old(out)@;
    let mut i: usize = 0;
    while i < shape.len()
        invariant
            i <= shape@.len(),
            out@ == o + shape_list(shape@.subrange(0, i as int)),
        decreases shape@.len() - i,
    {
        let ghost before = out@;
        if i > 0 {
            push_char(out, ',');
            push_char(out, ' ');
        }
        let t = usize_to_string(shape[i]);
        push_str(out, t.as_str());
        proof {
            let sub = shape@.subrange(0, i + 1);
            assert(sub.drop_last() =~= shape@.subrange(0, i as int));
            assert(sub.last() == shape@[i as int]);
            if i == 0 {
                assert(out@ =~= o + shape_list(sub));
            } else {
                assert(out@ =~= o + shape_list(sub));
            }
        }
        i = i + 1;
    }
    proof {
        assert(shape@.subrange(0, shape@.len() as int) =~= shape@);
    }
}


// ── DimExpr → DimVector resolution ──────────────────────────────────────────

/// The dimension of a built-in unit name: the SI base units, `1` for the
/// dimensionless unit, and the common derived units under their symbol and
/// their name (`g` is taken as `kg`).
pub open spec fn base_unit_spec(name: Seq<char>) -> Option<DimVector> {
    if name == "m"@ {
        Some(DimVector::M())
    } else if name == "s"@ {
        Some(DimVector::S())
    } else if name == "kg"@ {
        Some(DimVector::KG())
    } else if name == "A"@ {
        Some(DimVector::A())
    } else if name == "K"@ {
        Some(DimVector::K())
    } else if name == "mol"@ {
        Some(DimVector::MOL())
    } else if name == "cd"@ {
        Some(DimVector::CD())
    } else if name == "1"@ {
        Some(DimVector::DIMENSIONLESS())
    } else if name == "N"@ || name == "Newton"@ {
        Some(DimVector::NEWTON())
    } else if name == "J"@ || name == "Joule"@ {
        Some(DimVector::JOULE())
    } else if name == "Pa"@ || name == "Pascal"@ {
        Some(DimVector::PASCAL())
    } else if name == "W"@ || name == "Watt"@ {
        Some(DimVector::WATT())
    } else if name == "Hz"@ || name == "Hertz"@ {
        Some(DimVector::HERTZ())
    } else if name == "g"@ {
        Some(DimVector::KG())
    } else {
        None
    }
}

/// Map a base unit string to its `DimVector`, including common aliases.
pub fn base_unit(name: &str) -> (r: Option<DimVector>)
    ensures
        r == base_unit_spec(name@),
{
    if str_eq(name, "m") {
        Some(DimVector::M())
    } else if str_eq(name, "s") {
        Some(DimVector::S())
    } else if str_eq(name, "kg") {
        Some(DimVector::KG())
    } else if str_eq(name, "A") {
        Some(DimVector::A())
    } else if str_eq(name, "K") {
        Some(DimVector::K())
    } else if str_eq(name, "mol") {
        Some(DimVector::MOL())
    } else if str_eq(name, "cd") {
        Some(DimVector::CD())
    } else if str_eq(name, "1") {
        Some(DimVector::DIMENSIONLESS())
    } else if str_eq(name, "N") || str_eq(name, "Newton") {
        Some(DimVector::NEWTON())
    } else if str_eq(name, "J") || str_eq(name, "Joule") {
        Some(DimVector::JOULE())
    } else if str_eq(name, "Pa") || str_eq(name, "Pascal") {
        Some(DimVector::PASCAL())
    } else if str_eq(name, "W") || str_eq(name, "Watt") {
        Some(DimVector::WATT())
    } else if str_eq(name, "Hz") || str_eq(name, "Hertz") {
        Some(DimVector::HERTZ())
    } else if str_eq(name, "g") {
        Some(DimVector::KG())
    } else {
        None
    }
}

/// The dimension a unit name denotes, or the dimensionless vector for a name
/// that is no unit.
pub open spec fn unit_of(name: Seq<char>) -> DimVector {
    match base_unit_spec(name) {
        Some(v) => v,
        None => spec_dimensionless(),
    }
}

/// Whether `v` has the exponent 1 in dimension `i` and 0 in every other.
pub open spec fn unit_vector(v: DimVector, i: int) -> bool {
    forall|k: int| 0 <= k < 7 ==> #[trigger] v.0@[k] == if k == i { 1i8 } else { 0i8 }
}

/// The named units: each base unit `m s kg A K mol cd` (the names dimensions
/// are displayed with) has the exponent 1 in its own dimension and 0 in the
/// others, `1` is dimensionless, and the derived units are the products of
/// the base ones: newton = kg·m/s², joule = newton·metre, pascal =
/// newton/m², watt = joule/second, hertz = 1/second.  Each long name, and
/// `g`, names the same dimension as its symbol (`g` as `kg`); no other name
/// is a unit.
pub proof fn lemma_unit_relations()
    ensures
        forall|i: int| 0 <= i < 7 ==> base_unit_spec(#[trigger] unit_name(i)) is Some && unit_vector(unit_of(unit_name(i)), i),
        base_unit_spec("1"@) == Some(spec_dimensionless()),
        base_unit_spec("N"@) == Some(spec_div(spec_mul(unit_of("kg"@), unit_of("m"@)), spec_mul(unit_of("s"@), unit_of("s"@)))),
        base_unit_spec("J"@) == Some(spec_mul(unit_of("N"@), unit_of("m"@))),
        base_unit_spec("Pa"@) == Some(spec_div(unit_of("N"@), spec_mul(unit_of("m"@), unit_of("m"@)))),
        base_unit_spec("W"@) == Some(spec_div(unit_of("J"@), unit_of("s"@))),
        base_unit_spec("Hz"@) == Some(spec_div(unit_of("1"@), unit_of("s"@))),
        base_unit_spec("Newton"@) == base_unit_spec("N"@),
        base_unit_spec("Joule"@) == base_unit_spec("J"@),
        base_unit_spec("Pascal"@) == base_unit_spec("Pa"@),
        base_unit_spec("Watt"@) == base_unit_spec("W"@),
        base_unit_spec("Hertz"@) == base_unit_spec("Hz"@),
        base_unit_spec("g"@) == base_unit_spec("kg"@),
        forall|name: Seq<char>| #[trigger] base_unit_spec(name) is Some ==> (name == "m"@ || name == "s"@ || name == "kg"@ || name == "A"@ || name == "K"@ || name == "mol"@ || name == "cd"@ || name == "1"@ || name == "N"@ || name == "Newton"@ || name == "J"@ || name == "Joule"@ || name == "Pa"@ || name == "Pascal"@ || name == "W"@ || name == "Watt"@ || name == "Hz"@ || name == "Hertz"@ || name == "g"@),
{
    reveal_strlit("m");
    reveal_strlit("s");
    reveal_strlit("kg");
    reveal_strlit("A");
    reveal_strlit("K");
    reveal_strlit("mol");
    reveal_strlit("cd");
    reveal_strlit("1");
    reveal_strlit("N");
    reveal_strlit("Newton");
    reveal_strlit("J");
    reveal_strlit("Joule");
    reveal_strlit("Pa");
    reveal_strlit("Pascal");
    reveal_strlit("W");
    reveal_strlit("Watt");
    reveal_strlit("Hz");
    reveal_strlit("Hertz");
    reveal_strlit("g");
    assert(unit_name(0) =~= "m"@);
    assert(unit_name(1) =~= "s"@);
    assert(unit_name(2) =~= "kg"@);
    assert(unit_name(3) =~= "A"@);
    assert(unit_name(4) =~= "K"@);
    assert(unit_name(5) =~= "mol"@);
    assert(unit_name(6) =~= "cd"@);
    assert("1"@[0] != "m"@[0] && "1"@[0] != "s"@[0] && "1"@[0] != "A"@[0] && "1"@[0] != "K"@[0]);
    assert(base_unit_spec("1"@) == Some(DimVector::DIMENSIONLESS()));
    lemma_dim_ext(spec_dimensionless(), DimVector::DIMENSIONLESS());
    assert forall|i: int| 0 <= i < 7 implies base_unit_spec(#[trigger] unit_name(i)) is Some
        && unit_vector(unit_of(unit_name(i)), i) by {
        if i == 0 {
            assert(base_unit_spec(unit_name(i)) == Some(DimVector::M()));
        } else if i == 1 {
            assert("s"@[0] != "m"@[0]);
            assert(base_unit_spec(unit_name(i)) == Some(DimVector::S()));
        } else if i == 2 {
            assert(base_unit_spec(unit_name(i)) == Some(DimVector::KG()));
        } else if i == 3 {
            assert("A"@[0] != "m"@[0] && "A"@[0] != "s"@[0]);
            assert(base_unit_spec(unit_name(i)) == Some(DimVector::A()));
        } else if i == 4 {
            assert("K"@[0] != "m"@[0] && "K"@[0] != "s"@[0] && "K"@[0] != "A"@[0]);
            assert(base_unit_spec(unit_name(i)) == Some(DimVector::K()));
        } else if i == 5 {
            assert(base_unit_spec(unit_name(i)) == Some(DimVector::MOL()));
        } else {
            assert("cd"@[0] != "kg"@[0]);
            assert(base_unit_spec(unit_name(i)) == Some(DimVector::CD()));
        }
    }
    assert("N"@[0] != "m"@[0] && "N"@[0] != "s"@[0] && "N"@[0] != "A"@[0] && "N"@[0] != "K"@[0] && "N"@[0] != "1"@[0]);
    assert("J"@[0] != "m"@[0] && "J"@[0] != "s"@[0] && "J"@[0] != "A"@[0] && "J"@[0] != "K"@[0] && "J"@[0] != "1"@[0] && "J"@[0] != "N"@[0]);
    assert("W"@[0] != "m"@[0] && "W"@[0] != "s"@[0] && "W"@[0] != "A"@[0] && "W"@[0] != "K"@[0] && "W"@[0] != "1"@[0] && "W"@[0] != "N"@[0] && "W"@[0] != "J"@[0]);
    assert("g"@[0] != "m"@[0] && "g"@[0] != "s"@[0] && "g"@[0] != "A"@[0] && "g"@[0] != "K"@[0] && "g"@[0] != "1"@[0] && "g"@[0] != "N"@[0] && "g"@[0] != "J"@[0] && "g"@[0] != "W"@[0]);
    assert("Pa"@[0] != "kg"@[0] && "Pa"@[0] != "cd"@[0]);
    assert("Hz"@[0] != "kg"@[0] && "Hz"@[0] != "cd"@[0] && "Hz"@[0] != "Pa"@[0]);
    assert("Pascal"@[0] != "Newton"@[0] && "Hertz"@[0] != "Joule"@[0]);
    assert(base_unit_spec("Newton"@) == Some(DimVector::NEWTON()));
    assert(base_unit_spec("Joule"@) == Some(DimVector::JOULE()));
    assert(base_unit_spec("Pascal"@) == Some(DimVector::PASCAL()));
    assert(base_unit_spec("Watt"@) == Some(DimVector::WATT()));
    assert(base_unit_spec("Hertz"@) == Some(DimVector::HERTZ()));
    assert(base_unit_spec("N"@) == Some(DimVector::NEWTON()));
    assert(base_unit_spec("J"@) == Some(DimVector::JOULE()));
    assert(base_unit_spec("Pa"@) == Some(DimVector::PASCAL()));
    assert(base_unit_spec("W"@) == Some(DimVector::WATT()));
    assert(base_unit_spec("Hz"@) == Some(DimVector::HERTZ()));
    assert(base_unit_spec("g"@) == Some(DimVector::KG()));
    lemma_dim_ext(DimVector::NEWTON(), spec_div(spec_mul(DimVector::KG(), DimVector::M()), spec_mul(DimVector::S(), DimVector::S())));
    lemma_dim_ext(DimVector::JOULE(), spec_mul(DimVector::NEWTON(), DimVector::M()));
    lemma_dim_ext(DimVector::PASCAL(), spec_div(DimVector::NEWTON(), spec_mul(DimVector::M(), DimVector::M())));
    lemma_dim_ext(DimVector::WATT(), spec_div(DimVector::JOULE(), DimVector::S()));
    lemma_dim_ext(DimVector::HERTZ(), spec_div(DimVector::DIMENSIONLESS(), DimVector::S()));
}

/// The dimension a unit expression denotes when every name in it is a
/// built-in unit (`None` when some name is not).  A tensor annotation
/// denotes the dimension of its elements.
pub open spec fn resolve_dim(e: DimExpr) -> Option<DimVector>
    decreases e,
{
    match e {
        DimExpr::Base(name) => base_unit_spec(name@),
        DimExpr::Mul(l, r) => match (resolve_dim(l.node), resolve_dim(r.node)) {
            (Some(a), Some(b)) => Some(spec_mul(a, b)),
            _ => None,
        },
        DimExpr::Div(l, r) => match (resolve_dim(l.node), resolve_dim(r.node)) {
            (Some(a), Some(b)) => Some(spec_div(a, b)),
            _ => None,
        },
        DimExpr::Power(b, n) => match resolve_dim(b.node) {
            Some(a) => Some(spec_pow(a, n)),
            None => None,
        },
        DimExpr::Tensor { base, .. } => resolve_dim(base.node),
    }
}

fn resolve_inner(expr: &DimExpr) -> (r: Option<DimVector>)
    ensures
        r == resolve_dim(*expr),
    decreases expr,
{
    match expr {
        DimExpr::Base(name) => base_unit(name.as_str()),
        DimExpr::Mul(lhs, rhs) => {
            let a = match resolve_inner(&lhs.node) {
                Some(a) => a,
                None => return None,
            };
            match resolve_inner(&rhs.node) {
                Some(b) => Some(a.mul(b)),
                None => None,
            }
        },
        DimExpr::Div(lhs, rhs) => {
            let a = match resolve_inner(&lhs.node) {
                Some(a) => a,
                None => return None,
            };
            match resolve_inner(&rhs.node) {
                Some(b) => Some(a.div(b)),
                None => None,
            }
        },
        DimExpr::Power(base, exp) => match resolve_inner(&base.node) {
            Some(a) => Some(a.pow(*exp)),
            None => None,
        },
        DimExpr::Tensor { base, .. } => resolve_inner(&base.node),
    }
}

/// Resolve a parsed unit expression into a `DimVector`; `None` if a name in
/// it is not a built-in unit.
pub fn resolve(dim_expr: &Spanned<DimExpr>) -> (r: Option<DimVector>)
    ensures
        r == resolve_dim(dim_expr.node),
{
    resolve_inner(&dim_expr.node)
}

/// The shape of a tensor annotation (`None` for a scalar annotation).
pub open spec fn spec_tensor_shape(e: DimExpr) -> Option<Seq<usize>> {
    match e {
        DimExpr::Tensor { shape, .. } => Some(shape@),
        _ => None,
    }
}

/// Extract the tensor shape from a unit annotation, `None` for scalar types.
pub fn tensor_shape(dim_expr: &Spanned<DimExpr>) -> (r: Option<Vec<usize>>)
    ensures
        shape_view(r) == spec_tensor_shape(dim_expr.node),
{
    match &dim_expr.node {
        DimExpr::Tensor { shape, .. } => Some(copy_shape(shape)),
        _ => None,
    }
}

} // verus!
