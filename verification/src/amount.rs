use vstd::prelude::*;

verus! {

/// Largest mantissa magnitude a 96-bit decimal can carry (`2^96 - 1`).
pub const MAX_MANTISSA: i128 = 79228162514264337593543950335;

/// Largest scale (number of fractional digits) a 96-bit decimal can carry.
pub const MAX_SCALE: u32 = 28;

/// An exact fixed-point decimal amount, representing `mantissa / 10^scale`.
///
/// The representation mirrors `rust_decimal::Decimal` field for field; the
/// arithmetic whose exactness the ledger depends on is delegated to that crate
/// through the trusted wrappers below.
#[derive(Debug, Clone, Copy, PartialEq, Eq, Structural, Hash)]
pub struct Amount {
    pub mantissa: i128,
    pub scale: u32,
}

/// `10^n`, the scaling factor between decimal scales.
pub open spec fn pow10(n: nat) -> int
    decreases n,
{
    if n == 0 {
        1
    } else {
        10 * pow10((n - 1) as nat)
    }
}

pub proof fn lemma_pow10_pos(n: nat)
    ensures
        pow10(n) >= 1,
    decreases n,
{
    if n > 0 {
        lemma_pow10_pos((n - 1) as nat);
    }
}

pub proof fn lemma_pow10_split(a: nat, b: nat)
    ensures
        pow10(a + b) == pow10(a) * pow10(b),
    decreases a,
{
    if a == 0 {
    } else {
        lemma_pow10_split((a - 1) as nat, b);
        assert(10 * (pow10((a - 1) as nat) * pow10(b)) == (10 * pow10((a - 1) as nat)) * pow10(b))
            by (nonlinear_arith);
    }
}

impl Amount {
    pub open spec fn m(self) -> int {
        self.mantissa as int
    }

    pub open spec fn s(self) -> nat {
        self.scale as nat
    }

    /// The representation is one a 96-bit decimal can carry.
    pub open spec fn wf(self) -> bool {
        self.s() <= MAX_SCALE && -(MAX_MANTISSA as int) <= self.m() <= MAX_MANTISSA as int
    }

    /// The value as a whole number of `10^-MAX_SCALE` units; two amounts are
    /// numerically equal exactly when their units agree.
    pub open spec fn units(self) -> int {
        self.m() * pow10((MAX_SCALE - self.s()) as nat)
    }

    /// Builds an amount after checking that a 96-bit decimal can carry it.
    pub fn try_new(mantissa: i128, scale: u32) -> (r: Option<Amount>)
        ensures
            match r {
                Some(a) => a == (Amount { mantissa, scale }) && a.wf(),
                None => !(Amount { mantissa, scale }).wf(),
            },
    {
        if scale <= MAX_SCALE && -MAX_MANTISSA <= mantissa && mantissa <= MAX_MANTISSA {
            Some(Amount { mantissa, scale })
        } else {
            None
        }
    }

    pub fn zero() -> (r: Amount)
        ensures
            r == (Amount { mantissa: 0 as i128, scale: 0 as u32 }),
            r.wf(),
            r.units() == 0,
    {
        let r = Amount { mantissa: 0, scale: 0 };
        proof {
            lemma_zero_units(r);
        }
        r
    }
}

/// The larger of the two scales; exact addition aligns mantissas there.
pub open spec fn larger_scale(a: Amount, b: Amount) -> nat {
    if a.s() >= b.s() {
        a.s()
    } else {
        b.s()
    }
}

/// The mantissa of `a` rescaled (exactly) to scale `s >= a.s()`.
pub open spec fn scaled_mantissa(a: Amount, s: nat) -> int {
    a.m() * pow10((s - a.s()) as nat)
}

/// The exact sum of the two mantissas aligned at the larger scale.
pub open spec fn aligned_sum(a: Amount, b: Amount) -> int {
    scaled_mantissa(a, larger_scale(a, b)) + scaled_mantissa(b, larger_scale(a, b))
}

/// The sum of `a` and `b` is exactly representable: either one operand is
/// zero, or the aligned sum still fits a 96-bit mantissa.
pub open spec fn add_ok(a: Amount, b: Amount) -> bool {
    a.m() == 0 || b.m() == 0 || -(MAX_MANTISSA as int) <= aligned_sum(a, b) <= MAX_MANTISSA as int
}

/// The exact sum as `rust_decimal` represents it: a zero operand hands the
/// other operand back unchanged; otherwise the mantissas are aligned at the
/// larger of the two scales.
pub open spec fn spec_add(a: Amount, b: Amount) -> Amount {
    if a.m() == 0 {
        b
    } else if b.m() == 0 {
        a
    } else {
        Amount { mantissa: aligned_sum(a, b) as i128, scale: larger_scale(a, b) as u32 }
    }
}

pub open spec fn spec_neg(a: Amount) -> Amount {
    Amount { mantissa: (-a.m()) as i128, scale: a.scale }
}

pub open spec fn sub_ok(a: Amount, b: Amount) -> bool {
    add_ok(a, spec_neg(b))
}

pub open spec fn spec_sub(a: Amount, b: Amount) -> Amount {
    spec_add(a, spec_neg(b))
}

pub proof fn lemma_zero_units(a: Amount)
    requires
        a.m() == 0,
    ensures
        a.units() == 0,
{
    assert(0int * pow10((MAX_SCALE - a.s()) as nat) == 0) by (nonlinear_arith);
}

pub proof fn lemma_neg(a: Amount)
    requires
        a.wf(),
    ensures
        spec_neg(a).wf(),
        spec_neg(a).units() == -a.units(),
        spec_neg(a).s() == a.s(),
        spec_neg(a).m() == -a.m(),
{
    let p = pow10((MAX_SCALE - a.s()) as nat);
    assert((-a.m()) * p == -(a.m() * p)) by (nonlinear_arith);
}

/// Exact addition: under `add_ok`, the represented sum carries exactly the
/// combined value of the operands.
pub proof fn lemma_add_exact(a: Amount, b: Amount)
    requires
        a.wf(),
        b.wf(),
        add_ok(a, b),
    ensures
        spec_add(a, b).wf(),
        spec_add(a, b).units() == a.units() + b.units(),
{
    if a.m() == 0 {
        lemma_zero_units(a);
    } else if b.m() == 0 {
        lemma_zero_units(b);
    } else {
        let smax = larger_scale(a, b);
        let r = spec_add(a, b);
        let da = (smax - a.s()) as nat;
        let db = (smax - b.s()) as nat;
        let d = (MAX_SCALE - smax) as nat;
        lemma_pow10_split(da, d);
        lemma_pow10_split(db, d);
        assert((MAX_SCALE - a.s()) as nat == da + d);
        assert((MAX_SCALE - b.s()) as nat == db + d);
        let ma = a.m();
        let mb = b.m();
        let pa = pow10(da);
        let pb = pow10(db);
        let pd = pow10(d);
        assert((ma * pa + mb * pb) * pd == ma * (pa * pd) + mb * (pb * pd)) by (nonlinear_arith);
        assert(r.units() == (ma * pa + mb * pb) * pd);
    }
}

/// Relies on `rust_decimal::Decimal::checked_add` (`ops/add.rs`): a zero
/// operand returns the other operand unchanged; otherwise, when the aligned
/// sum fits a 96-bit mantissa, the result is exact and keeps the larger of
/// the two scales; when it does not fit, the crate either lowers the scale
/// (rounding the value) or reports overflow with `None`.
#[verifier::external_body]
fn dec_checked_add(a: &Amount, b: &Amount) -> (r: Option<Amount>)
    requires
        a.wf(),
        b.wf(),
    ensures
        match r {
            Some(c) => c.wf() && (add_ok(*a, *b) ==> c == spec_add(*a, *b)) && (!add_ok(*a, *b)
                ==> c.s() < larger_scale(*a, *b)),
            None => !add_ok(*a, *b),
        },
{
    let da = rust_decimal::Decimal::from_i128_with_scale(a.mantissa, a.scale);
    let db = rust_decimal::Decimal::from_i128_with_scale(b.mantissa, b.scale);
    da.checked_add(db).map(|d| Amount { mantissa: d.mantissa(), scale: d.scale() })
}

/// Relies on `rust_decimal::Decimal`'s ordering (`ops/cmp.rs`): comparison is
/// by exact numeric value, independent of the scales of the operands.
#[verifier::external_body]
pub(crate) fn dec_lt(a: &Amount, b: &Amount) -> (r: bool)
    requires
        a.wf(),
        b.wf(),
    ensures
        r == (a.units() < b.units()),
{
    let da = rust_decimal::Decimal::from_i128_with_scale(a.mantissa, a.scale);
    let db = rust_decimal::Decimal::from_i128_with_scale(b.mantissa, b.scale);
    da < db
}

impl Amount {
    /// Exact checked addition: `Some` exactly when the sum is representable
    /// without any rounding, and then the sum itself.
    pub fn checked_add(&self, other: &Amount) -> (r: Option<Amount>)
        requires
            self.wf(),
            other.wf(),
        ensures
            r is Some <==> add_ok(*self, *other),
            r matches Some(c) ==> c == spec_add(*self, *other),
    {
        if self.mantissa == 0 {
            return Some(*other);
        }
        if other.mantissa == 0 {
            return Some(*self);
        }
        let max_s: u32 = if self.scale >= other.scale {
            self.scale
        } else {
            other.scale
        };
        match dec_checked_add(self, other) {
            None => None,
            Some(c) => {
                if c.scale == max_s {
                    Some(c)
                } else {
                    None
                }
            },
        }
    }

    /// Exact addition of a representable sum.
    pub fn add(&self, other: &Amount) -> (r: Amount)
        requires
            self.wf(),
            other.wf(),
            add_ok(*self, *other),
        ensures
            r == spec_add(*self, *other),
            r.wf(),
            r.units() == self.units() + other.units(),
    {
        proof {
            lemma_add_exact(*self, *other);
        }
        self.checked_add(other).unwrap()
    }

    pub fn neg(&self) -> (r: Amount)
        requires
            self.wf(),
        ensures
            r == spec_neg(*self),
            r.wf(),
            r.units() == -self.units(),
    {
        proof {
            lemma_neg(*self);
        }
        Amount { mantissa: -self.mantissa, scale: self.scale }
    }

    /// Exact checked subtraction, by negating and adding.
    pub fn checked_sub(&self, other: &Amount) -> (r: Option<Amount>)
        requires
            self.wf(),
            other.wf(),
        ensures
            r is Some <==> sub_ok(*self, *other),
            r matches Some(c) ==> c == spec_sub(*self, *other),
    {
        let n = other.neg();
        self.checked_add(&n)
    }

    /// Exact subtraction of a representable difference.
    pub fn sub(&self, other: &Amount) -> (r: Amount)
        requires
            self.wf(),
            other.wf(),
            sub_ok(*self, *other),
        ensures
            r == spec_sub(*self, *other),
            r.wf(),
            r.units() == self.units() - other.units(),
    {
        proof {
            lemma_neg(*other);
            lemma_add_exact(*self, spec_neg(*other));
        }
        let n = other.neg();
        self.add(&n)
    }

    /// Exact numeric comparison.
    pub fn lt(&self, other: &Amount) -> (r: bool)
        requires
            self.wf(),
            other.wf(),
        ensures
            r == (self.units() < other.units()),
    {
        dec_lt(self, other)
    }
}

/// Exact subtraction seen at the level of values.
pub proof fn lemma_sub_exact(a: Amount, b: Amount)
    requires
        a.wf(),
        b.wf(),
        sub_ok(a, b),
    ensures
        spec_sub(a, b).wf(),
        spec_sub(a, b).units() == a.units() - b.units(),
{
    lemma_neg(b);
    lemma_add_exact(a, spec_neg(b));
}

} // verus!
