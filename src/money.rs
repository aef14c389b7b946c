//! Exact decimal amounts, stored as a signed mantissa and a power-of-ten scale,
//! with the checked arithmetic and rounding of `rust_decimal`.
use rust_decimal::Decimal;
use vstd::prelude::*;

verus! {

/// Largest mantissa magnitude a decimal can hold: 2^96 - 1.
pub const MAX_MANTISSA: i128 = 79228162514264337593543950335;

/// Largest number of fractional digits a decimal can hold.
pub const MAX_SCALE: u32 = 28;

/// Number of fractional digits kept in stored balances.
pub const PRECISION: u32 = 4;

/// 10^n.
pub open spec fn pow10(n: nat) -> int
    decreases n,
{
    if n == 0 {
        1
    } else {
        10 * pow10((n - 1) as nat)
    }
}

/// The magnitude fits in the 96 bits of a decimal mantissa.
pub open spec fn fits96(x: int) -> bool {
    -(MAX_MANTISSA as int) <= x <= MAX_MANTISSA as int
}

/// `mantissa / 10^scale`, exactly.
#[derive(Clone, Copy, Debug, PartialEq, Eq, Structural)]
pub struct Money {
    pub mantissa: i128,
    pub scale: u32,
}

impl Money {
    /// A representable decimal.
    pub open spec fn wf(&self) -> bool {
        &&& self.scale <= MAX_SCALE
        &&& fits96(self.mantissa as int)
    }

    /// The mantissa once the value is written with `s` fractional digits
    /// (meaningful for `s >= scale`).
    pub open spec fn aligned(&self, s: nat) -> int {
        self.mantissa * pow10((s - self.scale) as nat)
    }

    /// The value in units of 10^-4 (meaningful for `scale <= 4`).
    pub open spec fn at4(&self) -> int {
        self.aligned(PRECISION as nat)
    }

    pub open spec fn is_negative(&self) -> bool {
        self.mantissa < 0
    }

    /// The mantissa and scale as plain numbers.
    pub open spec fn parts(&self) -> (int, nat) {
        (self.mantissa as int, self.scale as nat)
    }

    pub open spec fn from_parts(p: (int, nat)) -> Money {
        Money { mantissa: p.0 as i128, scale: p.1 as u32 }
    }

    /// Builds `mantissa / 10^scale`, or `None` where a decimal cannot hold it.
    pub fn new(mantissa: i128, scale: u32) -> (r: Option<Money>)
        ensures
            r is Some <==> (Money { mantissa, scale }).wf(),
            r matches Some(m) ==> m == (Money { mantissa, scale }),
    {
        if scale <= MAX_SCALE && -MAX_MANTISSA <= mantissa && mantissa <= MAX_MANTISSA {
            Some(Money { mantissa, scale })
        } else {
            None
        }
    }

    pub fn zero() -> (r: Money)
        ensures
            r == (Money { mantissa: 0, scale: 0 }),
            r.wf(),
    {
        Money { mantissa: 0, scale: 0 }
    }

    /// The largest representable decimal, 79228162514264337593543950335.
    pub fn max() -> (r: Money)
        ensures
            r == (Money { mantissa: MAX_MANTISSA, scale: 0 }),
            r.wf(),
    {
        Money { mantissa: MAX_MANTISSA, scale: 0 }
    }

    /// The smallest representable decimal, -79228162514264337593543950335.
    pub fn min() -> (r: Money)
        ensures
            r.mantissa == -MAX_MANTISSA,
            r.scale == 0,
            r.wf(),
    {
        Money { mantissa: -MAX_MANTISSA, scale: 0 }
    }

    pub fn is_sign_negative(&self) -> (r: bool)
        ensures
            r == self.is_negative(),
    {
        self.mantissa < 0
    }
}

/// The larger of two scales: the scale an exact sum or difference is written in.
pub open spec fn common_scale(a: Money, b: Money) -> nat {
    if a.scale >= b.scale {
        a.scale as nat
    } else {
        b.scale as nat
    }
}

/// Both operands and their sum fit once aligned to the common scale: the sum
/// needs no rounding.
pub open spec fn sum_fits(a: Money, b: Money) -> bool {
    let s = common_scale(a, b);
    &&& fits96(a.aligned(s))
    &&& fits96(b.aligned(s))
    &&& fits96(a.aligned(s) + b.aligned(s))
}

/// Both operands and their difference fit once aligned to the common scale.
pub open spec fn difference_fits(a: Money, b: Money) -> bool {
    let s = common_scale(a, b);
    &&& fits96(a.aligned(s))
    &&& fits96(b.aligned(s))
    &&& fits96(a.aligned(s) - b.aligned(s))
}

/// What `Decimal::checked_add` returns where it rounds nothing.
pub open spec fn exact_sum(a: Money, b: Money) -> Option<Money> {
    if a.mantissa == 0 {
        Some(b)
    } else if b.mantissa == 0 {
        Some(a)
    } else if sum_fits(a, b) {
        let s = common_scale(a, b);
        Some(Money { mantissa: (a.aligned(s) + b.aligned(s)) as i128, scale: s as u32 })
    } else {
        None
    }
}

/// What `Decimal::checked_sub` returns where it rounds nothing.
pub open spec fn exact_difference(a: Money, b: Money) -> Option<Money> {
    if a.mantissa == 0 {
        Some(Money { mantissa: (-b.mantissa) as i128, scale: b.scale })
    } else if b.mantissa == 0 {
        Some(a)
    } else if difference_fits(a, b) {
        let s = common_scale(a, b);
        Some(Money { mantissa: (a.aligned(s) - b.aligned(s)) as i128, scale: s as u32 })
    } else {
        None
    }
}

/// Result of `Decimal::checked_add` on two decimals given as (mantissa, scale),
/// where the sum does not fit exactly and the crate either rounds it to a
/// smaller scale or reports overflow.
pub uninterp spec fn decimal_sum(a: (int, nat), b: (int, nat)) -> Option<(int, nat)>;

/// Result of `Decimal::checked_sub` on two decimals given as (mantissa, scale),
/// where the difference does not fit exactly.
pub uninterp spec fn decimal_difference(a: (int, nat), b: (int, nat)) -> Option<(int, nat)>;

pub open spec fn money_of(p: Option<(int, nat)>) -> Option<Money> {
    match p {
        Some(q) => Some(Money::from_parts(q)),
        None => None,
    }
}

/// Checked addition of two decimals.
pub open spec fn add_outcome(a: Money, b: Money) -> Option<Money> {
    match exact_sum(a, b) {
        Some(v) => Some(v),
        None => money_of(decimal_sum(a.parts(), b.parts())),
    }
}

/// Checked subtraction of two decimals.
pub open spec fn sub_outcome(a: Money, b: Money) -> Option<Money> {
    match exact_difference(a, b) {
        Some(v) => Some(v),
        None => money_of(decimal_difference(a.parts(), b.parts())),
    }
}

/// `n / d` rounded to the nearest integer, ties to the even one.
pub open spec fn div_half_even(n: nat, d: nat) -> nat
    recommends
        d > 0,
{
    let q = n / d;
    let r = n % d;
    if 2 * r > d || (2 * r == d && q % 2 == 1) {
        q + 1
    } else {
        q
    }
}

/// `m` rounded to at most `dp` fractional digits, ties to even.
pub open spec fn rounded(m: Money, dp: nat) -> Money {
    if m.scale <= dp {
        m
    } else {
        let d = pow10((m.scale - dp) as nat);
        let n = (if m.mantissa < 0 { -m.mantissa } else { m.mantissa as int }) as nat;
        let q = div_half_even(n, d as nat);
        Money { mantissa: (if m.mantissa < 0 { -q } else { q as int }) as i128, scale: dp as u32 }
    }
}

/// Relies on `Decimal::checked_add`: exact where the aligned sum fits, else
/// rounded or `None`; always a valid decimal; `None` when two integers add up
/// to more than 96 bits hold.
#[verifier::external_body]
pub(crate) fn checked_add(a: Money, b: Money) -> (r: Option<Money>)
    requires
        a.wf(),
        b.wf(),
    ensures
        exact_sum(a, b) is Some ==> r == exact_sum(a, b),
        exact_sum(a, b) is None ==> r == money_of(decimal_sum(a.parts(), b.parts())),
        r == add_outcome(a, b),
        r matches Some(v) ==> v.wf(),
        a.scale == 0 && b.scale == 0 && !fits96(a.mantissa + b.mantissa) ==> r is None,
{
    let x = Decimal::from_i128_with_scale(a.mantissa, a.scale);
    let y = Decimal::from_i128_with_scale(b.mantissa, b.scale);
    match x.checked_add(y) {
        Some(d) => Some(Money { mantissa: d.mantissa(), scale: d.scale() }),
        None => None,
    }
}

/// Relies on `Decimal::checked_sub`: exact where the aligned difference fits,
/// else rounded or `None`; always a valid decimal; `None` when the difference
/// of two integers needs more than 96 bits.
#[verifier::external_body]
pub(crate) fn checked_sub(a: Money, b: Money) -> (r: Option<Money>)
    requires
        a.wf(),
        b.wf(),
    ensures
        exact_difference(a, b) is Some ==> r == exact_difference(a, b),
        exact_difference(a, b) is None ==> r == money_of(decimal_difference(a.parts(), b.parts())),
        r == sub_outcome(a, b),
        r matches Some(v) ==> v.wf(),
        a.scale == 0 && b.scale == 0 && !fits96(a.mantissa - b.mantissa) ==> r is None,
{
    let x = Decimal::from_i128_with_scale(a.mantissa, a.scale);
    let y = Decimal::from_i128_with_scale(b.mantissa, b.scale);
    match x.checked_sub(y) {
        Some(d) => Some(Money { mantissa: d.mantissa(), scale: d.scale() }),
        None => None,
    }
}

/// Relies on `Decimal::round_dp`: rounds to `dp` fractional digits with ties
/// to even, and leaves a decimal with fewer digits as it is.
#[verifier::external_body]
pub(crate) fn round_dp(a: Money, dp: u32) -> (r: Money)
    requires
        a.wf(),
        dp <= MAX_SCALE,
    ensures
        r == rounded(a, dp as nat),
        r.wf(),
{
    let d = Decimal::from_i128_with_scale(a.mantissa, a.scale).round_dp(dp);
    Money { mantissa: d.mantissa(), scale: d.scale() }
}

/// Relies on `Decimal`'s `>`: compares the values, whatever the scales.
#[verifier::external_body]
pub(crate) fn greater_than(a: Money, b: Money) -> (r: bool)
    requires
        a.wf(),
        b.wf(),
    ensures
        r == (a.aligned(common_scale(a, b)) > b.aligned(common_scale(a, b))),
{
    Decimal::from_i128_with_scale(a.mantissa, a.scale) > Decimal::from_i128_with_scale(
        b.mantissa,
        b.scale,
    )
}

pub proof fn lemma_pow10_positive(n: nat)
    ensures
        pow10(n) >= 1,
    decreases n,
{
    if n > 0 {
        lemma_pow10_positive((n - 1) as nat);
    }
}

pub proof fn lemma_pow10_add(a: nat, b: nat)
    ensures
        pow10(a + b) == pow10(a) * pow10(b),
    decreases a,
{
    if a > 0 {
        lemma_pow10_add((a - 1) as nat, b);
        assert(pow10(a + b) == 10 * pow10((a - 1 + b) as nat));
        assert(10 * (pow10((a - 1) as nat) * pow10(b)) == (10 * pow10((a - 1) as nat)) * pow10(b))
            by (nonlinear_arith);
    }
}

/// Aligning to a scale `s <= 4` and then to four digits is aligning to four digits.
proof fn lemma_aligned_at4(m: Money, s: nat)
    requires
        m.scale <= s <= PRECISION,
    ensures
        m.aligned(s) * pow10((PRECISION - s) as nat) == m.at4(),
        pow10((PRECISION - s) as nat) >= 1,
{
    lemma_pow10_add((s - m.scale) as nat, (PRECISION - s) as nat);
    lemma_pow10_positive((PRECISION - s) as nat);
    let p = pow10((s - m.scale) as nat);
    let q = pow10((PRECISION - s) as nat);
    assert(m.mantissa * p * q == m.mantissa * (p * q)) by (nonlinear_arith);
}

proof fn lemma_scaled_fits(x: int, q: int)
    requires
        q >= 1,
        fits96(x * q),
    ensures
        fits96(x),
{
    assert(x >= 0 ==> x * q >= x) by (nonlinear_arith)
        requires
            q >= 1,
    ;
    assert(x < 0 ==> x * q <= x) by (nonlinear_arith)
        requires
            q >= 1,
    ;
}

/// On amounts of at most four fractional digits, `>` at the common scale is `>`
/// at four digits.
pub proof fn lemma_compare_at4(a: Money, b: Money)
    requires
        a.scale <= PRECISION,
        b.scale <= PRECISION,
    ensures
        (a.aligned(common_scale(a, b)) > b.aligned(common_scale(a, b))) == (a.at4() > b.at4()),
{
    let s = common_scale(a, b);
    lemma_aligned_at4(a, s);
    lemma_aligned_at4(b, s);
    let q = pow10((PRECISION - s) as nat);
    let x = a.aligned(s);
    let y = b.aligned(s);
    assert((x > y) == (x * q > y * q)) by (nonlinear_arith)
        requires
            q >= 1,
    ;
}

/// A sum of amounts with at most four fractional digits is exact when it fits.
pub proof fn lemma_exact_sum_at4(a: Money, b: Money)
    requires
        a.wf(),
        b.wf(),
        a.scale <= PRECISION,
        b.scale <= PRECISION,
        fits96(a.at4()),
        fits96(b.at4()),
        fits96(a.at4() + b.at4()),
    ensures
        add_outcome(a, b) matches Some(v) && v.wf() && v.scale <= PRECISION && v.at4() == a.at4()
            + b.at4(),
{
    let s = common_scale(a, b);
    lemma_aligned_at4(a, s);
    lemma_aligned_at4(b, s);
    let q = pow10((PRECISION - s) as nat);
    let x = a.aligned(s);
    let y = b.aligned(s);
    assert((x + y) * q == x * q + y * q) by (nonlinear_arith);
    lemma_scaled_fits(x, q);
    lemma_scaled_fits(y, q);
    lemma_scaled_fits(x + y, q);
    if a.mantissa == 0 {
        assert(a.at4() == 0);
    } else if b.mantissa == 0 {
        assert(b.at4() == 0);
    } else {
        let v = Money { mantissa: (x + y) as i128, scale: s as u32 };
        assert(v.aligned(PRECISION as nat) == (x + y) * q);
    }
}

/// A difference of amounts with at most four fractional digits is exact when
/// it fits.
pub proof fn lemma_exact_difference_at4(a: Money, b: Money)
    requires
        a.wf(),
        b.wf(),
        a.scale <= PRECISION,
        b.scale <= PRECISION,
        fits96(a.at4()),
        fits96(b.at4()),
        fits96(a.at4() - b.at4()),
    ensures
        sub_outcome(a, b) matches Some(v) && v.wf() && v.scale <= PRECISION && v.at4() == a.at4()
            - b.at4(),
{
    let s = common_scale(a, b);
    lemma_aligned_at4(a, s);
    lemma_aligned_at4(b, s);
    let q = pow10((PRECISION - s) as nat);
    let x = a.aligned(s);
    let y = b.aligned(s);
    assert((x - y) * q == x * q - y * q) by (nonlinear_arith);
    lemma_scaled_fits(x, q);
    lemma_scaled_fits(y, q);
    lemma_scaled_fits(x - y, q);
    if a.mantissa == 0 {
        assert(a.at4() == 0);
        let v = Money { mantissa: (-b.mantissa) as i128, scale: b.scale };
        let p = pow10((PRECISION - b.scale) as nat);
        assert(v.at4() == -b.mantissa * p);
        assert(-b.mantissa * p == -(b.mantissa * p)) by (nonlinear_arith);
    } else if b.mantissa == 0 {
        assert(b.at4() == 0);
    } else {
        let v = Money { mantissa: (x - y) as i128, scale: s as u32 };
        assert(v.aligned(PRECISION as nat) == (x - y) * q);
    }
}

} // verus!
