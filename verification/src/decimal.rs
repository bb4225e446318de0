//! Exact decimal numbers.
//!
//! A [`Dec`] is a signed 96-bit mantissa over a power of ten: the number it stands for is
//! `mantissa / 10^scale`, with a scale of at most 28. The arithmetic itself is that of the
//! `rust_decimal` crate; what each of its operations returns has a name here (`decimal_sum` and its
//! siblings), and the facts that the rest of the library relies on stand beside the names.

use vstd::prelude::*;

verus! {

/// The largest scale a [`Dec`] can have.
pub const MAX_SCALE: u32 = 28;

/// The first mantissa magnitude that no longer fits: `2^96`.
pub const MANTISSA_BOUND: i128 = 79_228_162_514_264_337_593_543_950_336;

/// How many Babylonian steps [`Dec::sqrt`] takes before it gives up.
pub const SQRT_STEPS: u32 = 999;

/// `10^n`.
pub open spec fn pow10(n: nat) -> int
    decreases n,
{
    if n == 0 {
        1
    } else {
        10 * pow10((n - 1) as nat)
    }
}

/// The larger of two scales.
pub open spec fn max_scale(a: nat, b: nat) -> nat {
    if a >= b {
        a
    } else {
        b
    }
}

/// The magnitude of an integer.
pub open spec fn magnitude(x: int) -> int {
    if x < 0 {
        -x
    } else {
        x
    }
}

/// Whether `x` can be the mantissa of a [`Dec`].
pub open spec fn fits(x: int) -> bool {
    -MANTISSA_BOUND < x < MANTISSA_BOUND
}

/// A decimal number, `mantissa / 10^scale`.
#[derive(Debug, Clone, Copy, PartialEq, Eq)]
pub struct Dec {
    mantissa: i128,
    scale: u32,
}

/// What a computation on decimals came to.
#[derive(Debug, Clone, Copy, PartialEq, Eq)]
pub enum Reading {
    /// The computation has no value here (a window still filling, a zero divisor that is guarded).
    Undefined,
    /// The value.
    Value(Dec),
    /// An intermediate result left the representable range.
    Fault,
}

impl Dec {
    /// The signed mantissa.
    pub closed spec fn m(self) -> int {
        self.mantissa as int
    }

    /// The scale.
    pub closed spec fn s(self) -> nat {
        self.scale as nat
    }

    /// Whether mantissa and scale are in range. Every `Dec` that exists at run time is.
    #[verifier::type_invariant]
    pub closed spec fn wf(self) -> bool {
        fits(self.mantissa as int) && self.scale <= MAX_SCALE
    }

    /// The decimal with mantissa `m` and scale `s`.
    pub closed spec fn of(m: int, s: nat) -> Dec {
        Dec { mantissa: m as i128, scale: s as u32 }
    }

    /// The decimal of an integer.
    pub open spec fn whole(n: int) -> Dec {
        Dec::of(n, 0)
    }

    /// The mantissa this number has at scale `s`.
    pub open spec fn at_scale(self, s: nat) -> int {
        self.m() * pow10((s - self.s()) as nat)
    }
}

/// Whether `a` is a smaller number than `b`.
pub open spec fn dec_lt(a: Dec, b: Dec) -> bool {
    a.m() * pow10(b.s()) < b.m() * pow10(a.s())
}

/// Whether `a` and `b` are the same number.
pub open spec fn dec_same(a: Dec, b: Dec) -> bool {
    a.m() * pow10(b.s()) == b.m() * pow10(a.s())
}

/// The parts of a decimal written down by its parts.
pub proof fn lemma_of(m: int, s: nat)
    requires
        fits(m),
        s <= MAX_SCALE,
    ensures
        Dec::of(m, s).m() == m,
        Dec::of(m, s).s() == s,
        Dec::of(m, s).wf(),
{
}

/// What a well-formed decimal's parts can be.
pub proof fn lemma_wf(a: Dec)
    requires
        a.wf(),
    ensures
        fits(a.m()),
        a.s() <= MAX_SCALE,
{
}

// ---- the operations of `rust_decimal` -----------------------------------------------------------

/// What `rust_decimal::Decimal::checked_add` returns.
pub uninterp spec fn decimal_sum(a: Dec, b: Dec) -> Option<Dec>;

/// What `rust_decimal::Decimal::checked_sub` returns.
pub uninterp spec fn decimal_difference(a: Dec, b: Dec) -> Option<Dec>;

/// What `rust_decimal::Decimal::checked_mul` returns.
pub uninterp spec fn decimal_product(a: Dec, b: Dec) -> Option<Dec>;

/// What `rust_decimal::Decimal::checked_div` returns.
pub uninterp spec fn decimal_quotient(a: Dec, b: Dec) -> Option<Dec>;

/// Whether `y`, where it is a number, is one in range and no larger than `x`, where that is one.
pub open spec fn no_larger(y: Option<Dec>, x: Option<Dec>) -> bool {
    y is Some ==> y->0.wf() && (x is Some ==> !dec_lt(x->0, y->0))
}

/// What is known of a sum: zero is neutral and keeps the other operand as it is; where both operands
/// and their sum fit at the larger of the two scales the sum is exact and has that scale; the sum of
/// two numbers that are not negative is not negative.
pub open spec fn sum_facts(a: Dec, b: Dec, r: Option<Dec>) -> bool {
    let s = max_scale(a.s(), b.s());
    let exact = a.at_scale(s) + b.at_scale(s);
    &&& r matches Some(x) ==> x.wf()
    &&& a.m() == 0 ==> r == Some(b)
    &&& a.m() != 0 && b.m() == 0 ==> r == Some(a)
    &&& a.m() != 0 && b.m() != 0 && fits(a.at_scale(s)) && fits(b.at_scale(s)) && fits(exact)
        ==> r == Some(Dec::of(exact, s))
    &&& a.m() >= 0 && b.m() >= 0 ==> (r matches Some(x) ==> x.m() >= 0)
}

/// What is known of a difference: the same as of the sum with the second operand's sign turned; the
/// difference from a number that is no larger is not negative; and it keeps the order, a number that is no
/// larger less the same is no larger. The last two hold because a difference that does not fit is rounded
/// by its value alone: to the nearest number, ties to even, with the most decimals at which its mantissa
/// fits.
pub open spec fn difference_facts(a: Dec, b: Dec, r: Option<Dec>) -> bool {
    let s = max_scale(a.s(), b.s());
    let exact = a.at_scale(s) - b.at_scale(s);
    &&& r matches Some(x) ==> x.wf()
    &&& a.m() == 0 ==> r == Some(Dec::of(-b.m(), b.s()))
    &&& a.m() != 0 && b.m() == 0 ==> r == Some(a)
    &&& a.m() != 0 && b.m() != 0 && fits(a.at_scale(s)) && fits(b.at_scale(s)) && fits(exact)
        ==> r == Some(Dec::of(exact, s))
    &&& !dec_lt(a, b) ==> (r matches Some(x) ==> x.m() >= 0)
    &&& forall|c: Dec|
        c.wf() && !dec_lt(a, c) ==> no_larger(#[trigger] decimal_difference(c, b), r)
}

/// What is known of a product: zero times anything is zero at scale 0; where the mantissas' product
/// fits, the product is exact as long as the scales add up to at most 28, and otherwise it is
/// rounded to the nearest number with 28 decimals; operands of one sign give no negative product; at most
/// one times a number that is not negative is at most that number; and times a number that is not negative
/// keeps the order. The last two hold because a product that does not fit is rounded by its value alone: to
/// the nearest number, ties to even, with the most decimals, up to 28, at which its mantissa fits.
pub open spec fn product_facts(a: Dec, b: Dec, r: Option<Dec>) -> bool {
    let s = a.s() + b.s();
    let exact = a.m() * b.m();
    &&& r matches Some(x) ==> x.wf()
    &&& a.m() == 0 || b.m() == 0 ==> r == Some(Dec::of(0, 0))
    &&& exact != 0 && fits(exact) && s <= MAX_SCALE ==> r == Some(Dec::of(exact, s))
    &&& exact != 0 && fits(exact) && s > MAX_SCALE ==> {
        &&& r is Some
        &&& r->0.m() == 0 || r->0.s() == MAX_SCALE
        &&& 2 * magnitude(r->0.m() * pow10((s - MAX_SCALE) as nat) - exact) <= pow10(
            (s - MAX_SCALE) as nat,
        )
    }
    &&& (a.m() >= 0 && b.m() >= 0) || (a.m() <= 0 && b.m() <= 0) ==> (r matches Some(x)
        ==> x.m() >= 0)
    &&& b.m() >= 0 && a.m() <= pow10(a.s()) ==> (r matches Some(x) ==> !dec_lt(b, x))
    &&& b.m() >= 0 ==> forall|c: Dec|
        c.wf() && !dec_lt(a, c) ==> no_larger(#[trigger] decimal_product(c, b), r)
}

/// What is known of a quotient: there is none by zero; zero divided is zero at scale 0; a division
/// of mantissas that comes out even is exact, as far as the result fits; the quotient of two
/// integers `0 <= n <= d` with `0 < d < 2^32` exists and is `n / d` rounded to the nearest number
/// with 28 decimals; a number that is not negative divided by a positive one is not negative; divided by a
/// positive number that is no smaller, a number gives at most one; and division by a positive number keeps
/// the order. The last two hold because a quotient that does not come out even is rounded by its value
/// alone: to the nearest number, ties to even, with the most decimals, up to 28, at which its mantissa
/// fits.
pub open spec fn quotient_facts(a: Dec, b: Dec, r: Option<Dec>) -> bool {
    &&& r matches Some(x) ==> x.wf()
    &&& b.m() == 0 ==> r is None
    &&& b.m() != 0 && a.m() == 0 ==> r == Some(Dec::of(0, 0))
    &&& b.m() > 0 && a.m() > 0 && a.m() % b.m() == 0 && a.s() >= b.s() ==> r == Some(
        Dec::of(a.m() / b.m(), (a.s() - b.s()) as nat),
    )
    &&& a.s() == 0 && b.s() == 0 && 0 <= a.m() <= b.m() && 0 < b.m() < 0x1_0000_0000 ==> {
        &&& r is Some
        &&& 2 * magnitude(r->0.at_scale(MAX_SCALE as nat) * b.m() - a.m() * pow10(MAX_SCALE as nat))
            <= b.m()
    }
    &&& a.m() >= 0 && b.m() > 0 ==> (r matches Some(x) ==> x.m() >= 0)
    &&& b.m() > 0 && !dec_lt(b, a) ==> (r matches Some(x) ==> x.m() <= pow10(x.s()))
    &&& b.m() > 0 ==> forall|c: Dec|
        c.wf() && !dec_lt(a, c) ==> no_larger(#[trigger] decimal_quotient(c, b), r)
}

/// `rust_decimal::Decimal::checked_add`. Trusted: that its result is a function of the two numbers'
/// mantissas and scales, and that it has the properties in [`sum_facts`].
#[verifier::external_body]
fn outside_sum(a: Dec, b: Dec) -> (r: Option<Dec>)
    requires
        a.wf(),
        b.wf(),
    ensures
        r == decimal_sum(a, b),
        sum_facts(a, b, r),
{
    let x = rust_decimal::Decimal::from_i128_with_scale(a.mantissa, a.scale);
    let y = rust_decimal::Decimal::from_i128_with_scale(b.mantissa, b.scale);
    x.checked_add(y).map(|d| Dec { mantissa: d.mantissa(), scale: d.scale() })
}

/// `rust_decimal::Decimal::checked_sub`. Trusted: that its result is a function of the two numbers'
/// mantissas and scales, and that it has the properties in [`difference_facts`].
#[verifier::external_body]
fn outside_difference(a: Dec, b: Dec) -> (r: Option<Dec>)
    requires
        a.wf(),
        b.wf(),
    ensures
        r == decimal_difference(a, b),
        difference_facts(a, b, r),
{
    let x = rust_decimal::Decimal::from_i128_with_scale(a.mantissa, a.scale);
    let y = rust_decimal::Decimal::from_i128_with_scale(b.mantissa, b.scale);
    x.checked_sub(y).map(|d| Dec { mantissa: d.mantissa(), scale: d.scale() })
}

/// `rust_decimal::Decimal::checked_mul`. Trusted: that its result is a function of the two numbers'
/// mantissas and scales, and that it has the properties in [`product_facts`].
#[verifier::external_body]
fn outside_product(a: Dec, b: Dec) -> (r: Option<Dec>)
    requires
        a.wf(),
        b.wf(),
    ensures
        r == decimal_product(a, b),
        product_facts(a, b, r),
{
    let x = rust_decimal::Decimal::from_i128_with_scale(a.mantissa, a.scale);
    let y = rust_decimal::Decimal::from_i128_with_scale(b.mantissa, b.scale);
    x.checked_mul(y).map(|d| Dec { mantissa: d.mantissa(), scale: d.scale() })
}

/// `rust_decimal::Decimal::checked_div`. Trusted: that its result is a function of the two numbers'
/// mantissas and scales, and that it has the properties in [`quotient_facts`].
#[verifier::external_body]
fn outside_quotient(a: Dec, b: Dec) -> (r: Option<Dec>)
    requires
        a.wf(),
        b.wf(),
    ensures
        r == decimal_quotient(a, b),
        quotient_facts(a, b, r),
{
    let x = rust_decimal::Decimal::from_i128_with_scale(a.mantissa, a.scale);
    let y = rust_decimal::Decimal::from_i128_with_scale(b.mantissa, b.scale);
    x.checked_div(y).map(|d| Dec { mantissa: d.mantissa(), scale: d.scale() })
}

/// The `<` of `rust_decimal::Decimal`. Trusted: that it compares the two numbers by value, whatever
/// their scales.
#[verifier::external_body]
fn outside_less(a: Dec, b: Dec) -> (r: bool)
    requires
        a.wf(),
        b.wf(),
    ensures
        r == dec_lt(a, b),
{
    let x = rust_decimal::Decimal::from_i128_with_scale(a.mantissa, a.scale);
    let y = rust_decimal::Decimal::from_i128_with_scale(b.mantissa, b.scale);
    x < y
}

impl Dec {
    /// The number with this mantissa and scale, or `None` if one of them is out of range.
    pub fn new(mantissa: i128, scale: u32) -> (r: Option<Dec>)
        ensures
            r == (if fits(mantissa as int) && scale <= MAX_SCALE {
                Some(Dec::of(mantissa as int, scale as nat))
            } else {
                None::<Dec>
            }),
    {
        if scale <= MAX_SCALE && mantissa < MANTISSA_BOUND && -MANTISSA_BOUND < mantissa {
            Some(Dec { mantissa, scale })
        } else {
            None
        }
    }

    /// An integer as a decimal.
    pub fn from_int(n: i64) -> (r: Dec)
        ensures
            r == Dec::whole(n as int),
            r.wf(),
    {
        Dec { mantissa: n as i128, scale: 0 }
    }

    /// A count as a decimal.
    pub fn from_count(n: usize) -> (r: Dec)
        ensures
            r == Dec::whole(n as int),
            r.wf(),
    {
        Dec { mantissa: n as i128, scale: 0 }
    }

    /// A wide integer as a decimal.
    pub fn from_wide(n: i128) -> (r: Dec)
        requires
            fits(n as int),
        ensures
            r == Dec::whole(n as int),
            r.wf(),
    {
        Dec { mantissa: n, scale: 0 }
    }

    /// The small number `units / 10^scale`.
    pub fn scaled(units: i64, scale: u32) -> (r: Dec)
        requires
            scale <= MAX_SCALE,
        ensures
            r == Dec::of(units as int, scale as nat),
            r.wf(),
    {
        Dec { mantissa: units as i128, scale }
    }

    /// The signed mantissa.
    pub fn mantissa(self) -> (r: i128)
        ensures
            r == self.m(),
    {
        self.mantissa
    }

    /// The scale.
    pub fn scale(self) -> (r: u32)
        ensures
            r == self.s(),
    {
        self.scale
    }

    /// Whether the number is zero.
    pub fn is_zero(self) -> (r: bool)
        ensures
            r == (self.m() == 0),
    {
        self.mantissa == 0
    }

    /// Whether the number is below zero.
    pub fn is_negative(self) -> (r: bool)
        ensures
            r == (self.m() < 0),
    {
        self.mantissa < 0
    }

    /// The number without its sign.
    pub fn abs(self) -> (r: Dec)
        ensures
            r == Dec::of(magnitude(self.m()), self.s()),
    {
        proof {
            use_type_invariant(&self);
        }
        if self.mantissa < 0 {
            Dec { mantissa: -self.mantissa, scale: self.scale }
        } else {
            self
        }
    }

    /// The number with its sign turned.
    pub fn negated(self) -> (r: Dec)
        ensures
            r == Dec::of(-self.m(), self.s()),
    {
        proof {
            use_type_invariant(&self);
        }
        Dec { mantissa: -self.mantissa, scale: self.scale }
    }

    /// `self + other`, or `None` if it is out of range.
    pub fn checked_add(self, other: Dec) -> (r: Option<Dec>)
        ensures
            r == decimal_sum(self, other),
            sum_facts(self, other, r),
    {
        proof {
            use_type_invariant(&self);
            use_type_invariant(&other);
        }
        outside_sum(self, other)
    }

    /// `self - other`, or `None` if it is out of range.
    pub fn checked_sub(self, other: Dec) -> (r: Option<Dec>)
        ensures
            r == decimal_difference(self, other),
            difference_facts(self, other, r),
    {
        proof {
            use_type_invariant(&self);
            use_type_invariant(&other);
        }
        outside_difference(self, other)
    }

    /// `self * other`, or `None` if it is out of range.
    pub fn checked_mul(self, other: Dec) -> (r: Option<Dec>)
        ensures
            r == decimal_product(self, other),
            product_facts(self, other, r),
    {
        proof {
            use_type_invariant(&self);
            use_type_invariant(&other);
        }
        outside_product(self, other)
    }

    /// `self / other`, or `None` if `other` is zero or the quotient is out of range.
    pub fn checked_div(self, other: Dec) -> (r: Option<Dec>)
        ensures
            r == decimal_quotient(self, other),
            quotient_facts(self, other, r),
    {
        proof {
            use_type_invariant(&self);
            use_type_invariant(&other);
        }
        outside_quotient(self, other)
    }

    /// Whether `self` is the smaller number.
    pub fn less_than(self, other: Dec) -> (r: bool)
        ensures
            r == dec_lt(self, other),
    {
        proof {
            use_type_invariant(&self);
            use_type_invariant(&other);
        }
        outside_less(self, other)
    }

    /// Whether the two are the same number, whatever their scales.
    pub fn same_value(self, other: Dec) -> (r: bool)
        ensures
            r == dec_same(self, other),
    {
        !self.less_than(other) && !other.less_than(self)
    }
}

// ---- operations on results that may be out of range ---------------------------------------------

/// The sum of two results; `None` once either is, or the sum is, out of range.
pub open spec fn plus(a: Option<Dec>, b: Option<Dec>) -> Option<Dec> {
    match (a, b) {
        (Some(x), Some(y)) => decimal_sum(x, y),
        _ => None,
    }
}

/// The difference of two results; `None` once either is, or the difference is, out of range.
pub open spec fn minus(a: Option<Dec>, b: Option<Dec>) -> Option<Dec> {
    match (a, b) {
        (Some(x), Some(y)) => decimal_difference(x, y),
        _ => None,
    }
}

/// The product of two results; `None` once either is, or the product is, out of range.
pub open spec fn times(a: Option<Dec>, b: Option<Dec>) -> Option<Dec> {
    match (a, b) {
        (Some(x), Some(y)) => decimal_product(x, y),
        _ => None,
    }
}

/// The quotient of two results; `None` once either is, or the quotient is, out of range.
pub open spec fn over(a: Option<Dec>, b: Option<Dec>) -> Option<Dec> {
    match (a, b) {
        (Some(x), Some(y)) => decimal_quotient(x, y),
        _ => None,
    }
}

/// The result without its sign.
pub open spec fn unsigned(a: Option<Dec>) -> Option<Dec> {
    match a {
        Some(x) => Some(Dec::of(magnitude(x.m()), x.s())),
        None => None,
    }
}

/// The reading that a result amounts to.
pub open spec fn reading(v: Option<Dec>) -> Reading {
    match v {
        Some(x) => Reading::Value(x),
        None => Reading::Fault,
    }
}

/// The sum of a sequence, added up from zero in order.
pub open spec fn total(s: Seq<Dec>) -> Option<Dec>
    decreases s.len(),
{
    if s.len() == 0 {
        Some(Dec::whole(0))
    } else {
        plus(total(s.drop_last()), Some(s.last()))
    }
}

/// The arithmetic mean of a sequence.
pub open spec fn mean(s: Seq<Dec>) -> Option<Dec> {
    over(total(s), Some(Dec::whole(s.len() as int)))
}

/// Computes [`plus`].
pub fn add_results(a: Option<Dec>, b: Option<Dec>) -> (r: Option<Dec>)
    ensures
        r == plus(a, b),
        a is Some && b is Some ==> sum_facts(a->0, b->0, r),
{
    match (a, b) {
        (Some(x), Some(y)) => x.checked_add(y),
        _ => None,
    }
}

/// Computes [`minus`].
pub fn subtract_results(a: Option<Dec>, b: Option<Dec>) -> (r: Option<Dec>)
    ensures
        r == minus(a, b),
        a is Some && b is Some ==> difference_facts(a->0, b->0, r),
{
    match (a, b) {
        (Some(x), Some(y)) => x.checked_sub(y),
        _ => None,
    }
}

/// Computes [`times`].
pub fn multiply_results(a: Option<Dec>, b: Option<Dec>) -> (r: Option<Dec>)
    ensures
        r == times(a, b),
        a is Some && b is Some ==> product_facts(a->0, b->0, r),
{
    match (a, b) {
        (Some(x), Some(y)) => x.checked_mul(y),
        _ => None,
    }
}

/// Computes [`over`].
pub fn divide_results(a: Option<Dec>, b: Option<Dec>) -> (r: Option<Dec>)
    ensures
        r == over(a, b),
        a is Some && b is Some ==> quotient_facts(a->0, b->0, r),
{
    match (a, b) {
        (Some(x), Some(y)) => x.checked_div(y),
        _ => None,
    }
}

/// Computes [`unsigned`].
pub fn unsign_result(a: Option<Dec>) -> (r: Option<Dec>)
    ensures
        r == unsigned(a),
{
    match a {
        Some(x) => Some(x.abs()),
        None => None,
    }
}

/// Computes [`reading`].
pub fn read_result(v: Option<Dec>) -> (r: Reading)
    ensures
        r == reading(v),
{
    match v {
        Some(x) => Reading::Value(x),
        None => Reading::Fault,
    }
}

/// Computes [`total`].
pub fn sum_all(values: &Vec<Dec>) -> (r: Option<Dec>)
    ensures
        r == total(values@),
{
    let mut acc: Option<Dec> = Some(Dec::from_int(0));
    let mut i: usize = 0;
    while i < values.len()
        invariant
            i <= values.len(),
            acc == total(values@.take(i as int)),
        decreases values.len() - i,
    {
        assert(values@.take(i + 1).drop_last() =~= values@.take(i as int));
        acc = add_results(acc, Some(values[i]));
        i = i + 1;
    }
    assert(values@.take(i as int) =~= values@);
    acc
}

/// Computes [`mean`].
pub fn average(values: &Vec<Dec>) -> (r: Option<Dec>)
    ensures
        r == mean(values@),
{
    divide_results(sum_all(values), Some(Dec::from_count(values.len())))
}

// ---- square root ---------------------------------------------------------------------------------

/// One Babylonian step from `guess` towards the square root of `x`.
pub open spec fn sqrt_step(x: Dec, guess: Dec) -> Option<Dec> {
    over(plus(Some(guess), over(Some(x), Some(guess))), Some(Dec::whole(2)))
}

/// Babylonian steps from `guess` until two guesses in a row are the same number, at most `steps`.
pub open spec fn sqrt_settle(x: Dec, guess: Dec, last: Dec, steps: nat) -> Reading
    decreases steps,
{
    if dec_same(last, guess) {
        Reading::Value(guess)
    } else if steps == 0 {
        Reading::Fault
    } else {
        match sqrt_step(x, guess) {
            Some(next) => sqrt_settle(x, next, guess, (steps - 1) as nat),
            None => Reading::Fault,
        }
    }
}

/// The first guess at the square root of `x`: its half, or `x` itself if the half rounds to zero.
pub open spec fn sqrt_guess(x: Dec, half: Dec) -> Dec {
    if half.m() == 0 {
        x
    } else {
        half
    }
}

/// The square root by the Babylonian method: undefined below zero, zero at zero, and otherwise the fixed
/// point of the steps. Where two guesses take turns for ever, as at `4 + 3e-28`, or a step leaves the
/// representable range, it is a fault.
pub open spec fn square_root(x: Dec) -> Reading {
    if x.m() < 0 {
        Reading::Undefined
    } else if x.m() == 0 {
        Reading::Value(Dec::whole(0))
    } else {
        match decimal_quotient(x, Dec::whole(2)) {
            Some(half) => match decimal_sum(sqrt_guess(x, half), Dec::whole(1)) {
                Some(last) => sqrt_settle(x, sqrt_guess(x, half), last, SQRT_STEPS as nat),
                None => Reading::Fault,
            },
            None => Reading::Fault,
        }
    }
}

/// Settling ends in a value or in a fault.
proof fn lemma_settle_defined(x: Dec, guess: Dec, last: Dec, steps: nat)
    ensures
        !(sqrt_settle(x, guess, last, steps) is Undefined),
    decreases steps,
{
    if steps > 0 && sqrt_step(x, guess) is Some {
        lemma_settle_defined(x, sqrt_step(x, guess)->0, guess, (steps - 1) as nat);
    }
}

/// The square root is undefined below zero, and nowhere else.
pub proof fn law_square_root_undefined_only_below_zero(x: Dec)
    ensures
        square_root(x) is Undefined <==> x.m() < 0,
{
    if x.m() > 0 {
        if let Some(half) = decimal_quotient(x, Dec::whole(2)) {
            if let Some(last) = decimal_sum(sqrt_guess(x, half), Dec::whole(1)) {
                lemma_settle_defined(x, sqrt_guess(x, half), last, SQRT_STEPS as nat);
            }
        }
    }
}

impl Dec {
    /// The square root; undefined for a number below zero.
    ///
    /// The steps are taken here, on `rust_decimal`'s sums and quotients, because its own `sqrt` aborts
    /// the program where they do not settle.
    pub fn sqrt(self) -> (r: Reading)
        ensures
            r == square_root(self),
            r is Undefined <==> self.m() < 0,
    {
        proof {
            law_square_root_undefined_only_below_zero(self);
        }
        if self.is_negative() {
            return Reading::Undefined;
        }
        if self.is_zero() {
            return Reading::Value(Dec::from_int(0));
        }
        let half: Dec = match self.checked_div(Dec::from_int(2)) {
            Some(h) => h,
            None => {
                return Reading::Fault;
            },
        };
        let mut guess: Dec = if half.is_zero() {
            self
        } else {
            half
        };
        let mut last: Dec = match guess.checked_add(Dec::from_int(1)) {
            Some(l) => l,
            None => {
                return Reading::Fault;
            },
        };
        let mut steps: u32 = SQRT_STEPS;
        while !last.same_value(guess)
            invariant
                square_root(self) == sqrt_settle(self, guess, last, steps as nat),
            decreases steps,
        {
            if steps == 0 {
                return Reading::Fault;
            }
            let next: Option<Dec> = divide_results(
                add_results(Some(guess), self.checked_div(guess)),
                Some(Dec::from_int(2)),
            );
            match next {
                Some(n) => {
                    last = guess;
                    guess = n;
                },
                None => {
                    return Reading::Fault;
                },
            }
            steps = steps - 1;
        }
        Reading::Value(guess)
    }
}

// ---- whole units ---------------------------------------------------------------------------------

/// The whole units in a number: its floor if that is not negative and below `2^64`, else 0.
pub open spec fn whole_units(x: Dec) -> u64 {
    if x.m() < 0 || x.m() / pow10(x.s()) > u64::MAX {
        0
    } else {
        (x.m() / pow10(x.s())) as u64
    }
}

/// A number that is no larger, and at most `2^64 - 1`, has no more whole units.
pub proof fn lemma_whole_units_keep_order(low: Dec, high: Dec)
    requires
        !dec_lt(high, low),
        high.m() / pow10(high.s()) <= u64::MAX,
    ensures
        whole_units(low) <= whole_units(high),
{
    let a = low.m();
    let b = high.m();
    let p = pow10(low.s());
    let q = pow10(high.s());
    lemma_pow10_positive(low.s());
    lemma_pow10_positive(high.s());
    if a >= 0 {
        assert(b >= 0) by (nonlinear_arith)
            requires
                0 <= a,
                a * q <= b * p,
                p >= 1,
                q >= 1,
        ;
        assert(0 <= a / p <= b / q) by (nonlinear_arith)
            requires
                0 <= a,
                a * q <= b * p,
                p >= 1,
                q >= 1,
        {
            let x = a / p;
            assert(x * p <= a);
            assert(x * p * q <= a * q);
            assert((x * q) * p <= b * p);
            assert(x * q <= b);
            assert(x <= b / q);
        }
    }
}

/// Powers of ten are positive, and grow.
pub proof fn lemma_pow10_positive(n: nat)
    ensures
        pow10(n) >= 1,
    decreases n,
{
    if n > 0 {
        lemma_pow10_positive((n - 1) as nat);
    }
}

/// `10^(a + b) = 10^a * 10^b`.
pub proof fn lemma_pow10_add(a: nat, b: nat)
    ensures
        pow10(a + b) == pow10(a) * pow10(b),
    decreases a,
{
    if a > 0 {
        lemma_pow10_add((a - 1) as nat, b);
        assert(pow10(a + b) == 10 * pow10((a - 1) as nat + b));
        assert(10 * (pow10((a - 1) as nat) * pow10(b)) == (10 * pow10((a - 1) as nat)) * pow10(b))
            by (nonlinear_arith);
    }
}

/// `10^28`, written out.
pub proof fn lemma_pow10_max()
    ensures
        pow10(MAX_SCALE as nat) == 10_000_000_000_000_000_000_000_000_000,
{
    reveal_with_fuel(pow10, 29);
}

/// A power of ten that divides `10^28` is no larger.
pub proof fn lemma_pow10_bounded(n: nat)
    requires
        n <= MAX_SCALE,
    ensures
        1 <= pow10(n) <= 10_000_000_000_000_000_000_000_000_000,
        pow10(n) * pow10((MAX_SCALE - n) as nat) == pow10(MAX_SCALE as nat),
{
    lemma_pow10_max();
    lemma_pow10_add(n, (MAX_SCALE - n) as nat);
    lemma_pow10_positive(n);
    lemma_pow10_positive((MAX_SCALE - n) as nat);
    let x = pow10(n);
    let y = pow10((MAX_SCALE - n) as nat);
    assert(x <= x * y) by (nonlinear_arith)
        requires
            x >= 1,
            y >= 1,
    ;
}

/// `10^s`, computed.
fn power_of_ten(s: u32) -> (r: i128)
    requires
        s <= MAX_SCALE,
    ensures
        r == pow10(s as nat),
        r >= 1,
{
    let mut p: i128 = 1;
    let mut i: u32 = 0;
    while i < s
        invariant
            i <= s <= MAX_SCALE,
            p == pow10(i as nat),
        decreases s - i,
    {
        proof {
            lemma_pow10_bounded((i + 1) as nat);
        }
        p = 10 * p;
        i = i + 1;
    }
    proof {
        lemma_pow10_positive(s as nat);
    }
    p
}

impl Dec {
    /// The whole units in the number: its floor if that is not negative and below `2^64`, else 0.
    pub fn units(self) -> (r: u64)
        ensures
            r == whole_units(self),
    {
        proof {
            use_type_invariant(&self);
        }
        if self.mantissa < 0 {
            return 0;
        }
        let p: i128 = power_of_ten(self.scale);
        let q: i128 = self.mantissa / p;
        if q > u64::MAX as i128 {
            0
        } else {
            proof {
                let m = self.mantissa as int;
                let d = p as int;
                assert(m / d >= 0) by (nonlinear_arith)
                    requires
                        m >= 0,
                        d >= 1,
                ;
            }
            q as u64
        }
    }
}

// ---- order ---------------------------------------------------------------------------------------

/// Two numbers compare as their mantissas do at the largest scale.
pub proof fn lemma_lt_at_max_scale(a: Dec, b: Dec)
    requires
        a.wf(),
        b.wf(),
    ensures
        dec_lt(a, b) <==> a.at_scale(MAX_SCALE as nat) < b.at_scale(MAX_SCALE as nat),
        dec_same(a, b) <==> a.at_scale(MAX_SCALE as nat) == b.at_scale(MAX_SCALE as nat),
{
    lemma_pow10_bounded(a.s());
    lemma_pow10_bounded(b.s());
    let pa = pow10(a.s());
    let pb = pow10(b.s());
    let qa = pow10((MAX_SCALE - a.s()) as nat);
    let qb = pow10((MAX_SCALE - b.s()) as nat);
    let top = pow10(MAX_SCALE as nat);
    let x = a.m();
    let y = b.m();
    lemma_pow10_max();
    // Both sides of the comparison, multiplied up to a common factor.
    assert((x * qa) * (pa * pb) == (x * pb) * top) by (nonlinear_arith)
        requires
            pa * qa == top,
    ;
    assert((y * qb) * (pa * pb) == (y * pa) * top) by (nonlinear_arith)
        requires
            pb * qb == top,
    ;
    let l = x * qa;
    let r = y * qb;
    let c = pa * pb;
    let u = x * pb;
    let v = y * pa;
    assert(c >= 1) by (nonlinear_arith)
        requires
            c == pa * pb,
            pa >= 1,
            pb >= 1,
    ;
    assert((l < r) <==> (l * c < r * c)) by (nonlinear_arith)
        requires
            c >= 1,
    ;
    assert((u < v) <==> (u * top < v * top)) by (nonlinear_arith)
        requires
            top >= 1,
    ;
    assert((l == r) <==> (l * c == r * c)) by (nonlinear_arith)
        requires
            c >= 1,
    ;
    assert((u == v) <==> (u * top == v * top)) by (nonlinear_arith)
        requires
            top >= 1,
    ;
}

/// Of any two numbers one is the smaller, unless they are the same.
pub proof fn law_order_is_total(a: Dec, b: Dec)
    requires
        a.wf(),
        b.wf(),
    ensures
        !dec_lt(a, a),
        dec_lt(a, b) || dec_lt(b, a) || dec_same(a, b),
        !(dec_lt(a, b) && dec_lt(b, a)),
        dec_same(a, b) ==> !dec_lt(a, b) && !dec_lt(b, a),
{
}

/// If `a < b` and `b <= c` then `a < c`.
pub proof fn law_order_is_transitive(a: Dec, b: Dec, c: Dec)
    requires
        a.wf(),
        b.wf(),
        c.wf(),
        dec_lt(a, b),
        !dec_lt(c, b),
    ensures
        dec_lt(a, c),
{
    lemma_lt_at_max_scale(a, b);
    lemma_lt_at_max_scale(c, b);
    lemma_lt_at_max_scale(a, c);
}

} // verus!
