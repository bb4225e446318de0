//! Double-precision numbers held by their bits, and the tests a sealed artefact makes of them.

use vstd::prelude::*;

verus! {

/// A double-precision number, held by its bits: the sign on top, then eleven bits of exponent, then
/// fifty-two of fraction.
#[derive(Debug, Clone, Copy, PartialEq, Eq, Default, Structural)]
pub struct Figure {
    /// The bits.
    pub bits: u64,
}

/// The number of fractions under one sign and exponent.
pub const FRACTIONS: u64 = 0x0010_0000_0000_0000;

/// The number of exponents.
pub const EXPONENTS: u64 = 2048;

/// The bits of negative zero. The bits of every number below zero are greater.
pub const NEGATIVE_ZERO: u64 = 0x8000_0000_0000_0000;

impl Figure {
    /// The exponent bits.
    pub open spec fn exponent(self) -> int {
        (self.bits / FRACTIONS) as int % EXPONENTS as int
    }

    /// Whether this is a number: neither an infinity nor a not-a-number, which have the last exponent.
    pub open spec fn finite(self) -> bool {
        self.exponent() != EXPONENTS - 1
    }

    /// Whether this lies below zero; said of finite numbers only.
    pub open spec fn below_zero(self) -> bool {
        self.bits > NEGATIVE_ZERO
    }

    /// Whether this is a number, neither an infinity nor a not-a-number.
    pub fn is_finite(self) -> (r: bool)
        ensures
            r == self.finite(),
    {
        (self.bits / FRACTIONS) % EXPONENTS != EXPONENTS - 1
    }

    /// Whether this, a finite number, lies below zero.
    pub fn is_below_zero(self) -> (r: bool)
        requires
            self.finite(),
        ensures
            r == self.below_zero(),
    {
        self.bits > NEGATIVE_ZERO
    }
}

/// The first position from `from` on at which a figure is not finite.
pub open spec fn first_not_finite(figures: Seq<Figure>, from: int) -> Option<int>
    decreases figures.len() - from,
{
    if from < 0 || from >= figures.len() {
        None
    } else if !figures[from].finite() {
        Some(from)
    } else {
        first_not_finite(figures, from + 1)
    }
}

/// [`first_not_finite`] names a figure that is not finite and behind only finite ones; it names none
/// where all are finite.
pub proof fn law_first_not_finite(figures: Seq<Figure>, from: int)
    requires
        0 <= from,
    ensures
        match first_not_finite(figures, from) {
            Some(p) => from <= p < figures.len() && !figures[p].finite() && forall|i: int|
                from <= i < p ==> (#[trigger] figures[i]).finite(),
            None => forall|i: int| from <= i < figures.len() ==> (#[trigger] figures[i]).finite(),
        },
    decreases figures.len() - from,
{
    if from < figures.len() && figures[from].finite() {
        law_first_not_finite(figures, from + 1);
    }
}

/// The first position at which a figure is not finite.
pub fn find_not_finite(figures: &[Figure]) -> (r: Option<usize>)
    ensures
        match r {
            Some(p) => first_not_finite(figures@, 0) == Some(p as int),
            None => first_not_finite(figures@, 0) is None,
        },
{
    let mut i: usize = 0;
    while i < figures.len()
        invariant
            i <= figures.len(),
            first_not_finite(figures@, 0) == first_not_finite(figures@, i as int),
        decreases figures.len() - i,
    {
        if !figures[i].is_finite() {
            return Some(i);
        }
        i = i + 1;
    }
    None
}

/// Puts the figures from `k` on in place of those of `out`.
pub fn refill(out: &mut Vec<Figure>, from: &[Figure], k: usize)
    requires
        k + old(out).len() <= from.len(),
    ensures
        final(out)@ == from@.subrange(k as int, k + old(out).len()),
{
    let n: usize = out.len();
    let mut i: usize = 0;
    while i < n
        invariant
            i <= n == out.len(),
            k + n <= from.len(),
            forall|j: int| 0 <= j < i ==> #[trigger] out@[j] == from@[k + j],
        decreases n - i,
    {
        out.set(i, from[k + i]);
        i = i + 1;
    }
    assert(out@ =~= from@.subrange(k as int, k + n));
}

/// The figure of an optional figure, if there is one.
pub open spec fn option_figures(o: Option<Figure>) -> Seq<Figure> {
    match o {
        Some(f) => seq![f],
        None => Seq::empty(),
    }
}

/// Puts the figure at `k` in place of an optional one, where there is one, and returns where the
/// figures behind it begin.
pub fn refill_option(out: &mut Option<Figure>, from: &[Figure], k: usize) -> (r: usize)
    requires
        k + option_figures(*old(out)).len() <= from.len(),
    ensures
        r == k + option_figures(*old(out)).len(),
        option_figures(*final(out)) == from@.subrange(k as int, r as int),
        *final(out) is Some <==> *old(out) is Some,
{
    if out.is_some() {
        *out = Some(from[k]);
        assert(option_figures(*out) =~= from@.subrange(k as int, k + 1));
        k + 1
    } else {
        assert(option_figures(*out) =~= from@.subrange(k as int, k as int));
        k
    }
}

/// A figure is finite unless all eleven of its exponent bits are set, and one with its sign bit set lies
/// below zero unless it is zero.
pub proof fn law_figures_are_read_by_their_bits(f: Figure)
    ensures
        f.finite() <==> (f.bits / 0x10_0000_0000_0000) % 2048 != 2047,
        f.below_zero() <==> f.bits > 0x8000_0000_0000_0000,
{
}

} // verus!
