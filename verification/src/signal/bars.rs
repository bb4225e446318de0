//! One time-step of input, and the rolling view of the last bars that the price indicators read.

use vstd::prelude::*;

use crate::decimal::{add_results, divide_results, over, plus, Dec};
use crate::domain::{Bar, BarData};
use crate::signal::roll::{last_n, Roll};

verus! {

/// One time-step of input: the bar, and the scalars that the flow factors read.
#[derive(Debug, Clone, Copy, PartialEq, Eq)]
pub struct Sample {
    /// The bar.
    pub bar: Bar,
    /// The funding rate at this step, if known.
    pub funding: Option<Dec>,
    /// The open interest at this step, if known.
    pub open_interest: Option<Dec>,
    /// The premium over the underlier at this step, if known.
    pub premium: Option<Dec>,
}

impl Sample {
    /// A sample of a bar alone.
    pub fn from_bar(bar: Bar) -> (r: Sample)
        ensures
            r == (Sample { bar, funding: None, open_interest: None, premium: None }),
    {
        Sample { bar, funding: None, open_interest: None, premium: None }
    }
}

/// The typical price of a bar, `(high + low + close) / 3`.
pub open spec fn typical_price(bar: BarData) -> Option<Dec> {
    over(
        plus(plus(Some(bar.high), Some(bar.low)), Some(bar.close)),
        Some(Dec::whole(3)),
    )
}

/// Computes [`typical_price`].
pub fn typical_price_of(bar: &Bar) -> (r: Option<Dec>)
    ensures
        r == typical_price(bar@),
{
    divide_results(
        add_results(
            add_results(Some(bar.high().get()), Some(bar.low().get())),
            Some(bar.close().get()),
        ),
        Some(Dec::from_int(3)),
    )
}

/// The fields of the last bars, one sequence per field, oldest first.
pub struct Window {
    /// Closing prices.
    pub close: Seq<Dec>,
    /// Highest prices.
    pub high: Seq<Dec>,
    /// Lowest prices.
    pub low: Seq<Dec>,
    /// Volumes.
    pub volume: Seq<Dec>,
    /// Typical prices.
    pub typical: Seq<Dec>,
}

impl Window {
    /// A window over no bar.
    pub open spec fn empty() -> Window {
        Window {
            close: Seq::empty(),
            high: Seq::empty(),
            low: Seq::empty(),
            volume: Seq::empty(),
            typical: Seq::empty(),
        }
    }

    /// Whether every field has `n` values.
    pub open spec fn has_len(self, n: int) -> bool {
        &&& self.close.len() == n
        &&& self.high.len() == n
        &&& self.low.len() == n
        &&& self.volume.len() == n
        &&& self.typical.len() == n
    }

    /// The window of at most `cap` bars after one more bar with this typical price.
    pub open spec fn slide(self, bar: BarData, typical: Dec, cap: int) -> Window {
        Window {
            close: last_n(self.close.push(bar.close), cap),
            high: last_n(self.high.push(bar.high), cap),
            low: last_n(self.low.push(bar.low), cap),
            volume: last_n(self.volume.push(bar.volume), cap),
            typical: last_n(self.typical.push(typical), cap),
        }
    }
}

/// The fields of these bars as a window.
pub open spec fn window_of(bars: Seq<BarData>) -> Window {
    Window {
        close: Seq::new(bars.len(), |i: int| bars[i].close),
        high: Seq::new(bars.len(), |i: int| bars[i].high),
        low: Seq::new(bars.len(), |i: int| bars[i].low),
        volume: Seq::new(bars.len(), |i: int| bars[i].volume),
        typical: Seq::new(bars.len(), |i: int| typical_price(bars[i])->0),
    }
}

/// Sliding the window of the last `cap` bars gives the window of the last `cap` bars.
pub proof fn lemma_window_slides(bars: Seq<BarData>, bar: BarData, cap: int)
    requires
        cap >= 1,
    ensures
        window_of(last_n(bars, cap)).slide(bar, typical_price(bar)->0, cap) == window_of(
            last_n(bars.push(bar), cap),
        ),
{
    let a = window_of(last_n(bars, cap)).slide(bar, typical_price(bar)->0, cap);
    let b = window_of(last_n(bars.push(bar), cap));
    assert(a.close =~= b.close);
    assert(a.high =~= b.high);
    assert(a.low =~= b.low);
    assert(a.volume =~= b.volume);
    assert(a.typical =~= b.typical);
}

/// A rolling view of the last bars' fields.
#[derive(Debug)]
pub struct Bars {
    close: Roll,
    high: Roll,
    low: Roll,
    volume: Roll,
    typical: Roll,
}

impl View for Bars {
    type V = Window;

    closed spec fn view(&self) -> Window {
        Window {
            close: self.close@,
            high: self.high@,
            low: self.low@,
            volume: self.volume@,
            typical: self.typical@,
        }
    }
}

impl Bars {
    /// How many bars the view spans.
    pub closed spec fn capacity(self) -> int {
        self.close.capacity()
    }

    /// What holds of every view that exists at run time.
    #[verifier::type_invariant]
    pub closed spec fn valid(self) -> bool {
        let n = self.close@.len() as int;
        let cap = self.close.capacity();
        &&& self@.has_len(n)
        &&& 1 <= cap
        &&& n <= cap
        &&& self.high.capacity() == cap
        &&& self.low.capacity() == cap
        &&& self.volume.capacity() == cap
        &&& self.typical.capacity() == cap
    }

    /// Whether the view holds as many bars as it spans.
    pub open spec fn full(self) -> bool {
        self@.close.len() == self.capacity()
    }

    /// An empty view over `cap` bars, or over one if `cap` is zero.
    pub fn new(cap: usize) -> (r: Bars)
        ensures
            r@ == Window::empty(),
            r.capacity() == (if cap == 0 {
                1int
            } else {
                cap as int
            }),
    {
        let r = Bars {
            close: Roll::new(cap),
            high: Roll::new(cap),
            low: Roll::new(cap),
            volume: Roll::new(cap),
            typical: Roll::new(cap),
        };
        r
    }

    /// Takes in one bar. Returns `false`, and changes nothing, if its typical price is out of range.
    pub fn observe(&mut self, bar: &Bar) -> (ok: bool)
        ensures
            ok == (typical_price(bar@) is Some),
            final(self).capacity() == old(self).capacity(),
            ok ==> final(self)@ == old(self)@.slide(
                bar@,
                typical_price(bar@)->0,
                old(self).capacity(),
            ),
            !ok ==> final(self)@ == old(self)@,
    {
        proof {
            use_type_invariant(&*self);
        }
        match typical_price_of(bar) {
            Some(typical) => {
                let mut next = Bars::new(1);
                std::mem::swap(self, &mut next);
                let Bars { close: mut c, high: mut h, low: mut l, volume: mut v, typical: mut t } =
                    next;
                c.push(bar.close().get());
                h.push(bar.high().get());
                l.push(bar.low().get());
                v.push(bar.volume().get());
                t.push(typical);
                *self = Bars { close: c, high: h, low: l, volume: v, typical: t };
                true
            },
            None => false,
        }
    }

    /// Whether the view holds as many bars as it spans.
    pub fn is_full(&self) -> (r: bool)
        ensures
            r == self.full(),
    {
        self.close.is_full()
    }

    /// How many bars the view spans.
    pub fn cap(&self) -> (r: usize)
        ensures
            r == self.capacity(),
            r >= 1,
            self@.has_len(self@.close.len() as int),
            self@.close.len() <= r,
    {
        proof {
            use_type_invariant(self);
        }
        self.close.cap()
    }

    /// Empties the view.
    pub fn clear(&mut self)
        ensures
            final(self).capacity() == old(self).capacity(),
            final(self)@ == Window::empty(),
    {
        let cap: usize = self.cap();
        *self = Bars::new(cap);
    }

    /// The closing prices.
    pub fn close(&self) -> (r: &Roll)
        ensures
            r@ == self@.close,
    {
        &self.close
    }

    /// The highest prices.
    pub fn high(&self) -> (r: &Roll)
        ensures
            r@ == self@.high,
    {
        &self.high
    }

    /// The lowest prices.
    pub fn low(&self) -> (r: &Roll)
        ensures
            r@ == self@.low,
    {
        &self.low
    }

    /// The volumes.
    pub fn volume(&self) -> (r: &Roll)
        ensures
            r@ == self@.volume,
    {
        &self.volume
    }

    /// The typical prices.
    pub fn typical(&self) -> (r: &Roll)
        ensures
            r@ == self@.typical,
    {
        &self.typical
    }
}

} // verus!
