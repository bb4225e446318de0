//! Indicators, features, regimes, genomes and bar reconstruction.

pub mod bars;
pub mod catalogue;
pub mod expr;
pub mod feature;
pub mod genome;
pub mod indicator;
pub mod parity;
pub mod price;
pub mod price_laws;
pub mod quant;
pub mod reconstruct;
pub mod reference;
pub mod regime;
pub mod roll;

use vstd::prelude::*;

verus! {

/// The name of this package.
pub fn crate_name() -> (r: &'static str)
    ensures
        r@ == "qe-signal"@,
{
    "qe-signal"
}

} // verus!
