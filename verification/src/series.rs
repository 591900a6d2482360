use vstd::prelude::*;
use crate::decimal::Dec;

verus! {

/// Number of trading-day slots in every series.
pub const WINDOW: usize = 15;

/// One symbol's trailing price/volume window.
///
/// `prices[0]` / `volumes[0]` belong to the most recent trading day,
/// `prices[14]` / `volumes[14]` (the baseline) to the oldest.  Slots beyond
/// the available history hold the zero sentinel; both sequences always have
/// exactly 15 positionally aligned entries.
pub struct SymbolSeries {
    pub symbol: String,
    pub prices: Vec<Dec>,
    pub volumes: Vec<i64>,
}

impl SymbolSeries {
    pub open spec fn wf(self) -> bool {
        &&& self.prices@.len() == WINDOW
        &&& self.volumes@.len() == WINDOW
        &&& forall|i: int| 0 <= i < WINDOW ==> (#[trigger] self.prices@[i]).wf()
    }

    /// Builds a fully initialized series from exactly 15 aligned slots.
    pub fn new(symbol: String, prices: Vec<Dec>, volumes: Vec<i64>) -> (s: SymbolSeries)
        requires
            prices@.len() == WINDOW,
            volumes@.len() == WINDOW,
            forall|i: int| 0 <= i < WINDOW ==> (#[trigger] prices@[i]).wf(),
        ensures
            s.symbol == symbol,
            s.prices == prices,
            s.volumes == volumes,
            s.wf(),
    {
        SymbolSeries { symbol, prices, volumes }
    }
}

} // verus!
