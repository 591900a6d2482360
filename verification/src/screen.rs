use vstd::prelude::*;
use crate::decimal::{Dec, dec_lt, ratio_ge, lemma_pow10_pos, lemma_cross_mul_bound, pow10_exec};
use crate::series::SymbolSeries;

verus! {

/// Why a verdict came out the way it did.
#[derive(Clone, Copy, PartialEq, Eq, Structural, Debug)]
pub enum Reason {
    /// The oldest day's volume is zero: the growth ratios are undefined and
    /// the series (for instance one padded from short history) fails closed.
    ZeroBaselineVolume,
    /// The oldest day's price is zero, with the same consequence.
    ZeroBaselinePrice,
    /// Both baselines were usable and all three factors were evaluated.
    Evaluated,
}

/// Outcome of screening one series: the overall pass/fail plus the three
/// factor sub-results, kept for diagnostics.  Factors cut off by a zero
/// baseline are recorded as failed.
#[derive(Clone, Copy, PartialEq, Eq, Structural, Debug)]
pub struct Verdict {
    pub passes: bool,
    pub momentum: bool,
    pub volume_growth: bool,
    pub price_growth: bool,
    pub reason: Reason,
}

/// Number of day-over-day price increases among the first `n` comparisons,
/// comparison `j` asking whether day `j` closed above day `j + 1`.
pub open spec fn up_days(prices: Seq<Dec>, n: nat) -> nat
    decreases n,
{
    if n == 0 {
        0
    } else {
        up_days(prices, (n - 1) as nat) + if dec_lt(prices[n as int], prices[n - 1]) {
            1nat
        } else {
            0nat
        }
    }
}

/// Momentum factor: strictly more than 0.8 of the 14 day-over-day comparisons
/// are increases, which for integers means at least 12 up-days.
pub open spec fn momentum_passes(s: SymbolSeries) -> bool {
    up_days(s.prices@, 14) >= 12
}

pub open spec fn volume_baseline_missing(s: SymbolSeries) -> bool {
    s.volumes@[14] == 0
}

/// Volume factor: `(volumes[0] - volumes[14]) / volumes[14] >= 1/4`, exactly.
pub open spec fn volume_growth_ok(s: SymbolSeries) -> bool {
    ratio_ge(s.volumes@[0] - s.volumes@[14], s.volumes@[14] as int, 1, 4)
}

pub open spec fn price_baseline_missing(s: SymbolSeries) -> bool {
    s.prices@[14].is_zero_spec()
}

/// Numerator of the exact price growth ratio `(prices[0] - prices[14]) / prices[14]`,
/// after both decimals are brought to the common denominator.
pub open spec fn price_ratio_num(s: SymbolSeries) -> int {
    s.prices@[0].mantissa * s.prices@[14].den() - s.prices@[14].mantissa * s.prices@[0].den()
}

/// Denominator of the exact price growth ratio.
pub open spec fn price_ratio_den(s: SymbolSeries) -> int {
    s.prices@[14].mantissa * s.prices@[0].den()
}

/// Price factor: `(prices[0] - prices[14]) / prices[14] >= 1/5`, exactly.
pub open spec fn price_growth_ok(s: SymbolSeries) -> bool {
    ratio_ge(price_ratio_num(s), price_ratio_den(s), 1, 5)
}

/// The screening rule.  Momentum is computed first; a zero baseline volume
/// then ends evaluation, a zero baseline price ends it after the volume
/// factor; otherwise the verdict is the conjunction of the three factors.
pub open spec fn spec_verdict(s: SymbolSeries) -> Verdict {
    let m = momentum_passes(s);
    if volume_baseline_missing(s) {
        Verdict {
            passes: false,
            momentum: m,
            volume_growth: false,
            price_growth: false,
            reason: Reason::ZeroBaselineVolume,
        }
    } else if price_baseline_missing(s) {
        Verdict {
            passes: false,
            momentum: m,
            volume_growth: volume_growth_ok(s),
            price_growth: false,
            reason: Reason::ZeroBaselinePrice,
        }
    } else {
        let v = volume_growth_ok(s);
        let p = price_growth_ok(s);
        Verdict {
            passes: m && v && p,
            momentum: m,
            volume_growth: v,
            price_growth: p,
            reason: Reason::Evaluated,
        }
    }
}

/// Screens one series.  Pure: the verdict is a function of the series alone.
pub fn evaluate(s: &SymbolSeries) -> (v: Verdict)
    requires
        s.wf(),
    ensures
        v == spec_verdict(*s),
{
    let mut up: u32 = 0;
    let mut i: usize = 0;
    while i < 14
        invariant
            s.wf(),
            i <= 14,
            up == up_days(s.prices@, i as nat),
            up <= i,
        decreases 14 - i,
    {
        if s.prices[i + 1].lt(&s.prices[i]) {
            up = up + 1;
        }
        i = i + 1;
    }
    let momentum = up >= 12;

    if s.volumes[14] == 0 {
        return Verdict {
            passes: false,
            momentum,
            volume_growth: false,
            price_growth: false,
            reason: Reason::ZeroBaselineVolume,
        };
    }
    let v0 = s.volumes[0] as i128;
    let v14 = s.volumes[14] as i128;
    let vnum = v0 - v14;
    let volume_growth = if v14 > 0 {
        4 * vnum >= v14
    } else {
        4 * vnum <= v14
    };

    if s.prices[14].is_zero() {
        return Verdict {
            passes: false,
            momentum,
            volume_growth,
            price_growth: false,
            reason: Reason::ZeroBaselinePrice,
        };
    }
    let p0 = s.prices[0];
    let p14 = s.prices[14];
    let t0 = pow10_exec(p0.scale);
    let t14 = pow10_exec(p14.scale);
    proof {
        lemma_cross_mul_bound(p0.mantissa as int, t14 as int);
        lemma_cross_mul_bound(p14.mantissa as int, t0 as int);
    }
    let a: i128 = (p0.mantissa as i128) * (t14 as i128);
    let b: i128 = (p14.mantissa as i128) * (t0 as i128);
    let pnum = a - b;
    let price_growth = if b > 0 {
        5 * pnum >= b
    } else {
        5 * pnum <= b
    };

    let passes = momentum && volume_growth && price_growth;
    Verdict { passes, momentum, volume_growth, price_growth, reason: Reason::Evaluated }
}

/// The boolean screen alone: does the series satisfy the MVP rule?
pub fn check_mvp(s: &SymbolSeries) -> (r: bool)
    requires
        s.wf(),
    ensures
        r == spec_verdict(*s).passes,
{
    evaluate(s).passes
}

/// The verdict is determined by the price and volume data alone: series with
/// equal windows (whatever their symbols) are scored identically, and with it
/// any repeated evaluation of one series.
pub proof fn lemma_deterministic(a: SymbolSeries, b: SymbolSeries)
    requires
        a.prices@ == b.prices@,
        a.volumes@ == b.volumes@,
    ensures
        spec_verdict(a) == spec_verdict(b),
{
}

/// A passing verdict demands exactly: usable baselines and all three factors.
pub proof fn lemma_verdict_characterization(s: SymbolSeries)
    ensures
        spec_verdict(s).passes <==> {
            &&& momentum_passes(s)
            &&& !volume_baseline_missing(s)
            &&& volume_growth_ok(s)
            &&& !price_baseline_missing(s)
            &&& price_growth_ok(s)
        },
{
}

/// Zero-guard precedence: a zero baseline volume or zero baseline price
/// forces a failing verdict, whatever every other value is.
pub proof fn lemma_zero_guard_precedence(s: SymbolSeries)
    requires
        s.volumes@[14] == 0 || s.prices@[14].is_zero_spec(),
    ensures
        !spec_verdict(s).passes,
{
}

/// Momentum boundary: 12 of the 14 comparisons up passes the momentum factor,
/// 11 does not.
pub proof fn lemma_momentum_boundary(s: SymbolSeries)
    ensures
        up_days(s.prices@, 14) == 12 ==> momentum_passes(s),
        up_days(s.prices@, 14) == 11 ==> !momentum_passes(s),
{
}

/// Threshold inclusivity, passing direction: with passing momentum, positive
/// baselines, a volume ratio of exactly 1/4 and a price ratio of exactly 1/5,
/// the verdict is a pass.
pub proof fn lemma_threshold_inclusive(s: SymbolSeries)
    requires
        momentum_passes(s),
        s.volumes@[14] > 0,
        s.prices@[14].mantissa > 0,
        4 * (s.volumes@[0] - s.volumes@[14]) == s.volumes@[14] as int,
        5 * price_ratio_num(s) == price_ratio_den(s),
    ensures
        spec_verdict(s).passes,
{
    lemma_pow10_pos(s.prices@[0].scale as nat);
    assert(price_ratio_den(s) > 0) by (nonlinear_arith)
        requires
            s.prices@[14].mantissa > 0,
            s.prices@[0].den() >= 1,
            price_ratio_den(s) == s.prices@[14].mantissa * s.prices@[0].den(),
    ;
}

/// Threshold strictness: whenever any single factor fails, the verdict fails,
/// so a ratio even marginally below its threshold rules the symbol out.
pub proof fn lemma_any_factor_failing_fails(s: SymbolSeries)
    requires
        !momentum_passes(s) || !volume_growth_ok(s) || !price_growth_ok(s),
    ensures
        !spec_verdict(s).passes,
{
}

} // verus!
