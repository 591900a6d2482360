use mvp_screen::decimal::Dec;
use mvp_screen::screen::{check_mvp, evaluate, Reason};
use mvp_screen::series::SymbolSeries;

fn dec(mantissa: i64, scale: u32) -> Dec {
    Dec::new(mantissa, scale)
}

fn series(symbol: &str, prices: Vec<Dec>, volumes: Vec<i64>) -> SymbolSeries {
    assert_eq!(prices.len(), 15);
    assert_eq!(volumes.len(), 15);
    SymbolSeries::new(symbol.to_string(), prices, volumes)
}

fn whole_prices(units: [i64; 15]) -> Vec<Dec> {
    units.iter().map(|&u| dec(u * 10, 1)).collect()
}

#[test]
fn returns_true_when_conditions_met() {
    let s = series(
        "TEST",
        vec![
            dec(1340, 1),
            dec(1320, 1),
            dec(1310, 1),
            dec(1290, 1),
            dec(1280, 1),
            dec(1270, 1),
            dec(1260, 1),
            dec(1240, 1),
            dec(1230, 1),
            dec(1220, 1),
            dec(1210, 1),
            dec(1190, 1),
            dec(1170, 1),
            dec(1150, 1),
            dec(1100, 1),
        ],
        vec![
            2900, 2800, 2700, 2600, 2500, 2400, 2300, 2200, 2100, 2000, 1900, 1800, 1700, 1600,
            1500,
        ],
    );
    assert!(check_mvp(&s));
}

#[test]
fn returns_false_when_conditions_not_met() {
    let s = series("FAIL", vec![dec(1000, 1); 15], vec![1000; 15]);
    assert!(!check_mvp(&s));
}

#[test]
fn returns_false_when_baseline_volume_is_zero() {
    let s = series("ZEROVOL", vec![dec(1000, 1); 15], vec![0; 15]);
    assert!(!check_mvp(&s));
}

#[test]
fn returns_false_when_baseline_price_is_zero() {
    let s = series("ZEROPRICE", vec![dec(0, 1); 15], vec![1000; 15]);
    assert!(!check_mvp(&s));
}

#[test]
fn returns_true_at_boundary_values() {
    let s = series(
        "BORDERLINE_TRUE",
        whole_prices([120, 110, 109, 108, 107, 106, 105, 104, 103, 102, 101, 100, 99, 98, 90]),
        vec![
            1250, 1000, 1000, 1000, 1000, 1000, 1000, 1000, 1000, 1000, 1000, 1000, 1000, 1000,
            1000,
        ],
    );
    assert!(check_mvp(&s));
}

#[test]
fn returns_false_at_boundary_values() {
    let s = series(
        "BORDERLINE_FALSE",
        vec![
            dec(1199, 1),
            dec(1100, 1),
            dec(1090, 1),
            dec(1080, 1),
            dec(1070, 1),
            dec(1060, 1),
            dec(1050, 1),
            dec(1040, 1),
            dec(1030, 1),
            dec(1020, 1),
            dec(1010, 1),
            dec(1000, 1),
            dec(990, 1),
            dec(980, 1),
            dec(900, 1),
        ],
        vec![
            1249, 1000, 1000, 1000, 1000, 1000, 1000, 1000, 1000, 1000, 1000, 1000, 1000, 1000,
            1000,
        ],
    );
    assert!(!check_mvp(&s));
}

// Exactly 25% volume growth and exactly 20% price growth pass: both
// thresholds are inclusive.
#[test]
fn exact_thresholds_pass() {
    let s = series(
        "EXACT",
        whole_prices([120, 110, 109, 108, 107, 106, 105, 104, 103, 102, 101, 100, 99, 98, 100]),
        vec![
            1250, 1000, 1000, 1000, 1000, 1000, 1000, 1000, 1000, 1000, 1000, 1000, 1000, 1000,
            1000,
        ],
    );
    // price: (120 - 100) / 100 == 0.20, volume: (1250 - 1000) / 1000 == 0.25
    let v = evaluate(&s);
    assert!(v.volume_growth);
    assert!(v.price_growth);
    assert!(v.momentum);
    assert!(v.passes);
}

// A volume one share short of 25% growth fails, with everything else passing.
#[test]
fn volume_hair_below_threshold_fails() {
    let s = series(
        "VOLLOW",
        whole_prices([120, 110, 109, 108, 107, 106, 105, 104, 103, 102, 101, 100, 99, 98, 90]),
        vec![
            1249, 1000, 1000, 1000, 1000, 1000, 1000, 1000, 1000, 1000, 1000, 1000, 1000, 1000,
            1000,
        ],
    );
    let v = evaluate(&s);
    assert!(v.momentum);
    assert!(v.price_growth);
    assert!(!v.volume_growth);
    assert!(!v.passes);
}

// A price a tenth short of 20% growth fails, with everything else passing.
#[test]
fn price_hair_below_threshold_fails() {
    let mut prices =
        whole_prices([120, 110, 109, 108, 107, 106, 105, 104, 103, 102, 101, 100, 99, 98, 100]);
    prices[0] = dec(1199, 1);
    let s = series(
        "PRICELOW",
        prices,
        vec![
            1250, 1000, 1000, 1000, 1000, 1000, 1000, 1000, 1000, 1000, 1000, 1000, 1000, 1000,
            1000,
        ],
    );
    let v = evaluate(&s);
    assert!(v.momentum);
    assert!(v.volume_growth);
    assert!(!v.price_growth);
    assert!(!v.passes);
}

// Twelve up-days out of fourteen pass the momentum factor.
#[test]
fn momentum_twelve_of_fourteen_passes() {
    let s = series(
        "MOM12",
        whole_prices([124, 123, 122, 121, 120, 119, 118, 117, 116, 115, 114, 113, 113, 100, 100]),
        vec![
            1300, 1000, 1000, 1000, 1000, 1000, 1000, 1000, 1000, 1000, 1000, 1000, 1000, 1000,
            1000,
        ],
    );
    let v = evaluate(&s);
    assert!(v.momentum);
    assert!(v.passes);
}

// Eleven up-days out of fourteen fail the momentum factor.
#[test]
fn momentum_eleven_of_fourteen_fails() {
    let s = series(
        "MOM11",
        whole_prices([124, 124, 122, 121, 120, 119, 118, 117, 116, 115, 114, 113, 113, 100, 100]),
        vec![
            1300, 1000, 1000, 1000, 1000, 1000, 1000, 1000, 1000, 1000, 1000, 1000, 1000, 1000,
            1000,
        ],
    );
    let v = evaluate(&s);
    assert!(!v.momentum);
    assert!(!v.passes);
}

// The zero-volume guard fires first and records the momentum sub-result.
#[test]
fn zero_baseline_volume_reason() {
    let s = series(
        "ZV",
        whole_prices([124, 123, 122, 121, 120, 119, 118, 117, 116, 115, 114, 113, 112, 111, 110]),
        vec![2000, 1000, 1000, 1000, 1000, 1000, 1000, 1000, 1000, 1000, 1000, 1000, 1000, 1000, 0],
    );
    let v = evaluate(&s);
    assert_eq!(v.reason, Reason::ZeroBaselineVolume);
    assert!(v.momentum);
    assert!(!v.volume_growth);
    assert!(!v.price_growth);
    assert!(!v.passes);
}

// The zero-price guard fires after the volume factor and keeps its result.
#[test]
fn zero_baseline_price_reason() {
    let mut prices =
        whole_prices([124, 123, 122, 121, 120, 119, 118, 117, 116, 115, 114, 113, 112, 111, 110]);
    prices[14] = dec(0, 0);
    let s = series(
        "ZP",
        prices,
        vec![
            1250, 1000, 1000, 1000, 1000, 1000, 1000, 1000, 1000, 1000, 1000, 1000, 1000, 1000,
            1000,
        ],
    );
    let v = evaluate(&s);
    assert_eq!(v.reason, Reason::ZeroBaselinePrice);
    assert!(v.momentum);
    assert!(v.volume_growth);
    assert!(!v.price_growth);
    assert!(!v.passes);
}

// Re-evaluating one series always yields the identical verdict.
#[test]
fn evaluation_is_deterministic() {
    let s = series(
        "DET",
        whole_prices([120, 110, 109, 108, 107, 106, 105, 104, 103, 102, 101, 100, 99, 98, 90]),
        vec![
            1250, 1000, 1000, 1000, 1000, 1000, 1000, 1000, 1000, 1000, 1000, 1000, 1000, 1000,
            1000,
        ],
    );
    let first = evaluate(&s);
    let second = evaluate(&s);
    assert_eq!(first, second);
    assert_eq!(first.passes, check_mvp(&s));
}

// Prices with different scales compare by value, not by representation.
#[test]
fn mixed_scale_prices_compare_exactly() {
    let mut prices =
        whole_prices([120, 110, 109, 108, 107, 106, 105, 104, 103, 102, 101, 100, 99, 98, 100]);
    prices[0] = dec(12, 0); // 12 whole units, written at scale 0
    prices[14] = dec(10_000_000_000, 9); // 10 whole units at scale 9
    let s = series(
        "SCALES",
        prices,
        vec![
            1250, 1000, 1000, 1000, 1000, 1000, 1000, 1000, 1000, 1000, 1000, 1000, 1000, 1000,
            1000,
        ],
    );
    // price ratio is exactly (12 - 10) / 10 == 0.20: inclusive pass
    let v = evaluate(&s);
    assert!(v.price_growth);
    assert!(v.passes);
}
