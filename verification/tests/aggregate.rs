use mvp_screen::aggregate::{aggregate, series_from_window, Observation};
use mvp_screen::decimal::Dec;
use mvp_screen::screen::{check_mvp, evaluate, Reason};
use mvp_screen::series::SymbolSeries;

fn obs(symbol: &str, date: i64, price_units: i64, volume: i64) -> Observation {
    Observation { symbol: symbol.to_string(), date, price: Dec::new(price_units * 10, 1), volume }
}

fn find<'a>(series: &'a [SymbolSeries], symbol: &str) -> &'a SymbolSeries {
    series.iter().find(|s| s.symbol == symbol).expect("symbol missing from aggregation")
}

// Unordered rows for two symbols come back as one series each, newest first.
#[test]
fn aggregate_groups_and_orders() {
    let mut rows = Vec::new();
    for day in 1..=15i64 {
        // deliberately out of order: odd days first, then even days
        if day % 2 == 1 {
            rows.push(obs("UP", day, 100 + day, 1000 + 10 * day));
        }
    }
    for day in 1..=15i64 {
        if day % 2 == 0 {
            rows.push(obs("UP", day, 100 + day, 1000 + 10 * day));
        }
    }
    rows.push(obs("FLAT", 3, 50, 700));
    rows.push(obs("FLAT", 1, 50, 700));
    rows.push(obs("FLAT", 2, 50, 700));

    let series = aggregate(rows);
    assert_eq!(series.len(), 2);

    let up = find(&series, "UP");
    // newest (day 15) first, oldest (day 1) last
    assert_eq!(up.prices[0], Dec::new(1150, 1));
    assert_eq!(up.prices[14], Dec::new(1010, 1));
    assert_eq!(up.volumes[0], 1150);
    assert_eq!(up.volumes[14], 1010);

    let flat = find(&series, "FLAT");
    // three observations, newest first, zero sentinel beyond
    assert_eq!(flat.prices[0], Dec::new(500, 1));
    assert_eq!(flat.volumes[2], 700);
    assert_eq!(flat.prices[3], Dec::new(0, 0));
    assert_eq!(flat.volumes[3], 0);
    assert_eq!(flat.volumes[14], 0);
}

// A symbol with more than 15 rows keeps only the 15 most recent.
#[test]
fn aggregate_truncates_to_window() {
    let mut rows = Vec::new();
    for day in 1..=20i64 {
        rows.push(obs("LONG", day, 100 + day, 2000 + day));
    }
    let series = aggregate(rows);
    assert_eq!(series.len(), 1);
    let long = &series[0];
    assert_eq!(long.prices[0], Dec::new(1200, 1)); // day 20
    assert_eq!(long.prices[14], Dec::new(1060, 1)); // day 6; days 1..=5 dropped
    assert_eq!(long.volumes[14], 2006);
}

// Fewer than 15 observations pad with zeros and therefore never pass.
#[test]
fn short_history_fails_closed() {
    let mut rows = Vec::new();
    for day in 1..=14i64 {
        // a history that would pass easily with a full window
        rows.push(obs("SHORT", day, 100 + 10 * day, 1000 + 100 * day));
    }
    let series = aggregate(rows);
    assert_eq!(series.len(), 1);
    let short = &series[0];
    assert_eq!(short.volumes[14], 0);
    assert!(!check_mvp(short));
    assert_eq!(evaluate(short).reason, Reason::ZeroBaselineVolume);
}

// The direct windowing step pads short vectors and truncates long ones.
#[test]
fn series_from_window_pads_and_truncates() {
    let prices: Vec<Dec> = (0..3).map(|i| Dec::new(1000 + i, 1)).collect();
    let volumes: Vec<i64> = vec![500, 400];
    let s = series_from_window("PAD".to_string(), prices, volumes);
    assert_eq!(s.prices.len(), 15);
    assert_eq!(s.volumes.len(), 15);
    assert_eq!(s.prices[2], Dec::new(1002, 1));
    assert_eq!(s.prices[3], Dec::new(0, 0));
    assert_eq!(s.volumes[1], 400);
    assert_eq!(s.volumes[2], 0);

    let many_prices: Vec<Dec> = (0..20).map(|i| Dec::new(2000 + i, 1)).collect();
    let many_volumes: Vec<i64> = (0..20).collect();
    let t = series_from_window("TRUNC".to_string(), many_prices, many_volumes);
    assert_eq!(t.prices.len(), 15);
    assert_eq!(t.prices[14], Dec::new(2014, 1));
    assert_eq!(t.volumes[14], 14);
}

// An empty input produces no series at all.
#[test]
fn aggregate_empty_input() {
    let series = aggregate(Vec::new());
    assert!(series.is_empty());
}
