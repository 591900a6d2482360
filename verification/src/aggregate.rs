use vstd::prelude::*;
use vstd::assert_multisets_equal;
use vstd::multiset::Multiset;
use crate::decimal::Dec;
use crate::series::{SymbolSeries, WINDOW};
use crate::screen::{spec_verdict, lemma_zero_guard_precedence};

verus! {

broadcast use vstd::seq_lib::group_to_multiset_ensures, vstd::multiset::group_multiset_axioms;

/// One raw row from the store: a symbol's price and volume on one calendar
/// day.  Dates are carried as day numbers; a larger date is more recent.
pub struct Observation {
    pub symbol: String,
    pub date: i64,
    pub price: Dec,
    pub volume: i64,
}

/// `r` carries `prices`/`volumes` in its first slots, newest first, truncated
/// to the window and padded beyond their length with the zero sentinel.
pub open spec fn padded_window(r: SymbolSeries, prices: Seq<Dec>, volumes: Seq<i64>) -> bool {
    &&& r.prices@.len() == WINDOW
    &&& r.volumes@.len() == WINDOW
    &&& forall|i: int|
        0 <= i < WINDOW ==> r.prices@[i] == (if i < prices.len() {
            prices[i]
        } else {
            Dec::zero_spec()
        })
    &&& forall|i: int|
        0 <= i < WINDOW ==> r.volumes@[i] == (if i < volumes.len() {
            volumes[i]
        } else {
            0i64
        })
}

/// Materializes one series from a window already ordered newest-first:
/// the first 15 entries are kept, missing trailing slots get the zero
/// sentinel.  This padding is deliberate: it routes short histories into the
/// zero-baseline guard of the screening rule.
pub fn series_from_window(symbol: String, prices: Vec<Dec>, volumes: Vec<i64>) -> (s: SymbolSeries)
    requires
        forall|i: int| 0 <= i < prices@.len() ==> (#[trigger] prices@[i]).wf(),
    ensures
        s.symbol == symbol,
        padded_window(s, prices@, volumes@),
        s.wf(),
{
    let mut ps: Vec<Dec> = Vec::new();
    let mut i: usize = 0;
    while i < WINDOW
        invariant
            forall|j: int| 0 <= j < prices@.len() ==> (#[trigger] prices@[j]).wf(),
            i <= WINDOW,
            ps@.len() == i,
            forall|j: int|
                0 <= j < i ==> ps@[j] == (if j < prices@.len() {
                    prices@[j]
                } else {
                    Dec::zero_spec()
                }),
        decreases WINDOW - i,
    {
        if i < prices.len() {
            ps.push(prices[i]);
        } else {
            ps.push(Dec::zero());
        }
        i = i + 1;
    }
    let mut vs: Vec<i64> = Vec::new();
    let mut k: usize = 0;
    while k < WINDOW
        invariant
            k <= WINDOW,
            vs@.len() == k,
            forall|j: int|
                0 <= j < k ==> vs@[j] == (if j < volumes@.len() {
                    volumes@[j]
                } else {
                    0i64
                }),
        decreases WINDOW - k,
    {
        if k < volumes.len() {
            vs.push(volumes[k]);
        } else {
            vs.push(0);
        }
        k = k + 1;
    }
    SymbolSeries { symbol, prices: ps, volumes: vs }
}

/// Newest first: dates never increase along the sequence.
pub open spec fn sorted_desc(s: Seq<Observation>) -> bool {
    forall|i: int, j: int| 0 <= i < j < s.len() ==> s[i].date >= s[j].date
}

/// The observations of `ms` that carry the symbol `sym`.
pub open spec fn sym_obs(ms: Multiset<Observation>, sym: Seq<char>) -> Multiset<Observation> {
    ms.filter(|o: Observation| o.symbol@ == sym)
}

/// Some series in `out` carries the symbol `sym`.
pub open spec fn covered(out: Seq<SymbolSeries>, sym: Seq<char>) -> bool {
    exists|k: int| 0 <= k < out.len() && out[k].symbol@ == sym
}

/// Some observation in `s` carries the symbol `sym`.
pub open spec fn has_symbol(s: Seq<Observation>, sym: Seq<char>) -> bool {
    exists|i: int| 0 <= i < s.len() && s[i].symbol@ == sym
}

/// `r` was windowed from some newest-first arrangement of exactly the
/// observations in `ms`.
pub open spec fn windowed_from(r: SymbolSeries, ms: Multiset<Observation>) -> bool {
    exists|win: Seq<Observation>|
        sorted_desc(win) && win.to_multiset() == ms && series_of_window(r, win)
}

/// `r` holds `win`'s prices and volumes slot for slot, newest first,
/// truncated to the window and zero-padded beyond `win`'s length.
pub open spec fn series_of_window(r: SymbolSeries, win: Seq<Observation>) -> bool {
    &&& r.prices@.len() == WINDOW
    &&& r.volumes@.len() == WINDOW
    &&& forall|i: int|
        0 <= i < WINDOW ==> r.prices@[i] == (if i < win.len() {
            win[i].price
        } else {
            Dec::zero_spec()
        })
    &&& forall|i: int|
        0 <= i < WINDOW ==> r.volumes@[i] == (if i < win.len() {
            win[i].volume
        } else {
            0i64
        })
}

/// Selection sort, newest first.  When several observations share one date
/// (duplicate rows for one symbol and day), which comes first is inherited
/// from upstream data quality, not resolved here: any permutation of equal
/// dates satisfies the contract.
fn sort_by_date_desc(input: Vec<Observation>) -> (out: Vec<Observation>)
    ensures
        sorted_desc(out@),
        out@.to_multiset() == input@.to_multiset(),
{
    let mut rem = input;
    let mut out: Vec<Observation> = Vec::new();
    proof {
        assert_multisets_equal!(out@.to_multiset().add(rem@.to_multiset()), rem@.to_multiset());
    }
    let ghost input_view = rem@;
    while rem.len() > 0
        invariant
            sorted_desc(out@),
            out@.to_multiset().add(rem@.to_multiset()) == input_view.to_multiset(),
            forall|a: int, b: int|
                0 <= a < out@.len() && 0 <= b < rem@.len() ==> out@[a].date >= rem@[b].date,
        decreases rem@.len(),
    {
        let mut mi: usize = 0;
        let mut i: usize = 1;
        while i < rem.len()
            invariant
                0 < rem@.len(),
                mi < i,
                i <= rem@.len(),
                forall|j: int| 0 <= j < i ==> rem@[mi as int].date >= rem@[j].date,
            decreases rem@.len() - i,
        {
            if rem[i].date > rem[mi].date {
                mi = i;
            }
            i = i + 1;
        }
        let ghost old_out = out@;
        let ghost old_rem = rem@;
        let x = rem.remove(mi);
        let ghost xg = x;
        out.push(x);
        proof {
            assert(old_rem.contains(xg));
            assert(old_rem.to_multiset().count(xg) > 0);
            assert(out@.to_multiset() == old_out.to_multiset().insert(xg));
            assert(rem@.to_multiset() == old_rem.to_multiset().remove(xg));
            assert_multisets_equal!(
                out@.to_multiset().add(rem@.to_multiset()),
                input_view.to_multiset()
            );
            assert forall|a: int, b: int|
                0 <= a < out@.len() && 0 <= b < rem@.len() implies out@[a].date
                >= rem@[b].date by {
                if a < old_out.len() {
                    assert(out@[a] == old_out[a]);
                }
                assert(rem@[b] == (if b < mi { old_rem[b] } else { old_rem[b + 1] }));
            }
            assert(sorted_desc(out@));
        }
    }
    proof {
        assert(rem@.to_multiset().len() == 0);
        assert_multisets_equal!(out@.to_multiset(), input_view.to_multiset(), o => {
            assert(rem@.to_multiset().count(o) <= rem@.to_multiset().len());
        });
    }
    out
}

/// Groups the observations by symbol, orders each group newest first, and
/// materializes one zero-padded 15-slot series per distinct symbol.
///
/// The contract pins each output series down: its window is some
/// newest-first permutation of exactly the input observations carrying its
/// symbol (any order among equal dates), and symbols appear once each,
/// covering exactly the symbols present in the input.
pub fn aggregate(obs: Vec<Observation>) -> (out: Vec<SymbolSeries>)
    requires
        forall|i: int| 0 <= i < obs@.len() ==> (#[trigger] obs@[i]).price.wf(),
    ensures
        forall|k: int| 0 <= k < out@.len() ==> (#[trigger] out@[k]).wf(),
        forall|k1: int, k2: int|
            0 <= k1 < k2 < out@.len() ==> out@[k1].symbol@ != out@[k2].symbol@,
        forall|k: int|
            0 <= k < out@.len() ==> has_symbol(obs@, (#[trigger] out@[k]).symbol@),
        forall|i: int| 0 <= i < obs@.len() ==> covered(out@, (#[trigger] obs@[i]).symbol@),
        forall|k: int|
            0 <= k < out@.len() ==> windowed_from(
                #[trigger] out@[k],
                sym_obs(obs@.to_multiset(), out@[k].symbol@),
            ),
{
    let ghost all = obs@;
    let mut work = obs;
    let mut out: Vec<SymbolSeries> = Vec::new();
    while work.len() > 0
        invariant
            forall|i: int| 0 <= i < work@.len() ==> (#[trigger] work@[i]).price.wf(),
            forall|o: Observation|
                #[trigger] work@.to_multiset().count(o) == (if covered(out@, o.symbol@) {
                    0nat
                } else {
                    all.to_multiset().count(o)
                }),
            forall|k: int| 0 <= k < out@.len() ==> (#[trigger] out@[k]).wf(),
            forall|k1: int, k2: int|
                0 <= k1 < k2 < out@.len() ==> out@[k1].symbol@ != out@[k2].symbol@,
            forall|k: int|
                0 <= k < out@.len() ==> has_symbol(all, (#[trigger] out@[k]).symbol@),
            forall|k: int|
                0 <= k < out@.len() ==> windowed_from(
                    #[trigger] out@[k],
                    sym_obs(all.to_multiset(), out@[k].symbol@),
                ),
        decreases work@.len(),
    {
        let ghost w0 = work@;
        let ghost m0 = w0.to_multiset();
        let ghost old_out = out@;
        let first = work.remove(0);
        let ghost firstg = first;
        let ghost key = first.symbol@;
        proof {
            assert(w0.contains(first));
            assert(m0.count(first) > 0);
            assert(!covered(old_out, key));
            assert(all.to_multiset().count(first) > 0);
            assert(all.contains(first));
            assert(work@.to_multiset() == m0.remove(first));
        }
        let mut group: Vec<Observation> = Vec::new();
        let mut rest: Vec<Observation> = Vec::new();
        proof {
            assert(group@.to_multiset().len() == 0);
            assert(rest@.to_multiset().len() == 0);
            assert_multisets_equal!(
                m0,
                work@.to_multiset().add(group@.to_multiset()).add(rest@.to_multiset())
                    .insert(first),
                o => {
                    assert(group@.to_multiset().count(o) <= group@.to_multiset().len());
                    assert(rest@.to_multiset().count(o) <= rest@.to_multiset().len());
                }
            );
        }
        while work.len() > 0
            invariant
                first.symbol@ == key,
                first.price.wf(),
                forall|i: int| 0 <= i < work@.len() ==> (#[trigger] work@[i]).price.wf(),
                forall|i: int| 0 <= i < group@.len() ==> (#[trigger] group@[i]).price.wf(),
                forall|i: int| 0 <= i < rest@.len() ==> (#[trigger] rest@[i]).price.wf(),
                forall|i: int| 0 <= i < group@.len() ==> (#[trigger] group@[i]).symbol@ == key,
                forall|i: int| 0 <= i < rest@.len() ==> (#[trigger] rest@[i]).symbol@ != key,
                m0 == work@.to_multiset().add(group@.to_multiset()).add(rest@.to_multiset())
                    .insert(first),
            decreases work@.len(),
        {
            let ghost wpre = work@;
            let o = work.remove(0);
            if o.symbol == first.symbol {
                group.push(o);
            } else {
                rest.push(o);
            }
            proof {
                assert(wpre.contains(o));
                assert(work@.to_multiset() == wpre.to_multiset().remove(o));
                assert_multisets_equal!(
                    m0,
                    work@.to_multiset().add(group@.to_multiset()).add(rest@.to_multiset())
                        .insert(first)
                );
            }
        }
        let ghost gpre = group@;
        group.push(first);
        proof {
            assert(group@.to_multiset() == gpre.to_multiset().insert(firstg));
            assert_multisets_equal!(group@.to_multiset(), sym_obs(m0, key), o => {
                assert(work@.to_multiset().count(o) <= work@.to_multiset().len());
                if o.symbol@ == key {
                    if rest@.to_multiset().count(o) > 0 {
                        assert(rest@.contains(o));
                    }
                } else {
                    if gpre.to_multiset().count(o) > 0 {
                        assert(gpre.contains(o));
                    }
                }
            });
            assert_multisets_equal!(sym_obs(m0, key), sym_obs(all.to_multiset(), key), o => {
                if o.symbol@ == key {
                    assert(m0.count(o) == all.to_multiset().count(o));
                }
            });
            // what remains is strictly smaller: the group took at least `first`
            assert(group@.to_multiset().count(firstg) > 0);
            assert_multisets_equal!(m0, group@.to_multiset().add(rest@.to_multiset()), o => {
                assert(work@.to_multiset().count(o) <= work@.to_multiset().len());
            });
            assert(m0.len() == group@.to_multiset().len() + rest@.to_multiset().len());
            assert(rest@.len() < w0.len());
        }
        let sorted = sort_by_date_desc(group);
        let ghost win = sorted@;
        proof {
            assert forall|j: int| 0 <= j < win.len() implies win[j].symbol@ == key
                && (#[trigger] win[j]).price.wf() by {
                assert(win.contains(win[j]));
                assert(win.to_multiset().count(win[j]) > 0);
                assert(sym_obs(all.to_multiset(), key).count(win[j]) > 0);
                assert(all.to_multiset().count(win[j]) > 0);
                assert(all.contains(win[j]));
            }
            assert(win.len() == sym_obs(all.to_multiset(), key).len());
            assert(win.to_multiset().count(firstg) > 0);
            assert(win.len() > 0);
        }
        let mut prices: Vec<Dec> = Vec::new();
        let mut volumes: Vec<i64> = Vec::new();
        let mut i: usize = 0;
        while i < sorted.len()
            invariant
                sorted@ == win,
                forall|j: int|
                    0 <= j < win.len() ==> (#[trigger] win[j]).price.wf(),
                i <= win.len(),
                prices@.len() == i,
                volumes@.len() == i,
                forall|j: int|
                    0 <= j < i ==> (#[trigger] prices@[j]) == win[j].price,
                forall|j: int|
                    0 <= j < i ==> (#[trigger] volumes@[j]) == win[j].volume,
            decreases win.len() - i,
        {
            prices.push(sorted[i].price);
            volumes.push(sorted[i].volume);
            i = i + 1;
        }
        let mut sorted = sorted;
        let head = sorted.remove(0);
        proof {
            assert(head == win[0]);
        }
        let s = series_from_window(head.symbol, prices, volumes);
        proof {
            assert(s.symbol@ == key);
            assert(series_of_window(s, win));
            assert(sorted_desc(win));
        }
        out.push(s);
        let ghost rest_view = rest@;
        work = rest;
        proof {
            assert(work@ == rest_view);
            assert(m0 == win.to_multiset().add(rest_view.to_multiset()));
            // distinct symbols, with the new one uncovered until now
            assert forall|k1: int, k2: int|
                0 <= k1 < k2 < out@.len() implies out@[k1].symbol@ != out@[k2].symbol@ by {
                if k2 == out@.len() - 1 {
                    assert(out@[k1] == old_out[k1]);
                }
            }
            // the residue invariant for the smaller worklist
            assert forall|o: Observation|
                #[trigger] work@.to_multiset().count(o) == (if covered(out@, o.symbol@) {
                    0nat
                } else {
                    all.to_multiset().count(o)
                }) by {
                if o.symbol@ == key {
                    assert(rest_view.to_multiset().count(o) == 0) by {
                        if rest_view.to_multiset().count(o) > 0 {
                            assert(rest_view.contains(o));
                        }
                    }
                    assert(covered(out@, key)) by {
                        assert(out@[out@.len() - 1].symbol@ == key);
                    }
                } else {
                    assert(win.to_multiset().count(o) == 0) by {
                        if win.to_multiset().count(o) > 0 {
                            assert(win.contains(o));
                        }
                    }
                    assert(rest_view.to_multiset().count(o) == m0.count(o));
                    assert(m0.count(o) == w0.to_multiset().count(o));
                    assert(covered(out@, o.symbol@) == covered(old_out, o.symbol@)) by {
                        if covered(out@, o.symbol@) {
                            let k = choose|k: int|
                                0 <= k < out@.len() && out@[k].symbol@ == o.symbol@;
                            assert(k < out@.len() - 1);
                            assert(covered(old_out, o.symbol@));
                        }
                        if covered(old_out, o.symbol@) {
                            let k = choose|k: int|
                                0 <= k < old_out.len() && old_out[k].symbol@ == o.symbol@;
                            assert(out@[k].symbol@ == o.symbol@);
                        }
                    }
                }
            }
            // each out symbol occurs in the input
            assert forall|k: int|
                0 <= k < out@.len() implies has_symbol(all, (#[trigger] out@[k]).symbol@) by {
                if k == out@.len() - 1 {
                    let i = choose|i: int| 0 <= i < all.len() && all[i] == firstg;
                    assert(0 <= i < all.len() && all[i].symbol@ == out@[k].symbol@);
                }
            }
            // each out series has its sorted window
            assert forall|k: int|
                0 <= k < out@.len() implies windowed_from(
                    #[trigger] out@[k],
                    sym_obs(all.to_multiset(), out@[k].symbol@),
                ) by {
                if k == out@.len() - 1 {
                    assert(sorted_desc(win) && win.to_multiset() == sym_obs(
                        all.to_multiset(),
                        out@[k].symbol@,
                    ) && series_of_window(out@[k], win));
                }
            }
        }
    }
    proof {
        assert forall|i: int|
            0 <= i < all.len() implies covered(out@, (#[trigger] all[i]).symbol@) by {
            assert(all.contains(all[i]));
            assert(all.to_multiset().count(all[i]) > 0);
            assert(work@.to_multiset().count(all[i]) <= work@.to_multiset().len());
        }
    }
    out
}

/// Padding fails closed: a series windowed from fewer than 15 observations
/// has the zero sentinel as its baseline volume and can never pass.
pub proof fn lemma_padding_fail_closed(r: SymbolSeries, prices: Seq<Dec>, volumes: Seq<i64>)
    requires
        padded_window(r, prices, volumes),
        volumes.len() < WINDOW,
    ensures
        !spec_verdict(r).passes,
{
    assert(r.volumes@[14] == 0);
    lemma_zero_guard_precedence(r);
}

/// The same fact in the language of `aggregate`'s contract: a series whose
/// window holds fewer than 15 observations never passes.
pub proof fn lemma_short_window_fails_closed(r: SymbolSeries, win: Seq<Observation>)
    requires
        series_of_window(r, win),
        win.len() < WINDOW,
    ensures
        !spec_verdict(r).passes,
{
    assert(r.volumes@[14] == 0);
    lemma_zero_guard_precedence(r);
}

} // verus!
