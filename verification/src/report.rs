use vstd::prelude::*;
use vstd::string::StringExecFns;
use crate::series::SymbolSeries;
use crate::screen::{spec_verdict, check_mvp};

verus! {

/// The symbols of the series that pass the screen, in input order.
pub open spec fn passing_symbols(s: Seq<SymbolSeries>) -> Seq<Seq<char>>
    decreases s.len(),
{
    if s.len() == 0 {
        Seq::empty()
    } else {
        let rest = passing_symbols(s.drop_first());
        if spec_verdict(s[0]).passes {
            seq![s[0].symbol@] + rest
        } else {
            rest
        }
    }
}

/// The symbol views joined with `sep`, no leading or trailing separator.
pub open spec fn joined(syms: Seq<Seq<char>>, sep: Seq<char>) -> Seq<char>
    decreases syms.len(),
{
    if syms.len() == 0 {
        Seq::empty()
    } else if syms.len() == 1 {
        syms[0]
    } else {
        joined(syms.drop_last(), sep) + sep + syms.last()
    }
}

/// Screens every series and keeps the symbols of those that pass, in order.
pub fn matching_symbols(series: Vec<SymbolSeries>) -> (v: Vec<String>)
    requires
        forall|k: int| 0 <= k < series@.len() ==> (#[trigger] series@[k]).wf(),
    ensures
        v@.map_values(|s: String| s@) == passing_symbols(series@),
{
    let mut rem = series;
    let mut v: Vec<String> = Vec::new();
    while rem.len() > 0
        invariant
            forall|k: int| 0 <= k < rem@.len() ==> (#[trigger] rem@[k]).wf(),
            passing_symbols(series@) == v@.map_values(|s: String| s@) + passing_symbols(rem@),
        decreases rem@.len(),
    {
        let ghost prev = rem@;
        let s = rem.remove(0);
        proof {
            assert(prev.remove(0) =~= prev.drop_first());
        }
        if check_mvp(&s) {
            let ghost old_v = v@;
            v.push(s.symbol);
            proof {
                assert(v@.map_values(|s: String| s@) =~= old_v.map_values(|s: String| s@).push(
                    prev[0].symbol@));
                assert(old_v.map_values(|s: String| s@) + passing_symbols(prev) =~= v@.map_values(
                    |s: String| s@) + passing_symbols(rem@));
            }
        }
    }
    proof {
        assert(passing_symbols(rem@) =~= Seq::<Seq<char>>::empty());
        assert(v@.map_values(|s: String| s@) + Seq::<Seq<char>>::empty() =~= v@.map_values(
            |s: String| s@));
    }
    v
}

/// Assembles the notification text: a fixed sentence when nothing passed,
/// otherwise the heading followed by the matching symbols joined by a
/// comma-and-space separator, with no trailing separator.
pub fn build_message(symbols: &Vec<String>) -> (m: String)
    ensures
        symbols@.len() == 0 ==> m@ == "No symbols satisfied the MVP criteria"@,
        symbols@.len() > 0 ==> m@ == "Symbols satisfying the MVP criteria: "@ + joined(
            symbols@.map_values(|s: String| s@),
            ", "@,
        ),
{
    if symbols.len() == 0 {
        return String::from_str("No symbols satisfied the MVP criteria");
    }
    let ghost views = symbols@.map_values(|s: String| s@);
    let mut m = String::from_str("Symbols satisfying the MVP criteria: ");
    let mut i: usize = 0;
    while i < symbols.len()
        invariant
            0 <= i <= symbols@.len(),
            views == symbols@.map_values(|s: String| s@),
            i == 0 ==> m@ == "Symbols satisfying the MVP criteria: "@,
            i > 0 ==> m@ == "Symbols satisfying the MVP criteria: "@ + joined(
                views.take(i as int),
                ", "@,
            ),
        decreases symbols@.len() - i,
    {
        if i > 0 {
            m.append(", ");
        }
        m.append(symbols[i].as_str());
        proof {
            assert(views.take(i + 1).drop_last() =~= views.take(i as int));
            if i > 0 {
                assert(m@ =~= "Symbols satisfying the MVP criteria: "@ + joined(
                    views.take(i + 1),
                    ", "@,
                ));
            } else {
                assert(m@ =~= "Symbols satisfying the MVP criteria: "@ + joined(
                    views.take(1),
                    ", "@,
                ));
            }
        }
        i = i + 1;
    }
    proof {
        assert(views.take(symbols@.len() as int) =~= views);
    }
    m
}

/// The whole reporting step: screen the series and produce the message.
pub fn report_message(series: Vec<SymbolSeries>) -> (m: String)
    requires
        forall|k: int| 0 <= k < series@.len() ==> (#[trigger] series@[k]).wf(),
    ensures
        passing_symbols(series@).len() == 0 ==> m@ == "No symbols satisfied the MVP criteria"@,
        passing_symbols(series@).len() > 0 ==> m@ == "Symbols satisfying the MVP criteria: "@
            + joined(passing_symbols(series@), ", "@),
{
    let symbols = matching_symbols(series);
    build_message(&symbols)
}

} // verus!
