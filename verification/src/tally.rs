//! Projecting pill consumption over the days until an appointment.

use crate::options::{
    lemma_week_pill_count_take_le, lemma_week_take_succ, week_of, week_pill_count, DosageOption,
    OptionType,
};
use crate::pill::{
    combo_pill_count, lemma_combo_measures_split, lemma_pair_count_le_pill_count, pair_count, Pill,
};
use vstd::prelude::*;

verus! {

/// Summed count of one (strength, half-flag) pair over the first `days`
/// days of consumption, walking the week cyclically from `start`.
pub open spec fn period_pair_count(
    week: Seq<Seq<Pill>>,
    start: nat,
    days: nat,
    mg: u8,
    half: bool,
) -> nat
    decreases days,
{
    if days == 0 {
        0
    } else {
        period_pair_count(week, start, (days - 1) as nat, mg, half) + pair_count(
            week[((start + days - 1) % 7) as int],
            mg,
            half,
        )
    }
}

/// One line of the dispensing summary for a single strength: whole pills
/// and half pills consumed over the period, and the number of physical
/// pills to hand out (each pair of halves shares one pill, a leftover odd
/// half needs a pill of its own).
pub struct DispenseLine {
    pub mg: u8,
    pub whole_count: u64,
    pub half_count: u64,
    pub dispensed: u64,
}

/// The summary line of one strength.
pub open spec fn spec_line(
    week: Seq<Seq<Pill>>,
    start: nat,
    days: nat,
    mg: u8,
) -> DispenseLine {
    let whole = period_pair_count(week, start, days, mg, false);
    let half = period_pair_count(week, start, days, mg, true);
    DispenseLine {
        mg,
        whole_count: whole as u64,
        half_count: half as u64,
        dispensed: (whole + half / 2 + half % 2) as u64,
    }
}

/// A line appears in the summary only when something is dispensed.
pub open spec fn maybe_line(l: DispenseLine) -> Seq<DispenseLine> {
    if l.dispensed > 0 {
        seq![l]
    } else {
        Seq::empty()
    }
}

/// The dispensing summary: the dispensable strengths, highest first,
/// each included only when the period consumes some of it.
pub open spec fn spec_tally(week: Seq<Seq<Pill>>, start: nat, days: nat) -> Seq<DispenseLine> {
    maybe_line(spec_line(week, start, days, 5)) + maybe_line(spec_line(week, start, days, 3))
        + maybe_line(spec_line(week, start, days, 2)) + maybe_line(
        spec_line(week, start, days, 1),
    )
}

/// No day of a week holds more pill objects than the whole week.
pub proof fn lemma_day_le_week(w: Seq<Seq<Pill>>, d: int)
    requires
        0 <= d < w.len(),
    ensures
        combo_pill_count(w[d]) <= week_pill_count(w),
{
    lemma_week_take_succ(w, d);
    lemma_week_pill_count_take_le(w, d + 1);
}

/// Counts one (strength, half-flag) pair in one combination.
fn pair_count_exec(c: &Vec<Pill>, mg: u8, half: bool) -> (n: u64)
    requires
        combo_pill_count(c@) <= u64::MAX,
    ensures
        n == pair_count(c@, mg, half),
{
    proof {
        lemma_pair_count_le_pill_count(c@, mg, half);
    }
    let mut n: u64 = 0;
    let mut i: usize = 0;
    while i < c.len()
        invariant
            i <= c@.len(),
            n == pair_count(c@.take(i as int), mg, half),
            pair_count(c@.take(i as int), mg, half) <= combo_pill_count(c@),
            combo_pill_count(c@) <= u64::MAX,
        decreases c@.len() - i,
    {
        let p = c[i];
        proof {
            assert(c@.take(i + 1).drop_last() =~= c@.take(i as int));
            assert(c@.take(i + 1).last() == c@[i as int]);
            lemma_pair_count_le_pill_count(c@.take(i + 1), mg, half);
            lemma_combo_measures_split(c@, i + 1);
            assert(combo_pill_count(c@.take(i + 1)) <= combo_pill_count(c@));
        }
        if p.mg == mg && p.half == half {
            n = n + p.count as u64;
        }
        i += 1;
    }
    proof {
        assert(c@.take(c@.len() as int) =~= c@);
    }
    n
}

/// Counts one (strength, half-flag) pair over the whole period.
fn count_pills_in_period(o: &DosageOption, days: u32, start: u8, mg: u8, half: bool) -> (n: u64)
    requires
        week_of(o.option_type).len() == 7,
        week_pill_count(week_of(o.option_type)) <= 1000000,
    ensures
        n == period_pair_count(week_of(o.option_type), start as nat, days as nat, mg, half),
{
    let ghost week = week_of(o.option_type);
    let mut n: u64 = 0;
    let mut day: u32 = 0;
    while day < days
        invariant
            day <= days,
            week == week_of(o.option_type),
            week.len() == 7,
            week_pill_count(week) <= 1000000,
            n == period_pair_count(week, start as nat, day as nat, mg, half),
            n <= day * 1000000,
        decreases days - day,
    {
        let idx: usize = (((start as u64) + (day as u64)) % 7) as usize;
        proof {
            assert(idx < 7);
            lemma_day_le_week(week, idx as int);
        }
        let day_combo: &Vec<Pill> = match &o.option_type {
            OptionType::Uniform(c) => c,
            OptionType::NonUniform(cw) => &cw[idx],
        };
        proof {
            assert(day_combo@ == week[idx as int]);
        }
        let cnt = pair_count_exec(day_combo, mg, half);
        proof {
            lemma_pair_count_le_pill_count(day_combo@, mg, half);
            assert(cnt <= 1000000);
            assert((start as nat + (day + 1) as nat - 1) % 7 == idx as nat);
            assert(n + cnt <= (day + 1) * 1000000) by (nonlinear_arith)
                requires
                    n <= day * 1000000,
                    cnt <= 1000000,
            ;
        }
        n = n + cnt;
        day += 1;
    }
    n
}

/// Computes how many pills of each dispensable strength (5, 3, 2 and 1 mg,
/// highest first) the period until the appointment consumes, and how many
/// physical pills that takes to hand out. Strengths the period does not
/// touch are left out.
pub fn calculate_total_pills(o: &DosageOption, days_until_appointment: u32, start_day_of_week: u8)
    -> (lines: Vec<DispenseLine>)
    requires
        week_of(o.option_type).len() == 7,
        week_pill_count(week_of(o.option_type)) <= 1000000,
    ensures
        lines@ == spec_tally(
            week_of(o.option_type),
            start_day_of_week as nat,
            days_until_appointment as nat,
        ),
{
    let ghost week = week_of(o.option_type);
    let ghost start = start_day_of_week as nat;
    let ghost days = days_until_appointment as nat;
    let mut lines: Vec<DispenseLine> = Vec::new();
    let strengths: [u8; 4] = [5, 3, 2, 1];
    let mut s: usize = 0;
    while s < 4
        invariant
            s <= 4,
            week == week_of(o.option_type),
            week.len() == 7,
            week_pill_count(week) <= 1000000,
            days == days_until_appointment as nat,
            start == start_day_of_week as nat,
            strengths@ =~= seq![5u8, 3u8, 2u8, 1u8],
            s == 0 ==> lines@.len() == 0,
            s == 1 ==> lines@ == maybe_line(spec_line(week, start, days, 5)),
            s == 2 ==> lines@ == maybe_line(spec_line(week, start, days, 5)) + maybe_line(
                spec_line(week, start, days, 3),
            ),
            s == 3 ==> lines@ == maybe_line(spec_line(week, start, days, 5)) + maybe_line(
                spec_line(week, start, days, 3),
            ) + maybe_line(spec_line(week, start, days, 2)),
            s == 4 ==> lines@ == maybe_line(spec_line(week, start, days, 5)) + maybe_line(
                spec_line(week, start, days, 3),
            ) + maybe_line(spec_line(week, start, days, 2)) + maybe_line(
                spec_line(week, start, days, 1),
            ),
        decreases 4 - s,
    {
        let mg = strengths[s];
        let ghost pre = lines@;
        let whole = count_pills_in_period(o, days_until_appointment, start_day_of_week, mg, false);
        let half = count_pills_in_period(o, days_until_appointment, start_day_of_week, mg, true);
        proof {
            lemma_period_bound(week, start, days, mg, false);
            lemma_period_bound(week, start, days, mg, true);
            assert(days <= 4294967295);
            assert(days * 1000000 <= 4294967295000000);
            assert(whole <= 4294967295000000);
            assert(half <= 4294967295000000);
        }
        let dispensed = whole + half / 2 + half % 2;
        if dispensed > 0 {
            let line = DispenseLine { mg, whole_count: whole, half_count: half, dispensed };
            lines.push(line);
            proof {
                assert(line == spec_line(week, start, days, mg));
                assert(lines@ =~= pre + maybe_line(spec_line(week, start, days, mg)));
            }
        } else {
            proof {
                assert(maybe_line(spec_line(week, start, days, mg)) =~= Seq::<
                    DispenseLine,
                >::empty());
                assert(lines@ =~= pre + maybe_line(spec_line(week, start, days, mg)));
            }
        }
        s += 1;
        proof {
            if s == 1 {
                assert(lines@ =~= maybe_line(spec_line(week, start, days, 5)));
            }
        }
    }
    lines
}

/// The whole period consumes finitely many pills: each pair's running count
/// stays below the overflow bound used above.
proof fn lemma_period_bound(week: Seq<Seq<Pill>>, start: nat, days: nat, mg: u8, half: bool)
    requires
        week.len() == 7,
        week_pill_count(week) <= 1000000,
    ensures
        period_pair_count(week, start, days, mg, half) <= days * 1000000,
    decreases days,
{
    if days > 0 {
        lemma_period_bound(week, start, (days - 1) as nat, mg, half);
        let d = ((start + days - 1) % 7) as int;
        lemma_pair_count_le_pill_count(week[d], mg, half);
        lemma_day_le_week(week, d);
        assert((days - 1) * 1000000 + 1000000 == days * 1000000) by (nonlinear_arith);
    }
}

} // verus!
