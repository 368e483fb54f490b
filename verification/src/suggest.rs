//! Assembling candidate schedules for a request: the uniform pass, the
//! non-uniform configurations, deduplication, scoring and ranking.

use crate::combos::{
    all_positive, clone_combo, combo_eq, find_comb, good_combo, single_whole, sorted_desc,
};
use crate::days::{get_day_indices, SpecialDayPattern};
use crate::options::{
    combo_half_strengths, combo_strengths, lemma_dose_pos_has_strength, lemma_strength_sets_finite,
    lemma_uniform_week_measures, lemma_week_take_succ, metrics_ok, option_ok, pairwise_distinct,
    same_schedule, week_dose2, week_of, week_pill_count, DosageOption, OptionType,
};
use crate::pill::{
    canonical_combo, combo_dose2, combo_pill_count, lemma_combo_dose2_le_pill_count,
    lemma_combo_measures_split, Pill,
};
use crate::rank::{
    lemma_sort_of_sorted_is_identity, lemma_spec_sort_contains, lemma_spec_sort_distinct,
    lemma_spec_sort_members, rank_le, rank_options, sorted_ranked,
};
use crate::MAX_DAILY_DOSE_HALF_MG;
use vstd::prelude::*;

verus! {

/// One request for schedule suggestions. The weekly dose target is carried
/// in half-mg units; a caller holding a dose in mg that does not sit on the
/// half-mg grid within the clinical tolerance has no achievable schedule to
/// ask for.
pub struct CalculationInput {
    /// Requested weekly dose, in half-mg units; negative yields no results.
    pub weekly_dose_half_mg: i64,
    pub allow_half: bool,
    /// Available pill strengths in mg; all positive.
    pub available_pills: Vec<u8>,
    pub special_day_pattern: SpecialDayPattern,
    /// Days to project pill consumption over, starting from the start day.
    pub days_until_appointment: u32,
    /// 0 = Monday .. 6 = Sunday.
    pub start_day_of_week: u8,
}

/// Total dose of a day's combination, in half-mg units.
pub fn combo_dose2_exec(c: &Vec<Pill>) -> (n: u32)
    requires
        combo_dose2(c@) <= u32::MAX,
    ensures
        n == combo_dose2(c@),
{
    let mut n: u32 = 0;
    let mut i: usize = 0;
    while i < c.len()
        invariant
            i <= c@.len(),
            combo_dose2(c@) <= u32::MAX,
            n == combo_dose2(c@.take(i as int)),
        decreases c@.len() - i,
    {
        let p = c[i];
        proof {
            assert(c@.take(i + 1).drop_last() =~= c@.take(i as int));
            assert(c@.take(i + 1).last() == c@[i as int]);
            lemma_combo_measures_split(c@, i + 1);
        }
        let unit: u32 = if p.half {
            1
        } else {
            2
        };
        n = n + (p.count as u32) * (p.mg as u32) * unit;
        i += 1;
    }
    proof {
        assert(c@.take(c@.len() as int) =~= c@);
    }
    n
}

fn contains_idx(v: &Vec<usize>, x: usize) -> (r: bool)
    ensures
        r == v@.contains(x),
{
    let mut i: usize = 0;
    while i < v.len()
        invariant
            i <= v@.len(),
            forall|k: int| 0 <= k < i ==> v@[k] != x,
        decreases v@.len() - i,
    {
        if v[i] == x {
            return true;
        }
        i += 1;
    }
    false
}

fn clone_indices(v: &Vec<usize>) -> (r: Vec<usize>)
    ensures
        r@ == v@,
{
    let r = v.clone();
    proof {
        assert(r@ =~= v@);
    }
    r
}

/// Sorts the available strengths highest first: a permutation of the
/// input, so positivity carries over.
fn sort_strengths_desc(v: &Vec<u8>) -> (out: Vec<u8>)
    ensures
        sorted_desc(out@),
        out@.to_multiset() == v@.to_multiset(),
        forall|k: int| 0 <= k < out@.len() ==> v@.contains(#[trigger] out@[k]),
        forall|k: int| 0 <= k < v@.len() ==> out@.contains(#[trigger] v@[k]),
        out@.len() == v@.len(),
{
    let mut out: Vec<u8> = Vec::new();
    proof {
        assert(v@.take(0) =~= out@);
    }
    let mut i: usize = 0;
    while i < v.len()
        invariant
            i <= v@.len(),
            out@.len() == i,
            sorted_desc(out@),
            out@.to_multiset() == v@.take(i as int).to_multiset(),
            forall|k: int| 0 <= k < out@.len() ==> v@.contains(#[trigger] out@[k]),
            forall|k: int| 0 <= k < i ==> out@.contains(#[trigger] v@[k]),
        decreases v@.len() - i,
    {
        let x = v[i];
        let mut j: usize = 0;
        while j < out.len() && out[j] >= x
            invariant
                j <= out@.len(),
                forall|k: int| 0 <= k < j ==> out@[k] >= x,
            decreases out@.len() - j,
        {
            j += 1;
        }
        let ghost old_out = out@;
        proof {
            assert(forall|k: int| j <= k < old_out.len() ==> old_out[k as int] < x);
        }
        out.insert(j, x);
        proof {
            assert(out@ =~= old_out.take(j as int) + seq![x] + old_out.skip(j as int));
            assert(v@.contains(v@[i as int]));
            assert(out@[j as int] == x);
            let a = old_out.take(j as int);
            let b = old_out.skip(j as int);
            assert(old_out =~= a + b);
            vstd::seq_lib::lemma_multiset_commutative(a, b);
            vstd::seq_lib::lemma_multiset_commutative(a + seq![x], b);
            vstd::seq_lib::lemma_multiset_commutative(a, seq![x]);
            assert(out@ =~= (a + seq![x]) + b);
            assert(seq![x] =~= Seq::<u8>::empty().push(x));
            Seq::<u8>::empty().to_multiset_ensures();
            a.to_multiset_ensures();
            v@.take(i as int).to_multiset_ensures();
            assert(v@.take(i + 1) =~= v@.take(i as int).push(x));
            assert(out@.to_multiset() =~= v@.take(i + 1).to_multiset());
            assert forall|k: int| 0 <= k < i + 1 implies out@.contains(#[trigger] v@[k]) by {
                if k < i {
                    let m = choose|m: int| 0 <= m < old_out.len() && old_out[m] == v@[k];
                    if m < j {
                        assert(out@[m] == v@[k]);
                    } else {
                        assert(out@[m + 1] == v@[k]);
                    }
                } else {
                    assert(out@[j as int] == v@[k]);
                }
            }
        }
        i += 1;
    }
    proof {
        assert(v@.take(v@.len() as int) =~= v@);
    }
    out
}

/// Deep equality of two 7-day assignments.
pub open spec fn weeks_eq(a: Seq<Vec<Pill>>, b: Seq<Vec<Pill>>) -> bool {
    a.len() == b.len() && forall|d: int| 0 <= d < a.len() ==> (#[trigger] a[d])@ == b[d]@
}

fn week_eq(a: &Vec<Vec<Pill>>, b: &Vec<Vec<Pill>>) -> (r: bool)
    ensures
        r == weeks_eq(a@, b@),
{
    if a.len() != b.len() {
        return false;
    }
    let mut d: usize = 0;
    while d < a.len()
        invariant
            d <= a@.len(),
            a@.len() == b@.len(),
            forall|k: int| 0 <= k < d ==> (#[trigger] a@[k])@ == b@[k]@,
        decreases a@.len() - d,
    {
        if !combo_eq(&a[d], &b[d]) {
            return false;
        }
        d += 1;
    }
    true
}

/// Whether a uniform schedule with this very combination was already kept.
pub open spec fn has_uniform_combo(o: DosageOption, c: Seq<Pill>) -> bool {
    match o.option_type {
        OptionType::Uniform(u) => u@ == c,
        OptionType::NonUniform(_) => false,
    }
}

fn contains_uniform(options: &Vec<DosageOption>, c: &Vec<Pill>) -> (r: bool)
    ensures
        r == exists|i: int| 0 <= i < options@.len() && has_uniform_combo(#[trigger] options@[i], c@),
{
    let mut i: usize = 0;
    while i < options.len()
        invariant
            i <= options@.len(),
            forall|k: int| 0 <= k < i ==> !has_uniform_combo(#[trigger] options@[k], c@),
        decreases options@.len() - i,
    {
        match &options[i].option_type {
            OptionType::Uniform(u) => {
                if combo_eq(u, c) {
                    return true;
                }
            },
            OptionType::NonUniform(_) => {},
        }
        i += 1;
    }
    false
}

/// Whether a non-uniform schedule with this very 7-day assignment was
/// already kept.
pub open spec fn has_nonuniform_week(o: DosageOption, w: Seq<Vec<Pill>>) -> bool {
    match o.option_type {
        OptionType::Uniform(_) => false,
        OptionType::NonUniform(cw) => weeks_eq(cw@, w),
    }
}

fn contains_nonuniform(options: &Vec<DosageOption>, w: &Vec<Vec<Pill>>) -> (r: bool)
    ensures
        r == exists|i: int|
            0 <= i < options@.len() && has_nonuniform_week(#[trigger] options@[i], w@),
{
    let mut i: usize = 0;
    while i < options.len()
        invariant
            i <= options@.len(),
            forall|k: int| 0 <= k < i ==> !has_nonuniform_week(#[trigger] options@[k], w@),
        decreases options@.len() - i,
    {
        match &options[i].option_type {
            OptionType::Uniform(_) => {},
            OptionType::NonUniform(cw) => {
                if week_eq(cw, w) {
                    return true;
                }
            },
        }
        i += 1;
    }
    false
}

/// One whole pill of the request's strength at this position, taken every
/// day, meets the weekly target exactly (a whole pill of `s` mg is `2*s`
/// half-mg, seven days make `14*s`).
pub open spec fn daily_single_matches(input: CalculationInput, i: int) -> bool {
    &&& 0 <= i < input.available_pills@.len()
    &&& 14 * (input.available_pills@[i] as int) == input.weekly_dose_half_mg
}

/// The 7-day assignment one configuration induces: nothing on stop days,
/// the special combination on special days, the normal combination on all
/// remaining days.
pub open spec fn assembled_week(
    n: Seq<Pill>,
    s: Seq<Pill>,
    stop_days: Seq<usize>,
    special_days: Seq<usize>,
) -> Seq<Seq<Pill>> {
    Seq::new(
        7,
        |d: int|
            if stop_days.contains(d as usize) {
                Seq::<Pill>::empty()
            } else if special_days.contains(d as usize) {
                s
            } else {
                n
            },
    )
}

/// Whether a schedule is the non-uniform schedule carrying exactly this
/// 7-day assignment.
pub open spec fn has_week(o: DosageOption, w: Seq<Seq<Pill>>) -> bool {
    !o.option_type.is_uniform() && week_of(o.option_type) == w
}

/// The dose and calendar attributes a non-uniform schedule inherits from
/// the configuration it was assembled under.
pub open spec fn from_config(
    o: DosageOption,
    base_dose2: u32,
    special_dose2: u32,
    stop_days: Seq<usize>,
    special_days: Seq<usize>,
) -> bool {
    &&& o.base_dose2 == base_dose2
    &&& o.special_dose2 == special_dose2
    &&& o.stop_days@ == stop_days
    &&& o.special_days@ == special_days
}

/// One (normal, special) pair of a configuration is covered by the options
/// list: if its assembled week meets the weekly target, a schedule with
/// exactly that week is in the list.
pub open spec fn pair_covered(
    options: Seq<DosageOption>,
    normal: Seq<Vec<Pill>>,
    special: Seq<Vec<Pill>>,
    stop_days: Seq<usize>,
    special_days: Seq<usize>,
    w2: u64,
    ni: int,
    si: int,
) -> bool {
    week_dose2(assembled_week(normal[ni]@, special[si]@, stop_days, special_days)) == w2
        ==> exists|j: int|
        0 <= j < options.len() && has_week(
            options[j],
            assembled_week(normal[ni]@, special[si]@, stop_days, special_days),
        )
}

/// Builds every acceptable 7-day schedule from the full cross product of
/// normal-day and special-day combinations: stop days carry the empty
/// combination, special days the special one, all remaining days the normal
/// one. Every pair whose weekly sum meets the target exactly leaves a
/// schedule with that very week among the options (a single one, when an
/// equal week was already kept); nothing else is appended.
fn add_non_uniform_option(
    options: &mut Vec<DosageOption>,
    w2: u64,
    base_dose2: u32,
    normal_day_combos: &Vec<Vec<Pill>>,
    special_dose2: u32,
    special_day_combos: &Vec<Vec<Pill>>,
    stop_days: &Vec<usize>,
    special_days: &Vec<usize>,
)
    requires
        forall|i: int|
            #![trigger normal_day_combos@[i]]
            0 <= i < normal_day_combos@.len() ==> combo_pill_count(normal_day_combos@[i]@) <= 4,
        forall|i: int|
            #![trigger special_day_combos@[i]]
            0 <= i < special_day_combos@.len() ==> combo_pill_count(special_day_combos@[i]@) <= 4,
        forall|i: int|
            #![trigger normal_day_combos@[i]]
            0 <= i < normal_day_combos@.len() ==> canonical_combo(normal_day_combos@[i]@),
        forall|i: int|
            #![trigger special_day_combos@[i]]
            0 <= i < special_day_combos@.len() ==> canonical_combo(special_day_combos@[i]@),
        forall|k: int| 0 <= k < stop_days@.len() ==> (#[trigger] stop_days@[k]) < 7,
        stop_days@.len() <= 7,
        special_days@.len() <= 7,
        pairwise_distinct(old(options)@),
    ensures
        pairwise_distinct(final(options)@),
        final(options)@.len() >= old(options)@.len(),
        forall|i: int|
            #![trigger final(options)@[i]]
            0 <= i < old(options)@.len() ==> final(options)@[i] == old(options)@[i],
        forall|i: int|
            #![trigger final(options)@[i]]
            old(options)@.len() <= i < final(options)@.len() ==> option_ok(
                final(options)@[i],
                w2 as int,
            ) && !final(options)@[i].option_type.is_uniform(),
        forall|i: int|
            #![trigger final(options)@[i]]
            old(options)@.len() <= i < final(options)@.len() ==> from_config(
                final(options)@[i],
                base_dose2,
                special_dose2,
                stop_days@,
                special_days@,
            ) && (exists|ni: int, si: int|
                0 <= ni < normal_day_combos@.len() && 0 <= si < special_day_combos@.len()
                    && week_of(final(options)@[i].option_type) == assembled_week(
                    normal_day_combos@[ni]@,
                    special_day_combos@[si]@,
                    stop_days@,
                    special_days@,
                )),
        forall|ni: int, si: int|
            #![trigger normal_day_combos@[ni], special_day_combos@[si]]
            0 <= ni < normal_day_combos@.len() && 0 <= si < special_day_combos@.len()
                ==> pair_covered(
                final(options)@,
                normal_day_combos@,
                special_day_combos@,
                stop_days@,
                special_days@,
                w2,
                ni,
                si,
            ),
{
    let ghost opts0 = options@;
    let mut ni: usize = 0;
    while ni < normal_day_combos.len()
        invariant
            forall|i: int|
                #![trigger normal_day_combos@[i]]
                0 <= i < normal_day_combos@.len() ==> combo_pill_count(normal_day_combos@[i]@)
                    <= 4,
            forall|i: int|
                #![trigger special_day_combos@[i]]
                0 <= i < special_day_combos@.len() ==> combo_pill_count(special_day_combos@[i]@)
                    <= 4,
            forall|i: int|
                #![trigger normal_day_combos@[i]]
                0 <= i < normal_day_combos@.len() ==> canonical_combo(normal_day_combos@[i]@),
            forall|i: int|
                #![trigger special_day_combos@[i]]
                0 <= i < special_day_combos@.len() ==> canonical_combo(special_day_combos@[i]@),
            forall|k: int| 0 <= k < stop_days@.len() ==> (#[trigger] stop_days@[k]) < 7,
            stop_days@.len() <= 7,
            special_days@.len() <= 7,
            options@.len() >= opts0.len(),
            pairwise_distinct(options@),
            forall|i: int|
                #![trigger options@[i]]
                0 <= i < opts0.len() ==> options@[i] == opts0[i],
            forall|i: int|
                #![trigger options@[i]]
                opts0.len() <= i < options@.len() ==> option_ok(options@[i], w2 as int)
                    && !options@[i].option_type.is_uniform(),
            forall|i: int|
                #![trigger options@[i]]
                opts0.len() <= i < options@.len() ==> from_config(
                    options@[i],
                    base_dose2,
                    special_dose2,
                    stop_days@,
                    special_days@,
                ) && (exists|ni2: int, si2: int|
                    0 <= ni2 < normal_day_combos@.len() && 0 <= si2 < special_day_combos@.len()
                        && week_of(options@[i].option_type) == assembled_week(
                        normal_day_combos@[ni2]@,
                        special_day_combos@[si2]@,
                        stop_days@,
                        special_days@,
                    )),
            forall|ni2: int, si2: int|
                #![trigger normal_day_combos@[ni2], special_day_combos@[si2]]
                0 <= ni2 < ni && 0 <= si2 < special_day_combos@.len() ==> pair_covered(
                    options@,
                    normal_day_combos@,
                    special_day_combos@,
                    stop_days@,
                    special_days@,
                    w2,
                    ni2,
                    si2,
                ),
        decreases normal_day_combos@.len() - ni,
    {
        let mut si: usize = 0;
        while si < special_day_combos.len()
            invariant
                ni < normal_day_combos@.len(),
                forall|i: int|
                    #![trigger normal_day_combos@[i]]
                    0 <= i < normal_day_combos@.len() ==> combo_pill_count(normal_day_combos@[i]@)
                        <= 4,
                forall|i: int|
                    #![trigger special_day_combos@[i]]
                    0 <= i < special_day_combos@.len() ==> combo_pill_count(
                        special_day_combos@[i]@,
                    ) <= 4,
                forall|i: int|
                    #![trigger normal_day_combos@[i]]
                    0 <= i < normal_day_combos@.len() ==> canonical_combo(normal_day_combos@[i]@),
                forall|i: int|
                    #![trigger special_day_combos@[i]]
                    0 <= i < special_day_combos@.len() ==> canonical_combo(
                        special_day_combos@[i]@,
                    ),
                forall|k: int| 0 <= k < stop_days@.len() ==> (#[trigger] stop_days@[k]) < 7,
                stop_days@.len() <= 7,
                special_days@.len() <= 7,
                options@.len() >= opts0.len(),
                pairwise_distinct(options@),
                forall|i: int|
                    #![trigger options@[i]]
                    0 <= i < opts0.len() ==> options@[i] == opts0[i],
                forall|i: int|
                    #![trigger options@[i]]
                    opts0.len() <= i < options@.len() ==> option_ok(options@[i], w2 as int)
                        && !options@[i].option_type.is_uniform(),
                forall|i: int|
                    #![trigger options@[i]]
                    opts0.len() <= i < options@.len() ==> from_config(
                        options@[i],
                        base_dose2,
                        special_dose2,
                        stop_days@,
                        special_days@,
                    ) && (exists|ni2: int, si2: int|
                        0 <= ni2 < normal_day_combos@.len() && 0 <= si2
                            < special_day_combos@.len() && week_of(options@[i].option_type)
                            == assembled_week(
                            normal_day_combos@[ni2]@,
                            special_day_combos@[si2]@,
                            stop_days@,
                            special_days@,
                        )),
                forall|ni2: int, si2: int|
                    #![trigger normal_day_combos@[ni2], special_day_combos@[si2]]
                    0 <= ni2 < ni && 0 <= si2 < special_day_combos@.len() ==> pair_covered(
                        options@,
                        normal_day_combos@,
                        special_day_combos@,
                        stop_days@,
                        special_days@,
                        w2,
                        ni2,
                        si2,
                    ),
                forall|si2: int|
                    #![trigger special_day_combos@[si2]]
                    0 <= si2 < si ==> pair_covered(
                        options@,
                        normal_day_combos@,
                        special_day_combos@,
                        stop_days@,
                        special_days@,
                        w2,
                        ni as int,
                        si2,
                    ),
            decreases special_day_combos@.len() - si,
        {
            let n_combo = &normal_day_combos[ni];
            let s_combo = &special_day_combos[si];
            let ghost aw = assembled_week(n_combo@, s_combo@, stop_days@, special_days@);
            let ghost opts_i0 = options@;
            let empty_combo: Vec<Pill> = Vec::new();
            let mut week: Vec<Vec<Pill>> = Vec::new();
            let mut actual2: u64 = 0;
            let mut d: usize = 0;
            while d < 7
                invariant
                    d <= 7,
                    week@.len() == d,
                    combo_pill_count(n_combo@) <= 4,
                    combo_pill_count(s_combo@) <= 4,
                    empty_combo@.len() == 0,
                    aw == assembled_week(n_combo@, s_combo@, stop_days@, special_days@),
                    forall|k: int| 0 <= k < stop_days@.len() ==> (#[trigger] stop_days@[k]) < 7,
                    actual2 == week_dose2(week@.map_values(|x: Vec<Pill>| x@)),
                    actual2 <= 2040 * d,
                    week_pill_count(week@.map_values(|x: Vec<Pill>| x@)) <= 4 * d,
                    forall|dd: int| 0 <= dd < d ==> (#[trigger] week@[dd])@ == aw[dd],
                    forall|k: int|
                        0 <= k < stop_days@.len() && (#[trigger] stop_days@[k]) < d ==> week@[
                            stop_days@[k] as int
                        ]@.len() == 0,
                decreases 7 - d,
            {
                let use_stop = contains_idx(stop_days, d);
                let use_special = if use_stop {
                    false
                } else {
                    contains_idx(special_days, d)
                };
                let cd: &Vec<Pill> = if use_stop {
                    &empty_combo
                } else if use_special {
                    s_combo
                } else {
                    n_combo
                };
                proof {
                    lemma_combo_dose2_le_pill_count(cd@);
                    assert(combo_pill_count(cd@) <= 4);
                    assert(use_stop ==> cd@ =~= Seq::<Pill>::empty());
                    assert(cd@ == aw[d as int]);
                }
                let dose_d = combo_dose2_exec(cd);
                let ghost wk0 = week@.map_values(|x: Vec<Pill>| x@);
                week.push(clone_combo(cd));
                actual2 = actual2 + dose_d as u64;
                d += 1;
                proof {
                    let wk1 = week@.map_values(|x: Vec<Pill>| x@);
                    assert(wk1.drop_last() =~= wk0);
                    assert(wk1.last() == cd@);
                    assert(week_dose2(wk1) == week_dose2(wk0) + combo_dose2(cd@));
                    assert(week_pill_count(wk1) == week_pill_count(wk0) + combo_pill_count(cd@));
                    assert(use_stop ==> week@[d - 1]@.len() == 0);
                    assert(forall|k: int|
                        0 <= k < stop_days@.len() && (#[trigger] stop_days@[k]) == d - 1
                            ==> use_stop);
                }
            }
            proof {
                assert(week@.map_values(|x: Vec<Pill>| x@) =~= aw);
            }
            if actual2 == w2 {
                let ghost weekv = week@;
                let dup = contains_nonuniform(options, &week);
                if !dup {
                    let ghost wk = week@.map_values(|x: Vec<Pill>| x@);
                    proof {
                        assert(week_of(OptionType::NonUniform(week)) == wk);
                        assert(week_pill_count(wk) <= 28);
                        assert forall|dd: int| 0 <= dd < 7 implies canonical_combo(
                            #[trigger] wk[dd],
                        ) by {
                            assert(wk[dd] == aw[dd]);
                            assert(canonical_combo(Seq::<Pill>::empty()));
                        }
                    }
                    let mut o = DosageOption::new(OptionType::NonUniform(week), actual2 as u32);
                    o.base_dose2 = base_dose2;
                    o.special_dose2 = special_dose2;
                    o.num_stop_days = stop_days.len() as u8;
                    o.stop_days = clone_indices(stop_days);
                    o.num_special_days = special_days.len() as u8;
                    o.special_days = clone_indices(special_days);
                    let ghost pre = options@;
                    options.push(o);
                    proof {
                        assert(metrics_ok(o));
                        assert(option_ok(o, w2 as int));
                        assert(week_of(o.option_type) == aw);
                        assert(has_week(o, aw));
                        assert(from_config(o, base_dose2, special_dose2, stop_days@,
                            special_days@));
                        assert(forall|i: int|
                            0 <= i < pre.len() ==> (#[trigger] options@[i]) == pre[i]);
                        assert(options@[options@.len() - 1] == o);
                        assert(has_week(options@[options@.len() - 1], aw));
                        // the dedup scan found no equal week, so the new
                        // schedule differs in content from every kept one
                        assert forall|i: int, j: int|
                            #![trigger options@[i], options@[j]]
                            0 <= i < j < options@.len() implies !same_schedule(
                            options@[i],
                            options@[j],
                        ) by {
                            if j == options@.len() - 1 {
                                assert(options@[i] == pre[i]);
                                if same_schedule(pre[i], o) {
                                    match pre[i].option_type {
                                        OptionType::Uniform(_) => {
                                            assert(false);
                                        },
                                        OptionType::NonUniform(cw) => {
                                            assert(cw@.map_values(|x: Vec<Pill>| x@) == wk);
                                            assert(weeks_eq(cw@, weekv)) by {
                                                assert(cw@.len() == 7);
                                                assert(forall|d: int|
                                                    0 <= d < cw@.len() ==> (#[trigger] cw@[d])@
                                                        == wk[d]);
                                            }
                                            assert(has_nonuniform_week(pre[i], weekv));
                                            assert(false);
                                        },
                                    }
                                }
                            }
                        }
                    }
                } else {
                    proof {
                        let k = choose|k: int|
                            0 <= k < options@.len() && has_nonuniform_week(options@[k], week@);
                        assert(week_of(options@[k].option_type) =~= aw);
                        assert(week_of(options@[k].option_type) == aw);
                        assert(has_week(options@[k], aw));
                    }
                }
                proof {
                    assert(week_dose2(aw) == w2);
                    assert(exists|j: int| 0 <= j < options@.len() && has_week(options@[j], aw));
                }
            } else {
                proof {
                    assert(week_dose2(aw) != w2);
                }
            }
            si += 1;
            proof {
                assert forall|si2: int|
                    #![trigger special_day_combos@[si2]]
                    0 <= si2 < si implies pair_covered(
                    options@,
                    normal_day_combos@,
                    special_day_combos@,
                    stop_days@,
                    special_days@,
                    w2,
                    ni as int,
                    si2,
                ) by {
                    if si2 < si - 1 {
                        lemma_covered_persists(
                            opts_i0,
                            options@,
                            normal_day_combos@,
                            special_day_combos@,
                            stop_days@,
                            special_days@,
                            w2,
                            ni as int,
                            si2,
                        );
                    }
                }
                assert forall|ni2: int, si2: int|
                    #![trigger normal_day_combos@[ni2], special_day_combos@[si2]]
                    0 <= ni2 < ni && 0 <= si2 < special_day_combos@.len() implies pair_covered(
                    options@,
                    normal_day_combos@,
                    special_day_combos@,
                    stop_days@,
                    special_days@,
                    w2,
                    ni2,
                    si2,
                ) by {
                    lemma_covered_persists(
                        opts_i0,
                        options@,
                        normal_day_combos@,
                        special_day_combos@,
                        stop_days@,
                        special_days@,
                        w2,
                        ni2,
                        si2,
                    );
                }
            }
        }
        ni += 1;
    }
    proof {
        assert forall|i: int|
            #![trigger options@[i]]
            opts0.len() <= i < options@.len() implies from_config(
            options@[i],
            base_dose2,
            special_dose2,
            stop_days@,
            special_days@,
        ) && (exists|ni2: int, si2: int|
            0 <= ni2 < normal_day_combos@.len() && 0 <= si2 < special_day_combos@.len()
                && week_of(options@[i].option_type) == assembled_week(
                normal_day_combos@[ni2]@,
                special_day_combos@[si2]@,
                stop_days@,
                special_days@,
            )) by {}
    }
}

/// A covered pair stays covered when the options list only grows.
proof fn lemma_covered_persists(
    before: Seq<DosageOption>,
    after: Seq<DosageOption>,
    normal: Seq<Vec<Pill>>,
    special: Seq<Vec<Pill>>,
    stop_days: Seq<usize>,
    special_days: Seq<usize>,
    w2: u64,
    ni: int,
    si: int,
)
    requires
        pair_covered(before, normal, special, stop_days, special_days, w2, ni, si),
        before.len() <= after.len(),
        forall|i: int| 0 <= i < before.len() ==> after[i] == #[trigger] before[i],
    ensures
        pair_covered(after, normal, special, stop_days, special_days, w2, ni, si),
{
    let aw = assembled_week(normal[ni]@, special[si]@, stop_days, special_days);
    if week_dose2(aw) == w2 {
        let j = choose|j: int| 0 <= j < before.len() && has_week(before[j], aw);
        assert(after[j] == before[j]);
    }
}

/// Among well-formed schedules meeting a positive weekly target, the
/// uniform schedule of one whole matching pill a day carries the least
/// possible ranking key — no half pills, the uniform priority, no altered
/// days, one strength, seven pill objects — and only a schedule with the
/// same content can tie it.
proof fn lemma_single_uniform_ranks_first(u: DosageOption, o: DosageOption, s: u8, w2: int)
    requires
        option_ok(u, w2),
        option_ok(o, w2),
        has_uniform_combo(u, single_whole(s)),
        14 * (s as int) == w2,
        s >= 1,
    ensures
        rank_le(u, o),
        rank_le(o, u) ==> same_schedule(o, u),
{
    let cu = single_whole(s);
    assert(cu.drop_last() =~= Seq::<Pill>::empty());
    assert(cu.last() == (Pill { mg: s, count: 1, half: false }));
    assert(combo_pill_count(cu) == combo_pill_count(cu.drop_last()) + cu.last().count as nat);
    assert(combo_pill_count(cu.drop_last()) == 0);
    assert(combo_pill_count(cu) == 1);
    assert(combo_dose2(cu) == combo_dose2(cu.drop_last()) + crate::pill::pill_dose2(cu.last()));
    assert(combo_dose2(cu.drop_last()) == 0);
    assert(crate::pill::pill_dose2(cu.last()) == 2 * s);
    assert(combo_dose2(cu) == 2 * s);
    assert(combo_strengths(cu) == combo_strengths(cu.drop_last()).insert(cu.last().mg));
    assert(combo_strengths(cu.drop_last()) == Set::<u8>::empty());
    assert(combo_strengths(cu) =~= Set::<u8>::empty().insert(s));
    assert(combo_half_strengths(cu) == combo_half_strengths(cu.drop_last()));
    assert(combo_half_strengths(cu.drop_last()) == Set::<u8>::empty());
    assert(combo_half_strengths(cu) =~= Set::<u8>::empty());
    broadcast use vstd::set::axiom_set_empty_len;

    vstd::set::axiom_set_insert_len(Set::<u8>::empty(), s);
    assert(Set::<u8>::empty().insert(s).len() == 1);
    match u.option_type {
        OptionType::Uniform(cuv) => {
            assert(cuv@ == cu);
            lemma_uniform_week_measures(cu, 7);
            assert(week_of(u.option_type) =~= Seq::new(7, |i: int| cu));
            assert(u.half_pill_complexity == 0);
            assert(u.pill_color_count == 1);
            assert(u.total_pill_objects == 7);
            assert(u.priority == 0);
        },
        OptionType::NonUniform(_) => {
            assert(false);
        },
    }
    if o.half_pill_complexity > 0 {
        assert(rank_le(u, o));
        assert(!rank_le(o, u));
    } else {
        match o.option_type {
            OptionType::NonUniform(_) => {
                assert(o.priority == 1);
                assert(rank_le(u, o));
                assert(!rank_le(o, u));
            },
            OptionType::Uniform(co) => {
                assert(o.priority == 0);
                assert(o.num_stop_days == 0 && o.num_special_days == 0);
                lemma_uniform_week_measures(co@, 7);
                assert(week_of(o.option_type) =~= Seq::new(7, |i: int| co@));
                assert(7 * combo_dose2(co@) == w2);
                assert(combo_dose2(co@) == 2 * s);
                assert(combo_dose2(co@) > 0);
                lemma_combo_dose2_le_pill_count(co@);
                assert(combo_pill_count(co@) >= 1);
                assert(o.total_pill_objects == 7 * combo_pill_count(co@));
                lemma_strength_sets_finite(co@);
                lemma_dose_pos_has_strength(co@);
                let m = choose|m: u8| combo_strengths(co@).contains(m);
                assert(o.pill_color_count == combo_strengths(co@).len());
                assert(combo_strengths(co@).len() >= 1) by {
                    if combo_strengths(co@).len() == 0 {
                        combo_strengths(co@).lemma_len0_is_empty();
                        assert(!combo_strengths(co@).contains(m));
                    }
                }
                assert(rank_le(u, o));
                if rank_le(o, u) {
                    // all five keys tie, which pins the content
                    assert(o.pill_color_count == 1);
                    assert(o.total_pill_objects == 7);
                    assert(combo_pill_count(co@) == 1);
                    assert(canonical_combo(co@)) by {
                        assert(week_of(o.option_type)[0] == co@);
                    }
                    crate::pill::lemma_pill_count_ge_len(co@);
                    assert(co@.len() <= 1);
                    assert(co@.len() >= 1) by {
                        if co@.len() == 0 {
                            assert(combo_dose2(co@) == 0);
                        }
                    }
                    let p = co@[0];
                    assert(co@.drop_last() =~= Seq::<Pill>::empty());
                    assert(co@.last() == p);
                    assert(combo_pill_count(co@) == p.count as nat);
                    assert(p.count == 1);
                    assert(!p.half) by {
                        if p.half {
                            assert(combo_half_strengths(co@) =~= Set::<u8>::empty().insert(
                                p.mg,
                            ));
                            vstd::set::axiom_set_insert_len(Set::<u8>::empty(), p.mg);
                            assert(o.half_pill_complexity == 1);
                        }
                    }
                    assert(combo_dose2(co@) == combo_dose2(co@.drop_last())
                        + crate::pill::pill_dose2(co@.last()));
                    assert(combo_dose2(co@.drop_last()) == 0);
                    let n_p = p.count as nat;
                    let m_p = p.mg as nat;
                    assert(n_p * m_p * 2 == 2 * m_p) by (nonlinear_arith)
                        requires
                            n_p == 1,
                    ;
                    assert(crate::pill::pill_dose2(p) == n_p * m_p * 2);
                    assert(crate::pill::pill_dose2(p) == 2 * p.mg);
                    assert(combo_dose2(co@) == 2 * p.mg);
                    assert(p.mg == s);
                    assert(co@ =~= cu);
                    assert(week_of(o.option_type) =~= week_of(u.option_type));
                    assert(same_schedule(o, u));
                }
            },
        }
    }
}

/// Computes the ranked candidate schedules for a request: the uniform pass,
/// then every non-uniform configuration over both calendar patterns' tables
/// and every half-mg base dose up to the daily ceiling, deduplicated,
/// scored, stably ranked simplest-first and truncated to the 30 best.
/// A negative weekly target yields no results.
pub fn generate_suggestions(input: &CalculationInput) -> (results: Vec<DosageOption>)
    requires
        all_positive(input.available_pills@),
    ensures
        results@.len() <= 30,
        sorted_ranked(results@),
        pairwise_distinct(results@),
        input.weekly_dose_half_mg < 0 ==> results@.len() == 0,
        input.weekly_dose_half_mg == 0 ==> results@.len() == 1 && has_uniform_combo(
            results@[0],
            Seq::<Pill>::empty(),
        ),
        forall|i: int|
            #![trigger results@[i]]
            0 <= i < results@.len() ==> option_ok(results@[i], input.weekly_dose_half_mg as int),
        forall|i: int|
            #![trigger input.available_pills@[i]]
            daily_single_matches(*input, i) ==> exists|j: int|
                0 <= j < results@.len() && has_uniform_combo(
                    results@[j],
                    single_whole(input.available_pills@[i]),
                ),
{
    let w2 = input.weekly_dose_half_mg;
    if w2 < 0 {
        let empty: Vec<DosageOption> = Vec::new();
        return empty;
    }
    let pills = sort_strengths_desc(&input.available_pills);
    proof {
        assert(all_positive(pills@));
    }
    let mut options: Vec<DosageOption> = Vec::new();

    // uniform pass: one combination repeated daily can only meet a weekly
    // target that is seven times an achievable half-mg daily dose, and no
    // combination of at most four pills exceeds 2040 half-mg
    if w2 % 7 == 0 {
        let d2_wide = w2 / 7;
        if d2_wide <= 2040 {
            let d2 = d2_wide as u32;
            let min_pills: u8 = if d2 == 0 {
                0
            } else {
                1
            };
            let combos = find_comb(d2, &pills, input.allow_half, min_pills, 4);
            let actual: u32 = 7 * d2;
            proof {
                assert(7 * d2 == w2);
                assert forall|i: int|
                    #![trigger input.available_pills@[i]]
                    daily_single_matches(*input, i) implies exists|jc: int|
                    0 <= jc < combos@.len() && combos@[jc]@ == single_whole(
                        input.available_pills@[i],
                    ) by {
                    let s = input.available_pills@[i];
                    assert(pills@.contains(s));
                    let idx = choose|idx: int| 0 <= idx < pills@.len() && pills@[idx] == s;
                    assert(2 * (pills@[idx] as int) == d2);
                    assert(min_pills <= 1);
                }
            }
            let mut ci: usize = 0;
            while ci < combos.len()
                invariant
                    ci <= combos@.len(),
                    actual == 7 * d2,
                    actual == w2,
                    w2 == 0 ==> combos@.len() == 1 && combos@[0]@ == Seq::<Pill>::empty(),
                    w2 == 0 ==> options@.len() == ci && (ci == 1 ==> has_uniform_combo(
                        options@[0],
                        Seq::<Pill>::empty(),
                    )),
                    forall|i: int|
                        #![trigger input.available_pills@[i]]
                        daily_single_matches(*input, i) ==> (exists|j: int|
                            0 <= j < options@.len() && has_uniform_combo(
                                options@[j],
                                single_whole(input.available_pills@[i]),
                            )) || (exists|jc: int|
                            ci <= jc < combos@.len() && combos@[jc]@ == single_whole(
                                input.available_pills@[i],
                            )),
                    forall|i: int|
                        #![trigger combos@[i]]
                        0 <= i < combos@.len() ==> good_combo(combos@[i]@, d2, min_pills, 4),
                    pairwise_distinct(options@),
                    forall|i: int|
                        #![trigger options@[i]]
                        0 <= i < options@.len() ==> option_ok(options@[i], w2 as int),
                decreases combos@.len() - ci,
            {
                let c = clone_combo(&combos[ci]);
                let ghost opts0 = options@;
                let ghost cv = c@;
                let dup = contains_uniform(&options, &c);
                if !dup {
                    proof {
                        lemma_uniform_week_measures(c@, 7);
                        assert(week_pill_count(week_of(OptionType::Uniform(c))) <= 28);
                        assert(week_dose2(week_of(OptionType::Uniform(c))) == 7 * d2);
                    }
                    let o = DosageOption::new(OptionType::Uniform(c), actual);
                    let ghost pre = options@;
                    options.push(o);
                    proof {
                        assert(option_ok(o, w2 as int));
                        assert(has_uniform_combo(o, combos@[ci as int]@));
                        assert(forall|i: int|
                            0 <= i < pre.len() ==> (#[trigger] options@[i]) == pre[i]);
                        // no kept uniform schedule carries this combination,
                        // so the new schedule differs from every kept one
                        assert forall|i: int, j: int|
                            #![trigger options@[i], options@[j]]
                            0 <= i < j < options@.len() implies !same_schedule(
                            options@[i],
                            options@[j],
                        ) by {
                            if j == options@.len() - 1 {
                                assert(options@[i] == pre[i]);
                                if same_schedule(pre[i], o) {
                                    match pre[i].option_type {
                                        OptionType::Uniform(u) => {
                                            assert(week_of(pre[i].option_type)[0] == u@);
                                            assert(week_of(o.option_type)[0] == cv);
                                            assert(u@ == cv);
                                            assert(has_uniform_combo(pre[i], cv));
                                            assert(false);
                                        },
                                        OptionType::NonUniform(_) => {
                                            assert(false);
                                        },
                                    }
                                }
                            }
                        }
                    }
                }
                ci += 1;
                proof {
                    assert forall|i: int|
                        #![trigger input.available_pills@[i]]
                        daily_single_matches(*input, i) implies (exists|j: int|
                        0 <= j < options@.len() && has_uniform_combo(
                            options@[j],
                            single_whole(input.available_pills@[i]),
                        )) || (exists|jc: int|
                        ci <= jc < combos@.len() && combos@[jc]@ == single_whole(
                            input.available_pills@[i],
                        )) by {
                        let sw = single_whole(input.available_pills@[i]);
                        if exists|j: int|
                            0 <= j < opts0.len() && has_uniform_combo(opts0[j], sw) {
                            let j = choose|j: int|
                                0 <= j < opts0.len() && has_uniform_combo(opts0[j], sw);
                            assert(has_uniform_combo(options@[j], sw));
                        } else if combos@[ci - 1]@ == sw {
                            if dup {
                                let j = choose|j: int|
                                    0 <= j < opts0.len() && has_uniform_combo(opts0[j], c@);
                                assert(has_uniform_combo(options@[j], sw));
                            } else {
                                assert(has_uniform_combo(options@[options@.len() - 1], sw));
                            }
                        }
                    }
                }
            }
            proof {
                assert forall|i: int|
                    #![trigger input.available_pills@[i]]
                    daily_single_matches(*input, i) implies exists|j: int|
                    0 <= j < options@.len() && has_uniform_combo(
                        options@[j],
                        single_whole(input.available_pills@[i]),
                    ) by {}
            }
            proof {
                assert(w2 == 0 ==> options@.len() == 1 && has_uniform_combo(
                    options@[0],
                    Seq::<Pill>::empty(),
                ));
            }
        }
    }

    proof {
        // a strength whose daily whole pill meets the target has put its
        // uniform schedule among the collected options by now
        assert forall|i: int|
            #![trigger input.available_pills@[i]]
            daily_single_matches(*input, i) implies exists|j: int|
            0 <= j < options@.len() && has_uniform_combo(
                options@[j],
                single_whole(input.available_pills@[i]),
            ) by {
            let s = input.available_pills@[i] as int;
            assert(w2 == 14 * s);
            assert(w2 % 7 == 0 && w2 / 7 == 2 * s) by (nonlinear_arith)
                requires
                    w2 == 14 * s,
            ;
            assert(w2 / 7 <= 2040);
        }
    }

    // non-uniform pass over every (stop-day, special-day) configuration,
    // the all-normal configuration excluded as it is the uniform case
    let mut num_stop: u8 = 0;
    while num_stop <= 3
        invariant
            num_stop <= 4,
            w2 >= 0,
            sorted_desc(pills@),
            all_positive(pills@),
            w2 == 0 ==> options@.len() == 1 && has_uniform_combo(
                options@[0],
                Seq::<Pill>::empty(),
            ),
            forall|i: int|
                #![trigger input.available_pills@[i]]
                daily_single_matches(*input, i) ==> exists|j: int|
                    0 <= j < options@.len() && has_uniform_combo(
                        options@[j],
                        single_whole(input.available_pills@[i]),
                    ),
            pairwise_distinct(options@),
            forall|i: int|
                #![trigger options@[i]]
                0 <= i < options@.len() ==> option_ok(options@[i], w2 as int),
        decreases 4 - num_stop,
    {
        let mut num_special: u8 = 0;
        while num_special <= 3 - num_stop
            invariant
                num_stop <= 3,
                num_special <= 4 - num_stop,
                w2 >= 0,
                sorted_desc(pills@),
                all_positive(pills@),
                w2 == 0 ==> options@.len() == 1 && has_uniform_combo(
                    options@[0],
                    Seq::<Pill>::empty(),
                ),
                forall|i: int|
                    #![trigger input.available_pills@[i]]
                    daily_single_matches(*input, i) ==> exists|j: int|
                        0 <= j < options@.len() && has_uniform_combo(
                            options@[j],
                            single_whole(input.available_pills@[i]),
                        ),
                pairwise_distinct(options@),
                forall|i: int|
                    #![trigger options@[i]]
                    0 <= i < options@.len() ==> option_ok(options@[i], w2 as int),
            decreases 4 - num_stop - num_special,
        {
            if !(num_stop == 0 && num_special == 0) {
                let (stop_days, special_days) = get_day_indices(
                    num_stop,
                    num_special,
                    input.special_day_pattern,
                );
                let normal_days: i64 = 7 - (num_stop as i64) - (num_special as i64);
                let mut b: u32 = 1;
                while b <= MAX_DAILY_DOSE_HALF_MG
                    invariant
                        1 <= b <= 31,
                        w2 >= 0,
                        sorted_desc(pills@),
                        all_positive(pills@),
                        normal_days == 7 - num_stop - num_special,
                        1 <= normal_days <= 7,
                        stop_days@.len() <= 7,
                        special_days@.len() <= 7,
                        forall|k: int|
                            0 <= k < stop_days@.len() ==> (#[trigger] stop_days@[k]) < 7,
                        w2 == 0 ==> options@.len() == 1 && has_uniform_combo(
                            options@[0],
                            Seq::<Pill>::empty(),
                        ),
                        forall|i: int|
                            #![trigger input.available_pills@[i]]
                            daily_single_matches(*input, i) ==> exists|j: int|
                                0 <= j < options@.len() && has_uniform_combo(
                                    options@[j],
                                    single_whole(input.available_pills@[i]),
                                ),
                        pairwise_distinct(options@),
                        forall|i: int|
                            #![trigger options@[i]]
                            0 <= i < options@.len() ==> option_ok(options@[i], w2 as int),
                    decreases 31 - b,
                {
                    let ghost opts_b0 = options@;
                    let normal_combos = find_comb(b, &pills, input.allow_half, 1, 4);
                    if normal_combos.len() > 0 {
                        proof {
                            assert((b as i64) * normal_days <= 210 && (b as i64) * normal_days
                                >= 1) by (nonlinear_arith)
                                requires
                                    1 <= b <= 30,
                                    1 <= normal_days <= 7,
                            ;
                        }
                        let rem: i64 = w2 - (b as i64) * normal_days;
                        if num_special == 0 {
                            // the leftover beyond the normal days must vanish
                            if rem == 0 {
                                let mut specials: Vec<Vec<Pill>> = Vec::new();
                                let none: Vec<Pill> = Vec::new();
                                specials.push(none);
                                add_non_uniform_option(
                                    &mut options,
                                    w2 as u64,
                                    b,
                                    &normal_combos,
                                    0,
                                    &specials,
                                    &stop_days,
                                    &special_days,
                                );
                            }
                        } else if rem >= 1 && rem % (num_special as i64) == 0 {
                            // a positive leftover is spread evenly over the
                            // special days; a dose off the half-mg grid has
                            // no matching combination
                            let st_wide = rem / (num_special as i64);
                            if st_wide != (b as i64) && st_wide <= (MAX_DAILY_DOSE_HALF_MG as i64)
                                && 2 * st_wide <= 5 * (b as i64) {
                                let st = st_wide as u32;
                                let special_combos = find_comb(
                                    st,
                                    &pills,
                                    input.allow_half,
                                    1,
                                    4,
                                );
                                if special_combos.len() > 0 {
                                    add_non_uniform_option(
                                        &mut options,
                                        w2 as u64,
                                        b,
                                        &normal_combos,
                                        st,
                                        &special_combos,
                                        &stop_days,
                                        &special_days,
                                    );
                                }
                            }
                        }
                    }
                    proof {
                        assert forall|i: int|
                            #![trigger input.available_pills@[i]]
                            daily_single_matches(*input, i) implies exists|j: int|
                            0 <= j < options@.len() && has_uniform_combo(
                                options@[j],
                                single_whole(input.available_pills@[i]),
                            ) by {
                            let sw = single_whole(input.available_pills@[i]);
                            let j = choose|j: int|
                                0 <= j < opts_b0.len() && has_uniform_combo(opts_b0[j], sw);
                            assert(options@[j] == opts_b0[j]);
                        }
                    }
                    b += 1;
                }
            }
            num_special += 1;
        }
        num_stop += 1;
    }

    // rank simplest first, stably, and keep the 30 best
    let ghost collected = options@;
    let mut out = rank_options(options);
    proof {
        assert forall|i: int| 0 <= i < out@.len() implies option_ok(
            #[trigger] out@[i],
            w2 as int,
        ) by {
            lemma_spec_sort_members(collected, i);
        }
        if w2 == 0 {
            lemma_sort_of_sorted_is_identity(collected);
        }
        lemma_spec_sort_distinct(collected);
    }
    let ghost ranked = out@;
    out.truncate(30);
    proof {
        if ranked.len() > 30 {
            assert(out@ == ranked.subrange(0, 30));
        }
        assert forall|i: int|
            #![trigger input.available_pills@[i]]
            daily_single_matches(*input, i) implies exists|j: int|
            0 <= j < out@.len() && has_uniform_combo(
                out@[j],
                single_whole(input.available_pills@[i]),
            ) by {
            let s = input.available_pills@[i];
            let sw = single_whole(s);
            let jc = choose|j: int|
                0 <= j < collected.len() && has_uniform_combo(collected[j], sw);
            lemma_spec_sort_contains(collected, jc);
            let m = choose|m: int| 0 <= m < ranked.len() && ranked[m] == collected[jc];
            // the matching uniform schedule carries the least ranking key,
            // and anything tying it has its content: it stands first and
            // survives the truncation
            if m > 0 {
                assert(rank_le(ranked[0], ranked[m]));
                lemma_single_uniform_ranks_first(ranked[m], ranked[0], s, w2 as int);
                assert(same_schedule(ranked[0], ranked[m]));
                assert(false);
            }
            assert(out@[0] == ranked[0]);
            assert(has_uniform_combo(out@[0], sw));
        }
    }
    out
}

} // verus!
