//! Candidate weekly schedules and their complexity metrics.

use crate::pill::{
    canonical_combo, combo_dose2, combo_pill_count, lemma_combo_measures_split, pill_dose2, Pill,
};
use vstd::prelude::*;

verus! {

/// The shape of a candidate schedule: the same combination every day, or a
/// full 7-day assignment (index 0 = Monday .. 6 = Sunday).
#[derive(Clone, Debug)]
pub enum OptionType {
    Uniform(Vec<Pill>),
    NonUniform(Vec<Vec<Pill>>),
}

impl OptionType {
    pub open spec fn is_uniform(self) -> bool {
        self matches OptionType::Uniform(_)
    }
}

/// The effective week of a schedule: a uniform schedule repeats its one
/// combination seven times.
pub open spec fn week_of(ot: OptionType) -> Seq<Seq<Pill>> {
    match ot {
        OptionType::Uniform(c) => Seq::new(7, |i: int| c@),
        OptionType::NonUniform(cw) => cw@.map_values(|d: Vec<Pill>| d@),
    }
}

/// Total dose of a week, in half-mg units.
pub open spec fn week_dose2(w: Seq<Seq<Pill>>) -> nat
    decreases w.len(),
{
    if w.len() == 0 {
        0
    } else {
        week_dose2(w.drop_last()) + combo_dose2(w.last())
    }
}

/// Total number of pill objects taken over a week.
pub open spec fn week_pill_count(w: Seq<Seq<Pill>>) -> nat
    decreases w.len(),
{
    if w.len() == 0 {
        0
    } else {
        week_pill_count(w.drop_last()) + combo_pill_count(w.last())
    }
}

/// The distinct strengths appearing with nonzero count in one combination.
pub open spec fn combo_strengths(c: Seq<Pill>) -> Set<u8>
    decreases c.len(),
{
    if c.len() == 0 {
        Set::empty()
    } else {
        let rest = combo_strengths(c.drop_last());
        if c.last().count > 0 {
            rest.insert(c.last().mg)
        } else {
            rest
        }
    }
}

/// The distinct strengths appearing as a half pill with nonzero count.
pub open spec fn combo_half_strengths(c: Seq<Pill>) -> Set<u8>
    decreases c.len(),
{
    if c.len() == 0 {
        Set::empty()
    } else {
        let rest = combo_half_strengths(c.drop_last());
        if c.last().count > 0 && c.last().half {
            rest.insert(c.last().mg)
        } else {
            rest
        }
    }
}

/// The distinct strengths appearing with nonzero count anywhere in a week.
pub open spec fn week_strengths(w: Seq<Seq<Pill>>) -> Set<u8>
    decreases w.len(),
{
    if w.len() == 0 {
        Set::empty()
    } else {
        week_strengths(w.drop_last()).union(combo_strengths(w.last()))
    }
}

/// The distinct strengths appearing as a half pill anywhere in a week.
pub open spec fn week_half_strengths(w: Seq<Seq<Pill>>) -> Set<u8>
    decreases w.len(),
{
    if w.len() == 0 {
        Set::empty()
    } else {
        week_half_strengths(w.drop_last()).union(combo_half_strengths(w.last()))
    }
}

/// The derived complexity metrics of a schedule are exactly those of its
/// effective week.
pub open spec fn metrics_ok(o: DosageOption) -> bool {
    &&& o.priority == (if o.option_type.is_uniform() {
        0int
    } else {
        1int
    })
    &&& o.half_pill_complexity == week_half_strengths(week_of(o.option_type)).len()
    &&& o.pill_color_count == week_strengths(week_of(o.option_type)).len()
    &&& o.total_pill_objects == week_pill_count(week_of(o.option_type))
}

/// Two schedules with identical content: the same shape and the same
/// effective pill assignment — the canonical signature of a schedule is
/// its shape tag plus its week.
pub open spec fn same_schedule(a: DosageOption, b: DosageOption) -> bool {
    a.option_type.is_uniform() == b.option_type.is_uniform() && week_of(a.option_type) == week_of(
        b.option_type,
    )
}

/// No two schedules of the list share the same content.
pub open spec fn pairwise_distinct(s: Seq<DosageOption>) -> bool {
    forall|i: int, j: int|
        #![trigger s[i], s[j]]
        0 <= i < j < s.len() ==> !same_schedule(s[i], s[j])
}

/// What holds of every schedule the generator returns for a weekly target
/// of `w2` half-mg: a full 7-day week whose dose meets the target exactly,
/// the recorded achieved dose and complexity metrics derived from that week,
/// calendar attributes consistent with the shape, and nothing taken on a
/// stop day.
pub open spec fn option_ok(o: DosageOption, w2: int) -> bool {
    &&& metrics_ok(o)
    &&& week_of(o.option_type).len() == 7
    &&& week_dose2(week_of(o.option_type)) == w2
    &&& forall|d: int| 0 <= d < 7 ==> canonical_combo(#[trigger] week_of(o.option_type)[d])
    &&& o.weekly_dose_actual2 == w2
    &&& o.num_stop_days == o.stop_days@.len()
    &&& o.num_special_days == o.special_days@.len()
    &&& (o.option_type.is_uniform() ==> o.num_stop_days == 0 && o.num_special_days == 0)
    &&& forall|k: int|
        0 <= k < o.stop_days@.len() ==> (#[trigger] o.stop_days@[k]) < 7 && week_of(
            o.option_type,
        )[o.stop_days@[k] as int].len() == 0
}

/// One candidate weekly dosing schedule with its derived attributes.
#[derive(Clone, Debug)]
pub struct DosageOption {
    pub option_type: OptionType,
    /// Achieved weekly dose, in half-mg units.
    pub weekly_dose_actual2: u32,
    /// Dose of a normal day in a non-uniform schedule, in half-mg units.
    pub base_dose2: u32,
    /// Dose of a special day in a non-uniform schedule, in half-mg units.
    pub special_dose2: u32,
    pub num_stop_days: u8,
    pub stop_days: Vec<usize>,
    pub num_special_days: u8,
    pub special_days: Vec<usize>,
    /// 0 for uniform, 1 for non-uniform.
    pub priority: u8,
    /// Number of distinct strengths taken as half pills during the week.
    pub half_pill_complexity: usize,
    /// Number of distinct strengths taken during the week.
    pub pill_color_count: usize,
    /// Total pill objects taken during the week.
    pub total_pill_objects: u32,
}

pub proof fn lemma_week_take_succ(w: Seq<Seq<Pill>>, d: int)
    requires
        0 <= d < w.len(),
    ensures
        week_dose2(w.take(d + 1)) == week_dose2(w.take(d)) + combo_dose2(w[d]),
        week_pill_count(w.take(d + 1)) == week_pill_count(w.take(d)) + combo_pill_count(w[d]),
        week_strengths(w.take(d + 1)) == week_strengths(w.take(d)).union(combo_strengths(w[d])),
        week_half_strengths(w.take(d + 1)) == week_half_strengths(w.take(d)).union(
            combo_half_strengths(w[d]),
        ),
{
    assert(w.take(d + 1).drop_last() =~= w.take(d));
    assert(w.take(d + 1).last() == w[d]);
}

pub proof fn lemma_week_pill_count_concat(a: Seq<Seq<Pill>>, b: Seq<Seq<Pill>>)
    ensures
        week_pill_count(a + b) == week_pill_count(a) + week_pill_count(b),
    decreases b.len(),
{
    if b.len() == 0 {
        assert(a + b =~= a);
    } else {
        lemma_week_pill_count_concat(a, b.drop_last());
        assert((a + b).drop_last() =~= a + b.drop_last());
        assert((a + b).last() == b.last());
    }
}

pub proof fn lemma_week_pill_count_take_le(w: Seq<Seq<Pill>>, d: int)
    requires
        0 <= d <= w.len(),
    ensures
        week_pill_count(w.take(d)) <= week_pill_count(w),
{
    assert(w =~= w.take(d) + w.skip(d));
    lemma_week_pill_count_concat(w.take(d), w.skip(d));
}

/// The strength sets of a combination are finite.
pub proof fn lemma_strength_sets_finite(c: Seq<Pill>)
    ensures
        combo_strengths(c).finite(),
        combo_half_strengths(c).finite(),
    decreases c.len(),
{
    if c.len() > 0 {
        lemma_strength_sets_finite(c.drop_last());
    }
}

/// A combination with a positive dose takes some strength.
pub proof fn lemma_dose_pos_has_strength(c: Seq<Pill>)
    requires
        combo_dose2(c) > 0,
    ensures
        exists|m: u8| combo_strengths(c).contains(m),
    decreases c.len(),
{
    if c.len() > 0 {
        let p = c.last();
        if pill_dose2(p) > 0 {
            assert(p.count > 0) by (nonlinear_arith)
                requires
                    pill_dose2(p) == (p.count as nat) * (p.mg as nat) * (if p.half {
                        1nat
                    } else {
                        2nat
                    }),
                    pill_dose2(p) > 0,
            ;
            assert(combo_strengths(c).contains(p.mg));
        } else {
            lemma_dose_pos_has_strength(c.drop_last());
            let m = choose|m: u8| combo_strengths(c.drop_last()).contains(m);
            assert(combo_strengths(c).contains(m));
        }
    }
}

/// A uniform week's measures are its one combination's, the dose and pill
/// count counted seven times.
pub proof fn lemma_uniform_week_measures(c: Seq<Pill>, n: nat)
    ensures
        week_dose2(Seq::new(n, |i: int| c)) == n * combo_dose2(c),
        week_pill_count(Seq::new(n, |i: int| c)) == n * combo_pill_count(c),
        n > 0 ==> week_strengths(Seq::new(n, |i: int| c)) == combo_strengths(c),
        n > 0 ==> week_half_strengths(Seq::new(n, |i: int| c)) == combo_half_strengths(c),
        n == 0 ==> week_strengths(Seq::new(n, |i: int| c)) == Set::<u8>::empty(),
        n == 0 ==> week_half_strengths(Seq::new(n, |i: int| c)) == Set::<u8>::empty(),
    decreases n,
{
    let w = Seq::new(n, |i: int| c);
    if n == 0 {
        assert(w.len() == 0);
    } else {
        let prev = Seq::new((n - 1) as nat, |i: int| c);
        lemma_uniform_week_measures(c, (n - 1) as nat);
        assert(w.drop_last() =~= prev);
        assert(w.last() == c);
        assert(n * combo_dose2(c) == (n - 1) * combo_dose2(c) + combo_dose2(c))
            by (nonlinear_arith);
        assert(n * combo_pill_count(c) == (n - 1) * combo_pill_count(c) + combo_pill_count(c))
            by (nonlinear_arith);
        if n == 1 {
            assert(week_strengths(w) == week_strengths(prev).union(combo_strengths(c)));
            assert(week_strengths(prev) == Set::<u8>::empty());
            assert(Set::<u8>::empty().union(combo_strengths(c)) =~= combo_strengths(c));
            assert(Set::<u8>::empty().union(combo_half_strengths(c)) =~= combo_half_strengths(c));
        } else {
            assert(combo_strengths(c).union(combo_strengths(c)) =~= combo_strengths(c));
            assert(combo_half_strengths(c).union(combo_half_strengths(c))
                =~= combo_half_strengths(c));
        }
    }
}

fn contains_u8(v: &Vec<u8>, x: u8) -> (r: bool)
    ensures
        r == v@.contains(x),
{
    let mut i: usize = 0;
    while i < v.len()
        invariant
            i <= v@.len(),
            forall|k: int| 0 <= k < i ==> v@[k] != x,
        decreases v@.len() - i,
    {
        if v[i] == x {
            return true;
        }
        i += 1;
    }
    false
}

/// Records one combination's strengths into the two accumulator lists,
/// keeping each free of duplicates.
fn scan_combo_strengths(c: &Vec<Pill>, colors: &mut Vec<u8>, halfs: &mut Vec<u8>)
    requires
        old(colors)@.no_duplicates(),
        old(halfs)@.no_duplicates(),
    ensures
        final(colors)@.no_duplicates(),
        final(halfs)@.no_duplicates(),
        final(colors)@.to_set() == old(colors)@.to_set().union(combo_strengths(c@)),
        final(halfs)@.to_set() == old(halfs)@.to_set().union(combo_half_strengths(c@)),
{
    let mut i: usize = 0;
    while i < c.len()
        invariant
            i <= c@.len(),
            colors@.no_duplicates(),
            halfs@.no_duplicates(),
            colors@.to_set() == old(colors)@.to_set().union(combo_strengths(c@.take(i as int))),
            halfs@.to_set() == old(halfs)@.to_set().union(
                combo_half_strengths(c@.take(i as int)),
            ),
        decreases c@.len() - i,
    {
        let p = c[i];
        proof {
            assert(c@.take(i + 1).drop_last() =~= c@.take(i as int));
            assert(c@.take(i + 1).last() == c@[i as int]);
        }
        let ghost pre_colors = colors@;
        let ghost pre_halfs = halfs@;
        if p.count > 0 && !contains_u8(colors, p.mg) {
            colors.push(p.mg);
            proof {
                assert(colors@.drop_last() =~= pre_colors);
                assert(colors@.no_duplicates());
                pre_colors.lemma_push_to_set_commute(p.mg);
            }
        }
        if p.count > 0 && p.half && !contains_u8(halfs, p.mg) {
            halfs.push(p.mg);
            proof {
                assert(halfs@.drop_last() =~= pre_halfs);
                assert(halfs@.no_duplicates());
                pre_halfs.lemma_push_to_set_commute(p.mg);
            }
        }
        i += 1;
        proof {
            assert(colors@.to_set() =~= old(colors)@.to_set().union(
                combo_strengths(c@.take(i as int)),
            ));
            assert(halfs@.to_set() =~= old(halfs)@.to_set().union(
                combo_half_strengths(c@.take(i as int)),
            ));
        }
    }
    proof {
        assert(c@.take(c@.len() as int) =~= c@);
    }
}

/// Counts the pill objects of one combination.
fn count_combo_pills(c: &Vec<Pill>) -> (n: u32)
    requires
        combo_pill_count(c@) <= u32::MAX,
    ensures
        n == combo_pill_count(c@),
{
    let mut n: u32 = 0;
    let mut i: usize = 0;
    while i < c.len()
        invariant
            i <= c@.len(),
            combo_pill_count(c@) <= u32::MAX,
            n == combo_pill_count(c@.take(i as int)),
        decreases c@.len() - i,
    {
        proof {
            assert(c@.take(i + 1).drop_last() =~= c@.take(i as int));
            assert(c@.take(i + 1).last() == c@[i as int]);
            lemma_combo_measures_split(c@, i + 1);
            assert(c@.take(i + 1) =~= c@.take(i + 1));
        }
        n = n + c[i].count as u32;
        i += 1;
    }
    proof {
        assert(c@.take(c@.len() as int) =~= c@);
    }
    n
}

impl DosageOption {
    /// Builds a schedule record around its content, with the complexity
    /// metrics derived from the effective week and every calendar attribute
    /// cleared.
    pub fn new(option_type: OptionType, weekly_dose_actual2: u32) -> (o: DosageOption)
        requires
            week_pill_count(week_of(option_type)) <= u32::MAX,
        ensures
            o.option_type == option_type,
            o.weekly_dose_actual2 == weekly_dose_actual2,
            metrics_ok(o),
            o.base_dose2 == 0 && o.special_dose2 == 0,
            o.num_stop_days == 0 && o.stop_days@.len() == 0,
            o.num_special_days == 0 && o.special_days@.len() == 0,
    {
        let mut o = DosageOption {
            option_type,
            weekly_dose_actual2,
            base_dose2: 0,
            special_dose2: 0,
            num_stop_days: 0,
            stop_days: Vec::new(),
            num_special_days: 0,
            special_days: Vec::new(),
            priority: 0,
            half_pill_complexity: 0,
            pill_color_count: 0,
            total_pill_objects: 0,
        };
        o.calculate_complexity();
        o
    }

    /// Recomputes the complexity metrics from the schedule's content.
    pub fn calculate_complexity(&mut self)
        requires
            week_pill_count(week_of(old(self).option_type)) <= u32::MAX,
        ensures
            final(self).option_type == old(self).option_type,
            final(self).weekly_dose_actual2 == old(self).weekly_dose_actual2,
            final(self).base_dose2 == old(self).base_dose2,
            final(self).special_dose2 == old(self).special_dose2,
            final(self).num_stop_days == old(self).num_stop_days,
            final(self).stop_days@ == old(self).stop_days@,
            final(self).num_special_days == old(self).num_special_days,
            final(self).special_days@ == old(self).special_days@,
            metrics_ok(*final(self)),
    {
        let mut colors: Vec<u8> = Vec::new();
        let mut halfs: Vec<u8> = Vec::new();
        let ghost week = week_of(self.option_type);
        let mut total: u32 = 0;
        let priority: u8;
        match &self.option_type {
            OptionType::Uniform(c) => {
                proof {
                    lemma_uniform_week_measures(c@, 7);
                    assert(combo_pill_count(c@) <= week_pill_count(week)) by (nonlinear_arith)
                        requires
                            week_pill_count(week) == 7 * combo_pill_count(c@),
                    ;
                }
                scan_combo_strengths(c, &mut colors, &mut halfs);
                let per_day = count_combo_pills(c);
                total = 7 * per_day;
                priority = 0;
                proof {
                    assert(colors@.to_set() =~= week_strengths(week));
                    assert(halfs@.to_set() =~= week_half_strengths(week));
                }
            },
            OptionType::NonUniform(cw) => {
                let mut d: usize = 0;
                while d < cw.len()
                    invariant
                        d <= cw@.len(),
                        week == week_of(OptionType::NonUniform(*cw)),
                        week.len() == cw@.len(),
                        forall|k: int| 0 <= k < cw@.len() ==> week[k] == (#[trigger] cw@[k])@,
                        week_pill_count(week) <= u32::MAX,
                        colors@.no_duplicates(),
                        halfs@.no_duplicates(),
                        colors@.to_set() == week_strengths(week.take(d as int)),
                        halfs@.to_set() == week_half_strengths(week.take(d as int)),
                        total == week_pill_count(week.take(d as int)),
                    decreases cw@.len() - d,
                {
                    proof {
                        lemma_week_take_succ(week, d as int);
                        lemma_week_pill_count_take_le(week, d + 1);
                        lemma_combo_measures_split(cw@[d as int]@, 0);
                    }
                    let day = &cw[d];
                    proof {
                        assert(combo_pill_count(day@) <= u32::MAX) by {
                            assert(week_pill_count(week.take(d + 1)) == week_pill_count(
                                week.take(d as int),
                            ) + combo_pill_count(day@));
                        }
                    }
                    scan_combo_strengths(day, &mut colors, &mut halfs);
                    let per_day = count_combo_pills(day);
                    total = total + per_day;
                    d += 1;
                    proof {
                        assert(colors@.to_set() =~= week_strengths(week.take(d as int)));
                        assert(halfs@.to_set() =~= week_half_strengths(week.take(d as int)));
                    }
                }
                priority = 1;
                proof {
                    assert(week.take(week.len() as int) =~= week);
                }
            },
        }
        proof {
            colors@.unique_seq_to_set();
            halfs@.unique_seq_to_set();
        }
        self.priority = priority;
        self.half_pill_complexity = halfs.len();
        self.pill_color_count = colors.len();
        self.total_pill_objects = total;
    }
}

} // verus!
