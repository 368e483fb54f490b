//! Ranking: a stable total order on schedules, simplest first.

use crate::options::{pairwise_distinct, same_schedule, DosageOption};
use vstd::prelude::*;

verus! {

/// The ranking key, compared lexicographically, ascending: fewer distinct
/// half-pill strengths first, then uniform before non-uniform, then fewer
/// altered or stopped days, then fewer distinct strengths, then fewer pill
/// objects per week.
pub open spec fn rank_le(a: DosageOption, b: DosageOption) -> bool {
    if a.half_pill_complexity != b.half_pill_complexity {
        a.half_pill_complexity < b.half_pill_complexity
    } else if a.priority != b.priority {
        a.priority < b.priority
    } else if a.num_stop_days + a.num_special_days != b.num_stop_days + b.num_special_days {
        a.num_stop_days + a.num_special_days < b.num_stop_days + b.num_special_days
    } else if a.pill_color_count != b.pill_color_count {
        a.pill_color_count < b.pill_color_count
    } else {
        a.total_pill_objects <= b.total_pill_objects
    }
}

pub open spec fn sorted_ranked(s: Seq<DosageOption>) -> bool {
    forall|i: int, j: int| 0 <= i < j < s.len() ==> rank_le(#[trigger] s[i], #[trigger] s[j])
}

/// Stable insertion of one schedule: it lands after every schedule it does
/// not outrank, so earlier entries keep their place on ties.
pub open spec fn spec_insert(s: Seq<DosageOption>, x: DosageOption) -> Seq<DosageOption>
    decreases s.len(),
{
    if s.len() == 0 {
        seq![x]
    } else if rank_le(s.last(), x) {
        s.push(x)
    } else {
        spec_insert(s.drop_last(), x).push(s.last())
    }
}

/// Stable insertion sort by the ranking key: the one order the ranker
/// produces from a given generation order.
pub open spec fn spec_sort(s: Seq<DosageOption>) -> Seq<DosageOption>
    decreases s.len(),
{
    if s.len() == 0 {
        Seq::empty()
    } else {
        spec_insert(spec_sort(s.drop_last()), s.last())
    }
}

fn rank_le_exec(a: &DosageOption, b: &DosageOption) -> (r: bool)
    ensures
        r == rank_le(*a, *b),
{
    if a.half_pill_complexity != b.half_pill_complexity {
        a.half_pill_complexity < b.half_pill_complexity
    } else if a.priority != b.priority {
        a.priority < b.priority
    } else if a.num_stop_days as u32 + a.num_special_days as u32 != b.num_stop_days as u32
        + b.num_special_days as u32 {
        (a.num_stop_days as u32 + a.num_special_days as u32) < (b.num_stop_days as u32
            + b.num_special_days as u32)
    } else if a.pill_color_count != b.pill_color_count {
        a.pill_color_count < b.pill_color_count
    } else {
        a.total_pill_objects <= b.total_pill_objects
    }
}

proof fn lemma_spec_insert_at(s: Seq<DosageOption>, x: DosageOption, j: int)
    requires
        0 <= j <= s.len(),
        forall|k: int| j <= k < s.len() ==> !rank_le(#[trigger] s[k], x),
        j > 0 ==> rank_le(s[j - 1], x),
    ensures
        spec_insert(s, x) == s.take(j) + seq![x] + s.skip(j),
    decreases s.len(),
{
    if s.len() == 0 {
        assert(spec_insert(s, x) =~= s.take(j) + seq![x] + s.skip(j));
    } else if rank_le(s.last(), x) {
        assert(j == s.len());
        assert(spec_insert(s, x) =~= s.take(j) + seq![x] + s.skip(j));
    } else {
        assert(j < s.len());
        assert(forall|k: int|
            j <= k < s.drop_last().len() ==> !rank_le(#[trigger] s.drop_last()[k], x));
        lemma_spec_insert_at(s.drop_last(), x, j);
        assert(spec_insert(s, x) == (s.drop_last().take(j) + seq![x] + s.drop_last().skip(j)).push(
            s.last(),
        ));
        assert((s.drop_last().take(j) + seq![x] + s.drop_last().skip(j)).push(s.last()) =~= s.take(
            j,
        ) + seq![x] + s.skip(j));
    }
}

/// An insertion keeps the sequence sorted.
proof fn lemma_spec_insert_sorted(s: Seq<DosageOption>, x: DosageOption)
    requires
        sorted_ranked(s),
    ensures
        sorted_ranked(spec_insert(s, x)),
        spec_insert(s, x).len() == s.len() + 1,
    decreases s.len(),
{
    if s.len() == 0 {
    } else if rank_le(s.last(), x) {
        assert forall|i: int, j: int|
            0 <= i < j < s.push(x).len() implies rank_le(
            #[trigger] s.push(x)[i],
            #[trigger] s.push(x)[j],
        ) by {
            if j == s.len() {
                if i < s.len() - 1 {
                    assert(rank_le(s[i], s.last()));
                }
                lemma_rank_le_total(s[i], s.last());
                lemma_rank_le_trans(s[i], s.last(), x);
            }
        }
    } else {
        assert(sorted_ranked(s.drop_last()));
        lemma_spec_insert_sorted(s.drop_last(), x);
        let t = spec_insert(s.drop_last(), x);
        assert forall|i: int, j: int|
            0 <= i < j < t.push(s.last()).len() implies rank_le(
            #[trigger] t.push(s.last())[i],
            #[trigger] t.push(s.last())[j],
        ) by {
            if j == t.len() {
                lemma_spec_insert_members(s.drop_last(), x, i);
                lemma_rank_le_total(s.last(), x);
            }
        }
    }
}

/// Every element of an inserted sequence is the new element or one of the
/// old ones, and the old ones outranked by the last keep the relation.
proof fn lemma_spec_insert_members(s: Seq<DosageOption>, x: DosageOption, i: int)
    requires
        0 <= i < spec_insert(s, x).len(),
    ensures
        spec_insert(s, x)[i] == x || exists|k: int|
            0 <= k < s.len() && spec_insert(s, x)[i] == s[k],
    decreases s.len(),
{
    if s.len() == 0 {
    } else if rank_le(s.last(), x) {
    } else {
        let t = spec_insert(s.drop_last(), x);
        if i < t.len() {
            lemma_spec_insert_members(s.drop_last(), x, i);
        }
    }
}

/// The ranking order is total.
pub proof fn lemma_rank_le_total(a: DosageOption, b: DosageOption)
    ensures
        rank_le(a, b) || rank_le(b, a),
{
}

/// The ranking order is transitive.
pub proof fn lemma_rank_le_trans(a: DosageOption, b: DosageOption, c: DosageOption)
    requires
        rank_le(a, b),
        rank_le(b, c),
    ensures
        rank_le(a, c),
{
}

/// The sort yields a sorted sequence of the same length.
pub proof fn lemma_spec_sort_sorted(s: Seq<DosageOption>)
    ensures
        sorted_ranked(spec_sort(s)),
        spec_sort(s).len() == s.len(),
    decreases s.len(),
{
    if s.len() > 0 {
        lemma_spec_sort_sorted(s.drop_last());
        lemma_spec_insert_sorted(spec_sort(s.drop_last()), s.last());
    }
}

proof fn lemma_spec_insert_len(s: Seq<DosageOption>, x: DosageOption)
    ensures
        spec_insert(s, x).len() == s.len() + 1,
    decreases s.len(),
{
    if s.len() > 0 && !rank_le(s.last(), x) {
        lemma_spec_insert_len(s.drop_last(), x);
    }
}

proof fn lemma_spec_insert_contains_new(s: Seq<DosageOption>, x: DosageOption)
    ensures
        exists|i: int| 0 <= i < spec_insert(s, x).len() && spec_insert(s, x)[i] == x,
    decreases s.len(),
{
    lemma_spec_insert_len(s, x);
    if s.len() == 0 {
        assert(spec_insert(s, x)[0] == x);
    } else if rank_le(s.last(), x) {
        assert(spec_insert(s, x)[s.len() as int] == x);
    } else {
        lemma_spec_insert_contains_new(s.drop_last(), x);
        let t = spec_insert(s.drop_last(), x);
        let i = choose|i: int| 0 <= i < t.len() && t[i] == x;
        assert(spec_insert(s, x)[i] == x);
    }
}

proof fn lemma_spec_insert_contains_old(s: Seq<DosageOption>, x: DosageOption, i: int)
    requires
        0 <= i < s.len(),
    ensures
        exists|j: int| 0 <= j < spec_insert(s, x).len() && spec_insert(s, x)[j] == s[i],
    decreases s.len(),
{
    lemma_spec_insert_len(s, x);
    if rank_le(s.last(), x) {
        assert(spec_insert(s, x)[i] == s[i]);
    } else {
        let t = spec_insert(s.drop_last(), x);
        lemma_spec_insert_len(s.drop_last(), x);
        if i == s.len() - 1 {
            assert(spec_insert(s, x)[t.len() as int] == s.last());
        } else {
            lemma_spec_insert_contains_old(s.drop_last(), x, i);
            let j = choose|j: int| 0 <= j < t.len() && t[j] == s.drop_last()[i];
            assert(spec_insert(s, x)[j] == s[i]);
        }
    }
}

/// Every input schedule appears in the sorted sequence.
pub proof fn lemma_spec_sort_contains(s: Seq<DosageOption>, k: int)
    requires
        0 <= k < s.len(),
    ensures
        exists|i: int| 0 <= i < spec_sort(s).len() && spec_sort(s)[i] == s[k],
    decreases s.len(),
{
    let t = spec_sort(s.drop_last());
    assert(spec_sort(s) == spec_insert(t, s.last()));
    if k == s.len() - 1 {
        lemma_spec_insert_contains_new(t, s.last());
    } else {
        lemma_spec_sort_contains(s.drop_last(), k);
        let i = choose|i: int| 0 <= i < t.len() && t[i] == s.drop_last()[k];
        lemma_spec_insert_contains_old(t, s.last(), i);
        assert(s.drop_last()[k] == s[k]);
    }
}

proof fn lemma_spec_insert_distinct(s: Seq<DosageOption>, x: DosageOption)
    requires
        pairwise_distinct(s),
        forall|k: int| 0 <= k < s.len() ==> !same_schedule(#[trigger] s[k], x),
    ensures
        pairwise_distinct(spec_insert(s, x)),
    decreases s.len(),
{
    lemma_spec_insert_len(s, x);
    if s.len() == 0 {
    } else if rank_le(s.last(), x) {
        assert forall|i: int, j: int|
            #![trigger spec_insert(s, x)[i], spec_insert(s, x)[j]]
            0 <= i < j < spec_insert(s, x).len() implies !same_schedule(
            spec_insert(s, x)[i],
            spec_insert(s, x)[j],
        ) by {
            if j == s.len() {
                assert(spec_insert(s, x)[i] == s[i]);
            }
        }
    } else {
        let t = spec_insert(s.drop_last(), x);
        lemma_spec_insert_len(s.drop_last(), x);
        assert(pairwise_distinct(s.drop_last()));
        lemma_spec_insert_distinct(s.drop_last(), x);
        assert forall|i: int, j: int|
            #![trigger spec_insert(s, x)[i], spec_insert(s, x)[j]]
            0 <= i < j < spec_insert(s, x).len() implies !same_schedule(
            spec_insert(s, x)[i],
            spec_insert(s, x)[j],
        ) by {
            if j == t.len() {
                assert(spec_insert(s, x)[j] == s.last());
                assert(spec_insert(s, x)[i] == t[i]);
                lemma_spec_insert_members(s.drop_last(), x, i);
                if t[i] == x {
                    assert(!same_schedule(s[s.len() - 1], x));
                } else {
                    let k = choose|k: int|
                        0 <= k < s.drop_last().len() && t[i] == s.drop_last()[k];
                    assert(!same_schedule(s[k], s[s.len() - 1]));
                }
            } else {
                assert(spec_insert(s, x)[i] == t[i]);
                assert(spec_insert(s, x)[j] == t[j]);
            }
        }
    }
}

/// The sort neither merges nor duplicates: distinct content stays distinct.
pub proof fn lemma_spec_sort_distinct(s: Seq<DosageOption>)
    requires
        pairwise_distinct(s),
    ensures
        pairwise_distinct(spec_sort(s)),
    decreases s.len(),
{
    if s.len() > 0 {
        let t = spec_sort(s.drop_last());
        assert(pairwise_distinct(s.drop_last()));
        lemma_spec_sort_distinct(s.drop_last());
        lemma_spec_sort_sorted(s.drop_last());
        assert forall|k: int| 0 <= k < t.len() implies !same_schedule(
            #[trigger] t[k],
            s.last(),
        ) by {
            lemma_spec_sort_members(s.drop_last(), k);
            let m = choose|m: int| 0 <= m < s.drop_last().len() && t[k] == s.drop_last()[m];
            assert(!same_schedule(s[m], s[s.len() - 1]));
        }
        lemma_spec_insert_distinct(t, s.last());
        assert(spec_sort(s) == spec_insert(t, s.last()));
    }
}

/// Every element of the sorted sequence comes from the input.
pub proof fn lemma_spec_sort_members(s: Seq<DosageOption>, i: int)
    requires
        0 <= i < spec_sort(s).len(),
    ensures
        exists|k: int| 0 <= k < s.len() && spec_sort(s)[i] == s[k],
    decreases s.len(),
{
    if s.len() == 0 {
    } else {
        let t = spec_sort(s.drop_last());
        lemma_spec_sort_sorted(s.drop_last());
        lemma_spec_insert_members(t, s.last(), i);
        if spec_insert(t, s.last())[i] == s.last() {
            assert(spec_sort(s)[i] == s[s.len() - 1]);
        } else {
            let k = choose|k: int| 0 <= k < t.len() && spec_insert(t, s.last())[i] == t[k];
            lemma_spec_sort_members(s.drop_last(), k);
        }
    }
}

/// Ranking is stable and idempotent: a list already in ranked order is
/// returned exactly as it stands, so sorting a ranked list a second time
/// yields the identical order, and schedules tying on all five keys keep
/// their generation order.
pub proof fn lemma_sort_of_sorted_is_identity(s: Seq<DosageOption>)
    requires
        sorted_ranked(s),
    ensures
        spec_sort(s) == s,
    decreases s.len(),
{
    if s.len() > 0 {
        assert(sorted_ranked(s.drop_last()));
        lemma_sort_of_sorted_is_identity(s.drop_last());
        if s.len() == 1 {
            assert(spec_insert(s.drop_last(), s.last()) =~= s);
        } else {
            assert(rank_le(s.drop_last().last(), s.last()));
            assert(spec_insert(s.drop_last(), s.last()) =~= s);
        }
    }
}

/// In a ranked list a uniform schedule stands before every non-uniform
/// schedule whose half-pill strength count is not smaller: on an equal
/// count the priority key decides for the uniform one, on a larger count
/// the first key already does.
pub proof fn lemma_uniform_ranked_first(s: Seq<DosageOption>, i: int, j: int)
    requires
        sorted_ranked(s),
        0 <= i < s.len(),
        0 <= j < s.len(),
        s[i].priority == 0,
        s[j].priority == 1,
        s[i].half_pill_complexity <= s[j].half_pill_complexity,
    ensures
        i < j,
{
    if j < i {
        assert(rank_le(s[j], s[i]));
    }
}

/// Inserts one schedule into an already collected prefix, keeping the order
/// the stable insertion sort defines.
fn insert_ranked(v: &mut Vec<DosageOption>, x: DosageOption)
    ensures
        final(v)@ == spec_insert(old(v)@, x),
{
    let mut j: usize = v.len();
    while j > 0 && !rank_le_exec(&v[j - 1], &x)
        invariant
            j <= v@.len(),
            forall|k: int| j <= k < v@.len() ==> !rank_le(#[trigger] v@[k], x),
        decreases j,
    {
        j -= 1;
    }
    proof {
        lemma_spec_insert_at(v@, x, j as int);
    }
    v.insert(j, x);
    proof {
        assert(v@ =~= old(v)@.take(j as int) + seq![x] + old(v)@.skip(j as int));
    }
}

/// Sorts the collected schedules by the ranking key, stably: the result is
/// exactly the stable insertion sort of the input order.
pub fn rank_options(options: Vec<DosageOption>) -> (out: Vec<DosageOption>)
    ensures
        out@ == spec_sort(options@),
        sorted_ranked(out@),
        out@.len() == options@.len(),
{
    let ghost orig = options@;
    let mut rest = options;
    let n0 = rest.len();
    proof {
        assert(orig.len() == n0);
        assert(orig.skip(0) =~= orig);
    }
    let mut out: Vec<DosageOption> = Vec::new();
    let mut i: usize = 0;
    while rest.len() > 0
        invariant
            orig.len() <= usize::MAX,
            i + rest@.len() == orig.len(),
            rest@ == orig.skip(i as int),
            out@ == spec_sort(orig.take(i as int)),
        decreases rest@.len(),
    {
        let x = rest.remove(0);
        proof {
            assert(x == orig[i as int]);
            assert(rest@ =~= orig.skip(i + 1));
            assert(orig.take(i + 1).drop_last() =~= orig.take(i as int));
            assert(orig.take(i + 1).last() == orig[i as int]);
        }
        insert_ranked(&mut out, x);
        i += 1;
    }
    proof {
        assert(orig.take(orig.len() as int) =~= orig);
        lemma_spec_sort_sorted(orig);
    }
    out
}

} // verus!
