//! Pill units and the measures of a day's combination.

use vstd::prelude::*;

verus! {

/// One line of a day's prescription: `count` pills of strength `mg`,
/// each taken whole or as a half pill.
#[derive(Clone, Copy, PartialEq, Eq, Structural, Debug, Hash)]
pub struct Pill {
    pub mg: u8,
    pub count: u8,
    pub half: bool,
}

/// Dose of one pill entry, in half-mg units: a whole pill of strength `mg`
/// delivers `2 * mg` half-mg, a half pill delivers `mg` half-mg.
pub open spec fn pill_dose2(p: Pill) -> nat {
    (p.count as nat) * (p.mg as nat) * (if p.half { 1nat } else { 2nat })
}

/// Total dose of a day's combination, in half-mg units.
pub open spec fn combo_dose2(c: Seq<Pill>) -> nat
    decreases c.len(),
{
    if c.len() == 0 {
        0
    } else {
        combo_dose2(c.drop_last()) + pill_dose2(c.last())
    }
}

/// Number of physical pill objects in a combination (halves count as one).
pub open spec fn combo_pill_count(c: Seq<Pill>) -> nat
    decreases c.len(),
{
    if c.len() == 0 {
        0
    } else {
        combo_pill_count(c.drop_last()) + c.last().count as nat
    }
}

/// Summed count of the entries matching one (strength, half-flag) pair.
pub open spec fn pair_count(c: Seq<Pill>, mg: u8, half: bool) -> nat
    decreases c.len(),
{
    if c.len() == 0 {
        0
    } else {
        pair_count(c.drop_last(), mg, half) + if c.last().mg == mg && c.last().half == half {
            c.last().count as nat
        } else {
            0
        }
    }
}

/// Sort key of a pill entry: ascending by strength, whole before half
/// within one strength.
pub open spec fn pill_key(p: Pill) -> nat {
    2 * (p.mg as nat) + if p.half {
        1nat
    } else {
        0nat
    }
}

/// A raw combination as the search builds it: one pill per entry.
pub open spec fn raw_combo(c: Seq<Pill>) -> bool {
    forall|i: int| 0 <= i < c.len() ==> (#[trigger] c[i]).count == 1
}

/// The canonical, aggregated form of a combination: strictly ascending by
/// (strength, half-flag), every entry carries at least one pill, and no
/// strength appears as more than a single half pill.
pub open spec fn canonical_combo(c: Seq<Pill>) -> bool {
    &&& forall|i: int, j: int|
        0 <= i < j < c.len() ==> pill_key(#[trigger] c[i]) < pill_key(#[trigger] c[j])
    &&& forall|i: int| 0 <= i < c.len() ==> (#[trigger] c[i]).count >= 1
    &&& forall|i: int| 0 <= i < c.len() ==> ((#[trigger] c[i]).half ==> c[i].count == 1)
}

pub proof fn lemma_combo_dose2_push(c: Seq<Pill>, p: Pill)
    ensures
        combo_dose2(c.push(p)) == combo_dose2(c) + pill_dose2(p),
{
    assert(c.push(p).drop_last() =~= c);
}

/// Measures distribute over concatenation.
pub proof fn lemma_combo_dose2_concat(a: Seq<Pill>, b: Seq<Pill>)
    ensures
        combo_dose2(a + b) == combo_dose2(a) + combo_dose2(b),
    decreases b.len(),
{
    if b.len() == 0 {
        assert(a + b =~= a);
    } else {
        lemma_combo_dose2_concat(a, b.drop_last());
        assert((a + b).drop_last() =~= a + b.drop_last());
        assert((a + b).last() == b.last());
    }
}

pub proof fn lemma_combo_pill_count_concat(a: Seq<Pill>, b: Seq<Pill>)
    ensures
        combo_pill_count(a + b) == combo_pill_count(a) + combo_pill_count(b),
    decreases b.len(),
{
    if b.len() == 0 {
        assert(a + b =~= a);
    } else {
        lemma_combo_pill_count_concat(a, b.drop_last());
        assert((a + b).drop_last() =~= a + b.drop_last());
        assert((a + b).last() == b.last());
    }
}

pub proof fn lemma_pair_count_concat(a: Seq<Pill>, b: Seq<Pill>, mg: u8, half: bool)
    ensures
        pair_count(a + b, mg, half) == pair_count(a, mg, half) + pair_count(b, mg, half),
    decreases b.len(),
{
    if b.len() == 0 {
        assert(a + b =~= a);
    } else {
        lemma_pair_count_concat(a, b.drop_last(), mg, half);
        assert((a + b).drop_last() =~= a + b.drop_last());
        assert((a + b).last() == b.last());
    }
}

/// Splitting a combination at any entry splits each of its measures.
pub proof fn lemma_combo_measures_decompose(s: Seq<Pill>, j: int)
    requires
        0 <= j < s.len(),
    ensures
        combo_dose2(s) == combo_dose2(s.take(j)) + pill_dose2(s[j]) + combo_dose2(
            s.skip(j + 1),
        ),
        combo_pill_count(s) == combo_pill_count(s.take(j)) + s[j].count + combo_pill_count(
            s.skip(j + 1),
        ),
        forall|mg: u8, half: bool|
            #[trigger] pair_count(s, mg, half) == pair_count(s.take(j), mg, half) + pair_count(
                s.skip(j + 1),
                mg,
                half,
            ) + if s[j].mg == mg && s[j].half == half {
                s[j].count as nat
            } else {
                0
            },
{
    let a = s.take(j);
    let b = seq![s[j]];
    let c = s.skip(j + 1);
    assert(s =~= (a + b) + c);
    assert(b.drop_last() =~= Seq::<Pill>::empty());
    assert(combo_dose2(b) == combo_dose2(b.drop_last()) + pill_dose2(b.last()));
    assert(combo_dose2(b.drop_last()) == 0);
    assert(combo_pill_count(b) == combo_pill_count(b.drop_last()) + b.last().count as nat);
    assert(combo_pill_count(b.drop_last()) == 0);
    lemma_combo_dose2_concat(a, b);
    lemma_combo_dose2_concat(a + b, c);
    lemma_combo_pill_count_concat(a, b);
    lemma_combo_pill_count_concat(a + b, c);
    assert forall|mg: u8, half: bool|
        #[trigger] pair_count(s, mg, half) == pair_count(s.take(j), mg, half) + pair_count(
            s.skip(j + 1),
            mg,
            half,
        ) + if s[j].mg == mg && s[j].half == half {
            s[j].count as nat
        } else {
            0
        } by {
        lemma_pair_count_concat(a, b, mg, half);
        lemma_pair_count_concat(a + b, c, mg, half);
        assert(b.last() == s[j]);
        assert(pair_count(b, mg, half) == pair_count(b.drop_last(), mg, half) + if b.last().mg
            == mg && b.last().half == half {
            b.last().count as nat
        } else {
            0
        });
        assert(pair_count(b.drop_last(), mg, half) == 0);
    }
}

/// Splitting a combination between entries splits each of its measures.
pub proof fn lemma_combo_measures_split(s: Seq<Pill>, j: int)
    requires
        0 <= j <= s.len(),
    ensures
        combo_dose2(s) == combo_dose2(s.take(j)) + combo_dose2(s.skip(j)),
        combo_pill_count(s) == combo_pill_count(s.take(j)) + combo_pill_count(s.skip(j)),
        forall|mg: u8, half: bool|
            #[trigger] pair_count(s, mg, half) == pair_count(s.take(j), mg, half) + pair_count(
                s.skip(j),
                mg,
                half,
            ),
{
    let a = s.take(j);
    let c = s.skip(j);
    assert(s =~= a + c);
    lemma_combo_dose2_concat(a, c);
    lemma_combo_pill_count_concat(a, c);
    assert forall|mg: u8, half: bool|
        #[trigger] pair_count(s, mg, half) == pair_count(s.take(j), mg, half) + pair_count(
            s.skip(j),
            mg,
            half,
        ) by {
        lemma_pair_count_concat(a, c, mg, half);
    }
}

/// One entry's count never exceeds the count of its own
/// (strength, half-flag) pair.
pub proof fn lemma_pair_count_lower(s: Seq<Pill>, j: int)
    requires
        0 <= j < s.len(),
    ensures
        pair_count(s, s[j].mg, s[j].half) >= s[j].count,
    decreases s.len(),
{
    if j == s.len() - 1 {
    } else {
        lemma_pair_count_lower(s.drop_last(), j);
    }
}

/// The count of any one (strength, half-flag) pair is at most the whole
/// pill count.
pub proof fn lemma_pair_count_le_pill_count(c: Seq<Pill>, mg: u8, half: bool)
    ensures
        pair_count(c, mg, half) <= combo_pill_count(c),
    decreases c.len(),
{
    if c.len() > 0 {
        lemma_pair_count_le_pill_count(c.drop_last(), mg, half);
    }
}

/// A combination's dose is bounded by 510 half-mg per pill object.
pub proof fn lemma_combo_dose2_le_pill_count(c: Seq<Pill>)
    ensures
        combo_dose2(c) <= 510 * combo_pill_count(c),
    decreases c.len(),
{
    if c.len() > 0 {
        lemma_combo_dose2_le_pill_count(c.drop_last());
        let p = c.last();
        let m = p.mg as nat;
        let n = p.count as nat;
        let f: nat = if p.half {
            1nat
        } else {
            2nat
        };
        assert(n * m * f <= n * 510) by (nonlinear_arith)
            requires
                m <= 255,
                f <= 2,
        ;
        assert(510 * combo_pill_count(c) == 510 * combo_pill_count(c.drop_last()) + 510 * n)
            by (nonlinear_arith)
            requires
                combo_pill_count(c) == combo_pill_count(c.drop_last()) + n,
        ;
        assert(n * 510 == 510 * n) by (nonlinear_arith);
    }
}

/// A positive pair count names an entry of that (strength, half-flag) pair.
pub proof fn lemma_pair_count_pos_exists(c: Seq<Pill>, mg: u8, half: bool)
    requires
        pair_count(c, mg, half) > 0,
    ensures
        exists|i: int| 0 <= i < c.len() && (#[trigger] c[i]).mg == mg && c[i].half == half,
    decreases c.len(),
{
    if c.len() > 0 {
        if c.last().mg == mg && c.last().half == half {
            assert(c[c.len() - 1].mg == mg && c[c.len() - 1].half == half);
        } else {
            lemma_pair_count_pos_exists(c.drop_last(), mg, half);
            let i = choose|i: int|
                0 <= i < c.drop_last().len() && (#[trigger] c.drop_last()[i]).mg == mg
                    && c.drop_last()[i].half == half;
            assert(c[i].mg == mg && c[i].half == half);
        }
    }
}

/// When every entry carries at least one pill, the pill count bounds the
/// number of entries.
pub proof fn lemma_pill_count_ge_len(c: Seq<Pill>)
    requires
        forall|i: int| 0 <= i < c.len() ==> (#[trigger] c[i]).count >= 1,
    ensures
        combo_pill_count(c) >= c.len(),
    decreases c.len(),
{
    if c.len() > 0 {
        lemma_pill_count_ge_len(c.drop_last());
    }
}

/// In a raw combination the pill count is the number of entries.
pub proof fn lemma_raw_combo_pill_count(c: Seq<Pill>)
    requires
        raw_combo(c),
    ensures
        combo_pill_count(c) == c.len(),
    decreases c.len(),
{
    if c.len() > 0 {
        assert(raw_combo(c.drop_last()));
        lemma_raw_combo_pill_count(c.drop_last());
    }
}

/// A raw combination's dose is bounded by 510 half-mg per entry.
pub proof fn lemma_raw_combo_dose2_bound(c: Seq<Pill>)
    requires
        raw_combo(c),
    ensures
        combo_dose2(c) <= 510 * c.len(),
    decreases c.len(),
{
    if c.len() > 0 {
        assert(raw_combo(c.drop_last()));
        lemma_raw_combo_dose2_bound(c.drop_last());
    }
}

} // verus!
