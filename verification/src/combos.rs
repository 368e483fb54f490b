//! The combination search: enumerating distinct pill multisets that achieve
//! one day's target dose.

use crate::pill::{
    canonical_combo, combo_dose2, combo_pill_count, lemma_combo_dose2_concat,
    lemma_combo_dose2_push, lemma_combo_measures_decompose, lemma_combo_measures_split,
    lemma_combo_pill_count_concat, lemma_pair_count_concat, lemma_pair_count_le_pill_count,
    lemma_pair_count_lower, lemma_raw_combo_dose2_bound, lemma_raw_combo_pill_count, pair_count,
    pill_dose2, pill_key, raw_combo, Pill,
};
use vstd::prelude::*;

verus! {

/// Strengths are searched highest first.
pub open spec fn sorted_desc(s: Seq<u8>) -> bool {
    forall|i: int, j: int| 0 <= i < j < s.len() ==> s[i] >= s[j]
}

/// All strengths are positive.
pub open spec fn all_positive(s: Seq<u8>) -> bool {
    forall|i: int| 0 <= i < s.len() ==> #[trigger] s[i] >= 1
}

/// What the backtracking search guarantees of each combination it records.
pub open spec fn good_raw_result(c: Seq<Pill>, target2: u32, max_pills: u8) -> bool {
    &&& raw_combo(c)
    &&& combo_dose2(c) == target2
    &&& c.len() <= max_pills
}

/// Every pill of the combination draws its strength from the list, and
/// half pills appear only when they are allowed.
pub open spec fn combo_from(c: Seq<Pill>, available: Seq<u8>, allow_half: bool) -> bool {
    forall|i: int|
        0 <= i < c.len() ==> available.contains((#[trigger] c[i]).mg) && (c[i].half ==> allow_half)
}

/// A combination of one whole pill of the given strength.
pub open spec fn single_whole(mg: u8) -> Seq<Pill> {
    seq![Pill { mg, count: 1, half: false }]
}

/// What `find_comb` guarantees of each combination it returns.
pub open spec fn good_combo(c: Seq<Pill>, target2: u32, min_pills: u8, max_pills: u8) -> bool {
    &&& canonical_combo(c)
    &&& combo_dose2(c) == target2
    &&& min_pills <= combo_pill_count(c) <= max_pills
}

fn pill_key_exec(p: &Pill) -> (k: u32)
    ensures
        k == pill_key(*p),
{
    2 * (p.mg as u32) + (if p.half {
        1
    } else {
        0
    })
}

pub fn clone_combo(v: &Vec<Pill>) -> (r: Vec<Pill>)
    ensures
        r@ == v@,
{
    let r = v.clone();
    proof {
        assert(r@ =~= v@);
    }
    r
}

/// Structural equality of two combinations.
pub fn combo_eq(a: &Vec<Pill>, b: &Vec<Pill>) -> (r: bool)
    ensures
        r == (a@ == b@),
{
    if a.len() != b.len() {
        proof {
            assert(a@.len() != b@.len());
        }
        return false;
    }
    let mut i: usize = 0;
    while i < a.len()
        invariant
            i <= a@.len(),
            a@.len() == b@.len(),
            forall|k: int| 0 <= k < i ==> a@[k] == b@[k],
        decreases a@.len() - i,
    {
        let pa = a[i];
        let pb = b[i];
        if !(pa.mg == pb.mg && pa.count == pb.count && pa.half == pb.half) {
            proof {
                assert(a@[i as int] != b@[i as int]);
            }
            return false;
        }
        i += 1;
    }
    proof {
        assert(a@ =~= b@);
    }
    true
}

/// Whether an equal combination is already among the collected results.
fn contains_combo(v: &Vec<Vec<Pill>>, c: &Vec<Pill>) -> (r: bool)
    ensures
        r == exists|i: int| 0 <= i < v@.len() && #[trigger] v@[i]@ == c@,
{
    let mut i: usize = 0;
    while i < v.len()
        invariant
            i <= v@.len(),
            forall|k: int| 0 <= k < i ==> #[trigger] v@[k]@ != c@,
        decreases v@.len() - i,
    {
        if combo_eq(&v[i], c) {
            return true;
        }
        i += 1;
    }
    false
}

/// The backtracking search. At each strength three branches are explored:
/// one more whole pill of the current strength (staying at it), one half
/// pill of it (advancing, so a strength yields at most one half), or
/// skipping it. A branch is pruned when the pill count or the accumulated
/// dose can no longer reach the target; it records its combination exactly
/// when the accumulated dose meets the target.
fn find_recursive(
    target2: u32,
    available_pills: &Vec<u8>,
    allow_half: bool,
    max_pills: u8,
    current_dose2: u32,
    current_combo: &mut Vec<Pill>,
    pill_index: usize,
    results: &mut Vec<Vec<Pill>>,
)
    requires
        all_positive(available_pills@),
        pill_index <= available_pills@.len(),
        raw_combo(old(current_combo)@),
        combo_from(old(current_combo)@, available_pills@, allow_half),
        current_dose2 == combo_dose2(old(current_combo)@),
        old(current_combo)@.len() <= max_pills as int + 1,
    ensures
        final(current_combo)@ == old(current_combo)@,
        final(results)@.len() >= old(results)@.len(),
        forall|i: int|
            #![trigger final(results)@[i]]
            0 <= i < old(results)@.len() ==> final(results)@[i]@ == old(results)@[i]@,
        forall|i: int|
            #![trigger final(results)@[i]]
            old(results)@.len() <= i < final(results)@.len() ==> good_raw_result(
                final(results)@[i]@,
                target2,
                max_pills,
            ) && combo_from(final(results)@[i]@, available_pills@, allow_half),
        current_dose2 == target2 && old(current_combo)@.len() <= max_pills ==> exists|j: int|
            old(results)@.len() <= j < final(results)@.len() && final(results)@[j]@ == old(
                current_combo,
            )@,
        forall|i: int|
            #![trigger available_pills@[i]]
            pill_index <= i < available_pills@.len() && current_dose2 + 2 * (
            available_pills@[i] as int) == target2 && old(current_combo)@.len() + 1
                <= max_pills ==> exists|j: int|
                old(results)@.len() <= j < final(results)@.len() && final(results)@[j]@ == old(
                    current_combo,
                )@.push(Pill { mg: available_pills@[i], count: 1, half: false }),
    decreases available_pills@.len() - pill_index, max_pills + 1 - old(current_combo)@.len(),
{
    if current_combo.len() > max_pills as usize {
        return ;
    }
    if current_dose2 > target2 {
        return ;
    }
    if current_dose2 == target2 {
        let c = clone_combo(current_combo);
        let ghost len0 = results@.len();
        results.push(c);
        proof {
            assert(results@[len0 as int]@ == old(current_combo)@);
        }
        return ;
    }
    if pill_index >= available_pills.len() {
        return ;
    }
    let pill_mg = available_pills[pill_index];
    let ghost base = current_combo@;
    let ghost r0 = results@;

    proof {
        lemma_raw_combo_dose2_bound(base);
    }
    // one more whole pill of this strength
    let p_whole = Pill { mg: pill_mg, count: 1, half: false };
    proof {
        lemma_combo_dose2_push(base, p_whole);
        assert(available_pills@.contains(available_pills@[pill_index as int]));
    }
    current_combo.push(p_whole);
    proof {
        assert(combo_from(current_combo@, available_pills@, allow_half));
    }
    find_recursive(
        target2,
        available_pills,
        allow_half,
        max_pills,
        current_dose2 + (pill_mg as u32) * 2,
        current_combo,
        pill_index,
        results,
    );
    current_combo.pop();
    proof {
        assert(current_combo@ =~= base);
    }
    let ghost r1 = results@;

    // one half pill of this strength, then move on
    if allow_half {
        let p_half = Pill { mg: pill_mg, count: 1, half: true };
        proof {
            lemma_combo_dose2_push(base, p_half);
            assert(available_pills@.contains(available_pills@[pill_index as int]));
        }
        current_combo.push(p_half);
        proof {
            assert(combo_from(current_combo@, available_pills@, allow_half));
        }
        find_recursive(
            target2,
            available_pills,
            allow_half,
            max_pills,
            current_dose2 + (pill_mg as u32),
            current_combo,
            pill_index + 1,
            results,
        );
        current_combo.pop();
        proof {
            assert(current_combo@ =~= base);
        }
    }
    let ghost r2 = results@;

    // skip this strength
    find_recursive(
        target2,
        available_pills,
        allow_half,
        max_pills,
        current_dose2,
        current_combo,
        pill_index + 1,
        results,
    );

    proof {
        assert forall|i: int|
            #![trigger results@[i]]
            r0.len() <= i < results@.len() implies good_raw_result(
            results@[i]@,
            target2,
            max_pills,
        ) && combo_from(results@[i]@, available_pills@, allow_half) by {
            if i < r1.len() {
                assert(results@[i]@ == r2[i]@);
                assert(r2[i]@ == r1[i]@);
            } else if i < r2.len() {
                assert(results@[i]@ == r2[i]@);
            }
        }
        assert forall|i: int|
            #![trigger available_pills@[i]]
            pill_index <= i < available_pills@.len() && current_dose2 + 2 * (
            available_pills@[i] as int) == target2 && base.len() + 1 <= max_pills implies exists|
            j: int,
        |
            r0.len() <= j < results@.len() && results@[j]@ == base.push(
                Pill { mg: available_pills@[i], count: 1, half: false },
            ) by {
            if i == pill_index {
                // the whole-pill branch recorded exactly this extension
                let j = choose|j: int|
                    r0.len() <= j < r1.len() && r1[j]@ == base.push(p_whole);
                assert(r2[j]@ == r1[j]@);
                assert(results@[j]@ == r2[j]@);
            }
            // for a later strength the skip branch's recursion recorded it
        }
    }
}

/// Aggregates a raw combination (one pill per entry) into canonical order:
/// entries grouped by (strength, half-flag) with summed counts, strictly
/// ascending by strength with whole pills before halves.
#[verifier::rlimit(100)]
pub fn aggregate_combo(combo: &Vec<Pill>) -> (out: Vec<Pill>)
    requires
        raw_combo(combo@),
        combo@.len() <= 255,
    ensures
        forall|i: int, j: int|
            0 <= i < j < out@.len() ==> pill_key(#[trigger] out@[i]) < pill_key(
                #[trigger] out@[j],
            ),
        forall|i: int| 0 <= i < out@.len() ==> (#[trigger] out@[i]).count >= 1,
        forall|mg: u8, half: bool|
            #[trigger] pair_count(out@, mg, half) == pair_count(combo@, mg, half),
        combo_dose2(out@) == combo_dose2(combo@),
        combo_pill_count(out@) == combo_pill_count(combo@),
{
    proof {
        lemma_raw_combo_pill_count(combo@);
    }
    let mut out: Vec<Pill> = Vec::new();
    let mut i: usize = 0;
    while i < combo.len()
        invariant
            i <= combo@.len(),
            raw_combo(combo@),
            combo@.len() <= 255,
            combo_pill_count(combo@) == combo@.len(),
            forall|a: int, b: int|
                0 <= a < b < out@.len() ==> pill_key(#[trigger] out@[a]) < pill_key(
                    #[trigger] out@[b],
                ),
            forall|a: int| 0 <= a < out@.len() ==> (#[trigger] out@[a]).count >= 1,
            forall|mg: u8, half: bool|
                #[trigger] pair_count(out@, mg, half) == pair_count(combo@.take(i as int), mg, half),
            combo_dose2(out@) == combo_dose2(combo@.take(i as int)),
            combo_pill_count(out@) == combo_pill_count(combo@.take(i as int)),
        decreases combo@.len() - i,
    {
        let p = combo[i];
        let ghost pre = combo@.take(i as int);
        let ghost post = combo@.take(i + 1);
        proof {
            assert(post.drop_last() =~= pre);
            assert(post.last() == combo@[i as int]);
            assert(combo_dose2(post) == combo_dose2(pre) + pill_dose2(p));
            assert(combo_pill_count(post) == combo_pill_count(pre) + p.count as nat);
            assert(combo_pill_count(post) <= combo_pill_count(combo@)) by {
                lemma_combo_measures_split(combo@, i + 1);
                assert(combo@.take(i + 1) =~= post);
            }
        }
        let key_p: u32 = pill_key_exec(&p);
        let mut j: usize = 0;
        while j < out.len() && pill_key_exec(&out[j]) < key_p
            invariant
                j <= out@.len(),
                key_p == pill_key(p),
                forall|k: int| 0 <= k < j ==> pill_key(#[trigger] out@[k]) < pill_key(p),
                forall|a: int, b: int|
                    0 <= a < b < out@.len() ==> pill_key(#[trigger] out@[a]) < pill_key(
                        #[trigger] out@[b],
                    ),
            decreases out@.len() - j,
        {
            j += 1;
        }
        if j < out.len() && out[j].mg == p.mg && out[j].half == p.half {
            // same pair already present: add this pill to its count
            let ghost old_out = out@;
            let old_count = out[j].count;
            proof {
                lemma_pair_count_lower(old_out, j as int);
                lemma_pair_count_le_pill_count(post, p.mg, p.half);
                assert(pair_count(old_out, p.mg, p.half) == pair_count(pre, p.mg, p.half));
                assert(pair_count(post, p.mg, p.half) == pair_count(pre, p.mg, p.half)
                    + p.count as nat);
                assert(old_count + p.count <= 255);
            }
            let merged = Pill { mg: p.mg, count: old_count + p.count, half: p.half };
            out[j] = merged;
            proof {
                let u = out@;
                assert(u == old_out.update(j as int, merged));
                assert(u.take(j as int) =~= old_out.take(j as int));
                assert(u.skip(j + 1) =~= old_out.skip(j + 1));
                lemma_combo_measures_decompose(old_out, j as int);
                lemma_combo_measures_decompose(u, j as int);
                let oc = old_count as nat;
                let pc = p.count as nat;
                let m = p.mg as nat;
                let f: nat = if p.half {
                    1nat
                } else {
                    2nat
                };
                assert((oc + pc) * m * f == oc * m * f + pc * m * f) by (nonlinear_arith);
                assert(pill_dose2(merged) == pill_dose2(old_out[j as int]) + pill_dose2(p));
                assert forall|mg: u8, half: bool|
                    #[trigger] pair_count(u, mg, half) == pair_count(post, mg, half) by {
                    assert(pair_count(old_out, mg, half) == pair_count(pre, mg, half));
                    assert(pair_count(u, mg, half) == pair_count(u.take(j as int), mg, half)
                        + pair_count(u.skip(j + 1), mg, half) + if merged.mg == mg && merged.half
                        == half {
                        merged.count as nat
                    } else {
                        0
                    });
                    assert(pair_count(post, mg, half) == pair_count(pre, mg, half) + if p.mg == mg
                        && p.half == half {
                        p.count as nat
                    } else {
                        0
                    });
                }
                assert(combo_dose2(u) == combo_dose2(post));
                assert(combo_pill_count(u) == combo_pill_count(post));
            }
        } else {
            // new pair: insert it keeping the canonical order
            let ghost old_out = out@;
            proof {
                assert forall|k: int| j <= k < old_out.len() implies pill_key(
                    #[trigger] old_out[k],
                ) > pill_key(p) by {
                    assert(pill_key(old_out[j as int]) >= pill_key(p));
                    assert(pill_key(old_out[j as int]) != pill_key(p));
                }
            }
            out.insert(j, p);
            proof {
                let u = out@;
                let a = old_out.take(j as int);
                let b = seq![p];
                let c = old_out.skip(j as int);
                assert(u == old_out.insert(j as int, p));
                assert(u =~= (a + b) + c);
                assert(b.drop_last() =~= Seq::<Pill>::empty());
                assert(combo_dose2(b) == combo_dose2(b.drop_last()) + pill_dose2(b.last()));
                assert(combo_pill_count(b) == combo_pill_count(b.drop_last())
                    + b.last().count as nat);
                lemma_combo_dose2_concat(a, b);
                lemma_combo_dose2_concat(a + b, c);
                lemma_combo_pill_count_concat(a, b);
                lemma_combo_pill_count_concat(a + b, c);
                lemma_combo_measures_split(old_out, j as int);
                assert(combo_dose2(u) == combo_dose2(old_out) + pill_dose2(p));
                assert(combo_pill_count(u) == combo_pill_count(old_out) + p.count as nat);
                assert forall|mg: u8, half: bool|
                    #[trigger] pair_count(u, mg, half) == pair_count(post, mg, half) by {
                    lemma_pair_count_concat(a, b, mg, half);
                    lemma_pair_count_concat(a + b, c, mg, half);
                    assert(pair_count(b, mg, half) == pair_count(b.drop_last(), mg, half) + if p.mg
                        == mg && p.half == half {
                        p.count as nat
                    } else {
                        0
                    });
                    assert(pair_count(b.drop_last(), mg, half) == 0);
                    assert(pair_count(old_out, mg, half) == pair_count(pre, mg, half));
                    assert(pair_count(post, mg, half) == pair_count(pre, mg, half) + if p.mg == mg
                        && p.half == half {
                        p.count as nat
                    } else {
                        0
                    });
                }
                assert(combo_dose2(u) == combo_dose2(post));
                assert(combo_pill_count(u) == combo_pill_count(post));
            }
        }
        i += 1;
        proof {
            assert(combo@.take(i as int) =~= post);
        }
    }
    proof {
        assert(combo@.take(combo@.len() as int) =~= combo@);
    }
    out
}

/// Finds all distinct pill combinations whose dose is exactly `target2`
/// half-mg and whose pill count lies between `min_pills` and `max_pills`.
/// A target of zero yields the single empty combination when no minimum
/// pill count is asked, and nothing otherwise.
pub fn find_comb(
    target2: u32,
    available_pills: &Vec<u8>,
    allow_half: bool,
    min_pills: u8,
    max_pills: u8,
) -> (results: Vec<Vec<Pill>>)
    requires
        sorted_desc(available_pills@),
        all_positive(available_pills@),
    ensures
        forall|i: int|
            #![trigger results@[i]]
            0 <= i < results@.len() ==> good_combo(results@[i]@, target2, min_pills, max_pills),
        forall|i: int|
            #![trigger results@[i]]
            0 <= i < results@.len() ==> combo_from(results@[i]@, available_pills@, allow_half),
        forall|i: int, j: int|
            #![trigger results@[i], results@[j]]
            0 <= i < j < results@.len() ==> results@[i]@ != results@[j]@,
        target2 == 0 && min_pills == 0 ==> results@.len() == 1 && results@[0]@
            == Seq::<Pill>::empty(),
        target2 == 0 && min_pills > 0 ==> results@.len() == 0,
        forall|i: int|
            #![trigger available_pills@[i]]
            0 <= i < available_pills@.len() && 2 * (available_pills@[i] as int) == target2
                && min_pills <= 1 && 1 <= max_pills ==> exists|j: int|
                0 <= j < results@.len() && results@[j]@ == single_whole(available_pills@[i]),
{
    let mut out: Vec<Vec<Pill>> = Vec::new();
    if target2 == 0 {
        if min_pills == 0 {
            let empty: Vec<Pill> = Vec::new();
            proof {
                assert(canonical_combo(empty@));
            }
            out.push(empty);
        }
        return out;
    }
    let mut raw: Vec<Vec<Pill>> = Vec::new();
    let mut cur: Vec<Pill> = Vec::new();
    find_recursive(target2, available_pills, allow_half, max_pills, 0, &mut cur, 0, &mut raw);
    proof {
        assert forall|i: int|
            #![trigger available_pills@[i]]
            0 <= i < available_pills@.len() && 2 * (available_pills@[i] as int) == target2
                && min_pills <= 1 && 1 <= max_pills implies exists|jr: int|
            0 <= jr < raw@.len() && raw@[jr]@ == single_whole(available_pills@[i]) by {
            assert(Seq::<Pill>::empty().push(
                Pill { mg: available_pills@[i], count: 1, half: false },
            ) =~= single_whole(available_pills@[i]));
        }
    }
    let mut k: usize = 0;
    while k < raw.len()
        invariant
            k <= raw@.len(),
            target2 != 0,
            forall|i: int|
                #![trigger raw@[i]]
                0 <= i < raw@.len() ==> good_raw_result(raw@[i]@, target2, max_pills)
                    && combo_from(raw@[i]@, available_pills@, allow_half),
            forall|i: int|
                #![trigger out@[i]]
                0 <= i < out@.len() ==> good_combo(out@[i]@, target2, min_pills, max_pills)
                    && combo_from(out@[i]@, available_pills@, allow_half),
            forall|i: int, j: int|
                #![trigger out@[i], out@[j]]
                0 <= i < j < out@.len() ==> out@[i]@ != out@[j]@,
            forall|i: int|
                #![trigger available_pills@[i]]
                0 <= i < available_pills@.len() && 2 * (available_pills@[i] as int) == target2
                    && min_pills <= 1 && 1 <= max_pills ==> (exists|j: int|
                    0 <= j < out@.len() && out@[j]@ == single_whole(available_pills@[i]))
                    || (exists|jr: int|
                    k <= jr < raw@.len() && raw@[jr]@ == single_whole(available_pills@[i])),
        decreases raw@.len() - k,
    {
        let r = &raw[k];
        let ghost out0 = out@;
        if r.len() >= min_pills as usize {
            proof {
                lemma_raw_combo_pill_count(r@);
            }
            let agg = aggregate_combo(r);
            let ghost aggv = agg@;
            let mut ok = true;
            let mut t: usize = 0;
            while t < agg.len()
                invariant
                    t <= agg@.len(),
                    agg@ == aggv,
                    ok == forall|a: int|
                        0 <= a < t ==> ((#[trigger] agg@[a]).half ==> agg@[a].count <= 1),
                decreases agg@.len() - t,
            {
                if agg[t].half && agg[t].count > 1 {
                    ok = false;
                }
                t += 1;
            }
            proof {
                // aggregation introduces no pair absent from the raw result
                assert forall|t: int| 0 <= t < aggv.len() implies available_pills@.contains(
                    (#[trigger] aggv[t]).mg,
                ) && (aggv[t].half ==> allow_half) by {
                    lemma_pair_count_lower(aggv, t);
                    assert(pair_count(aggv, aggv[t].mg, aggv[t].half) >= 1);
                    assert(pair_count(raw@[k as int]@, aggv[t].mg, aggv[t].half) >= 1);
                    crate::pill::lemma_pair_count_pos_exists(
                        raw@[k as int]@,
                        aggv[t].mg,
                        aggv[t].half,
                    );
                    let w = choose|w: int|
                        0 <= w < raw@[k as int]@.len() && (#[trigger] raw@[k as int]@[w]).mg
                            == aggv[t].mg && raw@[k as int]@[w].half == aggv[t].half;
                    assert(available_pills@.contains(raw@[k as int]@[w].mg));
                }
                assert(combo_from(aggv, available_pills@, allow_half));
            }
            let dup = contains_combo(&out, &agg);
            if ok && !dup {
                out.push(agg);
            }
            proof {
                // a raw result that is one whole pill survives every stage:
                // it aggregates to itself, carries no half, and an equal
                // combination being present already is itself the witness
                let rv = raw@[k as int]@;
                if rv.len() == 1 && !rv[0].half && min_pills <= 1 {
                    let p = rv[0];
                    assert(p.count == 1);
                    assert(rv.drop_last() =~= Seq::<Pill>::empty());
                    assert(rv.last() == p);
                    assert(pair_count(Seq::<Pill>::empty(), p.mg, p.half) == 0);
                    assert(combo_pill_count(Seq::<Pill>::empty()) == 0);
                    assert(combo_pill_count(rv) == 1);
                    assert(pair_count(rv, p.mg, p.half) == 1);
                    assert(combo_pill_count(aggv) == 1);
                    crate::pill::lemma_pill_count_ge_len(aggv);
                    assert(aggv.len() == 1);
                    assert(aggv.drop_last() =~= Seq::<Pill>::empty());
                    assert(aggv[0].count as nat == combo_pill_count(aggv));
                    assert(pair_count(aggv, p.mg, p.half) == 1);
                    assert(aggv[0].mg == p.mg && aggv[0].half == p.half);
                    assert(aggv =~= single_whole(p.mg));
                    assert(ok);
                    if !dup {
                        assert(out@[out@.len() - 1]@ == aggv);
                    }
                    assert(exists|j: int| 0 <= j < out@.len() && out@[j]@ == single_whole(p.mg));
                }
            }
        }
        k += 1;
        proof {
            assert forall|i: int|
                #![trigger available_pills@[i]]
                0 <= i < available_pills@.len() && 2 * (available_pills@[i] as int) == target2
                    && min_pills <= 1 && 1 <= max_pills implies (exists|j: int|
                0 <= j < out@.len() && out@[j]@ == single_whole(available_pills@[i])) || (exists|
                jr: int,
            |
                k <= jr < raw@.len() && raw@[jr]@ == single_whole(available_pills@[i])) by {
                if exists|j: int|
                    0 <= j < out0.len() && out0[j]@ == single_whole(available_pills@[i]) {
                    let j = choose|j: int|
                        0 <= j < out0.len() && out0[j]@ == single_whole(available_pills@[i]);
                    assert(out@[j]@ == single_whole(available_pills@[i]));
                }
            }
        }
    }
    out
}

} // verus!
