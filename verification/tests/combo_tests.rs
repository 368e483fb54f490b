use warfarin_logic::combos::find_comb;
use warfarin_logic::pill::Pill;

fn dose2(c: &Vec<Pill>) -> u32 {
    let mut n: u32 = 0;
    for p in c {
        n += (p.count as u32) * (p.mg as u32) * (if p.half { 1 } else { 2 });
    }
    n
}

fn pill_count(c: &Vec<Pill>) -> u32 {
    let mut n: u32 = 0;
    for p in c {
        n += p.count as u32;
    }
    n
}

/// Converts a dose in mg to half-mg units the way the request boundary
/// does: the nearest grid point within the clinical tolerance, or nothing.
fn to_half_units(mg: f64) -> Option<i64> {
    let k = (2.0 * mg).round();
    if (2.0 * mg - k).abs() < 0.02 {
        Some(k as i64)
    } else {
        None
    }
}

#[test]
fn every_combination_meets_the_target() {
    let strengths: Vec<u8> = vec![5, 3, 2, 1];
    for target2 in [1u32, 4, 10, 21, 30] {
        let results = find_comb(target2, &strengths, true, 1, 4);
        for c in &results {
            assert_eq!(dose2(c), target2);
        }
    }
}

#[test]
fn at_most_one_half_entry_per_strength() {
    let strengths: Vec<u8> = vec![5, 3, 2, 1];
    let results = find_comb(10, &strengths, true, 1, 4);
    assert!(!results.is_empty());
    for c in &results {
        for (i, p) in c.iter().enumerate() {
            if p.half {
                assert_eq!(p.count, 1);
                for q in &c[i + 1..] {
                    assert!(!(q.half && q.mg == p.mg));
                }
            }
        }
    }
}

#[test]
fn zero_target_with_no_minimum_yields_the_empty_combination() {
    let strengths: Vec<u8> = vec![5, 3, 2, 1];
    let results = find_comb(0, &strengths, true, 0, 4);
    assert_eq!(results.len(), 1);
    assert!(results[0].is_empty());
}

#[test]
fn sub_tolerance_target_behaves_as_zero() {
    let strengths: Vec<u8> = vec![5, 3, 2, 1];
    let tiny = to_half_units(0.005).unwrap();
    assert_eq!(tiny, 0);
    let with_min = find_comb(tiny as u32, &strengths, true, 1, 4);
    let zero_with_min = find_comb(0, &strengths, true, 1, 4);
    assert_eq!(with_min.len(), 0);
    assert_eq!(zero_with_min.len(), 0);
    let without_min = find_comb(tiny as u32, &strengths, true, 0, 4);
    assert_eq!(without_min.len(), 1);
    assert!(without_min[0].is_empty());
}

#[test]
fn combinations_are_pairwise_distinct() {
    let strengths: Vec<u8> = vec![5, 3, 2, 1];
    let results = find_comb(10, &strengths, true, 1, 4);
    for i in 0..results.len() {
        for j in (i + 1)..results.len() {
            assert_ne!(results[i], results[j]);
        }
    }
}

#[test]
fn pill_count_stays_between_the_bounds() {
    let strengths: Vec<u8> = vec![5, 3, 2, 1];
    let results = find_comb(10, &strengths, true, 2, 4);
    assert!(!results.is_empty());
    for c in &results {
        let n = pill_count(c);
        assert!(2 <= n && n <= 4);
    }
}

#[test]
fn single_strength_whole_pills_only() {
    let strengths: Vec<u8> = vec![5];
    let results = find_comb(10, &strengths, false, 1, 4);
    assert_eq!(results.len(), 1);
    assert_eq!(results[0], vec![Pill { mg: 5, count: 1, half: false }]);
}

#[test]
fn repeated_pills_aggregate_into_one_entry() {
    let strengths: Vec<u8> = vec![1];
    let results = find_comb(4, &strengths, false, 1, 4);
    assert_eq!(results.len(), 1);
    assert_eq!(results[0], vec![Pill { mg: 1, count: 2, half: false }]);
}

#[test]
fn minimum_pill_count_filters_short_combinations() {
    let strengths: Vec<u8> = vec![5];
    let results = find_comb(20, &strengths, false, 3, 4);
    assert_eq!(results.len(), 0);
}

#[test]
fn no_strengths_means_no_combinations() {
    let strengths: Vec<u8> = vec![];
    let results = find_comb(10, &strengths, true, 1, 4);
    assert_eq!(results.len(), 0);
}

#[test]
fn duplicate_strengths_do_not_duplicate_results() {
    let once: Vec<u8> = vec![5, 3, 2, 1];
    let twice: Vec<u8> = vec![5, 5, 3, 3, 2, 2, 1, 1];
    let a = find_comb(10, &once, true, 1, 4);
    let b = find_comb(10, &twice, true, 1, 4);
    for c in &a {
        assert!(b.contains(c));
    }
    for c in &b {
        assert!(a.contains(c));
    }
    for i in 0..b.len() {
        for j in (i + 1)..b.len() {
            assert_ne!(b[i], b[j]);
        }
    }
}

#[test]
fn entries_come_sorted_ascending_by_strength() {
    let strengths: Vec<u8> = vec![5, 3, 2, 1];
    let results = find_comb(12, &strengths, true, 1, 4);
    assert!(!results.is_empty());
    for c in &results {
        for w in c.windows(2) {
            let ka = 2 * (w[0].mg as u32) + (w[0].half as u32);
            let kb = 2 * (w[1].mg as u32) + (w[1].half as u32);
            assert!(ka < kb);
        }
    }
}

#[test]
fn a_matching_single_whole_pill_is_always_found() {
    let strengths: Vec<u8> = vec![5, 3, 2, 1];
    for mg in [5u8, 3, 2, 1] {
        let results = find_comb(2 * mg as u32, &strengths, false, 1, 4);
        let single = vec![Pill { mg, count: 1, half: false }];
        assert!(results.contains(&single));
    }
}

#[test]
fn off_grid_target_in_mg_has_no_half_unit_image() {
    assert_eq!(to_half_units(5.2), None);
    assert_eq!(to_half_units(5.0), Some(10));
    assert_eq!(to_half_units(2.5), Some(5));
}
