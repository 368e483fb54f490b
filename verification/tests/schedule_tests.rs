use warfarin_logic::days::{get_day_indices, SpecialDayPattern};
use warfarin_logic::options::{DosageOption, OptionType};
use warfarin_logic::pill::Pill;
use warfarin_logic::rank::rank_options;
use warfarin_logic::suggest::{generate_suggestions, CalculationInput};

fn dose2(c: &Vec<Pill>) -> u64 {
    let mut n: u64 = 0;
    for p in c {
        n += (p.count as u64) * (p.mg as u64) * (if p.half { 1 } else { 2 });
    }
    n
}

fn week_dose2(o: &DosageOption) -> u64 {
    match &o.option_type {
        OptionType::Uniform(c) => 7 * dose2(c),
        OptionType::NonUniform(cw) => cw.iter().map(dose2).sum(),
    }
}

fn request(w2: i64, pattern: SpecialDayPattern) -> CalculationInput {
    CalculationInput {
        weekly_dose_half_mg: w2,
        allow_half: true,
        available_pills: vec![5, 3, 2, 1],
        special_day_pattern: pattern,
        days_until_appointment: 14,
        start_day_of_week: 0,
    }
}

#[test]
fn pattern_a_two_stops_one_special() {
    let (stop, special) = get_day_indices(2, 1, SpecialDayPattern::FriSun);
    assert_eq!(stop, vec![5, 6]);
    assert_eq!(special, vec![4]);
}

#[test]
fn pattern_b_three_specials() {
    let (stop, special) = get_day_indices(0, 3, SpecialDayPattern::MonWedFri);
    assert_eq!(stop, Vec::<usize>::new());
    assert_eq!(special, vec![0, 2, 4]);
}

#[test]
fn pattern_b_full_table() {
    let rows: [(u8, u8, Vec<usize>, Vec<usize>); 10] = [
        (3, 0, vec![0, 2, 4], vec![]),
        (2, 1, vec![0, 4], vec![2]),
        (2, 0, vec![0, 4], vec![]),
        (1, 2, vec![2], vec![0, 4]),
        (1, 1, vec![0], vec![2]),
        (1, 0, vec![2], vec![]),
        (0, 3, vec![], vec![0, 2, 4]),
        (0, 2, vec![], vec![0, 4]),
        (0, 1, vec![], vec![2]),
        (0, 0, vec![], vec![]),
    ];
    for (num_special, num_stop, special, stop) in rows {
        let (s, sp) = get_day_indices(num_stop, num_special, SpecialDayPattern::MonWedFri);
        assert_eq!(s, stop);
        assert_eq!(sp, special);
    }
}

#[test]
fn pattern_a_taper_walks_back_from_sunday() {
    let (stop, special) = get_day_indices(3, 0, SpecialDayPattern::FriSun);
    assert_eq!(stop, vec![4, 5, 6]);
    assert_eq!(special, Vec::<usize>::new());
    let (stop, special) = get_day_indices(1, 2, SpecialDayPattern::FriSun);
    assert_eq!(stop, vec![6]);
    assert_eq!(special, vec![4, 5]);
}

#[test]
fn every_schedule_meets_the_weekly_target() {
    for pattern in [SpecialDayPattern::FriSun, SpecialDayPattern::MonWedFri] {
        let results = generate_suggestions(&request(70, pattern));
        assert!(!results.is_empty());
        for o in &results {
            assert_eq!(week_dose2(o), 70);
            assert_eq!(o.weekly_dose_actual2 as u64, 70);
        }
    }
}

#[test]
fn nonuniform_schedules_meet_the_weekly_target() {
    let results = generate_suggestions(&request(75, SpecialDayPattern::FriSun));
    let mut saw_nonuniform = false;
    for o in &results {
        if let OptionType::NonUniform(cw) = &o.option_type {
            assert_eq!(cw.len(), 7);
            saw_nonuniform = true;
        }
        assert_eq!(week_dose2(o), 75);
    }
    assert!(saw_nonuniform);
}

#[test]
fn negative_weekly_target_yields_nothing() {
    for pattern in [SpecialDayPattern::FriSun, SpecialDayPattern::MonWedFri] {
        let mut req = request(-10, pattern);
        let results = generate_suggestions(&req);
        assert!(results.is_empty());
        req.allow_half = false;
        let results = generate_suggestions(&req);
        assert!(results.is_empty());
    }
}

#[test]
fn weekly_thirty_five_mg_prefers_the_uniform_five() {
    // 35 mg a week is 70 half-mg units: one whole 5 mg pill a day fits it
    let results = generate_suggestions(&request(70, SpecialDayPattern::FriSun));
    let five_daily = vec![Pill { mg: 5, count: 1, half: false }];
    let uniform_pos = results.iter().position(|o| match &o.option_type {
        OptionType::Uniform(c) => *c == five_daily,
        OptionType::NonUniform(_) => false,
    });
    let uniform_pos = uniform_pos.expect("the uniform 5 mg/day schedule is found");
    let u = &results[uniform_pos];
    for (i, o) in results.iter().enumerate() {
        if let OptionType::NonUniform(_) = &o.option_type {
            if o.half_pill_complexity >= u.half_pill_complexity {
                assert!(uniform_pos < i);
            }
        }
    }
}

#[test]
fn ranking_is_sorted_by_the_five_keys() {
    let results = generate_suggestions(&request(75, SpecialDayPattern::FriSun));
    for w in results.windows(2) {
        let a = &w[0];
        let b = &w[1];
        let ka = (
            a.half_pill_complexity,
            a.priority,
            a.num_stop_days + a.num_special_days,
            a.pill_color_count,
            a.total_pill_objects,
        );
        let kb = (
            b.half_pill_complexity,
            b.priority,
            b.num_stop_days + b.num_special_days,
            b.pill_color_count,
            b.total_pill_objects,
        );
        assert!(ka <= kb);
    }
}

fn same_content(a: &DosageOption, b: &DosageOption) -> bool {
    let weeks = match (&a.option_type, &b.option_type) {
        (OptionType::Uniform(x), OptionType::Uniform(y)) => x == y,
        (OptionType::NonUniform(x), OptionType::NonUniform(y)) => x == y,
        _ => false,
    };
    weeks && a.weekly_dose_actual2 == b.weekly_dose_actual2 && a.base_dose2 == b.base_dose2
        && a.special_dose2 == b.special_dose2 && a.stop_days == b.stop_days
        && a.special_days == b.special_days
}

#[test]
fn ranking_twice_keeps_the_order() {
    let results = generate_suggestions(&request(75, SpecialDayPattern::FriSun));
    assert!(!results.is_empty());
    let again = rank_options(results.clone());
    assert_eq!(results.len(), again.len());
    for i in 0..results.len() {
        assert!(same_content(&results[i], &again[i]));
    }
}

#[test]
fn ties_keep_generation_order() {
    // two schedules with identical ranking keys but different content
    let a = DosageOption::new(
        OptionType::Uniform(vec![Pill { mg: 3, count: 2, half: false }]),
        84,
    );
    let b = DosageOption::new(
        OptionType::Uniform(vec![Pill { mg: 5, count: 2, half: false }]),
        140,
    );
    assert_eq!(a.half_pill_complexity, b.half_pill_complexity);
    assert_eq!(a.pill_color_count, b.pill_color_count);
    assert_eq!(a.total_pill_objects, b.total_pill_objects);
    let ranked = rank_options(vec![b.clone(), a.clone()]);
    assert_eq!(ranked.len(), 2);
    assert!(same_content(&ranked[0], &b));
    assert!(same_content(&ranked[1], &a));
}

#[test]
fn complexity_metrics_have_exact_values() {
    let combo = vec![
        Pill { mg: 1, count: 2, half: false },
        Pill { mg: 3, count: 1, half: true },
    ];
    let o = DosageOption::new(OptionType::Uniform(combo), 70);
    assert_eq!(o.priority, 0);
    assert_eq!(o.pill_color_count, 2);
    assert_eq!(o.half_pill_complexity, 1);
    assert_eq!(o.total_pill_objects, 21);
}

#[test]
fn stop_days_carry_no_dose() {
    let results = generate_suggestions(&request(60, SpecialDayPattern::FriSun));
    for o in &results {
        if let OptionType::NonUniform(cw) = &o.option_type {
            for &d in &o.stop_days {
                assert!(cw[d].is_empty());
            }
        }
    }
}

#[test]
fn at_most_thirty_results_are_returned() {
    let results = generate_suggestions(&request(70, SpecialDayPattern::FriSun));
    assert!(results.len() <= 30);
}

fn same_signature(a: &DosageOption, b: &DosageOption) -> bool {
    match (&a.option_type, &b.option_type) {
        (OptionType::Uniform(x), OptionType::Uniform(y)) => x == y,
        (OptionType::NonUniform(x), OptionType::NonUniform(y)) => x == y,
        _ => false,
    }
}

#[test]
fn no_two_results_share_a_signature() {
    for pattern in [SpecialDayPattern::FriSun, SpecialDayPattern::MonWedFri] {
        let results = generate_suggestions(&request(75, pattern));
        for i in 0..results.len() {
            for j in (i + 1)..results.len() {
                assert!(!same_signature(&results[i], &results[j]));
            }
        }
    }
}

#[test]
fn the_matching_uniform_schedule_is_ranked_first() {
    let results = generate_suggestions(&request(70, SpecialDayPattern::FriSun));
    let five_daily = vec![Pill { mg: 5, count: 1, half: false }];
    match &results[0].option_type {
        OptionType::Uniform(c) => assert_eq!(*c, five_daily),
        OptionType::NonUniform(_) => panic!("expected the uniform 5 mg/day schedule first"),
    }
}

#[test]
fn a_matching_strength_yields_its_uniform_schedule() {
    // one 3 mg pill a day over seven days meets a 21 mg weekly target
    let req = CalculationInput {
        weekly_dose_half_mg: 42,
        allow_half: false,
        available_pills: vec![3],
        special_day_pattern: SpecialDayPattern::MonWedFri,
        days_until_appointment: 7,
        start_day_of_week: 0,
    };
    let results = generate_suggestions(&req);
    let single = vec![Pill { mg: 3, count: 1, half: false }];
    assert!(results.iter().any(|o| match &o.option_type {
        OptionType::Uniform(c) => *c == single,
        OptionType::NonUniform(_) => false,
    }));
}

#[test]
fn zero_weekly_target_returns_the_stop_schedule() {
    let results = generate_suggestions(&request(0, SpecialDayPattern::FriSun));
    assert_eq!(results.len(), 1);
    match &results[0].option_type {
        OptionType::Uniform(c) => assert!(c.is_empty()),
        OptionType::NonUniform(_) => panic!("expected a uniform stop schedule"),
    }
}
