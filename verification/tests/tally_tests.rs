use warfarin_logic::options::{DosageOption, OptionType};
use warfarin_logic::pill::Pill;
use warfarin_logic::tally::calculate_total_pills;

#[test]
fn two_weeks_of_one_five_consume_fourteen_pills() {
    let o = DosageOption::new(
        OptionType::Uniform(vec![Pill { mg: 5, count: 1, half: false }]),
        70,
    );
    let lines = calculate_total_pills(&o, 14, 0);
    assert_eq!(lines.len(), 1);
    assert_eq!(lines[0].mg, 5);
    assert_eq!(lines[0].whole_count, 14);
    assert_eq!(lines[0].half_count, 0);
    assert_eq!(lines[0].dispensed, 14);
}

#[test]
fn paired_halves_share_a_pill_and_an_odd_half_needs_one() {
    // one half of a 3 mg pill each day for a week: seven halves dispense
    // three whole pills plus one more for the leftover half
    let o = DosageOption::new(
        OptionType::Uniform(vec![Pill { mg: 3, count: 1, half: true }]),
        21,
    );
    let lines = calculate_total_pills(&o, 7, 0);
    assert_eq!(lines.len(), 1);
    assert_eq!(lines[0].mg, 3);
    assert_eq!(lines[0].whole_count, 0);
    assert_eq!(lines[0].half_count, 7);
    assert_eq!(lines[0].dispensed, 4);
}

#[test]
fn lines_come_highest_strength_first_and_untouched_strengths_are_left_out() {
    let o = DosageOption::new(
        OptionType::Uniform(vec![
            Pill { mg: 1, count: 1, half: false },
            Pill { mg: 5, count: 2, half: false },
        ]),
        154,
    );
    let lines = calculate_total_pills(&o, 7, 0);
    assert_eq!(lines.len(), 2);
    assert_eq!(lines[0].mg, 5);
    assert_eq!(lines[0].dispensed, 14);
    assert_eq!(lines[1].mg, 1);
    assert_eq!(lines[1].dispensed, 7);
}

#[test]
fn the_week_is_walked_cyclically_from_the_start_day() {
    // 2 mg only on Monday (index 0); starting Sunday, a 2-day window
    // covers Sunday and Monday and consumes one pill
    let mut week: Vec<Vec<Pill>> = vec![Vec::new(); 7];
    week[0] = vec![Pill { mg: 2, count: 1, half: false }];
    let o = DosageOption::new(OptionType::NonUniform(week), 4);
    let lines = calculate_total_pills(&o, 2, 6);
    assert_eq!(lines.len(), 1);
    assert_eq!(lines[0].mg, 2);
    assert_eq!(lines[0].whole_count, 1);
    assert_eq!(lines[0].dispensed, 1);
}

#[test]
fn an_empty_period_dispenses_nothing() {
    let o = DosageOption::new(
        OptionType::Uniform(vec![Pill { mg: 5, count: 1, half: false }]),
        70,
    );
    let lines = calculate_total_pills(&o, 0, 0);
    assert!(lines.is_empty());
}
