//! Calendar patterns and the fixed tables mapping (stop-day count,
//! special-day count) to concrete weekday index sets (0 = Monday .. 6 = Sunday).

use vstd::prelude::*;

verus! {

/// One of the two clinical calendar templates for placing stop and
/// special days.
#[derive(Clone, Copy, PartialEq, Eq, Structural, Debug)]
pub enum SpecialDayPattern {
    /// Weekend taper: stop days taken backward from Sunday, special days
    /// continuing backward from there.
    FriSun,
    /// Fixed taper over Monday, Wednesday and Friday.
    MonWedFri,
}

/// Stop-day indices for the given configuration. The tables are clinical
/// conventions, reproduced literally.
pub open spec fn spec_stop_days(num_stop: u8, num_special: u8, pattern: SpecialDayPattern) -> Seq<
    usize,
> {
    match pattern {
        SpecialDayPattern::FriSun => {
            if num_stop == 0 {
                seq![]
            } else if num_stop == 1 {
                seq![6usize]
            } else if num_stop == 2 {
                seq![5usize, 6usize]
            } else {
                seq![4usize, 5usize, 6usize]
            }
        },
        SpecialDayPattern::MonWedFri => {
            if num_stop == 0 {
                seq![]
            } else if num_stop == 1 {
                seq![2usize]
            } else if num_stop == 2 {
                seq![0usize, 4usize]
            } else {
                seq![0usize, 2usize, 4usize]
            }
        },
    }
}

/// Special-day indices for the given configuration.
pub open spec fn spec_special_days(
    num_stop: u8,
    num_special: u8,
    pattern: SpecialDayPattern,
) -> Seq<usize> {
    match pattern {
        SpecialDayPattern::FriSun => {
            if num_special == 0 {
                seq![]
            } else if num_special == 1 {
                seq![(6 - num_stop) as usize]
            } else if num_special == 2 {
                seq![(5 - num_stop) as usize, (6 - num_stop) as usize]
            } else {
                seq![(4 - num_stop) as usize, (5 - num_stop) as usize, (6 - num_stop) as usize]
            }
        },
        SpecialDayPattern::MonWedFri => {
            if num_special == 0 {
                seq![]
            } else if num_special == 1 {
                if num_stop == 2 {
                    seq![2usize]
                } else if num_stop == 1 {
                    seq![0usize]
                } else {
                    seq![2usize]
                }
            } else if num_special == 2 {
                seq![0usize, 4usize]
            } else {
                seq![0usize, 2usize, 4usize]
            }
        },
    }
}

/// Resolves a (stop-day count, special-day count, pattern) configuration to
/// its concrete weekday index sets, both ascending and disjoint.
pub fn get_day_indices(num_stop: u8, num_special: u8, pattern: SpecialDayPattern) -> (r: (
    Vec<usize>,
    Vec<usize>,
))
    requires
        num_stop <= 3,
        num_special <= 3 - num_stop,
    ensures
        r.0@ == spec_stop_days(num_stop, num_special, pattern),
        r.1@ == spec_special_days(num_stop, num_special, pattern),
        r.0@.len() == num_stop,
        r.1@.len() == num_special,
        forall|i: int| 0 <= i < r.0@.len() ==> #[trigger] r.0@[i] < 7,
        forall|i: int| 0 <= i < r.1@.len() ==> #[trigger] r.1@[i] < 7,
        forall|i: int, j: int| 0 <= i < j < r.0@.len() ==> r.0@[i] < r.0@[j],
        forall|i: int, j: int| 0 <= i < j < r.1@.len() ==> r.1@[i] < r.1@[j],
        forall|i: int, j: int|
            0 <= i < r.0@.len() && 0 <= j < r.1@.len() ==> r.0@[i] != r.1@[j],
{
    let stop: Vec<usize>;
    let special: Vec<usize>;
    match pattern {
        SpecialDayPattern::FriSun => {
            stop = if num_stop == 0 {
                vec![]
            } else if num_stop == 1 {
                vec![6]
            } else if num_stop == 2 {
                vec![5, 6]
            } else {
                vec![4, 5, 6]
            };
            let ns: usize = num_stop as usize;
            let d6: usize = 6 - ns;
            let d5: usize = 5 - ns;
            let d4: usize = 4 - ns;
            special = if num_special == 0 {
                vec![]
            } else if num_special == 1 {
                vec![d6]
            } else if num_special == 2 {
                vec![d5, d6]
            } else {
                vec![d4, d5, d6]
            };
        },
        SpecialDayPattern::MonWedFri => {
            if num_special == 3 {
                special = vec![0, 2, 4];
                stop = vec![];
            } else if num_special == 2 {
                special = vec![0, 4];
                stop = if num_stop == 1 {
                    vec![2]
                } else {
                    vec![]
                };
            } else if num_special == 1 {
                if num_stop == 2 {
                    special = vec![2];
                    stop = vec![0, 4];
                } else if num_stop == 1 {
                    special = vec![0];
                    stop = vec![2];
                } else {
                    special = vec![2];
                    stop = vec![];
                }
            } else {
                special = vec![];
                stop = if num_stop == 3 {
                    vec![0, 2, 4]
                } else if num_stop == 2 {
                    vec![0, 4]
                } else if num_stop == 1 {
                    vec![2]
                } else {
                    vec![]
                };
            }
        },
    }
    (stop, special)
}

} // verus!
