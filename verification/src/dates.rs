//! The calendar arithmetic behind the store's `YYYY-MM-DD HH:MM:SS`
//! timestamp layout: proleptic Gregorian, between the Unix epoch and the
//! end of year 9999.
use vstd::prelude::*;

verus! {

/// Days from 1970-01-01 to 10000-01-01: the first day number the store's
/// four-digit-year layout cannot hold.
pub const DAYS_LIMIT: u32 = 2932897;

/// Gregorian leap year.
pub open spec fn is_leap(y: int) -> bool {
    y % 4 == 0 && (y % 100 != 0 || y % 400 == 0)
}

pub open spec fn days_in_year(y: int) -> int {
    if is_leap(y) {
        366
    } else {
        365
    }
}

/// Days from 1970-01-01 to the first day of year `y`.
pub open spec fn days_before_year(y: int) -> int
    decreases y,
{
    if y <= 1970 {
        0
    } else {
        days_before_year(y - 1) + days_in_year(y - 1)
    }
}

pub open spec fn days_in_month(y: int, m: int) -> int {
    if m == 1 {
        31
    } else if m == 2 {
        if is_leap(y) {
            29
        } else {
            28
        }
    } else if m == 3 {
        31
    } else if m == 4 {
        30
    } else if m == 5 {
        31
    } else if m == 6 {
        30
    } else if m == 7 {
        31
    } else if m == 8 {
        31
    } else if m == 9 {
        30
    } else if m == 10 {
        31
    } else if m == 11 {
        30
    } else {
        31
    }
}

/// Days from the first day of year `y` to the first day of its month `m`.
pub open spec fn days_before_month(y: int, m: int) -> int
    decreases m,
{
    if m <= 1 {
        0
    } else {
        days_before_month(y, m - 1) + days_in_month(y, m - 1)
    }
}

/// The day number (days since 1970-01-01) of the civil date `y-m-d`.
pub open spec fn days_from_civil(y: int, m: int, d: int) -> int {
    days_before_year(y) + days_before_month(y, m) + (d - 1)
}

/// The date `y-m-d` is a calendar date the store can hold.
pub open spec fn date_wf(y: int, m: int, d: int) -> bool {
    1970 <= y <= 9999 && 1 <= m <= 12 && 1 <= d <= days_in_month(y, m)
}

/// Gregorian leap years from 1970 (inclusive) to `y` (exclusive), in
/// closed form.
pub open spec fn leaps_before(y: int) -> int {
    (y - 1) / 4 - (y - 1) / 100 + (y - 1) / 400 - 477
}

proof fn lemma_div_step(x: int, c: int)
    requires
        c > 0,
    ensures
        x / c - (x - 1) / c == (if x % c == 0 {
            1int
        } else {
            0int
        }),
{
    assert(x / c - (x - 1) / c == (if x % c == 0 {
        1int
    } else {
        0int
    })) by (nonlinear_arith)
        requires
            c > 0,
    ;
}

proof fn lemma_dby_formula(y: int)
    requires
        1970 <= y <= 10000,
    ensures
        days_before_year(y) == 365 * (y - 1970) + leaps_before(y),
    decreases y,
{
    if y == 1970 {
        assert(leaps_before(1970) == 0);
    } else {
        lemma_dby_formula(y - 1);
        lemma_div_step(y - 1, 4);
        lemma_div_step(y - 1, 100);
        lemma_div_step(y - 1, 400);
        assert((y - 1) % 100 == 0 ==> (y - 1) % 4 == 0) by (nonlinear_arith);
        assert((y - 1) % 400 == 0 ==> (y - 1) % 100 == 0) by (nonlinear_arith);
    }
}

/// The store's day-number bound is exactly the count of days from the
/// epoch to 10000-01-01.
pub proof fn lemma_days_limit()
    ensures
        days_before_year(10000) == DAYS_LIMIT,
{
    lemma_dby_formula(10000);
}

/// Day counts grow with the year.
pub proof fn lemma_dby_mono(a: int, b: int)
    requires
        a <= b,
    ensures
        days_before_year(a) <= days_before_year(b),
    decreases b - a,
{
    if a < b {
        lemma_dby_mono(a, b - 1);
    }
}

/// The months of year `y` cover it exactly.
pub proof fn lemma_year_months(y: int)
    ensures
        days_before_month(y, 13) == days_in_year(y),
{
    reveal_with_fuel(days_before_month, 14);
}

/// Month starts grow with the month.
pub proof fn lemma_dbm_mono(y: int, a: int, b: int)
    requires
        a <= b,
    ensures
        days_before_month(y, a) <= days_before_month(y, b),
    decreases b - a,
{
    if a < b {
        lemma_dbm_mono(y, a, b - 1);
    }
}

/// The day number of a well-formed date, computed by summing whole years
/// and then whole months.
pub fn days_from_civil_exec(y: u32, m: u32, d: u32) -> (r: u32)
    requires
        date_wf(y as int, m as int, d as int),
    ensures
        r == days_from_civil(y as int, m as int, d as int),
        r < DAYS_LIMIT,
{
    proof {
        lemma_civil_in_range(y as int, m as int, d as int);
        lemma_dbm_mono(y as int, 1, m as int);
    }
    let mut acc: u32 = 0;
    let mut cy: u32 = 1970;
    loop
        invariant
            1970 <= cy <= y <= 9999,
            acc == days_before_year(cy as int),
            days_before_year(y as int) < DAYS_LIMIT,
        ensures
            cy == y,
            acc == days_before_year(y as int),
        decreases y - cy,
    {
        if cy >= y {
            break;
        }
        proof {
            lemma_dby_mono(cy as int + 1, y as int);
        }
        let diy: u32 = if (cy % 4 == 0 && (cy % 100 != 0 || cy % 400 == 0)) {
            366
        } else {
            365
        };
        acc = acc + diy;
        cy = cy + 1;
    }
    let mut cm: u32 = 1;
    let mut macc: u32 = 0;
    loop
        invariant
            1 <= cm <= m <= 12,
            macc == days_before_month(y as int, cm as int),
            acc == days_before_year(y as int),
            days_from_civil(y as int, m as int, d as int) < DAYS_LIMIT,
            date_wf(y as int, m as int, d as int),
        ensures
            cm == m,
            macc == days_before_month(y as int, m as int),
        decreases m - cm,
    {
        if cm >= m {
            break;
        }
        proof {
            lemma_dbm_mono(y as int, cm as int + 1, m as int);
            lemma_civil_in_range(y as int, m as int, d as int);
        }
        let dim = days_in_month_exec(y, cm);
        macc = macc + dim;
        cm = cm + 1;
    }
    proof {
        lemma_civil_in_range(y as int, m as int, d as int);
    }
    acc + macc + (d - 1)
}

/// The days of the month `m` of year `y`.
pub fn days_in_month_exec(y: u32, m: u32) -> (r: u32)
    requires
        1 <= m <= 12,
    ensures
        r == days_in_month(y as int, m as int),
{
    if m == 1 {
        31
    } else if m == 2 {
        if y % 4 == 0 && (y % 100 != 0 || y % 400 == 0) {
            29
        } else {
            28
        }
    } else if m == 3 {
        31
    } else if m == 4 {
        30
    } else if m == 5 {
        31
    } else if m == 6 {
        30
    } else if m == 7 {
        31
    } else if m == 8 {
        31
    } else if m == 9 {
        30
    } else if m == 10 {
        31
    } else if m == 11 {
        30
    } else {
        31
    }
}

/// The well-formed date whose day number is `days`.
pub fn civil_from_days(days: u32) -> (r: (u32, u32, u32))
    requires
        days < DAYS_LIMIT,
    ensures
        date_wf(r.0 as int, r.1 as int, r.2 as int),
        days_from_civil(r.0 as int, r.1 as int, r.2 as int) == days,
{
    let mut y: u32 = 1970;
    let mut acc: u32 = 0;
    proof {
        lemma_days_limit();
    }
    loop
        invariant
            1970 <= y <= 9999,
            acc == days_before_year(y as int),
            acc <= days < DAYS_LIMIT,
            days_before_year(10000) == DAYS_LIMIT,
        ensures
            1970 <= y <= 9999,
            acc == days_before_year(y as int),
            acc <= days,
            days - acc < days_in_year(y as int),
        decreases DAYS_LIMIT - acc,
    {
        let diy: u32 = if (y % 4 == 0 && (y % 100 != 0 || y % 400 == 0)) {
            366
        } else {
            365
        };
        if acc + diy > days {
            break;
        }
        proof {
            if y as int + 1 > 9999 {
                assert(days_before_year(10000) == acc + diy);
            }
        }
        acc = acc + diy;
        y = y + 1;
    }
    let doy: u32 = days - acc;
    let mut m: u32 = 1;
    let mut macc: u32 = 0;
    proof {
        lemma_year_months(y as int);
    }
    loop
        invariant
            1 <= m <= 12,
            macc == days_before_month(y as int, m as int),
            macc <= doy,
            doy < days_in_year(y as int),
            days_before_month(y as int, 13) == days_in_year(y as int),
            1970 <= y <= 9999,
            acc == days_before_year(y as int),
            acc + doy == days,
        ensures
            1 <= m <= 12,
            macc == days_before_month(y as int, m as int),
            macc <= doy,
            doy - macc < days_in_month(y as int, m as int),
        decreases 12 - m,
    {
        let dim = days_in_month_exec(y, m);
        if macc + dim > doy {
            break;
        }
        proof {
            if m as int + 1 > 12 {
                lemma_dbm_mono(y as int, m as int + 1, 13);
            }
        }
        macc = macc + dim;
        m = m + 1;
    }
    let d: u32 = doy - macc + 1;
    (y, m, d)
}

/// A well-formed date's day number lies below the store's bound.
pub proof fn lemma_civil_in_range(y: int, m: int, d: int)
    requires
        date_wf(y, m, d),
    ensures
        0 <= days_from_civil(y, m, d) < DAYS_LIMIT,
{
    lemma_dbm_mono(y, 1, m);
    lemma_dbm_mono(y, m + 1, 13);
    lemma_year_months(y);
    assert(days_before_month(y, m + 1) == days_before_month(y, m) + days_in_month(y, m));
    lemma_dby_mono(1970, y);
    assert(days_before_year(y + 1) == days_before_year(y) + days_in_year(y));
    lemma_dby_mono(y + 1, 10000);
    lemma_days_limit();
}

} // verus!
