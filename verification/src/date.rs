//! Proleptic Gregorian calendar arithmetic: day numbers counted from
//! 1970-01-01, converted to and from (year, month, day).
use vstd::prelude::*;
use crate::text::{dec_pad, push_dec_pad};

verus! {

// ------------------------------------------------------------------ spec model

pub open spec fn in_i64(x: int) -> bool {
    i64::MIN <= x <= i64::MAX
}

/// Division that rounds toward zero, as `/` does on machine integers.
pub open spec fn tdiv(a: int, b: int) -> int {
    if a >= 0 {
        a / b
    } else {
        -((-a) / b)
    }
}

/// Days before the start of March-based year `k` of a 400-year era.
pub open spec fn year_start(k: int) -> int {
    365 * k + k / 4 - k / 100
}

/// The March-based year of an era that holds day `doe` of that era.
pub open spec fn yoe_of(doe: int) -> int {
    (doe - doe / 1460 + doe / 36524 - doe / 146096) / 365
}

/// Days before the start of March-based month `mp` (0 = March) of a year.
pub open spec fn month_start(mp: int) -> int {
    (153 * mp + 2) / 5
}

/// The March-based month that holds day `doy` of a year.
pub open spec fn mp_of(doy: int) -> int {
    (5 * doy + 2) / 153
}

/// The day number of (y, m, d), computed as `days_from_civil` computes it.
pub open spec fn civil_days(y: int, m: int, d: int) -> int {
    let y1 = if m <= 2 {
        y - 1
    } else {
        y
    };
    let era = tdiv(
        if y1 >= 0 {
            y1
        } else {
            y1 - 399
        },
        400,
    );
    let yoe = y1 - era * 400;
    let mp = if m > 2 {
        m - 3
    } else {
        m + 9
    };
    let doy = tdiv(153 * mp + 2, 5) + d - 1;
    let doe = yoe * 365 + tdiv(yoe, 4) - tdiv(yoe, 100) + doy;
    era * 146097 + doe - 719468
}

/// Every intermediate value of `days_from_civil` fits in an `i64`.
pub open spec fn civil_fits(y: int, m: int, d: int) -> bool {
    let y1 = if m <= 2 {
        y - 1
    } else {
        y
    };
    let t = if y1 >= 0 {
        y1
    } else {
        y1 - 399
    };
    let era = tdiv(t, 400);
    let yoe = y1 - era * 400;
    let mp = if m > 2 {
        m - 3
    } else {
        m + 9
    };
    let c = tdiv(153 * mp + 2, 5);
    let doe = yoe * 365 + tdiv(yoe, 4) - tdiv(yoe, 100) + (c + d - 1);
    &&& in_i64(y1)
    &&& in_i64(t)
    &&& in_i64(153 * mp)
    &&& in_i64(153 * mp + 2)
    &&& in_i64(c + d)
    &&& in_i64(c + d - 1)
    &&& in_i64(doe)
    &&& in_i64(era * 146097)
    &&& in_i64(era * 146097 + doe)
    &&& in_i64(era * 146097 + doe - 719468)
}

/// The (year, month, day) of a day number, computed as `civil_from_days` does.
pub open spec fn civil_of(days: int) -> (int, int, int) {
    let z = days + 719468;
    let era = tdiv(
        if z >= 0 {
            z
        } else {
            z - 146096
        },
        146097,
    );
    let doe = z - era * 146097;
    let yoe = yoe_of(doe);
    let y = yoe + era * 400;
    let doy = doe - year_start(yoe);
    let mp = mp_of(doy);
    let d = doy - month_start(mp) + 1;
    let m = if mp < 10 {
        mp + 3
    } else {
        mp - 9
    };
    (
        if m <= 2 {
            y + 1
        } else {
            y
        },
        m,
        d,
    )
}

/// Day numbers for which `civil_from_days` computes without overflow.
pub open spec fn civil_of_fits(days: int) -> bool {
    i64::MIN + 573372 <= days <= i64::MAX - 719468
}

// ------------------------------------------------------------------ lemmas

proof fn lemma_year_bits(doe: u32, yoe: u32)
    by (bit_vector)
    requires
        doe <= 146096,
        yoe == (doe - doe / 1460 + doe / 36524 - doe / 146096) / 365,
    ensures
        yoe <= 399,
        365 * yoe + yoe / 4 - yoe / 100 <= doe,
        doe <= 365 * yoe + yoe / 4 - yoe / 100 + 365,
{
}

/// Day `doe` of an era falls in March-based year `yoe_of(doe)`, between that
/// year's start and its last day.
pub proof fn lemma_year_of_era(doe: int)
    requires
        0 <= doe <= 146096,
    ensures
        0 <= yoe_of(doe) <= 399,
        year_start(yoe_of(doe)) <= doe,
        doe - year_start(yoe_of(doe)) <= 365,
{
    let d32 = doe as u32;
    let y32 = ((d32 - d32 / 1460 + d32 / 36524 - d32 / 146096) / 365) as u32;
    assert(d32 - d32 / 1460 + d32 / 36524 - d32 / 146096 >= 0) by (nonlinear_arith)
        requires
            d32 <= 146096,
    ;
    lemma_year_bits(d32, y32);
}

proof fn lemma_month_bits(doy: u32, mp: u32)
    requires
        doy <= 365,
        mp == (5 * doy + 2) / 153,
    ensures
        mp <= 11,
        (153 * mp + 2) / 5 <= doy,
        doy <= (153 * mp + 2) / 5 + 30,
{
}

/// Day `doy` of a March-based year falls in month `mp_of(doy)`.
pub proof fn lemma_month_of_year(doy: int)
    requires
        0 <= doy <= 365,
    ensures
        0 <= mp_of(doy) <= 11,
        month_start(mp_of(doy)) <= doy,
        doy - month_start(mp_of(doy)) <= 30,
{
    let d32 = doy as u32;
    let m32 = ((5 * d32 + 2) / 153) as u32;
    lemma_month_bits(d32, m32);
}

proof fn lemma_floor_era(z: int, q: int, e: int)
    requires
        q > 0,
        e == tdiv(
            if z >= 0 {
                z
            } else {
                z - (q - 1)
            },
            q,
        ),
    ensures
        e * q <= z < e * q + q,
{
    if z >= 0 {
        assert(e * q <= z < e * q + q) by (nonlinear_arith)
            requires
                q > 0,
                z >= 0,
                e == z / q,
        ;
    } else {
        let w = (q - 1) - z;
        assert(w > 0);
        assert(e == -(w / q));
        assert((w / q) * q <= w < (w / q) * q + q) by (nonlinear_arith)
            requires
                q > 0,
                w > 0,
        ;
        assert(e * q == -((w / q) * q)) by (nonlinear_arith)
            requires
                e == -(w / q),
        ;
    }
}

proof fn lemma_div_unique(x: int, q: int, e: int)
    requires
        q > 0,
        e * q <= x < e * q + q,
    ensures
        x / q == e,
{
    assert(x / q == e) by (nonlinear_arith)
        requires
            q > 0,
            e * q <= x < e * q + q,
    ;
}

/// Turning a day number into (year, month, day) and back gives the day
/// number again.
pub proof fn lemma_civil_roundtrip(days: int)
    ensures
        civil_days(civil_of(days).0, civil_of(days).1, civil_of(days).2) == days,
{
    let z = days + 719468;
    let era = tdiv(
        if z >= 0 {
            z
        } else {
            z - 146096
        },
        146097,
    );
    lemma_floor_era(z, 146097, era);
    let doe = z - era * 146097;
    assert(0 <= doe <= 146096);
    lemma_year_of_era(doe);
    let yoe = yoe_of(doe);
    let y = yoe + era * 400;
    let doy = doe - year_start(yoe);
    lemma_month_of_year(doy);
    let mp = mp_of(doy);
    let d = doy - month_start(mp) + 1;
    let m = if mp < 10 {
        mp + 3
    } else {
        mp - 9
    };
    let yy = if m <= 2 {
        y + 1
    } else {
        y
    };
    assert(civil_of(days) == (yy, m, d));
    // the year before March: the year that days_from_civil works with
    let y1 = if m <= 2 {
        yy - 1
    } else {
        yy
    };
    assert(y1 == y);
    let t = if y1 >= 0 {
        y1
    } else {
        y1 - 399
    };
    let era2 = tdiv(t, 400);
    lemma_floor_era(y1, 400, era2);
    assert(era * 400 <= y1 < era * 400 + 400);
    assert(era2 == era) by (nonlinear_arith)
        requires
            era2 * 400 <= y1 < era2 * 400 + 400,
            era * 400 <= y1 < era * 400 + 400,
    ;
    let mp2 = if m > 2 {
        m - 3
    } else {
        m + 9
    };
    assert(mp2 == mp);
    assert(tdiv(153 * mp2 + 2, 5) == month_start(mp));
    assert(tdiv(yoe, 4) == yoe / 4);
    assert(tdiv(yoe, 100) == yoe / 100);
}

/// The date of a day number within half the `i64` range goes back to a day
/// number without overflow.
proof fn lemma_civil_of_fits(days: int)
    requires
        civil_of_fits(days),
        -4611686018427387904 <= days <= 4611686018427387904,
    ensures
        civil_fits(civil_of(days).0, civil_of(days).1, civil_of(days).2),
{
    let z = days + 719468;
    let era = tdiv(
        if z >= 0 {
            z
        } else {
            z - 146096
        },
        146097,
    );
    lemma_floor_era(z, 146097, era);
    let doe = z - era * 146097;
    assert(0 <= doe <= 146096);
    lemma_year_of_era(doe);
    let yoe = yoe_of(doe);
    let y = yoe + era * 400;
    let doy = doe - year_start(yoe);
    lemma_month_of_year(doy);
    let mp = mp_of(doy);
    let d = doy - month_start(mp) + 1;
    let m = if mp < 10 {
        mp + 3
    } else {
        mp - 9
    };
    let yy = if m <= 2 {
        y + 1
    } else {
        y
    };
    assert(civil_of(days) == (yy, m, d));
    // the year before March: the year that days_from_civil works with
    let y1 = if m <= 2 {
        yy - 1
    } else {
        yy
    };
    assert(y1 == y);
    let t = if y1 >= 0 {
        y1
    } else {
        y1 - 399
    };
    let era2 = tdiv(t, 400);
    lemma_floor_era(y1, 400, era2);
    assert(era * 400 <= y1 < era * 400 + 400);
    assert(era2 == era) by (nonlinear_arith)
        requires
            era2 * 400 <= y1 < era2 * 400 + 400,
            era * 400 <= y1 < era * 400 + 400,
    ;
    let mp2 = if m > 2 {
        m - 3
    } else {
        m + 9
    };
    assert(mp2 == mp);
    assert(tdiv(153 * mp2 + 2, 5) == month_start(mp));
    assert(tdiv(yoe, 4) == yoe / 4);
    assert(tdiv(yoe, 100) == yoe / 100);
    assert(era * 146097 <= z);
    assert(-4611686018427387904 - 146097 <= era * 146097) by (nonlinear_arith)
        requires
            era * 146097 <= z < era * 146097 + 146097,
            -4611686018427387904 <= z - 719468,
    ;
    assert(-1000000000000000000 <= era <= 1000000000000000000) by (nonlinear_arith)
        requires
            era * 146097 <= z < era * 146097 + 146097,
            -4611686018427387904 <= z - 719468 <= 4611686018427387904,
    ;
}

pub open spec fn is_leap(y: int) -> bool {
    y % 4 == 0 && (y % 100 != 0 || y % 400 == 0)
}

pub open spec fn days_in_month(y: int, m: int) -> int {
    if m == 2 {
        if is_leap(y) {
            29
        } else {
            28
        }
    } else if m == 4 || m == 6 || m == 9 || m == 11 {
        30
    } else {
        31
    }
}

/// (y, m, d) names a day of the proleptic Gregorian calendar.
pub open spec fn valid_date(y: int, m: int, d: int) -> bool {
    1 <= m <= 12 && 1 <= d <= days_in_month(y, m)
}

proof fn lemma_year_back_bits(yoe: u32, doy: u32, doe: u32, n: u32)
    by (bit_vector)
    requires
        yoe <= 399,
        n == yoe + 1,
        doe == 365 * yoe + yoe / 4 - yoe / 100 + doy,
        doe < 365 * n + n / 4 - n / 100 + n / 400,
    ensures
        (doe - doe / 1460 + doe / 36524 - doe / 146096) / 365 == yoe,
        doe <= 146096,
{
}

proof fn lemma_year_len_bits(k: u32, n: u32)
    by (bit_vector)
    requires
        k <= 399,
        n == k + 1,
    ensures
        (365 * n + n / 4 - n / 100 + n / 400) - (365 * k + k / 4 - k / 100) == (if n % 4 == 0
            && (n % 100 != 0 || n % 400 == 0) {
            366u32
        } else {
            365u32
        }),
{
}

proof fn lemma_year_back(yoe: int, doy: int)
    requires
        0 <= yoe <= 399,
        0 <= doy,
        doy < (if is_leap(yoe + 1) {
            366int
        } else {
            365int
        }),
    ensures
        yoe_of(year_start(yoe) + doy) == yoe,
        0 <= year_start(yoe) + doy <= 146096,
{
    let k = yoe as u32;
    let n = (yoe + 1) as u32;
    lemma_year_len_bits(k, n);
    let e = (year_start(yoe) + doy) as u32;
    assert(0 <= year_start(yoe) <= 146000) by (nonlinear_arith)
        requires
            0 <= yoe <= 399,
    ;
    lemma_year_back_bits(k, doy as u32, e, n);
}

proof fn lemma_month_back(mp: int, d: int)
    requires
        0 <= mp <= 11,
        1 <= d,
        month_start(mp) + d - 1 < month_start(mp + 1),
    ensures
        mp_of(month_start(mp) + d - 1) == mp,
{
}

proof fn lemma_mod_era(era: int, k: int)
    ensures
        (era * 400 + k) % 4 == k % 4,
        (era * 400 + k) % 100 == k % 100,
        (era * 400 + k) % 400 == k % 400,
{
    assert((era * 400 + k) % 4 == k % 4) by (nonlinear_arith);
    assert((era * 400 + k) % 100 == k % 100) by (nonlinear_arith);
    assert((era * 400 + k) % 400 == k % 400) by (nonlinear_arith);
}

/// Turning a calendar date into its day number and back gives the date again.
pub proof fn lemma_date_roundtrip(y: int, m: int, d: int)
    requires
        valid_date(y, m, d),
    ensures
        civil_of(civil_days(y, m, d)) == (y, m, d),
{
    let y1 = if m <= 2 {
        y - 1
    } else {
        y
    };
    let t = if y1 >= 0 {
        y1
    } else {
        y1 - 399
    };
    let era = tdiv(t, 400);
    lemma_floor_era(y1, 400, era);
    let yoe = y1 - era * 400;
    let mp = if m > 2 {
        m - 3
    } else {
        m + 9
    };
    let doy = month_start(mp) + d - 1;
    assert(tdiv(153 * mp + 2, 5) == month_start(mp));
    assert(tdiv(yoe, 4) == yoe / 4);
    assert(tdiv(yoe, 100) == yoe / 100);
    let doe = year_start(yoe) + doy;
    let days = civil_days(y, m, d);
    assert(days == era * 146097 + doe - 719468);
    lemma_mod_era(era, yoe + 1);
    assert(is_leap(yoe + 1) == (m <= 2 && is_leap(y) || m > 2 && is_leap(y + 1))) by {
        if m <= 2 {
            assert(y == era * 400 + (yoe + 1));
        } else {
            assert(y + 1 == era * 400 + (yoe + 1));
            lemma_mod_era(era, yoe + 1);
        }
    }
    // the day of the March-based year stays inside that year
    if mp < 11 {
        lemma_month_back(mp, d);
        assert(doy < 337);
    } else {
        assert(m == 2);
        assert(doy <= 336 + days_in_month(y, 2));
    }
    lemma_month_back(mp, d);
    lemma_year_back(yoe, doy);
    let z = days + 719468;
    assert(z == era * 146097 + doe);
    let era2 = tdiv(
        if z >= 0 {
            z
        } else {
            z - 146096
        },
        146097,
    );
    lemma_floor_era(z, 146097, era2);
    assert(era2 == era) by (nonlinear_arith)
        requires
            era2 * 146097 <= z < era2 * 146097 + 146097,
            z == era * 146097 + doe,
            0 <= doe <= 146096,
    ;
}

/// (y, m, d) comes before (y2, m2, d2) in the calendar.
pub open spec fn date_before(y: int, m: int, d: int, y2: int, m2: int, d2: int) -> bool {
    y < y2 || (y == y2 && (m < m2 || (m == m2 && d < d2)))
}

/// Day number of March 1 of year `y1`, plus 719468.
pub open spec fn march_start(y1: int) -> int {
    let era = y1 / 400;
    era * 146097 + year_start(y1 - era * 400)
}

/// Days of the March-based year that starts in `y1`.
pub open spec fn march_len(y1: int) -> int {
    if is_leap(y1 + 1) {
        366
    } else {
        365
    }
}

proof fn lemma_days_split(y: int, m: int, d: int)
    requires
        1 <= m <= 12,
    ensures
        civil_days(y, m, d) == march_start(if m <= 2 {
            y - 1
        } else {
            y
        }) + month_start(if m > 2 {
            m - 3
        } else {
            m + 9
        }) + d - 1 - 719468,
{
    let y1 = if m <= 2 {
        y - 1
    } else {
        y
    };
    let t = if y1 >= 0 {
        y1
    } else {
        y1 - 399
    };
    let era = tdiv(t, 400);
    lemma_floor_era(y1, 400, era);
    lemma_div_unique(y1, 400, era);
    let yoe = y1 - era * 400;
    assert(tdiv(yoe, 4) == yoe / 4);
    assert(tdiv(yoe, 100) == yoe / 100);
}

proof fn lemma_march_step(a: int)
    ensures
        march_start(a + 1) == march_start(a) + march_len(a),
{
    let era = a / 400;
    let yoe = a - era * 400;
    assert(0 <= yoe < 400) by (nonlinear_arith)
        requires
            era == a / 400,
            yoe == a - era * 400,
    ;
    if yoe < 399 {
        lemma_div_unique(a + 1, 400, era);
        lemma_year_len_bits(yoe as u32, (yoe + 1) as u32);
        lemma_mod_era(era, yoe + 1);
    } else {
        lemma_div_unique(a + 1, 400, era + 1);
        assert(year_start(399) == 145731);
        lemma_mod_era(era + 1, 0);
    }
}

proof fn lemma_march_mono(a: int, b: int)
    requires
        a <= b,
    ensures
        march_start(a) <= march_start(b),
    decreases b - a,
{
    if a < b {
        lemma_march_step(a);
        lemma_march_mono(a + 1, b);
    }
}

proof fn lemma_doy_in_year(y: int, m: int, d: int)
    requires
        valid_date(y, m, d),
    ensures
        0 <= month_start(if m > 2 {
            m - 3
        } else {
            m + 9
        }) + d - 1 < march_len(if m <= 2 {
            y - 1
        } else {
            y
        }),
{
    let y1 = if m <= 2 {
        y - 1
    } else {
        y
    };
    assert(is_leap(y1 + 1) == (m <= 2 && is_leap(y) || m > 2 && is_leap(y + 1)));
}

/// Day numbers keep the order of calendar dates: an earlier date has a
/// smaller day number.
pub proof fn law_days_keep_date_order(y: int, m: int, d: int, y2: int, m2: int, d2: int)
    requires
        valid_date(y, m, d),
        valid_date(y2, m2, d2),
        date_before(y, m, d, y2, m2, d2),
    ensures
        civil_days(y, m, d) < civil_days(y2, m2, d2),
{
    lemma_days_split(y, m, d);
    lemma_days_split(y2, m2, d2);
    lemma_doy_in_year(y, m, d);
    lemma_doy_in_year(y2, m2, d2);
    let a = if m <= 2 {
        y - 1
    } else {
        y
    };
    let b = if m2 <= 2 {
        y2 - 1
    } else {
        y2
    };
    let mp = if m > 2 {
        m - 3
    } else {
        m + 9
    };
    let mp2 = if m2 > 2 {
        m2 - 3
    } else {
        m2 + 9
    };
    if a < b {
        lemma_march_step(a);
        lemma_march_mono(a + 1, b);
    } else {
        assert(a == b);
        if mp < mp2 {
            lemma_month_back(mp, d);
            assert(month_start(mp + 1) <= month_start(mp2));
        }
    }
}

/// The calendar day after (y, m, d).
pub open spec fn next_day(y: int, m: int, d: int) -> (int, int, int) {
    if d < days_in_month(y, m) {
        (y, m, d + 1)
    } else if m < 12 {
        (y, m + 1, 1)
    } else {
        (y + 1, 1, 1)
    }
}

/// The day after a date has the next day number.
pub proof fn law_next_day_is_plus_one(y: int, m: int, d: int)
    requires
        valid_date(y, m, d),
    ensures
        valid_date(next_day(y, m, d).0, next_day(y, m, d).1, next_day(y, m, d).2),
        civil_days(next_day(y, m, d).0, next_day(y, m, d).1, next_day(y, m, d).2) == civil_days(
            y,
            m,
            d,
        ) + 1,
{
    let (y2, m2, d2) = next_day(y, m, d);
    lemma_days_split(y, m, d);
    lemma_days_split(y2, m2, d2);
    if d < days_in_month(y, m) {
    } else if m < 12 {
        if m == 2 {
            lemma_march_step(y - 1);
            assert(month_start(11) == 337);
            assert(month_start(0) == 0);
        } else if m == 1 {
            assert(month_start(10) == 306);
            assert(month_start(11) == 337);
        } else {
            let mp = m - 3;
            assert(month_start(mp + 1) - month_start(mp) == days_in_month(y, m)) by {
                assert(0 <= mp <= 8);
            }
        }
    } else {
        assert(month_start(9) == 275);
        assert(month_start(10) == 306);
    }
}

// ------------------------------------------------------------------ exec

/// Day number (days since 1970-01-01) of the proleptic Gregorian date
/// (y, m, d); for months outside 1..=12 or days outside the month it follows
/// the same formula.
pub fn days_from_civil(y: i64, m: i64, d: i64) -> (r: i64)
    requires
        civil_fits(y as int, m as int, d as int),
    ensures
        r == civil_days(y as int, m as int, d as int),
{
    let y = if m <= 2 {
        y - 1
    } else {
        y
    };
    let era = if y >= 0 {
        y
    } else {
        y - 399
    } / 400;
    proof {
        lemma_floor_era(y as int, 400, era as int);
    }
    let yoe = y - era * 400;
    let mp = if m > 2 {
        m - 3
    } else {
        m + 9
    };
    let doy = (153 * mp + 2) / 5 + d - 1;
    let doe = yoe * 365 + yoe / 4 - yoe / 100 + doy;
    era * 146097 + doe - 719468
}

/// (year, month, day) of a day number (days since 1970-01-01).
pub fn civil_from_days(z: i64) -> (r: (i64, i64, i64))
    requires
        civil_of_fits(z as int),
    ensures
        (r.0 as int, r.1 as int, r.2 as int) == civil_of(z as int),
{
    let z = z + 719468;
    let era = if z >= 0 {
        z
    } else {
        z - 146096
    } / 146097;
    proof {
        lemma_floor_era(z as int, 146097, era as int);
    }
    let doe = (z - era * 146097) as u64;
    proof {
        lemma_year_of_era(doe as int);
    }
    let yoe = (doe - doe / 1460 + doe / 36524 - doe / 146096) / 365;
    let y = yoe as i64 + era * 400;
    let doy = doe - (365 * yoe + yoe / 4 - yoe / 100);
    proof {
        lemma_month_of_year(doy as int);
    }
    let mp = (5 * doy + 2) / 153;
    let d = doy - (153 * mp + 2) / 5 + 1;
    let m = if mp < 10 {
        mp + 3
    } else {
        mp - 9
    };
    (
        if m <= 2 {
            y + 1
        } else {
            y
        },
        m as i64,
        d as i64,
    )
}

/// The day number of the day that holds second `secs` (counted from
/// 1970-01-01 00:00:00), found by way of its calendar date.
pub fn days_from_civil_from_secs(secs: i64) -> (r: i64)
    ensures
        r == secs as int / 86400,
{
    let q = secs / 86400;
    let rem = secs % 86400;
    let days = if rem < 0 {
        q - 1
    } else {
        q
    };
    assert(days as int == secs as int / 86400) by (nonlinear_arith)
        requires
            q == tdiv(secs as int, 86400),
            rem == secs - q * 86400,
            rem < 0 ==> days == q - 1,
            rem >= 0 ==> days == q,
    ;
    proof {
        lemma_civil_roundtrip(days as int);
        lemma_civil_of_fits(days as int);
    }
    let (y, m, d) = civil_from_days(days);
    days_from_civil(y, m, d)
}

/// Offset of the local time that the tool reports (UTC+8), in seconds.
pub const LOCAL_OFFSET_SECS: i64 = 28800;

/// Local seconds for a Unix time in seconds; Unix times too large for an
/// `i64` after the offset are taken as the largest that fits.
pub open spec fn local_secs_of(unix: nat) -> int {
    let cap = i64::MAX - 28800;
    (if unix <= cap {
        unix as int
    } else {
        cap
    }) + 28800
}

/// The local date and time of a count of local seconds, as
/// `%Y-%m-%d %H:%M:%S`.
pub open spec fn datetime_text(secs: int) -> Seq<char> {
    let days = secs / 86400;
    let rem = secs % 86400;
    let ymd = civil_of(days);
    dec_pad(ymd.0 as nat, 4) + seq!['-'] + dec_pad(ymd.1 as nat, 2) + seq!['-'] + dec_pad(
        ymd.2 as nat,
        2,
    ) + seq![' '] + dec_pad((rem / 3600) as nat, 2) + seq![':'] + dec_pad(
        ((rem % 3600) / 60) as nat,
        2,
    ) + seq![':'] + dec_pad((rem % 60) as nat, 2)
}

/// For a day number on or after 1970-01-01 the date has a year after the
/// epoch, a month in 1..=12 and a day in 1..=31.
pub proof fn lemma_civil_of_ranges(days: int)
    requires
        days >= 0,
    ensures
        civil_of(days).0 >= 1970,
        1 <= civil_of(days).1 <= 12,
        1 <= civil_of(days).2 <= 31,
{
    let z = days + 719468;
    let era = tdiv(z, 146097);
    lemma_floor_era(z, 146097, era);
    assert(era >= 4) by (nonlinear_arith)
        requires
            era * 146097 <= z < era * 146097 + 146097,
            z >= 719468,
    ;
    let doe = z - era * 146097;
    lemma_year_of_era(doe);
    let doy = doe - year_start(yoe_of(doe));
    lemma_month_of_year(doy);
    if era == 4 {
        // 1600-03-01 + doe; day 0 of 1970 is doe 135080 of this era
        assert(doe >= 135080);
        assert(yoe_of(doe) >= 369) by {
            lemma_yoe_monotone(135080, doe);
            assert(yoe_of(135080) == 369);
        }
    }
}

proof fn lemma_yoe_bits_mono(a: u32, b: u32, ya: u32, yb: u32)
    by (bit_vector)
    requires
        a <= b <= 146096,
        ya == (a - a / 1460 + a / 36524 - a / 146096) / 365,
        yb == (b - b / 1460 + b / 36524 - b / 146096) / 365,
    ensures
        ya <= yb,
{
}

proof fn lemma_yoe_monotone(a: int, b: int)
    requires
        0 <= a <= b <= 146096,
    ensures
        yoe_of(a) <= yoe_of(b),
{
    lemma_year_of_era(a);
    lemma_year_of_era(b);
    lemma_yoe_bits_mono(a as u32, b as u32, yoe_of(a) as u32, yoe_of(b) as u32);
}

/// A reading of the system clock.
#[verifier::external_type_specification]
#[verifier::external_body]
pub struct ExSystemTime(std::time::SystemTime);

/// `SystemTime::now()`: the system clock now. Nothing is promised of the
/// value: it is the time.
#[verifier::external_body]
fn system_time_now() -> std::time::SystemTime {
    std::time::SystemTime::now()
}

/// `SystemTime::duration_since(UNIX_EPOCH)`: the time since 1970-01-01
/// 00:00:00 UTC, `None` for a reading before then. Nothing more is stated of
/// the value.
#[verifier::external_body]
fn since_unix_epoch(t: &std::time::SystemTime) -> Option<std::time::Duration> {
    match t.duration_since(std::time::UNIX_EPOCH) {
        Ok(d) => Some(d),
        Err(_) => None,
    }
}

/// `Duration::as_secs`: the whole seconds of a duration. Nothing more is
/// stated: a duration's value is not visible here.
#[verifier::external_body]
fn whole_secs(d: &std::time::Duration) -> u64 {
    d.as_secs()
}

/// The system clock as whole seconds since 1970-01-01 00:00:00 UTC, `None`
/// for a clock set before then.
fn unix_time_now() -> Option<u64> {
    let now = system_time_now();
    match since_unix_epoch(&now) {
        Some(d) => Some(whole_secs(&d)),
        None => None,
    }
}

/// Seconds since 1970-01-01 00:00:00 UTC of a clock reading; 0 for a clock
/// set before then (`None`).
pub fn secs_since_epoch(reading: Option<u64>) -> (r: u64)
    ensures
        r == (match reading {
            Some(s) => s,
            None => 0,
        }),
{
    match reading {
        Some(s) => s,
        None => 0,
    }
}

/// Seconds since 1970-01-01 00:00:00 UTC now; 0 for a clock set before.
fn unix_now_secs() -> u64 {
    secs_since_epoch(unix_time_now())
}

/// Local seconds (UTC+8) of a Unix time.
pub fn local_secs(unix: u64) -> (r: i64)
    ensures
        r == local_secs_of(unix as nat),
{
    let cap: u64 = 9223372036854747007;
    let s: i64 = if unix <= cap {
        unix as i64
    } else {
        cap as i64
    };
    assert(s == (if unix <= cap { unix as int } else { cap as int }));
    assert(i64::MAX - 28800 == 9223372036854747007);
    s + LOCAL_OFFSET_SECS
}

/// The local day number (UTC+8) of a Unix time.
pub fn local_day(unix: u64) -> (r: i64)
    ensures
        r == local_secs_of(unix as nat) / 86400,
{
    days_from_civil_from_secs(local_secs(unix))
}

/// Today's local day number (UTC+8).
pub fn today_days() -> (r: i64)
    ensures
        r >= 0,
        exists|u: nat| u <= u64::MAX && r == #[trigger] local_secs_of(u) / 86400,
{
    let now = unix_now_secs();
    let r = local_day(now);
    assert(r == local_secs_of(now as nat) / 86400);
    r
}

/// The local date and time (UTC+8) of a Unix time, as `%Y-%m-%d %H:%M:%S`.
pub fn format_local_datetime(unix: u64) -> (r: String)
    ensures
        r@ == datetime_text(local_secs_of(unix as nat)),
{
    let secs = local_secs(unix);
    let days = secs / 86400;
    let rem = secs % 86400;
    proof {
        lemma_civil_of_ranges(days as int);
    }
    let (y, mo, d) = civil_from_days(days);
    let mut out = String::new();
    push_dec_pad(&mut out, y as u64, 4);
    out.push('-');
    push_dec_pad(&mut out, mo as u64, 2);
    out.push('-');
    push_dec_pad(&mut out, d as u64, 2);
    out.push(' ');
    push_dec_pad(&mut out, (rem / 3600) as u64, 2);
    out.push(':');
    push_dec_pad(&mut out, ((rem % 3600) / 60) as u64, 2);
    out.push(':');
    push_dec_pad(&mut out, (rem % 60) as u64, 2);
    proof {
        assert(out@ =~= datetime_text(secs as int));
    }
    out
}

/// The local date and time now (UTC+8), as `%Y-%m-%d %H:%M:%S`.
pub fn format_now() -> (r: String)
    ensures
        exists|u: nat| u <= u64::MAX && r@ == datetime_text(#[trigger] local_secs_of(u)),
{
    let now = unix_now_secs();
    let r = format_local_datetime(now);
    assert(r@ == datetime_text(local_secs_of(now as nat)));
    r
}

} // verus!
