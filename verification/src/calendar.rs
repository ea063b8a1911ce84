//! Days and civil dates in the proleptic Gregorian calendar.

use vstd::arithmetic::power::*;
use vstd::prelude::*;
use vstd::string::*;

use crate::clock::unix_time_secs;
use crate::text::to_padded;

verus! {

/// Seconds in a day.
pub const SECONDS_PER_DAY: u64 = 86_400;

/// Days from the first of January of the year zero to the Unix epoch.
pub const DAYS_TO_EPOCH: i64 = 719_528;

/// Whether a year has a twenty-ninth of February.
pub open spec fn is_leap(year: int) -> bool {
    year % 4 == 0 && (year % 100 != 0 || year % 400 == 0)
}

/// Days of the year before the first of `month`.
pub open spec fn days_before_month(year: int, month: int) -> int {
    let leap = if is_leap(year) {
        1int
    } else {
        0int
    };
    if month == 1 {
        0
    } else if month == 2 {
        31
    } else if month == 3 {
        59 + leap
    } else if month == 4 {
        90 + leap
    } else if month == 5 {
        120 + leap
    } else if month == 6 {
        151 + leap
    } else if month == 7 {
        181 + leap
    } else if month == 8 {
        212 + leap
    } else if month == 9 {
        243 + leap
    } else if month == 10 {
        273 + leap
    } else if month == 11 {
        304 + leap
    } else if month == 12 {
        334 + leap
    } else {
        365 + leap
    }
}

/// Days of a month.
pub open spec fn days_in_month(year: int, month: int) -> int {
    days_before_month(year, month + 1) - days_before_month(year, month)
}

/// Days from the first of January of the year zero to that of `year`: one more
/// every fourth year, but not every hundredth unless it is every four-hundredth.
pub open spec fn days_before_year(year: int) -> int {
    365 * year + (year + 3) / 4 - (year + 99) / 100 + (year + 399) / 400
}

/// Whether there is such a date.
pub open spec fn is_date(year: int, month: int, day: int) -> bool {
    1 <= month <= 12 && 1 <= day <= days_in_month(year, month)
}

/// Days from the Unix epoch to a date.
pub open spec fn epoch_day(year: int, month: int, day: int) -> int {
    days_before_year(year) + days_before_month(year, month) + day - 1 - DAYS_TO_EPOCH
}

/// Days of an era before its year number `k`, where years start in March.
pub open spec fn era_days(k: int) -> int {
    365 * k + k / 4 - k / 100 + k / 400
}

/// The year of an era in which one of its days lies.
proof fn lemma_year_of_era(day: int, year: int)
    requires
        0 <= day < 146_097,
        year == (day - day / 1_460 + day / 36_524 - day / 146_096) / 365,
    ensures
        0 <= year < 400,
        era_days(year) <= day < era_days(year + 1),
{
    if day == 146_096 {
        assert(year == 399);
    } else {
        let century = day / 36_524;
        assert(0 <= century < 4);
        let rest = day - 36_524 * century;
        let fours = (24 * century + rest) / 1_460;
        assert(day / 1_460 == 25 * century + fours);
        let within = (rest - fours) / 365;
        assert(year == 100 * century + within);
        lemma_year_of_century(century, rest, fours, within);
        assert((100 * century + within) / 100 == century);
        assert((100 * century + within) / 4 == 25 * century + within / 4);
        assert((100 * century + within) / 400 == 0);
        assert((100 * century + within + 1) / 4 == 25 * century + (within + 1) / 4);
        if within == 99 {
            assert(year + 1 == 100 * (century + 1));
            if century == 3 {
                assert(era_days(400) == 146_097);
            } else {
                assert((year + 1) / 400 == 0);
                assert((year + 1) / 100 == century + 1);
            }
        } else {
            assert((year + 1) / 100 == century);
            assert((year + 1) / 400 == 0);
        }
    }
}

/// The year of a century in which one of its days lies.
proof fn lemma_year_of_century(century: int, rest: int, fours: int, within: int)
    requires
        0 <= century < 4,
        0 <= rest < 36_524,
        fours == (24 * century + rest) / 1_460,
        within == (rest - fours) / 365,
    ensures
        0 <= within < 100,
        365 * within + within / 4 <= rest,
        rest < 365 * (within + 1) + (within + 1) / 4,
{
    assert(0 <= fours <= 25);
    let cycle = rest / 1_461;
    let in_cycle = rest % 1_461;
    assert(rest == 1_461 * cycle + in_cycle);
    assert(0 <= cycle <= 24);
    assert(fours == cycle || fours == cycle + 1);
}

/// Whether a year is a multiple of another number shows in the quotients around it.
proof fn lemma_quotients(year: int)
    ensures
        (year + 1) / 4 == year / 4 + if (year + 1) % 4 == 0 {
            1int
        } else {
            0int
        },
        (year + 1) / 100 == year / 100 + if (year + 1) % 100 == 0 {
            1int
        } else {
            0int
        },
        (year + 1) / 400 == year / 400 + if (year + 1) % 400 == 0 {
            1int
        } else {
            0int
        },
        (year + 4) / 4 == year / 4 + 1,
        (year + 100) / 100 == year / 100 + 1,
        (year + 400) / 400 == year / 400 + 1,
{
}

/// Whether a year is a multiple of another number shows in the quotients that count
/// leap days.
proof fn lemma_rounded_quotients(year: int)
    ensures
        (year + 3) / 4 == year / 4 + if year % 4 == 0 {
            0int
        } else {
            1int
        },
        (year + 99) / 100 == year / 100 + if year % 100 == 0 {
            0int
        } else {
            1int
        },
        (year + 399) / 400 == year / 400 + if year % 400 == 0 {
            0int
        } else {
            1int
        },
{
}

/// A multiple of a hundred is one of four, and a multiple of four hundred one of a
/// hundred.
proof fn lemma_multiples(year: int)
    ensures
        year % 100 == 0 ==> year % 4 == 0,
        year % 400 == 0 ==> year % 100 == 0,
{
}

/// The first of March of a year, counted from the first of January of the year
/// zero.
proof fn lemma_first_of_march(year: int)
    ensures
        days_before_year(year) + days_before_month(year, 3) == 60 + era_days(year),
        days_before_year(year + 1) == 366 + era_days(year),
        era_days(year + 1) - era_days(year) == if is_leap(year + 1) {
            366int
        } else {
            365int
        },
{
    lemma_quotients(year);
    lemma_rounded_quotients(year);
    lemma_multiples(year);
    lemma_multiples(year + 1);
}

/// The calendar repeats from era to era.
proof fn lemma_eras_repeat(era: int, year_of_era: int)
    requires
        0 <= year_of_era < 400,
    ensures
        era_days(year_of_era + 400 * era) == era_days(year_of_era) + 146_097 * era,
{
    assert((year_of_era + 400 * era) / 4 == year_of_era / 4 + 100 * era);
    assert((year_of_era + 400 * era) / 100 == year_of_era / 100 + 4 * era);
    assert((year_of_era + 400 * era) / 400 == era);
}

/// Months of a year that starts in March: the date of one of its days.
proof fn lemma_month_of_year(year: int, day_of_year: int, part: int, day: int, month: int)
    requires
        0 <= day_of_year < if is_leap(year + 1) {
            366int
        } else {
            365int
        },
        part == (5 * day_of_year + 2) / 153,
        day == day_of_year - (153 * part + 2) / 5 + 1,
        month == if part < 10 {
            part + 3
        } else {
            part - 9
        },
    ensures
        0 <= part <= 11,
        ({
            let civil = if month <= 2 {
                year + 1
            } else {
                year
            };
            &&& is_date(civil, month, day)
            &&& days_before_year(civil) + days_before_month(civil, month) + day - 1 == 60
                + era_days(year) + day_of_year
        }),
{
    lemma_first_of_march(year);
    assert(0 <= part <= 11);
    if part == 0 {
    } else if part == 1 {
    } else if part == 2 {
    } else if part == 3 {
    } else if part == 4 {
    } else if part == 5 {
    } else if part == 6 {
    } else if part == 7 {
    } else if part == 8 {
    } else if part == 9 {
    } else if part == 10 {
    } else {
        assert(part == 11);
    }
}

/// The date that is `days_since_epoch` days after the Unix epoch.
///
/// The calendar repeats every 400 years (an era), and a year that starts in March
/// has its leap day at the end, which makes the months fall into a regular
/// pattern.
pub fn civil_date_from_days(days_since_epoch: i64) -> (date: (i64, i64, i64))
    requires
        days_since_epoch <= i64::MAX - 719_468,
    ensures
        is_date(date.0 as int, date.1 as int, date.2 as int),
        epoch_day(date.0 as int, date.1 as int, date.2 as int) == days_since_epoch,
{
    let shifted_days: i64 = days_since_epoch + 719_468;
    let era: i64 = if shifted_days >= 0 {
        shifted_days / 146_097
    } else {
        -((146_096 - shifted_days) / 146_097)
    };
    assert(0 <= shifted_days - era * 146_097 < 146_097);
    let day_of_era: i64 = shifted_days - era * 146_097;
    let year_of_era: i64 = (day_of_era - day_of_era / 1_460 + day_of_era / 36_524 - day_of_era
        / 146_096) / 365;
    proof {
        lemma_year_of_era(day_of_era as int, year_of_era as int);
        lemma_eras_repeat(era as int, year_of_era as int);
    }
    let march_year: i64 = year_of_era + era * 400;
    let day_of_year: i64 = day_of_era - (365 * year_of_era + year_of_era / 4 - year_of_era / 100);
    let month_part: i64 = (5 * day_of_year + 2) / 153;
    let day: i64 = day_of_year - (153 * month_part + 2) / 5 + 1;
    let month: i64 = if month_part < 10 {
        month_part + 3
    } else {
        month_part - 9
    };
    proof {
        assert(year_of_era as int / 400 == 0);
        lemma_first_of_march(march_year as int);
        lemma_next_year(era as int, year_of_era as int);
        lemma_month_of_year(
            march_year as int,
            day_of_year as int,
            month_part as int,
            day as int,
            month as int,
        );
    }
    let year: i64 = if month <= 2 {
        march_year + 1
    } else {
        march_year
    };
    (year, month, day)
}

/// The length of a year does not depend on its era.
proof fn lemma_next_year(era: int, year_of_era: int)
    requires
        0 <= year_of_era < 400,
    ensures
        era_days(year_of_era + 400 * era + 1) - era_days(year_of_era + 400 * era) == era_days(
            year_of_era + 1,
        ) - era_days(year_of_era),
{
    let year = year_of_era + 400 * era;
    assert((year + 1) / 4 == (year_of_era + 1) / 4 + 100 * era);
    assert((year + 1) / 100 == (year_of_era + 1) / 100 + 4 * era);
    assert((year + 1) / 400 == (year_of_era + 1) / 400 + era);
    lemma_eras_repeat(era, year_of_era);
}

/// Later years start later.
proof fn lemma_years_ascend(a: int, b: int)
    requires
        a < b,
    ensures
        days_before_year(a + 1) <= days_before_year(b),
{
    let n = b - a - 1;
    assert((b + 99) / 100 - (a + 1 + 99) / 100 <= n);
    assert((b + 3) / 4 >= (a + 1 + 3) / 4);
    assert((b + 399) / 400 >= (a + 1 + 399) / 400);
}

/// The days of a date's year up to it.
proof fn lemma_within_year(year: int, month: int, day: int)
    requires
        is_date(year, month, day),
    ensures
        0 <= days_before_month(year, month) + day - 1,
        days_before_year(year) + days_before_month(year, month) + day - 1 < days_before_year(
            year + 1,
        ),
{
    lemma_first_of_march(year);
    assert(days_before_month(year, 13) == if is_leap(year) {
        366int
    } else {
        365int
    });
    assert(days_before_month(year, month + 1) <= days_before_month(year, 13));
    assert(days_before_month(year, 3) == if is_leap(year) {
        60int
    } else {
        59int
    });
}

/// Whether one date comes before another.
pub open spec fn date_before(a: (int, int, int), b: (int, int, int)) -> bool {
    a.0 < b.0 || (a.0 == b.0 && (a.1 < b.1 || (a.1 == b.1 && a.2 < b.2)))
}

/// Days count dates in order: an earlier date has a smaller number, so no two dates
/// share one.
pub proof fn law_days_count_dates(a: (int, int, int), b: (int, int, int))
    requires
        is_date(a.0, a.1, a.2),
        is_date(b.0, b.1, b.2),
    ensures
        date_before(a, b) <==> epoch_day(a.0, a.1, a.2) < epoch_day(b.0, b.1, b.2),
        a == b <==> epoch_day(a.0, a.1, a.2) == epoch_day(b.0, b.1, b.2),
{
    lemma_within_year(a.0, a.1, a.2);
    lemma_within_year(b.0, b.1, b.2);
    if a.0 < b.0 {
        lemma_years_ascend(a.0, b.0);
    } else if b.0 < a.0 {
        lemma_years_ascend(b.0, a.0);
    } else if a.1 < b.1 {
        assert(days_before_month(a.0, a.1 + 1) <= days_before_month(a.0, b.1));
    } else if b.1 < a.1 {
        assert(days_before_month(a.0, b.1 + 1) <= days_before_month(a.0, a.1));
    }
}

/// A date as text: four digits or more for the year, and two each for month and
/// day.
pub open spec fn date_text(year: int, month: int, day: int) -> Seq<char> {
    crate::text::padded(year as nat, 4) + "-"@ + crate::text::padded(month as nat, 2) + "-"@
        + crate::text::padded(day as nat, 2)
}

/// Whether `text` is the date of a moment, given in seconds since the Unix epoch.
pub open spec fn is_date_of(text: Seq<char>, secs: u64) -> bool {
    exists|year: int, month: int, day: int|
        {
            &&& is_date(year, month, day)
            &&& #[trigger] epoch_day(year, month, day) == secs as int / 86_400
            &&& year >= 0
            &&& text == date_text(year, month, day)
        }
}

/// The date of a moment, given in seconds since the Unix epoch.
pub fn utc_date_at(secs: u64) -> (text: String)
    ensures
        is_date_of(text@, secs),
{
    let days: u64 = secs / SECONDS_PER_DAY;
    let (year, month, day) = civil_date_from_days(days as i64);
    proof {
        if year < 1970 {
            lemma_within_year(year as int, month as int, day as int);
            lemma_years_ascend(year as int, 1970);
            assert(days_before_year(1970) == DAYS_TO_EPOCH);
        }
    }
    let mut text = to_padded(year as u64, 4);
    text.append("-");
    text.append(to_padded(month as u64, 2).as_str());
    text.append("-");
    text.append(to_padded(day as u64, 2).as_str());
    assert(text@ == date_text(year as int, month as int, day as int));
    assert(epoch_day(year as int, month as int, day as int) == secs as int / 86_400);
    text
}

/// Today's date.
pub fn utc_date() -> (text: String)
    ensures
        exists|secs: u64| #[trigger] is_date_of(text@, secs),
{
    let secs: u64 = unix_time_secs();
    utc_date_at(secs)
}

proof fn lemma_power_values()
    ensures
        pow(10, 2) == 100,
        pow(10, 4) == 10_000,
{
    reveal(pow);
    assert(pow(10, 0) == 1);
    assert(pow(10, 1) == 10);
    assert(pow(10, 2) == 100);
    assert(pow(10, 3) == 1_000);
    assert(pow(10, 4) == 10_000);
}

/// Up to the year 9999 dates sort as text the way they follow each other in time.
pub proof fn law_date_text_sorts_by_time(a: (int, int, int), b: (int, int, int))
    requires
        is_date(a.0, a.1, a.2),
        is_date(b.0, b.1, b.2),
        0 <= a.0 <= 9_999,
        0 <= b.0 <= 9_999,
    ensures
        crate::text::text_less(date_text(a.0, a.1, a.2), date_text(b.0, b.1, b.2)) <==> epoch_day(
            a.0,
            a.1,
            a.2,
        ) < epoch_day(b.0, b.1, b.2),
{
    lemma_power_values();
    law_days_count_dates(a, b);
    reveal_strlit("-");
    let ya = crate::text::padded(a.0 as nat, 4);
    let yb = crate::text::padded(b.0 as nat, 4);
    let ma = crate::text::padded(a.1 as nat, 2);
    let mb = crate::text::padded(b.1 as nat, 2);
    let da = crate::text::padded(a.2 as nat, 2);
    let db = crate::text::padded(b.2 as nat, 2);
    assert(a.2 < 100 && b.2 < 100);
    crate::text::lemma_padded_order(a.0 as nat, b.0 as nat, 4);
    crate::text::lemma_padded_order(a.1 as nat, b.1 as nat, 2);
    crate::text::lemma_padded_order(a.2 as nat, b.2 as nat, 2);
    let tail_a = "-"@ + da;
    let tail_b = "-"@ + db;
    let rest_a = "-"@ + (ma + tail_a);
    let rest_b = "-"@ + (mb + tail_b);
    assert(date_text(a.0, a.1, a.2) =~= ya + rest_a);
    assert(date_text(b.0, b.1, b.2) =~= yb + rest_b);
    crate::text::lemma_text_less_concat(ya, yb, rest_a, rest_b);
    crate::text::lemma_text_less_concat("-"@, "-"@, ma + tail_a, mb + tail_b);
    crate::text::lemma_text_less_concat(ma, mb, tail_a, tail_b);
    crate::text::lemma_text_less_concat("-"@, "-"@, da, db);
    crate::text::lemma_text_less_total("-"@, "-"@);
    crate::text::lemma_text_less_total(ya, yb);
    crate::text::lemma_text_less_total(ma, mb);
}

proof fn lemma_year_length(year: int)
    ensures
        days_before_year(year + 1) == days_before_year(year) + days_before_month(year, 13),
{
    lemma_first_of_march(year);
}

proof fn lemma_month_length(year: int, month: int)
    requires
        1 <= month <= 12,
    ensures
        month == 2 ==> days_in_month(year, month) == if year % 400 == 0 || (year % 4 == 0 && year
            % 100 != 0) {
            29int
        } else {
            28int
        },
        month == 4 || month == 6 || month == 9 || month == 11 ==> days_in_month(year, month) == 30,
        month == 1 || month == 3 || month == 5 || month == 7 || month == 8 || month == 10 || month
            == 12 ==> days_in_month(year, month) == 31,
{
    assert(year % 400 == 0 ==> year % 4 == 0);
}

/// Each day is followed by the next of its month, the last of a month by the first of the
/// next one, and the last of December by New Year's Day. February has twenty-eight days,
/// and one more in every fourth year but the hundredth ones that no four hundred divides;
/// April, June, September and November have thirty, all others thirty-one.
pub proof fn law_days_follow_each_other(day: i64, date: (i64, i64, i64), next: (i64, i64, i64))
    requires
        day < i64::MAX - 719_468,
        call_ensures(civil_date_from_days, (day,), date),
        call_ensures(civil_date_from_days, ((day + 1) as i64,), next),
    ensures
        ({
            let (y, m, d) = date;
            let last: int = if m == 2 {
                if y % 400 == 0 || (y % 4 == 0 && y % 100 != 0) {
                    29
                } else {
                    28
                }
            } else if m == 4 || m == 6 || m == 9 || m == 11 {
                30
            } else {
                31
            };
            &&& 1 <= m <= 12
            &&& 1 <= d <= last
            &&& d < last ==> next.0 == y && next.1 == m && next.2 == d + 1
            &&& d == last && m < 12 ==> next.0 == y && next.1 == m + 1 && next.2 == 1
            &&& d == last && m == 12 ==> next.0 == y + 1 && next.1 == 1 && next.2 == 1
        }),
{
    let y = date.0 as int;
    let m = date.1 as int;
    let d = date.2 as int;
    let found = (next.0 as int, next.1 as int, next.2 as int);
    lemma_month_length(y, m);
    if d < days_in_month(y, m) {
        law_days_count_dates((y, m, d + 1), found);
    } else if m < 12 {
        law_days_count_dates((y, m + 1, 1), found);
    } else {
        lemma_year_length(y);
        law_days_count_dates((y + 1, 1, 1), found);
    }
}

/// Days are counted from the first of January 1970.
pub proof fn law_epoch_is_new_year_1970(date: (i64, i64, i64))
    requires
        call_ensures(civil_date_from_days, (0i64,), date),
    ensures
        date == (1970i64, 1i64, 1i64),
{
    law_days_count_dates((1970, 1, 1), (date.0 as int, date.1 as int, date.2 as int));
}

/// The date of a moment is that of its day, which has 86400 seconds: the year in four
/// digits at least, month and day in two, and dashes between them.
pub proof fn law_moments_have_the_date_of_their_day(
    secs: u64,
    date: (i64, i64, i64),
    year: String,
    month: String,
    day: String,
    text: String,
)
    requires
        call_ensures(civil_date_from_days, ((secs / 86_400) as i64,), date),
        call_ensures(to_padded, (date.0 as u64, 4), year),
        call_ensures(to_padded, (date.1 as u64, 2), month),
        call_ensures(to_padded, (date.2 as u64, 2), day),
        call_ensures(utc_date_at, (secs,), text),
    ensures
        text@ == year@ + seq!['-'] + month@ + seq!['-'] + day@,
{
    reveal_strlit("-");
    assert("-"@ =~= seq!['-']);
    let (y, m, d) = choose|year: int, month: int, day: int|
        {
            &&& is_date(year, month, day)
            &&& #[trigger] epoch_day(year, month, day) == secs as int / 86_400
            &&& year >= 0
            &&& text@ == date_text(year, month, day)
        };
    law_days_count_dates((y, m, d), (date.0 as int, date.1 as int, date.2 as int));
    assert(date.0 as u64 == y);
}

} // verus!
