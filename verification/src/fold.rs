//! The daily fold: every sample that waits in a vehicle's record is added
//! to the total of its day, of its month and of its year. A total that
//! would not fit in 128 bits stops the fold.

use vstd::prelude::*;
use crate::codec::Persist;
use crate::telemetry::{
    AccumulatedTelemetryMonthy, AccumulatedTelemetryYearly, DayTotal, MonthView, Sample,
    TelemetryType, YearView,
};

verus! {

// ------------------------------------------------------------ the sums

/// The sum of the totals of a list of days.
pub open spec fn sum_days(days: Seq<DayTotal>) -> int
    decreases days.len(),
{
    if days.len() == 0 {
        0
    } else {
        sum_days(days.drop_last()) + days.last().value
    }
}

/// The sum of the totals of a list of months.
pub open spec fn sum_months(months: Seq<MonthView>) -> int
    decreases months.len(),
{
    if months.len() == 0 {
        0
    } else {
        sum_months(months.drop_last()) + months.last().value
    }
}

/// The sum of the totals of all days of a list of months.
pub open spec fn sum_all_days(months: Seq<MonthView>) -> int
    decreases months.len(),
{
    if months.len() == 0 {
        0
    } else {
        sum_all_days(months.drop_last()) + sum_days(months.last().daily)
    }
}

/// That the total of a month is the sum of its days.
pub open spec fn month_adds_up(m: MonthView) -> bool {
    m.value == sum_days(m.daily)
}

/// That the total of a year is the sum of its months, and the total of
/// each of its months the sum of that month's days.
pub open spec fn year_adds_up(y: YearView) -> bool {
    &&& y.value == sum_months(y.monthly)
    &&& forall|j: int| 0 <= j < y.monthly.len() ==> month_adds_up(#[trigger] y.monthly[j])
}

/// That every total is the sum of the totals below it.
pub open spec fn adds_up(years: Seq<YearView>) -> bool {
    forall|i: int| 0 <= i < years.len() ==> year_adds_up(#[trigger] years[i])
}

/// Replacing the total of one day changes the sum by the difference.
pub proof fn lemma_sum_days_update(days: Seq<DayTotal>, i: int, d: DayTotal)
    requires
        0 <= i < days.len(),
    ensures
        sum_days(days.update(i, d)) == sum_days(days) - days[i].value + d.value,
    decreases days.len(),
{
    let after = days.update(i, d);
    if i == days.len() - 1 {
        assert(after.drop_last() =~= days.drop_last());
    } else {
        lemma_sum_days_update(days.drop_last(), i, d);
        assert(after.drop_last() =~= days.drop_last().update(i, d));
    }
}

/// A day put behind the others adds its total to the sum.
pub proof fn lemma_sum_days_push(days: Seq<DayTotal>, d: DayTotal)
    ensures
        sum_days(days.push(d)) == sum_days(days) + d.value,
{
    assert(days.push(d).drop_last() =~= days);
}

/// Replacing the total of one month changes the sum by the difference.
pub proof fn lemma_sum_months_update(months: Seq<MonthView>, i: int, m: MonthView)
    requires
        0 <= i < months.len(),
    ensures
        sum_months(months.update(i, m)) == sum_months(months) - months[i].value + m.value,
    decreases months.len(),
{
    let after = months.update(i, m);
    if i == months.len() - 1 {
        assert(after.drop_last() =~= months.drop_last());
    } else {
        lemma_sum_months_update(months.drop_last(), i, m);
        assert(after.drop_last() =~= months.drop_last().update(i, m));
    }
}

/// A month put behind the others adds its total to the sum.
pub proof fn lemma_sum_months_push(months: Seq<MonthView>, m: MonthView)
    ensures
        sum_months(months.push(m)) == sum_months(months) + m.value,
{
    assert(months.push(m).drop_last() =~= months);
}

/// Where every month is the sum of its days, the sum of the months is the
/// sum of all their days.
pub proof fn lemma_months_are_days(months: Seq<MonthView>)
    requires
        forall|j: int| 0 <= j < months.len() ==> month_adds_up(#[trigger] months[j]),
    ensures
        sum_months(months) == sum_all_days(months),
    decreases months.len(),
{
    if months.len() > 0 {
        let front = months.drop_last();
        assert forall|j: int| 0 <= j < front.len() implies month_adds_up(#[trigger] front[j]) by {
            assert(front[j] == months[j]);
        }
        lemma_months_are_days(front);
        assert(month_adds_up(months[months.len() - 1]));
    }
}

// ------------------------------------------------------- finding entries

/// That `i` is the place of the first entry for `day`.
pub open spec fn is_first_day(days: Seq<DayTotal>, i: int, day: u8) -> bool {
    &&& 0 <= i < days.len()
    &&& days[i].day == day
    &&& forall|j: int| 0 <= j < i ==> (#[trigger] days[j]).day != day
}

/// The place of the first entry for `day`, if there is one.
pub open spec fn first_day(days: Seq<DayTotal>, day: u8) -> Option<int> {
    if exists|i: int| is_first_day(days, i, day) {
        Some(choose|i: int| is_first_day(days, i, day))
    } else {
        None
    }
}

/// That `i` is the place of the first entry for `month`.
pub open spec fn is_first_month(months: Seq<MonthView>, i: int, month: u8) -> bool {
    &&& 0 <= i < months.len()
    &&& months[i].month == month
    &&& forall|j: int| 0 <= j < i ==> (#[trigger] months[j]).month != month
}

/// The place of the first entry for `month`, if there is one.
pub open spec fn first_month(months: Seq<MonthView>, month: u8) -> Option<int> {
    if exists|i: int| is_first_month(months, i, month) {
        Some(choose|i: int| is_first_month(months, i, month))
    } else {
        None
    }
}

/// That `i` is the place of the first entry for `year` of one kind.
pub open spec fn is_first_year(years: Seq<YearView>, i: int, t_type: TelemetryType, year: i32) -> bool {
    &&& 0 <= i < years.len()
    &&& years[i].t_type == t_type && years[i].year == year
    &&& forall|j: int|
        0 <= j < i ==> !((#[trigger] years[j]).t_type == t_type && years[j].year == year)
}

/// The place of the first entry for `year` of one kind, if there is one.
pub open spec fn first_year(years: Seq<YearView>, t_type: TelemetryType, year: i32) -> Option<int> {
    if exists|i: int| is_first_year(years, i, t_type, year) {
        Some(choose|i: int| is_first_year(years, i, t_type, year))
    } else {
        None
    }
}

// -------------------------------------------------------------- the fold

/// The days after `value` was added to the total of `day`.
pub open spec fn add_day(days: Seq<DayTotal>, day: u8, value: u128) -> Option<Seq<DayTotal>> {
    match first_day(days, day) {
        Some(i) => if days[i].value + value > u128::MAX {
            None
        } else {
            Some(days.update(i, DayTotal { day, value: (days[i].value + value) as u128 }))
        },
        None => Some(days.push(DayTotal { day, value })),
    }
}

/// The months after a sample was added to its month and day.
pub open spec fn add_month(months: Seq<MonthView>, x: Sample) -> Option<Seq<MonthView>> {
    match first_month(months, x.month) {
        Some(i) => match add_day(months[i].daily, x.day, x.value) {
            Some(daily) => if months[i].value + x.value > u128::MAX {
                None
            } else {
                Some(
                    months.update(
                        i,
                        MonthView {
                            month: x.month,
                            value: (months[i].value + x.value) as u128,
                            daily,
                        },
                    ),
                )
            },
            None => None,
        },
        None => Some(
            months.push(
                MonthView {
                    month: x.month,
                    value: x.value,
                    daily: seq![DayTotal { day: x.day, value: x.value }],
                },
            ),
        ),
    }
}

/// The totals after a sample was added to its year, month and day, or
/// `None` where a total would not fit.
pub open spec fn add_sample(years: Seq<YearView>, x: Sample) -> Option<Seq<YearView>> {
    match first_year(years, x.t_type, x.year) {
        Some(i) => match add_month(years[i].monthly, x) {
            Some(monthly) => if years[i].value + x.value > u128::MAX {
                None
            } else {
                Some(
                    years.update(
                        i,
                        YearView {
                            t_type: x.t_type,
                            year: x.year,
                            value: (years[i].value + x.value) as u128,
                            monthly,
                        },
                    ),
                )
            },
            None => None,
        },
        None => Some(
            years.push(
                YearView {
                    t_type: x.t_type,
                    year: x.year,
                    value: x.value,
                    monthly: seq![
                        MonthView {
                            month: x.month,
                            value: x.value,
                            daily: seq![DayTotal { day: x.day, value: x.value }],
                        },
                    ],
                },
            ),
        ),
    }
}

/// The totals after all samples were added, in the order they came in.
pub open spec fn fold_samples(years: Seq<YearView>, samples: Seq<Sample>) -> Option<Seq<YearView>>
    decreases samples.len(),
{
    if samples.len() == 0 {
        Some(years)
    } else {
        match add_sample(years, samples[0]) {
            Some(next) => fold_samples(next, samples.drop_first()),
            None => None,
        }
    }
}

// --------------------------------------------------------------- the law

/// Adding to a day keeps a month's total the sum of its days, given that
/// the month's total grows by as much.
pub proof fn lemma_add_day_sum(days: Seq<DayTotal>, day: u8, value: u128)
    requires
        add_day(days, day, value) is Some,
    ensures
        sum_days(add_day(days, day, value)->0) == sum_days(days) + value,
{
    match first_day(days, day) {
        Some(i) => {
            lemma_sum_days_update(days, i, DayTotal { day, value: (days[i].value + value) as u128 });
        },
        None => {
            lemma_sum_days_push(days, DayTotal { day, value });
        },
    }
}

/// Adding a sample to the months of a year adds its value to their sum and
/// keeps every month the sum of its days.
pub proof fn lemma_add_month_sum(months: Seq<MonthView>, x: Sample)
    requires
        add_month(months, x) is Some,
        forall|j: int| 0 <= j < months.len() ==> month_adds_up(#[trigger] months[j]),
    ensures
        sum_months(add_month(months, x)->0) == sum_months(months) + x.value,
        forall|j: int|
            0 <= j < add_month(months, x)->0.len() ==> month_adds_up(
                #[trigger] add_month(months, x)->0[j],
            ),
{
    let after = add_month(months, x)->0;
    match first_month(months, x.month) {
        Some(i) => {
            let daily = add_day(months[i].daily, x.day, x.value)->0;
            let m = MonthView {
                month: x.month,
                value: (months[i].value + x.value) as u128,
                daily,
            };
            lemma_add_day_sum(months[i].daily, x.day, x.value);
            lemma_sum_months_update(months, i, m);
            assert(month_adds_up(months[i]));
            assert forall|j: int| 0 <= j < after.len() implies month_adds_up(#[trigger] after[j]) by {
                if j != i {
                    assert(after[j] == months[j]);
                }
            }
        },
        None => {
            let d = DayTotal { day: x.day, value: x.value };
            let m = MonthView { month: x.month, value: x.value, daily: seq![d] };
            lemma_sum_months_push(months, m);
            lemma_sum_days_push(Seq::<DayTotal>::empty(), d);
            assert(Seq::<DayTotal>::empty().push(d) =~= seq![d]);
            assert(sum_days(seq![d]) == x.value);
            assert forall|j: int| 0 <= j < after.len() implies month_adds_up(#[trigger] after[j]) by {
                if j < months.len() {
                    assert(after[j] == months[j]);
                }
            }
        },
    }
}

/// Adding a sample keeps every total the sum of the totals below it.
pub proof fn law_sample_keeps_sums(years: Seq<YearView>, x: Sample)
    requires
        adds_up(years),
        add_sample(years, x) is Some,
    ensures
        adds_up(add_sample(years, x)->0),
{
    let after = add_sample(years, x)->0;
    match first_year(years, x.t_type, x.year) {
        Some(i) => {
            assert(year_adds_up(years[i]));
            lemma_add_month_sum(years[i].monthly, x);
            assert forall|k: int| 0 <= k < after.len() implies year_adds_up(#[trigger] after[k]) by {
                if k != i {
                    assert(after[k] == years[k]);
                }
            }
        },
        None => {
            let d = DayTotal { day: x.day, value: x.value };
            let m = MonthView { month: x.month, value: x.value, daily: seq![d] };
            lemma_sum_days_push(Seq::<DayTotal>::empty(), d);
            assert(Seq::<DayTotal>::empty().push(d) =~= seq![d]);
            assert(sum_days(seq![d]) == x.value);
            lemma_sum_months_push(Seq::<MonthView>::empty(), m);
            assert(Seq::<MonthView>::empty().push(m) =~= seq![m]);
            assert(sum_months(seq![m]) == x.value);
            assert forall|k: int| 0 <= k < after.len() implies year_adds_up(#[trigger] after[k]) by {
                if k < years.len() {
                    assert(after[k] == years[k]);
                }
            }
        },
    }
}

/// The fold keeps every total the sum of the totals below it: for every
/// kind and year, the year's total is the sum of its months' totals, and
/// that is the sum of all their days' totals.
pub proof fn law_fold_keeps_sums(years: Seq<YearView>, samples: Seq<Sample>)
    requires
        adds_up(years),
        fold_samples(years, samples) is Some,
    ensures
        adds_up(fold_samples(years, samples)->0),
        forall|i: int|
            0 <= i < fold_samples(years, samples)->0.len() ==> (#[trigger] fold_samples(
                years,
                samples,
            )->0[i]).value == sum_all_days(fold_samples(years, samples)->0[i].monthly),
    decreases samples.len(),
{
    if samples.len() > 0 {
        law_sample_keeps_sums(years, samples[0]);
        law_fold_keeps_sums(add_sample(years, samples[0])->0, samples.drop_first());
    } else {
        assert forall|i: int| 0 <= i < years.len() implies (#[trigger] years[i]).value
            == sum_all_days(years[i].monthly) by {
            assert(year_adds_up(years[i]));
            lemma_months_are_days(years[i].monthly);
        }
    }
}

// ---------------------------------------------------- one entry for each

/// That no two entries are for the same day.
pub open spec fn days_distinct(days: Seq<DayTotal>) -> bool {
    forall|i: int, j: int|
        0 <= i < j < days.len() ==> (#[trigger] days[i]).day != (#[trigger] days[j]).day
}

/// That no two entries are for the same month, and in none of them two for
/// the same day.
pub open spec fn months_distinct(months: Seq<MonthView>) -> bool {
    &&& forall|i: int, j: int|
        0 <= i < j < months.len() ==> (#[trigger] months[i]).month != (#[trigger] months[j]).month
    &&& forall|i: int| 0 <= i < months.len() ==> days_distinct((#[trigger] months[i]).daily)
}

/// That the totals hold one entry for each kind and year, in it one for
/// each month, and in that one for each day: the lists are maps.
pub open spec fn years_distinct(years: Seq<YearView>) -> bool {
    &&& forall|i: int, j: int|
        0 <= i < j < years.len() ==> !((#[trigger] years[i]).t_type == (#[trigger] years[j]).t_type
            && years[i].year == years[j].year)
    &&& forall|i: int| 0 <= i < years.len() ==> months_distinct((#[trigger] years[i]).monthly)
}

/// Where some entry is for the day, there is a first one.
pub proof fn lemma_day_found(days: Seq<DayTotal>, day: u8, j: int)
    requires
        0 <= j < days.len(),
        days[j].day == day,
    ensures
        first_day(days, day) is Some,
    decreases j,
{
    if exists|k: int| 0 <= k < j && (#[trigger] days[k]).day == day {
        let k = choose|k: int| 0 <= k < j && (#[trigger] days[k]).day == day;
        lemma_day_found(days, day, k);
    } else {
        assert(is_first_day(days, j, day));
    }
}

/// Where some entry is for the month, there is a first one.
pub proof fn lemma_month_found(months: Seq<MonthView>, month: u8, j: int)
    requires
        0 <= j < months.len(),
        months[j].month == month,
    ensures
        first_month(months, month) is Some,
    decreases j,
{
    if exists|k: int| 0 <= k < j && (#[trigger] months[k]).month == month {
        let k = choose|k: int| 0 <= k < j && (#[trigger] months[k]).month == month;
        lemma_month_found(months, month, k);
    } else {
        assert(is_first_month(months, j, month));
    }
}

/// Where some entry is for the kind and year, there is a first one.
pub proof fn lemma_year_found(years: Seq<YearView>, t_type: TelemetryType, year: i32, j: int)
    requires
        0 <= j < years.len(),
        years[j].t_type == t_type && years[j].year == year,
    ensures
        first_year(years, t_type, year) is Some,
    decreases j,
{
    if exists|k: int|
        0 <= k < j && (#[trigger] years[k]).t_type == t_type && years[k].year == year {
        let k = choose|k: int|
            0 <= k < j && (#[trigger] years[k]).t_type == t_type && years[k].year == year;
        lemma_year_found(years, t_type, year, k);
    } else {
        assert(is_first_year(years, j, t_type, year));
    }
}

/// Adding to a day leaves one entry for each day.
pub proof fn lemma_add_day_distinct(days: Seq<DayTotal>, day: u8, value: u128)
    requires
        days_distinct(days),
        add_day(days, day, value) is Some,
    ensures
        days_distinct(add_day(days, day, value)->0),
{
    let after = add_day(days, day, value)->0;
    match first_day(days, day) {
        Some(i) => {
            assert(is_first_day(days, i, day));
            assert forall|a: int, b: int| 0 <= a < b < after.len() implies (#[trigger] after[a]).day
                != (#[trigger] after[b]).day by {
                assert(after[a].day == days[a].day);
                assert(after[b].day == days[b].day);
            }
        },
        None => {
            assert forall|a: int, b: int| 0 <= a < b < after.len() implies (#[trigger] after[a]).day
                != (#[trigger] after[b]).day by {
                if b == days.len() {
                    assert(after[a] == days[a]);
                    if days[a].day == day {
                        lemma_day_found(days, day, a);
                    }
                } else {
                    assert(after[a] == days[a] && after[b] == days[b]);
                }
            }
        },
    }
}

/// Adding a sample to the months leaves one entry for each month and day.
pub proof fn lemma_add_month_distinct(months: Seq<MonthView>, x: Sample)
    requires
        months_distinct(months),
        add_month(months, x) is Some,
    ensures
        months_distinct(add_month(months, x)->0),
{
    let after = add_month(months, x)->0;
    match first_month(months, x.month) {
        Some(i) => {
            assert(is_first_month(months, i, x.month));
            lemma_add_day_distinct(months[i].daily, x.day, x.value);
            assert forall|a: int, b: int| 0 <= a < b < after.len() implies (
            #[trigger] after[a]).month != (#[trigger] after[b]).month by {
                assert(after[a].month == months[a].month);
                assert(after[b].month == months[b].month);
            }
            assert forall|a: int| 0 <= a < after.len() implies days_distinct(
                (#[trigger] after[a]).daily,
            ) by {
                if a != i {
                    assert(after[a] == months[a]);
                }
            }
        },
        None => {
            assert forall|a: int, b: int| 0 <= a < b < after.len() implies (
            #[trigger] after[a]).month != (#[trigger] after[b]).month by {
                if b == months.len() {
                    assert(after[a] == months[a]);
                    if months[a].month == x.month {
                        lemma_month_found(months, x.month, a);
                    }
                } else {
                    assert(after[a] == months[a] && after[b] == months[b]);
                }
            }
            assert forall|a: int| 0 <= a < after.len() implies days_distinct(
                (#[trigger] after[a]).daily,
            ) by {
                if a < months.len() {
                    assert(after[a] == months[a]);
                }
            }
        },
    }
}

/// Adding a sample leaves one entry for each kind and year, month and day.
pub proof fn law_sample_keeps_entries_distinct(years: Seq<YearView>, x: Sample)
    requires
        years_distinct(years),
        add_sample(years, x) is Some,
    ensures
        years_distinct(add_sample(years, x)->0),
{
    let after = add_sample(years, x)->0;
    match first_year(years, x.t_type, x.year) {
        Some(i) => {
            assert(is_first_year(years, i, x.t_type, x.year));
            lemma_add_month_distinct(years[i].monthly, x);
            assert forall|a: int, b: int| 0 <= a < b < after.len() implies !((
            #[trigger] after[a]).t_type == (#[trigger] after[b]).t_type && after[a].year
                == after[b].year) by {
                assert(after[a].t_type == years[a].t_type && after[a].year == years[a].year);
                assert(after[b].t_type == years[b].t_type && after[b].year == years[b].year);
            }
            assert forall|a: int| 0 <= a < after.len() implies months_distinct(
                (#[trigger] after[a]).monthly,
            ) by {
                if a != i {
                    assert(after[a] == years[a]);
                }
            }
        },
        None => {
            assert forall|a: int, b: int| 0 <= a < b < after.len() implies !((
            #[trigger] after[a]).t_type == (#[trigger] after[b]).t_type && after[a].year
                == after[b].year) by {
                if b == years.len() {
                    assert(after[a] == years[a]);
                    if years[a].t_type == x.t_type && years[a].year == x.year {
                        lemma_year_found(years, x.t_type, x.year, a);
                    }
                } else {
                    assert(after[a] == years[a] && after[b] == years[b]);
                }
            }
            assert forall|a: int| 0 <= a < after.len() implies months_distinct(
                (#[trigger] after[a]).monthly,
            ) by {
                if a < years.len() {
                    assert(after[a] == years[a]);
                }
            }
        },
    }
}

/// The fold leaves one entry for each kind and year, month and day.
pub proof fn law_fold_keeps_entries_distinct(years: Seq<YearView>, samples: Seq<Sample>)
    requires
        years_distinct(years),
        fold_samples(years, samples) is Some,
    ensures
        years_distinct(fold_samples(years, samples)->0),
    decreases samples.len(),
{
    if samples.len() > 0 {
        law_sample_keeps_entries_distinct(years, samples[0]);
        law_fold_keeps_entries_distinct(add_sample(years, samples[0])->0, samples.drop_first());
    }
}

// ------------------------------------------------------------ executable

/// The place of the first entry for `day`.
fn find_day(days: &Vec<DayTotal>, day: u8) -> (r: Option<usize>)
    ensures
        match r {
            Some(i) => first_day(days@, day) == Some(i as int),
            None => first_day(days@, day) is None,
        },
{
    let mut i: usize = 0;
    while i < days.len()
        invariant
            i <= days@.len(),
            forall|j: int| 0 <= j < i ==> (#[trigger] days@[j]).day != day,
        decreases days@.len() - i,
    {
        if days[i].day == day {
            assert(is_first_day(days@, i as int, day));
            return Some(i);
        }
        i += 1;
    }
    None
}

/// The place of the first entry for `month`.
fn find_month(months: &Vec<AccumulatedTelemetryMonthy>, month: u8) -> (r: Option<usize>)
    ensures
        match r {
            Some(i) => first_month(months.model(), month) == Some(i as int),
            None => first_month(months.model(), month) is None,
        },
{
    let mut i: usize = 0;
    while i < months.len()
        invariant
            i <= months@.len(),
            forall|j: int| 0 <= j < i ==> (#[trigger] months.model()[j]).month != month,
        decreases months@.len() - i,
    {
        if months[i].month == month {
            assert(is_first_month(months.model(), i as int, month));
            return Some(i);
        }
        assert(months.model()[i as int].month != month);
        i += 1;
    }
    None
}

/// The place of the first entry for `year` of one kind.
fn find_year(years: &Vec<AccumulatedTelemetryYearly>, t_type: TelemetryType, year: i32) -> (r: Option<
    usize,
>)
    ensures
        match r {
            Some(i) => first_year(years.model(), t_type, year) == Some(i as int),
            None => first_year(years.model(), t_type, year) is None,
        },
{
    let mut i: usize = 0;
    while i < years.len()
        invariant
            i <= years@.len(),
            forall|j: int|
                0 <= j < i ==> !((#[trigger] years.model()[j]).t_type == t_type && years.model()[j].year
                    == year),
        decreases years@.len() - i,
    {
        let same_kind = match (years[i].t_type, t_type) {
            (TelemetryType::Gas, TelemetryType::Gas) => true,
        };
        if same_kind && years[i].year == year {
            assert(is_first_year(years.model(), i as int, t_type, year));
            return Some(i);
        }
        assert(!(years.model()[i as int].t_type == t_type && years.model()[i as int].year == year));
        i += 1;
    }
    None
}

/// Adds `value` to the total of `day`; says whether the total fits.
fn put_day(days: &mut Vec<DayTotal>, day: u8, value: u128) -> (ok: bool)
    ensures
        ok == add_day(old(days)@, day, value) is Some,
        ok ==> final(days)@ == add_day(old(days)@, day, value)->0,
{
    match find_day(days, day) {
        Some(i) => {
            let entry = &mut days[i];
            if entry.value > u128::MAX - value {
                return false;
            }
            entry.value = entry.value + value;
            assert(days@ =~= old(days)@.update(
                i as int,
                DayTotal { day, value: (old(days)@[i as int].value + value) as u128 },
            ));
            true
        },
        None => {
            days.push(DayTotal { day, value });
            true
        },
    }
}

/// Adds a sample to its month and day; says whether the totals fit.
fn put_month(months: &mut Vec<AccumulatedTelemetryMonthy>, x: Sample) -> (ok: bool)
    ensures
        ok == add_month(old(months).model(), x) is Some,
        ok ==> final(months).model() == add_month(old(months).model(), x)->0,
{
    match find_month(months, x.month) {
        Some(i) => {
            let ghost before = months.model();
            let entry = &mut months[i];
            assert(entry.model() == before[i as int]);
            assert(entry.daily.model() =~= entry.daily@);
            if !put_day(&mut entry.daily, x.day, x.value) {
                return false;
            }
            if entry.value > u128::MAX - x.value {
                return false;
            }
            entry.value = entry.value + x.value;
            proof {
                assert(entry.daily.model() =~= entry.daily@);
                assert(months.model() =~= before.update(
                    i as int,
                    MonthView {
                        month: x.month,
                        value: (before[i as int].value + x.value) as u128,
                        daily: add_day(before[i as int].daily, x.day, x.value)->0,
                    },
                ));
            }
            true
        },
        None => {
            let ghost before = months.model();
            let mut daily: Vec<DayTotal> = Vec::new();
            daily.push(DayTotal { day: x.day, value: x.value });
            let entry = AccumulatedTelemetryMonthy { month: x.month, value: x.value, daily };
            proof {
                assert(entry.model().daily =~= seq![DayTotal { day: x.day, value: x.value }]);
            }
            months.push(entry);
            assert(months.model() =~= before.push(entry.model()));
            true
        },
    }
}

/// Adds a sample to its year, month and day; says whether the totals fit.
pub fn put_sample(years: &mut Vec<AccumulatedTelemetryYearly>, x: Sample) -> (ok: bool)
    ensures
        ok == add_sample(old(years).model(), x) is Some,
        ok ==> final(years).model() == add_sample(old(years).model(), x)->0,
{
    match find_year(years, x.t_type, x.year) {
        Some(i) => {
            let ghost before = years.model();
            let entry = &mut years[i];
            assert(entry.model() == before[i as int]);
            if !put_month(&mut entry.monthly, x) {
                return false;
            }
            if entry.value > u128::MAX - x.value {
                return false;
            }
            entry.value = entry.value + x.value;
            proof {
                assert(years.model() =~= before.update(
                    i as int,
                    YearView {
                        t_type: x.t_type,
                        year: x.year,
                        value: (before[i as int].value + x.value) as u128,
                        monthly: add_month(before[i as int].monthly, x)->0,
                    },
                ));
            }
            true
        },
        None => {
            let ghost before = years.model();
            let mut daily: Vec<DayTotal> = Vec::new();
            daily.push(DayTotal { day: x.day, value: x.value });
            let mut monthly: Vec<AccumulatedTelemetryMonthy> = Vec::new();
            monthly.push(AccumulatedTelemetryMonthy { month: x.month, value: x.value, daily });
            let entry = AccumulatedTelemetryYearly {
                t_type: x.t_type,
                year: x.year,
                value: x.value,
                monthly,
            };
            proof {
                assert(entry.model().monthly[0].daily =~= seq![
                    DayTotal { day: x.day, value: x.value },
                ]);
                assert(entry.model().monthly =~= seq![
                    MonthView {
                        month: x.month,
                        value: x.value,
                        daily: seq![DayTotal { day: x.day, value: x.value }],
                    },
                ]);
            }
            years.push(entry);
            assert(years.model() =~= before.push(entry.model()));
            true
        },
    }
}

/// Adds all samples to the totals, in order; says whether the totals fit.
pub fn put_samples(years: &mut Vec<AccumulatedTelemetryYearly>, samples: &Vec<Sample>) -> (ok: bool)
    ensures
        ok == fold_samples(old(years).model(), samples@) is Some,
        ok ==> final(years).model() == fold_samples(old(years).model(), samples@)->0,
{
    let ghost start = years.model();
    let mut i: usize = 0;
    assert(samples@.skip(0) =~= samples@);
    while i < samples.len()
        invariant
            i <= samples@.len(),
            start == old(years).model(),
            fold_samples(start, samples@) == fold_samples(years.model(), samples@.skip(i as int)),
        decreases samples@.len() - i,
    {
        let ghost rest = samples@.skip(i as int);
        let ghost before = years.model();
        assert(rest[0] == samples@[i as int]);
        assert(rest.drop_first() =~= samples@.skip(i + 1));
        if !put_sample(years, samples[i]) {
            assert(fold_samples(before, rest) is None);
            return false;
        }
        i += 1;
    }
    true
}

} // verus!
