//! The day-by-day schedule of the months that a year's events touch.
use vstd::prelude::*;
use crate::date::{CalDate, date_exists, days_in_month, is_valid_date, MAX_YEAR, MIN_YEAR};
use crate::input::{Event, Input};

verus! {

/// Why no schedule can be made.
#[derive(Clone, Copy, Debug, PartialEq, Eq)]
pub enum ScheduleError {
    /// No event names any month.
    NoDates,
    /// A month, or a day of a month, does not exist in the input's year.
    InvalidDate,
}

/// One day of the schedule, with the index of the event on it, if any.
pub type Entry = (CalDate, Option<usize>);

/// Whether some event names at least one month.
pub open spec fn has_entries(input: &Input) -> bool {
    exists|e: int| 0 <= e < input.events.len() && (#[trigger] input.events[e]).dates.len() > 0
}

/// Whether every month named exists in the input's year, and every day named in it.
pub open spec fn dates_valid(input: &Input) -> bool {
    forall|e: int, j: int|
        #![trigger input.events[e].dates[j]]
        0 <= e < input.events.len() && 0 <= j < input.events[e].dates.len() ==> {
            let dt = input.events[e].dates[j];
            &&& is_valid_date(input.year as int, dt.month as int, 1)
            &&& forall|k: int|
                0 <= k < dt.days.len() ==> is_valid_date(input.year as int, dt.month as int, #[trigger] dt.days[k] as int)
        }
}

/// Whether `m` is a month that some event names.
pub open spec fn names_month(input: &Input, m: int) -> bool {
    exists|e: int, j: int|
        0 <= e < input.events.len() && 0 <= j < input.events[e].dates.len()
            && input.events[e].dates[j].month == m
}

/// Whether every month that an event names lies in `lo..=hi`.
pub open spec fn months_within(input: &Input, lo: int, hi: int) -> bool {
    forall|e: int, j: int|
        #![trigger input.events[e].dates[j]]
        0 <= e < input.events.len() && 0 <= j < input.events[e].dates.len()
            ==> lo <= input.events[e].dates[j].month <= hi
}

/// The earliest month that an event names.
pub open spec fn first_month(input: &Input) -> int {
    choose|m: int| names_month(input, m) && months_within(input, m, 12)
}

/// The latest month that an event names.
pub open spec fn last_month(input: &Input) -> int {
    choose|m: int| names_month(input, m) && months_within(input, 1, m)
}

/// Every day of month `m` of `year`, in order.
pub open spec fn month_span(year: i32, m: int) -> Seq<CalDate> {
    Seq::new(days_in_month(year as int, m) as nat, |i: int| CalDate { year, month: m as u32, day: (i + 1) as u32 })
}

/// Every day from the first of month `lo` to the last of month `hi`, in order.
pub open spec fn span(year: i32, lo: int, hi: int) -> Seq<CalDate>
    decreases hi - lo + 1,
{
    if hi < lo {
        Seq::empty()
    } else {
        span(year, lo, hi - 1) + month_span(year, hi)
    }
}

/// Whether the event takes place on day `d` of month `m`.
pub open spec fn occurs_on(ev: Event, m: int, d: int) -> bool {
    exists|j: int, k: int|
        0 <= j < ev.dates.len() && 0 <= k < ev.dates[j].days.len()
            && ev.dates[j].month == m && ev.dates[j].days[k] == d
}

/// The index of the last of the events that takes place on day `d` of month `m`.
pub open spec fn last_event_on(events: Seq<Event>, m: int, d: int) -> Option<usize>
    decreases events.len(),
{
    if events.len() == 0 {
        None
    } else if occurs_on(events.last(), m, d) {
        Some((events.len() - 1) as usize)
    } else {
        last_event_on(events.drop_last(), m, d)
    }
}

/// Each day paired with the last event on it.
pub open spec fn tagged(events: Seq<Event>, days: Seq<CalDate>) -> Seq<Entry> {
    days.map_values(|c: CalDate| (c, last_event_on(events, c.month as int, c.day as int)))
}

/// The schedule of a well-formed input.
pub open spec fn schedule_of(input: &Input) -> Seq<Entry> {
    tagged(input.events@, span(input.year, first_month(input), last_month(input)))
}

/// Whether event `ev` takes place on day `day` of month `month`.
fn event_occurs_on(ev: &Event, month: u32, day: u32) -> (r: bool)
    ensures
        r == occurs_on(*ev, month as int, day as int),
{
    let mut j: usize = 0;
    while j < ev.dates.len()
        invariant
            j <= ev.dates.len(),
            forall|j2: int, k2: int|
                0 <= j2 < j && 0 <= k2 < ev.dates[j2].days.len() ==> !(ev.dates[j2].month == month
                    && #[trigger] ev.dates[j2].days[k2] == day),
        decreases ev.dates.len() - j,
    {
        let dt = &ev.dates[j];
        if dt.month == month {
            let mut k: usize = 0;
            while k < dt.days.len()
                invariant
                    k <= dt.days.len(),
                    j < ev.dates.len(),
                    dt == ev.dates[j as int],
                    dt.month == month,
                    forall|k2: int| 0 <= k2 < k ==> #[trigger] dt.days[k2] != day,
                decreases dt.days.len() - k,
            {
                if dt.days[k] == day {
                    assert(ev.dates[j as int].month == month && ev.dates[j as int].days[k as int] == day);
                    return true;
                }
                k = k + 1;
            }
        }
        j = j + 1;
    }
    false
}

/// The index of the last event on day `day` of month `month`, if any.
fn last_event_on_day(events: &Vec<Event>, month: u32, day: u32) -> (r: Option<usize>)
    ensures
        r == last_event_on(events@, month as int, day as int),
{
    let mut i: usize = events.len();
    assert(events@.take(i as int) =~= events@);
    while i > 0
        invariant
            i <= events.len(),
            last_event_on(events@, month as int, day as int)
                == last_event_on(events@.take(i as int), month as int, day as int),
        decreases i,
    {
        let ghost t = events@.take(i as int);
        assert(t.last() == events[i - 1]);
        assert(t.drop_last() =~= events@.take(i - 1));
        if event_occurs_on(&events[i - 1], month, day) {
            return Some(i - 1);
        }
        i = i - 1;
    }
    None
}

/// Whether entry `j` of event `e` comes before entry `j0` of event `e0` in input order.
pub open spec fn entry_before(e: int, j: int, e0: int, j0: int) -> bool {
    e < e0 || (e == e0 && j < j0)
}

/// Checks every month and day that the events name against the year's calendar.
fn all_dates_valid(input: &Input) -> (r: bool)
    ensures
        r == dates_valid(input),
{
    let mut e: usize = 0;
    while e < input.events.len()
        invariant
            e <= input.events.len(),
            forall|e2: int, j2: int|
                #![trigger input.events[e2].dates[j2]]
                0 <= e2 < e && 0 <= j2 < input.events[e2].dates.len() ==> {
                    let dt = input.events[e2].dates[j2];
                    &&& is_valid_date(input.year as int, dt.month as int, 1)
                    &&& forall|k: int|
                        0 <= k < dt.days.len() ==> is_valid_date(input.year as int, dt.month as int, #[trigger] dt.days[k] as int)
                },
        decreases input.events.len() - e,
    {
        let ev = &input.events[e];
        let mut j: usize = 0;
        while j < ev.dates.len()
            invariant
                e < input.events.len(),
                ev == input.events[e as int],
                j <= ev.dates.len(),
                forall|e2: int, j2: int|
                    #![trigger input.events[e2].dates[j2]]
                    0 <= e2 < input.events.len() && 0 <= j2 < input.events[e2].dates.len() && entry_before(e2, j2, e as int, j as int) ==> {
                        let dt = input.events[e2].dates[j2];
                        &&& is_valid_date(input.year as int, dt.month as int, 1)
                        &&& forall|k: int|
                            0 <= k < dt.days.len() ==> is_valid_date(input.year as int, dt.month as int, #[trigger] dt.days[k] as int)
                    },
            decreases ev.dates.len() - j,
        {
            let dt = &ev.dates[j];
            if !date_exists(input.year, dt.month, 1) {
                return false;
            }
            let mut k: usize = 0;
            while k < dt.days.len()
                invariant
                    e < input.events.len(),
                    ev == input.events[e as int],
                    j < ev.dates.len(),
                    dt == ev.dates[j as int],
                    k <= dt.days.len(),
                    forall|k2: int| 0 <= k2 < k ==> is_valid_date(input.year as int, dt.month as int, #[trigger] dt.days[k2] as int),
                decreases dt.days.len() - k,
            {
                if !date_exists(input.year, dt.month, dt.days[k]) {
                    return false;
                }
                k = k + 1;
            }
            j = j + 1;
        }
        e = e + 1;
    }
    true
}

/// The earliest and latest month that the events name; `None` when they name none.
fn month_range(input: &Input) -> (r: Option<(u32, u32)>)
    ensures
        r is None <==> !has_entries(input),
        r matches Some((lo, hi)) ==> names_month(input, lo as int) && names_month(input, hi as int)
            && months_within(input, lo as int, hi as int),
{
    let mut found = false;
    let mut lo: u32 = 0;
    let mut hi: u32 = 0;
    let mut e: usize = 0;
    while e < input.events.len()
        invariant
            e <= input.events.len(),
            found <==> exists|e2: int| 0 <= e2 < e && (#[trigger] input.events[e2]).dates.len() > 0,
            found ==> names_month(input, lo as int) && names_month(input, hi as int),
            forall|e2: int, j2: int|
                #![trigger input.events[e2].dates[j2]]
                0 <= e2 < e && 0 <= j2 < input.events[e2].dates.len()
                    ==> lo <= input.events[e2].dates[j2].month <= hi,
        decreases input.events.len() - e,
    {
        let ev = &input.events[e];
        let mut j: usize = 0;
        let ghost found0 = found;
        while j < ev.dates.len()
            invariant
                e < input.events.len(),
                ev == input.events[e as int],
                j <= ev.dates.len(),
                found <==> (exists|e2: int| 0 <= e2 < e && (#[trigger] input.events[e2]).dates.len() > 0) || j > 0,
                found ==> names_month(input, lo as int) && names_month(input, hi as int),
                forall|e2: int, j2: int|
                    #![trigger input.events[e2].dates[j2]]
                    0 <= e2 < input.events.len() && 0 <= j2 < input.events[e2].dates.len()
                        && entry_before(e2, j2, e as int, j as int)
                        ==> lo <= input.events[e2].dates[j2].month <= hi,
            decreases ev.dates.len() - j,
        {
            let m = ev.dates[j].month;
            assert(input.events[e as int].dates[j as int].month == m);
            if !found {
                lo = m;
                hi = m;
                found = true;
            } else {
                if m < lo {
                    lo = m;
                }
                if m > hi {
                    hi = m;
                }
            }
            j = j + 1;
        }
        e = e + 1;
    }
    if found {
        Some((lo, hi))
    } else {
        None
    }
}

/// The months that the events name lie in `lo..=hi` and include both: `lo` and
/// `hi` are then the first and the last month.
proof fn lemma_month_bounds(input: &Input, lo: int, hi: int)
    requires
        names_month(input, lo),
        names_month(input, hi),
        months_within(input, lo, hi),
        1 <= lo,
        hi <= 12,
    ensures
        first_month(input) == lo,
        last_month(input) == hi,
{
    assert(months_within(input, lo, 12));
    assert(months_within(input, 1, hi));
    let f = first_month(input);
    let l = last_month(input);
    let (e1, j1) = choose|e: int, j: int|
        0 <= e < input.events.len() && 0 <= j < input.events[e].dates.len()
            && input.events[e].dates[j].month == f;
    let (e2, j2) = choose|e: int, j: int|
        0 <= e < input.events.len() && 0 <= j < input.events[e].dates.len()
            && input.events[e].dates[j].month == lo;
    let (e3, j3) = choose|e: int, j: int|
        0 <= e < input.events.len() && 0 <= j < input.events[e].dates.len()
            && input.events[e].dates[j].month == l;
    let (e4, j4) = choose|e: int, j: int|
        0 <= e < input.events.len() && 0 <= j < input.events[e].dates.len()
            && input.events[e].dates[j].month == hi;
    assert(input.events[e1].dates[j1].month == f);
    assert(input.events[e2].dates[j2].month == lo);
    assert(input.events[e3].dates[j3].month == l);
    assert(input.events[e4].dates[j4].month == hi);
}

/// A month that an event names is a month of the input's year, and that year is supported.
proof fn lemma_valid_months(input: &Input, lo: int)
    requires
        dates_valid(input),
        names_month(input, lo),
    ensures
        is_valid_date(input.year as int, lo, 1),
{
    let (e, j) = choose|e: int, j: int|
        0 <= e < input.events.len() && 0 <= j < input.events[e].dates.len()
            && input.events[e].dates[j].month == lo;
    assert(input.events[e].dates[j].month == lo);
}

/// Whether each day of the run is a valid date.
pub open spec fn all_valid(days: Seq<Entry>) -> bool {
    forall|i: int| 0 <= i < days.len() ==> is_valid_date((#[trigger] days[i]).0.year as int, days[i].0.month as int, days[i].0.day as int)
}

/// The days of a month span are valid dates.
proof fn lemma_span_valid(year: i32, lo: int, hi: int)
    requires
        MIN_YEAR <= year <= MAX_YEAR,
        1 <= lo,
        hi <= 12,
    ensures
        forall|i: int| 0 <= i < span(year, lo, hi).len() ==> (#[trigger] span(year, lo, hi)[i]).year == year
            && is_valid_date(year as int, span(year, lo, hi)[i].month as int, span(year, lo, hi)[i].day as int),
    decreases hi - lo + 1,
{
    if hi >= lo {
        lemma_span_valid(year, lo, hi - 1);
        let a = span(year, lo, hi - 1);
        let b = month_span(year, hi);
        assert forall|i: int| 0 <= i < span(year, lo, hi).len() implies (#[trigger] span(year, lo, hi)[i]).year == year
            && is_valid_date(year as int, span(year, lo, hi)[i].month as int, span(year, lo, hi)[i].day as int) by {
            if i >= a.len() {
                assert(span(year, lo, hi)[i] == b[i - a.len()]);
            } else {
                assert(span(year, lo, hi)[i] == a[i]);
            }
        }
    }
}

/// Builds the schedule: every day from the first day of the earliest month that an
/// event names to the last day of the latest, each with the index of the last
/// event that takes place on it.
pub fn calc_calendar(input: &Input) -> (r: Result<Vec<Entry>, ScheduleError>)
    ensures
        match r {
            Ok(s) => has_entries(input) && dates_valid(input) && s@ == schedule_of(input) && all_valid(s@),
            Err(ScheduleError::NoDates) => !has_entries(input),
            Err(ScheduleError::InvalidDate) => has_entries(input) && !dates_valid(input),
        },
{
    if !all_dates_valid(input) {
        proof {
            let (e, j) = choose|e: int, j: int|
                #![trigger input.events[e].dates[j]]
                0 <= e < input.events.len() && 0 <= j < input.events[e].dates.len() && !{
                    let dt = input.events[e].dates[j];
                    &&& is_valid_date(input.year as int, dt.month as int, 1)
                    &&& forall|k: int|
                        0 <= k < dt.days.len() ==> is_valid_date(input.year as int, dt.month as int, #[trigger] dt.days[k] as int)
                };
            assert(input.events[e].dates.len() > 0);
        }
        return Err(ScheduleError::InvalidDate);
    }
    let (lo, hi) = match month_range(input) {
        Some(p) => p,
        None => {
            return Err(ScheduleError::NoDates);
        },
    };
    proof {
        lemma_valid_months(input, lo as int);
        lemma_valid_months(input, hi as int);
        lemma_month_bounds(input, lo as int, hi as int);
    }
    let ghost events = input.events@;
    let year = input.year;
    let mut out: Vec<Entry> = Vec::new();
    let mut m: u32 = lo;
    assert(span(year, lo as int, lo as int - 1) =~= Seq::<CalDate>::empty());
    assert(tagged(events, Seq::empty()) =~= Seq::<Entry>::empty());
    while m <= hi
        invariant
            1 <= lo <= m <= hi + 1,
            hi <= 12,
            MIN_YEAR <= year <= MAX_YEAR,
            year == input.year,
            events == input.events@,
            out@ == tagged(events, span(year, lo as int, m as int - 1)),
        decreases hi + 1 - m,
    {
        let ghost before = span(year, lo as int, m as int - 1);
        let ghost dim = days_in_month(year as int, m as int);
        let mut d: u32 = 1;
        assert(month_span(year, m as int).take(0) =~= Seq::<CalDate>::empty());
        assert(before + Seq::<CalDate>::empty() =~= before);
        while d <= 31
            invariant
                1 <= d <= 32,
                1 <= m <= 12,
                MIN_YEAR <= year <= MAX_YEAR,
                year == input.year,
                events == input.events@,
                dim == days_in_month(year as int, m as int),
                28 <= dim <= 31,
                out@ == tagged(events, before + month_span(year, m as int).take(
                    if d - 1 <= dim { d - 1 } else { dim })),
            decreases 32 - d,
        {
            if date_exists(year, m, d) {
                let tag = last_event_on_day(&input.events, m, d);
                let c = CalDate { year, month: m, day: d };
                let ghost prev = before + month_span(year, m as int).take(d - 1);
                out.push((c, tag));
                proof {
                    assert(month_span(year, m as int).take(d as int) =~= month_span(year, m as int).take(d - 1).push(c));
                    assert(before + month_span(year, m as int).take(d as int) =~= prev.push(c));
                    assert(tagged(events, prev.push(c)) =~= tagged(events, prev).push((c, tag)));
                }
            }
            d = d + 1;
        }
        proof {
            assert(month_span(year, m as int).take(dim) =~= month_span(year, m as int));
        }
        m = m + 1;
    }
    proof {
        lemma_span_valid(year, lo as int, hi as int);
        let sp = span(year, lo as int, hi as int);
        assert forall|i: int| 0 <= i < out@.len() implies is_valid_date((#[trigger] out@[i]).0.year as int,
            out@[i].0.month as int, out@[i].0.day as int) by {
            assert(out@[i].0 == sp[i]);
        }
    }
    Ok(out)
}

/// The day after `c`, within one year.
pub open spec fn next_day(c: CalDate) -> CalDate {
    if (c.day as int) < days_in_month(c.year as int, c.month as int) {
        CalDate { year: c.year, month: c.month, day: (c.day + 1) as u32 }
    } else {
        CalDate { year: c.year, month: (c.month + 1) as u32, day: 1 }
    }
}

/// A run of months starts on the first of the first month, ends on the last
/// day of the last month, and each day is followed by the next.
pub(crate) proof fn lemma_span_days(year: i32, lo: int, hi: int)
    requires
        1 <= lo <= hi <= 12,
    ensures
        span(year, lo, hi).len() > 0,
        span(year, lo, hi)[0] == (CalDate { year, month: lo as u32, day: 1 }),
        span(year, lo, hi).last() == (CalDate { year, month: hi as u32, day: days_in_month(year as int, hi) as u32 }),
        forall|i: int| 0 <= i < span(year, lo, hi).len() - 1
            ==> span(year, lo, hi)[i + 1] == next_day(#[trigger] span(year, lo, hi)[i]),
    decreases hi - lo,
{
    let b = month_span(year, hi);
    let s = span(year, lo, hi);
    let a = span(year, lo, hi - 1);
    assert(s == a + b);
    if hi > lo {
        lemma_span_days(year, lo, hi - 1);
        assert forall|i: int| 0 <= i < s.len() - 1 implies s[i + 1] == next_day(#[trigger] s[i]) by {
            if i + 1 < a.len() {
                assert(s[i] == a[i]);
                assert(s[i + 1] == a[i + 1]);
            } else if i + 1 == a.len() {
                assert(s[i] == a.last());
                assert(s[i + 1] == b[0]);
            } else {
                assert(s[i] == b[i - a.len()]);
                assert(s[i + 1] == b[i + 1 - a.len()]);
            }
        }
    } else {
        assert(a =~= Seq::<CalDate>::empty());
        assert(s =~= b);
    }
}

/// The first and the last month named exist, and lie in order.
pub(crate) proof fn lemma_first_last_month(input: &Input)
    requires
        has_entries(input),
        dates_valid(input),
    ensures
        names_month(input, first_month(input)),
        names_month(input, last_month(input)),
        months_within(input, first_month(input), last_month(input)),
        1 <= first_month(input) <= last_month(input) <= 12,
{
    let e = choose|e: int| 0 <= e < input.events.len() && (#[trigger] input.events[e]).dates.len() > 0;
    assert(input.events[e].dates[0].month == input.events[e].dates[0].month);
    let m = input.events[e].dates[0].month as int;
    lemma_lowest_exists(input, m);
    lemma_highest_exists(input, m);
    let f = first_month(input);
    let l = last_month(input);
    lemma_valid_months(input, f);
    lemma_valid_months(input, l);
    let (e1, j1) = choose|e: int, j: int|
        0 <= e < input.events.len() && 0 <= j < input.events[e].dates.len()
            && input.events[e].dates[j].month == l;
    assert(input.events[e1].dates[j1].month == l);
    assert forall|e: int, j: int|
        0 <= e < input.events.len() && 0 <= j < input.events[e].dates.len()
        implies f <= (#[trigger] input.events[e].dates[j]).month <= l by {
        assert(input.events[e].dates[j].month == input.events[e].dates[j].month);
    }
}

/// Some named month is the earliest.
proof fn lemma_lowest_exists(input: &Input, m: int)
    requires
        dates_valid(input),
        names_month(input, m),
    ensures
        exists|lo: int| names_month(input, lo) && months_within(input, lo, 12),
    decreases m,
{
    lemma_valid_months(input, m);
    if !months_within(input, m, 12) {
        let (e, j) = choose|e: int, j: int|
            #![trigger input.events[e].dates[j]]
            0 <= e < input.events.len() && 0 <= j < input.events[e].dates.len()
                && !(m <= input.events[e].dates[j].month <= 12);
        let m2 = input.events[e].dates[j].month as int;
        lemma_valid_months(input, m2);
        lemma_lowest_exists(input, m2);
    }
}

/// Some named month is the latest.
proof fn lemma_highest_exists(input: &Input, m: int)
    requires
        dates_valid(input),
        names_month(input, m),
    ensures
        exists|hi: int| names_month(input, hi) && months_within(input, 1, hi),
    decreases 12 - m,
{
    lemma_valid_months(input, m);
    if !months_within(input, 1, m) {
        let (e, j) = choose|e: int, j: int|
            #![trigger input.events[e].dates[j]]
            0 <= e < input.events.len() && 0 <= j < input.events[e].dates.len()
                && !(1 <= input.events[e].dates[j].month <= m);
        let m2 = input.events[e].dates[j].month as int;
        lemma_valid_months(input, m2);
        lemma_highest_exists(input, m2);
    }
}

/// The schedule holds one entry per day from the first day of the earliest month
/// that an event names to the last day of the latest, in ascending order with no
/// gap and no day twice: it starts on the first, ends on the last, and each day
/// is followed by the next one.
pub proof fn lemma_schedule_covers_months(input: &Input)
    requires
        has_entries(input),
        dates_valid(input),
    ensures
        ({
            let s = schedule_of(input);
            let lo = first_month(input);
            let hi = last_month(input);
            &&& 1 <= lo <= hi <= 12
            &&& s.len() > 0
            &&& s[0].0 == (CalDate { year: input.year, month: lo as u32, day: 1 })
            &&& s.last().0 == (CalDate { year: input.year, month: hi as u32, day: days_in_month(input.year as int, hi) as u32 })
            &&& forall|i: int| 0 <= i < s.len() - 1 ==> s[i + 1].0 == next_day((#[trigger] s[i]).0)
        }),
{
    lemma_first_last_month(input);
    let lo = first_month(input);
    let hi = last_month(input);
    let sp = span(input.year, lo, hi);
    lemma_span_days(input.year, lo, hi);
    let s = schedule_of(input);
    assert forall|i: int| 0 <= i < s.len() - 1 implies s[i + 1].0 == next_day((#[trigger] s[i]).0) by {
        assert(s[i].0 == sp[i]);
        assert(s[i + 1].0 == sp[i + 1]);
    }
}

/// The index of the last event on a day is that of an event on that day, and
/// no later event takes place on it; it is `None` only when no event does.
proof fn lemma_last_event_on(events: Seq<Event>, m: int, d: int)
    requires
        events.len() <= usize::MAX,
    ensures
        last_event_on(events, m, d) matches Some(k) ==> 0 <= k < events.len() && occurs_on(events[k as int], m, d)
            && forall|k2: int| k < k2 < events.len() ==> !occurs_on(#[trigger] events[k2], m, d),
        last_event_on(events, m, d) is None ==> forall|k2: int| 0 <= k2 < events.len() ==> !occurs_on(#[trigger] events[k2], m, d),
    decreases events.len(),
{
    if events.len() > 0 {
        let rest = events.drop_last();
        lemma_last_event_on(rest, m, d);
        assert forall|k2: int| 0 <= k2 < rest.len() implies rest[k2] == events[k2] by {}
        if !occurs_on(events.last(), m, d) {
            assert(events.last() == events[events.len() - 1]);
            if let Some(k) = last_event_on(events, m, d) {
                assert forall|k2: int| k < k2 < events.len() implies !occurs_on(#[trigger] events[k2], m, d) by {
                    if k2 < rest.len() {
                        assert(rest[k2] == events[k2]);
                    }
                }
            }
        }
    }
}

/// Where two events take place on the same day of the schedule, the day carries
/// the index of the later one (or of an event later still).
pub proof fn lemma_later_event_wins(input: &Input, t: int, i: int, j: int)
    requires
        has_entries(input),
        dates_valid(input),
        0 <= t < schedule_of(input).len(),
        0 <= i < j < input.events.len(),
        occurs_on(input.events[i], schedule_of(input)[t].0.month as int, schedule_of(input)[t].0.day as int),
        occurs_on(input.events[j], schedule_of(input)[t].0.month as int, schedule_of(input)[t].0.day as int),
    ensures
        schedule_of(input)[t].1 matches Some(k) && j <= k,
{
    let c = schedule_of(input)[t].0;
    lemma_last_event_on(input.events@, c.month as int, c.day as int);
    assert(input.events@[j] == input.events[j]);
}

} // verus!
