use vstd::prelude::*;
use crate::at::{At, AtView, Occurrences, OccurrencesView};
use crate::error::Error;
use crate::moment::{
    add_seconds, date_before, day_number, days_before_month, days_in_month, end_of_time, is_date,
    lemma_before_end_of_time, lemma_dates_ordered, lemma_day_in_month, lemma_months_fill_year,
    lemma_same_day, lemma_total_seconds_injective, lemma_year_length, month_length, replace_day,
    replace_month, replace_year, second_precision, Moment, MAX_YEAR,
};

verus! {

/// Steps from `curr` up to `candidate` on a ring of `total` values.
pub open spec fn ring_distance(candidate: int, curr: int, total: int) -> int {
    (candidate - curr) % total
}

/// Distance on the ring of `total` values from `curr` up to `candidate`, and whether the way
/// there passes the end of the ring.
pub fn distance_from(candidate: u8, curr: u8, total: u8) -> (r: (u8, bool))
    requires
        candidate < curr + total,
        curr < candidate + total,
    ensures
        r.0 == ring_distance(candidate as int, curr as int, total as int),
        r.1 == (candidate < curr),
{
    let overflow = candidate < curr;
    let distance: u16 = if overflow {
        candidate as u16 + total as u16 - curr as u16
    } else {
        (candidate - curr) as u16
    };
    proof {
        let d = distance as int;
        let t = total as int;
        let diff = candidate as int - curr as int;
        assert(diff % t == d) by (nonlinear_arith)
            requires
                0 <= d < t,
                d == diff || d == diff + t,
        ;
    }
    (distance as u8, overflow)
}

/// The candidate other than `curr` that comes first when going up from `curr` on a ring of
/// `total` values, and whether the way there passes the end of the ring.
#[verifier::spinoff_prover]
pub fn nearest_value(candidates: &[u8], curr: u8, total: u8) -> (r: (u8, bool))
    requires
        forall|i: int|
            0 <= i < candidates@.len() ==> (#[trigger] candidates@[i]) < curr + total && curr
                < candidates@[i] + total,
        exists|i: int| 0 <= i < candidates@.len() && #[trigger] candidates@[i] != curr,
    ensures
        r.0 != curr,
        exists|i: int| 0 <= i < candidates@.len() && #[trigger] candidates@[i] == r.0,
        r.1 == (r.0 < curr),
        forall|i: int|
            0 <= i < candidates@.len() && (#[trigger] candidates@[i]) != curr ==> ring_distance(
                r.0 as int,
                curr as int,
                total as int,
            ) <= ring_distance(candidates@[i] as int, curr as int, total as int),
{
    let mut found = false;
    let mut best: u8 = 0;
    let mut best_distance: u8 = 0;
    let mut best_overflow = false;
    let mut i: usize = 0;
    while i < candidates.len()
        invariant
            i <= candidates@.len(),
            forall|j: int|
                0 <= j < candidates@.len() ==> (#[trigger] candidates@[j]) < curr + total && curr
                    < candidates@[j] + total,
            !found ==> forall|j: int| 0 <= j < i ==> #[trigger] candidates@[j] == curr,
            found ==> {
                &&& best != curr
                &&& exists|j: int| 0 <= j < i && #[trigger] candidates@[j] == best
                &&& best_overflow == (best < curr)
                &&& best_distance == ring_distance(best as int, curr as int, total as int)
                &&& forall|j: int|
                    0 <= j < i && (#[trigger] candidates@[j]) != curr ==> best_distance
                        <= ring_distance(candidates@[j] as int, curr as int, total as int)
            },
        decreases candidates@.len() - i,
    {
        let candidate = candidates[i];
        if candidate != curr {
            let (distance, overflow) = distance_from(candidate, curr, total);
            if !found || distance < best_distance {
                found = true;
                best = candidate;
                best_distance = distance;
                best_overflow = overflow;
            }
        }
        i = i + 1;
    }
    (best, best_overflow)
}

/// The candidates with their distances from `curr` on a ring of `total` values: for each, the
/// distance, the candidate, and whether the way to it passes the end of the ring.
pub open spec fn measured(candidates: Seq<u8>, curr: int, total: int) -> Seq<(u8, u8, bool)> {
    candidates.map_values(
        |c: u8| (ring_distance(c as int, curr, total) as u8, c, (c as int) < curr),
    )
}

/// The candidates with their distances from `curr`, nearest first: see [`measured`].
#[verifier::spinoff_prover]
pub fn nearest_values(candidates: &[u8], curr: u8, total: u8) -> (r: Vec<(u8, u8, bool)>)
    requires
        forall|i: int|
            0 <= i < candidates@.len() ==> (#[trigger] candidates@[i]) < curr + total && curr
                < candidates@[i] + total,
    ensures
        r@.to_multiset() == measured(candidates@, curr as int, total as int).to_multiset(),
        forall|i: int, j: int| 0 <= i < j < r@.len() ==> (#[trigger] r@[i]).0 <= (#[trigger] r@[j]).0,
{
    let ghost all = measured(candidates@, curr as int, total as int);
    let mut out: Vec<(u8, u8, bool)> = Vec::new();
    let mut i: usize = 0;
    assert(all.take(0) =~= out@);
    while i < candidates.len()
        invariant
            i <= candidates@.len(),
            all == measured(candidates@, curr as int, total as int),
            forall|k: int|
                0 <= k < candidates@.len() ==> (#[trigger] candidates@[k]) < curr + total && curr
                    < candidates@[k] + total,
            out@.to_multiset() == all.take(i as int).to_multiset(),
            out@.len() == i,
            forall|a: int, b: int|
                0 <= a < b < out@.len() ==> (#[trigger] out@[a]).0 <= (#[trigger] out@[b]).0,
        decreases candidates@.len() - i,
    {
        let candidate = candidates[i];
        let (distance, overflow) = distance_from(candidate, curr, total);
        let entry = (distance, candidate, overflow);
        let mut place: usize = 0;
        while place < out.len() && out[place].0 <= distance
            invariant
                place <= out@.len(),
                forall|a: int| 0 <= a < place ==> (#[trigger] out@[a]).0 <= distance,
            decreases out@.len() - place,
        {
            place = place + 1;
        }
        proof {
            assert(all.take(i + 1) =~= all.take(i as int).push(entry));
            vstd::seq_lib::to_multiset_build(all.take(i as int), entry);
            vstd::seq_lib::to_multiset_insert(out@, place as int, entry);
        }
        let ghost before = out@;
        out.insert(place, entry);
        proof {
            assert forall|a: int, b: int| 0 <= a < b < out@.len() implies (#[trigger] out@[a]).0 <= (
            #[trigger] out@[b]).0 by {
                let x = if a < place {
                    a
                } else {
                    a - 1
                };
                let y = if b < place {
                    b
                } else {
                    b - 1
                };
                if a != place && b != place {
                    assert(out@[a] == before[x] && out@[b] == before[y]);
                } else if a == place {
                    assert(out@[b] == before[y]);
                    assert(before[place as int].0 > distance);
                } else {
                    assert(out@[a] == before[x]);
                }
            }
        }
        i = i + 1;
    }
    assert(all.take(candidates@.len() as int) == all);
    out
}

/// What bringing one field to a selected value asks for.
#[derive(Clone, Copy, Debug, PartialEq, Eq, Structural)]
pub enum Step {
    /// The field's value is selected.
    Keep,
    /// The field has to rise to the given value, the next one selected.
    Jump(u8),
    /// No value from the current one up is selected: the next coarser field has to rise.
    Carry,
}

impl Step {
    /// Whether this step is the one that leads a field from `curr` to the first value, from
    /// `curr` up, that `occurrences` selects.
    pub open spec fn leads(self, occurrences: OccurrencesView, curr: int, lowest: int, highest: int) -> bool {
        match self {
            Step::Keep => occurrences.selects(curr, lowest),
            Step::Jump(target) => {
                &&& curr < target <= highest
                &&& occurrences.selects(target as int, lowest)
                &&& forall|v: int| curr <= v < target ==> !occurrences.selects(v, lowest)
            },
            Step::Carry => forall|v: int| curr <= v ==> !occurrences.selects(v, lowest),
        }
    }
}

/// Tells whether `value` is one of `values`.
pub fn holds(values: &[u8], value: u8) -> (r: bool)
    ensures
        r == exists|i: int| 0 <= i < values@.len() && #[trigger] values@[i] == value,
{
    let mut i: usize = 0;
    while i < values.len()
        invariant
            i <= values@.len(),
            forall|j: int| 0 <= j < i ==> #[trigger] values@[j] != value,
        decreases values@.len() - i,
    {
        if values[i] == value {
            return true;
        }
        i = i + 1;
    }
    false
}

/// Looks for the first selected value of a field from `curr` up: `curr` itself, a higher
/// value, or none.
#[verifier::spinoff_prover]
pub fn resolve(occurrences: &Occurrences, curr: u8, lowest: u8, highest: u8) -> (r: Step)
    requires
        occurrences@.in_range(lowest as int, highest as int),
        lowest <= curr <= highest,
        highest - lowest < 100,
    ensures
        r.leads(occurrences@, curr as int, lowest as int, highest as int),
{
    match occurrences {
        Occurrences::Every => Step::Keep,
        Occurrences::First => {
            if curr == lowest {
                Step::Keep
            } else {
                Step::Carry
            }
        },
        Occurrences::Once(value) => {
            if *value == curr {
                Step::Keep
            } else if *value > curr {
                Step::Jump(*value)
            } else {
                Step::Carry
            }
        },
        Occurrences::Multiple(values) => {
            if holds(values.as_slice(), curr) {
                Step::Keep
            } else {
                let total = highest - lowest + 1;
                assert(values@[0] != curr);
                let (nearest, overflow) = nearest_value(values.as_slice(), curr, total);
                proof {
                    let t = total as int;
                    let c = curr as int;
                    assert forall|v: int|
                        lowest <= v <= highest implies #[trigger] ring_distance(v, c, t) == (if v
                        < c {
                        v + t - c
                    } else {
                        v - c
                    }) by {
                        lemma_ring_distance(v, c, t);
                    }
                    assert(ring_distance(nearest as int, c, t) == (if nearest < curr {
                        nearest + t - c
                    } else {
                        nearest - c
                    }));
                    assert forall|v: int| c <= v && (overflow || v < nearest) implies !occurrences@.selects(
                        v,
                        lowest as int,
                    ) by {
                        if occurrences@.selects(v, lowest as int) {
                            let i = choose|i: int|
                                0 <= i < values@.len() && #[trigger] values@[i] as int == v;
                            assert(values@[i] != curr);
                            assert(ring_distance(values@[i] as int, c, t) == v - c);
                        }
                    }
                }
                if overflow {
                    Step::Carry
                } else {
                    Step::Jump(nearest)
                }
            }
        },
    }
}

/// Calendar order on months.
pub open spec fn month_before(y1: int, m1: int, y2: int, m2: int) -> bool {
    y1 < y2 || (y1 == y2 && m1 < m2)
}

/// Number of days of the month that `from` lies in.
pub fn days_in_current_month(from: &Moment) -> (r: u8)
    ensures
        r == days_in_month(from.year as int, from.month as int),
        28 <= r <= 31,
{
    month_length(from.year, from.month)
}

/// The same month, day and time in the first later year that has this day; none where no
/// later year that can be held has it.
pub fn next_year(from: &Moment) -> (r: Option<Moment>)
    requires
        from.valid(),
    ensures
        match r {
            Some(next) => {
                &&& next.valid()
                &&& next == Moment { year: next.year, ..*from }
                &&& from.year < next.year
                &&& forall|y: int|
                    from.year < y < next.year ==> !is_date(y, from.month as int, from.day as int)
            },
            None => forall|y: int|
                from.year < y <= MAX_YEAR ==> !is_date(y, from.month as int, from.day as int),
        },
{
    let mut year = from.year;
    while year < MAX_YEAR
        invariant
            from.valid(),
            from.year <= year <= MAX_YEAR,
            forall|y: int| from.year < y <= year ==> !is_date(y, from.month as int, from.day as int),
        decreases MAX_YEAR - year,
    {
        year = year + 1;
        match replace_year(from, year) {
            Some(next) => {
                return Some(next);
            },
            None => {},
        }
    }
    None
}

/// The same day and time in the first later month that has this day; none where no later
/// month of a year that can be held has it.
#[verifier::spinoff_prover]
pub fn next_month(from: &Moment) -> (r: Option<Moment>)
    requires
        from.valid(),
    ensures
        match r {
            Some(next) => {
                &&& next.valid()
                &&& next == Moment { year: next.year, month: next.month, ..*from }
                &&& month_before(
                    from.year as int,
                    from.month as int,
                    next.year as int,
                    next.month as int,
                )
                &&& forall|y: int, m: int|
                    1 <= m <= 12 && month_before(from.year as int, from.month as int, y, m)
                        && month_before(y, m, next.year as int, next.month as int)
                        ==> #[trigger] days_in_month(y, m) < from.day
            },
            None => forall|y: int, m: int|
                1 <= m <= 12 && y <= MAX_YEAR && month_before(
                    from.year as int,
                    from.month as int,
                    y,
                    m,
                ) ==> #[trigger] days_in_month(y, m) < from.day,
        },
    decreases
            (if from.day < 28 {
                0int
            } else {
                2int
            }),
{
    if from.month == 12 {
        match next_year(from) {
            None => {
                assert(from.year == MAX_YEAR) by {
                    if from.year < MAX_YEAR {
                        assert(is_date(from.year + 1, from.month as int, from.day as int));
                    }
                }
                None
            },
            Some(later) => {
                assert(later.year == from.year + 1) by {
                    if from.year + 1 < later.year {
                        assert(is_date(from.year + 1, from.month as int, from.day as int));
                    }
                }
                replace_month(&later, 1)
            },
        }
    } else if from.day < 28 {
        let length = days_in_current_month(from);
        proof {
            let expected = Moment { month: (from.month + 1) as u8, ..*from };
            assert(expected.valid());
            lemma_before_end_of_time(expected);
            assert(days_before_month(from.year as int, from.month + 1) == days_before_month(
                from.year as int,
                from.month as int,
            ) + length);
            assert(expected.total_seconds() == from.total_seconds() + length * 86400);
        }
        let r = add_seconds(from, length as i64 * 86400);
        proof {
            let expected = Moment { month: (from.month + 1) as u8, ..*from };
            lemma_total_seconds_injective(r.unwrap(), expected);
            assert(r.unwrap() == expected);
        }
        r
    } else {
        month_with_day(from, from.day, false)
    }
}

/// The day `from_day`, at the time of `from`, in the first month that has such a day: counted
/// from the month of `from` where `try_current_month` is set, from the month after it
/// otherwise. None where no such month lies in a year that can be held.
#[verifier::spinoff_prover]
pub fn month_with_day(from: &Moment, from_day: u8, try_current_month: bool) -> (r: Option<Moment>)
    requires
        from.valid(),
        1 <= from_day <= 31,
    ensures
        match r {
            Some(next) => {
                &&& next.valid()
                &&& next == Moment { year: next.year, month: next.month, day: from_day, ..*from }
                &&& counted_from(from, try_current_month, next.year as int, next.month as int)
                &&& forall|y: int, m: int|
                    1 <= m <= 12 && counted_from(from, try_current_month, y, m) && month_before(
                        y,
                        m,
                        next.year as int,
                        next.month as int,
                    ) ==> #[trigger] days_in_month(y, m) < from_day
            },
            None => forall|y: int, m: int|
                1 <= m <= 12 && y <= MAX_YEAR && counted_from(from, try_current_month, y, m)
                    ==> #[trigger] days_in_month(y, m) < from_day,
        },
    decreases 1int,
{
    let first = Moment { day: 1, ..*from };
    let mut next = first;
    if !try_current_month {
        match next_month(&first) {
            Some(following) => {
                next = following;
            },
            None => {
                return None;
            },
        }
    }
    while days_in_current_month(&next) < from_day
        invariant
            from.valid(),
            next.valid(),
            next == (Moment { year: next.year, month: next.month, day: 1, ..*from }),
            counted_from(from, try_current_month, next.year as int, next.month as int),
            forall|y: int, m: int|
                1 <= m <= 12 && counted_from(from, try_current_month, y, m) && month_before(
                    y,
                    m,
                    next.year as int,
                    next.month as int,
                ) ==> #[trigger] days_in_month(y, m) < from_day,
        decreases (MAX_YEAR + 1 - next.year) * 12 - next.month,
    {
        match next_month(&next) {
            Some(following) => {
                assert forall|y: int, m: int|
                    1 <= m <= 12 && counted_from(from, try_current_month, y, m) && month_before(
                        y,
                        m,
                        following.year as int,
                        following.month as int,
                    ) implies #[trigger] days_in_month(y, m) < from_day by {
                    if month_before(next.year as int, next.month as int, y, m) {
                        assert(days_in_month(y, m) < 1);
                    }
                }
                next = following;
            },
            None => {
                assert forall|y: int, m: int|
                    1 <= m <= 12 && y <= MAX_YEAR && counted_from(
                        from,
                        try_current_month,
                        y,
                        m,
                    ) implies #[trigger] days_in_month(y, m) < from_day by {
                    if month_before(next.year as int, next.month as int, y, m) {
                        assert(days_in_month(y, m) < 1);
                    }
                }
                return None;
            },
        }
    }
    replace_day(&next, from_day)
}

/// Whether the month `(y, m)` is one that the search of [`month_with_day`] looks at.
pub open spec fn counted_from(from: &Moment, try_current_month: bool, y: int, m: int) -> bool {
    if try_current_month {
        !month_before(y, m, from.year as int, from.month as int)
    } else {
        month_before(from.year as int, from.month as int, y, m)
    }
}

/// No moment from the second `from` up to, but without, the second `until` agrees with `at`.
pub open spec fn none_between(at: AtView, from: int, until: int) -> bool {
    forall|x: Moment|
        #![trigger at.matches(x)]
        x.valid() && from <= x.total_seconds() < until ==> !at.matches(x)
}

/// What moving on from `t` has to give: a later moment with no agreeing moment passed over,
/// or nothing, where no moment from `t` on agrees.
pub open spec fn moved_on(at: AtView, t: Moment, r: Option<Moment>) -> bool {
    match r {
        Some(next) => {
            &&& next.valid()
            &&& next.nanosecond == 0
            &&& t.total_seconds() < next.total_seconds()
            &&& none_between(at, t.total_seconds(), next.total_seconds())
        },
        None => none_between(at, t.total_seconds(), end_of_time()),
    }
}

/// A moment that is not earlier than `t` and lies before the end of the day of `t` lies on
/// that day, at a time of day that is not earlier.
proof fn lemma_within_day(t: Moment, x: Moment)
    requires
        t.valid(),
        x.valid(),
        t.total_seconds() <= x.total_seconds() < t.days() * 86400 + 86400,
    ensures
        x.year == t.year,
        x.month == t.month,
        x.day == t.day,
        t.second_of_day() <= x.second_of_day(),
        x.second_of_day() - t.second_of_day() == x.total_seconds() - t.total_seconds(),
{
    lemma_same_day(t, x);
}

/// A moment that is not earlier than `t` has a date that is not earlier.
proof fn lemma_date_not_earlier(t: Moment, x: Moment)
    requires
        t.valid(),
        x.valid(),
        t.total_seconds() <= x.total_seconds(),
    ensures
        !date_before(
            x.year as int,
            x.month as int,
            x.day as int,
            t.year as int,
            t.month as int,
            t.day as int,
        ),
{
    if date_before(
        x.year as int,
        x.month as int,
        x.day as int,
        t.year as int,
        t.month as int,
        t.day as int,
    ) {
        lemma_dates_ordered(
            x.year as int,
            x.month as int,
            x.day as int,
            t.year as int,
            t.month as int,
            t.day as int,
        );
    }
}

/// A moment that lies before midnight of the day `(y, m, d)` has an earlier date.
proof fn lemma_date_earlier(x: Moment, y: int, m: int, d: int)
    requires
        x.valid(),
        is_date(y, m, d),
        x.total_seconds() < day_number(y, m, d) * 86400,
    ensures
        date_before(x.year as int, x.month as int, x.day as int, y, m, d),
{
    if !date_before(x.year as int, x.month as int, x.day as int, y, m, d) {
        if x.year == y && x.month == m && x.day == d {
        } else {
            lemma_dates_ordered(y, m, d, x.year as int, x.month as int, x.day as int);
        }
    }
}

/// Moves on from a moment whose second is not selected: to the next selected second of the
/// minute, or to the start of the next minute.
#[verifier::spinoff_prover]
fn advance_second(t: &Moment, at: &At, step: Step) -> (r: Option<Moment>)
    requires
        t.valid(),
        t.nanosecond == 0,
        step != Step::Keep,
        step.leads(at@.seconds, t.second as int, 0, 59),
    ensures
        moved_on(at@, *t, r),
{
    match step {
        Step::Jump(target) => {
            let next = Moment { second: target, ..*t };
            proof {
                assert forall|x: Moment|
                    #![trigger at@.matches(x)]
                    x.valid() && t.total_seconds() <= x.total_seconds()
                        < next.total_seconds() implies !at@.matches(x) by {
                    lemma_within_day(*t, x);
                    assert(x.hour == t.hour && x.minute == t.minute);
                    assert(t.second <= x.second < target);
                }
            }
            Some(next)
        },
        _ => {
            let start = Moment { second: 0, ..*t };
            let r = add_seconds(&start, 60);
            proof {
                let until = if r is Some {
                    r.unwrap().total_seconds()
                } else {
                    end_of_time()
                };
                assert forall|x: Moment|
                    #![trigger at@.matches(x)]
                    x.valid() && t.total_seconds() <= x.total_seconds() < until implies !at@.matches(
                    x,
                ) by {
                    lemma_before_end_of_time(x);
                    lemma_within_day(*t, x);
                    assert(x.hour == t.hour && x.minute == t.minute);
                    assert(t.second <= x.second);
                }
            }
            r
        },
    }
}

/// Moves on from a moment whose minute is not selected: to the start of the next selected
/// minute of the hour, or to the start of the next hour.
#[verifier::spinoff_prover]
fn advance_minute(t: &Moment, at: &At, step: Step) -> (r: Option<Moment>)
    requires
        t.valid(),
        t.nanosecond == 0,
        step != Step::Keep,
        step.leads(at@.minutes, t.minute as int, 0, 59),
    ensures
        moved_on(at@, *t, r),
{
    match step {
        Step::Jump(target) => {
            let next = Moment { minute: target, second: 0, ..*t };
            proof {
                assert forall|x: Moment|
                    #![trigger at@.matches(x)]
                    x.valid() && t.total_seconds() <= x.total_seconds()
                        < next.total_seconds() implies !at@.matches(x) by {
                    lemma_within_day(*t, x);
                    assert(x.hour == t.hour);
                    assert(t.minute <= x.minute < target);
                }
            }
            Some(next)
        },
        _ => {
            let start = Moment { minute: 0, second: 0, ..*t };
            let r = add_seconds(&start, 3600);
            proof {
                let until = if r is Some {
                    r.unwrap().total_seconds()
                } else {
                    end_of_time()
                };
                assert forall|x: Moment|
                    #![trigger at@.matches(x)]
                    x.valid() && t.total_seconds() <= x.total_seconds() < until implies !at@.matches(
                    x,
                ) by {
                    lemma_before_end_of_time(x);
                    lemma_within_day(*t, x);
                    assert(x.hour == t.hour);
                    assert(t.minute <= x.minute);
                }
            }
            r
        },
    }
}

/// Moves on from a moment whose hour is not selected: to the start of the next selected hour
/// of the day, or to the start of the next day.
#[verifier::spinoff_prover]
fn advance_hour(t: &Moment, at: &At, step: Step) -> (r: Option<Moment>)
    requires
        t.valid(),
        t.nanosecond == 0,
        step != Step::Keep,
        step.leads(at@.hours, t.hour as int, 0, 23),
    ensures
        moved_on(at@, *t, r),
{
    match step {
        Step::Jump(target) => {
            let next = Moment { hour: target, minute: 0, second: 0, ..*t };
            proof {
                assert forall|x: Moment|
                    #![trigger at@.matches(x)]
                    x.valid() && t.total_seconds() <= x.total_seconds()
                        < next.total_seconds() implies !at@.matches(x) by {
                    lemma_within_day(*t, x);
                    assert(t.hour <= x.hour < target);
                }
            }
            Some(next)
        },
        _ => {
            let start = Moment { hour: 0, minute: 0, second: 0, ..*t };
            let r = add_seconds(&start, 86400);
            proof {
                let until = if r is Some {
                    r.unwrap().total_seconds()
                } else {
                    end_of_time()
                };
                assert forall|x: Moment|
                    #![trigger at@.matches(x)]
                    x.valid() && t.total_seconds() <= x.total_seconds() < until implies !at@.matches(
                    x,
                ) by {
                    lemma_before_end_of_time(x);
                    lemma_within_day(*t, x);
                    assert(t.hour <= x.hour);
                }
            }
            r
        },
    }
}

/// Moves on from a moment whose day is not selected: to the start of the next selected day of
/// the month, or to the start of the next month.
#[verifier::spinoff_prover]
fn advance_day(t: &Moment, at: &At, step: Step) -> (r: Option<Moment>)
    requires
        t.valid(),
        t.nanosecond == 0,
        step != Step::Keep,
        step.leads(at@.days, t.day as int, 1, 31),
    ensures
        moved_on(at@, *t, r),
{
    let ghost year = t.year as int;
    let ghost month = t.month as int;
    let midnight = Moment { hour: 0, minute: 0, second: 0, ..*t };
    if let Step::Jump(target) = step {
        if let Some(next) = replace_day(&midnight, target) {
            proof {
                assert forall|x: Moment|
                    #![trigger at@.matches(x)]
                    x.valid() && t.total_seconds() <= x.total_seconds()
                        < next.total_seconds() implies !at@.matches(x) by {
                    assert(t.days() <= x.days() < next.days());
                    lemma_day_in_month(year, month, x.year as int, x.month as int, x.day as int);
                    assert(t.day <= x.day < target);
                }
            }
            return Some(next);
        }
    }
    let first = Moment { day: 1, ..midnight };
    let r = next_month(&first);
    proof {
        lemma_months_fill_year(year);
        lemma_year_length(year);
        lemma_months_fill_year(year + 1);
        let length = days_in_month(year, month);
        let until = if r is Some {
            r.unwrap().total_seconds()
        } else {
            end_of_time()
        };
        if month < 12 {
            assert(days_in_month(year, month + 1) >= 28);
            assert(days_before_month(year, month + 1) == days_before_month(year, month) + length);
        } else if year < MAX_YEAR {
            assert(days_in_month(year + 1, 1) >= 28);
        }
        assert(until == (first.days() + length) * 86400);
        assert forall|x: Moment|
            #![trigger at@.matches(x)]
            x.valid() && t.total_seconds() <= x.total_seconds() < until implies !at@.matches(
            x,
        ) by {
            assert(t.days() <= x.days() < first.days() + length);
            lemma_day_in_month(year, month, x.year as int, x.month as int, x.day as int);
            assert(t.day <= x.day <= length);
        }
    }
    r
}

/// Moves on from a moment whose month is not selected: to the start of the next selected
/// month of the year, or to the start of the next year.
#[verifier::spinoff_prover]
fn advance_month(t: &Moment, at: &At, step: Step) -> (r: Option<Moment>)
    requires
        t.valid(),
        t.nanosecond == 0,
        step != Step::Keep,
        step.leads(at@.months, t.month as int, 1, 12),
    ensures
        moved_on(at@, *t, r),
{
    let ghost year = t.year as int;
    let first = Moment { day: 1, hour: 0, minute: 0, second: 0, ..*t };
    match step {
        Step::Jump(target) => {
            let r = replace_month(&first, target);
            proof {
                let next = r.unwrap();
                lemma_dates_ordered(year, t.month as int, t.day as int, year, target as int, 1);
                assert forall|x: Moment|
                    #![trigger at@.matches(x)]
                    x.valid() && t.total_seconds() <= x.total_seconds()
                        < next.total_seconds() implies !at@.matches(x) by {
                    lemma_date_not_earlier(*t, x);
                    lemma_date_earlier(x, year, target as int, 1);
                    assert(x.year == t.year);
                    assert(t.month <= x.month < target);
                }
            }
            r
        },
        _ => {
            let january = Moment { month: 1, ..first };
            let r = next_year(&january);
            proof {
                lemma_months_fill_year(year);
                lemma_months_fill_year(year + 1);
                lemma_year_length(year);
                if year < MAX_YEAR {
                    assert(is_date(year + 1, january.month as int, january.day as int));
                    lemma_dates_ordered(year, t.month as int, t.day as int, year + 1, 1, 1);
                }
                let until = if r is Some {
                    r.unwrap().total_seconds()
                } else {
                    end_of_time()
                };
                assert(until == day_number(year + 1, 1, 1) * 86400) by {
                    match r {
                        Some(next) => {
                            assert(next.year == year + 1);
                            assert(next.month == 1 && next.day == 1);
                            assert(next.second_of_day() == 0);
                            assert(next.days() == day_number(year + 1, 1, 1));
                        },
                        None => {
                            assert(year == MAX_YEAR);
                        },
                    }
                }
                assert forall|x: Moment|
                    #![trigger at@.matches(x)]
                    x.valid() && t.total_seconds() <= x.total_seconds() < until implies !at@.matches(
                    x,
                ) by {
                    lemma_date_not_earlier(*t, x);
                    lemma_date_earlier(x, year + 1, 1, 1);
                    assert(x.year == t.year);
                    assert(t.month <= x.month);
                }
            }
            r
        },
    }
}

/// What the search for the upcoming moment has to give: the first moment, from the second of
/// `after` on and within the four years after its year, that agrees with `at` field by field;
/// or the error `NoSuchDate`, where no moment in that span agrees.
pub open spec fn upcoming(at: AtView, after: Moment, r: Result<Moment, Error>) -> bool {
    match r {
        Ok(next) => {
            &&& next.valid()
            &&& next.nanosecond == 0
            &&& at.matches(next)
            &&& after.total_seconds() <= next.total_seconds()
            &&& next.year <= after.year + 4
            &&& none_between(at, after.total_seconds(), next.total_seconds())
        },
        Err(e) => {
            &&& e == Error::NoSuchDate
            &&& forall|x: Moment|
                #![trigger at.matches(x)]
                x.valid() && after.total_seconds() <= x.total_seconds() && x.year <= after.year
                    + 4 ==> !at.matches(x)
        },
    }
}

/// The first moment, from the second of `after` on, at which all five fields agree with `at`.
/// The search ends with the fourth year after the year of `after`.
#[verifier::spinoff_prover]
pub fn get_upcoming_moment(after: Moment, at: &At) -> (r: Result<Moment, Error>)
    requires
        after.valid(),
        at@.wf(),
    ensures
        upcoming(at@, after, r),
{
    let last_year: i32 = if after.year <= MAX_YEAR - 4 {
        after.year + 4
    } else {
        MAX_YEAR
    };
    let mut next = second_precision(after);
    loop
        invariant
            after.valid(),
            at@.wf(),
            last_year == if after.year <= MAX_YEAR - 4 {
                after.year + 4
            } else {
                MAX_YEAR as int
            },
            next.valid(),
            next.nanosecond == 0,
            after.total_seconds() <= next.total_seconds(),
            none_between(at@, after.total_seconds(), next.total_seconds()),
        decreases end_of_time() - next.total_seconds(),
    {
        proof {
            lemma_before_end_of_time(next);
        }
        if next.year > last_year {
            proof {
                assert forall|x: Moment|
                    #![trigger at@.matches(x)]
                    x.valid() && after.total_seconds() <= x.total_seconds() && x.year
                        <= after.year + 4 implies !at@.matches(x) by {
                    lemma_dates_ordered(
                        x.year as int,
                        x.month as int,
                        x.day as int,
                        next.year as int,
                        next.month as int,
                        next.day as int,
                    );
                }
            }
            return Err(Error::NoSuchDate);
        }
        let month_step = resolve(&at.months, next.month, 1, 12);
        let moved = if month_step != Step::Keep {
            advance_month(&next, at, month_step)
        } else {
            let day_step = resolve(&at.days, next.day, 1, 31);
            if day_step != Step::Keep {
                advance_day(&next, at, day_step)
            } else {
                let hour_step = resolve(&at.hours, next.hour, 0, 23);
                if hour_step != Step::Keep {
                    advance_hour(&next, at, hour_step)
                } else {
                    let minute_step = resolve(&at.minutes, next.minute, 0, 59);
                    if minute_step != Step::Keep {
                        advance_minute(&next, at, minute_step)
                    } else {
                        let second_step = resolve(&at.seconds, next.second, 0, 59);
                        if second_step != Step::Keep {
                            advance_second(&next, at, second_step)
                        } else {
                            return Ok(next);
                        }
                    }
                }
            }
        };
        match moved {
            Some(later) => {
                proof {
                    lemma_before_end_of_time(later);
                }
                next = later;
            },
            None => {
                proof {
                    assert forall|x: Moment|
                        #![trigger at@.matches(x)]
                        x.valid() && after.total_seconds() <= x.total_seconds() implies !at@.matches(
                        x,
                    ) by {
                        lemma_before_end_of_time(x);
                    }
                }
                return Err(Error::NoSuchDate);
            },
        }
    }
}

/// What the search for a new upcoming moment has to give, `last` being the moment that was
/// planned before: the upcoming moment of `after` where that is not `last`; else the upcoming
/// moment of the second after `after`, with `NoSuchDate` where that second cannot be held.
pub open spec fn new_upcoming(at: AtView, after: Moment, last: Moment, r: Result<Moment, Error>) -> bool {
    if upcoming(at, after, Ok(last)) {
        if after.total_seconds() + 1 < end_of_time() {
            exists|later: Moment|
                #![trigger later.valid()]
                later.valid() && later.total_seconds() == after.total_seconds() + 1
                    && later.nanosecond == after.nanosecond && upcoming(at, later, r)
        } else {
            r == Err::<Moment, Error>(Error::NoSuchDate)
        }
    } else {
        upcoming(at, after, r)
    }
}

/// At most one moment is the upcoming one.
pub proof fn lemma_upcoming_unique(at: AtView, after: Moment, a: Moment, b: Result<Moment, Error>)
    requires
        upcoming(at, after, Ok(a)),
        upcoming(at, after, b),
    ensures
        b == Ok::<Moment, Error>(a),
{
    match b {
        Ok(other) => {
            if a.total_seconds() < other.total_seconds() {
                assert(!at.matches(a));
            } else if other.total_seconds() < a.total_seconds() {
                assert(!at.matches(other));
            }
            lemma_total_seconds_injective(a, other);
        },
        Err(_) => {
            assert(!at.matches(a));
        },
    }
}

/// The upcoming moment of `after` that differs from `last`, the moment planned before: where
/// the search from `after` gives `last` again, it is made again from one second later.
#[verifier::spinoff_prover]
pub fn get_new_upcoming_moment(after: Moment, at: &At, last: Moment) -> (r: Result<Moment, Error>)
    requires
        after.valid(),
        at@.wf(),
    ensures
        new_upcoming(at@, after, last, r),
        r is Err ==> r == Err::<Moment, Error>(Error::NoSuchDate),
        r matches Ok(next) ==> next.valid() && next.nanosecond == 0 && at@.matches(next)
            && after.total_seconds() <= next.total_seconds(),
        r matches Ok(next) ==> (last.valid() && last.nanosecond == 0 && last.total_seconds()
            <= after.total_seconds() ==> last.total_seconds() < next.total_seconds()),
{
    let found = get_upcoming_moment(after, at);
    match found {
        Ok(first) => {
            if first != last {
                proof {
                    if upcoming(at@, after, Ok(last)) {
                        lemma_upcoming_unique(at@, after, last, found);
                    }
                    if last.valid() && last.nanosecond == 0 && last.total_seconds()
                        == first.total_seconds()
                        && last.total_seconds() <= after.total_seconds() {
                        lemma_total_seconds_injective(last, first);
                    }
                }
                Ok(first)
            } else {
                match add_seconds(&after, 1) {
                    Some(later) => get_upcoming_moment(later, at),
                    None => Err(Error::NoSuchDate),
                }
            }
        },
        Err(e) => {
            proof {
                if upcoming(at@, after, Ok(last)) {
                    lemma_upcoming_unique(at@, after, last, found);
                }
            }
            Err(e)
        },
    }
}

/// Within one turn of the ring, the distance is the difference, taken upwards.
pub proof fn lemma_ring_distance(candidate: int, curr: int, total: int)
    requires
        candidate < curr + total,
        curr < candidate + total,
    ensures
        ring_distance(candidate, curr, total) == (if candidate < curr {
            candidate + total - curr
        } else {
            candidate - curr
        }),
{
    let d = if candidate < curr {
        candidate + total - curr
    } else {
        candidate - curr
    };
    let diff = candidate - curr;
    assert(diff % total == d) by (nonlinear_arith)
        requires
            0 <= d < total,
            d == diff || d == diff + total,
    ;
}

} // verus!
