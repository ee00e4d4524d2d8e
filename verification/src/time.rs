//! Calendar dates, moments, and the account-age capacity rule.
//!
//! A player's capacity is one slot plus one per whole calendar month elapsed
//! since the account was created: the month distance between the two dates,
//! less one when the day of month of the anniversary has not yet been reached.

use vstd::prelude::*;

verus! {

/// A calendar date: year, month (1..=12) and day of month (1..=31).
#[derive(Clone, Copy, PartialEq, Eq, Structural, Debug)]
pub struct Date {
    pub year: i32,
    pub month: i32,
    pub day: i32,
}

impl Date {
    /// The field ranges of a real calendar date.
    pub open spec fn wf(self) -> bool {
        1 <= self.month <= 12 && 1 <= self.day <= 31
    }
}

/// A point in time: its calendar date together with whole seconds since the
/// epoch. The two parts are carried side by side; the date drives the capacity
/// rule and the seconds drive the cooldown arithmetic.
#[derive(Clone, Copy, PartialEq, Eq, Structural, Debug)]
pub struct Moment {
    pub date: Date,
    pub secs: i64,
}

impl Moment {
    pub open spec fn wf(self) -> bool {
        self.date.wf() && self.secs >= 0
    }
}

/// `a` is no later than `b` in calendar order.
pub open spec fn date_le(a: Date, b: Date) -> bool {
    a.year < b.year
        || (a.year == b.year && a.month < b.month)
        || (a.year == b.year && a.month == b.month && a.day <= b.day)
}

/// Whole calendar months elapsed from `created` to `now`.
pub open spec fn months_between(created: Date, now: Date) -> int {
    (now.year - created.year) * 12 + (now.month - created.month)
        - (if now.day < created.day { 1int } else { 0int })
}

/// The slot capacity at `now` of an account created at `created`.
pub open spec fn spec_capacity(created: Date, now: Date) -> int {
    1 + months_between(created, now)
}

/// Computes the capacity of an account created at `created`, as of `now`.
pub fn capacity_value(created: Date, now: Date) -> (n: i64)
    ensures
        n == spec_capacity(created, now),
{
    let year_diff: i64 = now.year as i64 - created.year as i64;
    let month_diff: i64 = now.month as i64 - created.month as i64;
    let mut total: i64 = year_diff * 12 + month_diff;
    if now.day < created.day {
        total = total - 1;
    }
    total + 1
}

/// Capacity is at least one whenever the clock has not run backwards past the
/// account's creation date.
pub proof fn lemma_capacity_at_least_one(created: Date, now: Date)
    requires
        created.wf(),
        now.wf(),
        date_le(created, now),
    ensures
        spec_capacity(created, now) >= 1,
{
    if created.year == now.year && created.month == now.month {
        assert(now.day >= created.day);
    }
}

/// For a fixed creation date, capacity never decreases as time moves forward.
/// Together with `lemma_capacity_at_least_one` this gives the growth
/// invariant: capacity is monotone in time and always at least one.
pub proof fn lemma_capacity_monotone(created: Date, d1: Date, d2: Date)
    requires
        created.wf(),
        d1.wf(),
        d2.wf(),
        date_le(created, d1),
        date_le(d1, d2),
    ensures
        1 <= spec_capacity(created, d1) <= spec_capacity(created, d2),
{
    lemma_capacity_at_least_one(created, d1);
    if d1.year == d2.year && d1.month == d2.month {
        assert(d1.day <= d2.day);
    } else {
        assert(d1.year * 12 + d1.month < d2.year * 12 + d2.month);
    }
}

/// Capacity counts exactly the anniversaries that have already occurred:
/// when `now` lies `k` calendar months after `created` in the year-month
/// grid, the capacity is `k + 1` from the anniversary day onward and still
/// `k` on the days before it. In particular it never increments early.
pub proof fn lemma_capacity_counts_anniversaries(created: Date, now: Date, k: int)
    requires
        created.wf(),
        now.wf(),
        (now.year - created.year) * 12 + (now.month - created.month) == k,
    ensures
        now.day >= created.day ==> spec_capacity(created, now) == k + 1,
        now.day < created.day ==> spec_capacity(created, now) == k,
{
}

/// One month after the account was created, on the same day of month, the
/// capacity is exactly two.
pub proof fn lemma_capacity_one_month_later(created: Date, now: Date)
    requires
        created.wf(),
        now.wf(),
        now.day == created.day,
        created.month < 12 ==> now.year == created.year && now.month == created.month + 1,
        created.month == 12 ==> now.year == created.year + 1 && now.month == 1,
    ensures
        spec_capacity(created, now) == 2,
{
    lemma_capacity_counts_anniversaries(created, now, 1);
}

} // verus!
