//! The habit record and the history engine: marking and unmarking dates,
//! and deriving the current streak from the history.

use crate::date::{iso_day, iso_text, Date};
use vstd::prelude::*;

verus! {

broadcast use vstd::seq_lib::group_seq_properties;

/// Why an operation on habits was refused.
#[derive(Clone, Copy, Debug, PartialEq, Eq, Structural)]
pub enum HabitError {
    /// No habit of the given name is held.
    HabitNotFound,
    /// A habit of the given name is already held.
    DuplicateHabit,
    /// A date could not be read, or lies in the future.
    InvalidDate,
}

/// A tracked habit: its name, its cached streak, and the days it was done.
#[derive(Debug)]
pub struct Habit {
    pub name: String,
    pub streak: u32,
    pub history: Vec<Date>,
}

/// Each entry of `s` lies strictly after the one before it.
pub open spec fn strictly_ascending(s: Seq<Date>) -> bool {
    forall|i: int, j: int| 0 <= i < j < s.len() ==> s[i].days < s[j].days
}

impl Habit {
    /// The history is strictly ascending, hence free of duplicates.
    pub open spec fn wf(&self) -> bool {
        strictly_ascending(self.history@)
    }

    /// The days on which the habit was done.
    pub open spec fn dates(&self) -> Set<Date> {
        self.history@.to_set()
    }

    /// Index of the first entry that is not before `d`.
    fn position_of(&self, d: Date) -> (i: usize)
        requires
            self.wf(),
        ensures
            i <= self.history@.len(),
            forall|k: int| 0 <= k < i ==> self.history@[k].days < d.days,
            i < self.history@.len() ==> d.days <= self.history@[i as int].days,
    {
        let mut i: usize = 0;
        while i < self.history.len() && self.history[i].days < d.days
            invariant
                i <= self.history@.len(),
                forall|k: int| 0 <= k < i ==> self.history@[k].days < d.days,
            decreases self.history@.len() - i,
        {
            i = i + 1;
        }
        i
    }

    /// Adds `d` to the history at its place; reports whether it was absent.
    fn insert_date(&mut self, d: Date) -> (added: bool)
        requires
            old(self).wf(),
        ensures
            final(self).wf(),
            final(self).dates() == old(self).dates().insert(d),
            added == !old(self).dates().contains(d),
            final(self).name == old(self).name,
            final(self).streak == old(self).streak,
    {
        let i = self.position_of(d);
        if i < self.history.len() && self.history[i].days == d.days {
            assert(self.history@[i as int] == d);
            assert(self.dates() =~= self.dates().insert(d));
            return false;
        }
        let ghost before = self.history@;
        assert(!before.contains(d)) by {
            if before.contains(d) {
                let j = choose|j: int| 0 <= j < before.len() && before[j] == d;
                if j < i {
                } else {
                    assert(before[i as int].days <= before[j].days);
                }
            }
        }
        self.history.insert(i, d);
        let ghost after = self.history@;
        assert(after[i as int] == d);
        assert forall|x: Date| after.contains(x) <==> (before.contains(x) || x == d) by {
            if after.contains(x) {
                let j = choose|j: int| 0 <= j < after.len() && after[j] == x;
                if j < i {
                    assert(before[j] == x);
                } else if j > i {
                    assert(before[j - 1] == x);
                }
            }
            if before.contains(x) {
                let j = choose|j: int| 0 <= j < before.len() && before[j] == x;
                if j < i {
                    assert(after[j] == x);
                } else {
                    assert(after[j + 1] == x);
                }
            }
        }
        assert(self.dates() =~= old(self).dates().insert(d));
        true
    }

    /// Takes `d` out of the history; reports whether it was present.
    fn remove_date(&mut self, d: Date) -> (removed: bool)
        requires
            old(self).wf(),
        ensures
            final(self).wf(),
            final(self).dates() == old(self).dates().remove(d),
            removed == old(self).dates().contains(d),
            final(self).name == old(self).name,
            final(self).streak == old(self).streak,
    {
        let i = self.position_of(d);
        let ghost before = self.history@;
        if i < self.history.len() && self.history[i].days == d.days {
            assert(before[i as int] == d);
            self.history.remove(i);
            let ghost after = self.history@;
            assert forall|x: Date| after.contains(x) <==> (before.contains(x) && x != d) by {
                if after.contains(x) {
                    let j = choose|j: int| 0 <= j < after.len() && after[j] == x;
                    if j < i {
                        assert(before[j] == x);
                    } else {
                        assert(before[j + 1] == x);
                    }
                }
                if before.contains(x) && x != d {
                    let j = choose|j: int| 0 <= j < before.len() && before[j] == x;
                    if j < i {
                        assert(after[j] == x);
                    } else {
                        assert(after[j - 1] == x);
                    }
                }
            }
            assert(self.dates() =~= old(self).dates().remove(d));
            return true;
        }
        assert(!before.contains(d)) by {
            if before.contains(d) {
                let j = choose|j: int| 0 <= j < before.len() && before[j] == d;
                if j < i {
                } else {
                    assert(before[i as int].days <= before[j].days);
                }
            }
        }
        assert(self.dates() =~= old(self).dates().remove(d));
        false
    }
}


/// Length of the run of consecutive days that ends with the last entry of `s`.
pub open spec fn trailing_run(s: Seq<Date>) -> nat
    decreases s.len(),
{
    if s.len() == 0 {
        0
    } else if s.len() >= 2 && s[s.len() - 2].days + 1 == s.last().days {
        1 + trailing_run(s.drop_last())
    } else {
        1
    }
}

/// The streak of history `s` as of day `today`: the run of consecutive days that
/// ends at the latest entry on or before `today`, provided that entry is `today`
/// or the day before; 0 when there is no such entry.
pub open spec fn streak_of(s: Seq<Date>, today: int) -> nat
    decreases s.len(),
{
    if s.len() == 0 {
        0
    } else if s.last().days > today {
        streak_of(s.drop_last(), today)
    } else if s.last().days + 1 < today {
        0
    } else {
        trailing_run(s)
    }
}

/// `n` as a `u32`, held at `u32::MAX` where it does not fit.
pub open spec fn capped(n: nat) -> u32 {
    if n > u32::MAX {
        u32::MAX
    } else {
        n as u32
    }
}

/// What Invalidate leaves of `h` on day `today`: the streak derived anew from the history.
pub open spec fn invalidated(h: Habit, today: Date) -> Habit {
    Habit { name: h.name, streak: capped(streak_of(h.history@, today.days as int)), history: h.history }
}

/// The days that a mark or an unmark with `dates` acts on: `today` when `dates` is
/// empty, else those of `dates` that are not after `today`.
pub open spec fn targets(dates: Seq<Date>, today: Date) -> Set<Date> {
    if dates.len() == 0 {
        set![today]
    } else {
        Set::new(|d: Date| dates.contains(d) && d.days <= today.days)
    }
}

/// The dates of `dates` that lie after `today`, in their order.
pub open spec fn future_dates(dates: Seq<Date>, today: Date) -> Seq<Date> {
    dates.filter(|d: Date| d.days > today.days)
}

/// The outcome of a mark or an unmark.
#[derive(Debug)]
pub struct MarkReport {
    /// Whether the history changed.
    pub changed: bool,
    /// The given dates that were refused because they lie after today.
    pub rejected: Vec<Date>,
}

/// The streak of `history` as of `today` (see `streak_of`), held at `u32::MAX`.
pub fn current_streak(history: &Vec<Date>, today: Date) -> (r: u32)
    ensures
        r == capped(streak_of(history@, today.days as int)),
{
    let ghost s = history@;
    let ghost t = today.days as int;
    let mut end: usize = history.len();
    assert(s.take(end as int) =~= s);
    while end > 0 && history[end - 1].days > today.days
        invariant
            end <= s.len(),
            s == history@,
            t == today.days as int,
            streak_of(s.take(end as int), t) == streak_of(s, t),
        decreases end,
    {
        let ghost p = s.take(end as int);
        assert(p.drop_last() =~= s.take(end - 1));
        assert(p.len() == end);
        assert(p.last() == s[end - 1]);
        assert(p.last().days > t);
        assert(streak_of(p, t) == streak_of(p.drop_last(), t));
        end = end - 1;
    }
    if end == 0 {
        return 0;
    }
    if (history[end - 1].days as i64) + 1 < today.days as i64 {
        return 0;
    }
    assert(s.take(end as int).last() == s[end - 1]);
    assert(streak_of(s.take(end as int), t) == trailing_run(s.take(end as int)));
    let ghost run = trailing_run(s.take(end as int));
    let mut count: u32 = 1;
    let mut k: usize = end - 1;
    while k > 0 && count < u32::MAX && history[k - 1].days as i64 + 1 == history[k].days as i64
        invariant
            k < end <= s.len(),
            s == history@,
            1 <= count,
            run == trailing_run(s.take(end as int)),
            count + trailing_run(s.take(k + 1)) - 1 == run,
            trailing_run(s.take(k + 1)) >= 1,
        decreases k,
    {
        let ghost p = s.take(k + 1);
        assert(p.drop_last() =~= s.take(k as int));
        assert(p[k - 1] == s[k - 1] && p.last() == s[k as int]);
        assert(trailing_run(p) == 1 + trailing_run(s.take(k as int)));
        assert(trailing_run(s.take(k as int)) >= 1);
        count = count + 1;
        k = k - 1;
    }
    if k > 0 && count < u32::MAX {
        let ghost p = s.take(k + 1);
        assert(p[k - 1] == s[k - 1] && p.last() == s[k as int]);
        assert(trailing_run(p) == 1);
    }
    if k == 0 {
        assert(trailing_run(s.take(1)) == 1);
    }
    count
}

impl Habit {
    /// A new habit with no history and no streak.
    pub fn new(name: &str) -> (h: Habit)
        ensures
            h.name@ == name@,
            h.streak == 0,
            h.history@.len() == 0,
            h.wf(),
    {
        Habit { name: name.to_owned(), streak: 0, history: Vec::new() }
    }

    /// Derives the streak anew from the history as of `today`.
    pub fn invalidate(&mut self, today: Date)
        ensures
            *final(self) == invalidated(*old(self), today),
            old(self).history@.len() > 0 && old(self).history@.last().days + 1 < today.days
                ==> final(self).streak == 0,
    {
        self.streak = current_streak(&self.history, today);
    }
}

impl Habit {
    /// Marks the habit done. With no `dates`, marks `today` and adds one to the streak
    /// (held at `u32::MAX`) when today was not yet marked. With `dates`, marks each one
    /// that is not after `today`, refuses the others, and leaves the streak as it was.
    pub fn mark(&mut self, dates: &Vec<Date>, today: Date) -> (r: MarkReport)
        requires
            old(self).wf(),
        ensures
            final(self).wf(),
            final(self).name == old(self).name,
            final(self).dates() == old(self).dates().union(targets(dates@, today)),
            r.changed == (final(self).dates() != old(self).dates()),
            r.rejected@ == future_dates(dates@, today),
            dates@.len() == 0 ==> r.changed == !old(self).dates().contains(today),
            dates@.len() == 0 ==> final(self).streak == (if r.changed {
                capped((old(self).streak + 1) as nat)
            } else {
                old(self).streak
            }),
            dates@.len() > 0 ==> final(self).streak == old(self).streak,
    {
        let mut rejected: Vec<Date> = Vec::new();
        if dates.len() == 0 {
            let added = self.insert_date(today);
            if added {
                self.streak = self.streak.saturating_add(1);
                assert(self.dates().contains(today));
            } else {
                assert(self.dates() =~= old(self).dates());
            }
            assert(targets(dates@, today) =~= set![today]);
            assert(self.dates() =~= old(self).dates().union(targets(dates@, today)));
            proof {
                reveal(Seq::filter);
            }
            assert(future_dates(dates@, today) =~= Seq::<Date>::empty());
            return MarkReport { changed: added, rejected };
        }
        let mut changed = false;
        let mut i: usize = 0;
        assert(dates@.take(0) =~= Seq::<Date>::empty());
        proof {
            reveal(Seq::filter);
        }
        assert(old(self).dates() =~= old(self).dates().union(
            Set::new(|d: Date| dates@.take(0).contains(d) && d.days <= today.days),
        ));
        while i < dates.len()
            invariant
                self.wf(),
                self.name == old(self).name,
                self.streak == old(self).streak,
                i <= dates@.len(),
                self.dates() == old(self).dates().union(
                    Set::new(|d: Date| dates@.take(i as int).contains(d) && d.days <= today.days),
                ),
                changed == (self.dates() != old(self).dates()),
                rejected@ == future_dates(dates@.take(i as int), today),
            decreases dates@.len() - i,
        {
            let d = dates[i];
            let ghost cur = self.dates();
            assert(dates@.take(i + 1) =~= dates@.take(i as int).push(d));
            proof {
                reveal(Seq::filter);
            }
            assert(dates@.take(i + 1).drop_last() =~= dates@.take(i as int));
            if d.days > today.days {
                rejected.push(d);
                assert(Set::new(|x: Date| dates@.take(i + 1).contains(x) && x.days <= today.days)
                    =~= Set::new(|x: Date| dates@.take(i as int).contains(x) && x.days <= today.days));
            } else {
                let added = self.insert_date(d);
                assert(Set::new(|x: Date| dates@.take(i + 1).contains(x) && x.days <= today.days)
                    =~= Set::new(|x: Date| dates@.take(i as int).contains(x) && x.days <= today.days).insert(d));
                assert(self.dates() =~= old(self).dates().union(
                    Set::new(|x: Date| dates@.take(i + 1).contains(x) && x.days <= today.days),
                ));
                if added {
                    assert(self.dates().contains(d) && !old(self).dates().contains(d));
                } else {
                    assert(self.dates() =~= cur);
                }
                changed = changed || added;
            }
            i = i + 1;
        }
        assert(dates@.take(dates@.len() as int) =~= dates@);
        assert(targets(dates@, today) =~= Set::new(
            |d: Date| dates@.take(dates@.len() as int).contains(d) && d.days <= today.days,
        ));
        MarkReport { changed, rejected }
    }

    /// Unmarks the habit. With no `dates`, takes `today` out of the history. With
    /// `dates`, takes out each one that is not after `today` (those absent are passed
    /// over) and refuses the others. The streak is left as it was.
    pub fn unmark(&mut self, dates: &Vec<Date>, today: Date) -> (r: MarkReport)
        requires
            old(self).wf(),
        ensures
            final(self).wf(),
            final(self).name == old(self).name,
            final(self).streak == old(self).streak,
            final(self).dates() == old(self).dates().difference(targets(dates@, today)),
            r.changed == (final(self).dates() != old(self).dates()),
            r.rejected@ == future_dates(dates@, today),
    {
        let mut rejected: Vec<Date> = Vec::new();
        proof {
            reveal(Seq::filter);
        }
        if dates.len() == 0 {
            let removed = self.remove_date(today);
            if removed {
                assert(old(self).dates().contains(today) && !self.dates().contains(today));
            } else {
                assert(self.dates() =~= old(self).dates());
            }
            assert(targets(dates@, today) =~= set![today]);
            assert(self.dates() =~= old(self).dates().difference(targets(dates@, today)));
            assert(future_dates(dates@, today) =~= Seq::<Date>::empty());
            return MarkReport { changed: removed, rejected };
        }
        let mut changed = false;
        let mut i: usize = 0;
        assert(dates@.take(0) =~= Seq::<Date>::empty());
        assert(old(self).dates() =~= old(self).dates().difference(
            Set::new(|d: Date| dates@.take(0).contains(d) && d.days <= today.days),
        ));
        while i < dates.len()
            invariant
                self.wf(),
                self.name == old(self).name,
                self.streak == old(self).streak,
                i <= dates@.len(),
                self.dates() == old(self).dates().difference(
                    Set::new(|d: Date| dates@.take(i as int).contains(d) && d.days <= today.days),
                ),
                changed == (self.dates() != old(self).dates()),
                rejected@ == future_dates(dates@.take(i as int), today),
            decreases dates@.len() - i,
        {
            let d = dates[i];
            let ghost cur = self.dates();
            assert(dates@.take(i + 1) =~= dates@.take(i as int).push(d));
            proof {
                reveal(Seq::filter);
            }
            assert(dates@.take(i + 1).drop_last() =~= dates@.take(i as int));
            if d.days > today.days {
                rejected.push(d);
                assert(Set::new(|x: Date| dates@.take(i + 1).contains(x) && x.days <= today.days)
                    =~= Set::new(|x: Date| dates@.take(i as int).contains(x) && x.days <= today.days));
            } else {
                let removed = self.remove_date(d);
                assert(Set::new(|x: Date| dates@.take(i + 1).contains(x) && x.days <= today.days)
                    =~= Set::new(|x: Date| dates@.take(i as int).contains(x) && x.days <= today.days).insert(d));
                assert(self.dates() =~= old(self).dates().difference(
                    Set::new(|x: Date| dates@.take(i + 1).contains(x) && x.days <= today.days),
                ));
                if removed {
                    assert(!self.dates().contains(d) && old(self).dates().contains(d));
                } else {
                    assert(self.dates() =~= cur);
                }
                changed = changed || removed;
            }
            i = i + 1;
        }
        assert(dates@.take(dates@.len() as int) =~= dates@);
        assert(targets(dates@, today) =~= Set::new(
            |d: Date| dates@.take(dates@.len() as int).contains(d) && d.days <= today.days,
        ));
        MarkReport { changed, rejected }
    }
}

/// Every text of `texts` reads as a day.
pub open spec fn all_read(texts: Seq<String>) -> bool {
    forall|i: int| 0 <= i < texts.len() ==> iso_day(texts[i]@) is Some
}

/// The days that the texts of `texts` read as.
pub open spec fn days_read(texts: Seq<String>) -> Set<Date> {
    Set::new(|d: Date| exists|i: int| 0 <= i < texts.len() && iso_day(texts[i]@) == Some(d.days))
}

impl Habit {
    /// Builds a habit from its stored form, whose history is a list of ISO
    /// `YYYY-MM-DD` texts in any order, possibly repeated. The history comes out
    /// sorted and without duplicates. Refused with `InvalidDate` when a text does
    /// not read as a day.
    pub fn from_record(name: String, streak: u32, history: &Vec<String>) -> (r: Result<Habit, HabitError>)
        ensures
            r is Ok <==> all_read(history@),
            r is Err ==> r->Err_0 == HabitError::InvalidDate,
            r is Ok ==> {
                &&& r->Ok_0.wf()
                &&& r->Ok_0.name == name
                &&& r->Ok_0.streak == streak
                &&& r->Ok_0.dates() == days_read(history@)
            },
    {
        let mut h = Habit { name, streak, history: Vec::new() };
        let mut i: usize = 0;
        assert(h.dates() =~= days_read(history@.take(0)));
        while i < history.len()
            invariant
                i <= history@.len(),
                h.wf(),
                h.name == name,
                h.streak == streak,
                all_read(history@.take(i as int)),
                h.dates() == days_read(history@.take(i as int)),
            decreases history@.len() - i,
        {
            assert(history@.take(i + 1) =~= history@.take(i as int).push(history@[i as int]));
            match Date::parse(history[i].as_str()) {
                Some(d) => {
                    h.insert_date(d);
                    let ghost p = history@.take(i as int);
                    let ghost q = history@.take(i + 1);
                    assert forall|x: Date| h.dates().contains(x) implies #[trigger] days_read(q).contains(x) by {
                        if x == d {
                            assert(q[i as int] == history@[i as int]);
                        } else {
                            assert(days_read(p).contains(x));
                            let j = choose|j: int| 0 <= j < p.len() && iso_day(#[trigger] p[j]@) == Some(x.days);
                            assert(q[j] == p[j]);
                        }
                    }
                    assert forall|x: Date| #[trigger] days_read(q).contains(x) implies h.dates().contains(x) by {
                        let j = choose|j: int| 0 <= j < q.len() && iso_day(#[trigger] q[j]@) == Some(x.days);
                        if j < i {
                            assert(p[j] == q[j]);
                            assert(days_read(p).contains(x));
                        } else {
                            assert(x.days == d.days);
                        }
                    }
                    assert(h.dates() =~= days_read(q));
                },
                None => {
                    assert(!all_read(history@)) by {
                        assert(iso_day(history@[i as int]@) is None);
                    }
                    return Err(HabitError::InvalidDate);
                },
            }
            i = i + 1;
        }
        assert(history@.take(history@.len() as int) =~= history@);
        Ok(h)
    }

    /// The history as ISO `YYYY-MM-DD` texts, in its order, or `None` where a day
    /// cannot be written.
    pub fn history_texts(&self) -> (r: Option<Vec<String>>)
        ensures
            r is Some <==> forall|i: int| 0 <= i < self.history@.len() ==> iso_text(self.history@[i].days) is Some,
            r is Some ==> r->Some_0@.len() == self.history@.len() && forall|i: int|
                0 <= i < self.history@.len() ==> iso_text(self.history@[i].days) == Some(
                    #[trigger] r->Some_0@[i]@,
                ),
    {
        let mut out: Vec<String> = Vec::new();
        let mut i: usize = 0;
        while i < self.history.len()
            invariant
                i <= self.history@.len(),
                out@.len() == i,
                forall|k: int| 0 <= k < i ==> iso_text(self.history@[k].days) == Some(#[trigger] out@[k]@),
            decreases self.history@.len() - i,
        {
            match self.history[i].to_iso() {
                Some(t) => out.push(t),
                None => {
                    assert(iso_text(self.history@[i as int].days) is None);
                    return None;
                },
            }
            i = i + 1;
        }
        assert forall|k: int| 0 <= k < self.history@.len() implies iso_text(self.history@[k].days) is Some by {
            assert(iso_text(self.history@[k].days) == Some(out@[k]@));
        }
        Some(out)
    }
}

/// A well-formed history holds no date twice.
pub proof fn lemma_history_has_no_duplicates(h: Habit)
    requires
        h.wf(),
    ensures
        h.history@.no_duplicates(),
{
}

/// Two strictly ascending sequences that hold the same dates are equal.
pub proof fn lemma_ascending_determined_by_dates(a: Seq<Date>, b: Seq<Date>)
    requires
        strictly_ascending(a),
        strictly_ascending(b),
        a.to_set() == b.to_set(),
    ensures
        a == b,
    decreases a.len() + b.len(),
{
    if a.len() == 0 || b.len() == 0 {
        if a.len() > 0 {
            assert(a.to_set().contains(a[0]));
        }
        if b.len() > 0 {
            assert(b.to_set().contains(b[0]));
        }
        assert(a =~= b);
    } else {
        let x = a.last();
        let y = b.last();
        assert(a.to_set().contains(x));
        assert(b.to_set().contains(y));
        let j = choose|j: int| 0 <= j < b.len() && b[j] == x;
        let k = choose|k: int| 0 <= k < a.len() && a[k] == y;
        assert(x == y) by {
            assert(x.days <= y.days) by {
                assert(b[j].days <= b[b.len() - 1].days || j == b.len() - 1);
            }
            assert(y.days <= x.days) by {
                assert(a[k].days <= a[a.len() - 1].days || k == a.len() - 1);
            }
        }
        let a2 = a.drop_last();
        let b2 = b.drop_last();
        assert forall|d: Date| a2.to_set().contains(d) <==> b2.to_set().contains(d) by {
            if a2.to_set().contains(d) {
                let i = choose|i: int| 0 <= i < a2.len() && a2[i] == d;
                assert(a[i] == d && d.days < x.days);
                assert(b.to_set().contains(d));
                let m = choose|m: int| 0 <= m < b.len() && b[m] == d;
                assert(m != b.len() - 1);
                assert(b2[m] == d);
            }
            if b2.to_set().contains(d) {
                let i = choose|i: int| 0 <= i < b2.len() && b2[i] == d;
                assert(b[i] == d && d.days < y.days);
                assert(a.to_set().contains(d));
                let m = choose|m: int| 0 <= m < a.len() && a[m] == d;
                assert(m != a.len() - 1);
                assert(a2[m] == d);
            }
        }
        assert(a2.to_set() =~= b2.to_set());
        lemma_ascending_determined_by_dates(a2, b2);
        assert(a =~= a2.push(x));
        assert(b =~= b2.push(y));
    }
}

/// Marking dates of which none is in the history yet, and then unmarking the same
/// dates, gives back the history as it was.
pub proof fn lemma_mark_unmark_round_trip(
    before: Habit,
    marked: Habit,
    after: Habit,
    dates: Seq<Date>,
    today: Date,
)
    requires
        before.wf(),
        marked.wf(),
        after.wf(),
        targets(dates, today).disjoint(before.dates()),
        marked.dates() == before.dates().union(targets(dates, today)),
        after.dates() == marked.dates().difference(targets(dates, today)),
    ensures
        after.history@ == before.history@,
{
    assert(after.dates() =~= before.dates());
    lemma_ascending_determined_by_dates(after.history@, before.history@);
}

/// Invalidating twice on the same day leaves the habit as invalidating once does.
pub proof fn lemma_invalidate_idempotent(h: Habit, today: Date)
    ensures
        invalidated(invalidated(h, today), today) == invalidated(h, today),
{
}

/// When the latest entry lies more than a day before `today`, the streak derived
/// on `today` is 0, whatever it was.
pub proof fn lemma_broken_chain_has_no_streak(s: Seq<Date>, today: int)
    requires
        s.len() > 0,
        s.last().days + 1 < today,
    ensures
        streak_of(s, today) == 0,
{
}

} // verus!
