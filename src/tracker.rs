//! Operations on the caller's collection of habits, looked up by name.

use crate::date::Date;
use crate::habit::{invalidated, Habit, HabitError, MarkReport};
use vstd::prelude::*;

verus! {

/// Some habit in `habits` is called `name`.
pub open spec fn holds_name(habits: Seq<Habit>, name: Seq<char>) -> bool {
    exists|i: int| 0 <= i < habits.len() && habits[i].name@ == name
}

/// Every habit in `habits` is well formed.
pub open spec fn all_wf(habits: Seq<Habit>) -> bool {
    forall|i: int| 0 <= i < habits.len() ==> habits[i].wf()
}

/// `i` is the index of the first habit in `habits` called `name`.
pub open spec fn first_named(habits: Seq<Habit>, name: Seq<char>, i: int) -> bool {
    &&& 0 <= i < habits.len()
    &&& habits[i].name@ == name
    &&& forall|k: int| 0 <= k < i ==> habits[k].name@ != name
}

/// The index of the first habit called `name`, if any.
pub fn find_habit(habits: &Vec<Habit>, name: &str) -> (r: Option<usize>)
    ensures
        match r {
            Some(i) => first_named(habits@, name@, i as int),
            None => !holds_name(habits@, name@),
        },
{
    let key = name.to_owned();
    let mut i: usize = 0;
    while i < habits.len()
        invariant
            i <= habits@.len(),
            key@ == name@,
            forall|k: int| 0 <= k < i ==> habits@[k].name@ != name@,
        decreases habits@.len() - i,
    {
        if habits[i].name == key {
            return Some(i);
        }
        i = i + 1;
    }
    None
}

/// Adds a new habit called `name`, with no history and no streak, at the end.
/// Refused with `DuplicateHabit` when a habit of that name is already held.
pub fn add_habit(habits: &mut Vec<Habit>, name: &str) -> (r: Result<(), HabitError>)
    ensures
        r is Err <==> holds_name(old(habits)@, name@),
        r is Err ==> r == Err::<(), HabitError>(HabitError::DuplicateHabit) && final(habits)@ == old(habits)@,
        r is Ok ==> {
            &&& final(habits)@.len() == old(habits)@.len() + 1
            &&& final(habits)@.take(old(habits)@.len() as int) == old(habits)@
            &&& final(habits)@.last().name@ == name@
            &&& final(habits)@.last().streak == 0
            &&& final(habits)@.last().history@.len() == 0
        },
{
    if find_habit(habits, name).is_some() {
        return Err(HabitError::DuplicateHabit);
    }
    let ghost before = habits@;
    habits.push(Habit::new(name));
    assert(habits@.take(before.len() as int) =~= before);
    Ok(())
}

/// Removes the first habit called `name`. Refused with `HabitNotFound` when none is.
pub fn remove_habit(habits: &mut Vec<Habit>, name: &str) -> (r: Result<(), HabitError>)
    ensures
        r is Err <==> !holds_name(old(habits)@, name@),
        r is Err ==> r == Err::<(), HabitError>(HabitError::HabitNotFound) && final(habits)@ == old(habits)@,
        r is Ok ==> exists|i: int|
            first_named(old(habits)@, name@, i) && final(habits)@ == old(habits)@.remove(i),
{
    match find_habit(habits, name) {
        Some(i) => {
            habits.remove(i);
            Ok(())
        },
        None => Err(HabitError::HabitNotFound),
    }
}

/// Marks the first habit called `name` done on `today` (see `Habit::mark` with no
/// dates). Refused with `HabitNotFound` when no habit is called `name`.
pub fn mark_habit(habits: &mut Vec<Habit>, name: &str, today: Date) -> (r: Result<MarkReport, HabitError>)
    requires
        all_wf(old(habits)@),
    ensures
        all_wf(final(habits)@),
        final(habits)@.len() == old(habits)@.len(),
        r is Err <==> !holds_name(old(habits)@, name@),
        r is Err ==> r == Err::<MarkReport, HabitError>(HabitError::HabitNotFound) && final(habits)@ == old(habits)@,
        r is Ok ==> exists|i: int| {
            &&& first_named(old(habits)@, name@, i)
            &&& forall|k: int| 0 <= k < old(habits)@.len() && k != i ==> final(habits)@[k] == old(habits)@[k]
            &&& final(habits)@[i].name == old(habits)@[i].name
            &&& final(habits)@[i].dates() == old(habits)@[i].dates().insert(today)
            &&& r->Ok_0.changed == !old(habits)@[i].dates().contains(today)
            &&& r->Ok_0.rejected@.len() == 0
            &&& final(habits)@[i].streak == if r->Ok_0.changed {
                crate::habit::capped((old(habits)@[i].streak + 1) as nat)
            } else {
                old(habits)@[i].streak
            }
        },
{
    match find_habit(habits, name) {
        Some(i) => {
            let none: Vec<Date> = Vec::new();
            let report = habits[i].mark(&none, today);
            assert(crate::habit::targets(none@, today) =~= set![today]);
            assert(forall|k: int| 0 <= k < habits@.len() && k != i ==> habits@[k] == old(habits)@[k]);
            Ok(report)
        },
        None => Err(HabitError::HabitNotFound),
    }
}

/// Derives every habit's streak anew as of `today` (see `Habit::invalidate`).
pub fn check_streak(habits: &mut Vec<Habit>, today: Date)
    ensures
        final(habits)@.len() == old(habits)@.len(),
        forall|k: int| 0 <= k < old(habits)@.len() ==> final(habits)@[k] == invalidated(old(habits)@[k], today),
{
    let mut i: usize = 0;
    while i < habits.len()
        invariant
            i <= habits@.len(),
            habits@.len() == old(habits)@.len(),
            forall|k: int| 0 <= k < i ==> habits@[k] == invalidated(old(habits)@[k], today),
            forall|k: int| i <= k < habits@.len() ==> habits@[k] == old(habits)@[k],
        decreases habits@.len() - i,
    {
        habits[i].invalidate(today);
        i = i + 1;
    }
}

} // verus!
