use chrono::{Datelike, NaiveDate};
use habit_tracker::{add_habit, check_streak, find_habit, mark_habit, remove_habit};
use habit_tracker::{Date, Habit, HabitError};

fn day(s: &str) -> Date {
    Date::parse(s).expect("valid date")
}

fn habit_with(history: &[&str], streak: u32) -> Habit {
    let texts: Vec<String> = history.iter().map(|s| s.to_string()).collect();
    Habit::from_record("run".to_string(), streak, &texts).expect("valid record")
}

fn texts(h: &Habit) -> Vec<String> {
    h.history_texts().expect("writable dates")
}

#[test]
fn parse_matches_chrono_day_numbers() {
    let d = day("2024-03-15");
    let c = NaiveDate::from_ymd_opt(2024, 3, 15).unwrap();
    assert_eq!(d.days, c.num_days_from_ce());
    assert_eq!(d.days, 738960);
    assert_eq!(Date::parse("2024-13-01"), None);
    assert_eq!(Date::parse("yesterday"), None);
}

#[test]
fn iso_text_round_trip() {
    let d = day("2024-03-05");
    assert_eq!(d.to_iso(), Some("2024-03-05".to_string()));
    assert_eq!(Date { days: 1 }.to_iso(), Some("0001-01-01".to_string()));
}

#[test]
fn weekday_matches_chrono() {
    let start = NaiveDate::from_ymd_opt(1999, 12, 20).unwrap();
    for k in 0..800i64 {
        let c = start + chrono::Duration::days(k);
        let d = Date { days: c.num_days_from_ce() };
        assert_eq!(d.weekday(), c.weekday().number_from_monday());
    }
    assert_eq!(Date { days: 1 }.weekday(), 1);
    assert_eq!(Date { days: 0 }.weekday(), 7);
    assert_eq!(Date { days: -6 }.weekday(), 1);
    assert_eq!(day("2024-03-15").weekday(), 5);
}

#[test]
fn record_is_sorted_and_deduplicated() {
    let h = habit_with(&["2024-03-10", "2024-03-01", "2024-03-10", "2024-02-29"], 2);
    assert_eq!(texts(&h), vec!["2024-02-29", "2024-03-01", "2024-03-10"]);
    assert_eq!(h.streak, 2);
    assert_eq!(h.name, "run");
}

#[test]
fn record_with_bad_date_is_refused() {
    let bad = vec!["2024-03-01".to_string(), "2024-02-30".to_string()];
    let r = Habit::from_record("run".to_string(), 0, &bad);
    assert_eq!(r.err(), Some(HabitError::InvalidDate));
}

#[test]
fn mark_today_twice() {
    let today = day("2024-03-15");
    let mut h = Habit::new("read");
    let first = h.mark(&vec![], today);
    assert!(first.changed);
    assert!(first.rejected.is_empty());
    assert_eq!(h.history, vec![today]);
    assert_eq!(h.streak, 1);
    let second = h.mark(&vec![], today);
    assert!(!second.changed);
    assert_eq!(h.history, vec![today]);
    assert_eq!(h.streak, 1);
}

#[test]
fn mark_today_saturates_streak() {
    let today = day("2024-03-15");
    let mut h = habit_with(&[], u32::MAX);
    assert!(h.mark(&vec![], today).changed);
    assert_eq!(h.streak, u32::MAX);
}

#[test]
fn mark_dates_keeps_streak_and_refuses_future() {
    let today = day("2024-03-15");
    let mut h = habit_with(&["2024-03-10"], 4);
    let r = h.mark(&vec![day("2024-03-16"), day("2024-03-01"), day("2024-03-10"), day("2024-03-12")], today);
    assert!(r.changed);
    assert_eq!(r.rejected, vec![day("2024-03-16")]);
    assert_eq!(texts(&h), vec!["2024-03-01", "2024-03-10", "2024-03-12"]);
    assert_eq!(h.streak, 4);
    let again = h.mark(&vec![day("2024-03-12")], today);
    assert!(!again.changed);
}

#[test]
fn unmark_removes_listed_dates() {
    let today = day("2024-03-15");
    let mut h = habit_with(&["2024-03-01", "2024-03-14", "2024-03-15"], 2);
    let r = h.unmark(&vec![day("2024-03-01"), day("2024-03-05"), day("2024-03-20")], today);
    assert!(r.changed);
    assert_eq!(r.rejected, vec![day("2024-03-20")]);
    assert_eq!(texts(&h), vec!["2024-03-14", "2024-03-15"]);
    assert_eq!(h.streak, 2);
    let r = h.unmark(&vec![], today);
    assert!(r.changed);
    assert_eq!(texts(&h), vec!["2024-03-14"]);
    assert!(!h.unmark(&vec![], today).changed);
}

#[test]
fn mark_then_unmark_round_trip() {
    let today = day("2024-03-15");
    let mut h = habit_with(&["2024-03-01", "2024-03-09"], 0);
    let before = h.history.clone();
    h.mark(&vec![day("2024-03-05"), day("2024-02-01")], today);
    assert_ne!(h.history, before);
    h.unmark(&vec![day("2024-03-05"), day("2024-02-01")], today);
    assert_eq!(h.history, before);
    h.mark(&vec![], today);
    h.unmark(&vec![], today);
    assert_eq!(h.history, before);
}

#[test]
fn history_stays_strictly_ascending() {
    let today = day("2024-03-31");
    let mut h = Habit::new("walk");
    for k in 0..30i32 {
        let d = Date { days: today.days - (k * 7) % 30 };
        if k % 3 == 0 {
            h.unmark(&vec![d], today);
        } else {
            h.mark(&vec![d, today], today);
        }
        for w in h.history.windows(2) {
            assert!(w[0].days < w[1].days);
        }
    }
}

#[test]
fn invalidate_resets_broken_streak() {
    let mut h = habit_with(&["2024-01-01"], 5);
    h.invalidate(day("2024-01-10"));
    assert_eq!(h.streak, 0);
}

#[test]
fn invalidate_is_idempotent() {
    let today = day("2024-03-15");
    let mut h = habit_with(&["2024-03-12", "2024-03-13", "2024-03-14"], 9);
    h.invalidate(today);
    let once = h.streak;
    h.invalidate(today);
    assert_eq!(h.streak, once);
    assert_eq!(once, 3);
}

#[test]
fn streak_derivation() {
    let h = habit_with(&["2024-03-10", "2024-03-13", "2024-03-14", "2024-03-15", "2024-03-20"], 0);
    let at = |s: &str| {
        let mut c = habit_with(&["2024-03-10", "2024-03-13", "2024-03-14", "2024-03-15", "2024-03-20"], 0);
        c.invalidate(day(s));
        c.streak
    };
    assert_eq!(h.streak, 0);
    assert_eq!(at("2024-03-15"), 3);
    assert_eq!(at("2024-03-16"), 3);
    assert_eq!(at("2024-03-17"), 0);
    assert_eq!(at("2024-03-14"), 2);
    assert_eq!(at("2024-03-11"), 1);
    assert_eq!(at("2024-03-21"), 1);
    assert_eq!(at("2024-03-09"), 0);
    let mut empty = habit_with(&[], 7);
    empty.invalidate(day("2024-03-15"));
    assert_eq!(empty.streak, 0);
}

#[test]
fn check_streak_covers_every_habit() {
    let mut habits = vec![habit_with(&["2024-01-01"], 5), habit_with(&["2024-01-09"], 0)];
    check_streak(&mut habits, day("2024-01-10"));
    assert_eq!(habits[0].streak, 0);
    assert_eq!(habits[1].streak, 1);
}

#[test]
fn add_find_remove() {
    let mut habits: Vec<Habit> = Vec::new();
    assert_eq!(add_habit(&mut habits, "run"), Ok(()));
    assert_eq!(add_habit(&mut habits, "read"), Ok(()));
    assert_eq!(add_habit(&mut habits, "run"), Err(HabitError::DuplicateHabit));
    assert_eq!(habits.len(), 2);
    assert_eq!(habits[1].name, "read");
    assert_eq!(habits[1].streak, 0);
    assert!(habits[1].history.is_empty());
    assert_eq!(find_habit(&habits, "read"), Some(1));
    assert_eq!(find_habit(&habits, "swim"), None);
    assert_eq!(remove_habit(&mut habits, "swim"), Err(HabitError::HabitNotFound));
    assert_eq!(remove_habit(&mut habits, "run"), Ok(()));
    assert_eq!(habits.len(), 1);
    assert_eq!(habits[0].name, "read");
}

#[test]
fn mark_habit_by_name() {
    let today = day("2024-03-15");
    let mut habits = vec![Habit::new("run"), Habit::new("read")];
    let r = mark_habit(&mut habits, "read", today).expect("habit held");
    assert!(r.changed);
    assert_eq!(habits[1].streak, 1);
    assert!(habits[0].history.is_empty());
    let again = mark_habit(&mut habits, "read", today).expect("habit held");
    assert!(!again.changed);
    assert_eq!(habits[1].streak, 1);
    assert_eq!(mark_habit(&mut habits, "swim", today).err(), Some(HabitError::HabitNotFound));
}
