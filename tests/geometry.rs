use habit_tracker::{edit_step, future_cells, graph_cells, locate};
use habit_tracker::{Cell, Date, EditKey, Habit};

fn day(s: &str) -> Date {
    Date::parse(s).expect("valid date")
}

#[test]
fn locate_example_friday() {
    let today = day("2024-03-15");
    assert_eq!(locate(today, 40, today), Some(Cell { x: 38, y: 4 }));
    assert_eq!(locate(today, 40, day("2024-03-08")), Some(Cell { x: 36, y: 4 }));
    assert_eq!(locate(today, 40, day("2024-03-11")), Some(Cell { x: 38, y: 0 }));
    assert_eq!(locate(today, 40, day("2024-03-10")), Some(Cell { x: 36, y: 6 }));
}

#[test]
fn locate_odd_width_matches_even() {
    let today = day("2024-03-15");
    for k in 0..60 {
        let d = Date { days: today.days - k };
        assert_eq!(locate(today, 41, d), locate(today, 40, d));
    }
}

#[test]
fn locate_future_and_off_grid() {
    let today = day("2024-03-15");
    assert_eq!(locate(today, 40, day("2024-03-16")), None);
    // 20 week columns: the oldest visible week starts on Monday 2023-10-30.
    assert_eq!(locate(today, 40, day("2023-10-30")), Some(Cell { x: 0, y: 0 }));
    assert_eq!(locate(today, 40, day("2023-10-29")), None);
    assert_eq!(locate(today, 1, today), None);
    assert_eq!(locate(today, 0, today), None);
}

#[test]
fn today_on_grid_and_old_dates_off_grid() {
    let today = day("2024-03-15");
    for width in 2u16..200 {
        let c = locate(today, width, today).expect("today is on the grid");
        assert_eq!(c.x, 2 * (width / 2) - 2);
        let weeks = 2 * (width / 2) as i32;
        let old = Date { days: today.days - 7 * weeks - 1 };
        assert_eq!(locate(today, width, old), None);
    }
}

#[test]
fn graph_cells_newest_first() {
    let today = day("2024-03-15");
    let texts: Vec<String> = ["2023-01-02", "2024-03-04", "2024-03-14", "2024-03-15", "2024-03-18"]
        .iter()
        .map(|s| s.to_string())
        .collect();
    let h = Habit::from_record("run".to_string(), 0, &texts).unwrap();
    let cells = graph_cells(&h.history, today, 40);
    assert_eq!(cells, vec![Cell { x: 38, y: 4 }, Cell { x: 38, y: 3 }, Cell { x: 36, y: 0 }]);
    assert!(graph_cells(&h.history, today, 1).is_empty());
    assert!(graph_cells(&Vec::new(), today, 40).is_empty());
}

#[test]
fn future_cells_after_friday() {
    let today = day("2024-03-15");
    assert_eq!(future_cells(today, 40), vec![Cell { x: 38, y: 5 }, Cell { x: 38, y: 6 }]);
    assert_eq!(future_cells(day("2024-03-17"), 40), vec![]);
    assert_eq!(future_cells(day("2024-03-11"), 7).len(), 6);
    assert_eq!(future_cells(today, 1), vec![]);
}

#[test]
fn edit_step_moves() {
    let today = day("2024-03-15");
    let back = edit_step(today, today, EditKey::Up).unwrap();
    assert_eq!(back.days, today.days - 1);
    assert_eq!(edit_step(today, today, EditKey::Left).unwrap().days, today.days - 7);
    assert_eq!(edit_step(back, today, EditKey::Down), Some(today));
    let week_ago = Date { days: today.days - 7 };
    assert_eq!(edit_step(week_ago, today, EditKey::Right), Some(today));
    let two_back = Date { days: today.days - 2 };
    assert_eq!(edit_step(two_back, today, EditKey::Down), Some(two_back));
    assert_eq!(edit_step(today, today, EditKey::Other), Some(today));
    assert_eq!(edit_step(today, today, EditKey::Esc), None);
    let floor = Date { days: i32::MIN };
    assert_eq!(edit_step(floor, today, EditKey::Up), Some(floor));
}
