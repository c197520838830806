//! Placement of completion dates on a terminal calendar grid: seven rows,
//! Monday at the top, and two character cells per week, the current week at
//! the right edge of the grid and older weeks to its left.

use crate::date::{weekday_of, Date};
use crate::habit::strictly_ascending;
use vstd::arithmetic::div_mod::{lemma_div_is_ordered, lemma_fundamental_div_mod};
use vstd::prelude::*;

verus! {

/// A terminal cell: column `x`, row `y`.
#[derive(Clone, Copy, Debug, PartialEq, Eq, Structural)]
pub struct Cell {
    pub x: u16,
    pub y: u16,
}

/// How many weeks before the week of `today` the week of `date` lies.
pub open spec fn week_offset(today: int, date: int) -> int {
    (today - date + weekday_of(date) - 1) / 7
}

/// The column of `date` on a grid `width` cells wide; negative when off the grid.
pub open spec fn column_of(today: int, width: int, date: int) -> int {
    2 * (width / 2) - 2 * (week_offset(today, date) + 1)
}

/// Where `date` stands on the grid as of `today`: `None` for a date after `today`
/// or one whose column falls off the left edge.
pub open spec fn locate_spec(today: int, width: int, date: int) -> Option<Cell> {
    if date > today || column_of(today, width, date) < 0 {
        None
    } else {
        Some(Cell { x: column_of(today, width, date) as u16, y: (weekday_of(date) - 1) as u16 })
    }
}

/// The cells of the entries of `s`, newest first, that stand on the grid.
pub open spec fn visible_cells(s: Seq<Date>, today: int, width: int) -> Seq<Cell>
    decreases s.len(),
{
    if s.len() == 0 {
        Seq::empty()
    } else {
        let rest = visible_cells(s.drop_last(), today, width);
        match locate_spec(today, width, s.last().days as int) {
            Some(c) => seq![c] + rest,
            None => rest,
        }
    }
}

/// Places `date` on a grid `width` cells wide as of `today`.
pub fn locate(today: Date, width: u16, date: Date) -> (r: Option<Cell>)
    ensures
        r == locate_spec(today.days as int, width as int, date.days as int),
{
    if date.days > today.days {
        return None;
    }
    let diff: u64 = (today.days as i64 - date.days as i64) as u64;
    let wd: u32 = date.weekday();
    let offset: u64 = (diff + wd as u64 - 1) / 7;
    let x: i64 = 2 * (width / 2) as i64 - 2 * (offset as i64 + 1);
    if x < 0 {
        return None;
    }
    Some(Cell { x: x as u16, y: (wd - 1) as u16 })
}

/// Later dates lie in the same week as earlier ones or in a later one.
proof fn lemma_week_offset_monotone(today: int, a: int, b: int)
    requires
        a <= b,
    ensures
        week_offset(today, a) >= week_offset(today, b),
{
    lemma_fundamental_div_mod(a - 1, 7);
    lemma_fundamental_div_mod(b - 1, 7);
    lemma_div_is_ordered(a - 1, b - 1, 7);
    lemma_div_is_ordered(today - b + weekday_of(b) - 1, today - a + weekday_of(a) - 1, 7);
}

/// An entry older than one that fell off the grid falls off it too.
pub proof fn lemma_older_off_grid(today: int, width: int, a: int, b: int)
    requires
        a <= b <= today,
        locate_spec(today, width, b) is None,
    ensures
        locate_spec(today, width, a) is None,
{
    lemma_week_offset_monotone(today, a, b);
}

/// A history whose entries all lie on or before a day that fell off the grid has no
/// cell on it.
proof fn lemma_no_cells_before(s: Seq<Date>, today: int, width: int, bound: int)
    requires
        forall|i: int| 0 <= i < s.len() ==> s[i].days <= bound,
        bound <= today,
        locate_spec(today, width, bound) is None,
    ensures
        visible_cells(s, today, width) == Seq::<Cell>::empty(),
    decreases s.len(),
{
    if s.len() > 0 {
        lemma_older_off_grid(today, width, s.last().days as int, bound);
        lemma_no_cells_before(s.drop_last(), today, width, bound);
    }
}

/// The cells of `history` on a grid `width` cells wide as of `today`, newest first.
/// The walk from the newest entry stops at the first one that falls off the grid.
pub fn graph_cells(history: &Vec<Date>, today: Date, width: u16) -> (r: Vec<Cell>)
    requires
        strictly_ascending(history@),
    ensures
        r@ == visible_cells(history@, today.days as int, width as int),
{
    let ghost s = history@;
    let ghost t = today.days as int;
    let ghost w = width as int;
    let mut out: Vec<Cell> = Vec::new();
    let mut end: usize = history.len();
    let mut done = false;
    assert(s.take(end as int) =~= s);
    assert(out@ + visible_cells(s, t, w) =~= visible_cells(s, t, w));
    while end > 0 && !done
        invariant
            end <= s.len(),
            s == history@,
            t == today.days as int,
            w == width as int,
            strictly_ascending(s),
            out@ + visible_cells(s.take(end as int), t, w) == visible_cells(s, t, w),
            done ==> visible_cells(s.take(end as int), t, w) == Seq::<Cell>::empty(),
        decreases end,
    {
        let d = history[end - 1];
        let ghost p = s.take(end as int);
        assert(p.drop_last() =~= s.take(end - 1));
        assert(p.last() == d);
        match locate(today, width, d) {
            Some(c) => {
                out.push(c);
                assert(out@ + visible_cells(s.take(end - 1), t, w) =~= visible_cells(s, t, w)) by {
                    assert(visible_cells(p, t, w) == seq![c] + visible_cells(s.take(end - 1), t, w));
                }
                end = end - 1;
            },
            None => {
                if d.days <= today.days {
                    assert forall|i: int| 0 <= i < s.take(end - 1).len() implies (#[trigger] s.take(end - 1)[i]).days <= d.days by {
                        assert(s.take(end - 1)[i] == s[i]);
                    }
                    proof {
                        lemma_no_cells_before(s.take(end - 1), t, w, d.days as int);
                    }
                    done = true;
                }
                end = end - 1;
            },
        }
    }
    if end == 0 {
        assert(s.take(0) =~= Seq::<Date>::empty());
    }
    assert(out@ + Seq::<Cell>::empty() =~= out@);
    out
}

/// The cells of the current week's column that stand for days after `today`,
/// top to bottom; none when the grid is narrower than one week.
pub fn future_cells(today: Date, width: u16) -> (r: Vec<Cell>)
    ensures
        width / 2 == 0 ==> r@.len() == 0,
        width / 2 > 0 ==> {
            &&& r@.len() == 7 - weekday_of(today.days as int)
            &&& forall|i: int| 0 <= i < r@.len() ==> #[trigger] r@[i] == (Cell {
                x: (2 * (width / 2) - 2) as u16,
                y: (weekday_of(today.days as int) + i) as u16,
            })
        },
{
    let mut out: Vec<Cell> = Vec::new();
    if width / 2 == 0 {
        return out;
    }
    let x: u16 = 2 * (width / 2) - 2;
    let wd: u32 = today.weekday();
    let mut row: u32 = wd;
    while row < 7
        invariant
            wd == weekday_of(today.days as int),
            1 <= wd <= row <= 7,
            x == 2 * (width / 2) - 2,
            out@.len() == row - wd,
            forall|i: int| 0 <= i < out@.len() ==> #[trigger] out@[i] == (Cell { x, y: (wd + i) as u16 }),
        decreases 7 - row,
    {
        out.push(Cell { x, y: row as u16 });
        row = row + 1;
    }
    out
}

/// On a grid at least two cells wide, `today` stands in the current week's column.
pub proof fn lemma_today_on_grid(today: Date, width: u16)
    requires
        2 <= width,
    ensures
        locate_spec(today.days as int, width as int, today.days as int) matches Some(c)
            && c.x == 2 * (width / 2) - 2,
{
    assert(week_offset(today.days as int, today.days as int) == 0);
}

/// A date more than `2 * (width / 2)` weeks before `today` is off the grid.
pub proof fn lemma_old_dates_off_grid(today: int, width: u16, date: int)
    requires
        today - date > 7 * (2 * (width / 2)),
    ensures
        locate_spec(today, width as int, date) is None,
{
    let k = 2 * (width / 2);
    assert(week_offset(today, date) >= k) by {
        lemma_div_is_ordered(7 * k, today - date + weekday_of(date) - 1, 7);
        vstd::arithmetic::div_mod::lemma_div_multiples_vanish(k, 7);
    }
}

} // verus!
