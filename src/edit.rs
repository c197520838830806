//! The decisions of the interactive history editor: which day is selected after
//! each key press. Reading keys and drawing stay with the caller.

use crate::date::Date;
use vstd::prelude::*;

verus! {

/// A key press that the editor reacts to.
#[derive(Clone, Copy, Debug, PartialEq, Eq, Structural)]
pub enum EditKey {
    /// One day back.
    Up,
    /// One day forward.
    Down,
    /// One week back.
    Left,
    /// One week forward.
    Right,
    /// Leave the editor.
    Esc,
    /// Any other key; nothing changes.
    Other,
}

/// `selected` moved `n` days back, or left in place where the day number would
/// leave the range of `i32`.
pub open spec fn moved_back(selected: Date, n: int) -> Date {
    if selected.days - n >= i32::MIN {
        Date { days: (selected.days - n) as i32 }
    } else {
        selected
    }
}

/// `selected` moved `n` days forward where that lands on or after `today`;
/// otherwise (or where the day number would leave `i32`) left in place.
pub open spec fn moved_forward(selected: Date, today: Date, n: int) -> Date {
    if selected.days + n <= i32::MAX && selected.days + n >= today.days {
        Date { days: (selected.days + n) as i32 }
    } else {
        selected
    }
}

/// `selected` moved by `n` days (negative: back), or `None` where the day number
/// would leave the range of `i32`.
fn shift(selected: Date, n: i64) -> (r: Option<Date>)
    requires
        -7 <= n <= 7,
    ensures
        r is Some <==> i32::MIN <= selected.days + n <= i32::MAX,
        r matches Some(d) ==> d.days == selected.days + n,
{
    let t: i64 = selected.days as i64 + n;
    if t < i32::MIN as i64 || t > i32::MAX as i64 {
        None
    } else {
        Some(Date { days: t as i32 })
    }
}

/// The day selected after `key` is pressed with `selected` selected, or `None`
/// when the key leaves the editor.
pub fn edit_step(selected: Date, today: Date, key: EditKey) -> (r: Option<Date>)
    ensures
        key == EditKey::Esc <==> r is None,
        key == EditKey::Up ==> r == Some(moved_back(selected, 1)),
        key == EditKey::Left ==> r == Some(moved_back(selected, 7)),
        key == EditKey::Down ==> r == Some(moved_forward(selected, today, 1)),
        key == EditKey::Right ==> r == Some(moved_forward(selected, today, 7)),
        key == EditKey::Other ==> r == Some(selected),
{
    match key {
        EditKey::Up => Some(back_by(selected, 1)),
        EditKey::Left => Some(back_by(selected, 7)),
        EditKey::Down => Some(forward_by(selected, today, 1)),
        EditKey::Right => Some(forward_by(selected, today, 7)),
        EditKey::Esc => None,
        EditKey::Other => Some(selected),
    }
}

fn back_by(selected: Date, n: i64) -> (r: Date)
    requires
        1 <= n <= 7,
    ensures
        r == moved_back(selected, n as int),
{
    match shift(selected, -n) {
        Some(d) => d,
        None => selected,
    }
}

fn forward_by(selected: Date, today: Date, n: i64) -> (r: Date)
    requires
        1 <= n <= 7,
    ensures
        r == moved_forward(selected, today, n as int),
{
    match shift(selected, n) {
        Some(d) => if d.days >= today.days {
            d
        } else {
            selected
        },
        None => selected,
    }
}

} // verus!
