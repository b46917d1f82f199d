//! What the viewer decides between key presses: the day on screen after a
//! key, how the terminal is split between the picture and the strip of
//! days below it, and the labels of those days.
use vstd::prelude::*;

use crate::calendar::{date_of, is_valid_date, lemma_date_of, weekday_of};
use crate::dates::{civil_from_days, weekday};
use crate::labels::{
    decimal, decimal_text, month_abbrev, month_name, signed_decimal, signed_decimal_text,
    weekday_abbrev, weekday_name,
};

verus! {

/// Pixels across each phase symbol of the strip.
pub const MINI: usize = 12;

/// Cells across each slot of the strip.
pub const SLOT: usize = 14;

/// Days the strip shows before the day on screen.
pub const PAST: i64 = 3;

// ── Keys ──────────────────────────────────────────────────────────────────

/// What a key press asks of the viewer.
#[derive(PartialEq, Eq, Structural, Debug, Clone, Copy)]
pub enum KeyAction {
    /// Leave the viewer.
    Quit,
    /// Draw the screen again for the day this many days from today.
    Show(i64),
    /// Nothing to do.
    Ignore,
}

/// The action for key `key` while the screen shows the day `offset` days
/// from today: `q`/`Q` quit; `h`/`LEFT` go a day back, `l`/`RIGHT` a day
/// forward, `t` back to today; `RESIZE` draws the same day again; any other
/// key is ignored.
pub open spec fn key_action(offset: i64, key: Seq<char>) -> KeyAction {
    if key == "q"@ || key == "Q"@ {
        KeyAction::Quit
    } else if key == "h"@ || key == "LEFT"@ {
        KeyAction::Show((offset - 1) as i64)
    } else if key == "l"@ || key == "RIGHT"@ {
        KeyAction::Show((offset + 1) as i64)
    } else if key == "t"@ {
        KeyAction::Show(0)
    } else if key == "RESIZE"@ {
        KeyAction::Show(offset)
    } else {
        KeyAction::Ignore
    }
}

/// Whether two texts hold the same characters.
fn same_text(a: &str, b: &str) -> (r: bool)
    ensures
        r == (a@ == b@),
{
    let n = a.unicode_len();
    if n != b.unicode_len() {
        return false;
    }
    let mut i: usize = 0;
    while i < n
        invariant
            n == a@.len(),
            n == b@.len(),
            i <= n,
            forall|j: int| 0 <= j < i ==> a@[j] == b@[j],
        decreases n - i,
    {
        if a.get_char(i) != b.get_char(i) {
            return false;
        }
        i = i + 1;
    }
    assert(a@ =~= b@);
    true
}

/// The action for a key press, while the screen shows the day `offset`
/// days from today.
pub fn on_key(offset: i64, key: &str) -> (r: KeyAction)
    requires
        key@ == "h"@ || key@ == "LEFT"@ ==> offset > i64::MIN,
        key@ == "l"@ || key@ == "RIGHT"@ ==> offset < i64::MAX,
    ensures
        r == key_action(offset, key@),
{
    if same_text(key, "q") || same_text(key, "Q") {
        KeyAction::Quit
    } else if same_text(key, "h") || same_text(key, "LEFT") {
        KeyAction::Show(offset - 1)
    } else if same_text(key, "l") || same_text(key, "RIGHT") {
        KeyAction::Show(offset + 1)
    } else if same_text(key, "t") {
        KeyAction::Show(0)
    } else if same_text(key, "RESIZE") {
        KeyAction::Show(offset)
    } else {
        KeyAction::Ignore
    }
}

/// A day back and then a day forward (by letter or by arrow) come back to
/// the same day.
pub proof fn lemma_back_then_forward(offset: i64)
    requires
        offset > i64::MIN,
    ensures
        key_action(offset, "h"@) == KeyAction::Show((offset - 1) as i64),
        key_action(offset, "LEFT"@) == KeyAction::Show((offset - 1) as i64),
        key_action((offset - 1) as i64, "l"@) == KeyAction::Show(offset),
        key_action((offset - 1) as i64, "RIGHT"@) == KeyAction::Show(offset),
{
    reveal_strlit("q");
    reveal_strlit("Q");
    reveal_strlit("h");
    reveal_strlit("LEFT");
    reveal_strlit("l");
    reveal_strlit("RIGHT");
    assert("h"@[0] != "q"@[0] && "h"@[0] != "Q"@[0]);
    assert("l"@[0] != "q"@[0] && "l"@[0] != "Q"@[0] && "l"@[0] != "h"@[0]);
    assert("RIGHT"@.len() != "LEFT"@.len() && "RIGHT"@.len() != "h"@.len());
}

/// `t` goes back to today from any day, and `q` quits from any day.
pub proof fn lemma_today_and_quit(offset: i64)
    ensures
        key_action(offset, "t"@) == KeyAction::Show(0),
        key_action(offset, "q"@) == KeyAction::Quit,
        key_action(offset, "Q"@) == KeyAction::Quit,
{
    reveal_strlit("q");
    reveal_strlit("Q");
    reveal_strlit("h");
    reveal_strlit("LEFT");
    reveal_strlit("l");
    reveal_strlit("RIGHT");
    reveal_strlit("t");
    assert("t"@[0] != "q"@[0] && "t"@[0] != "Q"@[0] && "t"@[0] != "h"@[0] && "t"@[0] != "l"@[0]);
}

/// A resize draws the same day again, whichever day is on screen.
pub proof fn lemma_resize_redraws(offset: i64)
    ensures
        key_action(offset, "RESIZE"@) == KeyAction::Show(offset),
{
    reveal_strlit("q");
    reveal_strlit("Q");
    reveal_strlit("h");
    reveal_strlit("LEFT");
    reveal_strlit("l");
    reveal_strlit("RIGHT");
    reveal_strlit("t");
    reveal_strlit("RESIZE");
    assert("RESIZE"@.len() != "q"@.len() && "RESIZE"@.len() != "Q"@.len() && "RESIZE"@.len()
        != "h"@.len() && "RESIZE"@.len() != "LEFT"@.len() && "RESIZE"@.len() != "l"@.len()
        && "RESIZE"@.len() != "RIGHT"@.len() && "RESIZE"@.len() != "t"@.len());
}

// ── Layout ────────────────────────────────────────────────────────────────

/// How a terminal of `cols` × `rows` cells is split: one header row, the
/// Moon below it, and the strip of days at the bottom.
#[derive(PartialEq, Eq, Structural, Debug, Clone, Copy)]
pub struct Layout {
    /// Rows of the Moon picture (at least one).
    pub main_rows: usize,
    /// Rows of the strip: the symbols, a blank row above and the labels.
    pub strip_rows: usize,
    /// Rows of each phase symbol of the strip.
    pub symbol_rows: usize,
    /// Pixels across the Moon: two per row of the window (each cell holds
    /// two pixels, so a 50-row window gives a 100-pixel moon), kept inside
    /// the width.
    pub diameter: usize,
    /// Days in the strip (at least one).
    pub slots: usize,
}

/// The split of a `cols` × `rows` terminal.
pub fn screen_layout(cols: u16, rows: u16) -> (r: Layout)
    ensures
        r.symbol_rows == MINI / 2,
        r.strip_rows == MINI / 2 + 2,
        r.main_rows == (if rows > 1 + r.strip_rows + 1 {
            rows - (1 + r.strip_rows)
        } else {
            1
        }),
        r.diameter == ({
            let width = if cols > 2 {
                cols - 2
            } else {
                0
            };
            let fit = if width < rows * 2 {
                width
            } else {
                rows * 2
            };
            if fit > 2 {
                fit
            } else {
                2
            }
        }),
        r.slots == (if cols as int / SLOT as int > 1 {
            cols as int / SLOT as int
        } else {
            1
        }),
{
    let cols = cols as usize;
    let rows = rows as usize;
    let symbol_rows = MINI / 2;
    let strip_rows = symbol_rows + 2;
    let left = if rows > 1 + strip_rows {
        rows - (1 + strip_rows)
    } else {
        0
    };
    let main_rows = if left > 1 {
        left
    } else {
        1
    };
    let width = if cols > 2 {
        cols - 2
    } else {
        0
    };
    let fit = if width < rows * 2 {
        width
    } else {
        rows * 2
    };
    let diameter = if fit > 2 {
        fit
    } else {
        2
    };
    let per_slot = cols / SLOT;
    let slots = if per_slot > 1 {
        per_slot
    } else {
        1
    };
    Layout { main_rows, strip_rows, symbol_rows, diameter, slots }
}

/// Blank cells between the left and the right part of the header row,
/// none when they do not fit.
pub fn header_padding(cols: usize, left: usize, right: usize) -> (r: usize)
    requires
        left + right <= usize::MAX,
    ensures
        r == (if cols > left + right {
            cols - (left + right)
        } else {
            0
        }),
{
    let used = left + right;
    if cols > used {
        cols - used
    } else {
        0
    }
}

// ── Labels of days ────────────────────────────────────────────────────────

/// How the strip marks a day: today, the day on screen, or neither.
#[derive(PartialEq, Eq, Structural, Debug, Clone, Copy)]
pub enum Mark {
    Today,
    Shown,
    Other,
}

/// The mark of day `z` when `shown` is on screen: today wins.
pub open spec fn mark_of(z: int, shown: int, today: int) -> Mark {
    if z == today {
        Mark::Today
    } else if z == shown {
        Mark::Shown
    } else {
        Mark::Other
    }
}

/// Each mark says what its day is: `Today` exactly for today, `Shown`
/// exactly for the day on screen when that is not today, `Other` for every
/// other day.
pub proof fn lemma_marks(z: int, shown: int, today: int)
    ensures
        (mark_of(z, shown, today) == Mark::Today) <==> z == today,
        (mark_of(z, shown, today) == Mark::Shown) <==> (z == shown && z != today),
        (mark_of(z, shown, today) == Mark::Other) <==> (z != shown && z != today),
{
}

/// The label of day `z` in the strip, such as "Tue 15".
pub open spec fn slot_label_text(z: int) -> Seq<char> {
    weekday_abbrev(weekday_of(z)) + " "@ + decimal(date_of(z).2 as nat)
}

/// The date of day `z` in the header, such as "Tue 15 Sep 2026".
pub open spec fn date_heading_text(z: int) -> Seq<char> {
    weekday_abbrev(weekday_of(z)) + " "@ + decimal(date_of(z).2 as nat) + " "@ + month_abbrev(
        date_of(z).1,
    ) + " "@ + signed_decimal((date_of(z).0 as i32) as int)
}

/// The label of day `z` in the strip: weekday and day of the month.
pub fn slot_label(z: i64) -> (r: String)
    requires
        z <= i64::MAX - 719_468,
    ensures
        r@ == slot_label_text(z as int),
{
    let (_, _, d) = civil_from_days(z);
    let mut s = String::from_str(weekday_name(weekday(z)));
    s.append(" ");
    let digits = decimal_text(d as u64);
    s.append(digits.as_str());
    s
}

/// The date of day `z` as the header shows it: weekday, day, month, year.
pub fn date_heading(z: i64) -> (r: String)
    requires
        z <= i64::MAX - 719_468,
    ensures
        r@ == date_heading_text(z as int),
{
    let (y, m, d) = civil_from_days(z);
    proof {
        lemma_date_of(z as int);
    }
    let mut s = String::from_str(weekday_name(weekday(z)));
    s.append(" ");
    let day_digits = decimal_text(d as u64);
    s.append(day_digits.as_str());
    s.append(" ");
    s.append(month_name(m));
    s.append(" ");
    let year_digits = signed_decimal_text(y);
    s.append(year_digits.as_str());
    s
}

/// One day of the strip.
pub struct StripSlot {
    /// Its day number.
    pub day: i64,
    /// Its label, such as "Tue 15".
    pub label: String,
    /// Whether it is today, the day on screen, or neither.
    pub mark: Mark,
}

/// The days of the strip under day `shown`: `slots` days from `PAST` days
/// before it, each with its label and mark.
pub fn strip_slots(shown: i64, today: i64, slots: usize) -> (r: Vec<StripSlot>)
    requires
        shown >= i64::MIN + PAST,
        slots <= i64::MAX,
        slots > 0 ==> shown - PAST + slots - 1 <= i64::MAX - 719_468,
    ensures
        r.len() == slots,
        forall|i: int|
            0 <= i < slots ==> {
                &&& (#[trigger] r[i]).day == shown - PAST + i
                &&& r[i].label@ == slot_label_text(shown - PAST + i)
                &&& r[i].mark == mark_of(shown - PAST + i, shown as int, today as int)
                &&& (r[i].mark == Mark::Today <==> r[i].day == today)
                &&& (r[i].mark == Mark::Shown <==> (r[i].day == shown && r[i].day != today))
                &&& (r[i].mark == Mark::Other <==> (r[i].day != shown && r[i].day != today))
            },
{
    let mut out: Vec<StripSlot> = Vec::new();
    let first = shown - PAST;
    let mut i: usize = 0;
    while i < slots
        invariant
            first == shown - PAST,
            slots <= i64::MAX,
            slots > 0 ==> shown - PAST + slots - 1 <= i64::MAX - 719_468,
            i <= slots,
            out.len() == i,
            forall|j: int|
                0 <= j < i ==> {
                    &&& (#[trigger] out[j]).day == shown - PAST + j
                    &&& out[j].label@ == slot_label_text(shown - PAST + j)
                    &&& out[j].mark == mark_of(shown - PAST + j, shown as int, today as int)
                },
        decreases slots - i,
    {
        let z = first + i as i64;
        let mark = if z == today {
            Mark::Today
        } else if z == shown {
            Mark::Shown
        } else {
            Mark::Other
        };
        let label = slot_label(z);
        out.push(StripSlot { day: z, label, mark });
        assert(out[i as int].day == shown - PAST + i);
        i = i + 1;
    }
    out
}

} // verus!
