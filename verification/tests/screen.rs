use moon::dates::days_from_civil;
use moon::labels::{centred, decimal_text, month_name, signed_decimal_text, weekday_name, MONTHS};
use moon::screen::{
    date_heading, header_padding, on_key, screen_layout, slot_label, strip_slots, KeyAction, Mark,
};

#[test]
fn keys_move_the_day_and_quit() {
    assert_eq!(on_key(5, "h"), KeyAction::Show(4));
    assert_eq!(on_key(5, "LEFT"), KeyAction::Show(4));
    assert_eq!(on_key(5, "l"), KeyAction::Show(6));
    assert_eq!(on_key(5, "RIGHT"), KeyAction::Show(6));
    assert_eq!(on_key(5, "t"), KeyAction::Show(0));
    assert_eq!(on_key(5, "RESIZE"), KeyAction::Show(5));
    assert_eq!(on_key(5, "q"), KeyAction::Quit);
    assert_eq!(on_key(5, "Q"), KeyAction::Quit);
    assert_eq!(on_key(5, "x"), KeyAction::Ignore);
    assert_eq!(on_key(5, ""), KeyAction::Ignore);
    assert_eq!(on_key(5, "LEFTX"), KeyAction::Ignore);
    assert_eq!(on_key(5, "H"), KeyAction::Ignore);
}

#[test]
fn back_then_forward_returns_to_the_same_day() {
    for o in -3i64..4 {
        let back = match on_key(o, "h") {
            KeyAction::Show(b) => b,
            _ => panic!("h must show a day"),
        };
        assert_eq!(on_key(back, "l"), KeyAction::Show(o));
    }
}

#[test]
fn layout_splits_the_terminal() {
    let l = screen_layout(200, 59);
    assert_eq!(l.strip_rows, 8);
    assert_eq!(l.symbol_rows, 6);
    assert_eq!(l.main_rows, 50);
    assert_eq!(l.diameter, 118);
    let window = screen_layout(120, 50);
    assert_eq!(window.diameter, 100);
    assert_eq!(l.slots, 14);
    let narrow = screen_layout(60, 59);
    assert_eq!(narrow.diameter, 58);
    assert_eq!(narrow.slots, 4);
    let tiny = screen_layout(1, 1);
    assert_eq!(tiny.main_rows, 1);
    assert_eq!(tiny.diameter, 2);
    assert_eq!(tiny.slots, 1);
}

#[test]
fn header_padding_fills_the_row() {
    assert_eq!(header_padding(80, 50, 20), 10);
    assert_eq!(header_padding(60, 50, 20), 0);
}

#[test]
fn names_and_numbers_as_text() {
    assert_eq!(weekday_name(0), "Sun");
    assert_eq!(weekday_name(6), "Sat");
    assert_eq!(month_name(1), "Jan");
    assert_eq!(month_name(12), "Dec");
    assert_eq!(MONTHS[8], "Sep");
    assert_eq!(decimal_text(0), "0");
    assert_eq!(decimal_text(1234), "1234");
    assert_eq!(decimal_text(u64::MAX), u64::MAX.to_string());
    assert_eq!(signed_decimal_text(-2024), "-2024");
    assert_eq!(signed_decimal_text(i32::MIN), i32::MIN.to_string());
    assert_eq!(signed_decimal_text(7), "7");
}

#[test]
fn labels_of_days() {
    let d = days_from_civil(2026, 9, 15);
    assert_eq!(slot_label(d), "Tue 15");
    assert_eq!(date_heading(d), "Tue 15 Sep 2026");
    assert_eq!(date_heading(0), "Thu 1 Jan 1970");
    assert_eq!(date_heading(days_from_civil(-44, 3, 15)), "Thu 15 Mar -44");
}

#[test]
fn strip_shows_three_days_before_and_marks_today() {
    let today = days_from_civil(2026, 9, 15);
    let shown = today + 2;
    let slots = strip_slots(shown, today, 6);
    assert_eq!(slots.len(), 6);
    let days: Vec<i64> = slots.iter().map(|s| s.day).collect();
    assert_eq!(days, vec![shown - 3, shown - 2, shown - 1, shown, shown + 1, shown + 2]);
    assert_eq!(slots[0].label, "Mon 14");
    assert_eq!(slots[1].label, "Tue 15");
    assert_eq!(slots[3].label, "Thu 17");
    assert_eq!(slots[1].mark, Mark::Today);
    assert_eq!(slots[3].mark, Mark::Shown);
    assert_eq!(slots[0].mark, Mark::Other);
    let same = strip_slots(today, today, 4);
    assert_eq!(same[3].mark, Mark::Today);
}

#[test]
fn labels_are_centred_in_their_slot() {
    assert_eq!(centred("Tue 15", 14), format!("{:^14}", "Tue 15"));
    assert_eq!(centred("Tue 5", 14), format!("{:^14}", "Tue 5"));
    assert_eq!(centred("Tue 5", 14), "    Tue 5     ");
    assert_eq!(centred("a long label here", 14), "a long label here");
    assert_eq!(centred("", 3), "   ");
    assert_eq!(centred("←", 4), format!("{:^4}", "←"));
}
