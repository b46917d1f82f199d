# moon

The calendar and screen logic of a terminal Moon viewer, verified with Verus.

- `src/calendar.rs`: the proleptic Gregorian calendar as a model (leap years,
  month lengths, the day number of a date, the date of a day number) and its
  laws: round trips, the next day, the epoch, the weekly cycle.
- `src/dates.rs`: `days_from_civil`, `civil_from_days` and `weekday`, proved
  against that model.
- `src/labels.rs`: weekday and month names, decimal text of numbers.
- `src/screen.rs`: keys, the split of the terminal, the labels of the strip
  of days and of the header date.
- `app/main.rs`: the program: terminal, clock, and the floating-point drawing
  of the Moon and its phase.
