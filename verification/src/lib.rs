//! The calendar arithmetic of the Moon viewer: dates and day numbers,
//! weekdays, and the text and screen layout built from them.
pub mod calendar;
pub mod dates;
pub mod labels;
pub mod screen;
