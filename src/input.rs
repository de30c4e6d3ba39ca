//! The description of a year's events that a calendar is made from.
use vstd::prelude::*;

verus! {

/// A year, a title, and the events of that year.
pub struct Input {
    pub year: i32,
    pub title: String,
    pub events: Vec<Event>,
}

/// An event's name and the days on which it takes place.
pub struct Event {
    pub name: String,
    pub dates: Vec<Date>,
}

/// Days of one month (1..=12) on which an event takes place.
pub struct Date {
    pub month: u32,
    pub days: Vec<u32>,
}

} // verus!
