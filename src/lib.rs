//! Builds a static HTML calendar of a year's events: a small element tree
//! that serializes to HTML, a day-by-day schedule of the months that the
//! events touch, and the page built from both.
pub mod date;
pub mod element;
pub mod input;
pub mod render;
pub mod schedule;
