//! Reports: which schedules are accepted, which report is featured, and how one is researched
//! and written.

pub mod citations;
pub mod evidence;
pub mod featured;
pub mod prompt;
pub mod report;
pub mod research;
pub mod schedule;
pub mod tools;
