//! Activity tracking library: the verified core of an X11 focus tracker.
//!
//! The modules hold the logic that decides what is recorded, how titles are
//! grouped, and how reports and timelines are rendered. Reading from X11,
//! SQLite and the terminal is done by the program around the library.

pub mod text;
pub mod unlogged;
pub mod style;
pub mod time;
pub mod unicode;
pub mod titles;
pub mod order;
pub mod report;
pub mod model;
pub mod storage;
pub mod tracker;
pub mod consistency;
pub mod workflow;
pub mod terminal;
pub mod x11;
pub mod paths;
pub mod cli;
pub mod dispatcher;
pub mod output;
pub mod json;
