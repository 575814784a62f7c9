//! Entry resolution and viewport navigation for a date-indexed journal.
//!
//! Every calendar day maps to at most one text file under a base directory.
//! This crate decides which days are listed, which file stands for a day, and
//! how a scrolling window follows the selection cursor. It never touches the
//! filesystem, the clock or the terminal itself: callers hand in what they
//! observed as plain values and carry out what the crate decides.

pub mod calendar;
pub mod entry;
pub mod range;
pub mod session;
pub mod viewport;
