//! A lazy, bidirectional line index over a read-only byte buffer, and the
//! navigation state machine of a terminal pager built on it.
//!
//! - [`text`] says what the lines of a buffer are.
//! - [`line_range`] has the windows of line ordinals that are asked for.
//! - [`line_reader`] has the index: it finds line boundaries on demand, from
//!   either end of the buffer, and gives the lines of a window as slices of
//!   the buffer. [`scan`] finds the newlines for it.
//! - [`index_laws`] states what holds of every read.
//! - [`navigator`] turns commands into windows, reads them, and says what to
//!   draw.
//! - [`keys`] and [`raw_keys`] turn key presses into commands and keys.
//! - [`screen`] and [`con`] lay the screen out and write the console
//!   commands that fill it.

pub mod con;
pub mod index_laws;
pub mod keys;
pub mod line_range;
pub mod line_reader;
pub mod navigator;
pub mod raw_keys;
pub mod scan;
pub mod screen;
pub mod text;
