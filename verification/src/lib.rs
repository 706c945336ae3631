//! Renders the difference between two texts as an annotated, colorized
//! report, for a reader who wants to see at a glance what a test expected
//! and what it got.
//!
//! The two texts are compared chunk by chunk ([`chunk`]). The report
//! ([`render`]) opens with a legend line and then shows every chunk in
//! order: shared text behind a space, removed text behind `<`, added text
//! behind `>`. A deletion that is followed at once by an insertion is a
//! modified line: the two are compared once more and shown as two rows in
//! which exactly the changed spans are emphasized. What a span means is its
//! highlight class; the styling that a class stands for, and how to take it
//! off again, is in [`style`]. Without styling the report is the plain lines
//! of its chunks, modified or not ([`plain`]). Consoles that must be told to
//! interpret styling are told once per process, under the guard in
//! [`setup`].
//!
//! The report is written to the end of a `String`. Every function states
//! what it writes as a sequence of spans, so its output is known to the
//! character.

pub mod chunk;
pub mod plain;
pub mod render;
pub mod setup;
pub mod style;
pub mod text;

pub use crate::chunk::{diff_chunks, Chunk};
pub use crate::render::{
    diff, fmt_changeset, format_add, format_add_rem, format_rem, format_rows, format_same,
    PrettyDifference,
};
pub use crate::setup::{enable_ansi, finish, Setup, Turn};
pub use crate::style::{strip_styling, Highlight};
