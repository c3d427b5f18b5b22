//! Annotates file paths with the cursor line that an editor last recorded for them.
//!
//! The editor keeps a history: one line per file, the path and the cursor line with a
//! tab between them. [`history`] reads such lines into a table. [`target`] holds the
//! directory that the output is restricted to, and says how a path below it is shown.
//! [`annotate`] puts the two together: for a line that names a path it gives the line
//! to print, in plain text or in colours. [`style`] paints a path in the colours of
//! `LS_COLORS`, and [`text`] holds the string primitives that the others are built on.

pub mod annotate;
pub mod history;
pub mod style;
pub mod target;
pub mod text;
