//! Reconstruction of `(command, output)` records from the raw transcript of a
//! terminal session.
//!
//! A transcript holds shell prompts, terminal control sequences, window
//! titles, input edited with backspaces, and the output of commands, all in
//! one stream. The library takes it apart in stages:
//!
//! - [`clean`] removes the control sequences, from a whole text or line by
//!   line;
//! - [`hooks`] finds the marker lines that a shell hook wrote at the start of
//!   each command, and cuts the transcript into the blocks between them;
//! - [`extract`] reads one block into a record, by its lines and by its last
//!   window title;
//! - [`filter`] takes the tool's own invocations out of the records;
//! - [`history`] runs the stages one after the other and keeps the last
//!   records asked for.
//!
//! [`prompt`], [`config`] and [`discover`] hold what the callers of the
//! pipeline decide on plain values; [`text`] holds the character-level
//! building blocks.

pub mod clean;
pub mod config;
pub mod discover;
pub mod extract;
pub mod filter;
pub mod history;
pub mod hooks;
pub mod prompt;
pub mod text;
