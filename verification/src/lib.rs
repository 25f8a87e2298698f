//! Verified core of a terminal multiplexer that splits one terminal window
//! into an NxN grid of shell panes.
//!
//! - `grid`: layout geometry (cell rectangles, index conversions).
//! - `input`: mapping of key presses to multiplexer actions or PTY bytes.
//! - `terminal_cell`: per-pane screen buffer driven by terminal events.
//! - `app`: multiplexer state (layout, focus, panes), its transitions, and the
//!   step from each event of the main loop to the next state and its effect.
//! - `ui`: what is painted where on the screen.
//! - `pty`: the message a pane's shell output travels in.
pub mod app;
pub mod grid;
pub mod input;
pub mod pty;
pub mod terminal_cell;
pub mod ui;
