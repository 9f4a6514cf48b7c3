//! The logic of a panel applet that runs shell commands at their own
//! intervals and shows their output, colored by ANSI codes, between a
//! configurable separator.
//!
//! - `text`: white space, trimming, and decimal numbers in text.
//! - `ansi`: splitting command output into colored pieces.
//! - `config`: the configuration and how its file is read.
//! - `command`: what the panel shows for a command that ran.
//! - `applet`: the applet's state, how each message changes it, and the
//!   action that follows.
//! - `panel`: what the panel and the popup editor show.
//! - `laws`: what holds across messages.
pub mod ansi;
pub mod applet;
pub mod command;
pub mod config;
pub mod laws;
pub mod panel;
pub mod text;
