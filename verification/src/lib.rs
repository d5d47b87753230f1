//! A terminal pager's core logic: ANSI parsing, hex dumps, file-set
//! navigation, colon-command parsing, filters, display templates and more.

pub mod error;
pub mod text;
pub mod hex;
pub mod file_set;
pub mod ansi;
pub mod render;
pub mod viewport;
pub mod tags;
pub mod app;
pub mod colon;
pub mod keystep;
pub mod pager;
pub mod config_path;
pub mod format;
pub mod filter;
pub mod input;
pub mod keys;
pub mod keymap;
pub mod git;
pub mod layout;
pub mod diff;
pub mod image_render;
pub mod image_export;
pub mod image_protocol;
pub mod anim;
pub mod pattern;
pub mod grep;
pub mod line_index;
pub mod charset;
pub mod clipboard;
pub mod batch;
pub mod diff_view;
pub mod term;
pub mod format_config;
pub mod manpage;
