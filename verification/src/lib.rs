//! Verified core of a local webhook inspector: a desktop program that
//! receives JSON payloads over HTTP, keeps them in a size-capped store, and
//! shows them as highlighted, collapsible text.
//!
//! Every function in this crate is verified against its contract. The
//! contracts speak of mathematical values: sequences of characters, sets of
//! line numbers, and the view of each data type.
//!
//! - [`storage`] holds the payloads and a running total of their sizes, and
//!   evicts the oldest ones when the total would pass the cap.
//! - [`highlight`] lays a JSON text out line by line, with [`tokens`] for the
//!   tokens of a line, [`collapse`] for the blocks that can be folded, and
//!   [`literal`] for what counts as a number.
//! - [`app`] is the state of the program and its transitions; [`payloads`]
//!   and [`settings`] say what the list of payloads and the settings dialog
//!   show.
//! - [`text`], [`number`], [`clock`], [`json`], [`theme`] and
//!   [`storage_events`] are what the others stand on.
//!
//! # What is taken on trust
//!
//! The crate calls into the standard library, `serde_json`, `chrono` and
//! `millisecond` where it needs lowercase forms, JSON text, the clock and
//! phrases for durations. Each such call stands in a function of a few lines
//! whose contract is believed, not proved. They are: `to_lowercase` and the
//! specification of `String::push` in [`text`]; `to_compact`, `to_pretty`,
//! `list_to_pretty`, `parse_list`, `parse_sized_list` and the specification
//! of `Value::clone` in [`json`]; `now_millis`, `is_timestamp` and `relative`
//! in [`clock`].

pub mod text;
pub mod literal;
pub mod number;
pub mod collapse;
pub mod tokens;
pub mod highlight;
pub mod json;
pub mod clock;
pub mod storage;
pub mod storage_events;
pub mod theme;
pub mod settings;
pub mod payloads;
pub mod app;
