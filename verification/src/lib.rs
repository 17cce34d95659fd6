//! Command-prompt resolution for a waveform viewer: a grammar of typed
//! commands, the expansion of raw prompt input against that grammar, and the
//! short alphabetic labels by which displayed signals are addressed.

pub mod action;
pub mod command;
pub mod commands;
pub mod expand;
pub mod fuzzy;
pub mod message;
pub mod search;
pub mod text;
pub mod translation;
pub mod util;
