//! Extracts keyboard-shortcut bindings from an editor configuration file and
//! pairs each one with documentation drawn from per-plugin JSON definition
//! files.
//!
//! The library is organised as four cooperating pieces:
//! - `parser` (with `grammar`): a line-oriented scanner over the primary
//!   configuration syntax that recognises binding statements and slices out
//!   embedded blocks of the secondary scripting language;
//! - `navigator` (with `lua` and `analisar_api`): mines an embedded block
//!   for the "load module, call its setup function with a nested table"
//!   idiom and flattens the table into qualified bindings;
//! - `resolver` (with `json_api`): a lazily loaded, per-root cache of JSON
//!   definition files and the rules for attaching documentation to a
//!   binding;
//! - `keybinding` and `text`: the data model and the character-level
//!   helpers the other modules share.
//!
//! File reading, directory listing, argument handling and console output are
//! left to the surrounding application; the library works on plain values.

pub mod analisar_api;
pub mod grammar;
pub mod json_api;
pub mod keybinding;
pub mod lua;
pub mod navigator;
pub mod parser;
pub mod resolver;
pub mod text;
