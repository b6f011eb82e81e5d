//! Macro and weapon-profile management: parsing of imported macros, hotkey
//! labels, configuration edits, UI snapshots and the decisions of the input
//! and playback loops.
pub mod text;
pub mod fmt;
pub mod types;
pub mod amc_import;
pub mod hotkey_util;
pub mod commands;
pub mod embedded_icons;
pub mod profile_manager;
pub mod config_manager;
pub mod executor;
pub mod input_listener;
pub mod macro_engine;
