//! Verified logic of the VaultSeed password manager front end: text and number
//! parsing of user input, the command-line argument helpers, the confirmation
//! action protocol, the export selection tree, the restriction format editor and
//! the view models that the user interface shows.

pub mod text;
pub mod number;
pub mod model;
pub mod ids;
pub mod hex_view;
pub mod helpers;
pub mod emoji_text;
pub mod export_tree;
pub mod export_build;
pub mod export_request;
pub mod format_editor;
pub mod sequence_view;
pub mod confirm;
pub mod cli;
pub mod cli_inputs;
pub mod overlay;
pub mod tutorial;
pub mod session_forms;
pub mod device_forms;
pub mod domain_view;
pub mod static_view;
pub mod local_settings;
pub mod login;
pub mod pick_path;
pub mod search_view;
pub mod selection;
pub mod benchmark_view;
