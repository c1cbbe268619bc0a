#![allow(non_snake_case)]

pub mod string_pattern_matching;
pub mod text;
pub mod token_info;
pub mod tokens;
pub mod edits;
pub mod code_tabs;
pub mod edit_laws;
pub mod token_moves;
pub mod recalc;
pub mod tabs;
pub mod term_render;
pub mod file_manager;
pub mod rust_linter;
pub mod rust_outline;
pub mod colors;
pub mod event_handler;
pub mod scroll;
pub mod main_app;
pub mod key_handling;
pub mod code_keys;
pub mod code_view;
pub mod term_app;
pub mod layout;
pub mod rust_defs;
pub mod lsp;
pub mod completion;
pub mod mouse;
pub mod linters;
pub mod syntax_scripts;
