//! Velotype's document and configuration logic: Markdown fence parsing for
//! Mermaid diagrams, JSONC handling, configuration file names, user
//! preferences, the single-line text input model and layout decisions.
pub mod text;
pub mod jsonc;
pub mod config;
pub mod json_value;
pub mod mermaid;
pub mod mermaid_render;
pub mod toml_value;
pub mod preferences;
pub mod utf;
pub mod graphemes;
pub mod input;
pub mod layout;
pub mod export;
pub mod actions;
pub mod switch;
pub mod dialogs;
