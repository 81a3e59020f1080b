pub mod anchor;
pub mod app_state;
pub mod config;
pub mod document;
pub mod events;
pub mod file_browser;
pub mod file_loader;
pub mod json_types;
pub mod parser;
pub mod paths;
pub mod render;
pub mod spans;

pub use anchor::heading_to_anchor;
pub use config::{ColorConfig, ContentWidth, ThemeMode};
pub use document::{inlines_to_text, Block, ColumnAlign, Inline, ListItem};
pub use file_browser::{FileBrowser, TreeNode};
pub use file_loader::{FileLoader, LoadError};
pub use parser::MarkdownParser;
