//! Fred Text: the verified core of a lightweight text editor.

pub mod text;
pub mod edit_ops;
pub mod error;
pub mod search;
pub mod path;
pub mod path_order;
pub mod highlight;
pub mod tab;
pub mod workspace;
pub mod persistence;
pub mod app;
pub mod fs_ops;
pub mod file_icon;
pub mod file_icon_bytes;
pub mod file_icon_table;
pub mod font;
