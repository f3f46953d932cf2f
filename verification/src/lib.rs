//! Core logic of a hex viewer/editor and of linked diff buffers for a modal
//! text editor, with its behaviour stated as Verus contracts.

pub mod hex_layout;
pub mod text;
pub mod hex_format;
pub mod hex_motion;
pub mod color;
pub mod line_map;
pub mod diff_group;
pub mod hex_edit;
pub mod debounce;
pub mod text_lines;
pub mod local_search;
pub mod inline_diff;
pub mod breadcrumb;
pub mod file_watch;
pub mod hex_render;
pub mod symbols;
pub mod hooks;
pub mod version;
