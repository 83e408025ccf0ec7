pub mod apply_patch;
pub mod ask_user_question;
pub mod experimentals;
pub mod git;
pub mod herdr;
pub mod json;
pub mod mcp;
pub mod openrouter;
pub mod questions;
pub mod session_listing;
pub mod session_model;
pub mod sort;
pub mod ssh_ops;
pub mod text;
pub mod text_map;
pub mod timestamp;
