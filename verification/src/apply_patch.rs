//! The `apply_patch` tool: the patch grammar, the placement of a patch in a
//! file, and the report a run leaves behind.

pub mod edit;
pub mod hunk;
pub mod parser;
pub mod report;
pub mod run;
pub mod sections;
pub mod steps;
pub mod summary;
pub mod tool;
pub mod written;
