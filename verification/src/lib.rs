//! Find and replace across files: the rules behind the `sey` command.
pub mod accept_laws;
pub mod batch;
pub mod cli;
pub mod edit;
pub mod engine;
pub mod file_types;
pub mod found;
pub mod frame;
pub mod hunks;
pub mod input_field;
pub mod keys;
pub mod lines;
pub mod list_laws;
pub mod messages;
pub mod model_laws;
pub mod outcome;
pub mod output_laws;
pub mod panes;
pub mod partial;
pub mod pattern;
pub mod process;
pub mod render;
pub mod report;
pub mod report_laws;
pub mod search_laws;
pub mod segments;
pub mod session;
pub mod session_laws;
pub mod style;
pub mod text;
pub mod view_laws;
pub mod walk;
