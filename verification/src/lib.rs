//! A local index of a source tree, kept up to date file by file, and the
//! bounded context it gives for a symbol or a line range: which files
//! changed, which chunks a file's tags cut it into, what a question is
//! about, and the sections of text that are gathered around it.

pub mod strings;
pub mod numbers;
pub mod paths;
pub mod clock;
pub mod tally;
pub mod text;
pub mod digest;
pub mod pattern;
pub mod store;
pub mod scan;
pub mod index;
pub mod explain;
pub mod sections;
pub mod summarize;
pub mod stats;
pub mod llm;
pub mod limits;
pub mod state;
pub mod appconfig;
pub mod set_cmd;
pub mod config_cmd;
pub mod context;
