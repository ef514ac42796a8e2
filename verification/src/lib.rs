//! The core of a small command interpreter: splitting a line into words under
//! shell quoting rules, taking redirections out of an argument list, planning
//! the stages of a pipeline, command-name completion and history browsing.

pub mod text;
pub mod quoting;
pub mod redirection;
pub mod pipeline;
pub mod autocompletion;
pub mod command;
pub mod history;
