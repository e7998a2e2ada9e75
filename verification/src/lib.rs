//! Guard policy engine for a Jira MCP server.

pub mod answers;
pub mod audit;
pub mod calling;
pub mod client;
pub mod config;
pub mod decisions;
pub mod encoding;
pub mod flow;
pub mod guard;
pub mod hiding;
pub mod json;
pub mod keeping;
pub mod keymap;
pub mod keyset;
pub mod laws;
pub mod manual;
pub mod meta;
pub mod outcomes;
pub mod permits;
pub mod policy;
pub mod policy_file;
pub mod printing;
pub mod project;
pub mod recording;
pub mod replies;
pub mod reply;
pub mod requests;
pub mod run;
pub mod scrub;
pub mod search;
pub mod searching;
pub mod secrecy;
pub mod server;
pub mod settings;
pub mod starting;
pub mod table;
pub mod text;
pub mod tools;
pub mod visibility;
pub mod wording;
