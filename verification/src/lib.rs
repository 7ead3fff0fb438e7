//! Verified core of the auger agent harness: slash commands, completion,
//! shell auto-approval, tool batches, the session record and the harness
//! state machine.

pub mod text;
pub mod command;
pub mod completion;
pub mod provider;
pub mod shell_syntax;
pub mod json;
pub mod path;
pub mod shell_policy;
pub mod tool_batch;
pub mod agent;
pub mod record;
pub mod harness;
pub mod tui;
pub mod chat;
pub mod layout;
pub mod tool_view;
pub mod tools;
pub mod anthropic;
pub mod traces;
pub mod dummy;
pub mod web;
pub mod markdown;
pub mod tool_render;
pub mod diff_render;
pub mod transcript;
pub mod keys;
pub mod tool_defs;
pub mod screen;
pub mod server;
