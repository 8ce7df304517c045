//! A conversation engine: it extracts commands embedded in message text, derives the stack of
//! open tasks from the task log that messages carry, evaluates messages into metadata and
//! follow-up messages, applies edits to a conversation, and compiles the conversation into
//! training prompts.

pub mod backend;
pub mod command;
pub mod conversation;
pub mod eval;
pub mod message;
pub mod reducer;
pub mod system;
pub mod training;
