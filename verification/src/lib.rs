//! Core of a conversational relay: a verified conversation store with
//! append-only, ordered message history; a bidirectional mention codec;
//! a prompt assembler; and the reply orchestration pipeline that ties
//! them together. External collaborators (chat gateway, completion
//! service, durable storage) are driven by a thin host program around
//! this library.

pub mod digits;
pub mod errors;
pub mod mentions;
pub mod msg;
pub mod prompt;
pub mod reply;
pub mod store;
pub mod text;
