//! Streaming reader for VkOpt chat-export markup: a tag-driven state machine that
//! turns a flat token stream into message events, with a skip protocol that lets a
//! consumer drop a whole message and everything forwarded inside it.
pub mod raw_text;
pub mod reader;
pub mod invariants;
pub mod filter;
pub mod writers;
