//! Domain models of chats, messages and users.

pub mod chat;
pub mod message;
pub mod user;
