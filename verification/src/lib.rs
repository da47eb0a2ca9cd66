//! Verified core of a Microsoft Teams desktop client: chat-list building,
//! folder grouping, message parsing and the screen state machine.

pub mod text;
pub mod json;
pub mod num;
pub mod api;
pub mod models;
pub mod gui;
pub mod auth;
