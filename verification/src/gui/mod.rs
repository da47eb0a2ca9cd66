//! The chat screen's logic: chat list building, sidebar grouping, message
//! parsing and the screen and login state machines.

pub mod chatsvc;
pub mod login;
pub mod main_screen;
pub mod names;
pub mod presentation;
pub mod refresh;
pub mod screen;
pub mod sections;
pub mod style;
pub mod widget;
