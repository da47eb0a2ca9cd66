//! What the login reads out of the Teams web app.

pub mod browser;
