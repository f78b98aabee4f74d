//! Verified core of a terminal front end for the Mihomo proxy controller:
//! URL and request construction, interpretation of controller replies,
//! the application state machine and the screen model that the terminal
//! layer renders.

pub mod text;
pub mod json;
pub mod api;
pub mod state;
pub mod view;
pub mod cli;
