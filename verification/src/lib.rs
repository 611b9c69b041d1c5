//! Verified core of a small web GUI toolkit: the GUI is described in YAML,
//! a server side registers one channel per interactive element, and a
//! browser side builds the page and reacts to updates.

pub mod text;
pub mod net;
pub mod config;
pub mod server;
pub mod plot;
pub mod dom;
pub mod message;
pub mod update;
pub mod laws;
