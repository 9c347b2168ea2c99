//! Handlers that turn one command byte into line writes.
pub mod handler;
pub mod led;
