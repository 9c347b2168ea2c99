//! A bridge between a one-byte remote-control protocol and GPIO output lines.
//!
//! `gpio` resolves symbolic pin names and keeps the process-wide cache of open
//! chips and requested lines; `handler` and `handlers` turn command bytes into
//! line writes; `protocol` frames a byte stream into commands and replies.
pub mod gpio;
pub mod handler;
pub mod handlers;
pub mod protocol;
