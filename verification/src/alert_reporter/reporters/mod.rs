//! The reporters that alerts can be sent through.
pub mod mail;
pub mod telegram;
