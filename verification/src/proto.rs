//! The wire format of HTTP/3.
pub mod frame;
pub mod laws;
pub mod layout;
pub mod push;
pub mod settings;
