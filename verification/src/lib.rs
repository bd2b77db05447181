//! The framing layer of HTTP/3: frames are decoded out of the chunks that a
//! QUIC stream hands over, under a limit on what may be buffered.
pub mod buf;
pub mod chunk;
pub mod config;
pub mod error;
pub mod frame;
pub mod laws;
pub mod outcomes;
pub mod proto;
pub mod quic;
pub mod stream;
pub mod varint;
