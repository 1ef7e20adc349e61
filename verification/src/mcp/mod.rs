//! The server that other agents reach over standard input and output: framing
//! of lines, the order of the handshake, and what each request is answered.
pub mod lines;
pub mod server;
pub mod tools;
