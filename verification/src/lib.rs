//! A gateway library that lets simple line-oriented JSON clients drive a
//! session against an industrial-automation server.
//!
//! The crate holds the per-connection core: the byte-stream framer that cuts
//! newline-delimited frames out of raw reads, the codec that turns frames into
//! requests and responses into frames, and the connection state machine that
//! interprets requests against the session state. Socket handling and the
//! automation-protocol client itself live outside the library; the state
//! machine hands them plain values and takes plain values back.

pub mod codec;
pub mod framer;
pub mod handler;
