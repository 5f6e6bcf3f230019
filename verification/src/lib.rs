//! An embeddable HTTP client engine: request construction with retry and
//! backoff, buffered and streaming responses, case-insensitive header maps,
//! and charset resolution for response bodies.
//!
//! The crate holds the engine's logic; the network transport and the
//! surrounding process glue live outside it and drive the engine through
//! plain values.

pub mod text;

pub mod headers;
pub mod maps;
pub mod encoding;
pub mod retry;
pub mod errors;
pub mod engine;
pub mod codec;
pub mod request;
pub mod stream;
pub mod response;
