//! Bridge from a particle sensor's binary frames to a register bank served to
//! protocol clients: frame decoding, register storage, request handling and
//! ingestion, each with its contract.
pub mod config;
pub mod display;
pub mod ingest;
pub mod payload;
pub mod registers;
pub mod service;

pub use payload::{add_hi_lo_bytes, checksum, parse_stream_to_payload, DecodeError, Payload, FRAME_START};
