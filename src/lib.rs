use vstd::prelude::*;

/// Searching and copying byte sequences.
pub mod byteseq;
/// The literal pieces of the documents this library writes and reads.
pub mod xml_text;
/// Cursor-on-Target events and their XML documents.
pub mod cot;
/// Fixed-point decimal numbers and their text.
pub mod decimal;
/// Framing of the radio link's byte stream.
pub mod frame;
/// Splitting payloads into chunks and reassembling them.
pub mod chunk;
/// Relay server configuration and errors.
pub mod config;
/// Client registry, fan-out, identifiers and admission.
pub mod router;
/// The reading side of a relay client connection.
pub mod client;
/// Translation between CoT events and mesh packets.
pub mod mesh;
/// Connection settings, link states, certificates and error codes.
pub mod link;
/// Where a pattern can and cannot occur in a document made of pieces.
pub mod scan;
/// Reading back a written CoT document.
pub mod round_trip;

