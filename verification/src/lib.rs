//! A verified library for peeling nested, differently-encoded layers out of a
//! single byte blob.
//!
//! The core pieces are a delimited base-85 decoder (`ascii85`), a set of
//! per-layer byte transforms (`layers`), and a synthetic IPv4/UDP packet
//! reconstruction engine (`layers::layer4`). Each stage is a pure function
//! from an input buffer to an output buffer; all I/O and stage sequencing is
//! left to the caller.

pub mod ascii85;
pub mod errors;
pub mod layers;
