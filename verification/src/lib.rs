//! A tamper-evident audit pipeline for a stdio JSON-RPC dialog: an
//! ordered tap sequencer, a request/response correlator, a hash-chained
//! and checkpoint-signed JSONL sink with optional AEAD envelope
//! encryption, and an offline verifier that replays the chain.
pub mod canon;
pub mod codec;
pub mod config;
pub mod crypto;
pub mod envelope;
pub mod errors;
pub mod events;
pub mod json;
pub mod jtext;
pub mod names;
pub mod order;
pub mod parser;
pub mod records;
pub mod session;
pub mod sink;
pub mod audit;
