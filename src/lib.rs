//! Decoding of NMEA-0183 sentences into typed records.
//!
//! A sentence passes three stages: the envelope (framing, length and
//! checksum), the dispatch on its type tag, and the field grammar of that
//! type. Each stage is stated as a spec function over the input bytes and
//! every executable function is proved to compute it.
pub mod errors;
pub mod token;
pub mod fields;
pub mod status;
pub mod vtg;
pub mod pubx;
pub mod envelope;
pub mod sentence;

pub use errors::NmeaSentenceError;
pub use sentence::{parse_sentence, Sentence, SentenceType};
