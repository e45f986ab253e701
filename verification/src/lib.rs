//! A verified loader for the JMdict bilingual dictionary format.
//!
//! The library decodes a JMdict-style XML document into a typed, in-memory
//! dictionary: a sequence of entries, each with kanji forms, reading forms and
//! senses. The structural rules of the grammar (required fields, cardinality,
//! attribute defaults, positional dispatch of reused tag names, document-order
//! preservation) are stated as contracts and proved.

pub mod model;
pub mod strutil;
pub mod builders;
pub mod decode;
pub mod laws;

pub use model::{JMDict, Entry, KEle, REle, Sense, LSource, Gloss};
pub use model::{JMDictError, DecodeFault, FaultRule};
pub use decode::decode_jmdict;
