//! A verified decoder for RESP, the textual wire protocol spoken by Redis
//! clients and servers (versions 2 and 3).
//!
//! The crate turns one complete in-memory frame of text into a structured
//! [`RESP`] value, or rejects it.  The accepted grammar and the produced
//! value are pinned down by a specification-level parser over `Seq<char>`
//! ([`grammar::spec_value`]); the executable decoder is proved to agree
//! with it on every input.

pub mod decode;
pub mod double;
pub mod grammar;
pub mod laws;
pub mod lex;
pub mod number;
pub mod scan;
pub mod value;

pub use value::RESP;
pub use value::SpecValue;
