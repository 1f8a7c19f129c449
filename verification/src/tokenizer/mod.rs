//! Tokenizers: texts to token ids and back.
pub mod bpe;
pub mod bytelevel;
pub mod listed;
pub mod load;
pub mod merges;
pub mod parts;
pub mod pretokens;
pub mod roundtrip;
pub mod sentencepiece;
pub mod simple;
