//! Tokenizers for transformer language models, with the CTRL tokenizer
//! (byte-pair encoding over whitespace-separated words) verified against
//! a mathematical model of its output.

pub mod preprocessing;
pub mod requests;
