pub mod text;
pub mod tokenization_utils;
pub mod word_pattern;
pub mod ctrl_tokenizer;
pub mod base_tokenizer;
