pub mod tokenizer;
pub mod vocab;
