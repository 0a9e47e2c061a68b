pub mod base_vocab;
pub mod bpe_vocab;
pub mod openai_gpt_vocab;
