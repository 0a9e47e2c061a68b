use rust_transformers::preprocessing::tokenizer::base_tokenizer::{TokenizedInput, TruncationStrategy};
use rust_transformers::preprocessing::tokenizer::ctrl_tokenizer::CtrlTokenizer;
use rust_transformers::preprocessing::vocab::bpe_vocab::BpePairVocab;
use rust_transformers::preprocessing::vocab::openai_gpt_vocab::OpenAiGptVocab;
use std::collections::HashMap;
use std::rc::Rc;

fn generate_test_vocab() -> OpenAiGptVocab {
    let values: HashMap<String, i64> = [
        ("t".to_owned(), 0),
        ("h".to_owned(), 1),
        ("a@@".to_owned(), 2),
        ("n".to_owned(), 3),
        ("the".to_owned(), 4),
        ("r@@".to_owned(), 5),
        ("<unk>".to_owned(), 6),
        ("o@@".to_owned(), 8),
    ]
    .iter()
    .cloned()
    .collect();

    let special_values: HashMap<String, i64> = [("<unk>".to_owned(), 6)].iter().cloned().collect();

    OpenAiGptVocab { values, unknown_value: "<unk>", special_values }
}

fn generate_test_merges() -> BpePairVocab {
    let values: HashMap<(String, String), i64> = [
        (("t".to_owned(), "h".to_owned()), 0),
        (("a".to_owned(), "n".to_owned()), 1),
        (("i".to_owned(), "n".to_owned()), 2),
        (("th".to_owned(), "e</w>".to_owned()), 3),
        (("e".to_owned(), "r".to_owned()), 4),
        (("r".to_owned(), "e".to_owned()), 5),
        (("l".to_owned(), "l".to_owned()), 6),
    ]
    .iter()
    .cloned()
    .collect();

    BpePairVocab { values }
}

#[test]
fn test_ctrl_tokenizer() {
    //        Given
    let vocab = Rc::new(generate_test_vocab());
    let merges = Rc::new(generate_test_merges());
    let ctrl_tokenizer: CtrlTokenizer = CtrlTokenizer::from_existing_vocab_and_merges(vocab, merges);
    let test_tuples = [
        ("the earth", vec!["the", "e@@", "a@@", "r@@", "t@@", "h"]),
        (
            "Hello, world!",
            vec!["H@@", "e@@", "ll@@", "o@@", ",", "w@@", "o@@", "r@@", "l@@", "d@@", "!"],
        ),
        ("", vec![]),
        (" ", vec!["<unk>"]),
        (" \n ", vec!["<unk>"]),
    ];
    let source_texts: Vec<&str> = test_tuples.iter().map(|v| v.0).collect();
    let expected_results: Vec<Vec<&str>> = test_tuples.iter().map(|v| v.1.clone()).collect();

    //        When & Then
    for (source_text, expected_result) in test_tuples.iter() {
        assert_eq!(ctrl_tokenizer.tokenize(*source_text), *expected_result);
    }

    assert_eq!(ctrl_tokenizer.tokenize_list(source_texts.clone()), expected_results);
}

#[test]
fn test_encode() {
    //        Given
    let vocab = Rc::new(generate_test_vocab());
    let merges = Rc::new(generate_test_merges());
    let ctrl_tokenizer: CtrlTokenizer = CtrlTokenizer::from_existing_vocab_and_merges(vocab, merges);
    let truncation_strategy = TruncationStrategy::LongestFirst;
    let test_tuples = [
        (
            "the earth",
            TokenizedInput {
                token_ids: vec![4, 6, 2, 5, 6, 1],
                segment_ids: vec![0, 0, 0, 0, 0, 0],
                special_tokens_mask: vec![0, 0, 0, 0, 0, 0],
                overflowing_tokens: vec![],
                num_truncated_tokens: 0,
            },
        ),
        (
            "Hello, world!",
            TokenizedInput {
                token_ids: vec![6, 6, 6, 8, 6, 6, 8, 5, 6, 6, 6],
                segment_ids: vec![0, 0, 0, 0, 0, 0, 0, 0, 0, 0, 0],
                special_tokens_mask: vec![0, 0, 0, 0, 0, 0, 0, 0, 0, 0, 0],
                overflowing_tokens: vec![],
                num_truncated_tokens: 0,
            },
        ),
        (
            "",
            TokenizedInput {
                token_ids: vec![],
                segment_ids: vec![],
                special_tokens_mask: vec![],
                overflowing_tokens: vec![],
                num_truncated_tokens: 0,
            },
        ),
    ];
    let source_texts: Vec<&str> = test_tuples.iter().map(|v| v.0).collect();
    let expected_results: Vec<TokenizedInput> = test_tuples.iter().map(|v| v.1.clone()).collect();

    //        When & Then
    for (source_text, expected_result) in test_tuples.iter() {
        assert_eq!(ctrl_tokenizer.encode(source_text, None, 128, &truncation_strategy, 0), *expected_result);
    }
    assert_eq!(ctrl_tokenizer.encode_list(source_texts.clone(), 128, &truncation_strategy, 0), expected_results);
}
